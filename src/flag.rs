//! The condition flags, and how a comparison sets them.
use vstd::prelude::*;

verus! {

/// The four condition flags.
#[derive(Clone, Copy, Debug, PartialEq, Eq, Structural)]
pub struct Flag {
    /// Signed overflow.
    pub v: bool,
    /// Zero.
    pub z: bool,
    /// Negative.
    pub n: bool,
    /// Carry: set when the unsigned subtraction borrows.
    pub c: bool,
}

/// The value of a word read as a two's-complement signed integer.
pub open spec fn signed(x: u32) -> int {
    if x < 0x8000_0000 {
        x as int
    } else {
        x as int - 0x1_0000_0000
    }
}

/// The flags after comparing `op1` with `op2`, that is after computing
/// `op1 - op2`. The unsigned subtraction goes first: if it borrows, only `c`
/// is set; otherwise `c` is cleared, `z` tells whether the difference is zero
/// and `n` is cleared. The signed subtraction goes second: if it overflows,
/// only `v` is set; otherwise `v` is cleared and `z` and `n` tell whether the
/// signed difference is zero or negative.
pub open spec fn compare_flags(f: Flag, op1: u32, op2: u32) -> Flag {
    let after_unsigned = if op1 < op2 {
        Flag { c: true, ..f }
    } else {
        Flag { c: false, z: op1 == op2, n: false, ..f }
    };
    let d = signed(op1) - signed(op2);
    if d < -0x8000_0000 || d > 0x7FFF_FFFF {
        Flag { v: true, ..after_unsigned }
    } else {
        Flag { v: false, z: d == 0, n: d < 0, ..after_unsigned }
    }
}

impl Flag {
    /// All four flags cleared.
    pub fn new() -> (r: Flag)
        ensures
            r == (Flag { v: false, z: false, n: false, c: false }),
    {
        Flag { v: false, z: false, n: false, c: false }
    }

    /// Set the flags from the comparison of `op1` with `op2`.
    pub fn update(&mut self, op1: u32, op2: u32)
        ensures
            *final(self) == compare_flags(*old(self), op1, op2),
    {
        if op1 < op2 {
            self.c = true;
        } else {
            self.c = false;
            self.z = op1 - op2 == 0;
            self.n = false;
        }
        let s1: i64 = if op1 < 0x8000_0000 { op1 as i64 } else { op1 as i64 - 0x1_0000_0000 };
        let s2: i64 = if op2 < 0x8000_0000 { op2 as i64 } else { op2 as i64 - 0x1_0000_0000 };
        let d: i64 = s1 - s2;
        if d < -0x8000_0000 || d > 0x7FFF_FFFF {
            self.v = true;
        } else {
            self.v = false;
            self.z = d == 0;
            self.n = d < 0;
        }
    }

    pub fn get_z(&self) -> (r: bool)
        ensures
            r == self.z,
    {
        self.z
    }

    pub fn get_v(&self) -> (r: bool)
        ensures
            r == self.v,
    {
        self.v
    }

    pub fn get_n(&self) -> (r: bool)
        ensures
            r == self.n,
    {
        self.n
    }

    pub fn get_c(&self) -> (r: bool)
        ensures
            r == self.c,
    {
        self.c
    }
}

} // verus!
