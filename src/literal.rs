//! Immediate literals: `#1234`, `#0x1A2B` and `#'c'`.
use vstd::prelude::*;

use crate::text::{chars_of, substring};

verus! {

/// An immediate value, as written after its leading `#`.
#[derive(Clone, Debug, PartialEq, Eq)]
pub enum Literal {
    Immediate(String),
}

impl View for Literal {
    type V = Seq<char>;

    open spec fn view(&self) -> Seq<char> {
        match self {
            Literal::Immediate(s) => s@,
        }
    }
}

pub open spec fn is_dec_digit(c: char) -> bool {
    '0' <= c <= '9'
}

pub open spec fn is_hex_digit(c: char) -> bool {
    is_dec_digit(c) || ('a' <= c <= 'f') || ('A' <= c <= 'F')
}

pub open spec fn is_alpha(c: char) -> bool {
    ('a' <= c <= 'z') || ('A' <= c <= 'Z')
}

pub open spec fn hex_digit_value(c: char) -> nat {
    if is_dec_digit(c) {
        (c as nat - '0' as nat) as nat
    } else if 'a' <= c <= 'f' {
        (c as nat - 'a' as nat + 10) as nat
    } else {
        (c as nat - 'A' as nat + 10) as nat
    }
}

/// The value of a string of digits in the given base.
pub open spec fn digits_value(s: Seq<char>, base: nat) -> nat
    decreases s.len(),
{
    if s.len() == 0 {
        0
    } else {
        digits_value(s.drop_last(), base) * base + hex_digit_value(s.last())
    }
}

/// A nonempty string of decimal digits whose value fits in a `u32`.
pub open spec fn parse_dec(s: Seq<char>) -> Option<u32> {
    if s.len() > 0 && (forall|i: int| 0 <= i < s.len() ==> is_dec_digit(#[trigger] s[i]))
        && digits_value(s, 10) <= u32::MAX {
        Some(digits_value(s, 10) as u32)
    } else {
        None
    }
}

/// A nonempty string of hexadecimal digits whose value fits in a `u32`.
pub open spec fn parse_hex(s: Seq<char>) -> Option<u32> {
    if s.len() > 0 && (forall|i: int| 0 <= i < s.len() ==> is_hex_digit(#[trigger] s[i]))
        && digits_value(s, 16) <= u32::MAX {
        Some(digits_value(s, 16) as u32)
    } else {
        None
    }
}

pub open spec fn has_hex_prefix(s: Seq<char>) -> bool {
    s.len() >= 2 && s[0] == '0' && s[1] == 'x'
}

/// The value of the text a literal keeps after lexing: `0x` and hexadecimal
/// digits, a single letter (its character code), or decimal digits.
pub open spec fn literal_value(t: Seq<char>) -> Option<u32> {
    if has_hex_prefix(t) {
        parse_hex(t.skip(2))
    } else if t.len() == 1 && is_alpha(t[0]) {
        Some(t[0] as u32)
    } else {
        parse_dec(t)
    }
}

/// The text kept of a literal word: the word must start with `#`, followed by
/// a decimal `u32`, `0x` and a hexadecimal `u32`, or a letter between single
/// quotes. The `#` is dropped, and so are the quotes. `None` when the word is
/// no valid literal.
pub open spec fn literal_text(w: Seq<char>) -> Option<Seq<char>> {
    if w.len() >= 1 && w[0] == '#' {
        let b = w.skip(1);
        if b.len() == 3 && b[0] == '\'' && b[2] == '\'' && is_alpha(b[1]) {
            Some(seq![b[1]])
        } else if has_hex_prefix(b) {
            if parse_hex(b.skip(2)) is Some {
                Some(b)
            } else {
                None
            }
        } else if parse_dec(b) is Some {
            Some(b)
        } else {
            None
        }
    } else {
        None
    }
}

/// Parse `s[from..]` as digits in base 10 or 16.
fn parse_digits(s: &Vec<char>, from: usize, hex: bool) -> (r: Option<u32>)
    requires
        from <= s.len(),
    ensures
        r == if hex {
            parse_hex(s@.skip(from as int))
        } else {
            parse_dec(s@.skip(from as int))
        },
{
    let ghost t = s@.skip(from as int);
    let ghost base: nat = if hex { 16 } else { 10 };
    let mut acc: u64 = 0;
    let mut over = false;
    let mut all_digits = true;
    let mut i: usize = from;
    while i < s.len()
        invariant
            from <= i <= s.len(),
            t == s@.skip(from as int),
            base == if hex { 16nat } else { 10nat },
            all_digits <==> forall|k: int|
                0 <= k < i - from ==> if hex {
                    is_hex_digit(#[trigger] t[k])
                } else {
                    is_dec_digit(t[k])
                },
            all_digits ==> (over <==> digits_value(t.take(i - from), base) > u32::MAX),
            all_digits && !over ==> acc == digits_value(t.take(i - from), base),
        decreases s.len() - i,
    {
        let c = s[i];
        let ok = if hex {
            ('0' <= c && c <= '9') || ('a' <= c && c <= 'f') || ('A' <= c && c <= 'F')
        } else {
            '0' <= c && c <= '9'
        };
        proof {
            let p = t.take(i - from + 1);
            assert(p.drop_last() =~= t.take(i - from));
            assert(p.last() == c);
        }
        if !ok {
            all_digits = false;
        } else if all_digits && !over {
            let d: u64 = if '0' <= c && c <= '9' {
                (c as u64) - ('0' as u64)
            } else if 'a' <= c && c <= 'f' {
                (c as u64) - ('a' as u64) + 10
            } else {
                (c as u64) - ('A' as u64) + 10
            };
            let b: u64 = if hex { 16 } else { 10 };
            acc = acc * b + d;
            if acc > 0xFFFF_FFFF {
                over = true;
            }
        }
        i += 1;
    }
    assert(t.take(i - from) =~= t);
    if all_digits && !over && i > from {
        Some(acc as u32)
    } else {
        None
    }
}

/// The value of the text a literal keeps after lexing.
pub fn literal_value_of(t: &Vec<char>) -> (r: Option<u32>)
    ensures
        r == literal_value(t@),
{
    if t.len() >= 2 && t[0] == '0' && t[1] == 'x' {
        parse_digits(t, 2, true)
    } else if t.len() == 1 && (('a' <= t[0] && t[0] <= 'z') || ('A' <= t[0] && t[0] <= 'Z')) {
        Some(t[0] as u32)
    } else {
        assert(t@.skip(0) =~= t@);
        parse_digits(t, 0, false)
    }
}

/// Where the kept text of a literal word lies in the word, if the word is a
/// valid literal.
pub fn literal_range(w: &Vec<char>) -> (r: Option<(usize, usize)>)
    ensures
        match r {
            Some((a, b)) => a <= b <= w.len() && literal_text(w@) == Some(w@.subrange(a as int, b as int)),
            None => literal_text(w@) is None,
        },
{
    if w.len() == 0 || w[0] != '#' {
        return None;
    }
    let ghost b = w@.skip(1);
    if w.len() == 4 && w[1] == '\'' && w[3] == '\'' && (('a' <= w[2] && w[2] <= 'z') || ('A'
        <= w[2] && w[2] <= 'Z')) {
        assert(w@.subrange(2, 3) =~= seq![b[1]]);
        Some((2, 3))
    } else if w.len() >= 3 && w[1] == '0' && w[2] == 'x' {
        assert(w@.skip(3) =~= b.skip(2));
        assert(w@.subrange(1, w.len() as int) =~= b);
        if parse_digits(w, 3, true).is_some() {
            Some((1, w.len()))
        } else {
            None
        }
    } else {
        assert(w@.subrange(1, w.len() as int) =~= b);
        if parse_digits(w, 1, false).is_some() {
            Some((1, w.len()))
        } else {
            None
        }
    }
}

impl Literal {
    /// Check that the literal is well formed, as written with its leading `#`,
    /// and strip the `#` (and the quotes of a character). A literal that is not
    /// well formed is left as it is.
    pub fn is_valid(&mut self) -> (r: bool)
        ensures
            r == (literal_text(old(self)@) is Some),
            r ==> final(self)@ == literal_text(old(self)@).unwrap(),
            !r ==> final(self)@ == old(self)@,
    {
        let text = match self {
            Literal::Immediate(s) => s.clone(),
        };
        let w = chars_of(text.as_str());
        match literal_range(&w) {
            Some((a, b)) => {
                *self = Literal::Immediate(substring(text.as_str(), a, b));
                true
            },
            None => false,
        }
    }

    /// The value of a literal whose text was kept by lexing.
    pub fn get_value(self) -> (r: u32)
        requires
            literal_value(self@) is Some,
        ensures
            r == literal_value(self@).unwrap(),
    {
        let w = match &self {
            Literal::Immediate(s) => chars_of(s.as_str()),
        };
        literal_value_of(&w).unwrap()
    }
}

} // verus!
