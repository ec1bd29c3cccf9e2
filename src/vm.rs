//! The virtual processor: sixteen registers, a sparse word-addressed main
//! memory, condition flags, and the fetch/decode/execute cycle.
use vstd::hash_map::HashMapWithView;
use vstd::prelude::*;
use vstd::wrapping::u32_specs::{wrapping_add, wrapping_mul, wrapping_sub};

use crate::assembler::{spec_read_eval, Assembler};
use crate::codec::{decode_field, spec_decode_word, EncoderDecoder, Payload};
use crate::error::Error;
use crate::flag::{compare_flags, Flag};
use crate::isa::{ConditionCode, Form, Opcode, PC_ADDR};

verus! {

broadcast use vstd::std_specs::hash::group_hash_axioms;

/// The state of the processor, as the contracts speak of it.
pub struct MachineView {
    /// The sixteen registers; the program counter is register 15.
    pub regs: Seq<u32>,
    /// The words written to main memory; every other address holds zero.
    pub mem: Map<u32, u32>,
    pub flags: Flag,
}

/// The word at address `a`: zero where nothing was written.
pub open spec fn mem_read(mem: Map<u32, u32>, a: u32) -> u32 {
    if mem.contains_key(a) {
        mem[a]
    } else {
        0
    }
}

impl MachineView {
    pub open spec fn wf(self) -> bool {
        self.regs.len() == 16
    }

    /// The program counter.
    pub open spec fn pc(self) -> u32 {
        self.regs[PC_ADDR as int]
    }

    /// The word the program counter points at.
    pub open spec fn word(self) -> u32 {
        mem_read(self.mem, self.pc())
    }

    pub open spec fn set_reg(self, i: int, v: u32) -> MachineView {
        MachineView { regs: self.regs.update(i, v), ..self }
    }

    pub open spec fn store(self, a: u32, v: u32) -> MachineView {
        MachineView { mem: self.mem.insert(a, v), ..self }
    }

    pub open spec fn set_flags(self, f: Flag) -> MachineView {
        MachineView { flags: f, ..self }
    }
}

/// The result of an arithmetic or logic opcode on its two operands; `None`
/// for the opcodes that are not arithmetic or logic.
pub open spec fn alu(op: Opcode, a: u32, b: u32) -> Option<u32> {
    match op {
        Opcode::ADD => Some(wrapping_add(a, b)),
        Opcode::SUB => Some(wrapping_sub(a, b)),
        Opcode::AND => Some(a & b),
        Opcode::ORR => Some(a | b),
        Opcode::EOR => Some(a ^ b),
        Opcode::MUL => Some(wrapping_mul(a, b)),
        _ => None,
    }
}

/// Whether a branch on `cc` is taken under the flags `f`.
pub open spec fn cond_holds(f: Flag, cc: ConditionCode) -> bool {
    match cc {
        ConditionCode::AL => true,
        ConditionCode::EQ => f.z,
        ConditionCode::NE => !f.z,
        ConditionCode::HS => f.c,
        ConditionCode::LO => !f.c,
        ConditionCode::MI => f.n,
        ConditionCode::PL => !f.n,
        ConditionCode::VS => f.v,
        ConditionCode::VC => !f.v,
        ConditionCode::HI => f.c && !f.z,
        ConditionCode::LS => !f.c || f.z,
        ConditionCode::GE => f.n == f.v,
        ConditionCode::LT => f.n != f.v,
        ConditionCode::GT => !f.z && f.n == f.v,
        ConditionCode::LE => f.z || f.n != f.v,
    }
}

pub open spec fn dr_of(w: u32) -> int {
    decode_field(w, Payload::DR) as int
}

pub open spec fn rx_of(w: u32) -> int {
    decode_field(w, Payload::RX) as int
}

pub open spec fn ry_of(w: u32) -> int {
    decode_field(w, Payload::RY) as int
}

/// `DR <- a op b`, or a load or store at `a + b`.
pub open spec fn binary_effect(s: MachineView, op: Opcode, dr: int, a: u32, b: u32) -> MachineView {
    match alu(op, a, b) {
        Some(r) => s.set_reg(dr, r),
        None => match op {
            Opcode::LDR => s.set_reg(dr, mem_read(s.mem, wrapping_add(a, b))),
            Opcode::STR => s.store(wrapping_add(a, b), s.regs[dr]),
            _ => s,
        },
    }
}

/// Form one: both operands are registers.
pub open spec fn form_one(s: MachineView, op: Opcode, w: u32) -> MachineView {
    binary_effect(s, op, dr_of(w), s.regs[rx_of(w)], s.regs[ry_of(w)])
}

/// Form four: the second operand is the 16-bit immediate.
pub open spec fn form_four(s: MachineView, op: Opcode, w: u32) -> MachineView {
    binary_effect(s, op, dr_of(w), s.regs[rx_of(w)], decode_field(w, Payload::Immed16))
}

/// Form two: `DR <- op(RX)`, a load or store at `RX`, or a comparison of DR with RX.
pub open spec fn form_two(s: MachineView, op: Opcode, w: u32) -> MachineView {
    let dr = dr_of(w);
    let a = s.regs[rx_of(w)];
    match op {
        Opcode::MOV => s.set_reg(dr, a),
        Opcode::MVN => s.set_reg(dr, !a),
        Opcode::LDR => s.set_reg(dr, mem_read(s.mem, a)),
        Opcode::STR => s.store(a, s.regs[dr]),
        Opcode::CMP => s.set_flags(compare_flags(s.flags, s.regs[dr], a)),
        _ => s,
    }
}

/// Form five: the operand is the 20-bit immediate; loads and stores are
/// relative to the program counter of the instruction.
pub open spec fn form_five(s: MachineView, op: Opcode, w: u32) -> MachineView {
    let dr = dr_of(w);
    let imm = decode_field(w, Payload::Immed20);
    match op {
        Opcode::MOV => s.set_reg(dr, imm),
        Opcode::MVN => s.set_reg(dr, !imm),
        Opcode::LDR => s.set_reg(dr, mem_read(s.mem, wrapping_add(s.pc(), imm))),
        Opcode::STR => s.store(wrapping_add(s.pc(), imm), s.regs[dr]),
        Opcode::CMP => s.set_flags(compare_flags(s.flags, s.regs[dr], imm)),
        _ => s,
    }
}

/// Form six: when the condition holds, the program counter is set one short
/// of the target, since every cycle ends by incrementing it. Index 0 is an
/// ordinary target like any other: the program counter wraps to `u32::MAX`
/// and the increment brings it to 0, where execution goes on; a branch to 0
/// does not halt the machine.
pub open spec fn form_six(s: MachineView, op: Opcode, w: u32) -> MachineView {
    match op.spec_cond_code() {
        Some(cc) => if cond_holds(s.flags, cc) {
            s.set_reg(PC_ADDR as int, wrapping_sub(decode_field(w, Payload::Immed20), 1))
        } else {
            s
        },
        None => s,
    }
}

/// The effect of executing word `w`, decoded as `op` in form `f`.
pub open spec fn spec_execute(s: MachineView, f: Form, op: Opcode, w: u32) -> MachineView {
    match f {
        Form::One => form_one(s, op, w),
        Form::Two => form_two(s, op, w),
        Form::Four => form_four(s, op, w),
        Form::Five => form_five(s, op, w),
        Form::Six => form_six(s, op, w),
    }
}

/// One instruction cycle: fetch the word at the program counter, decode it,
/// execute it, and increment the program counter. `None` when the word does
/// not decode.
pub open spec fn spec_step(s: MachineView) -> Option<MachineView> {
    match spec_decode_word(s.word()) {
        Some((f, op)) => {
            let s2 = spec_execute(s, f, op, s.word());
            Some(s2.set_reg(PC_ADDR as int, wrapping_add(s2.pc(), 1)))
        },
        None => None,
    }
}

/// Run for at most `fuel` cycles: the state reached, and `Ok(true)` when the
/// machine stopped at a zero word, `Ok(false)` when the cycles ran out first,
/// or `Err(DecodeError)` when a word on the way did not decode; the state is
/// then the one at that failing fetch.
pub open spec fn spec_run(s: MachineView, fuel: nat) -> (MachineView, Result<bool, Error>)
    decreases fuel,
{
    if s.word() == 0 {
        (s, Ok(true))
    } else if fuel == 0 {
        (s, Ok(false))
    } else {
        match spec_step(s) {
            Some(s2) => spec_run(s2, (fuel - 1) as nat),
            None => (s, Err(Error::DecodeError)),
        }
    }
}

/// The states after `k` cycles from `s`, if every word on the way decodes.
pub open spec fn spec_trace(s: MachineView, k: nat) -> Option<MachineView>
    decreases k,
{
    if k == 0 {
        Some(s)
    } else {
        match spec_trace(s, (k - 1) as nat) {
            Some(t) => spec_step(t),
            None => None,
        }
    }
}

/// Whether `op` writes its destination register.
pub open spec fn writes_dr(op: Opcode) -> bool {
    alu(op, 0, 0) is Some || op == Opcode::MOV || op == Opcode::MVN || op == Opcode::LDR
}

/// A decoded (form, opcode) pair is a row of the bytecode table.
proof fn lemma_decoded_admits(w: u32)
    ensures
        match spec_decode_word(w) {
            Some((f, op)) => op.admits(f) && (op.spec_is_bcc() <==> f == Form::Six),
            None => true,
        },
{
    Opcode::lemma_decode_bytecode_inverse(decode_field(w, Payload::Opcode));
    Opcode::lemma_decode_bytecode_inverse(decode_field(w, Payload::Bcc));
}

/// After an instruction that is not a branch and does not write the program
/// counter as its destination, the program counter has advanced by exactly one.
pub proof fn lemma_pc_increments(s: MachineView)
    requires
        s.wf(),
        spec_decode_word(s.word()) is Some,
        !spec_decode_word(s.word()).unwrap().1.spec_is_bcc(),
        !(writes_dr(spec_decode_word(s.word()).unwrap().1) && dr_of(s.word()) == PC_ADDR),
    ensures
        spec_step(s) is Some,
        spec_step(s).unwrap().pc() == wrapping_add(s.pc(), 1),
        spec_step(s).unwrap().wf(),
{
    lemma_decoded_admits(s.word());
    crate::codec::lemma_register_field_bounds(s.word());
}

/// A branch whose condition holds sets the program counter to its target;
/// one whose condition fails advances it by one. Nothing else changes.
pub proof fn lemma_branch(s: MachineView)
    requires
        s.wf(),
        spec_decode_word(s.word()) is Some,
        spec_decode_word(s.word()).unwrap().1.spec_is_bcc(),
    ensures
        ({
            let op = spec_decode_word(s.word()).unwrap().1;
            let target = decode_field(s.word(), Payload::Immed20);
            &&& spec_step(s) is Some
            &&& spec_step(s).unwrap().pc() == if cond_holds(s.flags, op.spec_cond_code().unwrap()) {
                target
            } else {
                wrapping_add(s.pc(), 1)
            }
            &&& spec_step(s).unwrap().mem == s.mem
            &&& spec_step(s).unwrap().flags == s.flags
            &&& forall|i: int| 0 <= i < 16 && i != PC_ADDR ==> spec_step(s).unwrap().regs[i] == s.regs[i]
        }),
{
    lemma_decoded_admits(s.word());
}

/// `CMP` sets the flags from the comparison of its destination register with
/// its operand (a register in form two, the 20-bit immediate in form five),
/// exactly as `compare_flags` states, and changes nothing but the flags and
/// the program counter.
pub proof fn lemma_cmp_sets_flags(s: MachineView)
    requires
        s.wf(),
        spec_decode_word(s.word()) is Some,
        spec_decode_word(s.word()).unwrap().1 == Opcode::CMP,
    ensures
        ({
            let f = spec_decode_word(s.word()).unwrap().0;
            let w = s.word();
            let operand = if f == Form::Two {
                s.regs[rx_of(w)]
            } else {
                decode_field(w, Payload::Immed20)
            };
            &&& f == Form::Two || f == Form::Five
            &&& spec_step(s) is Some
            &&& spec_step(s).unwrap().flags == compare_flags(s.flags, s.regs[dr_of(w)], operand)
            &&& spec_step(s).unwrap().mem == s.mem
            &&& forall|i: int| 0 <= i < 16 && i != PC_ADDR ==> spec_step(s).unwrap().regs[i] == s.regs[i]
            &&& spec_step(s).unwrap().pc() == wrapping_add(s.pc(), 1)
        }),
{
    lemma_decoded_admits(s.word());
}

/// Running one cycle and then `k` more is running `k + 1` cycles.
proof fn lemma_trace_shift(s: MachineView, s2: MachineView, k: nat)
    requires
        spec_step(s) == Some(s2),
    ensures
        spec_trace(s, k + 1) == spec_trace(s2, k),
    decreases k,
{
    assert(spec_trace(s, 0) == Some(s));
    if k > 0 {
        lemma_trace_shift(s, s2, (k - 1) as nat);
        assert(spec_trace(s, k) == spec_trace(s2, (k - 1) as nat));
    }
    assert(spec_trace(s, k + 1) == match spec_trace(s, k) {
        Some(t) => spec_step(t),
        None => None,
    });
}

/// A run stops with `true` exactly when it reaches a zero word: it then stands
/// at a zero word that the cycles reached, and no earlier state on the way had
/// one. When it stops with `false`, none of the states it went through, the
/// last included, stood at a zero word. When it stops on an error, it stands
/// at a nonzero word that does not decode.
pub proof fn lemma_run_halts_iff_zero(s: MachineView, fuel: nat)
    ensures
        match spec_run(s, fuel) {
            (t, Ok(true)) => t.word() == 0 && exists|k: nat|
                k <= fuel && spec_trace(s, k) == Some(t) && forall|j: nat|
                    j < k ==> (#[trigger] spec_trace(s, j)) is Some && spec_trace(s, j).unwrap().word()
                        != 0,
            (t, Ok(false)) => spec_trace(s, fuel) == Some(t) && forall|j: nat|
                j <= fuel ==> (#[trigger] spec_trace(s, j)) is Some && spec_trace(s, j).unwrap().word()
                    != 0,
            (t, Err(_)) => t.word() != 0 && spec_step(t) is None,
        },
    decreases fuel,
{
    if s.word() == 0 {
        assert(spec_trace(s, 0) == Some(s));
    } else if fuel == 0 {
        assert(spec_trace(s, 0) == Some(s));
    } else {
        match spec_step(s) {
            Some(s2) => {
                lemma_run_halts_iff_zero(s2, (fuel - 1) as nat);
                assert forall|j: nat| j > 0 implies #[trigger] spec_trace(s, j) == spec_trace(s2, (j - 1) as nat) by {
                    lemma_trace_shift(s, s2, (j - 1) as nat);
                }
                assert(spec_trace(s, 0) == Some(s));
                match spec_run(s2, (fuel - 1) as nat) {
                    (t, Ok(true)) => {
                        let k2 = choose|k: nat|
                            k <= fuel - 1 && spec_trace(s2, k) == Some(t) && forall|j: nat|
                                j < k ==> (#[trigger] spec_trace(s2, j)) is Some && spec_trace(s2, j).unwrap().word() != 0;
                        assert(spec_trace(s, k2 + 1) == Some(t));
                        assert forall|j: nat| j < k2 + 1 implies (#[trigger] spec_trace(s, j)) is Some
                            && spec_trace(s, j).unwrap().word() != 0 by {
                            if j > 0 {
                                assert(spec_trace(s2, (j - 1) as nat) is Some);
                            }
                        }
                    },
                    (t, Ok(false)) => {
                        assert forall|j: nat| j <= fuel implies (#[trigger] spec_trace(s, j)) is Some
                            && spec_trace(s, j).unwrap().word() != 0 by {
                            if j > 0 {
                                assert(spec_trace(s2, (j - 1) as nat) is Some);
                            }
                        }
                        assert(spec_trace(s, fuel) == spec_trace(s2, (fuel - 1) as nat));
                    },
                    (t, Err(_)) => {},
                }
            },
            None => {},
        }
    }
}

/// A virtual processor with its registers, main memory and flags.
pub struct Processor {
    registers: [u32; 16],
    main_memory: HashMapWithView<u32, u32>,
    flag: Flag,
}

impl View for Processor {
    type V = MachineView;

    closed spec fn view(&self) -> MachineView {
        MachineView { regs: self.registers@, mem: self.main_memory@, flags: self.flag }
    }
}

impl Processor {
    /// A processor with every register and every memory word zero and every
    /// flag cleared.
    pub fn new() -> (r: Processor)
        ensures
            r@.wf(),
            r@.regs == Seq::new(16, |i: int| 0u32),
            r@.mem == Map::<u32, u32>::empty(),
            r@.flags == (Flag { v: false, z: false, n: false, c: false }),
    {
        let r = Processor {
            registers: [0u32, 0, 0, 0, 0, 0, 0, 0, 0, 0, 0, 0, 0, 0, 0, 0],
            main_memory: HashMapWithView::new(),
            flag: Flag::new(),
        };
        assert(r@.regs =~= Seq::new(16, |i: int| 0u32));
        r
    }

    /// The view of a processor always has sixteen registers.
    pub proof fn lemma_view_wf(&self)
        ensures
            self@.wf(),
    {
    }

    /// The contents of the program counter.
    pub fn get_pc(&self) -> (r: u32)
        ensures
            r == self@.pc(),
    {
        self.registers[PC_ADDR]
    }

    pub fn set_pc(&mut self, payload: u32)
        ensures
            final(self)@ == old(self)@.set_reg(PC_ADDR as int, payload),
    {
        self.registers[PC_ADDR] = payload;
    }

    /// Increment the program counter by one, wrapping at the top of memory.
    pub fn incr_pc(&mut self)
        ensures
            final(self)@ == old(self)@.set_reg(PC_ADDR as int, wrapping_add(old(self)@.pc(), 1)),
    {
        let pc = self.registers[PC_ADDR];
        self.registers[PC_ADDR] = pc.wrapping_add(1);
    }

    /// The contents of register `addr`.
    pub fn register(&self, addr: usize) -> (r: u32)
        requires
            addr < 16,
        ensures
            r == self@.regs[addr as int],
    {
        self.registers[addr]
    }

    /// Set register `addr` to `value`.
    pub fn set_register(&mut self, addr: usize, value: u32)
        requires
            addr < 16,
        ensures
            final(self)@ == old(self)@.set_reg(addr as int, value),
    {
        self.registers[addr] = value;
    }

    /// The condition flags.
    pub fn flags(&self) -> (r: Flag)
        ensures
            r == self@.flags,
    {
        self.flag
    }

    /// Write a word to main memory at the given address.
    pub fn write_to_mm(&mut self, address: u32, instruction: u32)
        ensures
            final(self)@ == old(self)@.store(address, instruction),
    {
        self.main_memory.insert(address, instruction);
    }

    /// The word at the given address of main memory.
    pub fn read_at(&self, address: u32) -> (r: u32)
        ensures
            r == mem_read(self@.mem, address),
    {
        match self.main_memory.get(&address) {
            Some(v) => *v,
            None => 0,
        }
    }

    /// The word the program counter points at.
    pub fn read_from_mm(&self) -> (r: u32)
        ensures
            r == self@.word(),
    {
        self.read_at(self.get_pc())
    }

    /// Set the flags from the comparison of `op1` with `op2`.
    pub fn update_flags(&mut self, op1: u32, op2: u32)
        ensures
            final(self)@ == old(self)@.set_flags(compare_flags(old(self)@.flags, op1, op2)),
    {
        self.flag.update(op1, op2);
    }

    /// Save a result to the destination register.
    pub fn execute(&mut self, dr_addr: usize, result: u32)
        requires
            dr_addr < 16,
        ensures
            final(self)@ == old(self)@.set_reg(dr_addr as int, result),
    {
        self.registers[dr_addr] = result;
    }

    /// Take a branch to `target` when `cond` holds: the program counter is set
    /// one short of it, since every cycle ends by incrementing it.
    pub fn exe_bcc(&mut self, cond: bool, target: u32)
        ensures
            final(self)@ == if cond {
                old(self)@.set_reg(PC_ADDR as int, wrapping_sub(target, 1))
            } else {
                old(self)@
            },
    {
        if cond {
            self.set_pc(target.wrapping_sub(1));
        }
    }

    /// Execute `DR <- a op b`, or a load or store at `a + b`.
    fn binary_op(&mut self, opcode: Opcode, dr: usize, a: u32, b: u32)
        requires
            dr < 16,
        ensures
            final(self)@ == binary_effect(old(self)@, opcode, dr as int, a, b),
    {
        match opcode {
            Opcode::ADD => self.execute(dr, a.wrapping_add(b)),
            Opcode::SUB => self.execute(dr, a.wrapping_sub(b)),
            Opcode::AND => self.execute(dr, a & b),
            Opcode::ORR => self.execute(dr, a | b),
            Opcode::EOR => self.execute(dr, a ^ b),
            Opcode::MUL => self.execute(dr, a.wrapping_mul(b)),
            Opcode::LDR => {
                let v = self.read_at(a.wrapping_add(b));
                self.execute(dr, v);
            },
            Opcode::STR => {
                let v = self.registers[dr];
                self.write_to_mm(a.wrapping_add(b), v);
            },
            _ => {},
        }
    }

    /// Execute a form-one instruction: `DR <- [RX] op [RY]`.
    pub fn form_one_handler(&mut self, opcode: Opcode, payload: u32)
        ensures
            final(self)@ == form_one(old(self)@, opcode, payload),
    {
        let decoder = EncoderDecoder::new(Some(payload));
        let dr = decoder.get_dr();
        let op1 = self.registers[decoder.get_rx()];
        let op2 = self.registers[decoder.get_ry()];
        self.binary_op(opcode, dr, op1, op2);
    }

    /// Execute a form-two instruction: `DR <- op([RX])`.
    pub fn form_two_handler(&mut self, opcode: Opcode, payload: u32)
        ensures
            final(self)@ == form_two(old(self)@, opcode, payload),
    {
        let decoder = EncoderDecoder::new(Some(payload));
        let dr = decoder.get_dr();
        let dr_cont = self.registers[dr];
        let op1 = self.registers[decoder.get_rx()];
        match opcode {
            Opcode::MOV => self.execute(dr, op1),
            Opcode::MVN => self.execute(dr, !op1),
            Opcode::LDR => {
                let v = self.read_at(op1);
                self.execute(dr, v);
            },
            Opcode::STR => self.write_to_mm(op1, dr_cont),
            Opcode::CMP => self.update_flags(dr_cont, op1),
            _ => {},
        }
    }

    /// Execute a form-four instruction: `DR <- [RX] op imm16`.
    pub fn form_four_handler(&mut self, opcode: Opcode, payload: u32)
        ensures
            final(self)@ == form_four(old(self)@, opcode, payload),
    {
        let decoder = EncoderDecoder::new(Some(payload));
        let dr = decoder.get_dr();
        let op1 = self.registers[decoder.get_rx()];
        let op2 = decoder.get_immed16();
        self.binary_op(opcode, dr, op1, op2);
    }

    /// Execute a form-five instruction: `DR <- op(imm20)`, or a load or store
    /// relative to the program counter.
    pub fn form_five_handler(&mut self, opcode: Opcode, payload: u32)
        ensures
            final(self)@ == form_five(old(self)@, opcode, payload),
    {
        let decoder = EncoderDecoder::new(Some(payload));
        let dr = decoder.get_dr();
        let dr_cont = self.registers[dr];
        let imm = decoder.get_immed20();
        let pc = self.get_pc();
        match opcode {
            Opcode::MOV => self.execute(dr, imm),
            Opcode::MVN => self.execute(dr, !imm),
            Opcode::LDR => {
                let v = self.read_at(pc.wrapping_add(imm));
                self.execute(dr, v);
            },
            Opcode::STR => self.write_to_mm(pc.wrapping_add(imm), dr_cont),
            Opcode::CMP => self.update_flags(dr_cont, imm),
            _ => {},
        }
    }

    /// Execute a form-six instruction: branch to the 20-bit target when the
    /// condition of the opcode holds.
    pub fn form_six_handler(&mut self, opcode: Opcode, payload: u32)
        ensures
            final(self)@ == form_six(old(self)@, opcode, payload),
    {
        let decoder = EncoderDecoder::new(Some(payload));
        let f = self.flag;
        if let Some(cc) = opcode.cond_code() {
            let cond = match cc {
                ConditionCode::AL => true,
                ConditionCode::EQ => f.get_z(),
                ConditionCode::NE => !f.get_z(),
                ConditionCode::HS => f.get_c(),
                ConditionCode::LO => !f.get_c(),
                ConditionCode::MI => f.get_n(),
                ConditionCode::PL => !f.get_n(),
                ConditionCode::VS => f.get_v(),
                ConditionCode::VC => !f.get_v(),
                ConditionCode::HI => f.get_c() && !f.get_z(),
                ConditionCode::LS => !f.get_c() || f.get_z(),
                ConditionCode::GE => f.get_n() == f.get_v(),
                ConditionCode::LT => f.get_n() != f.get_v(),
                ConditionCode::GT => !f.get_z() && (f.get_n() == f.get_v()),
                ConditionCode::LE => f.get_z() || (f.get_n() != f.get_v()),
            };
            self.exe_bcc(cond, decoder.get_immed20());
        }
    }

    /// Fetch the word at the program counter, decode it and execute it.
    pub fn fetch_and_decode(&mut self) -> (r: Result<(), Error>)
        ensures
            match spec_decode_word(old(self)@.word()) {
                Some((f, op)) => r == Ok::<(), Error>(()) && final(self)@ == spec_execute(
                    old(self)@,
                    f,
                    op,
                    old(self)@.word(),
                ),
                None => r == Err::<(), Error>(Error::DecodeError) && final(self)@ == old(self)@,
            },
    {
        let payload = self.read_from_mm();
        let decoder = EncoderDecoder::new(Some(payload));
        match decoder.get_form_and_opcode() {
            Ok((form, opcode)) => {
                match form {
                    Form::One => self.form_one_handler(opcode, payload),
                    Form::Two => self.form_two_handler(opcode, payload),
                    Form::Four => self.form_four_handler(opcode, payload),
                    Form::Five => self.form_five_handler(opcode, payload),
                    Form::Six => self.form_six_handler(opcode, payload),
                }
                Ok(())
            },
            Err(_) => Err(Error::DecodeError),
        }
    }

    /// One instruction cycle: fetch, decode, execute, increment the program counter.
    pub fn step(&mut self) -> (r: Result<(), Error>)
        ensures
            match spec_step(old(self)@) {
                Some(s) => r == Ok::<(), Error>(()) && final(self)@ == s,
                None => r == Err::<(), Error>(Error::DecodeError) && final(self)@ == old(self)@,
            },
    {
        self.fetch_and_decode()?;
        self.incr_pc();
        Ok(())
    }

    /// Load a program into main memory, word `i` at address `i`.
    pub fn load_program(&mut self, program: &Vec<u32>)
        requires
            program.len() <= 0x1_0000_0000,
        ensures
            final(self)@.regs == old(self)@.regs,
            final(self)@.flags == old(self)@.flags,
            forall|a: u32|
                #![trigger mem_read(final(self)@.mem, a)]
                mem_read(final(self)@.mem, a) == if (a as int) < program.len() {
                    program[a as int]
                } else {
                    mem_read(old(self)@.mem, a)
                },
    {
        let mut i: usize = 0;
        while i < program.len()
            invariant
                i <= program.len() <= 0x1_0000_0000,
                self@.regs == old(self)@.regs,
                self@.flags == old(self)@.flags,
                forall|a: u32|
                    #![trigger mem_read(self@.mem, a)]
                    mem_read(self@.mem, a) == if (a as int) < i {
                        program[a as int]
                    } else {
                        mem_read(old(self)@.mem, a)
                    },
            decreases program.len() - i,
        {
            let ghost prev = self@.mem;
            self.write_to_mm(i as u32, program[i]);
            assert(i as u32 as int == i);
            assert forall|a: u32|
                #![trigger mem_read(self@.mem, a)]
                mem_read(self@.mem, a) == if (a as int) < i + 1 {
                    program[a as int]
                } else {
                    mem_read(old(self)@.mem, a)
                } by {
                if a != i as u32 {
                    assert(mem_read(self@.mem, a) == mem_read(prev, a));
                }
            }
            i += 1;
        }
    }

    /// Run for at most `max_steps` cycles. `Ok(true)` when the machine stops
    /// at a zero word, `Ok(false)` when the cycles run out first, and
    /// `Err(DecodeError)` at a word that does not decode, with the machine left
    /// as it was at that fetch.
    pub fn run_for(&mut self, max_steps: u64) -> (r: Result<bool, Error>)
        ensures
            (final(self)@, r) == spec_run(old(self)@, max_steps as nat),
    {
        let mut fuel: u64 = max_steps;
        loop
            invariant
                spec_run(self@, fuel as nat) == spec_run(old(self)@, max_steps as nat),
            decreases fuel,
        {
            if self.read_from_mm() == 0 {
                return Ok(true);
            }
            if fuel == 0 {
                return Ok(false);
            }
            self.step()?;
            fuel -= 1;
        }
    }

    /// One round of the interactive loop: assemble `line` as the instruction at
    /// the program counter, store it there and execute it, then run on while
    /// there is code at the program counter. A bare label only declares itself
    /// (`Ok(true)`, nothing runs).
    pub fn repl(&mut self, assembler: &mut Assembler, line: String) -> (r: Result<bool, Error>)
        requires
            old(self)@.pc() < u32::MAX,
        ensures
            match spec_read_eval(old(assembler)@, line@, old(self)@.pc()) {
                Err(e) => r == Err::<bool, Error>(e) && final(self)@ == old(self)@,
                Ok(None) => r == Ok::<bool, Error>(true) && final(self)@ == old(self)@,
                Ok(Some(w)) => match spec_step(old(self)@.store(old(self)@.pc(), w)) {
                    None => r == Err::<bool, Error>(Error::DecodeError) && final(self)@ == old(
                        self,
                    )@.store(old(self)@.pc(), w),
                    Some(s2) => (final(self)@, r) == spec_run(s2, u64::MAX as nat),
                },
            },
    {
        let pc = self.get_pc();
        match assembler.read_eval(line, pc)? {
            Some(word) => {
                self.write_to_mm(pc, word);
                self.step()?;
                self.run()
            },
            None => Ok(true),
        }
    }

    /// Run the program in main memory until it reaches a zero word. `Ok(true)`
    /// when it does; `Ok(false)` only after `u64::MAX` cycles.
    pub fn run(&mut self) -> (r: Result<bool, Error>)
        ensures
            (final(self)@, r) == spec_run(old(self)@, u64::MAX as nat),
    {
        self.run_for(u64::MAX)
    }
}

} // verus!
