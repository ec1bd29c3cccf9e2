//! The bit layout of a 32-bit instruction word, and the encoder/decoder that
//! writes and reads its fields.
use vstd::prelude::*;

use crate::isa::{ConditionCode, Form, Opcode, Register};

verus! {

/// A mask selects the bits of a field in an instruction word.
pub type Mask = u32;

/// An offset is the shift that brings a field down to the least significant bit.
pub type Offset = u32;

/// An encoded instruction.
pub type Instruction = u32;

/// The fields of an instruction word.
#[derive(Clone, Copy, Debug, PartialEq, Eq, Structural)]
pub enum Payload {
    /// The 8-bit opcode field, bits 31..24.
    Opcode,
    /// The 12-bit branch field, bits 31..20: `0x800` plus the condition-code index.
    Bcc,
    /// The destination register, bits 23..20.
    DR,
    /// The first operand register, bits 19..16.
    RX,
    /// The second operand register, bits 15..12.
    RY,
    /// A 16-bit immediate, bits 15..0.
    Immed16,
    /// A 20-bit immediate, bits 19..0.
    Immed20,
}

impl Payload {
    pub open spec fn spec_mask(self) -> u32 {
        match self {
            Payload::Opcode => 0xFF000000u32,
            Payload::Bcc => 0xFFF00000u32,
            Payload::DR => 0x00F00000u32,
            Payload::RX => 0x000F0000u32,
            Payload::RY => 0x0000F000u32,
            Payload::Immed16 => 0x0000FFFFu32,
            Payload::Immed20 => 0x000FFFFFu32,
        }
    }

    pub open spec fn spec_offset(self) -> u32 {
        match self {
            Payload::Opcode => 24,
            Payload::Bcc => 20,
            Payload::DR => 20,
            Payload::RX => 16,
            Payload::RY => 12,
            Payload::Immed16 => 0,
            Payload::Immed20 => 0,
        }
    }

    /// The mask of the field before it is shifted into place.
    pub open spec fn spec_unshifted_mask(self) -> u32 {
        match self {
            Payload::Opcode => 0xFFu32,
            Payload::Bcc => 0xFFFu32,
            Payload::DR => 0xFu32,
            Payload::RX => 0xFu32,
            Payload::RY => 0xFu32,
            Payload::Immed16 => 0xFFFFu32,
            Payload::Immed20 => 0xFFFFFu32,
        }
    }

    /// The mask and offset of the field.
    pub fn get_mask_and_offset(self) -> (r: (Mask, Offset))
        ensures
            r == (self.spec_mask(), self.spec_offset()),
    {
        match self {
            Payload::Opcode => (0xFF000000, 24),
            Payload::Bcc => (0xFFF00000, 20),
            Payload::DR => (0x00F00000, 20),
            Payload::RX => (0x000F0000, 16),
            Payload::RY => (0x0000F000, 12),
            Payload::Immed16 => (0x0000FFFF, 0),
            Payload::Immed20 => (0x000FFFFF, 0),
        }
    }
}

/// `word` with `value` written into field `p`: the value is cut to the width
/// of the field and OR-ed in at its offset.
pub open spec fn encode_field(word: u32, p: Payload, value: u32) -> u32 {
    word | ((value & p.spec_unshifted_mask()) << p.spec_offset())
}

/// The value of field `p` of `word`.
pub open spec fn decode_field(word: u32, p: Payload) -> u32 {
    (word & p.spec_mask()) >> p.spec_offset()
}

/// The field in which an opcode writes its bytecode.
pub open spec fn opcode_payload(op: Opcode) -> Payload {
    if op.spec_is_bcc() {
        Payload::Bcc
    } else {
        Payload::Opcode
    }
}

/// `word` carries the bytecode of `op` in form `f` in the opcode's field.
pub open spec fn decodes_to(word: u32, f: Form, op: Opcode) -> bool {
    op.spec_bytecode(f) == Some(decode_field(word, opcode_payload(op)))
}

/// The (form, opcode) pair that a word decodes to: looked up from the opcode
/// field first, then, as a branch, from the branch field.
pub open spec fn spec_decode_word(w: u32) -> Option<(Form, Opcode)> {
    match Opcode::spec_decode_bytecode(decode_field(w, Payload::Opcode)) {
        Some(p) => Some(p),
        None => match Opcode::spec_decode_bytecode(decode_field(w, Payload::Bcc)) {
            Some((f, op)) => if op.spec_is_bcc() {
                Some((f, op))
            } else {
                None
            },
            None => None,
        },
    }
}

/// The word that encodes `op` in form `f` with the given operand fields,
/// written in the order the assembler writes them: opcode, then DR, RX and
/// RY or the immediate, as the form has them.
pub open spec fn instr_word(op: Opcode, f: Form, dr: u32, rx: u32, ry: u32, imm: u32) -> u32 {
    let w = encode_field(0, opcode_payload(op), op.spec_bytecode(f).unwrap());
    match f {
        Form::One => encode_field(encode_field(encode_field(w, Payload::DR, dr), Payload::RX, rx), Payload::RY, ry),
        Form::Two => encode_field(encode_field(w, Payload::DR, dr), Payload::RX, rx),
        Form::Four => encode_field(encode_field(encode_field(w, Payload::DR, dr), Payload::RX, rx), Payload::Immed16, imm),
        Form::Five => encode_field(encode_field(w, Payload::DR, dr), Payload::Immed20, imm),
        Form::Six => encode_field(w, Payload::Immed20, imm),
    }
}

/// Builds an instruction word field by field, and reads fields back from one.
pub struct EncoderDecoder {
    pub instr: Instruction,
}

impl EncoderDecoder {
    /// An encoder/decoder over `init`, or over the zero word.
    pub fn new(init: Option<u32>) -> (r: EncoderDecoder)
        ensures
            r.instr == match init {
                Some(w) => w,
                None => 0u32,
            },
    {
        match init {
            Some(w) => EncoderDecoder { instr: w },
            None => EncoderDecoder { instr: 0 },
        }
    }

    /// The instruction word.
    pub fn get_instr(&self) -> (r: Instruction)
        ensures
            r == self.instr,
    {
        self.instr
    }

    /// Write `value` into field `p`.
    pub fn set_field(&mut self, p: Payload, value: u32)
        ensures
            final(self).instr == encode_field(old(self).instr, p, value),
    {
        let (mask, offset) = p.get_mask_and_offset();
        let unshifted = mask >> offset;
        proof {
            assert(unshifted == p.spec_unshifted_mask()) by {
                let m = mask;
                let o = offset;
                assert(0xFF000000u32 >> 24u32 == 0xFFu32) by (bit_vector);
                assert(0xFFF00000u32 >> 20u32 == 0xFFFu32) by (bit_vector);
                assert(0x00F00000u32 >> 20u32 == 0xFu32) by (bit_vector);
                assert(0x000F0000u32 >> 16u32 == 0xFu32) by (bit_vector);
                assert(0x0000F000u32 >> 12u32 == 0xFu32) by (bit_vector);
                assert(0x0000FFFFu32 >> 0u32 == 0xFFFFu32) by (bit_vector);
                assert(0x000FFFFFu32 >> 0u32 == 0xFFFFFu32) by (bit_vector);
            }
        }
        self.instr = self.instr | ((value & unshifted) << offset);
    }

    /// Encode the opcode of the given form: a branch writes the 12-bit branch
    /// field, any other opcode the 8-bit opcode field. Nothing is written when
    /// the opcode does not admit the form.
    pub fn set_opcode(&mut self, form: Form, opcode: Opcode)
        ensures
            final(self).instr == match opcode.spec_bytecode(form) {
                Some(b) => encode_field(old(self).instr, opcode_payload(opcode), b),
                None => old(self).instr,
            },
    {
        if let Some(b) = opcode.bytecode_for(form) {
            if opcode.is_bcc() {
                self.set_field(Payload::Bcc, b);
            } else {
                self.set_field(Payload::Opcode, b);
            }
        }
    }

    /// Encode a branch on the given condition code.
    pub fn set_cc(&mut self, cond_code: ConditionCode)
        ensures
            final(self).instr == encode_field(
                old(self).instr,
                Payload::Bcc,
                (0x800 + cond_code.spec_index()) as u32,
            ),
    {
        self.set_field(Payload::Bcc, 0x800 + cond_code.index());
    }

    /// Encode the destination register.
    pub fn set_dr(&mut self, register: Register)
        ensures
            final(self).instr == encode_field(old(self).instr, Payload::DR, register.spec_addr() as u32),
    {
        self.set_field(Payload::DR, register.addr() as u32);
    }

    /// Encode the first operand as a register address.
    pub fn set_rx(&mut self, register: Register)
        ensures
            final(self).instr == encode_field(old(self).instr, Payload::RX, register.spec_addr() as u32),
    {
        self.set_field(Payload::RX, register.addr() as u32);
    }

    /// Encode the second operand as a register address.
    pub fn set_ry(&mut self, register: Register)
        ensures
            final(self).instr == encode_field(old(self).instr, Payload::RY, register.spec_addr() as u32),
    {
        self.set_field(Payload::RY, register.addr() as u32);
    }

    /// Encode a 16-bit immediate.
    pub fn set_immed16(&mut self, immed16: u32)
        ensures
            final(self).instr == encode_field(old(self).instr, Payload::Immed16, immed16),
    {
        self.set_field(Payload::Immed16, immed16);
    }

    /// Encode a 20-bit immediate.
    pub fn set_immed20(&mut self, immed20: u32)
        ensures
            final(self).instr == encode_field(old(self).instr, Payload::Immed20, immed20),
    {
        self.set_field(Payload::Immed20, immed20);
    }

    /// The value of field `p`.
    pub fn get_field(&self, p: Payload) -> (r: u32)
        ensures
            r == decode_field(self.instr, p),
    {
        let (mask, offset) = p.get_mask_and_offset();
        (self.instr & mask) >> offset
    }

    /// Decode the form and opcode: first from the 8-bit opcode field, then,
    /// failing that, as a branch from the 12-bit branch field.
    pub fn get_form_and_opcode(&self) -> (r: Result<(Form, Opcode), ()>)
        ensures
            match r {
                Ok((f, op)) => decodes_to(self.instr, f, op),
                Err(_) => forall|f: Form, op: Opcode| !decodes_to(self.instr, f, op),
            },
            match r {
                Ok(p) => spec_decode_word(self.instr) == Some(p),
                Err(_) => spec_decode_word(self.instr) is None,
            },
    {
        let byte = self.get_field(Payload::Opcode);
        let bcc = self.get_field(Payload::Bcc);
        proof {
            lemma_bcc_field_bounds(self.instr);
        }
        match Opcode::get_opcode(byte) {
            Ok((f, op)) => {
                proof {
                    lemma_opcode_field_not_bcc(op, f, byte);
                }
                Ok((f, op))
            },
            Err(_) => match Opcode::get_opcode(bcc) {
                Ok((f, op)) => {
                    if op.is_bcc() {
                        Ok((f, op))
                    } else {
                        proof {
                            assert forall|f2: Form, op2: Opcode| !decodes_to(self.instr, f2, op2) by {
                                if op2.spec_is_bcc() && decodes_to(self.instr, f2, op2) {
                                    lemma_bytecode_injective(op, f, op2, f2);
                                }
                            }
                        }
                        Err(())
                    }
                },
                Err(_) => Err(()),
            },
        }
    }

    /// The condition code of a branch word, if its branch field holds one.
    pub fn get_cc(&self) -> (r: Option<ConditionCode>)
        ensures
            match r {
                Some(cc) => decode_field(self.instr, Payload::Bcc) == 0x800 + cc.spec_index(),
                None => decode_field(self.instr, Payload::Bcc) < 0x800
                    || decode_field(self.instr, Payload::Bcc) >= 0x80F,
            },
    {
        let bcc = self.get_field(Payload::Bcc);
        if bcc < 0x800 {
            None
        } else {
            ConditionCode::get_cc(bcc - 0x800)
        }
    }

    /// The destination register address.
    pub fn get_dr(&self) -> (r: usize)
        ensures
            r == decode_field(self.instr, Payload::DR),
            r < 16,
    {
        proof {
            lemma_register_field_bounds(self.instr);
        }
        self.get_field(Payload::DR) as usize
    }

    /// The first operand register address.
    pub fn get_rx(&self) -> (r: usize)
        ensures
            r == decode_field(self.instr, Payload::RX),
            r < 16,
    {
        proof {
            lemma_register_field_bounds(self.instr);
        }
        self.get_field(Payload::RX) as usize
    }

    /// The second operand register address.
    pub fn get_ry(&self) -> (r: usize)
        ensures
            r == decode_field(self.instr, Payload::RY),
            r < 16,
    {
        proof {
            lemma_register_field_bounds(self.instr);
        }
        self.get_field(Payload::RY) as usize
    }

    /// The 16-bit immediate.
    pub fn get_immed16(&self) -> (r: u32)
        ensures
            r == decode_field(self.instr, Payload::Immed16),
    {
        self.get_field(Payload::Immed16)
    }

    /// The 20-bit immediate.
    pub fn get_immed20(&self) -> (r: u32)
        ensures
            r == decode_field(self.instr, Payload::Immed20),
    {
        self.get_field(Payload::Immed20)
    }
}

pub proof fn lemma_register_field_bounds(w: u32)
    ensures
        decode_field(w, Payload::DR) < 16,
        decode_field(w, Payload::RX) < 16,
        decode_field(w, Payload::RY) < 16,
{
    assert((w & 0x00F00000u32) >> 20u32 < 16u32) by (bit_vector);
    assert((w & 0x000F0000u32) >> 16u32 < 16u32) by (bit_vector);
    assert((w & 0x0000F000u32) >> 12u32 < 16u32) by (bit_vector);
}

/// The branch field of a word extends its opcode field by four bits.
proof fn lemma_bcc_field_bounds(w: u32)
    ensures
        decode_field(w, Payload::Bcc) >> 4u32 == decode_field(w, Payload::Opcode),
        decode_field(w, Payload::Opcode) <= 0xFF,
        decode_field(w, Payload::Bcc) <= 0xFFF,
{
    assert(((w & 0xFFF00000u32) >> 20u32) >> 4u32 == (w & 0xFF000000u32) >> 24u32) by (bit_vector);
    assert((w & 0xFF000000u32) >> 24u32 <= 0xFFu32) by (bit_vector);
    assert((w & 0xFFF00000u32) >> 20u32 <= 0xFFFu32) by (bit_vector);
}

/// Opcode bytecodes lie in `0x01..=0x57`; branch bytecodes in `0x800..=0x80E`.
proof fn lemma_bytecode_ranges(op: Opcode, f: Form)
    ensures
        op.spec_bytecode(f) is Some && !op.spec_is_bcc() ==> 0 < op.spec_bytecode(f).unwrap() <= 0x57,
        op.spec_bytecode(f) is Some && op.spec_is_bcc() ==> 0x800 <= op.spec_bytecode(f).unwrap() <= 0x80E
            && f == Form::Six,
{
}

/// A value found in the opcode field is no branch bytecode.
proof fn lemma_opcode_field_not_bcc(op: Opcode, f: Form, byte: u32)
    requires
        op.spec_bytecode(f) == Some(byte),
        byte <= 0xFF,
    ensures
        !op.spec_is_bcc(),
{
    lemma_bytecode_ranges(op, f);
}

/// No two (opcode, form) pairs share a bytecode.
pub proof fn lemma_bytecode_injective(op1: Opcode, f1: Form, op2: Opcode, f2: Form)
    requires
        op1.spec_bytecode(f1) is Some,
        op1.spec_bytecode(f1) == op2.spec_bytecode(f2),
    ensures
        op1 == op2,
        f1 == f2,
{
    Opcode::lemma_decode_bytecode(op1, f1);
    Opcode::lemma_decode_bytecode(op2, f2);
}

proof fn lemma_or_below(x: u32, y: u32, bound: u32)
    requires
        bound == 0x1000000u32,
        x < bound,
        y < bound,
    ensures
        x | y < bound,
{
    assert(x < 0x1000000u32 && y < 0x1000000u32 ==> x | y < 0x1000000u32) by (bit_vector);
}

proof fn lemma_or_assoc(a: u32, b: u32, c: u32, d: u32)
    ensures
        ((a | b) | c) | d == a | ((b | c) | d),
        (a | b) | c == a | (b | c),
{
    assert(((a | b) | c) | d == a | ((b | c) | d)) by (bit_vector);
    assert((a | b) | c == a | (b | c)) by (bit_vector);
}

/// The opcode field is read back unchanged when everything else written lies
/// below it.
proof fn lemma_top_byte(b: u32, rest: u32)
    requires
        b <= 0xFF,
        rest < 0x1000000,
    ensures
        decode_field((0u32 | ((b & 0xFFu32) << 24u32)) | rest, Payload::Opcode) == b,
{
    assert(b <= 0xFFu32 && rest < 0x1000000u32 ==> (((0u32 | ((b & 0xFFu32) << 24u32)) | rest)
        & 0xFF000000u32) >> 24u32 == b) by (bit_vector);
}

/// The branch field is read back unchanged when everything else written lies
/// below it.
proof fn lemma_top_bcc(b: u32, rest: u32)
    requires
        b <= 0xFFF,
        rest < 0x100000,
    ensures
        decode_field((0u32 | ((b & 0xFFFu32) << 20u32)) | rest, Payload::Bcc) == b,
{
    assert(b <= 0xFFFu32 && rest < 0x100000u32 ==> (((0u32 | ((b & 0xFFFu32) << 20u32)) | rest)
        & 0xFFF00000u32) >> 20u32 == b) by (bit_vector);
}

/// Fields written in either order give the same word.
pub proof fn lemma_encode_commutes(word: u32, p: Payload, a: u32, q: Payload, b: u32)
    ensures
        encode_field(encode_field(word, p, a), q, b) == encode_field(encode_field(word, q, b), p, a),
{
    let x = (a & p.spec_unshifted_mask()) << p.spec_offset();
    let y = (b & q.spec_unshifted_mask()) << q.spec_offset();
    assert((word | x) | y == (word | y) | x) by (bit_vector);
}

/// The word after writing the fields `fs` into `word`, first to last.
pub open spec fn encode_fields(word: u32, fs: Seq<(Payload, u32)>) -> u32
    decreases fs.len(),
{
    if fs.len() == 0 {
        word
    } else {
        encode_fields(encode_field(word, fs[0].0, fs[0].1), fs.drop_first())
    }
}

/// The OR of the values of `fs`, each cut to its field's width and shifted to
/// its field's offset.
pub open spec fn or_fields(fs: Seq<(Payload, u32)>) -> u32
    decreases fs.len(),
{
    if fs.len() == 0 {
        0
    } else {
        ((fs[0].1 & fs[0].0.spec_unshifted_mask()) << fs[0].0.spec_offset()) | or_fields(
            fs.drop_first(),
        )
    }
}

/// Writing fields is OR-ing their shifted values into the word.
pub proof fn lemma_encode_fields_or(word: u32, fs: Seq<(Payload, u32)>)
    ensures
        encode_fields(word, fs) == word | or_fields(fs),
    decreases fs.len(),
{
    if fs.len() == 0 {
        assert(word | 0u32 == word) by (bit_vector);
    } else {
        let x = (fs[0].1 & fs[0].0.spec_unshifted_mask()) << fs[0].0.spec_offset();
        let rest = or_fields(fs.drop_first());
        lemma_encode_fields_or(word | x, fs.drop_first());
        assert((word | x) | rest == word | (x | rest)) by (bit_vector);
    }
}

proof fn lemma_or_fields_concat(p: Seq<(Payload, u32)>, q: Seq<(Payload, u32)>)
    ensures
        or_fields(p + q) == or_fields(p) | or_fields(q),
    decreases p.len(),
{
    if p.len() == 0 {
        assert(p + q =~= q);
        let y = or_fields(q);
        assert(0u32 | y == y) by (bit_vector);
    } else {
        assert((p + q).drop_first() =~= p.drop_first() + q);
        lemma_or_fields_concat(p.drop_first(), q);
        let x = (p[0].1 & p[0].0.spec_unshifted_mask()) << p[0].0.spec_offset();
        let a = or_fields(p.drop_first());
        let b = or_fields(q);
        assert(x | (a | b) == (x | a) | b) by (bit_vector);
    }
}

/// Encoding is OR-composable: swapping two neighbouring field writes leaves
/// the word unchanged, so every order of the same writes gives the same word,
/// the OR of the shifted values.
pub proof fn lemma_encode_any_order(word: u32, fs: Seq<(Payload, u32)>, i: int)
    requires
        0 <= i < fs.len() - 1,
    ensures
        encode_fields(word, fs) == encode_fields(word, fs.update(i, fs[i + 1]).update(i + 1, fs[i])),
        encode_fields(word, fs) == word | or_fields(fs),
{
    let gs = fs.update(i, fs[i + 1]).update(i + 1, fs[i]);
    let p = fs.take(i);
    let q = fs.skip(i + 2);
    let a = seq![fs[i]];
    let b = seq![fs[i + 1]];
    assert(fs =~= p + (a + b) + q);
    assert(gs =~= p + (b + a) + q);
    lemma_or_fields_concat(p + (a + b), q);
    lemma_or_fields_concat(p, a + b);
    lemma_or_fields_concat(a, b);
    lemma_or_fields_concat(p + (b + a), q);
    lemma_or_fields_concat(p, b + a);
    lemma_or_fields_concat(b, a);
    let x = or_fields(a);
    let y = or_fields(b);
    assert(x | y == y | x) by (bit_vector);
    lemma_encode_fields_or(word, fs);
    lemma_encode_fields_or(word, gs);
}

/// Decoding a word built from a valid (opcode, form) pair and operand fields
/// recovers exactly that pair.
pub proof fn lemma_decode_encode(op: Opcode, f: Form, dr: u32, rx: u32, ry: u32, imm: u32)
    requires
        op.admits(f),
    ensures
        decodes_to(instr_word(op, f, dr, rx, ry, imm), f, op),
        forall|f2: Form, op2: Opcode|
            decodes_to(instr_word(op, f, dr, rx, ry, imm), f2, op2) ==> f2 == f && op2 == op,
{
    let b = op.spec_bytecode(f).unwrap();
    let w = instr_word(op, f, dr, rx, ry, imm);
    lemma_bytecode_ranges(op, f);
    let pd = (dr & 0xFu32) << 20u32;
    let px = (rx & 0xFu32) << 16u32;
    let py = (ry & 0xFu32) << 12u32;
    let p16 = (imm & 0xFFFFu32) << 0u32;
    let p20 = (imm & 0xFFFFFu32) << 0u32;
    assert((dr & 0xFu32) << 20u32 < 0x1000000u32) by (bit_vector);
    assert((rx & 0xFu32) << 16u32 < 0x100000u32) by (bit_vector);
    assert((ry & 0xFu32) << 12u32 < 0x10000u32) by (bit_vector);
    assert((imm & 0xFFFFu32) << 0u32 < 0x10000u32) by (bit_vector);
    assert((imm & 0xFFFFFu32) << 0u32 < 0x100000u32) by (bit_vector);
    if op.spec_is_bcc() {
        let w0 = (b & 0xFFFu32) << 20u32;
        assert(w == (0u32 | w0) | p20);
        lemma_top_bcc(b, p20);
    } else {
        let w0 = (b & 0xFFu32) << 24u32;
        let rest = match f {
            Form::One => (pd | px) | py,
            Form::Two => pd | px,
            Form::Four => (pd | px) | p16,
            Form::Five => pd | p20,
            Form::Six => p20,
        };
        lemma_or_below(pd, px, 0x1000000u32);
        lemma_or_below(pd | px, py, 0x1000000u32);
        lemma_or_below(pd | px, p16, 0x1000000u32);
        lemma_or_below(pd, p20, 0x1000000u32);
        lemma_or_assoc(0u32 | w0, pd, px, py);
        lemma_or_assoc(0u32 | w0, pd, px, p16);
        lemma_or_assoc(0u32 | w0, pd, p20, 0u32);
        assert(w == (0u32 | w0) | rest);
        lemma_top_byte(b, rest);
    }
    lemma_bcc_field_bounds(w);
    assert forall|f2: Form, op2: Opcode| decodes_to(w, f2, op2) implies f2 == f && op2 == op by {
        lemma_bytecode_ranges(op2, f2);
        lemma_bcc_field_bounds(w);
        let c = decode_field(w, Payload::Bcc);
        assert(0x800u32 <= c <= 0x80Eu32 ==> c >> 4u32 == 0x80u32) by (bit_vector);
        if op2.spec_is_bcc() == op.spec_is_bcc() {
            lemma_bytecode_injective(op, f, op2, f2);
        }
    }
}

} // verus!
