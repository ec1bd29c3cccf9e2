//! The instruction set: opcodes, forms, condition codes, registers, and the
//! table that gives each (opcode, form) pair its bytecode.
use vstd::prelude::*;

verus! {

/// The shape of an instruction. There is no form three: the numbering is
/// kept so that encoded programs stay compatible.
#[derive(Clone, Copy, Debug, PartialEq, Eq, Hash, Structural)]
pub enum Form {
    /// `OP DR, RX, RY` or `LDR/STR DR, [RX, RY]`: `DR <- [RX] OP [RY]`.
    One,
    /// `OP DR, RX` or `LDR/STR DR, [RX]`: `DR <- OP([RX])`.
    Two,
    /// `OP DR, RX, #imm16` or `LDR/STR DR, [RX, #imm16]`.
    Four,
    /// `OP DR, #imm20` or `LDR/STR DR, [#imm20]` (relative to the program counter).
    Five,
    /// `Bcc label`: a branch, taken when its condition holds.
    Six,
}

/// The condition under which a branch is taken, in the order of its index
/// in the branch bytecode.
#[derive(Clone, Copy, Debug, PartialEq, Eq, Hash, Structural)]
pub enum ConditionCode {
    AL,
    EQ,
    NE,
    HS,
    LO,
    MI,
    PL,
    VS,
    VC,
    HI,
    LS,
    GE,
    LT,
    GT,
    LE,
}

/// A symbolic operation. `B` is the unconditional branch (also written `BAL`);
/// the other `B..` variants branch on a condition code.
#[derive(Clone, Copy, Debug, PartialEq, Eq, Hash, Structural)]
pub enum Opcode {
    ADD,
    AND,
    EOR,
    MUL,
    ORR,
    SUB,
    MOV,
    MVN,
    STR,
    LDR,
    CMP,
    B,
    BEQ,
    BNE,
    BHS,
    BLO,
    BMI,
    BPL,
    BVS,
    BVC,
    BHI,
    BLS,
    BGE,
    BLT,
    BGT,
    BLE,
}

/// The sixteen registers, in the order of their 4-bit address.
#[derive(Clone, Copy, Debug, PartialEq, Eq, Hash, Structural)]
pub enum Register {
    R0,
    R1,
    R2,
    R3,
    R4,
    R5,
    R6,
    R7,
    R8,
    R9,
    R10,
    R11,
    R12,
    /// Stack pointer.
    SP,
    /// Link register.
    LR,
    /// Program counter.
    PC,
}

/// The address of the program counter in the register file.
pub const PC_ADDR: usize = 15;

impl ConditionCode {
    pub open spec fn spec_index(self) -> u32 {
        match self {
            ConditionCode::AL => 0,
            ConditionCode::EQ => 1,
            ConditionCode::NE => 2,
            ConditionCode::HS => 3,
            ConditionCode::LO => 4,
            ConditionCode::MI => 5,
            ConditionCode::PL => 6,
            ConditionCode::VS => 7,
            ConditionCode::VC => 8,
            ConditionCode::HI => 9,
            ConditionCode::LS => 10,
            ConditionCode::GE => 11,
            ConditionCode::LT => 12,
            ConditionCode::GT => 13,
            ConditionCode::LE => 14,
        }
    }

    /// The index of the condition code, as it is encoded in a branch.
    pub fn index(&self) -> (r: u32)
        ensures
            r == self.spec_index(),
            r < 15,
    {
        match self {
            ConditionCode::AL => 0,
            ConditionCode::EQ => 1,
            ConditionCode::NE => 2,
            ConditionCode::HS => 3,
            ConditionCode::LO => 4,
            ConditionCode::MI => 5,
            ConditionCode::PL => 6,
            ConditionCode::VS => 7,
            ConditionCode::VC => 8,
            ConditionCode::HI => 9,
            ConditionCode::LS => 10,
            ConditionCode::GE => 11,
            ConditionCode::LT => 12,
            ConditionCode::GT => 13,
            ConditionCode::LE => 14,
        }
    }

    /// The condition code with the given index, if there is one.
    pub fn get_cc(index: u32) -> (r: Option<ConditionCode>)
        ensures
            match r {
                Some(cc) => cc.spec_index() == index,
                None => index >= 15,
            },
    {
        match index {
            0 => Some(ConditionCode::AL),
            1 => Some(ConditionCode::EQ),
            2 => Some(ConditionCode::NE),
            3 => Some(ConditionCode::HS),
            4 => Some(ConditionCode::LO),
            5 => Some(ConditionCode::MI),
            6 => Some(ConditionCode::PL),
            7 => Some(ConditionCode::VS),
            8 => Some(ConditionCode::VC),
            9 => Some(ConditionCode::HI),
            10 => Some(ConditionCode::LS),
            11 => Some(ConditionCode::GE),
            12 => Some(ConditionCode::LT),
            13 => Some(ConditionCode::GT),
            14 => Some(ConditionCode::LE),
            _ => None,
        }
    }
}

impl Register {
    pub open spec fn spec_addr(self) -> usize {
        match self {
            Register::R0 => 0,
            Register::R1 => 1,
            Register::R2 => 2,
            Register::R3 => 3,
            Register::R4 => 4,
            Register::R5 => 5,
            Register::R6 => 6,
            Register::R7 => 7,
            Register::R8 => 8,
            Register::R9 => 9,
            Register::R10 => 10,
            Register::R11 => 11,
            Register::R12 => 12,
            Register::SP => 13,
            Register::LR => 14,
            Register::PC => 15,
        }
    }

    /// The 4-bit address of the register.
    pub fn addr(&self) -> (r: usize)
        ensures
            r == self.spec_addr(),
            r < 16,
    {
        match self {
            Register::R0 => 0,
            Register::R1 => 1,
            Register::R2 => 2,
            Register::R3 => 3,
            Register::R4 => 4,
            Register::R5 => 5,
            Register::R6 => 6,
            Register::R7 => 7,
            Register::R8 => 8,
            Register::R9 => 9,
            Register::R10 => 10,
            Register::R11 => 11,
            Register::R12 => 12,
            Register::SP => 13,
            Register::LR => 14,
            Register::PC => 15,
        }
    }

    /// The register with the given address.
    pub fn from_addr(addr: usize) -> (r: Register)
        requires
            addr < 16,
        ensures
            r.spec_addr() == addr,
    {
        match addr {
            0 => Register::R0,
            1 => Register::R1,
            2 => Register::R2,
            3 => Register::R3,
            4 => Register::R4,
            5 => Register::R5,
            6 => Register::R6,
            7 => Register::R7,
            8 => Register::R8,
            9 => Register::R9,
            10 => Register::R10,
            11 => Register::R11,
            12 => Register::R12,
            13 => Register::SP,
            14 => Register::LR,
            _ => Register::PC,
        }
    }
}

impl Opcode {
    /// The condition code of a branch opcode; `None` for every other opcode.
    pub open spec fn spec_cond_code(self) -> Option<ConditionCode> {
        match self {
            Opcode::B => Some(ConditionCode::AL),
            Opcode::BEQ => Some(ConditionCode::EQ),
            Opcode::BNE => Some(ConditionCode::NE),
            Opcode::BHS => Some(ConditionCode::HS),
            Opcode::BLO => Some(ConditionCode::LO),
            Opcode::BMI => Some(ConditionCode::MI),
            Opcode::BPL => Some(ConditionCode::PL),
            Opcode::BVS => Some(ConditionCode::VS),
            Opcode::BVC => Some(ConditionCode::VC),
            Opcode::BHI => Some(ConditionCode::HI),
            Opcode::BLS => Some(ConditionCode::LS),
            Opcode::BGE => Some(ConditionCode::GE),
            Opcode::BLT => Some(ConditionCode::LT),
            Opcode::BGT => Some(ConditionCode::GT),
            Opcode::BLE => Some(ConditionCode::LE),
            _ => None,
        }
    }

    pub open spec fn spec_is_bcc(self) -> bool {
        self.spec_cond_code() is Some
    }

    pub open spec fn spec_is_mem(self) -> bool {
        self == Opcode::LDR || self == Opcode::STR
    }

    /// Whether the opcode is a branch, which is encoded in the 12-bit branch field.
    pub fn is_bcc(&self) -> (r: bool)
        ensures
            r == self.spec_is_bcc(),
    {
        self.cond_code().is_some()
    }

    /// The condition code of a branch opcode.
    pub fn cond_code(&self) -> (r: Option<ConditionCode>)
        ensures
            r == self.spec_cond_code(),
    {
        match self {
            Opcode::B => Some(ConditionCode::AL),
            Opcode::BEQ => Some(ConditionCode::EQ),
            Opcode::BNE => Some(ConditionCode::NE),
            Opcode::BHS => Some(ConditionCode::HS),
            Opcode::BLO => Some(ConditionCode::LO),
            Opcode::BMI => Some(ConditionCode::MI),
            Opcode::BPL => Some(ConditionCode::PL),
            Opcode::BVS => Some(ConditionCode::VS),
            Opcode::BVC => Some(ConditionCode::VC),
            Opcode::BHI => Some(ConditionCode::HI),
            Opcode::BLS => Some(ConditionCode::LS),
            Opcode::BGE => Some(ConditionCode::GE),
            Opcode::BLT => Some(ConditionCode::LT),
            Opcode::BGT => Some(ConditionCode::GT),
            Opcode::BLE => Some(ConditionCode::LE),
            _ => None,
        }
    }

    /// The bytecode table row of the opcode: each admissible form with the value
    /// of the opcode field in that form.
    pub open spec fn bytecode_table(self) -> Seq<(Form, u32)> {
        match self {
            Opcode::ADD => seq![(Form::One, 0x01u32), (Form::Four, 0x21u32)],
            Opcode::SUB => seq![(Form::One, 0x02u32), (Form::Four, 0x22u32)],
            Opcode::MOV => seq![(Form::Two, 0x03u32), (Form::Five, 0x23u32)],
            Opcode::AND => seq![(Form::One, 0x04u32), (Form::Four, 0x24u32)],
            Opcode::ORR => seq![(Form::One, 0x05u32), (Form::Four, 0x25u32)],
            Opcode::EOR => seq![(Form::One, 0x06u32), (Form::Four, 0x26u32)],
            Opcode::MVN => seq![(Form::Two, 0x07u32), (Form::Five, 0x27u32)],
            Opcode::MUL => seq![(Form::One, 0x08u32), (Form::Four, 0x28u32)],
            Opcode::LDR => seq![
                (Form::Two, 0x30u32),
                (Form::Four, 0x31u32),
                (Form::One, 0x32u32),
                (Form::Five, 0x33u32),
            ],
            Opcode::STR => seq![
                (Form::Two, 0x34u32),
                (Form::Four, 0x35u32),
                (Form::One, 0x36u32),
                (Form::Five, 0x37u32),
            ],
            Opcode::CMP => seq![(Form::Two, 0x47u32), (Form::Five, 0x57u32)],
            _ => seq![(Form::Six, (0x800u32 + self.spec_cond_code().unwrap().spec_index()) as u32)],
        }
    }

    /// The value of the opcode field for the opcode in the given form, if the
    /// opcode admits that form. Branches use the 12-bit branch field.
    pub open spec fn spec_bytecode(self, form: Form) -> Option<u32> {
        if self.spec_is_bcc() {
            if form == Form::Six {
                Some((0x800u32 + self.spec_cond_code().unwrap().spec_index()) as u32)
            } else {
                None
            }
        } else {
            match (self, form) {
                (Opcode::ADD, Form::One) => Some(0x01u32),
                (Opcode::ADD, Form::Four) => Some(0x21u32),
                (Opcode::SUB, Form::One) => Some(0x02u32),
                (Opcode::SUB, Form::Four) => Some(0x22u32),
                (Opcode::MOV, Form::Two) => Some(0x03u32),
                (Opcode::MOV, Form::Five) => Some(0x23u32),
                (Opcode::AND, Form::One) => Some(0x04u32),
                (Opcode::AND, Form::Four) => Some(0x24u32),
                (Opcode::ORR, Form::One) => Some(0x05u32),
                (Opcode::ORR, Form::Four) => Some(0x25u32),
                (Opcode::EOR, Form::One) => Some(0x06u32),
                (Opcode::EOR, Form::Four) => Some(0x26u32),
                (Opcode::MVN, Form::Two) => Some(0x07u32),
                (Opcode::MVN, Form::Five) => Some(0x27u32),
                (Opcode::MUL, Form::One) => Some(0x08u32),
                (Opcode::MUL, Form::Four) => Some(0x28u32),
                (Opcode::LDR, Form::Two) => Some(0x30u32),
                (Opcode::LDR, Form::Four) => Some(0x31u32),
                (Opcode::LDR, Form::One) => Some(0x32u32),
                (Opcode::LDR, Form::Five) => Some(0x33u32),
                (Opcode::STR, Form::Two) => Some(0x34u32),
                (Opcode::STR, Form::Four) => Some(0x35u32),
                (Opcode::STR, Form::One) => Some(0x36u32),
                (Opcode::STR, Form::Five) => Some(0x37u32),
                (Opcode::CMP, Form::Two) => Some(0x47u32),
                (Opcode::CMP, Form::Five) => Some(0x57u32),
                _ => None,
            }
        }
    }

    /// Whether the opcode may take the given form.
    pub open spec fn admits(self, form: Form) -> bool {
        self.spec_bytecode(form) is Some
    }

    /// The forms and bytecodes of the opcode, in table order.
    pub fn get_bytecode(&self) -> (r: Vec<(Form, u32)>)
        ensures
            r@ == self.bytecode_table(),
    {
        let mut r: Vec<(Form, u32)> = Vec::new();
        match self {
            Opcode::ADD => {
                r.push((Form::One, 0x01));
                r.push((Form::Four, 0x21));
            },
            Opcode::SUB => {
                r.push((Form::One, 0x02));
                r.push((Form::Four, 0x22));
            },
            Opcode::MOV => {
                r.push((Form::Two, 0x03));
                r.push((Form::Five, 0x23));
            },
            Opcode::AND => {
                r.push((Form::One, 0x04));
                r.push((Form::Four, 0x24));
            },
            Opcode::ORR => {
                r.push((Form::One, 0x05));
                r.push((Form::Four, 0x25));
            },
            Opcode::EOR => {
                r.push((Form::One, 0x06));
                r.push((Form::Four, 0x26));
            },
            Opcode::MVN => {
                r.push((Form::Two, 0x07));
                r.push((Form::Five, 0x27));
            },
            Opcode::MUL => {
                r.push((Form::One, 0x08));
                r.push((Form::Four, 0x28));
            },
            Opcode::LDR => {
                r.push((Form::Two, 0x30));
                r.push((Form::Four, 0x31));
                r.push((Form::One, 0x32));
                r.push((Form::Five, 0x33));
            },
            Opcode::STR => {
                r.push((Form::Two, 0x34));
                r.push((Form::Four, 0x35));
                r.push((Form::One, 0x36));
                r.push((Form::Five, 0x37));
            },
            Opcode::CMP => {
                r.push((Form::Two, 0x47));
                r.push((Form::Five, 0x57));
            },
            _ => {
                let cc = self.cond_code().unwrap();
                r.push((Form::Six, 0x800 + cc.index()));
            },
        }
        assert(r@ =~= self.bytecode_table());
        r
    }

    /// The bytecode of the opcode in the given form, if it admits that form.
    pub fn bytecode_for(&self, form: Form) -> (r: Option<u32>)
        ensures
            r == self.spec_bytecode(form),
    {
        match self.cond_code() {
            Some(cc) => {
                if form == Form::Six {
                    Some(0x800 + cc.index())
                } else {
                    None
                }
            },
            None => match (self, form) {
                (Opcode::ADD, Form::One) => Some(0x01),
                (Opcode::ADD, Form::Four) => Some(0x21),
                (Opcode::SUB, Form::One) => Some(0x02),
                (Opcode::SUB, Form::Four) => Some(0x22),
                (Opcode::MOV, Form::Two) => Some(0x03),
                (Opcode::MOV, Form::Five) => Some(0x23),
                (Opcode::AND, Form::One) => Some(0x04),
                (Opcode::AND, Form::Four) => Some(0x24),
                (Opcode::ORR, Form::One) => Some(0x05),
                (Opcode::ORR, Form::Four) => Some(0x25),
                (Opcode::EOR, Form::One) => Some(0x06),
                (Opcode::EOR, Form::Four) => Some(0x26),
                (Opcode::MVN, Form::Two) => Some(0x07),
                (Opcode::MVN, Form::Five) => Some(0x27),
                (Opcode::MUL, Form::One) => Some(0x08),
                (Opcode::MUL, Form::Four) => Some(0x28),
                (Opcode::LDR, Form::Two) => Some(0x30),
                (Opcode::LDR, Form::Four) => Some(0x31),
                (Opcode::LDR, Form::One) => Some(0x32),
                (Opcode::LDR, Form::Five) => Some(0x33),
                (Opcode::STR, Form::Two) => Some(0x34),
                (Opcode::STR, Form::Four) => Some(0x35),
                (Opcode::STR, Form::One) => Some(0x36),
                (Opcode::STR, Form::Five) => Some(0x37),
                (Opcode::CMP, Form::Two) => Some(0x47),
                (Opcode::CMP, Form::Five) => Some(0x57),
                _ => None,
            },
        }
    }

    /// The forms the opcode may take, in table order.
    pub fn get_forms(&self) -> (r: Vec<Form>)
        ensures
            r@ == self.bytecode_table().map_values(|p: (Form, u32)| p.0),
            forall|f: Form| r@.contains(f) <==> self.admits(f),
    {
        let table = self.get_bytecode();
        let mut r: Vec<Form> = Vec::new();
        let mut i: usize = 0;
        while i < table.len()
            invariant
                i <= table.len(),
                table@ == self.bytecode_table(),
                r@ == table@.take(i as int).map_values(|p: (Form, u32)| p.0),
            decreases table.len() - i,
        {
            r.push(table[i].0);
            i += 1;
            assert(table@.take(i as int).drop_last() =~= table@.take(i - 1));
            assert(r@ =~= table@.take(i as int).map_values(|p: (Form, u32)| p.0));
        }
        assert(table@.take(i as int) =~= table@);
        proof {
            lemma_table_forms(*self);
        }
        r
    }

    /// The (form, opcode) pair whose bytecode is `b`, if any.
    pub open spec fn spec_decode_bytecode(b: u32) -> Option<(Form, Opcode)> {
        match b {
            0x01u32 => Some((Form::One, Opcode::ADD)),
            0x21u32 => Some((Form::Four, Opcode::ADD)),
            0x02u32 => Some((Form::One, Opcode::SUB)),
            0x22u32 => Some((Form::Four, Opcode::SUB)),
            0x03u32 => Some((Form::Two, Opcode::MOV)),
            0x23u32 => Some((Form::Five, Opcode::MOV)),
            0x04u32 => Some((Form::One, Opcode::AND)),
            0x24u32 => Some((Form::Four, Opcode::AND)),
            0x05u32 => Some((Form::One, Opcode::ORR)),
            0x25u32 => Some((Form::Four, Opcode::ORR)),
            0x06u32 => Some((Form::One, Opcode::EOR)),
            0x26u32 => Some((Form::Four, Opcode::EOR)),
            0x07u32 => Some((Form::Two, Opcode::MVN)),
            0x27u32 => Some((Form::Five, Opcode::MVN)),
            0x08u32 => Some((Form::One, Opcode::MUL)),
            0x28u32 => Some((Form::Four, Opcode::MUL)),
            0x30u32 => Some((Form::Two, Opcode::LDR)),
            0x31u32 => Some((Form::Four, Opcode::LDR)),
            0x32u32 => Some((Form::One, Opcode::LDR)),
            0x33u32 => Some((Form::Five, Opcode::LDR)),
            0x34u32 => Some((Form::Two, Opcode::STR)),
            0x35u32 => Some((Form::Four, Opcode::STR)),
            0x36u32 => Some((Form::One, Opcode::STR)),
            0x37u32 => Some((Form::Five, Opcode::STR)),
            0x47u32 => Some((Form::Two, Opcode::CMP)),
            0x57u32 => Some((Form::Five, Opcode::CMP)),
            0x800u32 => Some((Form::Six, Opcode::B)),
            0x801u32 => Some((Form::Six, Opcode::BEQ)),
            0x802u32 => Some((Form::Six, Opcode::BNE)),
            0x803u32 => Some((Form::Six, Opcode::BHS)),
            0x804u32 => Some((Form::Six, Opcode::BLO)),
            0x805u32 => Some((Form::Six, Opcode::BMI)),
            0x806u32 => Some((Form::Six, Opcode::BPL)),
            0x807u32 => Some((Form::Six, Opcode::BVS)),
            0x808u32 => Some((Form::Six, Opcode::BVC)),
            0x809u32 => Some((Form::Six, Opcode::BHI)),
            0x80Au32 => Some((Form::Six, Opcode::BLS)),
            0x80Bu32 => Some((Form::Six, Opcode::BGE)),
            0x80Cu32 => Some((Form::Six, Opcode::BLT)),
            0x80Du32 => Some((Form::Six, Opcode::BGT)),
            0x80Eu32 => Some((Form::Six, Opcode::BLE)),
            _ => None,
        }
    }

    /// Looking a bytecode up in the inverse table gives back its pair.
    pub proof fn lemma_decode_bytecode(op: Opcode, f: Form)
        ensures
            op.spec_bytecode(f) is Some ==> Opcode::spec_decode_bytecode(op.spec_bytecode(f).unwrap())
                == Some((f, op)),
    {
    }

    /// A pair found in the inverse table has the bytecode it was found under.
    pub proof fn lemma_decode_bytecode_inverse(b: u32)
        ensures
            match Opcode::spec_decode_bytecode(b) {
                Some((f, op)) => op.spec_bytecode(f) == Some(b),
                None => true,
            },
    {
    }

    /// The form and opcode whose bytecode is the given value: an 8-bit opcode
    /// field, or a 12-bit branch field.
    pub fn get_opcode(bytecode: u32) -> (r: Result<(Form, Opcode), ()>)
        ensures
            match r {
                Ok((f, op)) => op.spec_bytecode(f) == Some(bytecode),
                Err(_) => forall|op: Opcode, f: Form| op.spec_bytecode(f) != Some(bytecode),
            },
            match r {
                Ok(p) => Opcode::spec_decode_bytecode(bytecode) == Some(p),
                Err(_) => Opcode::spec_decode_bytecode(bytecode) is None,
            },
    {
        match bytecode {
            0x01 => Ok((Form::One, Opcode::ADD)),
            0x21 => Ok((Form::Four, Opcode::ADD)),
            0x02 => Ok((Form::One, Opcode::SUB)),
            0x22 => Ok((Form::Four, Opcode::SUB)),
            0x03 => Ok((Form::Two, Opcode::MOV)),
            0x23 => Ok((Form::Five, Opcode::MOV)),
            0x04 => Ok((Form::One, Opcode::AND)),
            0x24 => Ok((Form::Four, Opcode::AND)),
            0x05 => Ok((Form::One, Opcode::ORR)),
            0x25 => Ok((Form::Four, Opcode::ORR)),
            0x06 => Ok((Form::One, Opcode::EOR)),
            0x26 => Ok((Form::Four, Opcode::EOR)),
            0x07 => Ok((Form::Two, Opcode::MVN)),
            0x27 => Ok((Form::Five, Opcode::MVN)),
            0x08 => Ok((Form::One, Opcode::MUL)),
            0x28 => Ok((Form::Four, Opcode::MUL)),
            0x30 => Ok((Form::Two, Opcode::LDR)),
            0x31 => Ok((Form::Four, Opcode::LDR)),
            0x32 => Ok((Form::One, Opcode::LDR)),
            0x33 => Ok((Form::Five, Opcode::LDR)),
            0x34 => Ok((Form::Two, Opcode::STR)),
            0x35 => Ok((Form::Four, Opcode::STR)),
            0x36 => Ok((Form::One, Opcode::STR)),
            0x37 => Ok((Form::Five, Opcode::STR)),
            0x47 => Ok((Form::Two, Opcode::CMP)),
            0x57 => Ok((Form::Five, Opcode::CMP)),
            0x800 => Ok((Form::Six, Opcode::B)),
            0x801 => Ok((Form::Six, Opcode::BEQ)),
            0x802 => Ok((Form::Six, Opcode::BNE)),
            0x803 => Ok((Form::Six, Opcode::BHS)),
            0x804 => Ok((Form::Six, Opcode::BLO)),
            0x805 => Ok((Form::Six, Opcode::BMI)),
            0x806 => Ok((Form::Six, Opcode::BPL)),
            0x807 => Ok((Form::Six, Opcode::BVS)),
            0x808 => Ok((Form::Six, Opcode::BVC)),
            0x809 => Ok((Form::Six, Opcode::BHI)),
            0x80A => Ok((Form::Six, Opcode::BLS)),
            0x80B => Ok((Form::Six, Opcode::BGE)),
            0x80C => Ok((Form::Six, Opcode::BLT)),
            0x80D => Ok((Form::Six, Opcode::BGT)),
            0x80E => Ok((Form::Six, Opcode::BLE)),
            _ => Err(()),
        }
    }
}

/// Each row of the bytecode table agrees with `spec_bytecode`, and lists
/// exactly the admissible forms.
pub proof fn lemma_table_forms(op: Opcode)
    ensures
        forall|i: int|
            0 <= i < op.bytecode_table().len() ==> op.spec_bytecode(
                (#[trigger] op.bytecode_table()[i]).0,
            ) == Some(op.bytecode_table()[i].1),
        forall|f: Form|
            op.bytecode_table().map_values(|p: (Form, u32)| p.0).contains(f) <==> op.admits(f),
{
    let t = op.bytecode_table();
    let fs = t.map_values(|p: (Form, u32)| p.0);
    assert forall|f: Form| op.admits(f) implies fs.contains(f) by {
        if t[0].0 == f {
            assert(fs[0] == f);
        } else if t.len() > 1 && t[1].0 == f {
            assert(fs[1] == f);
        } else if t.len() > 2 && t[2].0 == f {
            assert(fs[2] == f);
        } else {
            assert(fs[3] == f);
        }
    }
}

impl Form {
    /// The number of tokens, from the opcode on, of an expression of this
    /// form for the given opcode: the brackets of `LDR`/`STR` add two.
    pub open spec fn spec_expr_length(self, opcode: Opcode) -> usize {
        let delta: usize = if opcode.spec_is_mem() { 2 } else { 0 };
        match self {
            Form::One | Form::Four => (6 + delta) as usize,
            Form::Two | Form::Five => (4 + delta) as usize,
            Form::Six => 2,
        }
    }

    /// The number of tokens of an expression of this form for the given opcode.
    pub fn get_expr_length(&self, opcode: &Opcode) -> (r: usize)
        ensures
            r == self.spec_expr_length(*opcode),
    {
        let delta: usize = match opcode {
            Opcode::STR | Opcode::LDR => 2,
            _ => 0,
        };
        match self {
            Form::One | Form::Four => 6 + delta,
            Form::Two | Form::Five => 4 + delta,
            Form::Six => 2,
        }
    }
}

/// The forms of `forms`, in their order, whose expression length for `opcode`
/// is `len`.
pub open spec fn spec_reducer(forms: Seq<Form>, opcode: Opcode, len: usize) -> Seq<Form> {
    forms.filter(|f: Form| f.spec_expr_length(opcode) == len)
}

/// Keep the forms whose expression length for `opcode` equals the observed
/// token count `len`.
pub fn reducer(forms: Vec<Form>, opcode: &Opcode, len: usize) -> (r: Vec<Form>)
    ensures
        r@ == spec_reducer(forms@, *opcode, len),
        forall|f: Form| r@.contains(f) <==> forms@.contains(f) && f.spec_expr_length(*opcode) == len,
{
    let ghost pred = |f: Form| f.spec_expr_length(*opcode) == len;
    let mut r: Vec<Form> = Vec::new();
    let mut i: usize = 0;
    while i < forms.len()
        invariant
            i <= forms.len(),
            r@ == spec_reducer(forms@.take(i as int), *opcode, len),
            pred == (|f: Form| f.spec_expr_length(*opcode) == len),
        decreases forms.len() - i,
    {
        let f = forms[i];
        let ghost r0 = r@;
        if f.get_expr_length(opcode) == len {
            r.push(f);
        }
        proof {
            let s = forms@.take(i + 1);
            assert(s.drop_last() =~= forms@.take(i as int));
            assert(s.last() == f);
            reveal(Seq::filter);
            assert(spec_reducer(s, *opcode, len) == (if pred(f) { r0.push(f) } else { r0 }));
        }
        i += 1;
    }
    assert(forms@.take(i as int) =~= forms@);
    proof {
        assert forall|f: Form| r@.contains(f) <==> forms@.contains(f) && pred(f) by {
            if r@.contains(f) {
                forms@.lemma_filter_contains_rev(pred, f);
                let k = choose|k: int| 0 <= k < r@.len() && r@[k] == f;
                forms@.lemma_filter_pred(pred, k);
            }
            if forms@.contains(f) && pred(f) {
                let j = choose|j: int| 0 <= j < forms@.len() && forms@[j] == f;
                forms@.lemma_filter_contains(pred, j);
            }
        }
    }
    r
}

} // verus!
