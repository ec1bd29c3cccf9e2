use arm_vm::assembler::get_bytecode;
use arm_vm::lexer::Separator::{CloseBrace, Comma, OpenBrace};
use arm_vm::lexer::Token::{Literal, Opcode, Register, Separator};
use arm_vm::EncoderDecoder;
use arm_vm::Form::{Five, Four, One, Six, Two};
use arm_vm::Literal::Immediate;
use arm_vm::Opcode::{ADD, BEQ, MOV, STR};
use arm_vm::Register::{PC, R1, R2, R3};

#[test]
fn test_encode_opcode() {
    let mut translator = EncoderDecoder::new(None);
    translator.set_opcode(One, ADD);
    assert_eq!(translator.get_instr(), 0x01000000);
}

#[test]
fn test_encode_bcc() {
    let mut translator = EncoderDecoder::new(None);
    translator.set_opcode(Six, BEQ);
    assert_eq!(translator.get_instr(), 0x80100000);
}

#[test]
fn test_encode_dr() {
    let mut translator = EncoderDecoder::new(None);
    translator.set_dr(PC);
    assert_eq!(translator.get_instr(), 0x00F00000);
}

#[test]
fn test_encode_rx() {
    let mut translator = EncoderDecoder::new(None);
    translator.set_rx(PC);
    assert_eq!(translator.get_instr(), 0x000F0000);
}

#[test]
fn test_encode_ry() {
    let mut translator = EncoderDecoder::new(None);
    translator.set_ry(PC);
    assert_eq!(translator.get_instr(), 0x0000F000);
}

#[test]
fn test_encode_immed16() {
    let mut translator = EncoderDecoder::new(None);
    translator.set_immed16(Immediate(String::from("0x1234")).get_value());
    assert_eq!(translator.get_instr(), 0x00001234);
}

#[test]
fn test_encode_immed20() {
    let mut translator = EncoderDecoder::new(None);
    translator.set_immed20(Immediate(String::from("0x12345")).get_value());
    assert_eq!(translator.get_instr(), 0x00012345);
}

#[test]
fn translator_test_basic_form_one() {
    let mut tokens = vec![
        Opcode(ADD),
        Register(R1),
        Separator(Comma),
        Register(R2),
        Separator(Comma),
        Register(R3),
    ];
    tokens.reverse();
    assert_eq!(get_bytecode(&mut tokens, One), 0x01123000);
}

#[test]
fn translator_test_ldr_str_form_one() {
    let mut tokens = vec![
        Opcode(STR),
        Register(R1),
        Separator(Comma),
        Separator(OpenBrace),
        Register(R2),
        Separator(Comma),
        Register(R3),
        Separator(CloseBrace),
    ];
    tokens.reverse();
    assert_eq!(get_bytecode(&mut tokens, One), 0x36123000);
}

#[test]
fn translator_test_basic_form_two() {
    let mut tokens = vec![Opcode(MOV), Register(R1), Separator(Comma), Register(R2)];
    tokens.reverse();
    assert_eq!(get_bytecode(&mut tokens, Two), 0x03120000);
}

#[test]
fn translator_test_ldr_str_form_two() {
    let mut tokens = vec![
        Opcode(STR),
        Register(R1),
        Separator(Comma),
        Separator(OpenBrace),
        Register(R2),
        Separator(CloseBrace),
    ];
    tokens.reverse();
    assert_eq!(get_bytecode(&mut tokens, Two), 0x34120000);
}

#[test]
fn translator_test_basic_form_four() {
    let mut tokens = vec![
        Opcode(ADD),
        Register(R1),
        Separator(Comma),
        Register(R2),
        Separator(Comma),
        Literal(Immediate(String::from("0x1234"))),
    ];
    tokens.reverse();
    assert_eq!(get_bytecode(&mut tokens, Four), 0x21121234);
}

#[test]
fn translator_test_ldr_str_form_four() {
    let mut tokens = vec![
        Opcode(STR),
        Register(R1),
        Separator(Comma),
        Separator(OpenBrace),
        Register(R2),
        Separator(Comma),
        Literal(Immediate(String::from("0x1234"))),
        Separator(CloseBrace),
    ];
    tokens.reverse();
    assert_eq!(get_bytecode(&mut tokens, Four), 0x35121234);
}

#[test]
fn translator_test_basic_form_five() {
    let mut tokens = vec![
        Opcode(MOV),
        Register(R1),
        Separator(Comma),
        Literal(Immediate(String::from("0x12345"))),
    ];
    tokens.reverse();
    assert_eq!(get_bytecode(&mut tokens, Five), 0x23112345);
}

#[test]
fn translator_test_ldr_str_form_five() {
    let mut tokens = vec![
        Opcode(STR),
        Register(R1),
        Separator(Comma),
        Separator(OpenBrace),
        Literal(Immediate(String::from("0x12345"))),
        Separator(CloseBrace),
    ];
    tokens.reverse();
    assert_eq!(get_bytecode(&mut tokens, Five), 0x37112345);
}

#[test]
fn translator_test_form_six() {
    let mut tokens = vec![Opcode(BEQ)];
    tokens.reverse();
    assert_eq!(get_bytecode(&mut tokens, Six), 0x80100000);
}

#[test]
fn fields_are_or_composable() {
    let mut a = EncoderDecoder::new(None);
    a.set_opcode(One, ADD);
    a.set_dr(R1);
    a.set_rx(R2);
    a.set_ry(R3);
    let mut b = EncoderDecoder::new(None);
    b.set_ry(R3);
    b.set_rx(R2);
    b.set_dr(R1);
    b.set_opcode(One, ADD);
    assert_eq!(a.get_instr(), b.get_instr());
    assert_eq!(a.get_instr(), 0x01123000);
}

#[test]
fn encoder_cuts_values_to_field_width() {
    let mut e = EncoderDecoder::new(None);
    e.set_immed16(0x1FFFF);
    assert_eq!(e.get_instr(), 0xFFFF);
    let mut e = EncoderDecoder::new(None);
    e.set_immed20(0x123456);
    assert_eq!(e.get_instr(), 0x23456);
    let mut e = EncoderDecoder::new(None);
    e.set_cc(arm_vm::ConditionCode::LE);
    assert_eq!(e.get_instr(), 0x80E00000);
}

#[test]
fn decode_round_trips() {
    for (word, form, op) in [
        (0x01123000u32, One, ADD),
        (0x36123000, One, STR),
        (0x03120000, Two, MOV),
        (0x21121234, Four, ADD),
        (0x23112345, Five, MOV),
        (0x80100007, Six, BEQ),
    ] {
        let d = EncoderDecoder::new(Some(word));
        assert_eq!(d.get_form_and_opcode(), Ok((form, op)));
    }
    let d = EncoderDecoder::new(Some(0x36123000));
    assert_eq!((d.get_dr(), d.get_rx(), d.get_ry()), (1, 2, 3));
    let d = EncoderDecoder::new(Some(0x80D00042));
    assert_eq!(d.get_cc(), Some(arm_vm::ConditionCode::GT));
    assert_eq!(d.get_immed20(), 0x42);
    // Neither an opcode byte nor a branch code.
    assert_eq!(EncoderDecoder::new(Some(0x00100000)).get_form_and_opcode(), Err(()));
    assert_eq!(EncoderDecoder::new(Some(0xFF000000)).get_form_and_opcode(), Err(()));
}
