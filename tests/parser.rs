use arm_vm::lexer::Label::Name;
use arm_vm::lexer::Separator::{CloseBrace, Comma, OpenBrace};
use arm_vm::lexer::Token;
use arm_vm::lexer::Token::{Label, Literal, Opcode, Register, Separator};
use arm_vm::parser::run;
use arm_vm::Form;
use arm_vm::Literal::Immediate;
use arm_vm::Opcode::{ADD, BEQ, MOV, STR};
use arm_vm::Register::R0;
use arm_vm::Error;

fn form_of(mut tokens: Vec<Token>) -> Option<Form> {
    match run(&mut tokens) {
        Ok(Some(form)) => Some(form),
        _ => None,
    }
}

#[test]
fn testis_ok() {
    let mut tokens = vec![
        Opcode(ADD),
        Register(R0),
        Separator(Comma),
        Register(R0),
        Separator(Comma),
        Register(R0),
    ];
    assert!(run(&mut tokens).is_ok());
}

#[test]
fn mod_test_form() {
    // Basic form one.
    let tokens = vec![
        Opcode(ADD),
        Register(R0),
        Separator(Comma),
        Register(R0),
        Separator(Comma),
        Register(R0),
    ];
    assert_eq!(form_of(tokens), Some(Form::One));
    // LDR/STR form one.
    let tokens = vec![
        Opcode(STR),
        Register(R0),
        Separator(Comma),
        Separator(OpenBrace),
        Register(R0),
        Separator(Comma),
        Register(R0),
        Separator(CloseBrace),
    ];
    assert_eq!(form_of(tokens), Some(Form::One));
    // Basic form two.
    let tokens = vec![Opcode(MOV), Register(R0), Separator(Comma), Register(R0)];
    assert_eq!(form_of(tokens), Some(Form::Two));
    // LDR/STR form two.
    let tokens = vec![
        Opcode(STR),
        Register(R0),
        Separator(Comma),
        Separator(OpenBrace),
        Register(R0),
        Separator(CloseBrace),
    ];
    assert_eq!(form_of(tokens), Some(Form::Two));
    // Basic form four.
    let tokens = vec![
        Opcode(ADD),
        Register(R0),
        Separator(Comma),
        Register(R0),
        Separator(Comma),
        Literal(Immediate(String::from("0x1234"))),
    ];
    assert_eq!(form_of(tokens), Some(Form::Four));
    // LDR/STR form four.
    let tokens = vec![
        Opcode(STR),
        Register(R0),
        Separator(Comma),
        Separator(OpenBrace),
        Register(R0),
        Separator(Comma),
        Literal(Immediate(String::from("0x1234"))),
        Separator(CloseBrace),
    ];
    assert_eq!(form_of(tokens), Some(Form::Four));
    // Basic form five.
    let tokens = vec![
        Opcode(MOV),
        Register(R0),
        Separator(Comma),
        Literal(Immediate(String::from("0x1234"))),
    ];
    assert_eq!(form_of(tokens), Some(Form::Five));
    // LDR/STR form five.
    let tokens = vec![
        Opcode(STR),
        Register(R0),
        Separator(Comma),
        Separator(OpenBrace),
        Literal(Immediate(String::from("0x1234"))),
        Separator(CloseBrace),
    ];
    assert_eq!(form_of(tokens), Some(Form::Five));
}

#[test]
fn mod_test_is_ok() {
    // LDR/STR form one.
    let mut tokens = vec![
        Opcode(STR),
        Register(R0),
        Separator(Comma),
        Separator(OpenBrace),
        Register(R0),
        Separator(Comma),
        Register(R0),
        Separator(CloseBrace),
    ];
    assert!(run(&mut tokens).is_ok());
    // Basic form two.
    let mut tokens = vec![Opcode(MOV), Register(R0), Separator(Comma), Register(R0)];
    assert!(run(&mut tokens).is_ok());
    // LDR/STR form two.
    let mut tokens = vec![
        Opcode(STR),
        Register(R0),
        Separator(Comma),
        Separator(OpenBrace),
        Register(R0),
        Separator(CloseBrace),
    ];
    assert!(run(&mut tokens).is_ok());
    // LDR/STR form four.
    let mut tokens = vec![
        Opcode(STR),
        Register(R0),
        Separator(Comma),
        Separator(OpenBrace),
        Register(R0),
        Separator(Comma),
        Literal(Immediate(String::from("0x1234"))),
        Separator(CloseBrace),
    ];
    assert!(run(&mut tokens).is_ok());
    // LDR/STR form five.
    let mut tokens = vec![
        Opcode(STR),
        Register(R0),
        Separator(Comma),
        Separator(OpenBrace),
        Literal(Immediate(String::from("0x1234"))),
        Separator(CloseBrace),
    ];
    assert!(run(&mut tokens).is_ok());
}

#[test]
fn test_ok_with_base_16() {
    let mut tokens = vec![
        Opcode(ADD),
        Register(R0),
        Separator(Comma),
        Register(R0),
        Separator(Comma),
        Literal(Immediate(String::from("0x1234"))),
    ];
    assert!(run(&mut tokens).is_ok());
}

#[test]
fn mod_test_out_of_bounds_with_base_16() {
    // Form four.
    let mut tokens = vec![
        Opcode(ADD),
        Register(R0),
        Separator(Comma),
        Register(R0),
        Separator(Comma),
        Literal(Immediate(String::from("0x1FFFF"))),
    ];
    assert!(run(&mut tokens).is_err());
    // Form five.
    let mut tokens = vec![
        Opcode(MOV),
        Register(R0),
        Separator(Comma),
        Literal(Immediate(String::from("0x1FFFFF"))),
    ];
    assert!(run(&mut tokens).is_err());
}

#[test]
fn mod_test_is_ok_with_base_10() {
    // Form four.
    let mut tokens = vec![
        Opcode(ADD),
        Register(R0),
        Separator(Comma),
        Register(R0),
        Separator(Comma),
        Literal(Immediate(String::from("1234"))),
    ];
    assert!(run(&mut tokens).is_ok());
    // Form five.
    let mut tokens = vec![
        Opcode(MOV),
        Register(R0),
        Separator(Comma),
        Literal(Immediate(String::from("1234"))),
    ];
    assert!(run(&mut tokens).is_ok());
}

#[test]
fn mod_test_out_of_bounds_with_base_10() {
    // Form four.
    let mut tokens = vec![
        Opcode(ADD),
        Register(R0),
        Separator(Comma),
        Register(R0),
        Separator(Comma),
        Literal(Immediate((1 + u32::pow(2, 16)).to_string())),
    ];
    assert!(run(&mut tokens).is_err());
    // Form five.
    let mut tokens = vec![
        Opcode(MOV),
        Register(R0),
        Separator(Comma),
        Literal(Immediate((1 + u32::pow(2, 20)).to_string())),
    ];
    assert!(run(&mut tokens).is_err());
}

#[test]
fn test_is_ok_with_base_16() {
    let mut tokens = vec![
        Opcode(MOV),
        Register(R0),
        Separator(Comma),
        Literal(Immediate(String::from("0x1234"))),
    ];
    assert!(run(&mut tokens).is_ok());
}

#[test]
fn test_mult_labels() {
    let mut tokens = vec![
        Label(Name(String::from("foo"))),
        Label(Name(String::from("bar"))),
    ];
    assert!(run(&mut tokens).is_err());
}

#[test]
fn test_mult_opcodes() {
    let mut tokens = vec![
        Opcode(ADD),
        Opcode(ADD),
        Register(R0),
        Separator(Comma),
        Register(R0),
        Separator(Comma),
        Register(R0),
    ];
    assert!(run(&mut tokens).is_err());
}

#[test]
fn test_mult_commas() {
    let mut tokens = vec![
        Opcode(ADD),
        Register(R0),
        Separator(Comma),
        Separator(Comma),
        Register(R0),
        Separator(Comma),
        Register(R0),
    ];
    assert!(run(&mut tokens).is_err());
}

#[test]
fn test_basic_expr_with_braces() {
    let mut tokens = vec![
        Opcode(ADD),
        Register(R0),
        Separator(Comma),
        Separator(OpenBrace),
        Register(R0),
        Separator(Comma),
        Register(R0),
        Separator(CloseBrace),
    ];
    assert!(run(&mut tokens).is_err());
}

#[test]
fn test_ldr_str_with_no_open_brace() {
    let mut tokens = vec![
        Opcode(STR),
        Register(R0),
        Separator(Comma),
        Register(R0),
        Separator(Comma),
        Register(R0),
        Separator(CloseBrace),
    ];
    assert!(run(&mut tokens).is_err());
}

#[test]
fn test_ldr_str_with_no_close_brace() {
    let mut tokens = vec![
        Opcode(STR),
        Register(R0),
        Separator(OpenBrace),
        Separator(Comma),
        Register(R0),
        Separator(Comma),
        Register(R0),
    ];
    assert!(run(&mut tokens).is_err());
}

#[test]
fn test_ldr_str_with_no_braces() {
    let mut tokens = vec![
        Opcode(STR),
        Register(R0),
        Separator(Comma),
        Register(R0),
        Separator(Comma),
        Register(R0),
    ];
    assert!(run(&mut tokens).is_err());
}

#[test]
fn test_no_commas() {
    let mut tokens = vec![Opcode(ADD), Register(R0), Register(R0), Register(R0)];
    assert!(run(&mut tokens).is_err());
}

#[test]
fn test_label_at_end_of_expr() {
    let mut tokens = vec![
        Opcode(ADD),
        Register(R0),
        Separator(Comma),
        Register(R0),
        Separator(Comma),
        Register(R0),
        Label(Name(String::from("foo"))),
    ];
    assert!(run(&mut tokens).is_err());
}

#[test]
fn bare_label_and_branch_forms() {
    let tokens = vec![Label(Name(String::from("loop")))];
    assert_eq!(run(&tokens), Ok(None));
    let tokens = vec![Opcode(BEQ), Label(Name(String::from("loop")))];
    assert_eq!(run(&tokens), Ok(Some(Form::Six)));
    let tokens = vec![
        Label(Name(String::from("here"))),
        Opcode(BEQ),
        Label(Name(String::from("there"))),
    ];
    assert_eq!(run(&tokens), Ok(Some(Form::Six)));
    // A branch needs a label, not a register.
    let tokens = vec![Opcode(BEQ), Register(R0)];
    assert_eq!(run(&tokens), Err(Error::SyntaxError));
    assert_eq!(run(&Vec::new()), Err(Error::SyntaxError));
}

#[test]
fn widest_immediates_are_accepted() {
    let tokens = vec![
        Opcode(ADD),
        Register(R0),
        Separator(Comma),
        Register(R0),
        Separator(Comma),
        Literal(Immediate(String::from("0xFFFF"))),
    ];
    assert_eq!(run(&tokens), Ok(Some(Form::Four)));
    let tokens = vec![
        Opcode(STR),
        Register(R0),
        Separator(Comma),
        Separator(OpenBrace),
        Literal(Immediate(String::from("0xFFFFF"))),
        Separator(CloseBrace),
    ];
    assert_eq!(run(&tokens), Ok(Some(Form::Five)));
    let tokens = vec![
        Opcode(STR),
        Register(R0),
        Separator(Comma),
        Separator(OpenBrace),
        Literal(Immediate(String::from("0x100000"))),
        Separator(CloseBrace),
    ];
    assert_eq!(run(&tokens), Err(Error::SyntaxError));
}

#[test]
fn bracket_operand_must_follow_destination() {
    // `STR DR, RX, [RY]` is not one of the form patterns.
    let tokens = vec![
        Opcode(STR),
        Register(R0),
        Separator(Comma),
        Register(R0),
        Separator(Comma),
        Separator(OpenBrace),
        Register(R0),
        Separator(CloseBrace),
    ];
    assert_eq!(run(&tokens), Err(Error::SyntaxError));
    // An immediate may not come before a register.
    let tokens = vec![
        Opcode(ADD),
        Register(R0),
        Separator(Comma),
        Literal(Immediate(String::from("5"))),
        Separator(Comma),
        Register(R0),
    ];
    assert_eq!(run(&tokens), Err(Error::SyntaxError));
}
