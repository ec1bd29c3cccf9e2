use arm_vm::Literal;

#[test]
fn test_is_valid_with_base_ascii() {
    assert!(Literal::Immediate(String::from("#'D'")).is_valid())
}

#[test]
fn test_is_valid_with_base_10() {
    assert!(Literal::Immediate(String::from("#1234")).is_valid())
}

#[test]
fn test_is_valid_with_base_16() {
    assert!(Literal::Immediate(String::from("#0x1234")).is_valid())
}

#[test]
fn test_is_valid_out_of_bounds() {
    assert!(!Literal::Immediate(String::from("#0x1FFFFFFFF")).is_valid())
}

#[test]
fn test_get_value_with_base_ascii() {
    assert_eq!(Literal::Immediate(String::from("d")).get_value(), 100)
}

#[test]
fn test_get_value_with_base_10() {
    assert_eq!(Literal::Immediate(String::from("1234")).get_value(), 1234)
}

#[test]
fn test_get_value_with_base_16() {
    assert_eq!(Literal::Immediate(String::from("0x1234")).get_value(), 0x1234)
}

#[test]
fn is_valid_strips_prefix_and_quotes() {
    let mut hex = Literal::Immediate(String::from("#0xABcd"));
    assert!(hex.is_valid());
    assert_eq!(hex, Literal::Immediate(String::from("0xABcd")));
    assert_eq!(hex.get_value(), 0xABCD);
    let mut ch = Literal::Immediate(String::from("#'D'"));
    assert!(ch.is_valid());
    assert_eq!(ch.get_value(), 68);
}

#[test]
fn is_valid_rejects_malformed_literals() {
    for text in ["1234", "#", "#0x", "#12a", "#'1'", "#'ab'", "#4294967296", "#D"] {
        let mut lit = Literal::Immediate(String::from(text));
        assert!(!lit.is_valid(), "{}", text);
        assert_eq!(lit, Literal::Immediate(String::from(text)));
    }
}

#[test]
fn largest_values_fit() {
    let mut dec = Literal::Immediate(String::from("#4294967295"));
    assert!(dec.is_valid());
    assert_eq!(dec.get_value(), u32::MAX);
    let mut hex = Literal::Immediate(String::from("#0xFFFFFFFF"));
    assert!(hex.is_valid());
    assert_eq!(hex.get_value(), u32::MAX);
}
