use arm_vm::Flag;
use arm_vm::Processor;

fn compare(op1: u32, op2: u32) -> (bool, bool, bool, bool) {
    let mut flag = Flag::new();
    flag.update(op1, op2);
    (flag.get_c(), flag.get_z(), flag.get_n(), flag.get_v())
}

#[test]
fn test_update() {
    assert_eq!(compare(0x2C000000, 0xD2FFFFFF), (true, false, false, false));
}

#[test]
fn test_update_with_carry() {
    assert_eq!(compare(0xD9000000, 0xA3FFFFFF), (false, false, false, false));
}

#[test]
fn test_update_with_overflow() {
    assert_eq!(compare(0x68000000, 0xD2FFFFFF), (true, false, false, true));
    assert_eq!(compare(0x80000000, 1), (false, false, false, true));
}

#[test]
fn test_update_with_negative() {
    assert_eq!(compare(0xB5000000, 0xC4FFFFFF), (true, false, true, false));
}

#[test]
fn test_update_with_zero() {
    assert_eq!(compare(0x00000000, 0xFFFFFFFF), (true, false, false, false));
    assert_eq!(compare(5, 5), (false, true, false, false));
}

fn compare_in_processor(op1: u32, op2: u32) -> (bool, bool, bool, bool) {
    let mut vm = Processor::new();
    vm.update_flags(op1, op2);
    let f = vm.flags();
    (f.get_c(), f.get_z(), f.get_n(), f.get_v())
}

#[test]
fn test_update_flags() {
    assert_eq!(compare_in_processor(0x2C000000, 0xD2FFFFFF), (true, false, false, false));
}

#[test]
fn test_update_flags_with_carry() {
    assert_eq!(compare_in_processor(0xD9000000, 0xA3FFFFFF), (false, false, false, false));
}

#[test]
fn test_update_flags_with_overflow() {
    assert_eq!(compare_in_processor(0x68000000, 0xD2FFFFFF), (true, false, false, true));
}

#[test]
fn test_update_flags_with_negative() {
    assert_eq!(compare_in_processor(0xB5000000, 0xC4FFFFFF), (true, false, true, false));
}

#[test]
fn test_update_flags_with_zero() {
    assert_eq!(compare_in_processor(0x00000000, 0xFFFFFFFF), (true, false, false, false));
    assert_eq!(compare_in_processor(7, 7), (false, true, false, false));
}

#[test]
fn test_form_two_cmp() {
    let mut vm = Processor::new();
    vm.set_register(1, 0x2C000000);
    vm.set_register(2, 0xD2FFFFFF);
    vm.form_two_handler(arm_vm::Opcode::CMP, 0x47120000);
    let f = vm.flags();
    assert!(f.get_c() && !f.get_z() && !f.get_n() && !f.get_v());
}

#[test]
fn test_form_five_cmp() {
    let mut vm = Processor::new();
    vm.set_register(1, 0x1);
    vm.form_five_handler(arm_vm::Opcode::CMP, 0x57100000);
    let f = vm.flags();
    assert!(!f.get_c() && !f.get_z() && !f.get_n() && !f.get_v());
}

#[test]
fn branch_conditions_follow_flags() {
    // N != V: BLT taken, BGE not.
    let mut vm = Processor::new();
    vm.update_flags(0xB5000000, 0xC4FFFFFF);
    vm.form_six_handler(arm_vm::Opcode::BGE, 0x80B00009);
    assert_eq!(vm.get_pc(), 0);
    vm.form_six_handler(arm_vm::Opcode::BLT, 0x80C00009);
    assert_eq!(vm.get_pc(), 8);
    vm.exe_bcc(false, 100);
    assert_eq!(vm.get_pc(), 8);
    vm.exe_bcc(true, 100);
    assert_eq!(vm.get_pc(), 99);
}
