use arm_vm::vm::Processor;
use arm_vm::EncoderDecoder;
use arm_vm::Opcode::{ADD, AND, EOR, LDR, MOV, MUL, MVN, ORR, STR, SUB};
use arm_vm::Register::{PC, R1, R2, R3};

#[test]
fn vm_test_set_pc() {
    let mut vm = Processor::new();
    vm.set_pc(0x1234);
    assert_eq!(vm.register(PC as usize), 0x1234);
}

#[test]
fn vm_test_incr_pc() {
    let mut vm = Processor::new();
    vm.incr_pc();
    assert_eq!(vm.register(PC as usize), 0x1);
}

#[test]
fn vm_test_write_to_mm() {
    let mut vm = Processor::new();
    vm.write_to_mm(vm.get_pc(), 0x1234);
    assert_eq!(vm.read_from_mm(), 0x1234);
}

#[test]
fn vm_test_execute() {
    let mut vm = Processor::new();
    vm.execute(R1 as usize, 1 + 2);
    assert_eq!(vm.register(R1 as usize), 3);
}

#[test]
fn vm_test_form_one_add() {
    let mut vm = Processor::new();
    vm.set_register(R2 as usize, 0x2);
    vm.set_register(R3 as usize, 0x3);
    vm.form_one_handler(ADD, 0x01123000);
    assert_eq!(vm.register(R1 as usize), 0x5);
}

#[test]
fn vm_test_form_one_and() {
    let mut vm = Processor::new();
    vm.set_register(R2 as usize, 0x2);
    vm.set_register(R3 as usize, 0x3);
    vm.form_one_handler(AND, 0x04123000);
    assert_eq!(vm.register(R1 as usize), 0x2);
}

#[test]
fn vm_test_form_one_eor() {
    let mut vm = Processor::new();
    vm.set_register(R2 as usize, 0x2);
    vm.set_register(R3 as usize, 0x3);
    vm.form_one_handler(EOR, 0x06123000);
    assert_eq!(vm.register(R1 as usize), 0x1);
}

#[test]
fn vm_test_form_one_mul() {
    let mut vm = Processor::new();
    vm.set_register(R2 as usize, 0x2);
    vm.set_register(R3 as usize, 0x3);
    vm.form_one_handler(MUL, 0x08123000);
    assert_eq!(vm.register(R1 as usize), 0x6);
}

#[test]
fn vm_test_form_one_orr() {
    let mut vm = Processor::new();
    vm.set_register(R2 as usize, 0x2);
    vm.set_register(R3 as usize, 0x3);
    vm.form_one_handler(ORR, 0x05123000);
    assert_eq!(vm.register(R1 as usize), 0x3);
}

#[test]
fn vm_test_form_one_sub() {
    let mut vm = Processor::new();
    vm.set_register(R2 as usize, 0x3);
    vm.set_register(R3 as usize, 0x2);
    vm.form_one_handler(SUB, 0x02123000);
    assert_eq!(vm.register(R1 as usize), 0x1);
}

#[test]
fn vm_test_form_one_ldr() {
    let mut vm = Processor::new();
    vm.set_register(R2 as usize, 0x2);
    vm.set_register(R3 as usize, 0x3);
    vm.write_to_mm(0x5, 0x1234);
    vm.form_one_handler(LDR, 0x32123000);
    assert_eq!(vm.register(R1 as usize), 0x1234);
}

#[test]
fn vm_test_form_one_str() {
    let mut vm = Processor::new();
    vm.set_register(R1 as usize, 0x1234);
    vm.set_register(R2 as usize, 0x2);
    vm.set_register(R3 as usize, 0x3);
    vm.form_one_handler(STR, 0x36123000);
    assert_eq!(vm.read_at(0x5), 0x1234);
}

#[test]
fn vm_test_form_two_mov() {
    let mut vm = Processor::new();
    vm.set_register(R2 as usize, 0x2);
    vm.form_two_handler(MOV, 0x03120000);
    assert_eq!(vm.register(R1 as usize), 0x2);
}

#[test]
fn vm_test_form_two_mvn() {
    let mut vm = Processor::new();
    vm.set_register(R2 as usize, 0x2);
    vm.form_two_handler(MVN, 0x07120000);
    assert_eq!(vm.register(R1 as usize), 0xFFFFFFFD);
}

#[test]
fn vm_test_form_two_ldr() {
    let mut vm = Processor::new();
    vm.set_register(R2 as usize, 0x2);
    vm.write_to_mm(0x2, 0x1234);
    vm.form_two_handler(LDR, 0x30120000);
    assert_eq!(vm.register(R1 as usize), 0x1234);
}

#[test]
fn vm_test_form_two_str() {
    let mut vm = Processor::new();
    vm.set_register(R1 as usize, 0x1234);
    vm.set_register(R2 as usize, 0x2);
    vm.form_two_handler(STR, 0x34120000);
    assert_eq!(vm.read_at(0x2), 0x1234);
}

#[test]
fn vm_test_form_four_add() {
    let mut vm = Processor::new();
    vm.set_register(R2 as usize, 0x2);
    vm.form_four_handler(ADD, 0x21120004);
    assert_eq!(vm.register(R1 as usize), 0x6);
}

#[test]
fn vm_test_form_four_and() {
    let mut vm = Processor::new();
    vm.set_register(R2 as usize, 0x2);
    vm.form_four_handler(AND, 0x24120003);
    assert_eq!(vm.register(R1 as usize), 0x2);
}

#[test]
fn vm_test_form_four_eor() {
    let mut vm = Processor::new();
    vm.set_register(R2 as usize, 0x2);
    vm.form_four_handler(EOR, 0x26120003);
    assert_eq!(vm.register(R1 as usize), 0x1);
}

#[test]
fn vm_test_form_four_mul() {
    let mut vm = Processor::new();
    vm.set_register(R2 as usize, 0x2);
    vm.form_four_handler(MUL, 0x28120003);
    assert_eq!(vm.register(R1 as usize), 0x6);
}

#[test]
fn vm_test_form_four_orr() {
    let mut vm = Processor::new();
    vm.set_register(R2 as usize, 0x2);
    vm.form_four_handler(ORR, 0x25120003);
    assert_eq!(vm.register(R1 as usize), 0x3);
}

#[test]
fn vm_test_form_four_sub() {
    let mut vm = Processor::new();
    vm.set_register(R2 as usize, 0x3);
    vm.form_four_handler(SUB, 0x22120002);
    assert_eq!(vm.register(R1 as usize), 0x1);
}

#[test]
fn vm_test_form_four_ldr() {
    let mut vm = Processor::new();
    vm.set_register(R2 as usize, 0x1);
    vm.write_to_mm(0x2, 0x1234);
    vm.form_four_handler(LDR, 0x31120001);
    assert_eq!(vm.register(R1 as usize), 0x1234);
}

#[test]
fn vm_test_form_four_str() {
    let mut vm = Processor::new();
    vm.set_register(R1 as usize, 0x1234);
    vm.set_register(R2 as usize, 0x1);
    vm.form_four_handler(STR, 0x35120001);
    assert_eq!(vm.read_at(0x2), 0x1234);
}

#[test]
fn vm_test_form_five_mov() {
    let mut vm = Processor::new();
    vm.form_five_handler(MOV, 0x23112345);
    assert_eq!(vm.register(R1 as usize), 0x12345);
}

#[test]
fn vm_test_form_five_mvn() {
    let mut vm = Processor::new();
    vm.form_five_handler(MVN, 0x27100000);
    assert_eq!(vm.register(R1 as usize), 0xFFFFFFFF);
}

#[test]
fn vm_test_form_five_ldr() {
    let mut vm = Processor::new();
    vm.set_pc(0x2);
    vm.write_to_mm(0x3, 0x1234);
    vm.form_five_handler(LDR, 0x33100001);
    assert_eq!(vm.register(R1 as usize), 0x1234);
}

#[test]
fn vm_test_form_five_str() {
    let mut vm = Processor::new();
    vm.set_pc(0x2);
    vm.set_register(R1 as usize, 0x1234);
    vm.form_five_handler(STR, 0x37100001);
    assert_eq!(vm.read_at(0x3), 0x1234);
}

#[test]
fn mod_test_set_pc() {
    let mut vm = Processor::new();
    vm.set_pc(0x1234);
    assert_eq!(vm.register(PC as usize), 0x1234);
}

#[test]
fn mod_test_incr_pc() {
    let mut vm = Processor::new();
    vm.incr_pc();
    assert_eq!(vm.register(PC as usize), 0x1);
}

#[test]
fn mod_test_write_to_mm() {
    let mut vm = Processor::new();
    vm.write_to_mm(vm.get_pc(), 0x1234);
    assert_eq!(vm.read_from_mm(), 0x1234);
}

#[test]
fn mod_test_execute() {
    let mut vm = Processor::new();
    vm.execute(R1 as usize, 1 + 2);
    assert_eq!(vm.register(R1 as usize), 3);
}

#[test]
fn mod_test_form_one_add() {
    let mut vm = Processor::new();
    vm.set_register(R2 as usize, 0x2);
    vm.set_register(R3 as usize, 0x3);
    let decoder = EncoderDecoder::new(Some(0x01123000));
    vm.form_one_handler(ADD, decoder.get_instr());
    assert_eq!(vm.register(R1 as usize), 0x5);
}

#[test]
fn mod_test_form_one_and() {
    let mut vm = Processor::new();
    vm.set_register(R2 as usize, 0x2);
    vm.set_register(R3 as usize, 0x3);
    let decoder = EncoderDecoder::new(Some(0x04123000));
    vm.form_one_handler(AND, decoder.get_instr());
    assert_eq!(vm.register(R1 as usize), 0x2);
}

#[test]
fn mod_test_form_one_eor() {
    let mut vm = Processor::new();
    vm.set_register(R2 as usize, 0x2);
    vm.set_register(R3 as usize, 0x3);
    let decoder = EncoderDecoder::new(Some(0x06123000));
    vm.form_one_handler(EOR, decoder.get_instr());
    assert_eq!(vm.register(R1 as usize), 0x1);
}

#[test]
fn mod_test_form_one_mul() {
    let mut vm = Processor::new();
    vm.set_register(R2 as usize, 0x2);
    vm.set_register(R3 as usize, 0x3);
    let decoder = EncoderDecoder::new(Some(0x08123000));
    vm.form_one_handler(MUL, decoder.get_instr());
    assert_eq!(vm.register(R1 as usize), 0x6);
}

#[test]
fn mod_test_form_one_orr() {
    let mut vm = Processor::new();
    vm.set_register(R2 as usize, 0x2);
    vm.set_register(R3 as usize, 0x3);
    let decoder = EncoderDecoder::new(Some(0x05123000));
    vm.form_one_handler(ORR, decoder.get_instr());
    assert_eq!(vm.register(R1 as usize), 0x3);
}

#[test]
fn mod_test_form_one_sub() {
    let mut vm = Processor::new();
    vm.set_register(R2 as usize, 0x3);
    vm.set_register(R3 as usize, 0x2);
    let decoder = EncoderDecoder::new(Some(0x02123000));
    vm.form_one_handler(SUB, decoder.get_instr());
    assert_eq!(vm.register(R1 as usize), 0x1);
}

#[test]
fn mod_test_form_one_ldr() {
    let mut vm = Processor::new();
    vm.set_register(R2 as usize, 0x2);
    vm.set_register(R3 as usize, 0x3);
    vm.write_to_mm(0x5, 0x1234);
    let decoder = EncoderDecoder::new(Some(0x32123000));
    vm.form_one_handler(LDR, decoder.get_instr());
    assert_eq!(vm.register(R1 as usize), 0x1234);
}

#[test]
fn mod_test_form_one_str() {
    let mut vm = Processor::new();
    vm.set_register(R1 as usize, 0x1234);
    vm.set_register(R2 as usize, 0x2);
    vm.set_register(R3 as usize, 0x3);
    let decoder = EncoderDecoder::new(Some(0x36123000));
    vm.form_one_handler(STR, decoder.get_instr());
    assert_eq!(vm.read_at(0x5), 0x1234);
}

#[test]
fn mod_test_form_two_mov() {
    let mut vm = Processor::new();
    vm.set_register(R2 as usize, 0x2);
    let decoder = EncoderDecoder::new(Some(0x03120000));
    vm.form_two_handler(MOV, decoder.get_instr());
    assert_eq!(vm.register(R1 as usize), 0x2);
}

#[test]
fn mod_test_form_two_mvn() {
    let mut vm = Processor::new();
    vm.set_register(R2 as usize, 0x2);
    let decoder = EncoderDecoder::new(Some(0x07120000));
    vm.form_two_handler(MVN, decoder.get_instr());
    assert_eq!(vm.register(R1 as usize), 0xFFFFFFFD);
}

#[test]
fn mod_test_form_two_ldr() {
    let mut vm = Processor::new();
    vm.set_register(R2 as usize, 0x2);
    vm.write_to_mm(0x2, 0x1234);
    let decoder = EncoderDecoder::new(Some(0x30120000));
    vm.form_two_handler(LDR, decoder.get_instr());
    assert_eq!(vm.register(R1 as usize), 0x1234);
}

#[test]
fn mod_test_form_two_str() {
    let mut vm = Processor::new();
    vm.set_register(R1 as usize, 0x1234);
    vm.set_register(R2 as usize, 0x2);
    let decoder = EncoderDecoder::new(Some(0x34120000));
    vm.form_two_handler(STR, decoder.get_instr());
    assert_eq!(vm.read_at(0x2), 0x1234);
}

#[test]
fn mod_test_form_four_add() {
    let mut vm = Processor::new();
    vm.set_register(R2 as usize, 0x2);
    let decoder = EncoderDecoder::new(Some(0x21120004));
    vm.form_four_handler(ADD, decoder.get_instr());
    assert_eq!(vm.register(R1 as usize), 0x6);
}

#[test]
fn mod_test_form_four_and() {
    let mut vm = Processor::new();
    vm.set_register(R2 as usize, 0x2);
    let decoder = EncoderDecoder::new(Some(0x24120003));
    vm.form_four_handler(AND, decoder.get_instr());
    assert_eq!(vm.register(R1 as usize), 0x2);
}

#[test]
fn mod_test_form_four_eor() {
    let mut vm = Processor::new();
    vm.set_register(R2 as usize, 0x2);
    let decoder = EncoderDecoder::new(Some(0x26120003));
    vm.form_four_handler(EOR, decoder.get_instr());
    assert_eq!(vm.register(R1 as usize), 0x1);
}

#[test]
fn mod_test_form_four_mul() {
    let mut vm = Processor::new();
    vm.set_register(R2 as usize, 0x2);
    let decoder = EncoderDecoder::new(Some(0x28120003));
    vm.form_four_handler(MUL, decoder.get_instr());
    assert_eq!(vm.register(R1 as usize), 0x6);
}

#[test]
fn mod_test_form_four_orr() {
    let mut vm = Processor::new();
    vm.set_register(R2 as usize, 0x2);
    let decoder = EncoderDecoder::new(Some(0x25120003));
    vm.form_four_handler(ORR, decoder.get_instr());
    assert_eq!(vm.register(R1 as usize), 0x3);
}

#[test]
fn mod_test_form_four_sub() {
    let mut vm = Processor::new();
    vm.set_register(R2 as usize, 0x3);
    let decoder = EncoderDecoder::new(Some(0x22120002));
    vm.form_four_handler(SUB, decoder.get_instr());
    assert_eq!(vm.register(R1 as usize), 0x1);
}

#[test]
fn mod_test_form_four_ldr() {
    let mut vm = Processor::new();
    vm.set_register(R2 as usize, 0x1);
    vm.write_to_mm(0x2, 0x1234);
    let decoder = EncoderDecoder::new(Some(0x31120001));
    vm.form_four_handler(LDR, decoder.get_instr());
    assert_eq!(vm.register(R1 as usize), 0x1234);
}

#[test]
fn mod_test_form_four_str() {
    let mut vm = Processor::new();
    vm.set_register(R1 as usize, 0x1234);
    vm.set_register(R2 as usize, 0x1);
    let decoder = EncoderDecoder::new(Some(0x35120001));
    vm.form_four_handler(STR, decoder.get_instr());
    assert_eq!(vm.read_at(0x2), 0x1234);
}

#[test]
fn mod_test_form_five_mov() {
    let mut vm = Processor::new();
    let decoder = EncoderDecoder::new(Some(0x23112345));
    vm.form_five_handler(MOV, decoder.get_instr());
    assert_eq!(vm.register(R1 as usize), 0x12345);
}

#[test]
fn mod_test_form_five_mvn() {
    let mut vm = Processor::new();
    let decoder = EncoderDecoder::new(Some(0x27100000));
    vm.form_five_handler(MVN, decoder.get_instr());
    assert_eq!(vm.register(R1 as usize), 0xFFFFFFFF);
}

#[test]
fn mod_test_form_five_ldr() {
    let mut vm = Processor::new();
    vm.set_pc(0x2);
    vm.write_to_mm(0x3, 0x1234);
    let decoder = EncoderDecoder::new(Some(0x33100001));
    vm.form_five_handler(LDR, decoder.get_instr());
    assert_eq!(vm.register(R1 as usize), 0x1234);
}

#[test]
fn mod_test_form_five_str() {
    let mut vm = Processor::new();
    vm.set_pc(0x2);
    vm.set_register(R1 as usize, 0x1234);
    let decoder = EncoderDecoder::new(Some(0x37100001));
    vm.form_five_handler(STR, decoder.get_instr());
    assert_eq!(vm.read_at(0x3), 0x1234);
}
