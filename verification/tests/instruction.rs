use kural::instruction::{Instruction, Opcode};

#[test]
fn test_create_hld() {
    let opcode = Opcode::HLT;
    assert_eq!(opcode, Opcode::HLT);
}

#[test]
fn test_create_instruction() {
    let instruction = Instruction::new(Opcode::HLT);
    assert_eq!(instruction.opcode, Opcode::HLT);
}

#[test]
fn every_opcode_byte_decodes_and_encodes_back() {
    let table = [
        (0u8, Opcode::HLT),
        (1, Opcode::LOAD),
        (2, Opcode::ADD),
        (3, Opcode::SUB),
        (4, Opcode::MUL),
        (5, Opcode::DIV),
        (6, Opcode::JMP),
        (7, Opcode::JMPF),
        (8, Opcode::JMPB),
        (9, Opcode::EQ),
        (10, Opcode::NEQ),
        (11, Opcode::JEQ),
        (12, Opcode::GEQ),
        (13, Opcode::LEQ),
        (14, Opcode::GT),
        (15, Opcode::LT),
        (16, Opcode::JNEQ),
    ];
    for (byte, opcode) in table {
        assert_eq!(Opcode::from_byte(byte), opcode);
        assert_eq!(Opcode::from(byte), opcode);
        assert_eq!(opcode.to_byte(), Some(byte));
        assert_eq!(Opcode::from_byte(opcode.to_byte().unwrap()), opcode);
    }
}

#[test]
fn bytes_without_a_meaning_decode_to_igl() {
    for byte in 17u8..=255 {
        assert_eq!(Opcode::from_byte(byte), Opcode::IGL);
    }
    assert_eq!(Opcode::from(200u8), Opcode::IGL);
}

#[test]
fn igl_has_no_byte() {
    assert_eq!(Opcode::IGL.to_byte(), None);
}
