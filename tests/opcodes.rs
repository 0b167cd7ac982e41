use halide::instr::{to_le_bytes, Instr};

#[test]
fn lib_byte_splitting() {
    let value = 0b00000010_00000011;
    assert_eq!(to_le_bytes(value), (0b00000010u8, 0b00000011u8));
    let value = 2;
    assert_eq!(to_le_bytes(value), (0u8, 2))
}

#[test]
fn opcode_byte_splitting() {
    let value = 0b00000010_00000011;
    assert_eq!(to_le_bytes(value), (0b00000010u8, 0b00000011u8));
    let value = 2;
    assert_eq!(to_le_bytes(value), (0u8, 2));
}

#[test]
fn byte_splitting_two_bytes() {
    let value = 16;
    assert_eq!(to_le_bytes(value), (0u8, 16));
}

#[test]
fn opcode_instructions_to_bytes() {
    assert_eq!(Instr::Halt.to_bytes()[0], 0);
    assert_eq!(Instr::Not.to_bytes()[0], 11);
    assert_eq!(Instr::Illegal.to_bytes()[0], 255);

    assert_eq!(Instr::Jump(0).to_bytes(), vec![7, 0]);
    assert_eq!(Instr::JumpForward(0).to_bytes(), vec![8, 0]);
    assert_eq!(Instr::JumpBack(0).to_bytes(), vec![9, 0]);

    assert_eq!(Instr::Load(0, 2).to_bytes(), vec![1, 0, 0, 2]);
    assert_eq!(Instr::Load(1, 19).to_bytes(), vec![1, 1, 0, 19]);

    assert_eq!(Instr::Equal(0, 2).to_bytes(), vec![10, 0, 2]);
    assert_eq!(Instr::GreaterThan(0, 2).to_bytes(), vec![12, 0, 2]);
    assert_eq!(Instr::GreaterThanEqual(0, 2).to_bytes(), vec![13, 0, 2]);

    assert_eq!(Instr::Add(0, 1, 2).to_bytes(), vec![2, 0, 1, 2]);
    assert_eq!(Instr::Subtract(0, 1, 2).to_bytes(), vec![3, 0, 1, 2]);
    assert_eq!(Instr::Multiply(0, 1, 2).to_bytes(), vec![4, 0, 1, 2]);
    assert_eq!(Instr::Divide(0, 1, 2).to_bytes(), vec![5, 0, 1, 2]);
    assert_eq!(Instr::Power(0, 3, 2).to_bytes(), vec![6, 0, 3, 2]);
}
