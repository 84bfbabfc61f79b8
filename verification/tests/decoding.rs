use riscv_rust::CpuError;
use riscv_rust::instruction::{
    BInstruction, IInstruction, Instruction, JInstruction, RInstruction, SInstruction,
    UInstruction,
};

#[test]
fn wrong_length_is_format_error() {
    assert_eq!(Instruction::decode(""), Err(CpuError::InvalidFormat));
    assert_eq!(Instruction::decode("0101"), Err(CpuError::InvalidFormat));
    assert_eq!(
        Instruction::decode("000000000000000000000000000000000"),
        Err(CpuError::InvalidFormat)
    );
    assert_eq!(
        Instruction::decode("0000000000000000000000000000011"),
        Err(CpuError::InvalidFormat)
    );
}

#[test]
fn register_format_fields() {
    // xor x18, x8, x9: funct7, rs2, rs1, funct3, rd, opcode
    assert_eq!(
        Instruction::decode("00000000100101000100100100110011"),
        Ok(Instruction::Register { i: RInstruction::Xor, rd: 18, rs1: 8, rs2: 9 })
    );
    // sub x1, x2, x3 carries the alternate funct7
    assert_eq!(
        Instruction::decode("01000000001100010000000010110011"),
        Ok(Instruction::Register { i: RInstruction::Sub, rd: 1, rs1: 2, rs2: 3 })
    );
}

#[test]
fn immediate_format_fields() {
    assert_eq!(
        Instruction::decode("00000000011100000000010000010011"),
        Ok(Instruction::Immediate { i: IInstruction::Addi, rd: 8, rs1: 0, imm: 7 })
    );
    assert_eq!(
        Instruction::decode("00000010000000000001111010000011"),
        Ok(Instruction::Immediate { i: IInstruction::Lh, rd: 29, rs1: 0, imm: 32 })
    );
}

#[test]
fn store_format_fields() {
    assert_eq!(
        Instruction::decode("00000010010100000010000000100011"),
        Ok(Instruction::Store { i: SInstruction::Sw, rs1: 0, rs2: 5, imm: 32 })
    );
}

#[test]
fn branch_format_fields() {
    assert_eq!(
        Instruction::decode("00000000100101000000010001100011"),
        Ok(Instruction::Branch { i: BInstruction::Beq, rs1: 8, rs2: 9, imm: 8 })
    );
}

#[test]
fn jump_format_fields() {
    assert_eq!(
        Instruction::decode("00000000100000000000010001101111"),
        Ok(Instruction::Jump { i: JInstruction::Jal, rd: 8, imm: 8 })
    );
}

#[test]
fn upper_format_fields() {
    assert_eq!(
        Instruction::decode("00000000000000000001000010110111"),
        Ok(Instruction::UpperImmediate { i: UInstruction::Lui, rd: 1, imm: 1 })
    );
    assert_eq!(
        Instruction::decode("00000000000000000010000100010111"),
        Ok(Instruction::UpperImmediate { i: UInstruction::Auipc, rd: 2, imm: 2 })
    );
}

#[test]
fn unknown_opcode_is_rejected() {
    assert_eq!(
        Instruction::decode("00000000000000000000000001111111"),
        Err(CpuError::InvalidOpcode)
    );
}

#[test]
fn unknown_funct_is_rejected() {
    // funct3 100 exists only with the zero funct7, not the alternate one
    assert_eq!(
        Instruction::decode("01000000000000000100000000110011"),
        Err(CpuError::InvalidFunct)
    );
    // funct7 matching no recognized pattern
    assert_eq!(
        Instruction::decode("11000000000000000000000000110011"),
        Err(CpuError::InvalidFunct)
    );
    // a non-binary character in funct3 never selects an operation
    assert_eq!(
        Instruction::decode("00000000000000000002000000110011"),
        Err(CpuError::InvalidFunct)
    );
    // funct3 011 is not a load operation
    assert_eq!(
        Instruction::decode("00000000000000000011000010000011"),
        Err(CpuError::InvalidFunct)
    );
}

#[test]
fn bad_subfield_digits_are_rejected() {
    assert_eq!(
        Instruction::decode("00000000000000000000x00000110011"),
        Err(CpuError::InvalidRd)
    );
    assert_eq!(
        Instruction::decode("000000000000x0000000000000110011"),
        Err(CpuError::InvalidRs1)
    );
    assert_eq!(
        Instruction::decode("00000000x00000000000000000110011"),
        Err(CpuError::InvalidRs2)
    );
    assert_eq!(
        Instruction::decode("0000000000w000000000000000010011"),
        Err(CpuError::InvalidImm)
    );
}

#[test]
fn error_messages() {
    assert_eq!(CpuError::InvalidOpcode.message(), "invalid opcode");
    assert_eq!(CpuError::InvalidFormat.message(), "invalid format");
    assert_eq!(CpuError::PCOutOfBounds.message(), "program counter out of bounds");
}
