use riscv_rust::{Cpu, CpuError};
use riscv_rust::encode::{encode_b, encode_i, encode_j, encode_r, encode_s, encode_u};
use riscv_rust::instruction::{
    BInstruction, IInstruction, Instruction, JInstruction, RInstruction, SInstruction,
    UInstruction,
};

fn run(program: Vec<String>) -> Cpu {
    let mut cpu = Cpu::new(program);
    loop {
        if let Err(e) = cpu.execute() {
            assert_eq!(e, CpuError::PCOutOfBounds);
            break;
        }
    }
    cpu
}

#[test]
fn round_trip_register() {
    let text = encode_r(RInstruction::Xor, 18, 8, 9);
    assert_eq!(text, "00000000100101000100100100110011");
    assert_eq!(
        Instruction::decode(&text),
        Ok(Instruction::Register { i: RInstruction::Xor, rd: 18, rs1: 8, rs2: 9 })
    );
    let text = encode_r(RInstruction::Sra, 1, 2, 3);
    assert_eq!(
        Instruction::decode(&text),
        Ok(Instruction::Register { i: RInstruction::Sra, rd: 1, rs1: 2, rs2: 3 })
    );
}

#[test]
fn round_trip_immediate() {
    let text = encode_i(IInstruction::Addi, 8, 0, 7);
    assert_eq!(text, "00000000011100000000010000010011");
    assert_eq!(
        Instruction::decode(&text),
        Ok(Instruction::Immediate { i: IInstruction::Addi, rd: 8, rs1: 0, imm: 7 })
    );
    let text = encode_i(IInstruction::Lbu, 3, 1, 100);
    assert_eq!(
        Instruction::decode(&text),
        Ok(Instruction::Immediate { i: IInstruction::Lbu, rd: 3, rs1: 1, imm: 100 })
    );
    // the arithmetic-shift immediate carries its funct7 marker in the high bits
    let text = encode_i(IInstruction::Srai, 4, 3, 1024 + 2);
    assert_eq!(
        Instruction::decode(&text),
        Ok(Instruction::Immediate { i: IInstruction::Srai, rd: 4, rs1: 3, imm: 1026 })
    );
}

#[test]
fn round_trip_store_branch_jump_upper() {
    let text = encode_s(SInstruction::Sh, 2, 28, 33);
    assert_eq!(
        Instruction::decode(&text),
        Ok(Instruction::Store { i: SInstruction::Sh, rs1: 2, rs2: 28, imm: 33 })
    );
    let text = encode_b(BInstruction::Beq, 8, 9, 8);
    assert_eq!(text, "00000000100101000000010001100011");
    assert_eq!(
        Instruction::decode(&text),
        Ok(Instruction::Branch { i: BInstruction::Beq, rs1: 8, rs2: 9, imm: 8 })
    );
    let text = encode_b(BInstruction::Bgeu, 1, 2, 4094);
    assert_eq!(
        Instruction::decode(&text),
        Ok(Instruction::Branch { i: BInstruction::Bgeu, rs1: 1, rs2: 2, imm: 4094 })
    );
    let text = encode_j(8, 8);
    assert_eq!(text, "00000000100000000000010001101111");
    assert_eq!(
        Instruction::decode(&text),
        Ok(Instruction::Jump { i: JInstruction::Jal, rd: 8, imm: 8 })
    );
    let text = encode_u(UInstruction::Lui, 1, 1);
    assert_eq!(
        Instruction::decode(&text),
        Ok(Instruction::UpperImmediate { i: UInstruction::Lui, rd: 1, imm: 1 })
    );
}

#[test]
fn snapshots_are_idempotent() {
    let cpu = run(vec![encode_i(IInstruction::Addi, 1, 0, 5)]);
    assert_eq!(cpu.registers(), cpu.registers());
    assert_eq!(cpu.memory(), cpu.memory());
    assert_eq!(cpu.registers()[1], 5);
}

#[test]
fn exhausted_counter_leaves_state_unchanged() {
    let mut cpu = Cpu::new(vec![encode_i(IInstruction::Addi, 1, 0, 5)]);
    assert_eq!(cpu.execute(), Ok(()));
    let regs = cpu.registers();
    let mem = cpu.memory();
    assert_eq!(cpu.execute(), Err(CpuError::PCOutOfBounds));
    assert_eq!(cpu.registers(), regs);
    assert_eq!(cpu.memory(), mem);
    assert_eq!(cpu.execute(), Err(CpuError::PCOutOfBounds));
}

#[test]
fn shifts_and_unsigned_compares() {
    let cpu = run(vec![
        encode_i(IInstruction::Addi, 1, 0, 1024),
        encode_r(RInstruction::Sub, 3, 0, 1),   // r3 = -1024
        encode_i(IInstruction::Srai, 4, 3, 1024 + 2), // r4 = -1024 >> 2 (arithmetic)
        encode_r(RInstruction::Sltu, 5, 3, 1),  // unsigned: huge < 1024 is false
        encode_r(RInstruction::Sltu, 6, 1, 3),  // unsigned: 1024 < huge is true
        encode_i(IInstruction::Slli, 2, 1, 1),  // r2 = 2048
        encode_i(IInstruction::Addi, 9, 0, 3),
        encode_r(RInstruction::Srl, 10, 3, 9),  // logical shift of -1024 by 3
    ]);
    let regs = cpu.registers();
    assert_eq!(regs[1], 1024);
    assert_eq!(regs[3], -1024);
    assert_eq!(regs[4], -256);
    assert_eq!(regs[5], 0);
    assert_eq!(regs[6], 1);
    assert_eq!(regs[2], 2048);
    assert_eq!(regs[10], 536870784);
}

#[test]
fn upper_immediates_and_indirect_jump() {
    let cpu = run(vec![
        encode_u(UInstruction::Lui, 1, 1),   // r1 = 4096
        encode_u(UInstruction::Auipc, 2, 2), // r2 = 4 + 8192
        encode_i(IInstruction::Addi, 3, 0, 16),
        encode_i(IInstruction::Jalr, 4, 0, 3), // link r4 = 16; counter from register 3
    ]);
    let regs = cpu.registers();
    assert_eq!(regs[1], 4096);
    assert_eq!(regs[2], 8196);
    assert_eq!(regs[3], 16);
    assert_eq!(regs[4], 16);
}

#[test]
fn byte_and_half_memory_semantics() {
    let cpu = run(vec![
        encode_i(IInstruction::Addi, 1, 0, 255),
        encode_s(SInstruction::Sb, 0, 1, 0), // mem[0] = 255
        encode_i(IInstruction::Lb, 2, 0, 0), // sign-extends to -1
        encode_i(IInstruction::Lbu, 3, 0, 0), // zero-extends to 255
        encode_i(IInstruction::Lh, 4, 0, 0), // 255 fits a halfword
        encode_u(UInstruction::Lui, 5, 1),   // r5 = 4096
        encode_s(SInstruction::Sw, 0, 5, 1), // mem[1] = 4096
        encode_s(SInstruction::Sb, 0, 1, 1), // replaces only the low byte
        encode_i(IInstruction::Lw, 6, 0, 1),
    ]);
    let regs = cpu.registers();
    assert_eq!(regs[2], -1);
    assert_eq!(regs[3], 255);
    assert_eq!(regs[4], 255);
    assert_eq!(regs[6], 4096 + 255);
    let mem = cpu.memory();
    assert_eq!(mem[0], 255);
    assert_eq!(mem[1], 4096 + 255);
}

#[test]
fn fresh_engine_is_zeroed() {
    let cpu = Cpu::new(Vec::new());
    let regs = cpu.registers();
    let mem = cpu.memory();
    assert_eq!(regs.len(), 32);
    assert_eq!(mem.len(), 2048);
    assert!(regs.iter().all(|w| *w == 0));
    assert!(mem.iter().all(|w| *w == 0));
    let mut cpu = cpu;
    assert_eq!(cpu.execute(), Err(CpuError::PCOutOfBounds));
}

#[test]
fn decode_failure_leaves_state_unchanged() {
    let mut cpu = Cpu::new(vec![
        encode_i(IInstruction::Addi, 1, 0, 5).to_string(),
        "not an instruction".to_string(),
    ]);
    assert_eq!(cpu.execute(), Ok(()));
    let regs = cpu.registers();
    let mem = cpu.memory();
    assert_eq!(cpu.execute(), Err(CpuError::InvalidFormat));
    assert_eq!(cpu.registers(), regs);
    assert_eq!(cpu.memory(), mem);
    assert_eq!(cpu.execute(), Err(CpuError::InvalidFormat));
}

#[test]
fn fault_detection_before_stepping() {
    // a load far outside memory would be an unrecoverable fault
    let cpu = Cpu::new(vec![encode_i(IInstruction::Lw, 1, 0, 3000)]);
    assert!(cpu.next_step_faults());
    // an in-range store is not
    let cpu = Cpu::new(vec![encode_s(SInstruction::Sw, 0, 1, 2047)]);
    assert!(!cpu.next_step_faults());
    // an exhausted or undecodable program never faults, it errors
    let cpu = Cpu::new(Vec::new());
    assert!(!cpu.next_step_faults());
    let cpu = Cpu::new(vec!["short".to_string()]);
    assert!(!cpu.next_step_faults());
}
