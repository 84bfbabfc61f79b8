use riscv_rust::{Cpu, CpuError};

/// Runs the program until a step fails, checking that the failure is the
/// benign end-of-program outcome.
fn simulate(program: Vec<&str>) -> Cpu {
    let instructions: Vec<String> = program.iter().map(|s| s.to_string()).collect();
    let mut cpu = Cpu::new(instructions);
    loop {
        if let Err(cpu_error) = cpu.execute() {
            if cpu_error != CpuError::PCOutOfBounds {
                println!("runtime error: {}", cpu_error.message());
            }
            break;
        }
    }
    cpu
}

#[test]
fn arith() {
    let cpu = simulate(vec![
        "00000000011100000000010000010011", // addi x8, x0, 7
        "00000000100000000000010010010011", // addi x9, x0, 8
        "00000000100101000100100100110011", // xor x18, x8, x9
        "00000000100101000010100110110011", // slt x19, x8, x9
        "00000000100001001010101000110011", // slt x20, x9, x8
        "00000000100101000110101010110011", // or x21, x8, x9
        "00000000100101000111101100110011", // and x22, x8, x9
    ]);
    let regs = cpu.registers();
    assert_eq!(regs[8], 7);
    assert_eq!(regs[9], 8);
    assert_eq!(regs[18], 15);
    assert_eq!(regs[19], 1);
    assert_eq!(regs[20], 0);
    assert_eq!(regs[21], 15);
    assert_eq!(regs[22], 0);
}

#[test]
fn memory() {
    let cpu = simulate(vec![
        "01111111111100000000001010010011", // addi x5, x0, 2047
        "00000000010100000010000000100011", // sw x5, 0(x0)
        "00000000000000000010001100000011", // lw x6, 0(x0)
        "00011111111100000000111000010011", // addi x28, x0, 511
        "00000010010100000010000000100011", // sw x5, 32(x0)
        "00000011110000000001000000100011", // sh x28, 32(x0)
        "00000010000000000001111010000011", // lh x29, 32(x0)
    ]);
    let regs = cpu.registers();
    assert_eq!(regs[5], 2047);
    assert_eq!(regs[6], 2047);
    assert_eq!(regs[29], 511);
    let mem = cpu.memory();
    assert_eq!(mem[0], 2047);
    assert_eq!(mem[32], 511);
}

#[test]
fn beq() {
    let cpu = simulate(vec![
        "00000000100000000000010000010011", // addi x8, x0, 8
        "00000000100000000000010010010011", // addi x9, x0, 8
        "00000000100101000000010001100011", // beq x8, x9, +8
        "00000110001100000000001010010011", // addi x5, x0, 99 (skipped)
        "00000001000000000000001010010011", // addi x5, x0, 16
    ]);
    let regs = cpu.registers();
    assert_eq!(regs[5], 16);
    assert_eq!(regs[8], 8);
    assert_eq!(regs[9], 8);
}

#[test]
fn goto() {
    let cpu = simulate(vec![
        "00000000100000000000010001101111", // jal x8, +8
        "00000110001100000000100100010011", // addi x18, x0, 99 (skipped)
        "00000000100000000000100100010011", // addi x18, x0, 8
        "00000001000000000000010010010011", // addi x9, x0, 16
    ]);
    let regs = cpu.registers();
    assert_eq!(regs[8], 4);
    assert_eq!(regs[9], 16);
    assert_eq!(regs[18], 8);
}

#[test]
fn bne1() {
    let cpu = simulate(vec![
        "00000000100100000000010000010011", // addi x8, x0, 9
        "00000000100000000000010010010011", // addi x9, x0, 8
        "00000000100101000001010001100011", // bne x8, x9, +8 (taken)
        "00000110001100000000001010010011", // addi x5, x0, 99 (skipped)
        "00000000000100000000001010010011", // addi x5, x0, 1
    ]);
    let regs = cpu.registers();
    assert_eq!(regs[5], 1);
    assert_eq!(regs[8], 9);
    assert_eq!(regs[9], 8);
}

#[test]
fn bne2() {
    let cpu = simulate(vec![
        "00000000100000000000010000010011", // addi x8, x0, 8
        "00000000100000000000010010010011", // addi x9, x0, 8
        "00000000100101000001010001100011", // bne x8, x9, +8 (not taken)
        "00000001000000000000001100010011", // addi x6, x0, 16
    ]);
    let regs = cpu.registers();
    assert_eq!(regs[6], 16);
    assert_eq!(regs[8], 8);
    assert_eq!(regs[9], 8);
}
