//! A little 32-bit RISC machine: a decoder for a fixed-width binary text
//! encoding of instructions, and an execution engine that steps a register
//! file, a word-addressed memory and a program counter through a program of
//! 32-character instruction strings.
use vstd::prelude::*;
use vstd::utf8::encode_utf8;
use vstd::wrapping::{i32_specs, u32_specs};

pub mod encode;
pub mod instruction;

use crate::instruction::{
    BInstruction, IInstruction, Instruction, JInstruction, RInstruction, SInstruction,
    UInstruction, inst_wf, lemma_decode_bounds, spec_decode,
};

verus! {

/// Everything that can go wrong during one execution step: the decode-time
/// errors (a malformed string, an unknown opcode or funct combination, a bad
/// digit in a numeric subfield) and the run-time error of stepping past the
/// end of the program.
#[derive(Debug, Clone, Copy, PartialEq, Eq, Structural)]
pub enum CpuError {
    InvalidOpcode,
    InvalidFunct,
    InvalidRd,
    InvalidRs1,
    InvalidRs2,
    InvalidImm,
    InvalidFormat,
    PCOutOfBounds,
}

impl CpuError {
    /// A human-readable description of the error.
    pub fn message(&self) -> (r: String)
        ensures
            r@ == match self {
                CpuError::InvalidOpcode => "invalid opcode"@,
                CpuError::InvalidFunct => "invalid function"@,
                CpuError::InvalidRd => "invalid destination register"@,
                CpuError::InvalidRs1 => "invalid supply register 1"@,
                CpuError::InvalidRs2 => "invalid supply register 2"@,
                CpuError::InvalidImm => "invalid immediate"@,
                CpuError::InvalidFormat => "invalid format"@,
                CpuError::PCOutOfBounds => "program counter out of bounds"@,
            },
    {
        match self {
            CpuError::InvalidOpcode => "invalid opcode".to_owned(),
            CpuError::InvalidFunct => "invalid function".to_owned(),
            CpuError::InvalidRd => "invalid destination register".to_owned(),
            CpuError::InvalidRs1 => "invalid supply register 1".to_owned(),
            CpuError::InvalidRs2 => "invalid supply register 2".to_owned(),
            CpuError::InvalidImm => "invalid immediate".to_owned(),
            CpuError::InvalidFormat => "invalid format".to_owned(),
            CpuError::PCOutOfBounds => "program counter out of bounds".to_owned(),
        }
    }
}

/// The unsigned reinterpretation of a 32-bit word.
pub open spec fn to_u32(x: i32) -> u32 {
    if x >= 0 {
        x as u32
    } else {
        (x + 0x1_0000_0000) as u32
    }
}

/// The signed reinterpretation of a 32-bit word.
pub open spec fn to_i32(x: u32) -> i32 {
    if x <= 0x7FFF_FFFF {
        x as i32
    } else {
        (x - 0x1_0000_0000) as i32
    }
}

/// The shift amount a word selects: its low five bits.
pub open spec fn shamt(b: i32) -> u32 {
    to_u32(b) % 32
}

/// Sign-extension of the low 8 bits of a word.
pub open spec fn sext8(x: u32) -> i32 {
    if x % 256 < 128 {
        (x % 256) as i32
    } else {
        (x % 256 - 256) as i32
    }
}

/// Sign-extension of the low 16 bits of a word.
pub open spec fn sext16(x: u32) -> i32 {
    if x % 0x1_0000 < 0x8000 {
        (x % 0x1_0000) as i32
    } else {
        (x % 0x1_0000 - 0x1_0000) as i32
    }
}

/// What a register-register operation computes from its two source values.
pub open spec fn alu_r(i: RInstruction, a: i32, b: i32) -> i32 {
    match i {
        RInstruction::Add => i32_specs::wrapping_add(a, b),
        RInstruction::Sub => i32_specs::wrapping_sub(a, b),
        RInstruction::Xor => a ^ b,
        RInstruction::Or => a | b,
        RInstruction::And => a & b,
        RInstruction::Sll => to_i32(to_u32(a) << shamt(b)),
        RInstruction::Srl => to_i32(to_u32(a) >> shamt(b)),
        RInstruction::Sra => to_i32(u32_specs::wrapping_shr(to_u32(a), shamt(b)) | sra_fill(
            a,
            shamt(b),
        )),
        RInstruction::Slt => if a < b {
            1
        } else {
            0
        },
        RInstruction::Sltu => if to_u32(a) < to_u32(b) {
            1
        } else {
            0
        },
    }
}

/// The high bits an arithmetic right shift fills in: all ones above position
/// `32 - n` when the word is negative, none otherwise.
pub open spec fn sra_fill(a: i32, n: u32) -> u32 {
    if a >= 0 || n == 0 {
        0
    } else {
        (0xFFFF_FFFFu32 << ((32 - n) as u32)) as u32
    }
}

/// What an immediate-arithmetic operation computes; the loads and the
/// register-indirect jump are handled by the engine itself.
pub open spec fn alu_i(i: IInstruction, a: i32, imm: i32) -> i32 {
    match i {
        IInstruction::Addi => i32_specs::wrapping_add(a, imm),
        IInstruction::Xori => a ^ imm,
        IInstruction::Ori => a | imm,
        IInstruction::Andi => a & imm,
        IInstruction::Slli => to_i32(to_u32(a) << shamt(imm)),
        IInstruction::Srli => to_i32(to_u32(a) >> shamt(imm)),
        IInstruction::Srai => to_i32(
            u32_specs::wrapping_shr(to_u32(a), shamt(imm)) | sra_fill(a, shamt(imm)),
        ),
        IInstruction::Slti => if a < imm {
            1
        } else {
            0
        },
        IInstruction::Sltiu => if to_u32(a) < to_u32(imm) {
            1
        } else {
            0
        },
        _ => a,
    }
}

/// The word a load places in its destination, from the word read at the
/// effective address.
pub open spec fn load_val(i: IInstruction, m: i32) -> i32 {
    match i {
        IInstruction::Lb => sext8(to_u32(m)),
        IInstruction::Lh => sext16(to_u32(m)),
        IInstruction::Lbu => (to_u32(m) % 256) as i32,
        IInstruction::Lhu => (to_u32(m) % 0x1_0000) as i32,
        _ => m,
    }
}

/// The word a store leaves in memory: `Sb`/`Sh` replace only the low 8/16
/// bits of the prior contents, `Sw` the whole word.
pub open spec fn store_val(i: SInstruction, prior: i32, src: i32) -> i32 {
    match i {
        SInstruction::Sb => to_i32((((to_u32(prior) / 256) * 256 + to_u32(src) % 256) as u32),
        ),
        SInstruction::Sh => to_i32(
            (((to_u32(prior) / 0x1_0000) * 0x1_0000 + to_u32(src) % 0x1_0000) as u32),
        ),
        SInstruction::Sw => src,
    }
}

/// Whether a branch predicate holds of the two source values.
pub open spec fn branch_taken(i: BInstruction, a: i32, b: i32) -> bool {
    match i {
        BInstruction::Beq => a == b,
        BInstruction::Bne => a != b,
        BInstruction::Blt => a < b,
        BInstruction::Bge => a >= b,
        BInstruction::Bltu => to_u32(a) < to_u32(b),
        BInstruction::Bgeu => to_u32(a) >= to_u32(b),
    }
}

/// The program counter moved by a (possibly negative) byte offset, wrapping
/// at the machine word size.
pub open spec fn pc_plus(pc: usize, d: int) -> usize {
    if pc + d > usize::MAX {
        (pc + d - usize::MAX - 1) as usize
    } else if pc + d < 0 {
        (pc + d + usize::MAX + 1) as usize
    } else {
        (pc + d) as usize
    }
}

/// The low 32 bits of a program counter value.
pub open spec fn pc_low(pc: usize) -> u32 {
    (pc as int % 0x1_0000_0000) as u32
}

/// The link value a jump writes: the program counter plus 4, as a word.
pub open spec fn link_of(pc: usize) -> i32 {
    to_i32(pc_low(pc_plus(pc, 4)))
}

/// A word used as a new program counter, as the target of the
/// register-indirect jump.
pub open spec fn usize_of_i32(v: i32) -> usize {
    if v >= 0 {
        v as usize
    } else {
        (v + usize::MAX + 1) as usize
    }
}

/// The mathematical machine state: the register file, the word-addressed
/// memory, the program counter (a byte offset) and the program, each
/// instruction as the UTF-8 bytes of its text.
#[verifier::ext_equal]
pub ghost struct State {
    pub regs: Seq<i32>,
    pub mem: Seq<i32>,
    pub pc: usize,
    pub prog: Seq<Seq<u8>>,
}

/// The effective address of a load or store: source value plus immediate,
/// wrapping.
pub open spec fn eff_addr(s: State, rs1: u32, imm: i32) -> i32 {
    i32_specs::wrapping_add(s.regs[rs1 as int], imm)
}

/// What fetching at the current counter yields: the decoded instruction at
/// index `pc / 4`, or the counter-exhaustion error, or the decode error.
pub open spec fn spec_fetch(s: State) -> Result<Instruction, CpuError> {
    if s.pc / 4 >= s.prog.len() {
        Result::Err(CpuError::PCOutOfBounds)
    } else {
        spec_decode(s.prog[(s.pc / 4) as int])
    }
}

/// The unrecoverable faults of a step: a load or store whose effective
/// address leaves memory, or a register-indirect jump whose computed register
/// number leaves the register file.
pub open spec fn inst_faults(s: State, inst: Instruction) -> bool {
    match inst {
        Instruction::Immediate { i, rd, rs1, imm } => match i {
            IInstruction::Lb
            | IInstruction::Lh
            | IInstruction::Lw
            | IInstruction::Lbu
            | IInstruction::Lhu => !(0 <= eff_addr(s, rs1, imm) < s.mem.len()),
            IInstruction::Jalr => !(0 <= rs1 + imm < s.regs.len()),
            _ => false,
        },
        Instruction::Store { i, rs1, rs2, imm } => !(0 <= eff_addr(s, rs1, imm) < s.mem.len()),
        _ => false,
    }
}

/// Whether the next step would hit an unrecoverable fault.
pub open spec fn step_faults(s: State) -> bool {
    match spec_fetch(s) {
        Result::Ok(inst) => inst_faults(s, inst),
        Result::Err(_) => false,
    }
}

/// The state after one decoded instruction is applied, per-format.
pub open spec fn apply(s: State, inst: Instruction) -> State {
    match inst {
        Instruction::Register { i, rd, rs1, rs2 } => State {
            regs: s.regs.update(rd as int, alu_r(i, s.regs[rs1 as int], s.regs[rs2 as int])),
            pc: pc_plus(s.pc, 4),
            ..s
        },
        Instruction::Immediate { i, rd, rs1, imm } => match i {
            IInstruction::Lb
            | IInstruction::Lh
            | IInstruction::Lw
            | IInstruction::Lbu
            | IInstruction::Lhu => State {
                regs: s.regs.update(
                    rd as int,
                    load_val(i, s.mem[eff_addr(s, rs1, imm) as int]),
                ),
                pc: pc_plus(s.pc, 4),
                ..s
            },
            IInstruction::Jalr => {
                let linked = s.regs.update(rd as int, link_of(s.pc));
                State { regs: linked, pc: usize_of_i32(linked[rs1 + imm]), ..s }
            },
            _ => State {
                regs: s.regs.update(rd as int, alu_i(i, s.regs[rs1 as int], imm)),
                pc: pc_plus(s.pc, 4),
                ..s
            },
        },
        Instruction::Store { i, rs1, rs2, imm } => State {
            mem: s.mem.update(
                eff_addr(s, rs1, imm) as int,
                store_val(i, s.mem[eff_addr(s, rs1, imm) as int], s.regs[rs2 as int]),
            ),
            pc: pc_plus(s.pc, 4),
            ..s
        },
        Instruction::Branch { i, rs1, rs2, imm } => State {
            pc: if branch_taken(i, s.regs[rs1 as int], s.regs[rs2 as int]) {
                pc_plus(s.pc, imm as int)
            } else {
                pc_plus(s.pc, 4)
            },
            ..s
        },
        Instruction::UpperImmediate { i, rd, imm } => State {
            regs: s.regs.update(
                rd as int,
                match i {
                    UInstruction::Lui => i32_specs::wrapping_shl(imm, 12),
                    UInstruction::Auipc => i32_specs::wrapping_add(
                        to_i32(pc_low(s.pc)),
                        i32_specs::wrapping_shl(imm, 12),
                    ),
                },
            ),
            pc: pc_plus(s.pc, 4),
            ..s
        },
        Instruction::Jump { i, rd, imm } => State {
            regs: s.regs.update(rd as int, link_of(s.pc)),
            pc: pc_plus(s.pc, imm as int),
            ..s
        },
    }
}

/// One whole step: the outcome reported to the caller, and the state after.
/// A failed fetch or decode leaves the state exactly as it was.
pub open spec fn spec_step(s: State) -> (Result<(), CpuError>, State) {
    match spec_fetch(s) {
        Result::Err(e) => (Result::Err(e), s),
        Result::Ok(inst) => (Result::Ok(()), apply(s, inst)),
    }
}

/// Once the counter-derived index passes the last instruction, a step
/// reports counter exhaustion and leaves every register, every memory slot
/// and the counter itself exactly as they were.
pub proof fn lemma_exhausted_program_preserves_state(s: State)
    requires
        s.pc / 4 >= s.prog.len(),
    ensures
        spec_step(s) == (Result::<(), CpuError>::Err(CpuError::PCOutOfBounds), s),
        !step_faults(s),
{
}

fn u32_of(x: i32) -> (r: u32)
    ensures
        r == to_u32(x),
{
    if x >= 0 {
        x as u32
    } else {
        ((x as i64) + 0x1_0000_0000) as u32
    }
}

fn i32_of(x: u32) -> (r: i32)
    ensures
        r == to_i32(x),
{
    if x <= 0x7FFF_FFFF {
        x as i32
    } else {
        ((x as i64) - 0x1_0000_0000) as i32
    }
}

fn exec_alu_r(i: RInstruction, a: i32, b: i32) -> (r: i32)
    ensures
        r == alu_r(i, a, b),
{
    match i {
        RInstruction::Add => a.wrapping_add(b),
        RInstruction::Sub => a.wrapping_sub(b),
        RInstruction::Xor => a ^ b,
        RInstruction::Or => a | b,
        RInstruction::And => a & b,
        RInstruction::Sll => i32_of(u32_of(a) << (u32_of(b) % 32)),
        RInstruction::Srl => i32_of(u32_of(a) >> (u32_of(b) % 32)),
        RInstruction::Sra => exec_sra(a, u32_of(b) % 32),
        RInstruction::Slt => if a < b {
            1
        } else {
            0
        },
        RInstruction::Sltu => if u32_of(a) < u32_of(b) {
            1
        } else {
            0
        },
    }
}

fn exec_sra(a: i32, n: u32) -> (r: i32)
    requires
        n < 32,
    ensures
        r == to_i32(u32_specs::wrapping_shr(to_u32(a), n) | sra_fill(a, n)),
{
    let fill: u32 = if a >= 0 || n == 0 {
        0
    } else {
        0xFFFF_FFFFu32 << (32 - n)
    };
    i32_of((u32_of(a) >> n) | fill)
}

fn exec_alu_i(i: IInstruction, a: i32, imm: i32) -> (r: i32)
    ensures
        r == alu_i(i, a, imm),
{
    match i {
        IInstruction::Addi => a.wrapping_add(imm),
        IInstruction::Xori => a ^ imm,
        IInstruction::Ori => a | imm,
        IInstruction::Andi => a & imm,
        IInstruction::Slli => i32_of(u32_of(a) << (u32_of(imm) % 32)),
        IInstruction::Srli => i32_of(u32_of(a) >> (u32_of(imm) % 32)),
        IInstruction::Srai => exec_sra(a, u32_of(imm) % 32),
        IInstruction::Slti => if a < imm {
            1
        } else {
            0
        },
        IInstruction::Sltiu => if u32_of(a) < u32_of(imm) {
            1
        } else {
            0
        },
        _ => a,
    }
}

fn exec_load_val(i: IInstruction, m: i32) -> (r: i32)
    ensures
        r == load_val(i, m),
{
    let mu = u32_of(m);
    match i {
        IInstruction::Lb => {
            let low = mu % 256;
            if low < 128 {
                low as i32
            } else {
                (low as i32) - 256
            }
        },
        IInstruction::Lh => {
            let low = mu % 0x1_0000;
            if low < 0x8000 {
                low as i32
            } else {
                (low as i32) - 0x1_0000
            }
        },
        IInstruction::Lbu => (mu % 256) as i32,
        IInstruction::Lhu => (mu % 0x1_0000) as i32,
        _ => m,
    }
}

fn exec_store_val(i: SInstruction, prior: i32, src: i32) -> (r: i32)
    ensures
        r == store_val(i, prior, src),
{
    match i {
        SInstruction::Sb => i32_of((u32_of(prior) / 256) * 256 + u32_of(src) % 256),
        SInstruction::Sh => i32_of((u32_of(prior) / 0x1_0000) * 0x1_0000 + u32_of(src) % 0x1_0000),
        SInstruction::Sw => src,
    }
}

fn exec_branch_taken(i: BInstruction, a: i32, b: i32) -> (r: bool)
    ensures
        r == branch_taken(i, a, b),
{
    match i {
        BInstruction::Beq => a == b,
        BInstruction::Bne => a != b,
        BInstruction::Blt => a < b,
        BInstruction::Bge => a >= b,
        BInstruction::Bltu => u32_of(a) < u32_of(b),
        BInstruction::Bgeu => u32_of(a) >= u32_of(b),
    }
}

fn exec_pc_plus(pc: usize, d: i32) -> (r: usize)
    ensures
        r == pc_plus(pc, d as int),
{
    if d >= 0 {
        pc.wrapping_add(d as usize)
    } else {
        pc.wrapping_sub((-(d as i64)) as usize)
    }
}

fn exec_pc_low(pc: usize) -> (r: u32)
    ensures
        r == pc_low(pc),
{
    ((pc as u64) % 0x1_0000_0000) as u32
}

fn exec_link(pc: usize) -> (r: i32)
    ensures
        r == link_of(pc),
{
    i32_of(exec_pc_low(pc.wrapping_add(4)))
}

fn exec_usize_of_i32(v: i32) -> (r: usize)
    ensures
        r == usize_of_i32(v),
{
    if v >= 0 {
        v as usize
    } else {
        let k: usize = ((-(v as i64)) as usize);
        usize::MAX - (k - 1)
    }
}

/// The register number the register-indirect jump reads its target from.
fn rd_index(rs1: u32, imm: i32) -> (r: usize)
    requires
        0 <= rs1 + imm < 32,
    ensures
        r == rs1 + imm,
{
    ((rs1 as i64) + (imm as i64)) as usize
}

/// A fresh zeroed word array of the given length.
fn zero_words(n: usize) -> (v: Vec<i32>)
    ensures
        v@.len() == n,
        forall|i: int| 0 <= i < n ==> v@[i] == 0i32,
{
    let mut v: Vec<i32> = Vec::new();
    let mut k: usize = 0;
    while k < n
        invariant
            k <= n,
            v@.len() == k,
            forall|i: int| 0 <= i < k ==> v@[i] == 0i32,
        decreases n - k,
    {
        v.push(0);
        k = k + 1;
    }
    v
}

/// A copy of a word array.
fn copy_words(v: &Vec<i32>) -> (r: Vec<i32>)
    ensures
        r@ == v@,
{
    let mut r: Vec<i32> = Vec::new();
    let mut k: usize = 0;
    while k < v.len()
        invariant
            k <= v@.len(),
            r@ =~= v@.subrange(0, k as int),
        decreases v@.len() - k,
    {
        r.push(v[k]);
        k = k + 1;
    }
    proof {
        assert(r@ =~= v@);
    }
    r
}

/// The execution engine: a register file of 32 words, a memory of 2048
/// words, a program counter, and the program it runs.
#[derive(Debug)]
pub struct Cpu {
    registers: Vec<i32>,
    memory: Vec<i32>,
    pc: usize,
    instructions: Vec<String>,
}

impl View for Cpu {
    type V = State;

    closed spec fn view(&self) -> State {
        State {
            regs: self.registers@,
            mem: self.memory@,
            pc: self.pc,
            prog: Seq::new(self.instructions@.len(), |i: int| encode_utf8(self.instructions@[i]@)),
        }
    }
}

impl Cpu {
    /// The structural invariant: the register file and memory have their
    /// fixed sizes.
    pub open spec fn wf(&self) -> bool {
        self@.regs.len() == 32 && self@.mem.len() == 2048
    }

    /// A fresh engine over the given program: counter 0, all registers and
    /// memory zeroed.
    pub fn new(instructions: Vec<String>) -> (c: Cpu)
        ensures
            c.wf(),
            c@.pc == 0,
            c@.regs =~= Seq::new(32, |i: int| 0i32),
            c@.mem =~= Seq::new(2048, |i: int| 0i32),
            c@.prog.len() == instructions@.len(),
            forall|i: int|
                0 <= i < instructions@.len() ==> c@.prog[i] == encode_utf8(
                    #[trigger] instructions@[i]@,
                ),
    {
        Cpu { registers: zero_words(32), memory: zero_words(2048), pc: 0, instructions }
    }

    /// Whether the next step would hit an unrecoverable fault: a load or
    /// store whose effective address leaves memory, or a register-indirect
    /// jump whose computed register number leaves the register file. A
    /// caller running an arbitrary program can test this before `execute`,
    /// whose contract excludes exactly these states.
    pub fn next_step_faults(&self) -> (r: bool)
        requires
            self.wf(),
        ensures
            r == step_faults(self@),
    {
        let idx = self.pc / 4;
        if idx >= self.instructions.len() {
            return false;
        }
        let inst = match Instruction::decode(self.instructions[idx].as_str()) {
            Result::Ok(i) => i,
            Result::Err(_) => {
                return false;
            },
        };
        proof {
            assert(self@.prog[idx as int] == encode_utf8(self.instructions@[idx as int]@));
            lemma_decode_bounds(self@.prog[idx as int]);
            assert(spec_fetch(self@) == Result::<Instruction, CpuError>::Ok(inst));
        }
        match inst {
            Instruction::Immediate { i, rd: _, rs1, imm } => match i {
                IInstruction::Lb
                | IInstruction::Lh
                | IInstruction::Lw
                | IInstruction::Lbu
                | IInstruction::Lhu => {
                    let ea = self.registers[rs1 as usize].wrapping_add(imm);
                    !(0 <= ea && ea < 2048)
                },
                IInstruction::Jalr => {
                    let t = (rs1 as i64) + (imm as i64);
                    !(0 <= t && t < 32)
                },
                _ => false,
            },
            Instruction::Store { i: _, rs1, rs2: _, imm } => {
                let ea = self.registers[rs1 as usize].wrapping_add(imm);
                !(0 <= ea && ea < 2048)
            },
            _ => false,
        }
    }

    /// One execution step: fetch the instruction text at the counter-derived
    /// index, decode it, apply its effect and advance the counter (or
    /// redirect it, for control flow). A fetch past the end of the program or
    /// a decode error is reported without touching any state. The caller
    /// must rule out the unrecoverable faults of `step_faults`, which
    /// `next_step_faults` tests: an effective address outside memory, or a
    /// register-indirect jump outside the register file. For that jump the
    /// link value is written first; if the computed register number equals
    /// the destination itself, the new counter is read from the value just
    /// written.
    pub fn execute(&mut self) -> (r: Result<(), CpuError>)
        requires
            old(self).wf(),
            !step_faults(old(self)@),
        ensures
            final(self).wf(),
            r == spec_step(old(self)@).0,
            final(self)@ == spec_step(old(self)@).1,
    {
        let ghost pre = self@;
        let idx = self.pc / 4;
        if idx >= self.instructions.len() {
            return Result::Err(CpuError::PCOutOfBounds);
        }
        let inst = match Instruction::decode(self.instructions[idx].as_str()) {
            Result::Ok(i) => i,
            Result::Err(e) => {
                return Result::Err(e);
            },
        };
        proof {
            assert(pre.prog[idx as int] == encode_utf8(self.instructions@[idx as int]@));
            lemma_decode_bounds(pre.prog[idx as int]);
            assert(spec_fetch(pre) == Result::<Instruction, CpuError>::Ok(inst));
            assert(inst_wf(inst));
            assert(!inst_faults(pre, inst));
        }
        match inst {
            Instruction::Register { i, rd, rs1, rs2 } => {
                let a = self.registers[rs1 as usize];
                let b = self.registers[rs2 as usize];
                let val = exec_alu_r(i, a, b);
                self.registers[rd as usize] = val;
                self.pc = exec_pc_plus(self.pc, 4);
            },
            Instruction::Immediate { i, rd, rs1, imm } => {
                match i {
                    IInstruction::Lb
                    | IInstruction::Lh
                    | IInstruction::Lw
                    | IInstruction::Lbu
                    | IInstruction::Lhu => {
                        let a = self.registers[rs1 as usize];
                        let ea = a.wrapping_add(imm);
                        let m = self.memory[ea as usize];
                        let val = exec_load_val(i, m);
                        self.registers[rd as usize] = val;
                        self.pc = exec_pc_plus(self.pc, 4);
                    },
                    IInstruction::Jalr => {
                        let link = exec_link(self.pc);
                        self.registers[rd as usize] = link;
                        let t = rd_index(rs1, imm);
                        let target = self.registers[t];
                        self.pc = exec_usize_of_i32(target);
                    },
                    _ => {
                        let a = self.registers[rs1 as usize];
                        let val = exec_alu_i(i, a, imm);
                        self.registers[rd as usize] = val;
                        self.pc = exec_pc_plus(self.pc, 4);
                    },
                }
            },
            Instruction::Store { i, rs1, rs2, imm } => {
                let a = self.registers[rs1 as usize];
                let src = self.registers[rs2 as usize];
                let ea = a.wrapping_add(imm);
                let prior = self.memory[ea as usize];
                let val = exec_store_val(i, prior, src);
                self.memory[ea as usize] = val;
                self.pc = exec_pc_plus(self.pc, 4);
            },
            Instruction::Branch { i, rs1, rs2, imm } => {
                let a = self.registers[rs1 as usize];
                let b = self.registers[rs2 as usize];
                if exec_branch_taken(i, a, b) {
                    self.pc = exec_pc_plus(self.pc, imm);
                } else {
                    self.pc = exec_pc_plus(self.pc, 4);
                }
            },
            Instruction::UpperImmediate { i, rd, imm } => {
                let shifted = imm.wrapping_shl(12);
                let val = match i {
                    UInstruction::Lui => shifted,
                    UInstruction::Auipc => i32_of(exec_pc_low(self.pc)).wrapping_add(shifted),
                };
                self.registers[rd as usize] = val;
                self.pc = exec_pc_plus(self.pc, 4);
            },
            Instruction::Jump { i, rd, imm } => {
                let link = exec_link(self.pc);
                self.registers[rd as usize] = link;
                self.pc = exec_pc_plus(self.pc, imm);
            },
        }
        proof {
            assert(self@ =~= apply(pre, inst));
        }
        Result::Ok(())
    }

    /// A snapshot copy of the register file, independent of later steps.
    pub fn registers(&self) -> (r: Vec<i32>)
        ensures
            r@ == self@.regs,
    {
        copy_words(&self.registers)
    }

    /// A snapshot copy of memory, independent of later steps.
    pub fn memory(&self) -> (r: Vec<i32>)
        ensures
            r@ == self@.mem,
    {
        copy_words(&self.memory)
    }
}

impl Default for Cpu {
    /// An engine with an empty program.
    fn default() -> (c: Cpu)
        ensures
            c.wf(),
            c@.pc == 0,
            c@.regs =~= Seq::new(32, |i: int| 0i32),
            c@.mem =~= Seq::new(2048, |i: int| 0i32),
            c@.prog.len() == 0,
    {
        Cpu::new(Vec::new())
    }
}

} // verus!

