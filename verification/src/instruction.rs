//! Instruction formats and the decoder from 32-character binary strings to
//! typed instructions.
use vstd::prelude::*;
use vstd::arithmetic::power2::{pow2, lemma_pow2_strictly_increases, lemma2_to64};
use vstd::string::StringSliceAdditionalSpecFns;
use crate::CpuError;

verus! {

/// Operations of the register-register (R) format.
#[derive(Debug, Clone, Copy, PartialEq, Eq, Structural)]
pub enum RInstruction {
    Add,
    Sub,
    Xor,
    Or,
    And,
    Sll,
    Srl,
    Sra,
    Slt,
    Sltu,
}

/// Operations of the immediate (I) format: arithmetic and logic on an
/// immediate, the loads, and the register-indirect jump.
#[derive(Debug, Clone, Copy, PartialEq, Eq, Structural)]
pub enum IInstruction {
    Addi,
    Xori,
    Ori,
    Andi,
    Slli,
    Srli,
    Srai,
    Slti,
    Sltiu,
    Lb,
    Lh,
    Lw,
    Lbu,
    Lhu,
    Jalr,
}

/// Operations of the store (S) format.
#[derive(Debug, Clone, Copy, PartialEq, Eq, Structural)]
pub enum SInstruction {
    Sb,
    Sh,
    Sw,
}

/// Operations of the branch (B) format.
#[derive(Debug, Clone, Copy, PartialEq, Eq, Structural)]
pub enum BInstruction {
    Beq,
    Bne,
    Blt,
    Bge,
    Bltu,
    Bgeu,
}

/// Operations of the jump (J) format.
#[derive(Debug, Clone, Copy, PartialEq, Eq, Structural)]
pub enum JInstruction {
    Jal,
}

/// Operations of the upper-immediate (U) format.
#[derive(Debug, Clone, Copy, PartialEq, Eq, Structural)]
pub enum UInstruction {
    Lui,
    Auipc,
}

/// One decoded instruction: a closed union over the six formats, carrying the
/// operation tag and only the operand fields that format defines.
#[derive(Debug, Clone, Copy, PartialEq, Eq, Structural)]
pub enum Instruction {
    Register { i: RInstruction, rd: u32, rs1: u32, rs2: u32 },
    Immediate { i: IInstruction, rd: u32, rs1: u32, imm: i32 },
    Store { i: SInstruction, rs1: u32, rs2: u32, imm: i32 },
    Branch { i: BInstruction, rs1: u32, rs2: u32, imm: i32 },
    UpperImmediate { i: UInstruction, rd: u32, imm: i32 },
    Jump { i: JInstruction, rd: u32, imm: i32 },
}

/// The byte of the character '0' or '1'.
pub open spec fn is_bin(b: u8) -> bool {
    b == 48 || b == 49
}

/// Every byte of the string is a binary digit.
pub open spec fn all_bin(s: Seq<u8>) -> bool {
    forall|i: int| 0 <= i < s.len() ==> is_bin(#[trigger] s[i])
}

/// The numeric value of a binary digit string, most-significant digit first;
/// a byte other than '1' counts as 0.
pub open spec fn bin_val(s: Seq<u8>) -> nat
    decreases s.len(),
{
    if s.len() == 0 {
        0
    } else {
        2 * bin_val(s.drop_last()) + (if s.last() == 49 {
            1nat
        } else {
            0nat
        })
    }
}

pub proof fn lemma_bin_val_bound(s: Seq<u8>)
    ensures
        bin_val(s) < pow2(s.len()),
    decreases s.len(),
{
    if s.len() == 0 {
        assert(pow2(0) == 1) by {
            lemma2_to64();
        }
    } else {
        vstd::arithmetic::power2::lemma_pow2_unfold(s.len());
        lemma_bin_val_bound(s.drop_last());
    }
}

/// Parses the digits of `b` between `lo` (inclusive) and `hi` (exclusive) as a
/// binary number; `None` when some byte there is not a binary digit.
fn parse_bin_field(b: &[u8], lo: usize, hi: usize) -> (r: Option<u32>)
    requires
        lo <= hi <= b@.len(),
        hi - lo <= 31,
    ensures
        match r {
            Option::Some(v) => all_bin(b@.subrange(lo as int, hi as int)) && v == bin_val(
                b@.subrange(lo as int, hi as int),
            ),
            Option::None => !all_bin(b@.subrange(lo as int, hi as int)),
        },
{
    let mut acc: u32 = 0;
    let mut i: usize = lo;
    proof {
        assert(b@.subrange(lo as int, lo as int) =~= Seq::<u8>::empty());
    }
    while i < hi
        invariant
            lo <= i <= hi <= b@.len(),
            hi - lo <= 31,
            all_bin(b@.subrange(lo as int, i as int)),
            acc == bin_val(b@.subrange(lo as int, i as int)),
        decreases hi - i,
    {
        let d = b[i];
        if d != 48 && d != 49 {
            proof {
                assert(b@.subrange(lo as int, hi as int)[i - lo] == b@[i as int]);
            }
            return Option::None;
        }
        proof {
            lemma_bin_val_bound(b@.subrange(lo as int, i as int));
            if (i - lo) < 30 {
                lemma_pow2_strictly_increases((i - lo) as nat, 30);
            }
            lemma2_to64();
            assert(acc < 0x4000_0000u32);
            assert(b@.subrange(lo as int, i + 1).drop_last() =~= b@.subrange(
                lo as int,
                i as int,
            ));
            assert(b@.subrange(lo as int, i + 1).last() == b@[i as int]);
        }
        acc = acc * 2 + (if d == 49 {
            1
        } else {
            0
        });
        i = i + 1;
    }
    Option::Some(acc)
}

/// The value of the 7-bit opcode field (string positions 25 to 31), when all
/// its characters are binary digits.
pub open spec fn opcode_val(s: Seq<u8>) -> Option<nat> {
    if all_bin(s.subrange(25, 32)) {
        Option::Some(bin_val(s.subrange(25, 32)))
    } else {
        Option::None
    }
}

/// The value of the 3-bit funct3 field (string positions 17 to 19), when all
/// its characters are binary digits.
pub open spec fn f3_code(s: Seq<u8>) -> Option<u8> {
    if all_bin(s.subrange(17, 20)) {
        Option::Some(bin_val(s.subrange(17, 20)) as u8)
    } else {
        Option::None
    }
}

/// The funct7 field (string positions 0 to 6): 0 for "0000000", 1 for
/// "0100000", unrecognized otherwise.
pub open spec fn f7_code(s: Seq<u8>) -> Option<u8> {
    if all_bin(s.subrange(0, 7)) {
        if bin_val(s.subrange(0, 7)) == 0 {
            Option::Some(0)
        } else if bin_val(s.subrange(0, 7)) == 32 {
            Option::Some(1)
        } else {
            Option::None
        }
    } else {
        Option::None
    }
}

/// The register-register operation selected by the funct3 and funct7 fields.
pub open spec fn r_op(s: Seq<u8>) -> Option<RInstruction> {
    match (f3_code(s), f7_code(s)) {
        (Option::Some(0u8), Option::Some(0u8)) => Option::Some(RInstruction::Add),
        (Option::Some(0u8), Option::Some(1u8)) => Option::Some(RInstruction::Sub),
        (Option::Some(4u8), Option::Some(0u8)) => Option::Some(RInstruction::Xor),
        (Option::Some(6u8), Option::Some(0u8)) => Option::Some(RInstruction::Or),
        (Option::Some(7u8), Option::Some(0u8)) => Option::Some(RInstruction::And),
        (Option::Some(1u8), Option::Some(0u8)) => Option::Some(RInstruction::Sll),
        (Option::Some(5u8), Option::Some(0u8)) => Option::Some(RInstruction::Srl),
        (Option::Some(5u8), Option::Some(1u8)) => Option::Some(RInstruction::Sra),
        (Option::Some(2u8), Option::Some(0u8)) => Option::Some(RInstruction::Slt),
        (Option::Some(3u8), Option::Some(0u8)) => Option::Some(RInstruction::Sltu),
        _ => Option::None,
    }
}

/// The immediate-arithmetic operation selected by funct3 and, for the shifts,
/// funct7.
pub open spec fn i_arith_op(s: Seq<u8>) -> Option<IInstruction> {
    match f3_code(s) {
        Option::Some(0u8) => Option::Some(IInstruction::Addi),
        Option::Some(4u8) => Option::Some(IInstruction::Xori),
        Option::Some(6u8) => Option::Some(IInstruction::Ori),
        Option::Some(7u8) => Option::Some(IInstruction::Andi),
        Option::Some(1u8) => if f7_code(s) == Option::Some(0u8) {
            Option::Some(IInstruction::Slli)
        } else {
            Option::None
        },
        Option::Some(5u8) => match f7_code(s) {
            Option::Some(0u8) => Option::Some(IInstruction::Srli),
            Option::Some(1u8) => Option::Some(IInstruction::Srai),
            _ => Option::None,
        },
        Option::Some(2u8) => Option::Some(IInstruction::Slti),
        Option::Some(3u8) => Option::Some(IInstruction::Sltiu),
        _ => Option::None,
    }
}

/// The load operation selected by funct3.
pub open spec fn load_op(s: Seq<u8>) -> Option<IInstruction> {
    match f3_code(s) {
        Option::Some(0u8) => Option::Some(IInstruction::Lb),
        Option::Some(1u8) => Option::Some(IInstruction::Lh),
        Option::Some(2u8) => Option::Some(IInstruction::Lw),
        Option::Some(4u8) => Option::Some(IInstruction::Lbu),
        Option::Some(5u8) => Option::Some(IInstruction::Lhu),
        _ => Option::None,
    }
}

/// The store operation selected by funct3.
pub open spec fn s_op(s: Seq<u8>) -> Option<SInstruction> {
    match f3_code(s) {
        Option::Some(0u8) => Option::Some(SInstruction::Sb),
        Option::Some(1u8) => Option::Some(SInstruction::Sh),
        Option::Some(2u8) => Option::Some(SInstruction::Sw),
        _ => Option::None,
    }
}

/// The branch predicate selected by funct3.
pub open spec fn b_op(s: Seq<u8>) -> Option<BInstruction> {
    match f3_code(s) {
        Option::Some(0u8) => Option::Some(BInstruction::Beq),
        Option::Some(1u8) => Option::Some(BInstruction::Bne),
        Option::Some(4u8) => Option::Some(BInstruction::Blt),
        Option::Some(5u8) => Option::Some(BInstruction::Bge),
        Option::Some(6u8) => Option::Some(BInstruction::Bltu),
        Option::Some(7u8) => Option::Some(BInstruction::Bgeu),
        _ => Option::None,
    }
}

/// The digit string of the branch immediate: bit 31, bit 7, bits 30 to 25,
/// bits 11 to 8, and a literal final '0'.
pub open spec fn b_imm_bits(s: Seq<u8>) -> Seq<u8> {
    seq![s[0], s[24]] + s.subrange(1, 7) + s.subrange(20, 24) + seq![48u8]
}

/// The digit string of the jump immediate: bit 31, bits 19 to 12, bit 20,
/// bits 30 to 21, and a literal final '0'.
pub open spec fn j_imm_bits(s: Seq<u8>) -> Seq<u8> {
    seq![s[0]] + s.subrange(12, 20) + seq![s[11]] + s.subrange(1, 11) + seq![48u8]
}

/// The digit string of the store immediate: bits 31 to 25 then bits 11 to 7.
pub open spec fn s_imm_bits(s: Seq<u8>) -> Seq<u8> {
    s.subrange(0, 7) + s.subrange(20, 25)
}

pub open spec fn decode_r(s: Seq<u8>) -> Result<Instruction, CpuError> {
    if !all_bin(s.subrange(20, 25)) {
        Result::Err(CpuError::InvalidRd)
    } else if !all_bin(s.subrange(12, 17)) {
        Result::Err(CpuError::InvalidRs1)
    } else if !all_bin(s.subrange(7, 12)) {
        Result::Err(CpuError::InvalidRs2)
    } else {
        match r_op(s) {
            Option::Some(i) => Result::Ok(
                Instruction::Register {
                    i,
                    rd: bin_val(s.subrange(20, 25)) as u32,
                    rs1: bin_val(s.subrange(12, 17)) as u32,
                    rs2: bin_val(s.subrange(7, 12)) as u32,
                },
            ),
            Option::None => Result::Err(CpuError::InvalidFunct),
        }
    }
}

pub open spec fn decode_i(s: Seq<u8>, opcode: nat) -> Result<Instruction, CpuError> {
    if !all_bin(s.subrange(20, 25)) {
        Result::Err(CpuError::InvalidRd)
    } else if !all_bin(s.subrange(12, 17)) {
        Result::Err(CpuError::InvalidRs1)
    } else if !all_bin(s.subrange(0, 12)) {
        Result::Err(CpuError::InvalidImm)
    } else {
        let op = if opcode == 19 {
            i_arith_op(s)
        } else if opcode == 3 {
            load_op(s)
        } else {
            Option::Some(IInstruction::Jalr)
        };
        match op {
            Option::Some(i) => Result::Ok(
                Instruction::Immediate {
                    i,
                    rd: bin_val(s.subrange(20, 25)) as u32,
                    rs1: bin_val(s.subrange(12, 17)) as u32,
                    imm: bin_val(s.subrange(0, 12)) as i32,
                },
            ),
            Option::None => Result::Err(CpuError::InvalidFunct),
        }
    }
}

pub open spec fn decode_s(s: Seq<u8>) -> Result<Instruction, CpuError> {
    if !all_bin(s.subrange(12, 17)) {
        Result::Err(CpuError::InvalidRs1)
    } else if !all_bin(s.subrange(7, 12)) {
        Result::Err(CpuError::InvalidRs2)
    } else if !all_bin(s_imm_bits(s)) {
        Result::Err(CpuError::InvalidImm)
    } else {
        match s_op(s) {
            Option::Some(i) => Result::Ok(
                Instruction::Store {
                    i,
                    rs1: bin_val(s.subrange(12, 17)) as u32,
                    rs2: bin_val(s.subrange(7, 12)) as u32,
                    imm: bin_val(s_imm_bits(s)) as i32,
                },
            ),
            Option::None => Result::Err(CpuError::InvalidFunct),
        }
    }
}

pub open spec fn decode_b(s: Seq<u8>) -> Result<Instruction, CpuError> {
    if !all_bin(s.subrange(12, 17)) {
        Result::Err(CpuError::InvalidRs1)
    } else if !all_bin(s.subrange(7, 12)) {
        Result::Err(CpuError::InvalidRs2)
    } else if !all_bin(b_imm_bits(s)) {
        Result::Err(CpuError::InvalidImm)
    } else {
        match b_op(s) {
            Option::Some(i) => Result::Ok(
                Instruction::Branch {
                    i,
                    rs1: bin_val(s.subrange(12, 17)) as u32,
                    rs2: bin_val(s.subrange(7, 12)) as u32,
                    imm: bin_val(b_imm_bits(s)) as i32,
                },
            ),
            Option::None => Result::Err(CpuError::InvalidFunct),
        }
    }
}

pub open spec fn decode_j(s: Seq<u8>) -> Result<Instruction, CpuError> {
    if !all_bin(s.subrange(20, 25)) {
        Result::Err(CpuError::InvalidRd)
    } else if !all_bin(j_imm_bits(s)) {
        Result::Err(CpuError::InvalidImm)
    } else {
        Result::Ok(
            Instruction::Jump {
                i: JInstruction::Jal,
                rd: bin_val(s.subrange(20, 25)) as u32,
                imm: bin_val(j_imm_bits(s)) as i32,
            },
        )
    }
}

pub open spec fn decode_u(s: Seq<u8>, opcode: nat) -> Result<Instruction, CpuError> {
    if !all_bin(s.subrange(20, 25)) {
        Result::Err(CpuError::InvalidRd)
    } else if !all_bin(s.subrange(0, 20)) {
        Result::Err(CpuError::InvalidImm)
    } else {
        Result::Ok(
            Instruction::UpperImmediate {
                i: if opcode == 55 {
                    UInstruction::Lui
                } else {
                    UInstruction::Auipc
                },
                rd: bin_val(s.subrange(20, 25)) as u32,
                imm: bin_val(s.subrange(0, 20)) as i32,
            },
        )
    }
}

/// What decoding the UTF-8 bytes of an instruction string yields: the decoded
/// instruction, or the first error the decoder meets. Character position 0 is
/// the most-significant bit (bit 31) of the word.
pub open spec fn spec_decode(s: Seq<u8>) -> Result<Instruction, CpuError> {
    if s.len() != 32 {
        Result::Err(CpuError::InvalidFormat)
    } else {
        let oc = opcode_val(s);
        if oc == Option::Some(51nat) {
            decode_r(s)
        } else if oc == Option::Some(19nat) {
            decode_i(s, 19)
        } else if oc == Option::Some(3nat) {
            decode_i(s, 3)
        } else if oc == Option::Some(103nat) {
            decode_i(s, 103)
        } else if oc == Option::Some(35nat) {
            decode_s(s)
        } else if oc == Option::Some(99nat) {
            decode_b(s)
        } else if oc == Option::Some(111nat) {
            decode_j(s)
        } else if oc == Option::Some(55nat) {
            decode_u(s, 55)
        } else if oc == Option::Some(23nat) {
            decode_u(s, 23)
        } else {
            Result::Err(CpuError::InvalidOpcode)
        }
    }
}

proof fn lemma_all_bin_subrange(s: Seq<u8>, lo: int, hi: int)
    requires
        all_bin(s),
        0 <= lo <= hi <= s.len(),
    ensures
        all_bin(s.subrange(lo, hi)),
{
    assert forall|i: int| 0 <= i < hi - lo implies is_bin(#[trigger] s.subrange(lo, hi)[i]) by {
        assert(is_bin(s[lo + i]));
    }
}

/// A string of any length other than 32 is rejected as malformed, whatever
/// it contains.
pub proof fn lemma_wrong_length_rejected(s: Seq<u8>)
    requires
        s.len() != 32,
    ensures
        spec_decode(s) == Result::<Instruction, CpuError>::Err(CpuError::InvalidFormat),
{
}

/// Every syntactically valid instruction string with the register-register
/// opcode and a recognized funct combination decodes successfully, and its
/// operand fields are read from exactly the documented digit ranges.
pub proof fn lemma_register_format_decodes(s: Seq<u8>)
    requires
        s.len() == 32,
        all_bin(s),
        bin_val(s.subrange(25, 32)) == 51,
        r_op(s) is Some,
    ensures
        spec_decode(s) == Result::<Instruction, CpuError>::Ok(
            Instruction::Register {
                i: r_op(s)->Some_0,
                rd: bin_val(s.subrange(20, 25)) as u32,
                rs1: bin_val(s.subrange(12, 17)) as u32,
                rs2: bin_val(s.subrange(7, 12)) as u32,
            },
        ),
{
    lemma_all_bin_subrange(s, 25, 32);
    lemma_all_bin_subrange(s, 20, 25);
    lemma_all_bin_subrange(s, 12, 17);
    lemma_all_bin_subrange(s, 7, 12);
}

/// Bounds that every successfully decoded instruction obeys: register numbers
/// fit the 5-bit fields and immediates are the non-negative magnitudes of
/// their digit strings.
pub open spec fn inst_wf(inst: Instruction) -> bool {
    match inst {
        Instruction::Register { i, rd, rs1, rs2 } => rd < 32 && rs1 < 32 && rs2 < 32,
        Instruction::Immediate { i, rd, rs1, imm } => rd < 32 && rs1 < 32 && 0 <= imm < 4096,
        Instruction::Store { i, rs1, rs2, imm } => rs1 < 32 && rs2 < 32 && 0 <= imm < 4096,
        Instruction::Branch { i, rs1, rs2, imm } => rs1 < 32 && rs2 < 32 && 0 <= imm < 8192,
        Instruction::UpperImmediate { i, rd, imm } => rd < 32 && 0 <= imm < 0x10_0000,
        Instruction::Jump { i, rd, imm } => rd < 32 && 0 <= imm < 0x20_0000,
    }
}

proof fn lemma_bin_val_fits(s: Seq<u8>, w: nat)
    requires
        s.len() == w,
        w <= 21,
    ensures
        bin_val(s) < pow2(w),
        pow2(w) <= 0x20_0000,
{
    lemma_bin_val_bound(s);
    if w < 21 {
        lemma_pow2_strictly_increases(w, 21);
    }
    lemma2_to64();
}

/// Everything a successful decode yields is within the field bounds.
pub proof fn lemma_decode_bounds(s: Seq<u8>)
    ensures
        match spec_decode(s) {
            Result::Ok(inst) => inst_wf(inst),
            Result::Err(_) => true,
        },
{
    if s.len() == 32 {
        lemma_bin_val_fits(s.subrange(20, 25), 5);
        lemma_bin_val_fits(s.subrange(12, 17), 5);
        lemma_bin_val_fits(s.subrange(7, 12), 5);
        lemma_bin_val_fits(s.subrange(0, 12), 12);
        lemma_bin_val_fits(s_imm_bits(s), 12);
        lemma_bin_val_fits(b_imm_bits(s), 13);
        lemma_bin_val_fits(j_imm_bits(s), 21);
        lemma_bin_val_fits(s.subrange(0, 20), 20);
        lemma2_to64();
    }
}

impl Instruction {
    /// Decodes one instruction string; character position 0 is the
    /// most-significant bit. Yields the typed instruction, or the first
    /// error met: a length other than 32 characters, an unknown opcode, a
    /// non-binary digit in a register or immediate subfield, or an unknown
    /// funct combination.
    pub fn decode(s: &str) -> (r: Result<Instruction, CpuError>)
        ensures
            r == spec_decode(s.spec_bytes()),
    {
        let b: &[u8] = s.as_bytes();
        let ghost bs = s.spec_bytes();
        if b.len() != 32 {
            return Result::Err(CpuError::InvalidFormat);
        }
        let oc = match parse_bin_field(b, 25, 32) {
            Option::Some(v) => v,
            Option::None => {
                return Result::Err(CpuError::InvalidOpcode);
            },
        };
        if oc == 51 {
            // register-register format
            let rd = match parse_bin_field(b, 20, 25) {
                Option::Some(v) => v,
                Option::None => {
                    return Result::Err(CpuError::InvalidRd);
                },
            };
            let rs1 = match parse_bin_field(b, 12, 17) {
                Option::Some(v) => v,
                Option::None => {
                    return Result::Err(CpuError::InvalidRs1);
                },
            };
            let rs2 = match parse_bin_field(b, 7, 12) {
                Option::Some(v) => v,
                Option::None => {
                    return Result::Err(CpuError::InvalidRs2);
                },
            };
            let sel = r_sel(b);
            match sel {
                Option::Some(i) => Result::Ok(Instruction::Register { i, rd, rs1, rs2 }),
                Option::None => Result::Err(CpuError::InvalidFunct),
            }
        } else if oc == 19 || oc == 3 || oc == 103 {
            // immediate format: arithmetic, loads, register-indirect jump
            let rd = match parse_bin_field(b, 20, 25) {
                Option::Some(v) => v,
                Option::None => {
                    return Result::Err(CpuError::InvalidRd);
                },
            };
            let rs1 = match parse_bin_field(b, 12, 17) {
                Option::Some(v) => v,
                Option::None => {
                    return Result::Err(CpuError::InvalidRs1);
                },
            };
            let imm = match parse_bin_field(b, 0, 12) {
                Option::Some(v) => v,
                Option::None => {
                    return Result::Err(CpuError::InvalidImm);
                },
            };
            proof {
                lemma_bin_val_fits(bs.subrange(0, 12), 12);
            }
            let sel = if oc == 19 {
                i_arith_sel(b)
            } else if oc == 3 {
                load_sel(b)
            } else {
                Option::Some(IInstruction::Jalr)
            };
            match sel {
                Option::Some(i) => Result::Ok(
                    Instruction::Immediate { i, rd, rs1, imm: imm as i32 },
                ),
                Option::None => Result::Err(CpuError::InvalidFunct),
            }
        } else if oc == 35 {
            // store format
            let rs1 = match parse_bin_field(b, 12, 17) {
                Option::Some(v) => v,
                Option::None => {
                    return Result::Err(CpuError::InvalidRs1);
                },
            };
            let rs2 = match parse_bin_field(b, 7, 12) {
                Option::Some(v) => v,
                Option::None => {
                    return Result::Err(CpuError::InvalidRs2);
                },
            };
            let mut v: Vec<u8> = Vec::new();
            let mut k: usize = 0;
            while k < 7
                invariant
                    k <= 7,
                    b@.len() == 32,
                    v@ =~= b@.subrange(0, k as int),
                decreases 7 - k,
            {
                v.push(b[k]);
                k = k + 1;
            }
            k = 20;
            while k < 25
                invariant
                    20 <= k <= 25,
                    b@.len() == 32,
                    v@ =~= b@.subrange(0, 7) + b@.subrange(20, k as int),
                decreases 25 - k,
            {
                v.push(b[k]);
                k = k + 1;
            }
            proof {
                assert(v@ =~= s_imm_bits(bs));
            }
            let imm = match parse_bin_field(v.as_slice(), 0, 12) {
                Option::Some(x) => x,
                Option::None => {
                    proof {
                        assert(v@.subrange(0, 12) =~= v@);
                    }
                    return Result::Err(CpuError::InvalidImm);
                },
            };
            proof {
                assert(v@.subrange(0, 12) =~= v@);
                lemma_bin_val_fits(s_imm_bits(bs), 12);
            }
            let sel = s_sel(b);
            match sel {
                Option::Some(i) => Result::Ok(
                    Instruction::Store { i, rs1, rs2, imm: imm as i32 },
                ),
                Option::None => Result::Err(CpuError::InvalidFunct),
            }
        } else if oc == 99 {
            // branch format
            let rs1 = match parse_bin_field(b, 12, 17) {
                Option::Some(v) => v,
                Option::None => {
                    return Result::Err(CpuError::InvalidRs1);
                },
            };
            let rs2 = match parse_bin_field(b, 7, 12) {
                Option::Some(v) => v,
                Option::None => {
                    return Result::Err(CpuError::InvalidRs2);
                },
            };
            let mut v: Vec<u8> = Vec::new();
            v.push(b[0]);
            v.push(b[24]);
            let mut k: usize = 1;
            while k < 7
                invariant
                    1 <= k <= 7,
                    b@.len() == 32,
                    v@ =~= seq![b@[0], b@[24]] + b@.subrange(1, k as int),
                decreases 7 - k,
            {
                v.push(b[k]);
                k = k + 1;
            }
            k = 20;
            while k < 24
                invariant
                    20 <= k <= 24,
                    b@.len() == 32,
                    v@ =~= seq![b@[0], b@[24]] + b@.subrange(1, 7) + b@.subrange(20, k as int),
                decreases 24 - k,
            {
                v.push(b[k]);
                k = k + 1;
            }
            v.push(48);
            proof {
                assert(v@ =~= b_imm_bits(bs));
            }
            let imm = match parse_bin_field(v.as_slice(), 0, 13) {
                Option::Some(x) => x,
                Option::None => {
                    proof {
                        assert(v@.subrange(0, 13) =~= v@);
                    }
                    return Result::Err(CpuError::InvalidImm);
                },
            };
            proof {
                assert(v@.subrange(0, 13) =~= v@);
                lemma_bin_val_fits(b_imm_bits(bs), 13);
            }
            let sel = b_sel(b);
            match sel {
                Option::Some(i) => Result::Ok(
                    Instruction::Branch { i, rs1, rs2, imm: imm as i32 },
                ),
                Option::None => Result::Err(CpuError::InvalidFunct),
            }
        } else if oc == 111 {
            // jump format
            let rd = match parse_bin_field(b, 20, 25) {
                Option::Some(v) => v,
                Option::None => {
                    return Result::Err(CpuError::InvalidRd);
                },
            };
            let mut v: Vec<u8> = Vec::new();
            v.push(b[0]);
            let mut k: usize = 12;
            while k < 20
                invariant
                    12 <= k <= 20,
                    b@.len() == 32,
                    v@ =~= seq![b@[0]] + b@.subrange(12, k as int),
                decreases 20 - k,
            {
                v.push(b[k]);
                k = k + 1;
            }
            v.push(b[11]);
            k = 1;
            while k < 11
                invariant
                    1 <= k <= 11,
                    b@.len() == 32,
                    v@ =~= seq![b@[0]] + b@.subrange(12, 20) + seq![b@[11]] + b@.subrange(
                        1,
                        k as int,
                    ),
                decreases 11 - k,
            {
                v.push(b[k]);
                k = k + 1;
            }
            v.push(48);
            proof {
                assert(v@ =~= j_imm_bits(bs));
            }
            let imm = match parse_bin_field(v.as_slice(), 0, 21) {
                Option::Some(x) => x,
                Option::None => {
                    proof {
                        assert(v@.subrange(0, 21) =~= v@);
                    }
                    return Result::Err(CpuError::InvalidImm);
                },
            };
            proof {
                assert(v@.subrange(0, 21) =~= v@);
                lemma_bin_val_fits(j_imm_bits(bs), 21);
            }
            Result::Ok(Instruction::Jump { i: JInstruction::Jal, rd, imm: imm as i32 })
        } else if oc == 55 || oc == 23 {
            // upper-immediate format
            let rd = match parse_bin_field(b, 20, 25) {
                Option::Some(v) => v,
                Option::None => {
                    return Result::Err(CpuError::InvalidRd);
                },
            };
            let imm = match parse_bin_field(b, 0, 20) {
                Option::Some(v) => v,
                Option::None => {
                    return Result::Err(CpuError::InvalidImm);
                },
            };
            proof {
                lemma_bin_val_fits(bs.subrange(0, 20), 20);
            }
            let i = if oc == 55 {
                UInstruction::Lui
            } else {
                UInstruction::Auipc
            };
            Result::Ok(Instruction::UpperImmediate { i, rd, imm: imm as i32 })
        } else {
            Result::Err(CpuError::InvalidOpcode)
        }
    }
}

/// Reads the funct3 field as a binary number.
fn f3_digit(b: &[u8]) -> (r: Option<u8>)
    requires
        b@.len() == 32,
    ensures
        r == f3_code(b@),
{
    match parse_bin_field(b, 17, 20) {
        Option::Some(v) => {
            proof {
                lemma_bin_val_fits(b@.subrange(17, 20), 3);
            }
            Option::Some(v as u8)
        },
        Option::None => Option::None,
    }
}

/// Reads the funct7 field: 0 for "0000000", 1 for "0100000".
fn f7_kind(b: &[u8]) -> (r: Option<u8>)
    requires
        b@.len() == 32,
    ensures
        r == f7_code(b@),
{
    match parse_bin_field(b, 0, 7) {
        Option::Some(v) => {
            if v == 0 {
                Option::Some(0)
            } else if v == 32 {
                Option::Some(1)
            } else {
                Option::None
            }
        },
        Option::None => Option::None,
    }
}

fn r_sel(b: &[u8]) -> (r: Option<RInstruction>)
    requires
        b@.len() == 32,
    ensures
        r == r_op(b@),
{
    let f3 = f3_digit(b);
    let f7 = f7_kind(b);
    match (f3, f7) {
        (Option::Some(d), Option::Some(k)) => {
            if d == 0 && k == 0 {
                Option::Some(RInstruction::Add)
            } else if d == 0 && k == 1 {
                Option::Some(RInstruction::Sub)
            } else if d == 4 && k == 0 {
                Option::Some(RInstruction::Xor)
            } else if d == 6 && k == 0 {
                Option::Some(RInstruction::Or)
            } else if d == 7 && k == 0 {
                Option::Some(RInstruction::And)
            } else if d == 1 && k == 0 {
                Option::Some(RInstruction::Sll)
            } else if d == 5 && k == 0 {
                Option::Some(RInstruction::Srl)
            } else if d == 5 && k == 1 {
                Option::Some(RInstruction::Sra)
            } else if d == 2 && k == 0 {
                Option::Some(RInstruction::Slt)
            } else if d == 3 && k == 0 {
                Option::Some(RInstruction::Sltu)
            } else {
                Option::None
            }
        },
        _ => Option::None,
    }
}

fn i_arith_sel(b: &[u8]) -> (r: Option<IInstruction>)
    requires
        b@.len() == 32,
    ensures
        r == i_arith_op(b@),
{
    let f3 = f3_digit(b);
    match f3 {
        Option::Some(d) => {
            if d == 0 {
                Option::Some(IInstruction::Addi)
            } else if d == 4 {
                Option::Some(IInstruction::Xori)
            } else if d == 6 {
                Option::Some(IInstruction::Ori)
            } else if d == 7 {
                Option::Some(IInstruction::Andi)
            } else if d == 1 {
                match f7_kind(b) {
                    Option::Some(0u8) => Option::Some(IInstruction::Slli),
                    _ => Option::None,
                }
            } else if d == 5 {
                match f7_kind(b) {
                    Option::Some(0u8) => Option::Some(IInstruction::Srli),
                    Option::Some(1u8) => Option::Some(IInstruction::Srai),
                    _ => Option::None,
                }
            } else if d == 2 {
                Option::Some(IInstruction::Slti)
            } else if d == 3 {
                Option::Some(IInstruction::Sltiu)
            } else {
                Option::None
            }
        },
        Option::None => Option::None,
    }
}

fn load_sel(b: &[u8]) -> (r: Option<IInstruction>)
    requires
        b@.len() == 32,
    ensures
        r == load_op(b@),
{
    match f3_digit(b) {
        Option::Some(0u8) => Option::Some(IInstruction::Lb),
        Option::Some(1u8) => Option::Some(IInstruction::Lh),
        Option::Some(2u8) => Option::Some(IInstruction::Lw),
        Option::Some(4u8) => Option::Some(IInstruction::Lbu),
        Option::Some(5u8) => Option::Some(IInstruction::Lhu),
        _ => Option::None,
    }
}

fn s_sel(b: &[u8]) -> (r: Option<SInstruction>)
    requires
        b@.len() == 32,
    ensures
        r == s_op(b@),
{
    match f3_digit(b) {
        Option::Some(0u8) => Option::Some(SInstruction::Sb),
        Option::Some(1u8) => Option::Some(SInstruction::Sh),
        Option::Some(2u8) => Option::Some(SInstruction::Sw),
        _ => Option::None,
    }
}

fn b_sel(b: &[u8]) -> (r: Option<BInstruction>)
    requires
        b@.len() == 32,
    ensures
        r == b_op(b@),
{
    match f3_digit(b) {
        Option::Some(0u8) => Option::Some(BInstruction::Beq),
        Option::Some(1u8) => Option::Some(BInstruction::Bne),
        Option::Some(4u8) => Option::Some(BInstruction::Blt),
        Option::Some(5u8) => Option::Some(BInstruction::Bge),
        Option::Some(6u8) => Option::Some(BInstruction::Bltu),
        Option::Some(7u8) => Option::Some(BInstruction::Bgeu),
        _ => Option::None,
    }
}

} // verus!
