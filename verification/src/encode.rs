//! Encoders from operand fields to instruction strings, each proved to
//! decode back to exactly the instruction it was built from.
use vstd::prelude::*;
use vstd::arithmetic::power2::{pow2, lemma2_to64};
use vstd::arithmetic::div_mod::lemma_div_denominator;
use vstd::string::StringExecFns;
use vstd::utf8::{encode_utf8, is_ascii_chars, is_ascii_chars_encode_utf8};

use crate::instruction::{
    BInstruction, IInstruction, Instruction, JInstruction, RInstruction, SInstruction,
    UInstruction, all_bin, bin_val, is_bin, spec_decode,
};
use crate::CpuError;

verus! {

/// The binary digit string of the low `w` bits of `v`, most-significant
/// digit first.
pub open spec fn bin_chars(v: nat, w: nat) -> Seq<char>
    decreases w,
{
    if w == 0 {
        Seq::empty()
    } else {
        bin_chars(v / 2, (w - 1) as nat).push(
            if v % 2 == 1 {
                '1'
            } else {
                '0'
            },
        )
    }
}

/// An ASCII character string reinterpreted byte by byte.
pub open spec fn bytes_of(cs: Seq<char>) -> Seq<u8> {
    Seq::new(cs.len(), |i: int| cs[i] as u8)
}

proof fn lemma_bin_chars(v: nat, w: nat)
    ensures
        bin_chars(v, w).len() == w,
        is_ascii_chars(bin_chars(v, w)),
        all_bin(bytes_of(bin_chars(v, w))),
        v < pow2(w) ==> bin_val(bytes_of(bin_chars(v, w))) == v,
    decreases w,
{
    if w == 0 {
        assert(bytes_of(bin_chars(v, w)) =~= Seq::<u8>::empty());
        lemma2_to64();
    } else {
        lemma_bin_chars(v / 2, (w - 1) as nat);
        vstd::arithmetic::power2::lemma_pow2_unfold(w);
        let c = if v % 2 == 1 {
            '1'
        } else {
            '0'
        };
        let tail = bin_chars(v / 2, (w - 1) as nat);
        assert(bytes_of(tail.push(c)) =~= bytes_of(tail).push(c as u8));
        assert(bytes_of(tail.push(c)).drop_last() =~= bytes_of(tail));
        if v < pow2(w) {
            assert(v / 2 < pow2((w - 1) as nat));
        }
    }
}

proof fn lemma_bin_val_concat(a: Seq<u8>, b: Seq<u8>)
    ensures
        bin_val(a + b) == bin_val(a) * pow2(b.len()) + bin_val(b),
    decreases b.len(),
{
    if b.len() == 0 {
        assert(a + b =~= a);
        lemma2_to64();
    } else {
        lemma_bin_val_concat(a, b.drop_last());
        vstd::arithmetic::power2::lemma_pow2_unfold(b.len());
        assert((a + b).drop_last() =~= a + b.drop_last());
        assert((a + b).last() == b.last());
        let p1 = pow2((b.len() - 1) as nat);
        let bit: nat = if b.last() == 49 {
            1
        } else {
            0
        };
        assert(bin_val(b) == 2 * bin_val(b.drop_last()) + bit);
        assert(bin_val(a + b) == 2 * bin_val((a + b).drop_last()) + bit);
        assert(bin_val(a + b) == 2 * (bin_val(a) * p1 + bin_val(b.drop_last())) + bit);
        assert(2 * (bin_val(a) * p1) == bin_val(a) * (2 * p1)) by (nonlinear_arith);
        assert(bin_val(a + b) == bin_val(a) * (2 * p1) + (2 * bin_val(b.drop_last()) + bit));
        assert(pow2(b.len()) == 2 * p1);
    }
}

/// The prefix of a digit string drops the low bits.
proof fn lemma_bin_chars_prefix(v: nat, w: nat, k: nat)
    requires
        k <= w,
    ensures
        bin_chars(v, w).subrange(0, k as int) == bin_chars(v / pow2((w - k) as nat), k),
    decreases w - k,
{
    lemma_bin_chars(v, w);
    if k == w {
        lemma2_to64();
        assert(bin_chars(v, w).subrange(0, k as int) =~= bin_chars(v, w));
    } else {
        lemma_bin_chars_prefix(v / 2, (w - 1) as nat, k);
        lemma_bin_chars(v / 2, (w - 1) as nat);
        assert(bin_chars(v, w).subrange(0, k as int) =~= bin_chars(v / 2, (w - 1) as nat).subrange(
            0,
            k as int,
        ));
        vstd::arithmetic::power2::lemma_pow2_unfold((w - k) as nat);
        vstd::arithmetic::power2::lemma_pow2_pos((w - k - 1) as nat);
        let pw = pow2((w - k - 1) as nat);
        lemma_div_denominator(v as int, 2, pw as int);
        assert(pow2((w - k) as nat) == 2 * pw);
        assert((v / 2) / pw == v / (2 * pw));
        assert(bin_chars(v / 2, (w - 1) as nat).subrange(0, k as int) =~= bin_chars(
            v / pow2((w - k) as nat),
            k,
        ));
    }
}

/// Appends the low `w` binary digits of `v`, most-significant first.
fn append_bits(s: &mut String, v: u32, w: u32)
    requires
        w <= 31,
    ensures
        final(s)@ == old(s)@ + bin_chars(v as nat, w as nat),
    decreases w,
{
    proof {
        reveal_strlit("0");
        reveal_strlit("1");
    }
    if w == 0 {
        proof {
            assert(old(s)@ + bin_chars(v as nat, 0) =~= old(s)@);
        }
    } else {
        append_bits(s, v / 2, w - 1);
        if v % 2 == 1 {
            s.append("1");
        } else {
            s.append("0");
        }
        proof {
            assert(final(s)@ =~= old(s)@ + bin_chars(v as nat, w as nat));
        }
    }
}

proof fn lemma_ascii_bytes(cs: Seq<char>)
    requires
        is_ascii_chars(cs),
    ensures
        encode_utf8(cs).len() == cs.len(),
        encode_utf8(cs) =~= bytes_of(cs),
        forall|i: int| 0 <= i < cs.len() ==> encode_utf8(cs)[i] == cs[i] as u8,
{
    is_ascii_chars_encode_utf8(cs);
    assert(encode_utf8(cs) =~= bytes_of(cs));
}

/// Builds the 32-character text of a register-register instruction; decoding
/// it yields back exactly the operation and register numbers given.
pub fn encode_r(i: RInstruction, rd: u32, rs1: u32, rs2: u32) -> (r: String)
    requires
        rd < 32,
        rs1 < 32,
        rs2 < 32,
    ensures
        r@.len() == 32,
        spec_decode(encode_utf8(r@)) == Result::<Instruction, CpuError>::Ok(
            Instruction::Register { i, rd, rs1, rs2 },
        ),
{
    let (f7v, d): (u32, u8) = match i {
        RInstruction::Add => (0, 0),
        RInstruction::Sub => (32, 0),
        RInstruction::Xor => (0, 4),
        RInstruction::Or => (0, 6),
        RInstruction::And => (0, 7),
        RInstruction::Sll => (0, 1),
        RInstruction::Srl => (0, 5),
        RInstruction::Sra => (32, 5),
        RInstruction::Slt => (0, 2),
        RInstruction::Sltu => (0, 3),
    };
    let mut s = String::new();
    append_bits(&mut s, f7v, 7);
    append_bits(&mut s, rs2, 5);
    append_bits(&mut s, rs1, 5);
    append_bits(&mut s, d as u32, 3);
    append_bits(&mut s, rd, 5);
    append_bits(&mut s, 51, 7);
    proof {
        let p1 = bin_chars(f7v as nat, 7);
        let p2 = bin_chars(rs2 as nat, 5);
        let p3 = bin_chars(rs1 as nat, 5);
        let p4 = bin_chars(d as nat, 3);
        let p5 = bin_chars(rd as nat, 5);
        let p6 = bin_chars(51, 7);
        lemma_bin_chars(f7v as nat, 7);
        lemma_bin_chars(rs2 as nat, 5);
        lemma_bin_chars(rs1 as nat, 5);
        lemma_bin_chars(d as nat, 3);
        lemma_bin_chars(rd as nat, 5);
        lemma_bin_chars(51, 7);
        lemma2_to64();
        assert(s@ =~= p1 + p2 + p3 + p4 + p5 + p6);
        assert forall|k: int| 0 <= k < s@.len() implies '\0' <= #[trigger] s@[k] <= '\u{7f}' by {
            if k < 7 {
                assert(s@[k] == p1[k]);
            } else if k < 12 {
                assert(s@[k] == p2[k - 7]);
            } else if k < 17 {
                assert(s@[k] == p3[k - 12]);
            } else if k < 20 {
                assert(s@[k] == p4[k - 17]);
            } else if k < 25 {
                assert(s@[k] == p5[k - 20]);
            } else {
                assert(s@[k] == p6[k - 25]);
            }
        }
        lemma_ascii_bytes(s@);
        let bb = encode_utf8(s@);
        assert(bb.subrange(0, 7) =~= bytes_of(p1));
        assert(bb.subrange(7, 12) =~= bytes_of(p2));
        assert(bb.subrange(12, 17) =~= bytes_of(p3));
        assert(bb.subrange(20, 25) =~= bytes_of(p5));
        assert(bb.subrange(25, 32) =~= bytes_of(p6));
        assert(bb.subrange(17, 20) =~= bytes_of(bin_chars(d as nat, 3)));
        assert(crate::instruction::opcode_val(bb) == Option::Some(51nat));
        assert(crate::instruction::f3_code(bb) == Option::Some(d));
        assert(crate::instruction::f7_code(bb) == Option::Some(
            if f7v == 32 {
                1u8
            } else {
                0u8
            },
        ));
        assert(crate::instruction::r_op(bb) == Option::Some(i));
        assert(spec_decode(bb) == Result::<Instruction, CpuError>::Ok(
            Instruction::Register { i, rd, rs1, rs2 },
        ));
    }
    s
}

proof fn lemma_all_bin_concat(a: Seq<u8>, b: Seq<u8>)
    requires
        all_bin(a),
        all_bin(b),
    ensures
        all_bin(a + b),
{
    assert forall|i: int| 0 <= i < (a + b).len() implies is_bin(#[trigger] (a + b)[i]) by {
        if i < a.len() {
            assert((a + b)[i] == a[i]);
        } else {
            assert((a + b)[i] == b[i - a.len()]);
        }
    }
}

proof fn lemma_digit_string_zero()
    ensures
        bin_val(seq![48u8]) == 0,
        all_bin(seq![48u8]),
        seq![48u8].len() == 1,
{
    assert(seq![48u8].drop_last() =~= Seq::<u8>::empty());
    assert(bin_val(Seq::<u8>::empty()) == 0);
    assert(bin_val(seq![48u8]) == 0);
}

/// Builds the text of an immediate-format instruction: the arithmetic
/// operations, the loads and the register-indirect jump. The shift
/// operations constrain the immediate's high bits, which double as the
/// funct7 field the decoder checks.
pub fn encode_i(i: IInstruction, rd: u32, rs1: u32, imm: i32) -> (r: String)
    requires
        rd < 32,
        rs1 < 32,
        0 <= imm < 4096,
        (i == IInstruction::Slli || i == IInstruction::Srli) ==> imm < 32,
        i == IInstruction::Srai ==> 1024 <= imm < 1056,
    ensures
        r@.len() == 32,
        spec_decode(encode_utf8(r@)) == Result::<Instruction, CpuError>::Ok(
            Instruction::Immediate { i, rd, rs1, imm },
        ),
{
    let (ocv, d): (u32, u8) = match i {
        IInstruction::Addi => (19, 0),
        IInstruction::Xori => (19, 4),
        IInstruction::Ori => (19, 6),
        IInstruction::Andi => (19, 7),
        IInstruction::Slli => (19, 1),
        IInstruction::Srli => (19, 5),
        IInstruction::Srai => (19, 5),
        IInstruction::Slti => (19, 2),
        IInstruction::Sltiu => (19, 3),
        IInstruction::Lb => (3, 0),
        IInstruction::Lh => (3, 1),
        IInstruction::Lw => (3, 2),
        IInstruction::Lbu => (3, 4),
        IInstruction::Lhu => (3, 5),
        IInstruction::Jalr => (103, 0),
    };
    let mut s = String::new();
    append_bits(&mut s, imm as u32, 12);
    append_bits(&mut s, rs1, 5);
    append_bits(&mut s, d as u32, 3);
    append_bits(&mut s, rd, 5);
    append_bits(&mut s, ocv, 7);
    proof {
        let p1 = bin_chars(imm as nat, 12);
        let p2 = bin_chars(rs1 as nat, 5);
        let p3 = bin_chars(d as nat, 3);
        let p4 = bin_chars(rd as nat, 5);
        let p5 = bin_chars(ocv as nat, 7);
        lemma_bin_chars(imm as nat, 12);
        lemma_bin_chars(rs1 as nat, 5);
        lemma_bin_chars(d as nat, 3);
        lemma_bin_chars(rd as nat, 5);
        lemma_bin_chars(ocv as nat, 7);
        lemma2_to64();
        assert(s@ =~= p1 + p2 + p3 + p4 + p5);
        assert forall|k: int| 0 <= k < s@.len() implies '\0' <= #[trigger] s@[k] <= '\u{7f}' by {
            if k < 12 {
                assert(s@[k] == p1[k]);
            } else if k < 17 {
                assert(s@[k] == p2[k - 12]);
            } else if k < 20 {
                assert(s@[k] == p3[k - 17]);
            } else if k < 25 {
                assert(s@[k] == p4[k - 20]);
            } else {
                assert(s@[k] == p5[k - 25]);
            }
        }
        lemma_ascii_bytes(s@);
        let bb = encode_utf8(s@);
        assert(bb.subrange(0, 12) =~= bytes_of(p1));
        assert(bb.subrange(12, 17) =~= bytes_of(p2));
        assert(bb.subrange(20, 25) =~= bytes_of(p4));
        assert(bb.subrange(25, 32) =~= bytes_of(p5));
        assert(bb.subrange(17, 20) =~= bytes_of(bin_chars(d as nat, 3)));
        assert(crate::instruction::opcode_val(bb) == Option::Some(ocv as nat));
        assert(crate::instruction::f3_code(bb) == Option::Some(d));
        // the funct7 field is the high seven digits of the immediate
        lemma_bin_chars_prefix(imm as nat, 12, 7);
        assert(bb.subrange(0, 7) =~= bytes_of(bin_chars(imm as nat / 32, 7)));
        lemma_bin_chars(imm as nat / 32, 7);
        assert(crate::instruction::f7_code(bb) == (if imm / 32 == 0 {
            Option::Some(0u8)
        } else if imm / 32 == 32 {
            Option::Some(1u8)
        } else {
            Option::<u8>::None
        }));
        if ocv == 19 {
            assert(crate::instruction::i_arith_op(bb) == Option::Some(i));
        } else if ocv == 3 {
            assert(crate::instruction::load_op(bb) == Option::Some(i));
        }
        assert(spec_decode(bb) == Result::<Instruction, CpuError>::Ok(
            Instruction::Immediate { i, rd, rs1, imm },
        ));
    }
    s
}

/// Builds the text of a store instruction; its immediate is split between
/// the funct7 position and the destination-register position.
pub fn encode_s(i: SInstruction, rs1: u32, rs2: u32, imm: i32) -> (r: String)
    requires
        rs1 < 32,
        rs2 < 32,
        0 <= imm < 4096,
    ensures
        r@.len() == 32,
        spec_decode(encode_utf8(r@)) == Result::<Instruction, CpuError>::Ok(
            Instruction::Store { i, rs1, rs2, imm },
        ),
{
    let d: u8 = match i {
        SInstruction::Sb => 0,
        SInstruction::Sh => 1,
        SInstruction::Sw => 2,
    };
    let im = imm as u32;
    let mut s = String::new();
    append_bits(&mut s, im / 32, 7);
    append_bits(&mut s, rs2, 5);
    append_bits(&mut s, rs1, 5);
    append_bits(&mut s, d as u32, 3);
    append_bits(&mut s, im % 32, 5);
    append_bits(&mut s, 35, 7);
    proof {
        let p1 = bin_chars((im / 32) as nat, 7);
        let p2 = bin_chars(rs2 as nat, 5);
        let p3 = bin_chars(rs1 as nat, 5);
        let p4 = bin_chars(d as nat, 3);
        let p5 = bin_chars((im % 32) as nat, 5);
        let p6 = bin_chars(35, 7);
        lemma_bin_chars((im / 32) as nat, 7);
        lemma_bin_chars(rs2 as nat, 5);
        lemma_bin_chars(rs1 as nat, 5);
        lemma_bin_chars(d as nat, 3);
        lemma_bin_chars((im % 32) as nat, 5);
        lemma_bin_chars(35, 7);
        lemma2_to64();
        assert(s@ =~= p1 + p2 + p3 + p4 + p5 + p6);
        assert forall|k: int| 0 <= k < s@.len() implies '\0' <= #[trigger] s@[k] <= '\u{7f}' by {
            if k < 7 {
                assert(s@[k] == p1[k]);
            } else if k < 12 {
                assert(s@[k] == p2[k - 7]);
            } else if k < 17 {
                assert(s@[k] == p3[k - 12]);
            } else if k < 20 {
                assert(s@[k] == p4[k - 17]);
            } else if k < 25 {
                assert(s@[k] == p5[k - 20]);
            } else {
                assert(s@[k] == p6[k - 25]);
            }
        }
        lemma_ascii_bytes(s@);
        let bb = encode_utf8(s@);
        assert(bb.subrange(0, 7) =~= bytes_of(p1));
        assert(bb.subrange(7, 12) =~= bytes_of(p2));
        assert(bb.subrange(12, 17) =~= bytes_of(p3));
        assert(bb.subrange(20, 25) =~= bytes_of(p5));
        assert(bb.subrange(25, 32) =~= bytes_of(p6));
        assert(bb.subrange(17, 20) =~= bytes_of(bin_chars(d as nat, 3)));
        assert(crate::instruction::opcode_val(bb) == Option::Some(35nat));
        assert(crate::instruction::f3_code(bb) == Option::Some(d));
        assert(crate::instruction::s_imm_bits(bb) =~= bytes_of(p1) + bytes_of(p5));
        lemma_all_bin_concat(bytes_of(p1), bytes_of(p5));
        lemma_bin_val_concat(bytes_of(p1), bytes_of(p5));
        assert(bin_val(crate::instruction::s_imm_bits(bb)) == imm);
        assert(spec_decode(bb) == Result::<Instruction, CpuError>::Ok(
            Instruction::Store { i, rs1, rs2, imm },
        ));
    }
    s
}

/// Builds the text of a branch instruction; the even immediate's digits are
/// scattered per the branch format and its lowest bit is implicit.
pub fn encode_b(i: BInstruction, rs1: u32, rs2: u32, imm: i32) -> (r: String)
    requires
        rs1 < 32,
        rs2 < 32,
        0 <= imm < 8192,
        imm % 2 == 0,
    ensures
        r@.len() == 32,
        spec_decode(encode_utf8(r@)) == Result::<Instruction, CpuError>::Ok(
            Instruction::Branch { i, rs1, rs2, imm },
        ),
{
    let d: u8 = match i {
        BInstruction::Beq => 0,
        BInstruction::Bne => 1,
        BInstruction::Blt => 4,
        BInstruction::Bge => 5,
        BInstruction::Bltu => 6,
        BInstruction::Bgeu => 7,
    };
    let im = imm as u32;
    let mut s = String::new();
    append_bits(&mut s, im / 4096, 1);
    append_bits(&mut s, (im / 32) % 64, 6);
    append_bits(&mut s, rs2, 5);
    append_bits(&mut s, rs1, 5);
    append_bits(&mut s, d as u32, 3);
    append_bits(&mut s, (im / 2) % 16, 4);
    append_bits(&mut s, (im / 2048) % 2, 1);
    append_bits(&mut s, 99, 7);
    proof {
        let p1 = bin_chars((im / 4096) as nat, 1);
        let p2 = bin_chars(((im / 32) % 64) as nat, 6);
        let p3 = bin_chars(rs2 as nat, 5);
        let p4 = bin_chars(rs1 as nat, 5);
        let p5 = bin_chars(d as nat, 3);
        let p6 = bin_chars(((im / 2) % 16) as nat, 4);
        let p7 = bin_chars(((im / 2048) % 2) as nat, 1);
        let p8 = bin_chars(99, 7);
        lemma_bin_chars((im / 4096) as nat, 1);
        lemma_bin_chars(((im / 32) % 64) as nat, 6);
        lemma_bin_chars(rs2 as nat, 5);
        lemma_bin_chars(rs1 as nat, 5);
        lemma_bin_chars(d as nat, 3);
        lemma_bin_chars(((im / 2) % 16) as nat, 4);
        lemma_bin_chars(((im / 2048) % 2) as nat, 1);
        lemma_bin_chars(99, 7);
        lemma2_to64();
        assert(s@ =~= p1 + p2 + p3 + p4 + p5 + p6 + p7 + p8);
        assert forall|k: int| 0 <= k < s@.len() implies '\0' <= #[trigger] s@[k] <= '\u{7f}' by {
            if k < 1 {
                assert(s@[k] == p1[k]);
            } else if k < 7 {
                assert(s@[k] == p2[k - 1]);
            } else if k < 12 {
                assert(s@[k] == p3[k - 7]);
            } else if k < 17 {
                assert(s@[k] == p4[k - 12]);
            } else if k < 20 {
                assert(s@[k] == p5[k - 17]);
            } else if k < 24 {
                assert(s@[k] == p6[k - 20]);
            } else if k < 25 {
                assert(s@[k] == p7[k - 24]);
            } else {
                assert(s@[k] == p8[k - 25]);
            }
        }
        lemma_ascii_bytes(s@);
        let bb = encode_utf8(s@);
        assert(bb.subrange(1, 7) =~= bytes_of(p2));
        assert(bb.subrange(7, 12) =~= bytes_of(p3));
        assert(bb.subrange(12, 17) =~= bytes_of(p4));
        assert(bb.subrange(20, 24) =~= bytes_of(p6));
        assert(bb.subrange(25, 32) =~= bytes_of(p8));
        assert(bb[0] == bytes_of(p1)[0]);
        assert(bb[24] == bytes_of(p7)[0]);
        assert(bb.subrange(17, 20) =~= bytes_of(bin_chars(d as nat, 3)));
        assert(crate::instruction::opcode_val(bb) == Option::Some(99nat));
        assert(crate::instruction::f3_code(bb) == Option::Some(d));
        lemma_digit_string_zero();
        let c1 = bytes_of(p6) + seq![48u8];
        let c2 = bytes_of(p2) + c1;
        let c3 = bytes_of(p7) + c2;
        let c4 = bytes_of(p1) + c3;
        assert(crate::instruction::b_imm_bits(bb) =~= c4);
        lemma_all_bin_concat(bytes_of(p6), seq![48u8]);
        lemma_all_bin_concat(bytes_of(p2), c1);
        lemma_all_bin_concat(bytes_of(p7), c2);
        lemma_all_bin_concat(bytes_of(p1), c3);
        lemma_bin_val_concat(bytes_of(p6), seq![48u8]);
        lemma_bin_val_concat(bytes_of(p2), c1);
        lemma_bin_val_concat(bytes_of(p7), c2);
        lemma_bin_val_concat(bytes_of(p1), c3);
        assert(bin_val(c4) == (im / 4096) * 4096 + ((im / 2048) % 2) * 2048 + ((im / 32) % 64) * 32
            + ((im / 2) % 16) * 2);
        assert((im / 4096) * 4096 + ((im / 2048) % 2) * 2048 + ((im / 32) % 64) * 32 + ((im / 2)
            % 16) * 2 == im) by (bit_vector)
            requires
                im < 8192u32,
                im % 2 == 0u32,
        ;
        assert(bin_val(crate::instruction::b_imm_bits(bb)) == imm);
        assert(spec_decode(bb) == Result::<Instruction, CpuError>::Ok(
            Instruction::Branch { i, rs1, rs2, imm },
        ));
    }
    s
}

/// Builds the text of the jump-and-link instruction; the even immediate's
/// digits are scattered per the jump format and its lowest bit is implicit.
pub fn encode_j(rd: u32, imm: i32) -> (r: String)
    requires
        rd < 32,
        0 <= imm < 0x20_0000,
        imm % 2 == 0,
    ensures
        r@.len() == 32,
        spec_decode(encode_utf8(r@)) == Result::<Instruction, CpuError>::Ok(
            Instruction::Jump { i: JInstruction::Jal, rd, imm },
        ),
{
    let im = imm as u32;
    let mut s = String::new();
    append_bits(&mut s, im / 0x10_0000, 1);
    append_bits(&mut s, (im / 2) % 1024, 10);
    append_bits(&mut s, (im / 2048) % 2, 1);
    append_bits(&mut s, (im / 4096) % 256, 8);
    append_bits(&mut s, rd, 5);
    append_bits(&mut s, 111, 7);
    proof {
        let p1 = bin_chars((im / 0x10_0000) as nat, 1);
        let p2 = bin_chars(((im / 2) % 1024) as nat, 10);
        let p3 = bin_chars(((im / 2048) % 2) as nat, 1);
        let p4 = bin_chars(((im / 4096) % 256) as nat, 8);
        let p5 = bin_chars(rd as nat, 5);
        let p6 = bin_chars(111, 7);
        lemma_bin_chars((im / 0x10_0000) as nat, 1);
        lemma_bin_chars(((im / 2) % 1024) as nat, 10);
        lemma_bin_chars(((im / 2048) % 2) as nat, 1);
        lemma_bin_chars(((im / 4096) % 256) as nat, 8);
        lemma_bin_chars(rd as nat, 5);
        lemma_bin_chars(111, 7);
        lemma2_to64();
        assert(s@ =~= p1 + p2 + p3 + p4 + p5 + p6);
        assert forall|k: int| 0 <= k < s@.len() implies '\0' <= #[trigger] s@[k] <= '\u{7f}' by {
            if k < 1 {
                assert(s@[k] == p1[k]);
            } else if k < 11 {
                assert(s@[k] == p2[k - 1]);
            } else if k < 12 {
                assert(s@[k] == p3[k - 11]);
            } else if k < 20 {
                assert(s@[k] == p4[k - 12]);
            } else if k < 25 {
                assert(s@[k] == p5[k - 20]);
            } else {
                assert(s@[k] == p6[k - 25]);
            }
        }
        lemma_ascii_bytes(s@);
        let bb = encode_utf8(s@);
        assert(bb.subrange(1, 11) =~= bytes_of(p2));
        assert(bb.subrange(12, 20) =~= bytes_of(p4));
        assert(bb.subrange(20, 25) =~= bytes_of(p5));
        assert(bb.subrange(25, 32) =~= bytes_of(p6));
        assert(bb[0] == bytes_of(p1)[0]);
        assert(bb[11] == bytes_of(p3)[0]);
        assert(crate::instruction::opcode_val(bb) == Option::Some(111nat));
        lemma_digit_string_zero();
        let c1 = bytes_of(p2) + seq![48u8];
        let c2 = bytes_of(p3) + c1;
        let c3 = bytes_of(p4) + c2;
        let c4 = bytes_of(p1) + c3;
        assert(crate::instruction::j_imm_bits(bb) =~= c4);
        lemma_all_bin_concat(bytes_of(p2), seq![48u8]);
        lemma_all_bin_concat(bytes_of(p3), c1);
        lemma_all_bin_concat(bytes_of(p4), c2);
        lemma_all_bin_concat(bytes_of(p1), c3);
        lemma_bin_val_concat(bytes_of(p2), seq![48u8]);
        lemma_bin_val_concat(bytes_of(p3), c1);
        lemma_bin_val_concat(bytes_of(p4), c2);
        lemma_bin_val_concat(bytes_of(p1), c3);
        assert(bin_val(c4) == (im / 0x10_0000) * 0x10_0000 + ((im / 4096) % 256) * 4096 + ((im
            / 2048) % 2) * 2048 + ((im / 2) % 1024) * 2);
        assert((im / 0x10_0000) * 0x10_0000 + ((im / 4096) % 256) * 4096 + ((im / 2048) % 2) * 2048
            + ((im / 2) % 1024) * 2 == im) by (bit_vector)
            requires
                im < 0x20_0000u32,
                im % 2 == 0u32,
        ;
        assert(bin_val(crate::instruction::j_imm_bits(bb)) == imm);
        assert(spec_decode(bb) == Result::<Instruction, CpuError>::Ok(
            Instruction::Jump { i: JInstruction::Jal, rd, imm },
        ));
    }
    s
}

/// Builds the text of an upper-immediate instruction.
pub fn encode_u(i: UInstruction, rd: u32, imm: i32) -> (r: String)
    requires
        rd < 32,
        0 <= imm < 0x10_0000,
    ensures
        r@.len() == 32,
        spec_decode(encode_utf8(r@)) == Result::<Instruction, CpuError>::Ok(
            Instruction::UpperImmediate { i, rd, imm },
        ),
{
    let ocv: u32 = match i {
        UInstruction::Lui => 55,
        UInstruction::Auipc => 23,
    };
    let mut s = String::new();
    append_bits(&mut s, imm as u32, 20);
    append_bits(&mut s, rd, 5);
    append_bits(&mut s, ocv, 7);
    proof {
        let p1 = bin_chars(imm as nat, 20);
        let p2 = bin_chars(rd as nat, 5);
        let p3 = bin_chars(ocv as nat, 7);
        lemma_bin_chars(imm as nat, 20);
        lemma_bin_chars(rd as nat, 5);
        lemma_bin_chars(ocv as nat, 7);
        lemma2_to64();
        assert(s@ =~= p1 + p2 + p3);
        assert forall|k: int| 0 <= k < s@.len() implies '\0' <= #[trigger] s@[k] <= '\u{7f}' by {
            if k < 20 {
                assert(s@[k] == p1[k]);
            } else if k < 25 {
                assert(s@[k] == p2[k - 20]);
            } else {
                assert(s@[k] == p3[k - 25]);
            }
        }
        lemma_ascii_bytes(s@);
        let bb = encode_utf8(s@);
        assert(bb.subrange(0, 20) =~= bytes_of(p1));
        assert(bb.subrange(20, 25) =~= bytes_of(p2));
        assert(bb.subrange(25, 32) =~= bytes_of(p3));
        assert(crate::instruction::opcode_val(bb) == Option::Some(ocv as nat));
        assert(spec_decode(bb) == Result::<Instruction, CpuError>::Ok(
            Instruction::UpperImmediate { i, rd, imm },
        ));
    }
    s
}

} // verus!
