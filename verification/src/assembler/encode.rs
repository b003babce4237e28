//! Instruction words of the RV64IM subset that the assembler accepts, their
//! little-endian byte images, and the `li` materialization sequence.

use vstd::prelude::*;
use crate::assembler::syntax::{imm_max, imm_min, small_signed};
use crate::error::CompileError;
use vstd::arithmetic::div_mod::lemma_fundamental_div_mod_converse;

verus! {

/// 2^64: registers hold values modulo this.
pub open spec fn reg_mod() -> int {
    0x1_0000_0000_0000_0000
}

/// A signed 12-bit immediate as its two's-complement field.
pub open spec fn field12(imm: int) -> int {
    if imm < 0 {
        imm + 4096
    } else {
        imm
    }
}

/// R-type word: funct7 | rs2 | rs1 | funct3 | rd | 0x33.
pub open spec fn r_word(f7: int, f3: int, rd: int, rs1: int, rs2: int) -> int {
    f7 * 0x200_0000 + rs2 * 0x10_0000 + rs1 * 0x8000 + f3 * 0x1000 + rd * 0x80 + 0x33
}

/// I-type word: imm[11:0] | rs1 | funct3 | rd | opcode.
pub open spec fn i_word(opcode: int, f3: int, rd: int, rs1: int, imm: int) -> int {
    field12(imm) * 0x10_0000 + rs1 * 0x8000 + f3 * 0x1000 + rd * 0x80 + opcode
}

/// S-type word: imm[11:5] | rs2 | rs1 | funct3 | imm[4:0] | 0x23.
pub open spec fn s_word(f3: int, rs1: int, rs2: int, imm: int) -> int {
    let u = field12(imm);
    (u / 32) * 0x200_0000 + rs2 * 0x10_0000 + rs1 * 0x8000 + f3 * 0x1000 + (u % 32) * 0x80 + 0x23
}

/// B-type word for a branch `off` bytes away: imm[12|10:5] | rs2 | rs1 | funct3 | imm[4:1|11] | 0x63.
pub open spec fn b_word(f3: int, rs1: int, rs2: int, off: int) -> int {
    let u = if off < 0 { off + 8192 } else { off };
    (u / 4096 % 2) * 0x8000_0000 + (u / 32 % 64) * 0x200_0000 + rs2 * 0x10_0000 + rs1 * 0x8000 + f3 * 0x1000
        + (u / 2 % 16) * 0x100 + (u / 2048 % 2) * 0x80 + 0x63
}

/// J-type word (`jal`) for a jump `off` bytes away: imm[20|10:1|11|19:12] | rd | 0x6f.
pub open spec fn j_word(rd: int, off: int) -> int {
    let u = if off < 0 { off + 0x20_0000 } else { off };
    (u / 0x10_0000 % 2) * 0x8000_0000 + (u / 2 % 1024) * 0x20_0000 + (u / 2048 % 2) * 0x10_0000 + (u / 4096 % 256)
        * 0x1000 + rd * 0x80 + 0x6f
}

/// U-type word with a signed 20-bit upper immediate.
pub open spec fn u_word(opcode: int, rd: int, imm20: int) -> int {
    (if imm20 < 0 { imm20 + 0x10_0000 } else { imm20 }) * 0x1000 + rd * 0x80 + opcode
}

/// An R-type word reads back its fields at the ISA's bit positions:
/// opcode in bits 0..7, rd in 7..12, funct3 in 12..15, rs1 in 15..20, rs2 in
/// 20..25 and funct7 in 25..32.
pub proof fn lemma_r_word_fields(f7: int, f3: int, rd: int, rs1: int, rs2: int)
    requires
        0 <= f7 < 128,
        0 <= f3 < 8,
        0 <= rd < 32,
        0 <= rs1 < 32,
        0 <= rs2 < 32,
    ensures
        r_word(f7, f3, rd, rs1, rs2) % 128 == 0x33,
        r_word(f7, f3, rd, rs1, rs2) / 0x80 % 32 == rd,
        r_word(f7, f3, rd, rs1, rs2) / 0x1000 % 8 == f3,
        r_word(f7, f3, rd, rs1, rs2) / 0x8000 % 32 == rs1,
        r_word(f7, f3, rd, rs1, rs2) / 0x10_0000 % 32 == rs2,
        r_word(f7, f3, rd, rs1, rs2) / 0x200_0000 == f7,
{
    let w = r_word(f7, f3, rd, rs1, rs2);
    let q0 = f7 * 0x4_0000 + rs2 * 0x2000 + rs1 * 0x100 + f3 * 0x20 + rd;
    lemma_fundamental_div_mod_converse(w, 0x80, q0, 0x33);
    let q1 = f7 * 0x2000 + rs2 * 0x100 + rs1 * 0x8 + f3;
    lemma_fundamental_div_mod_converse(w, 0x1000, q1, rd * 0x80 + 0x33);
    let q2 = f7 * 0x400 + rs2 * 0x20 + rs1;
    lemma_fundamental_div_mod_converse(w, 0x8000, q2, f3 * 0x1000 + rd * 0x80 + 0x33);
    let q3 = f7 * 0x20 + rs2;
    lemma_fundamental_div_mod_converse(w, 0x10_0000, q3, rs1 * 0x8000 + f3 * 0x1000 + rd * 0x80 + 0x33);
    lemma_fundamental_div_mod_converse(w, 0x200_0000, f7, rs2 * 0x10_0000 + rs1 * 0x8000 + f3 * 0x1000 + rd * 0x80 + 0x33);
    lemma_fundamental_div_mod_converse(q0, 32, f7 * 0x2000 + rs2 * 0x100 + rs1 * 0x8 + f3, rd);
    lemma_fundamental_div_mod_converse(q1, 8, f7 * 0x400 + rs2 * 0x20 + rs1, f3);
    lemma_fundamental_div_mod_converse(q2, 32, f7 * 0x20 + rs2, rs1);
    lemma_fundamental_div_mod_converse(q3, 32, f7, rs2);
}

/// The branch offset a B-type word encodes, read back from its bits as the
/// ISA lays them out: imm[12] in bit 31, imm[10:5] in bits 25..31, imm[4:1]
/// in bits 8..12 and imm[11] in bit 7, sign-extended from bit 12.
pub open spec fn b_word_offset(w: int) -> int {
    let imm = (w / 0x8000_0000 % 2) * 4096 + (w / 0x80 % 2) * 2048 + (w / 0x200_0000 % 64) * 32 + (w / 0x100 % 16) * 2;
    if imm >= 4096 { imm - 8192 } else { imm }
}

/// A B-type word carries the branch opcode, its funct3 and registers, and
/// reads back exactly the even offset it was built with.
pub proof fn lemma_b_word_fields(f3: int, rs1: int, rs2: int, off: int)
    requires
        0 <= f3 < 8,
        0 <= rs1 < 32,
        0 <= rs2 < 32,
        -4096 <= off < 4096,
        off % 2 == 0,
    ensures
        b_word(f3, rs1, rs2, off) % 128 == 0x63,
        b_word(f3, rs1, rs2, off) / 0x1000 % 8 == f3,
        b_word(f3, rs1, rs2, off) / 0x8000 % 32 == rs1,
        b_word(f3, rs1, rs2, off) / 0x10_0000 % 32 == rs2,
        b_word_offset(b_word(f3, rs1, rs2, off)) == off,
{
    let u = if off < 0 { off + 8192 } else { off };
    let a = u / 4096 % 2;
    let b = u / 32 % 64;
    let c = u / 2 % 16;
    let d = u / 2048 % 2;
    assert(u == a * 4096 + d * 2048 + b * 32 + c * 2) by (nonlinear_arith)
        requires
            0 <= u < 8192,
            u % 2 == 0,
            a == u / 4096 % 2,
            b == u / 32 % 64,
            c == u / 2 % 16,
            d == u / 2048 % 2,
    ;
    let w = b_word(f3, rs1, rs2, off);
    assert(w == a * 0x8000_0000 + b * 0x200_0000 + rs2 * 0x10_0000 + rs1 * 0x8000 + f3 * 0x1000 + c * 0x100 + d * 0x80 + 0x63);
    let low = rs2 * 0x10_0000 + rs1 * 0x8000 + f3 * 0x1000 + c * 0x100 + d * 0x80 + 0x63;
    // opcode and imm[11]
    let q0 = a * 0x100_0000 + b * 0x4_0000 + rs2 * 0x2000 + rs1 * 0x100 + f3 * 0x20 + c * 2 + d;
    lemma_fundamental_div_mod_converse(w, 0x80, q0, 0x63);
    lemma_fundamental_div_mod_converse(q0, 2, a * 0x80_0000 + b * 0x2_0000 + rs2 * 0x1000 + rs1 * 0x80 + f3 * 0x10 + c, d);
    // imm[4:1]
    let q1 = a * 0x80_0000 + b * 0x2_0000 + rs2 * 0x1000 + rs1 * 0x80 + f3 * 0x10 + c;
    lemma_fundamental_div_mod_converse(w, 0x100, q1, d * 0x80 + 0x63);
    lemma_fundamental_div_mod_converse(q1, 16, a * 0x8_0000 + b * 0x2000 + rs2 * 0x100 + rs1 * 0x8 + f3, c);
    // funct3, rs1, rs2
    let q2 = a * 0x8_0000 + b * 0x2000 + rs2 * 0x100 + rs1 * 0x8 + f3;
    lemma_fundamental_div_mod_converse(w, 0x1000, q2, c * 0x100 + d * 0x80 + 0x63);
    lemma_fundamental_div_mod_converse(q2, 8, a * 0x1_0000 + b * 0x400 + rs2 * 0x20 + rs1, f3);
    let q3 = a * 0x1_0000 + b * 0x400 + rs2 * 0x20 + rs1;
    lemma_fundamental_div_mod_converse(w, 0x8000, q3, f3 * 0x1000 + c * 0x100 + d * 0x80 + 0x63);
    lemma_fundamental_div_mod_converse(q3, 32, a * 0x800 + b * 0x20 + rs2, rs1);
    let q4 = a * 0x800 + b * 0x20 + rs2;
    lemma_fundamental_div_mod_converse(w, 0x10_0000, q4, rs1 * 0x8000 + f3 * 0x1000 + c * 0x100 + d * 0x80 + 0x63);
    lemma_fundamental_div_mod_converse(q4, 32, a * 0x40 + b, rs2);
    // imm[10:5] and imm[12]
    let q5 = a * 0x40 + b;
    lemma_fundamental_div_mod_converse(w, 0x200_0000, q5, low);
    lemma_fundamental_div_mod_converse(q5, 64, a, b);
    lemma_fundamental_div_mod_converse(w, 0x8000_0000, a, b * 0x200_0000 + low);
    lemma_fundamental_div_mod_converse(a, 2, 0, a);
}

/// The jump offset a J-type word encodes, read back from its bits as the
/// ISA lays them out: imm[20] in bit 31, imm[10:1] in bits 21..31, imm[11]
/// in bit 20 and imm[19:12] in bits 12..20, sign-extended from bit 20.
pub open spec fn j_word_offset(w: int) -> int {
    let imm = (w / 0x8000_0000 % 2) * 0x10_0000 + (w / 0x1000 % 256) * 4096 + (w / 0x10_0000 % 2) * 2048 + (w / 0x20_0000
        % 1024) * 2;
    if imm >= 0x10_0000 { imm - 0x20_0000 } else { imm }
}

/// A J-type word carries the `jal` opcode and its link register, and reads
/// back exactly the even offset it was built with.
pub proof fn lemma_j_word_fields(rd: int, off: int)
    requires
        0 <= rd < 32,
        -0x10_0000 <= off < 0x10_0000,
        off % 2 == 0,
    ensures
        j_word(rd, off) % 128 == 0x6f,
        j_word(rd, off) / 0x80 % 32 == rd,
        j_word_offset(j_word(rd, off)) == off,
{
    let u = if off < 0 { off + 0x20_0000 } else { off };
    let a = u / 0x10_0000 % 2;
    let b = u / 2 % 1024;
    let d = u / 2048 % 2;
    let e = u / 4096 % 256;
    assert(u == a * 0x10_0000 + e * 4096 + d * 2048 + b * 2) by (nonlinear_arith)
        requires
            0 <= u < 0x20_0000,
            u % 2 == 0,
            a == u / 0x10_0000 % 2,
            b == u / 2 % 1024,
            d == u / 2048 % 2,
            e == u / 4096 % 256,
    ;
    let w = j_word(rd, off);
    assert(w == a * 0x8000_0000 + b * 0x20_0000 + d * 0x10_0000 + e * 0x1000 + rd * 0x80 + 0x6f);
    let q0 = a * 0x100_0000 + b * 0x4000 + d * 0x2000 + e * 0x20 + rd;
    lemma_fundamental_div_mod_converse(w, 0x80, q0, 0x6f);
    lemma_fundamental_div_mod_converse(q0, 32, a * 0x8_0000 + b * 0x200 + d * 0x100 + e, rd);
    let q1 = a * 0x8_0000 + b * 0x200 + d * 0x100 + e;
    lemma_fundamental_div_mod_converse(w, 0x1000, q1, rd * 0x80 + 0x6f);
    lemma_fundamental_div_mod_converse(q1, 256, a * 0x800 + b * 2 + d, e);
    let q2 = a * 0x800 + b * 2 + d;
    lemma_fundamental_div_mod_converse(w, 0x10_0000, q2, e * 0x1000 + rd * 0x80 + 0x6f);
    lemma_fundamental_div_mod_converse(q2, 2, a * 0x400 + b, d);
    let q3 = a * 0x400 + b;
    lemma_fundamental_div_mod_converse(w, 0x20_0000, q3, d * 0x10_0000 + e * 0x1000 + rd * 0x80 + 0x6f);
    lemma_fundamental_div_mod_converse(q3, 1024, a, b);
    lemma_fundamental_div_mod_converse(w, 0x8000_0000, a, b * 0x20_0000 + d * 0x10_0000 + e * 0x1000 + rd * 0x80 + 0x6f);
    lemma_fundamental_div_mod_converse(a, 2, 0, a);
}

/// A 12-bit immediate field read back as a signed number.
pub open spec fn sext12(u: int) -> int {
    if u >= 2048 { u - 4096 } else { u }
}

/// An I-type word carries its opcode, registers and funct3, and reads back
/// exactly the signed 12-bit immediate it was built with, in bits 20..32.
pub proof fn lemma_i_word_fields(opcode: int, f3: int, rd: int, rs1: int, imm: int)
    requires
        0 <= opcode < 128,
        0 <= f3 < 8,
        0 <= rd < 32,
        0 <= rs1 < 32,
        -2048 <= imm < 2048,
    ensures
        i_word(opcode, f3, rd, rs1, imm) % 128 == opcode,
        i_word(opcode, f3, rd, rs1, imm) / 0x80 % 32 == rd,
        i_word(opcode, f3, rd, rs1, imm) / 0x1000 % 8 == f3,
        i_word(opcode, f3, rd, rs1, imm) / 0x8000 % 32 == rs1,
        sext12(i_word(opcode, f3, rd, rs1, imm) / 0x10_0000) == imm,
{
    let u = field12(imm);
    let w = i_word(opcode, f3, rd, rs1, imm);
    let q0 = u * 0x2000 + rs1 * 0x100 + f3 * 0x20 + rd;
    lemma_fundamental_div_mod_converse(w, 0x80, q0, opcode);
    lemma_fundamental_div_mod_converse(q0, 32, u * 0x100 + rs1 * 0x8 + f3, rd);
    let q1 = u * 0x100 + rs1 * 0x8 + f3;
    lemma_fundamental_div_mod_converse(w, 0x1000, q1, rd * 0x80 + opcode);
    lemma_fundamental_div_mod_converse(q1, 8, u * 0x20 + rs1, f3);
    let q2 = u * 0x20 + rs1;
    lemma_fundamental_div_mod_converse(w, 0x8000, q2, f3 * 0x1000 + rd * 0x80 + opcode);
    lemma_fundamental_div_mod_converse(q2, 32, u, rs1);
    lemma_fundamental_div_mod_converse(w, 0x10_0000, u, rs1 * 0x8000 + f3 * 0x1000 + rd * 0x80 + opcode);
}

/// An S-type word carries the store opcode, registers and funct3, and
/// reads back exactly its signed 12-bit offset, split as imm[11:5] in bits
/// 25..32 and imm[4:0] in bits 7..12.
pub proof fn lemma_s_word_fields(f3: int, rs1: int, rs2: int, imm: int)
    requires
        0 <= f3 < 8,
        0 <= rs1 < 32,
        0 <= rs2 < 32,
        -2048 <= imm < 2048,
    ensures
        s_word(f3, rs1, rs2, imm) % 128 == 0x23,
        s_word(f3, rs1, rs2, imm) / 0x1000 % 8 == f3,
        s_word(f3, rs1, rs2, imm) / 0x8000 % 32 == rs1,
        s_word(f3, rs1, rs2, imm) / 0x10_0000 % 32 == rs2,
        sext12(s_word(f3, rs1, rs2, imm) / 0x200_0000 * 32 + s_word(f3, rs1, rs2, imm) / 0x80 % 32) == imm,
{
    let u = field12(imm);
    let hi = u / 32;
    let lo = u % 32;
    let w = s_word(f3, rs1, rs2, imm);
    let q0 = hi * 0x4_0000 + rs2 * 0x2000 + rs1 * 0x100 + f3 * 0x20 + lo;
    lemma_fundamental_div_mod_converse(w, 0x80, q0, 0x23);
    lemma_fundamental_div_mod_converse(q0, 32, hi * 0x2000 + rs2 * 0x100 + rs1 * 0x8 + f3, lo);
    let q1 = hi * 0x2000 + rs2 * 0x100 + rs1 * 0x8 + f3;
    lemma_fundamental_div_mod_converse(w, 0x1000, q1, lo * 0x80 + 0x23);
    lemma_fundamental_div_mod_converse(q1, 8, hi * 0x400 + rs2 * 0x20 + rs1, f3);
    let q2 = hi * 0x400 + rs2 * 0x20 + rs1;
    lemma_fundamental_div_mod_converse(w, 0x8000, q2, f3 * 0x1000 + lo * 0x80 + 0x23);
    lemma_fundamental_div_mod_converse(q2, 32, hi * 0x20 + rs2, rs1);
    let q3 = hi * 0x20 + rs2;
    lemma_fundamental_div_mod_converse(w, 0x10_0000, q3, rs1 * 0x8000 + f3 * 0x1000 + lo * 0x80 + 0x23);
    lemma_fundamental_div_mod_converse(q3, 32, hi, rs2);
    lemma_fundamental_div_mod_converse(w, 0x200_0000, hi, rs2 * 0x10_0000 + rs1 * 0x8000 + f3 * 0x1000 + lo * 0x80 + 0x23);
    lemma_fundamental_div_mod_converse(u, 32, hi, lo);
}

/// Offsets a conditional branch reaches directly.
pub open spec fn branch_in_range(off: int) -> bool {
    -4096 <= off <= 4094 && off % 2 == 0
}

/// Offsets a `jal` reaches directly.
pub open spec fn jump_in_range(off: int) -> bool {
    -0x10_0000 <= off < 0x10_0000 && off % 2 == 0
}

pub fn encode_r_type(f7: u32, f3: u32, rd: u32, rs1: u32, rs2: u32) -> (w: u32)
    requires
        f7 < 128,
        f3 < 8,
        rd < 32,
        rs1 < 32,
        rs2 < 32,
    ensures
        w as int == r_word(f7 as int, f3 as int, rd as int, rs1 as int, rs2 as int),
{
    let v: u64 = (f7 as u64) * 0x200_0000 + (rs2 as u64) * 0x10_0000 + (rs1 as u64) * 0x8000 + (f3 as u64) * 0x1000
        + (rd as u64) * 0x80 + 0x33;
    v as u32
}

pub fn encode_i_type(opcode: u32, f3: u32, rd: u32, rs1: u32, imm: i64) -> (w: u32)
    requires
        opcode < 128,
        f3 < 8,
        rd < 32,
        rs1 < 32,
        small_signed(imm as int),
    ensures
        w as int == i_word(opcode as int, f3 as int, rd as int, rs1 as int, imm as int),
{
    let field: u64 = if imm < 0 { (imm + 4096) as u64 } else { imm as u64 };
    let v: u64 = field * 0x10_0000 + (rs1 as u64) * 0x8000 + (f3 as u64) * 0x1000 + (rd as u64) * 0x80 + (opcode as u64);
    v as u32
}

pub fn encode_s_type(f3: u32, rs1: u32, rs2: u32, imm: i64) -> (w: u32)
    requires
        f3 < 8,
        rs1 < 32,
        rs2 < 32,
        small_signed(imm as int),
    ensures
        w as int == s_word(f3 as int, rs1 as int, rs2 as int, imm as int),
{
    let u: u64 = if imm < 0 { (imm + 4096) as u64 } else { imm as u64 };
    let v: u64 = (u / 32) * 0x200_0000 + (rs2 as u64) * 0x10_0000 + (rs1 as u64) * 0x8000 + (f3 as u64) * 0x1000
        + (u % 32) * 0x80 + 0x23;
    v as u32
}

pub fn encode_b_type(f3: u32, rs1: u32, rs2: u32, off: i64) -> (w: u32)
    requires
        f3 < 8,
        rs1 < 32,
        rs2 < 32,
        branch_in_range(off as int),
    ensures
        w as int == b_word(f3 as int, rs1 as int, rs2 as int, off as int),
{
    let u: u64 = if off < 0 { (off + 8192) as u64 } else { off as u64 };
    let v: u64 = (u / 4096 % 2) * 0x8000_0000 + (u / 32 % 64) * 0x200_0000 + (rs2 as u64) * 0x10_0000 + (rs1 as u64)
        * 0x8000 + (f3 as u64) * 0x1000 + (u / 2 % 16) * 0x100 + (u / 2048 % 2) * 0x80 + 0x63;
    v as u32
}

pub fn encode_j_type(rd: u32, off: i64) -> (w: u32)
    requires
        rd < 32,
        jump_in_range(off as int),
    ensures
        w as int == j_word(rd as int, off as int),
{
    let u: u64 = if off < 0 { (off + 0x20_0000) as u64 } else { off as u64 };
    let v: u64 = (u / 0x10_0000 % 2) * 0x8000_0000 + (u / 2 % 1024) * 0x20_0000 + (u / 2048 % 2) * 0x10_0000 + (u
        / 4096 % 256) * 0x1000 + (rd as u64) * 0x80 + 0x6f;
    v as u32
}

pub fn encode_u_type(opcode: u32, rd: u32, imm20: i64) -> (w: u32)
    requires
        opcode < 128,
        rd < 32,
        -0x8_0000 <= imm20 < 0x8_0000,
    ensures
        w as int == u_word(opcode as int, rd as int, imm20 as int),
{
    let field: u64 = if imm20 < 0 { (imm20 + 0x10_0000) as u64 } else { imm20 as u64 };
    let v: u64 = field * 0x1000 + (rd as u64) * 0x80 + (opcode as u64);
    v as u32
}

/// `ecall`.
pub fn encode_ecall() -> (w: u32)
    ensures
        w == 0x73,
{
    0x73
}

// ---------------------------------------------------------------------------
// Byte images
// ---------------------------------------------------------------------------

/// The four little-endian bytes of an instruction word.
pub open spec fn word_bytes(w: u32) -> Seq<u8> {
    seq![(w % 256) as u8, (w / 0x100 % 256) as u8, (w / 0x1_0000 % 256) as u8, (w / 0x100_0000) as u8]
}

/// The little-endian byte image of a word sequence.
pub open spec fn words_bytes(ws: Seq<u32>) -> Seq<u8>
    decreases ws.len(),
{
    if ws.len() == 0 {
        Seq::empty()
    } else {
        words_bytes(ws.drop_last()) + word_bytes(ws.last())
    }
}

pub fn push_word(bytes: &mut Vec<u8>, w: u32)
    ensures
        final(bytes)@ == old(bytes)@ + word_bytes(w),
{
    bytes.push((w % 256) as u8);
    bytes.push((w / 0x100 % 256) as u8);
    bytes.push((w / 0x1_0000 % 256) as u8);
    bytes.push((w / 0x100_0000) as u8);
    assert(bytes@ =~= old(bytes)@ + word_bytes(w));
}

pub fn push_words(bytes: &mut Vec<u8>, ws: &Vec<u32>)
    ensures
        final(bytes)@ == old(bytes)@ + words_bytes(ws@),
{
    let mut i: usize = 0;
    assert(ws@.subrange(0, 0) =~= Seq::<u32>::empty());
    assert(bytes@ =~= old(bytes)@ + words_bytes(ws@.subrange(0, 0)));
    while i < ws.len()
        invariant
            i <= ws@.len(),
            bytes@ == old(bytes)@ + words_bytes(ws@.subrange(0, i as int)),
        decreases ws@.len() - i,
    {
        assert(ws@.subrange(0, i + 1).drop_last() =~= ws@.subrange(0, i as int));
        push_word(bytes, ws[i]);
        assert(bytes@ =~= old(bytes)@ + words_bytes(ws@.subrange(0, i + 1)));
        i = i + 1;
    }
    assert(ws@.subrange(0, ws@.len() as int) =~= ws@);
}

/// The byte length of a word sequence's image.
pub proof fn lemma_words_bytes_len(ws: Seq<u32>)
    ensures
        words_bytes(ws).len() == 4 * ws.len(),
    decreases ws.len(),
{
    if ws.len() > 0 {
        lemma_words_bytes_len(ws.drop_last());
    }
}

// ---------------------------------------------------------------------------
// `li`
// ---------------------------------------------------------------------------

/// One step of a `li` sequence; every step writes the destination register.
pub enum LiStep {
    /// `lui rd, imm20`
    Lui { imm20: int },
    /// `addi rd, zero, imm`
    AddiZero { imm: int },
    /// `addi rd, rd, imm`
    Addi { imm: int },
    /// `slli rd, rd, 8`
    ShiftByte,
}

/// The instruction word of a step writing `rd`.
pub open spec fn step_word(rd: int, s: LiStep) -> int {
    match s {
        LiStep::Lui { imm20 } => u_word(0x37, rd, imm20),
        LiStep::AddiZero { imm } => i_word(0x13, 0, rd, 0, imm),
        LiStep::Addi { imm } => i_word(0x13, 0, rd, rd, imm),
        LiStep::ShiftByte => i_word(0x13, 1, rd, rd, 8),
    }
}

/// What the destination register holds after a step, given what it held before.
pub open spec fn step_value(acc: int, s: LiStep) -> int {
    match s {
        LiStep::Lui { imm20 } => (imm20 * 4096) % reg_mod(),
        LiStep::AddiZero { imm } => imm % reg_mod(),
        LiStep::Addi { imm } => (acc + imm) % reg_mod(),
        LiStep::ShiftByte => (acc * 256) % reg_mod(),
    }
}

/// What the destination register holds after the steps, starting from `acc`.
pub open spec fn run_steps(acc: int, steps: Seq<LiStep>) -> int
    decreases steps.len(),
{
    if steps.len() == 0 {
        acc
    } else {
        step_value(run_steps(acc, steps.drop_last()), steps.last())
    }
}

/// `u` shifted right by `8 * k` bits.
pub open spec fn shifted(u: int, k: nat) -> int
    decreases k,
{
    if k == 0 {
        u
    } else {
        shifted(u, (k - 1) as nat) / 256
    }
}

/// Values that a `lui` + `addi` pair reaches.
pub open spec fn lui_range(v: int) -> bool {
    -0x8000_0000 <= v < 0x7fff_f800
}

/// The upper part of a `lui` + `addi` pair.
pub open spec fn lui_hi(v: int) -> int {
    (v + 2048) / 4096
}

/// Steps that build `shifted(u, k)` one byte at a time, from the top byte down.
pub open spec fn wide_steps(u: int, k: nat) -> Seq<LiStep>
    decreases 7 - k,
{
    if k >= 7 {
        seq![LiStep::AddiZero { imm: shifted(u, 7) }]
    } else {
        wide_steps(u, k + 1) + seq![LiStep::ShiftByte, LiStep::Addi { imm: shifted(u, k) % 256 }]
    }
}

/// The steps that `li rd, v` assembles to.
pub open spec fn li_steps(v: int) -> Seq<LiStep> {
    if small_signed(v) {
        seq![LiStep::AddiZero { imm: v }]
    } else if lui_range(v) {
        seq![LiStep::Lui { imm20: lui_hi(v) }, LiStep::Addi { imm: v - lui_hi(v) * 4096 }]
    } else {
        wide_steps(v % reg_mod(), 0)
    }
}

/// The byte length of `li rd, v`.
pub open spec fn li_size(v: int) -> int {
    if small_signed(v) {
        4
    } else if lui_range(v) {
        8
    } else {
        60
    }
}

pub open spec fn li_words(rd: int, v: int) -> Seq<u32> {
    li_steps(v).map_values(|s: LiStep| step_word(rd, s) as u32)
}

proof fn lemma_shifted_bound(u: int, k: nat)
    requires
        0 <= u < reg_mod(),
        k <= 7,
    ensures
        0 <= shifted(u, k),
        k == 0 ==> shifted(u, k) < reg_mod(),
        k == 1 ==> shifted(u, k) < 0x100_0000_0000_0000,
        k == 2 ==> shifted(u, k) < 0x1_0000_0000_0000,
        k == 3 ==> shifted(u, k) < 0x100_0000_0000,
        k == 4 ==> shifted(u, k) < 0x1_0000_0000,
        k == 5 ==> shifted(u, k) < 0x100_0000,
        k == 6 ==> shifted(u, k) < 0x1_0000,
        k == 7 ==> shifted(u, k) < 0x100,
    decreases k,
{
    if k > 0 {
        lemma_shifted_bound(u, (k - 1) as nat);
    }
}

/// The wide steps build `shifted(u, k)`.
proof fn lemma_wide_steps(u: int, k: nat, acc: int)
    requires
        0 <= u < reg_mod(),
        k <= 7,
    ensures
        run_steps(acc, wide_steps(u, k)) == shifted(u, k),
        wide_steps(u, k).len() == 1 + 2 * (7 - k),
    decreases 7 - k,
{
    lemma_shifted_bound(u, k);
    lemma_shifted_bound(u, 7);
    if k >= 7 {
        let s = wide_steps(u, k);
        assert(s.drop_last() =~= Seq::<LiStep>::empty());
        assert(s.last() == LiStep::AddiZero { imm: shifted(u, 7) });
        vstd::arithmetic::div_mod::lemma_small_mod(shifted(u, 7) as nat, reg_mod() as nat);
        assert(run_steps(acc, s) == step_value(run_steps(acc, s.drop_last()), s.last()));
    } else {
        lemma_wide_steps(u, k + 1, acc);
        lemma_shifted_bound(u, k + 1);
        let prev = wide_steps(u, k + 1);
        let s = wide_steps(u, k);
        let mid = prev.push(LiStep::ShiftByte);
        assert(s.drop_last() =~= mid);
        assert(mid.drop_last() =~= prev);
        let hi = shifted(u, k + 1);
        let x = shifted(u, k);
        assert(hi == x / 256);
        assert(x == hi * 256 + x % 256);
        assert(hi * 256 < reg_mod());
        vstd::arithmetic::div_mod::lemma_small_mod((hi * 256) as nat, reg_mod() as nat);
        vstd::arithmetic::div_mod::lemma_small_mod(x as nat, reg_mod() as nat);
        assert(run_steps(acc, mid) == step_value(run_steps(acc, prev), LiStep::ShiftByte));
        assert(run_steps(acc, mid) == hi * 256);
        assert(s.last() == LiStep::Addi { imm: x % 256 });
        assert(run_steps(acc, s) == step_value(run_steps(acc, mid), LiStep::Addi { imm: x % 256 }));
    }
}

/// `li rd, v` leaves exactly `v` (modulo 2^64) in the destination register.
pub proof fn lemma_li_materializes(v: int, acc: int)
    requires
        imm_min() <= v <= imm_max(),
    ensures
        run_steps(acc, li_steps(v)) == v % reg_mod(),
        li_steps(v).len() * 4 == li_size(v),
{
    let s = li_steps(v);
    if small_signed(v) {
        assert(s.drop_last() =~= Seq::<LiStep>::empty());
    } else if lui_range(v) {
        let hi = lui_hi(v);
        let lo = v - hi * 4096;
        assert(s.drop_last().drop_last() =~= Seq::<LiStep>::empty());
        assert(s.drop_last() =~= seq![LiStep::Lui { imm20: hi }]);
        vstd::arithmetic::div_mod::lemma_add_mod_noop_right(lo, hi * 4096, reg_mod());
        assert(run_steps(acc, s.drop_last()) == (hi * 4096) % reg_mod());
        assert(run_steps(acc, s) == ((hi * 4096) % reg_mod() + lo) % reg_mod());
        assert(hi * 4096 + lo == v);
    } else {
        let u = v % reg_mod();
        lemma_wide_steps(u, 0, acc);
        assert(shifted(u, 0) == u);
    }
}

/// Appends the words of `li rd, value` to `bytes`: one `addi` for 12-bit
/// values, `lui` + `addi` for values a 32-bit pair reaches, and otherwise a
/// fixed fifteen-instruction byte-at-a-time sequence. Fails for a register
/// outside `x0..x31` or a value outside the 64-bit range.
pub fn encode_li_sequence(bytes: &mut Vec<u8>, rd: u32, value: i128) -> (r: Result<(), CompileError>)
    ensures
        r is Ok <==> rd < 32 && imm_min() <= value <= imm_max(),
        r is Ok ==> final(bytes)@ == old(bytes)@ + words_bytes(li_words(rd as int, value as int)),
        r is Err ==> final(bytes)@ == old(bytes)@,
{
    if rd >= 32 {
        return Err(CompileError::from_str_message("li destination register is out of range"));
    }
    if value < -0x8000_0000_0000_0000i128 || value > 0xffff_ffff_ffff_ffffi128 {
        return Err(CompileError::from_str_message("li immediate is out of range"));
    }
    let ws = li_word_list(rd, value);
    push_words(bytes, &ws);
    Ok(())
}

/// The words of `li rd, value`.
pub fn li_word_list(rd: u32, value: i128) -> (ws: Vec<u32>)
    requires
        rd < 32,
        imm_min() <= value <= imm_max(),
    ensures
        ws@ == li_words(rd as int, value as int),
{
    let ghost v = value as int;
    let mut ws: Vec<u32> = Vec::new();
    if -2048 <= value && value <= 2047 {
        ws.push(encode_i_type(0x13, 0, rd, 0, value as i64));
        assert(ws@ =~= li_words(rd as int, v));
        return ws;
    }
    if -0x8000_0000i128 <= value && value < 0x7fff_f800i128 {
        let t: i128 = value + 2048 + 0x8000_0000;
        let hi: i64 = (t / 4096) as i64 - 0x8_0000;
        assert(hi == lui_hi(v));
        let lo: i64 = (value - (hi as i128) * 4096) as i64;
        ws.push(encode_u_type(0x37, rd, hi));
        ws.push(encode_i_type(0x13, 0, rd, rd, lo));
        assert(ws@ =~= li_words(rd as int, v));
        return ws;
    }
    let u: u64 = if value < 0 { (value + 0x1_0000_0000_0000_0000i128) as u64 } else { value as u64 };
    assert(u as int == v % reg_mod());
    // shifts[k] == shifted(u, k)
    let mut shifts: Vec<u64> = Vec::new();
    let mut cur: u64 = u;
    let mut k: usize = 0;
    while k < 8
        invariant
            k <= 8,
            shifts@.len() == k,
            cur as int == shifted(u as int, k as nat),
            forall|j: int| 0 <= j < k ==> shifts@[j] as int == shifted(u as int, j as nat),
        decreases 8 - k,
    {
        shifts.push(cur);
        cur = cur / 256;
        k = k + 1;
    }
    proof {
        lemma_shifted_bound(u as int, 7);
    }
    ws.push(encode_i_type(0x13, 0, rd, 0, shifts[7] as i64));
    let ghost words = |s: LiStep| step_word(rd as int, s) as u32;
    assert(ws@ =~= wide_steps(u as int, 7).map_values(words));
    let mut j: usize = 7;
    while j > 0
        invariant
            j <= 7,
            shifts@.len() == 8,
            forall|i: int| 0 <= i < 8 ==> shifts@[i] as int == shifted(u as int, i as nat),
            ws@ == wide_steps(u as int, j as nat).map_values(words),
            rd < 32,
            words == (|s: LiStep| step_word(rd as int, s) as u32),
        decreases j,
    {
        j = j - 1;
        let ghost before = ws@;
        let w1 = encode_i_type(0x13, 1, rd, rd, 8);
        let w2 = encode_i_type(0x13, 0, rd, rd, (shifts[j] % 256) as i64);
        ws.push(w1);
        ws.push(w2);
        proof {
            let tail = seq![LiStep::ShiftByte, LiStep::Addi { imm: shifted(u as int, j as nat) % 256 }];
            assert(wide_steps(u as int, j as nat) == wide_steps(u as int, (j + 1) as nat) + tail);
            assert(step_word(rd as int, LiStep::ShiftByte) == w1 as int);
            assert(w1 == words(LiStep::ShiftByte));
            assert(shifts@[j as int] % 256 == shifted(u as int, j as nat) % 256);
            assert(step_word(rd as int, LiStep::Addi { imm: shifted(u as int, j as nat) % 256 }) == w2 as int);
            assert(w2 == words(LiStep::Addi { imm: shifted(u as int, j as nat) % 256 }));
            assert(tail.map_values(words) =~= seq![w1, w2]);
            assert((wide_steps(u as int, (j + 1) as nat) + tail).map_values(words) =~= before + tail.map_values(words));
        }
        assert(ws@ =~= wide_steps(u as int, j as nat).map_values(words));
    }
    assert(ws@ =~= li_words(rd as int, v));
    ws
}

} // verus!
