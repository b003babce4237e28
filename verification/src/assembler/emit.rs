//! Encoding a machine layout plan into an ELF64 RISC-V executable: three
//! loadable segments (text, read-only data, data), each at a page boundary.

use vstd::prelude::*;
use crate::assembler::encode::{
    b_word, encode_b_type, encode_i_type, encode_j_type, encode_li_sequence, encode_r_type, encode_s_type,
    encode_u_type, i_word, j_word, jump_in_range, li_words, push_word, push_words, r_word, s_word, u_word, word_bytes,
    words_bytes, branch_in_range,
};
use crate::assembler::instr::{inst_ok, BranchSizeMode, InstView, Instruction};
use crate::assembler::layout::{find_label, label_index, max_text_size, short_branches_fit, text_offset, text_offsets};
use crate::assembler::parse::{byte_power, le_bytes, lines_view, ops_view, AsmOp, OpView, ParsedAssembly};
use crate::assembler::plan::{
    align_unit, align_up, data_offset, data_offsets, data_shape_ok, lemma_align_unit_pos, lemma_align_up_ge,
    lemma_data_offset_monotone, lemma_data_offset_nonneg, plan_matches, plan_outcome, text_shape_ok, MachineLayoutPlan,
};
use crate::assembler::syntax::{imm_max, imm_min};
use crate::error::CompileError;

verus! {

broadcast use vstd::std_specs::vec::group_vec_axioms;

/// Virtual address at which the file image is loaded.
pub const ELF_BASE: u64 = 0x10000;
pub const ELF_HEADER_SIZE: u64 = 64;
pub const ELF_PROGRAM_HEADER_SIZE: u64 = 56;
/// File offset (and alignment) of each segment.
pub const SEGMENT_ALIGN: u64 = 0x1000;

/// Where the sections land in the file.
pub struct ImageLayout {
    pub text: Seq<OpView>,
    pub rodata: Seq<OpView>,
    pub data: Seq<OpView>,
    pub text_size: int,
    pub rodata_size: int,
    pub data_size: int,
}

impl ImageLayout {
    pub open spec fn rodata_off(self) -> int {
        align_up(SEGMENT_ALIGN + self.text_size, SEGMENT_ALIGN as int)
    }

    pub open spec fn data_off(self) -> int {
        align_up(self.rodata_off() + self.rodata_size, SEGMENT_ALIGN as int)
    }

    /// The address of a label: text first, then read-only data, then data.
    pub open spec fn label_address(self, name: Seq<char>) -> Option<int> {
        match label_index(self.text, name) {
            Some(p) => Some(ELF_BASE + SEGMENT_ALIGN + text_offset(self.text, p)),
            None => match label_index(self.rodata, name) {
                Some(p) => Some(ELF_BASE + self.rodata_off() + data_offset(self.rodata, p)),
                None => match label_index(self.data, name) {
                    Some(p) => Some(ELF_BASE + self.data_off() + data_offset(self.data, p)),
                    None => None,
                },
            },
        }
    }
}

/// The layout of a plan's sections.
pub open spec fn plan_layout(p: ParsedAssembly) -> ImageLayout {
    let text = ops_view(p.text@);
    let rodata = ops_view(p.rodata@);
    let data = ops_view(p.data@);
    ImageLayout {
        text,
        rodata,
        data,
        text_size: text_offset(text, text.len() as int),
        rodata_size: data_offset(rodata, rodata.len() as int),
        data_size: data_offset(data, data.len() as int),
    }
}

/// The inverse condition of a branch funct3.
pub open spec fn inverse_f3(f3: u32) -> u32 {
    if f3 % 2 == 0 {
        (f3 + 1) as u32
    } else {
        (f3 - 1) as u32
    }
}

pub open spec fn one(w: int) -> Seq<u32> {
    seq![w as u32]
}

/// The words an instruction at `pc` assembles to, given its target's address.
pub open spec fn inst_words(i: InstView, pc: int, target: Option<int>) -> Option<Seq<u32>> {
    match i {
        InstView::Reg { f7, f3, rd, rs1, rs2 } => Some(one(r_word(f7 as int, f3 as int, rd as int, rs1 as int, rs2 as int))),
        InstView::Imm { f3, rd, rs1, imm } => Some(one(i_word(0x13, f3 as int, rd as int, rs1 as int, imm))),
        InstView::Load { f3, rd, rs1, imm } => Some(one(i_word(0x03, f3 as int, rd as int, rs1 as int, imm))),
        InstView::Store { f3, rs1, rs2, imm } => Some(one(s_word(f3 as int, rs1 as int, rs2 as int, imm))),
        InstView::Ret => Some(one(i_word(0x67, 0, 0, 1, 0))),
        InstView::Ecall => Some(one(0x73)),
        InstView::Li { rd, value } => Some(li_words(rd as int, value)),
        InstView::La { rd, .. } => match target {
            Some(a) => {
                let delta = a - pc;
                if -0x8000_0000 <= delta < 0x7fff_f800 {
                    let hi = (delta + 2048) / 4096;
                    Some(seq![u_word(0x17, rd as int, hi) as u32, i_word(0x13, 0, rd as int, rd as int, delta - hi * 4096) as u32])
                } else {
                    None
                }
            },
            None => None,
        },
        InstView::Jump { rd, .. } => match target {
            Some(a) => if jump_in_range(a - pc) { Some(one(j_word(rd as int, a - pc))) } else { None },
            None => None,
        },
        InstView::Branch { f3, rs1, rs2, mode, .. } => match target {
            Some(a) => if mode == BranchSizeMode::Short {
                if branch_in_range(a - pc) { Some(one(b_word(f3 as int, rs1 as int, rs2 as int, a - pc))) } else { None }
            } else {
                if jump_in_range(a - (pc + 4)) {
                    Some(seq![b_word(inverse_f3(f3) as int, rs1 as int, rs2 as int, 8) as u32, j_word(0, a - (pc + 4)) as u32])
                } else {
                    None
                }
            },
            None => None,
        },
    }
}

/// The label an instruction needs the address of.
pub open spec fn inst_target(i: InstView) -> Option<Seq<char>> {
    match i {
        InstView::Branch { target, .. } => Some(target),
        InstView::Jump { target, .. } => Some(target),
        InstView::La { target, .. } => Some(target),
        _ => None,
    }
}

/// The words of the first `k` text operations.
pub open spec fn text_words(l: ImageLayout, k: int) -> Option<Seq<u32>>
    decreases k,
{
    if k <= 0 {
        Some(Seq::empty())
    } else {
        match text_words(l, k - 1) {
            None => None,
            Some(ws) => match l.text[k - 1] {
                OpView::Instr(i) => {
                    let target = match inst_target(i) {
                        Some(t) => l.label_address(t),
                        None => None,
                    };
                    match inst_words(i, ELF_BASE + SEGMENT_ALIGN + text_offset(l.text, k - 1), target) {
                        Some(w) => Some(ws + w),
                        None => None,
                    }
                },
                _ => Some(ws),
            },
        }
    }
}

pub open spec fn zeros(n: int) -> Seq<u8> {
    Seq::new(n as nat, |i: int| 0u8)
}

/// The bytes of the first `k` operations of a data section.
pub open spec fn data_image(ops: Seq<OpView>, k: int) -> Seq<u8>
    decreases k,
{
    if k <= 0 {
        Seq::empty()
    } else {
        let img = data_image(ops, k - 1);
        match ops[k - 1] {
            OpView::Bytes(b) => img + b,
            OpView::Align(n) => img + zeros(align_up(img.len() as int, align_unit(n)) - img.len()),
            _ => img,
        }
    }
}

/// `v` as `n` little-endian bytes, modulo `256^n`.
pub open spec fn le(v: int, n: nat) -> Seq<u8> {
    le_bytes(v % byte_power(n), n)
}

pub open spec fn elf_header(entry: int) -> Seq<u8> {
    seq![0x7fu8, 0x45u8, 0x4cu8, 0x46u8, 2u8, 1u8, 1u8, 0u8] + zeros(8) + le(2, 2) + le(0xf3, 2) + le(1, 4) + le(entry, 8)
        + le(64, 8) + le(0, 8) + le(0, 4) + le(64, 2) + le(56, 2) + le(3, 2) + le(64, 2) + le(0, 2) + le(0, 2)
}

pub open spec fn program_header(flags: int, off: int, size: int) -> Seq<u8> {
    le(1, 4) + le(flags, 4) + le(off, 8) + le(ELF_BASE + off, 8) + le(ELF_BASE + off, 8) + le(size, 8) + le(size, 8)
        + le(SEGMENT_ALIGN as int, 8)
}

/// The whole executable image.
pub open spec fn elf_image(l: ImageLayout, entry: int, text: Seq<u8>, rodata: Seq<u8>, data: Seq<u8>) -> Seq<u8> {
    elf_header(entry) + program_header(5, SEGMENT_ALIGN as int, l.text_size) + program_header(4, l.rodata_off(), l.rodata_size)
        + program_header(6, l.data_off(), l.data_size) + zeros(SEGMENT_ALIGN - (ELF_HEADER_SIZE + 3 * ELF_PROGRAM_HEADER_SIZE))
        + text + zeros(l.rodata_off() - SEGMENT_ALIGN - l.text_size) + rodata + zeros(l.data_off() - l.rodata_off()
        - l.rodata_size) + data
}

/// Where execution starts: the entry label if it names text, else the start of the text.
pub open spec fn entry_address(p: ParsedAssembly) -> int {
    let l = plan_layout(p);
    match p.entry_label {
        Some(e) => match label_index(l.text, e@) {
            Some(k) => ELF_BASE + SEGMENT_ALIGN + text_offset(l.text, k),
            None => ELF_BASE + SEGMENT_ALIGN,
        },
        None => ELF_BASE + SEGMENT_ALIGN,
    }
}

/// The executable image a plan encodes to, if every jump and address in its
/// text reaches its target.
pub open spec fn plan_image(plan: MachineLayoutPlan) -> Option<Seq<u8>> {
    let l = plan_layout(plan.parsed);
    match text_words(l, plan.parsed.text@.len() as int) {
        Some(ws) => Some(elf_image(l, entry_address(plan.parsed), words_bytes(ws), data_image(l.rodata, l.rodata.len() as int),
            data_image(l.data, l.data.len() as int))),
        None => None,
    }
}

/// Two plans built from the same lines encode to the same image, or both fail
/// to encode.
pub proof fn lemma_plan_image_determined(lines: Seq<Seq<char>>, p1: MachineLayoutPlan, p2: MachineLayoutPlan)
    requires
        plan_matches(lines, p1),
        plan_matches(lines, p2),
    ensures
        plan_image(p1) == plan_image(p2),
{
    crate::assembler::plan::lemma_plan_determined(lines, p1, p2);
    assert(plan_layout(p1.parsed) == plan_layout(p2.parsed));
    assert(entry_address(p1.parsed) == entry_address(p2.parsed));
}

// ---------------------------------------------------------------------------
// Executable encoder
// ---------------------------------------------------------------------------

pub open spec fn opt_int(t: Option<i64>) -> Option<int> {
    match t {
        Some(a) => Some(a as int),
        None => None,
    }
}

/// The words of one instruction at `pc`.
pub fn inst_word_list(i: &Instruction, pc: i64, target: Option<i64>) -> (r: Option<Vec<u32>>)
    requires
        inst_ok(i.view()),
        0 <= pc <= 0x1_0000_0000,
        target matches Some(a) ==> 0 <= a <= 0x1_0000_0000,
    ensures
        r matches Some(ws) ==> inst_words(i.view(), pc as int, opt_int(target)) == Some(ws@),
        r is None ==> inst_words(i.view(), pc as int, opt_int(target)) is None,
{
    let mut ws: Vec<u32> = Vec::new();
    match i {
        Instruction::Reg { f7, f3, rd, rs1, rs2 } => {
            ws.push(encode_r_type(*f7, *f3, *rd, *rs1, *rs2));
        },
        Instruction::Imm { f3, rd, rs1, imm } => {
            ws.push(encode_i_type(0x13, *f3, *rd, *rs1, *imm));
        },
        Instruction::Load { f3, rd, rs1, imm } => {
            ws.push(encode_i_type(0x03, *f3, *rd, *rs1, *imm));
        },
        Instruction::Store { f3, rs1, rs2, imm } => {
            ws.push(encode_s_type(*f3, *rs1, *rs2, *imm));
        },
        Instruction::Ret => {
            ws.push(encode_i_type(0x67, 0, 0, 1, 0));
        },
        Instruction::Ecall => {
            ws.push(0x73);
        },
        Instruction::Li { rd, value } => {
            return Some(crate::assembler::encode::li_word_list(*rd, *value));
        },
        Instruction::La { rd, .. } => {
            let a = match target {
                Some(a) => a,
                None => return None,
            };
            let delta = a - pc;
            if !(-0x8000_0000i64 <= delta && delta < 0x7fff_f800i64) {
                return None;
            }
            let t: i64 = delta + 2048 + 0x8000_0000;
            let hi: i64 = t / 4096 - 0x8_0000;
            assert(hi == (delta + 2048) / 4096);
            ws.push(encode_u_type(0x17, *rd, hi));
            ws.push(encode_i_type(0x13, 0, *rd, *rd, delta - hi * 4096));
        },
        Instruction::Jump { rd, .. } => {
            let a = match target {
                Some(a) => a,
                None => return None,
            };
            let d = a - pc;
            if !(-0x10_0000i64 <= d && d < 0x10_0000i64 && d % 2 == 0) {
                return None;
            }
            ws.push(encode_j_type(*rd, d));
        },
        Instruction::Branch { f3, rs1, rs2, mode, .. } => {
            let a = match target {
                Some(a) => a,
                None => return None,
            };
            match mode {
                BranchSizeMode::Short => {
                    let d = a - pc;
                    if !(-4096i64 <= d && d <= 4094i64 && d % 2 == 0) {
                        return None;
                    }
                    ws.push(encode_b_type(*f3, *rs1, *rs2, d));
                },
                BranchSizeMode::Relaxed => {
                    let d = a - (pc + 4);
                    if !(-0x10_0000i64 <= d && d < 0x10_0000i64 && d % 2 == 0) {
                        return None;
                    }
                    let inv: u32 = if *f3 % 2 == 0 { *f3 + 1 } else { *f3 - 1 };
                    ws.push(encode_b_type(inv, *rs1, *rs2, 8));
                    ws.push(encode_j_type(0, d));
                },
            }
        },
    }
    assert(inst_words(i.view(), pc as int, opt_int(target)) == Some(ws@));
    Some(ws)
}

fn page_align(x: u64) -> (r: u64)
    requires
        x <= 0x1_0000_0000,
    ensures
        r as int == align_up(x as int, SEGMENT_ALIGN as int),
        x <= r <= x + 4095,
{
    let q = (x + 4095) / 4096;
    proof {
        vstd::arithmetic::div_mod::lemma_fundamental_div_mod((x + 4095) as int, 4096);
    }
    q * 4096
}

/// Offsets of a section's operations, with the section size last.
pub struct SectionOffsets {
    pub text: Vec<u64>,
    pub rodata: Vec<u64>,
    pub data: Vec<u64>,
    pub rodata_off: u64,
    pub data_off: u64,
}

pub open spec fn offsets_match(p: ParsedAssembly, o: SectionOffsets) -> bool {
    let l = plan_layout(p);
    &&& o.text@.len() == l.text.len() + 1
    &&& o.rodata@.len() == l.rodata.len() + 1
    &&& o.data@.len() == l.data.len() + 1
    &&& forall|k: int| 0 <= k <= l.text.len() ==> #[trigger] o.text@[k] as int == text_offset(l.text, k)
    &&& forall|k: int| 0 <= k <= l.rodata.len() ==> #[trigger] o.rodata@[k] as int == data_offset(l.rodata, k)
    &&& forall|k: int| 0 <= k <= l.data.len() ==> #[trigger] o.data@[k] as int == data_offset(l.data, k)
    &&& o.rodata_off as int == l.rodata_off()
    &&& o.data_off as int == l.data_off()
    &&& l.text_size <= max_text_size()
    &&& l.rodata_size <= max_text_size()
    &&& l.data_size <= max_text_size()
}

/// The address of a label.
fn resolve(p: &ParsedAssembly, o: &SectionOffsets, name: &String) -> (r: Option<i64>)
    requires
        offsets_match(*p, *o),
    ensures
        opt_int(r) == plan_layout(*p).label_address(name@),
        r matches Some(a) ==> 0 <= a <= 0x1_0000_0000,
{
    let ghost l = plan_layout(*p);
    proof {
        crate::assembler::layout::lemma_offset_monotone(l.text, 0, l.text.len() as int);
    }
    match find_label(&p.text, name) {
        Some(k) => {
            proof {
                crate::assembler::layout::lemma_offset_monotone(l.text, k as int, l.text.len() as int);
            }
            Some((ELF_BASE + SEGMENT_ALIGN + o.text[k]) as i64)
        },
        None => match find_label(&p.rodata, name) {
            Some(k) => {
                proof {
                    lemma_data_offset_monotone(l.rodata, k as int, l.rodata.len() as int);
                }
                Some((ELF_BASE + o.rodata_off + o.rodata[k]) as i64)
            },
            None => match find_label(&p.data, name) {
                Some(k) => {
                    proof {
                        lemma_data_offset_monotone(l.data, k as int, l.data.len() as int);
                    }
                    Some((ELF_BASE + o.data_off + o.data[k]) as i64)
                },
                None => None,
            },
        },
    }
}

/// Encodes the text: every instruction at its address, with label operands resolved.
pub fn encode_text(p: &ParsedAssembly, o: &SectionOffsets) -> (r: Result<Vec<u32>, CompileError>)
    requires
        offsets_match(*p, *o),
        text_shape_ok(plan_layout(*p).text),
    ensures
        r is Ok <==> text_words(plan_layout(*p), p.text@.len() as int) is Some,
        r matches Ok(ws) ==> text_words(plan_layout(*p), p.text@.len() as int) == Some(ws@),
        r matches Err(e) ==> e.message@ == "assembly jump or address target is out of range"@,
{
    let ghost l = plan_layout(*p);
    let n = p.text.len();
    let mut ws: Vec<u32> = Vec::new();
    let mut k: usize = 0;
    proof {
        crate::assembler::layout::lemma_offset_monotone(l.text, 0, n as int);
    }
    while k < n
        invariant
            k <= n,
            n == p.text@.len(),
            l == plan_layout(*p),
            offsets_match(*p, *o),
            text_shape_ok(l.text),
            text_words(l, k as int) == Some(ws@),
        decreases n - k,
    {
        if let AsmOp::Instr(inst) = &p.text[k] {
            assert(l.text[k as int] == OpView::Instr(inst.view()));
            let target: Option<i64> = match inst {
                Instruction::Branch { target, .. } | Instruction::Jump { target, .. } | Instruction::La { target, .. } => resolve(p, o, target),
                _ => None,
            };
            proof {
                crate::assembler::layout::lemma_offset_monotone(l.text, k as int, n as int);
            }
            let pc = (ELF_BASE + SEGMENT_ALIGN + o.text[k]) as i64;
            match inst_word_list(inst, pc, target) {
                Some(mut w) => {
                    ws.append(&mut w);
                },
                None => {
                    proof {
                        lemma_text_words_none(l, k as int + 1, n as int);
                    }
                    return Err(CompileError::from_str_message("assembly jump or address target is out of range"));
                },
            }
        }
        k = k + 1;
    }
    Ok(ws)
}

proof fn lemma_text_words_none(l: ImageLayout, k: int, n: int)
    requires
        0 <= k <= n,
        text_words(l, k) is None,
    ensures
        text_words(l, n) is None,
    decreases n - k,
{
    if k < n {
        lemma_text_words_none(l, k + 1, n);
    }
}

proof fn lemma_data_image_len(ops: Seq<OpView>, k: int)
    ensures
        data_image(ops, k).len() == data_offset(ops, k),
    decreases k,
{
    if k > 0 {
        lemma_data_image_len(ops, k - 1);
        if let OpView::Align(n) = ops[k - 1] {
            lemma_data_offset_nonneg(ops, k - 1);
            lemma_align_unit_pos(n);
            lemma_align_up_ge(data_offset(ops, k - 1), align_unit(n));
        }
    }
}

fn push_zeros(img: &mut Vec<u8>, count: u64)
    ensures
        final(img)@ == old(img)@ + zeros(count as int),
{
    let mut i: u64 = 0;
    while i < count
        invariant
            i <= count,
            img@ == old(img)@ + zeros(i as int),
        decreases count - i,
    {
        img.push(0u8);
        i = i + 1;
        assert(img@ =~= old(img)@ + zeros(i as int));
    }
}

/// The bytes of a data section: its data, with zero padding for alignment.
fn data_image_exec(ops: &Vec<AsmOp>) -> (r: Vec<u8>)
    requires
        data_shape_ok(ops_view(ops@)),
        data_offset(ops_view(ops@), ops@.len() as int) <= max_text_size(),
    ensures
        r@ == data_image(ops_view(ops@), ops@.len() as int),
{
    let ghost v = ops_view(ops@);
    let n = ops.len();
    let mut img: Vec<u8> = Vec::new();
    let mut k: usize = 0;
    while k < n
        invariant
            k <= n,
            n == ops@.len(),
            v == ops_view(ops@),
            data_shape_ok(v),
            data_offset(v, n as int) <= max_text_size(),
            img@ == data_image(v, k as int),
        decreases n - k,
    {
        proof {
            lemma_data_image_len(v, k as int);
            lemma_data_offset_monotone(v, k as int, n as int);
            lemma_data_offset_monotone(v, k as int + 1, n as int);
            lemma_data_image_len(v, k as int + 1);
        }
        match &ops[k] {
            AsmOp::Bytes(b) => {
                let mut c = b.clone();
                assert(c@ == b@);
                img.append(&mut c);
            },
            AsmOp::Align(a) => {
                assert(v[k as int] == OpView::Align(*a as int));
                let mut unit: u64 = 1;
                let mut j: u32 = 0;
                while j < *a
                    invariant
                        j <= *a <= 12,
                        unit as int == align_unit(j as int),
                        1 <= unit <= 4096,
                    decreases *a - j,
                {
                    unit = unit * 2;
                    j = j + 1;
                    assert(unit as int == align_unit(j as int));
                    assert(unit <= 4096) by {
                        crate::assembler::plan::lemma_align_unit_bound(j as int);
                    }
                }
                let len = img.len() as u64;
                let q = (len + unit - 1) / unit;
                proof {
                    vstd::arithmetic::div_mod::lemma_fundamental_div_mod((len + unit - 1) as int, unit as int);
                    assert(q * unit <= len + unit - 1) by (nonlinear_arith)
                        requires
                            (len + unit - 1) as int == unit * q + (len + unit - 1) as int % (unit as int),
                            (len + unit - 1) as int % (unit as int) >= 0,
                    ;
                    lemma_align_up_ge(len as int, unit as int);
                }
                let target = q * unit;
                push_zeros(&mut img, target - len);
            },
            _ => {},
        }
        k = k + 1;
    }
    img
}

fn push_le(img: &mut Vec<u8>, v: i128, n: u32)
    requires
        1 <= n <= 8,
        crate::assembler::parse::data_value_ok(v as int, n as nat),
    ensures
        final(img)@ == old(img)@ + le(v as int, n as nat),
{
    let mut b = crate::assembler::parse::le_bytes_exec(v, n);
    img.append(&mut b);
}

fn push_program_header(img: &mut Vec<u8>, flags: u32, off: u64, size: u64)
    requires
        off <= 0x1_0000_0000,
        size <= 0x1_0000_0000,
    ensures
        final(img)@ == old(img)@ + program_header(flags as int, off as int, size as int),
{
    proof {
        reveal_with_fuel(byte_power, 9);
    }
    let ghost start = img@;
    push_le(img, 1, 4);
    push_le(img, flags as i128, 4);
    push_le(img, off as i128, 8);
    push_le(img, (ELF_BASE + off) as i128, 8);
    push_le(img, (ELF_BASE + off) as i128, 8);
    push_le(img, size as i128, 8);
    push_le(img, size as i128, 8);
    push_le(img, SEGMENT_ALIGN as i128, 8);
    assert(img@ =~= start + program_header(flags as int, off as int, size as int));
}

fn push_elf_header(img: &mut Vec<u8>, entry: u64)
    requires
        entry <= 0x1_0000_0000,
    ensures
        final(img)@ == old(img)@ + elf_header(entry as int),
{
    proof {
        reveal_with_fuel(byte_power, 9);
    }
    let ghost start = img@;
    img.push(0x7f);
    img.push(0x45);
    img.push(0x4c);
    img.push(0x46);
    img.push(2);
    img.push(1);
    img.push(1);
    img.push(0);
    push_zeros(img, 8);
    push_le(img, 2, 2);
    push_le(img, 0xf3, 2);
    push_le(img, 1, 4);
    push_le(img, entry as i128, 8);
    push_le(img, 64, 8);
    push_le(img, 0, 8);
    push_le(img, 0, 4);
    push_le(img, 64, 2);
    push_le(img, 56, 2);
    push_le(img, 3, 2);
    push_le(img, 64, 2);
    push_le(img, 0, 2);
    push_le(img, 0, 2);
    assert(img@ =~= start + elf_header(entry as int));
}

/// Assembles lines into an ELF64 RISC-V executable with the internal
/// assembler: the machine layout plan, then text, read-only data and data
/// segments on page boundaries, entered at the entry label.
pub fn assemble_elf_internal(lines: &[String]) -> (r: Result<Vec<u8>, CompileError>)
    ensures
        r matches Ok(bytes) ==> plan_outcome(lines_view(lines@)) is Ok && exists|plan: MachineLayoutPlan|
            #[trigger] plan_matches(lines_view(lines@), plan) && plan_image(plan) == Some(bytes@),
        r matches Err(e) ==> plan_outcome(lines_view(lines@)) == Err::<(), Seq<char>>(e.message@) || (plan_outcome(
            lines_view(lines@)) is Ok && e.message@ == "assembly jump or address target is out of range"@ && exists|
            plan: MachineLayoutPlan| #[trigger] plan_matches(lines_view(lines@), plan) && plan_image(plan) is None),
{
    let plan = MachineLayoutPlan::build(lines)?;
    let p = &plan.parsed;
    let ghost l = plan_layout(*p);
    let toffs = match text_offsets(&p.text) {
        Ok(t) => t,
        Err(e) => {
            assert(false);
            return Err(e);
        },
    };
    let roffs = match data_offsets(&p.rodata) {
        Ok(x) => x,
        Err(e) => {
            assert(false);
            return Err(e);
        },
    };
    let doffs = match data_offsets(&p.data) {
        Ok(x) => x,
        Err(e) => {
            assert(false);
            return Err(e);
        },
    };
    let text_size = toffs[p.text.len()];
    let ro_size = roffs[p.rodata.len()];
    let d_size = doffs[p.data.len()];
    let ro_off = page_align(SEGMENT_ALIGN + text_size);
    let data_off = page_align(ro_off + ro_size);
    let o = SectionOffsets { text: toffs, rodata: roffs, data: doffs, rodata_off: ro_off, data_off };
    assert(offsets_match(*p, o));
    let words = match encode_text(p, &o) {
        Ok(ws) => ws,
        Err(e) => {
            assert(plan_matches(lines_view(lines@), plan) && plan_image(plan) is None);
            return Err(e);
        },
    };
    let mut text_bytes: Vec<u8> = Vec::new();
    push_words(&mut text_bytes, &words);
    assert(text_bytes@ =~= words_bytes(words@));
    let mut ro_img = data_image_exec(&p.rodata);
    let mut d_img = data_image_exec(&p.data);
    let entry: u64 = match &p.entry_label {
        Some(e) => match find_label(&p.text, e) {
            Some(k) => {
                proof {
                    crate::assembler::layout::lemma_offset_monotone(l.text, k as int, l.text.len() as int);
                }
                ELF_BASE + SEGMENT_ALIGN + o.text[k]
            },
            None => ELF_BASE + SEGMENT_ALIGN,
        },
        None => ELF_BASE + SEGMENT_ALIGN,
    };
    proof {
        lemma_data_image_len(l.rodata, l.rodata.len() as int);
        lemma_data_image_len(l.data, l.data.len() as int);
    }
    let mut img: Vec<u8> = Vec::new();
    push_elf_header(&mut img, entry);
    push_program_header(&mut img, 5, SEGMENT_ALIGN, text_size);
    push_program_header(&mut img, 4, ro_off, ro_size);
    push_program_header(&mut img, 6, data_off, d_size);
    push_zeros(&mut img, SEGMENT_ALIGN - (ELF_HEADER_SIZE + 3 * ELF_PROGRAM_HEADER_SIZE));
    img.append(&mut text_bytes);
    push_zeros(&mut img, ro_off - SEGMENT_ALIGN - text_size);
    img.append(&mut ro_img);
    push_zeros(&mut img, data_off - ro_off - ro_size);
    img.append(&mut d_img);
    assert(plan_matches(crate::assembler::parse::lines_view(lines@), plan));
    Ok(img)
}

} // verus!
