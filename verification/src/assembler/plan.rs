//! The machine layout plan of an assembly file: its parsed sections, the
//! relaxed text layout, machine blocks and edges, block order, data section
//! sizes and the shape metrics reported for the backend.

use vstd::prelude::*;
use crate::assembler::cfg::{
    blocks_count, blocks_size, blocks_view, build_blocks, build_edges, instr_count, label_block, label_block_exec,
    spec_blocks, spec_edges, BlockView, MachineBlock, MachineCfg, MachineCfgEdge, MachineCfgEdgeKind, MachineTerminator, TermView,
};
use crate::assembler::instr::{inst_ok, BranchSizeMode, InstView, Instruction};
use crate::assembler::layout::{
    check_labels, find_label, least_relaxation, relaxation_fits, label_error_from, label_index, max_text_size, relax_branches, relaxed_from,
    short_branches_fit, targets_resolved, text_offset, text_offsets,
};
use crate::assembler::order::{build_machine_layout_order, order_sum, MachineLayoutOrder};
use crate::assembler::parse::{data_width, ops_view, spec_parse_lines, AsmOp, OpView, ParseState, ParsedAssembly, SectionKind};
use crate::assembler::syntax::{spec_opcode, spec_operands, spec_parse_immediate, spec_strip_comment};
use crate::error::CompileError;

verus! {

broadcast use vstd::std_specs::vec::group_vec_axioms;

// ---------------------------------------------------------------------------
// Data sections
// ---------------------------------------------------------------------------

/// `2^n`.
pub open spec fn align_unit(n: int) -> int
    decreases n,
{
    if n <= 0 {
        1
    } else {
        2 * align_unit(n - 1)
    }
}

/// The least multiple of `a` that is at least `x`.
pub open spec fn align_up(x: int, a: int) -> int {
    ((x + a - 1) / a) * a
}

/// The byte offset of operation `k` of a data section.
pub open spec fn data_offset(ops: Seq<OpView>, k: int) -> int
    decreases k,
{
    if k <= 0 {
        0
    } else {
        let o = data_offset(ops, k - 1);
        match ops[k - 1] {
            OpView::Bytes(b) => o + b.len(),
            OpView::Align(n) => align_up(o, align_unit(n)),
            _ => o,
        }
    }
}

/// The byte size of a section.
pub open spec fn section_size_of(ops: Seq<OpView>, kind: SectionKind) -> int {
    match kind {
        SectionKind::Text => text_offset(ops, ops.len() as int),
        _ => data_offset(ops, ops.len() as int),
    }
}

pub proof fn lemma_align_unit_bound(n: int)
    requires
        0 <= n <= 12,
    ensures
        1 <= align_unit(n) <= 4096,
{
    reveal_with_fuel(align_unit, 13);
    if n == 0 {
    } else if n == 1 {
    } else if n == 2 {
    } else if n == 3 {
    } else if n == 4 {
    } else if n == 5 {
    } else if n == 6 {
    } else if n == 7 {
    } else if n == 8 {
    } else if n == 9 {
    } else if n == 10 {
    } else if n == 11 {
    } else {
    }
}

/// Data offsets never decrease.
pub proof fn lemma_data_offset_monotone(ops: Seq<OpView>, i: int, j: int)
    requires
        0 <= i <= j <= ops.len(),
    ensures
        0 <= data_offset(ops, i) <= data_offset(ops, j),
    decreases j - i,
{
    lemma_data_offset_nonneg(ops, i);
    if i < j {
        lemma_data_offset_monotone(ops, i, j - 1);
        lemma_data_offset_nonneg(ops, j - 1);
        let o = data_offset(ops, j - 1);
        if let OpView::Align(n) = ops[j - 1] {
            lemma_align_unit_pos(n);
            lemma_align_up_ge(o, align_unit(n));
        }
    }
}

pub proof fn lemma_data_offset_nonneg(ops: Seq<OpView>, k: int)
    ensures
        0 <= data_offset(ops, k),
    decreases k,
{
    if k > 0 {
        lemma_data_offset_nonneg(ops, k - 1);
        if let OpView::Align(n) = ops[k - 1] {
            lemma_align_unit_pos(n);
            lemma_align_up_ge(data_offset(ops, k - 1), align_unit(n));
        }
    }
}

pub proof fn lemma_align_unit_pos(n: int)
    ensures
        align_unit(n) >= 1,
    decreases n,
{
    if n > 0 {
        lemma_align_unit_pos(n - 1);
    }
}

pub proof fn lemma_align_up_ge(x: int, a: int)
    requires
        x >= 0,
    ensures
        a >= 1 ==> align_up(x, a) >= x,
{
    if a >= 1 {
        vstd::arithmetic::div_mod::lemma_fundamental_div_mod(x + a - 1, a);
        assert(((x + a - 1) / a) * a >= x) by (nonlinear_arith)
            requires
                x + a - 1 == a * ((x + a - 1) / a) + (x + a - 1) % a,
                0 <= (x + a - 1) % a < a,
        ;
    }
}

/// Offsets of every operation of a data section and, last, its size; fails
/// when the section grows beyond the size the assembler lays out.
pub fn data_offsets(ops: &Vec<AsmOp>) -> (r: Result<Vec<u64>, CompileError>)
    requires
        forall|k: int| 0 <= k < ops@.len() ==> (#[trigger] ops_view(ops@)[k] matches OpView::Align(n) ==> 0 <= n <= 12),
    ensures
        r matches Ok(offs) ==> offs@.len() == ops@.len() + 1 && data_offset(ops_view(ops@), ops@.len() as int)
            <= max_text_size() && forall|k: int| 0 <= k <= ops@.len() ==> #[trigger] offs@[k] as int == data_offset(
            ops_view(ops@), k),
        r is Err ==> data_offset(ops_view(ops@), ops@.len() as int) > max_text_size(),
        r matches Err(e) ==> e.message@ == "assembly data is too large"@,
{
    let ghost v = ops_view(ops@);
    let mut offs: Vec<u64> = Vec::new();
    let mut cur: u64 = 0;
    let mut k: usize = 0;
    while k < ops.len()
        invariant
            k <= ops@.len(),
            v == ops_view(ops@),
            forall|j: int| 0 <= j < ops@.len() ==> (#[trigger] v[j] matches OpView::Align(n) ==> 0 <= n <= 12),
            offs@.len() == k,
            cur as int == data_offset(v, k as int),
            cur <= 0x1000_0000,
            forall|j: int| 0 <= j < k ==> #[trigger] offs@[j] as int == data_offset(v, j),
        decreases ops@.len() - k,
    {
        offs.push(cur);
        let next: u64 = match &ops[k] {
            AsmOp::Bytes(b) => {
                if b.len() as u64 > 0x1000_0000 - cur {
                    proof {
                        lemma_data_offset_monotone(v, k as int + 1, ops@.len() as int);
                    }
                    return Err(CompileError::from_str_message("assembly data is too large"));
                }
                cur + b.len() as u64
            },
            AsmOp::Align(n) => {
                assert(v[k as int] == OpView::Align(*n as int));
                let mut a: u64 = 1;
                let mut j: u32 = 0;
                while j < *n
                    invariant
                        j <= *n <= 12,
                        a as int == align_unit(j as int),
                    decreases *n - j,
                {
                    proof {
                        lemma_align_unit_bound(j as int);
                    }
                    a = a * 2;
                    j = j + 1;
                }
                proof {
                    lemma_align_unit_bound(*n as int);
                }
                let t = cur + a - 1;
                let q = t / a;
                proof {
                    vstd::arithmetic::div_mod::lemma_fundamental_div_mod(t as int, a as int);
                    assert(q * a <= t) by (nonlinear_arith)
                        requires
                            t == a * q + t % a,
                            t % a >= 0,
                            a > 0,
                    ;
                }
                let up = q * a;
                if up > 0x1000_0000 {
                    proof {
                        lemma_data_offset_monotone(v, k as int + 1, ops@.len() as int);
                    }
                    return Err(CompileError::from_str_message("assembly data is too large"));
                }
                up
            },
            _ => cur,
        };
        cur = next;
        k = k + 1;
    }
    offs.push(cur);
    Ok(offs)
}

// ---------------------------------------------------------------------------
// Reachability
// ---------------------------------------------------------------------------

/// One pass over the edges in order, marking the target of every edge whose source is marked.
pub open spec fn mark_pass(marks: Seq<bool>, edges: Seq<MachineCfgEdge>, k: int) -> Seq<bool>
    decreases k,
{
    if k <= 0 {
        marks
    } else {
        let m = mark_pass(marks, edges, k - 1);
        let e = edges[k - 1];
        if (e.from as int) < m.len() && (e.to as int) < m.len() && m[e.from as int] {
            m.update(e.to as int, true)
        } else {
            m
        }
    }
}

pub open spec fn mark_rounds(marks: Seq<bool>, edges: Seq<MachineCfgEdge>, r: nat) -> Seq<bool>
    decreases r,
{
    if r == 0 {
        marks
    } else {
        mark_pass(mark_rounds(marks, edges, (r - 1) as nat), edges, edges.len() as int)
    }
}

/// The block where execution starts: the entry label's block, else the first block.
pub open spec fn entry_block(p: ParsedAssembly, cfg: MachineCfg) -> Option<int> {
    let named = match p.entry_label {
        Some(l) => label_block(blocks_view(cfg.blocks@), ops_view(p.text@), l@),
        None => None,
    };
    if named is Some {
        named
    } else if cfg.blocks@.len() > 0 {
        Some(0)
    } else {
        None
    }
}

pub open spec fn unmarked(marks: Seq<bool>, k: int) -> int
    decreases k,
{
    if k <= 0 {
        0
    } else {
        unmarked(marks, k - 1) + (if marks[k - 1] { 0int } else { 1int })
    }
}

/// Blocks that no path of at most as many passes as there are blocks reaches from the entry block.
pub open spec fn spec_unreachable(p: ParsedAssembly, cfg: MachineCfg) -> int {
    let nb = cfg.blocks@.len();
    let init = Seq::new(nb, |j: int| entry_block(p, cfg) == Some(j));
    let m = mark_rounds(init, cfg.edges@, nb);
    unmarked(m, nb as int)
}

fn mark_pass_exec(marks: &mut Vec<bool>, edges: &Vec<MachineCfgEdge>)
    ensures
        final(marks)@ == mark_pass(old(marks)@, edges@, edges@.len() as int),
        final(marks)@.len() == old(marks)@.len(),
{
    let mut k: usize = 0;
    while k < edges.len()
        invariant
            k <= edges@.len(),
            marks@ == mark_pass(old(marks)@, edges@, k as int),
            marks@.len() == old(marks)@.len(),
        decreases edges@.len() - k,
    {
        let e = edges[k];
        if e.from < marks.len() && e.to < marks.len() && marks[e.from] {
            marks.set(e.to, true);
        }
        k = k + 1;
    }
}

/// The number of blocks not reached from the entry block.
pub fn unreachable_machine_block_count(p: &ParsedAssembly, cfg: &MachineCfg) -> (r: usize)
    ensures
        r as int == spec_unreachable(*p, *cfg),
{
    let nb = cfg.blocks.len();
    let named = match &p.entry_label {
        Some(l) => label_block_exec(&cfg.blocks, &p.text, l),
        None => None,
    };
    let root: Option<usize> = if named.is_some() {
        named
    } else if nb > 0 {
        Some(0)
    } else {
        None
    };
    let mut marks: Vec<bool> = Vec::new();
    let mut j: usize = 0;
    while j < nb
        invariant
            j <= nb,
            nb == cfg.blocks@.len(),
            marks@.len() == j,
            forall|a: int| 0 <= a < j ==> #[trigger] marks@[a] == (root == Some(a as usize)),
        decreases nb - j,
    {
        marks.push(root == Some(j));
        j = j + 1;
    }
    let ghost init = Seq::new(nb as nat, |a: int| entry_block(*p, *cfg) == Some(a));
    assert(marks@ =~= init);
    let mut r: usize = 0;
    while r < nb
        invariant
            r <= nb,
            nb == cfg.blocks@.len(),
            marks@ == mark_rounds(init, cfg.edges@, r as nat),
            marks@.len() == nb,
        decreases nb - r,
    {
        mark_pass_exec(&mut marks, &cfg.edges);
        r = r + 1;
    }
    let mut count: usize = 0;
    let mut i: usize = 0;
    while i < nb
        invariant
            i <= nb,
            marks@.len() == nb,
            count as int == unmarked(marks@, i as int),
            count <= i,
        decreases nb - i,
    {
        if !marks[i] {
            count = count + 1;
        }
        i = i + 1;
    }
    count
}

// ---------------------------------------------------------------------------
// Metrics
// ---------------------------------------------------------------------------

/// The shape of an assembled program, as the backend reports it.
#[derive(Clone, Copy, Debug, PartialEq, Eq, Default)]
pub struct BackendShapeMetrics {
    pub text_size: usize,
    pub rodata_size: usize,
    pub data_size: usize,
    pub executable_text_op_count: usize,
    pub covered_text_op_count: usize,
    pub machine_block_count: usize,
    pub machine_cfg_edge_count: usize,
    pub machine_call_edge_count: usize,
    pub conditional_branch_block_count: usize,
    pub relaxed_branch_count: usize,
    pub max_cond_branch_abs_distance: usize,
    pub max_machine_block_size: usize,
    pub unreachable_machine_block_count: usize,
    pub layout_order_block_count: usize,
    pub layout_order_text_size: usize,
}

pub open spec fn call_edge_count(es: Seq<MachineCfgEdge>, k: int) -> int
    decreases k,
{
    if k <= 0 {
        0
    } else {
        call_edge_count(es, k - 1) + (if es[k - 1].kind == MachineCfgEdgeKind::Call { 1int } else { 0int })
    }
}

pub open spec fn cond_block_count(bs: Seq<BlockView>, k: int) -> int
    decreases k,
{
    if k <= 0 {
        0
    } else {
        cond_block_count(bs, k - 1) + (if bs[k - 1].term is ConditionalBranch { 1int } else { 0int })
    }
}

pub open spec fn max_block_size(bs: Seq<BlockView>, k: int) -> int
    decreases k,
{
    if k <= 0 {
        0
    } else {
        let m = max_block_size(bs, k - 1);
        if bs[k - 1].byte_size > m { bs[k - 1].byte_size } else { m }
    }
}

pub open spec fn relaxed_count(ops: Seq<OpView>, k: int) -> int
    decreases k,
{
    if k <= 0 {
        0
    } else {
        relaxed_count(ops, k - 1) + (if ops[k - 1] matches OpView::Instr(InstView::Branch { mode, .. }) && mode
            == BranchSizeMode::Relaxed { 1int } else { 0int })
    }
}

/// The distance a branch at `k` covers to its target.
pub open spec fn branch_distance(ops: Seq<OpView>, k: int) -> int {
    match ops[k] {
        OpView::Instr(InstView::Branch { target, .. }) => match label_index(ops, target) {
            Some(p) => {
                let d = text_offset(ops, p) - text_offset(ops, k);
                if d < 0 { -d } else { d }
            },
            None => 0,
        },
        _ => 0,
    }
}

pub open spec fn max_branch_distance(ops: Seq<OpView>, k: int) -> int
    decreases k,
{
    if k <= 0 {
        0
    } else {
        let m = max_branch_distance(ops, k - 1);
        let d = branch_distance(ops, k - 1);
        if d > m { d } else { m }
    }
}

// ---------------------------------------------------------------------------
// Shape facts of parsed sections
// ---------------------------------------------------------------------------

pub open spec fn text_shape_ok(ops: Seq<OpView>) -> bool {
    forall|k: int| 0 <= k < ops.len() ==> (#[trigger] ops[k] is Label || (ops[k] matches OpView::Instr(i) && inst_ok(i)))
}

/// Relaxing branches keeps the text well formed.
pub proof fn lemma_relaxed_shape(a: Seq<OpView>, b: Seq<OpView>)
    requires
        relaxed_from(a, b),
        text_shape_ok(a),
    ensures
        text_shape_ok(b),
{
    assert forall|k: int| 0 <= k < b.len() implies (#[trigger] b[k] is Label || (b[k] matches OpView::Instr(i) && inst_ok(i))) by {
        assert(a[k] is Label || (a[k] matches OpView::Instr(i) && inst_ok(i)));
    }
}

pub open spec fn data_shape_ok(ops: Seq<OpView>) -> bool {
    forall|k: int| 0 <= k < ops.len() ==> (#[trigger] ops[k] matches OpView::Align(n) ==> 0 <= n <= 12)
}

pub open spec fn state_shape_ok(st: ParseState) -> bool {
    text_shape_ok(st.text) && data_shape_ok(st.rodata) && data_shape_ok(st.data)
}

proof fn lemma_with_op_shape(st: ParseState, op: OpView)
    requires
        state_shape_ok(st),
        st.section == SectionKind::Text ==> (op is Label || (op matches OpView::Instr(i) && inst_ok(i))),
        op matches OpView::Align(n) ==> 0 <= n <= 12,
    ensures
        state_shape_ok(crate::assembler::parse::with_op(st, op)),
{
    let st2 = crate::assembler::parse::with_op(st, op);
    assert forall|k: int| 0 <= k < st2.text.len() implies (#[trigger] st2.text[k] is Label || (st2.text[k] matches OpView::Instr(i) && inst_ok(i))) by {
        if k < st.text.len() {
            assert(st2.text[k] == st.text[k]);
        }
    }
    assert forall|k: int| 0 <= k < st2.rodata.len() implies (#[trigger] st2.rodata[k] matches OpView::Align(n) ==> 0 <= n <= 12) by {
        if k < st.rodata.len() {
            assert(st2.rodata[k] == st.rodata[k]);
        }
    }
    assert forall|k: int| 0 <= k < st2.data.len() implies (#[trigger] st2.data[k] matches OpView::Align(n) ==> 0 <= n <= 12) by {
        if k < st.data.len() {
            assert(st2.data[k] == st.data[k]);
        }
    }
}

proof fn lemma_line_shape(st: ParseState, line: Seq<char>)
    requires
        state_shape_ok(st),
    ensures
        crate::assembler::parse::spec_line(st, line) matches Ok(st2) ==> state_shape_ok(st2),
{
    match spec_strip_comment(line) {
        None => {},
        Some(c) => {
            if c.len() == 0 {
            } else if c[c.len() - 1] == ':' {
                lemma_with_op_shape(st, OpView::Label(c.subrange(0, c.len() - 1)));
            } else if c[0] == '.' {
                let d = spec_opcode(c);
                let ops = spec_operands(c);
                if st.section != SectionKind::Text {
                    if ops.len() == 1 && spec_parse_immediate(ops[0]) is Some {
                        let v = spec_parse_immediate(ops[0])->0;
                        if 0 <= v <= 12 {
                            lemma_with_op_shape(st, OpView::Align(v));
                        }
                    }
                    let n = data_width(d);
                    if ops.len() == 1 && spec_parse_immediate(ops[0]) is Some {
                        let v = spec_parse_immediate(ops[0])->0;
                        lemma_with_op_shape(st, OpView::Bytes(crate::assembler::parse::le_bytes(v % crate::assembler::parse::byte_power(n), n)));
                        lemma_with_op_shape(st, OpView::Bytes(Seq::new(v as nat, |i: int| 0u8)));
                    }
                    let text = crate::assembler::syntax::spec_operand_text(c);
                    if text.len() >= 2 {
                        lemma_with_op_shape(st, OpView::Bytes(crate::assembler::parse::ascii_bytes(text.subrange(1, text.len() - 1))));
                    }
                }
            } else {
                crate::assembler::instr::lemma_form_ok(spec_opcode(c));
                match crate::assembler::instr::spec_form(spec_opcode(c)) {
                    None => {},
                    Some(form) => match crate::assembler::instr::spec_decode(form, spec_operands(c)) {
                        None => {},
                        Some(i) => {
                            crate::assembler::instr::lemma_decode_ok(form, spec_operands(c));
                            if st.section == SectionKind::Text {
                                lemma_with_op_shape(st, OpView::Instr(i));
                            }
                        },
                    },
                }
            }
        },
    }
}

/// Reading lines leaves only labels and instructions in the text, and
/// alignments of at most `2^12` in the data sections.
pub proof fn lemma_parse_shape(lines: Seq<Seq<char>>)
    ensures
        spec_parse_lines(lines) matches Ok(st) ==> state_shape_ok(st),
    decreases lines.len(),
{
    if lines.len() > 0 {
        lemma_parse_shape(lines.drop_last());
        if let Ok(st) = spec_parse_lines(lines.drop_last()) {
            lemma_line_shape(st, lines.last());
        }
    }
}

/// When the label check passes, every control transfer names a text label
/// that starts a block.
proof fn lemma_labels_resolve(text: Seq<OpView>, rodata: Seq<OpView>, data: Seq<OpView>, i: int)
    requires
        0 <= i <= text.len(),
        label_error_from(text, rodata, data, i) is None,
    ensures
        forall|k: int| i <= k < text.len() ==> (#[trigger] text[k] matches OpView::Instr(inst) ==> (
            crate::assembler::layout::control_target(inst) matches Some(t) ==> crate::assembler::layout::starts_block(
            text, t))),
    decreases text.len() - i,
{
    if i < text.len() {
        lemma_labels_resolve(text, rodata, data, i + 1);
    }
}

// ---------------------------------------------------------------------------
// The plan
// ---------------------------------------------------------------------------

/// Everything the backend decides about an assembly file before encoding it.
pub struct MachineLayoutPlan {
    /// The parsed sections, with branch relaxation applied to the text.
    pub parsed: ParsedAssembly,
    pub cfg: MachineCfg,
    pub order: MachineLayoutOrder,
    pub metrics: BackendShapeMetrics,
}

impl ParsedAssembly {
    /// The byte size of a section as laid out.
    pub open spec fn spec_section_size(&self, kind: SectionKind) -> int {
        section_size_of(ops_view(self.section_ops(kind)), kind)
    }
}

/// The metrics that a plan's parts determine.
pub open spec fn metrics_match(p: ParsedAssembly, cfg: MachineCfg, order: MachineLayoutOrder, m: BackendShapeMetrics) -> bool {
    let text = ops_view(p.text@);
    let bs = blocks_view(cfg.blocks@);
    &&& m.text_size == p.spec_section_size(SectionKind::Text)
    &&& m.rodata_size == p.spec_section_size(SectionKind::Rodata)
    &&& m.data_size == p.spec_section_size(SectionKind::Data)
    &&& m.executable_text_op_count == instr_count(text, text.len() as int)
    &&& m.covered_text_op_count == blocks_count(bs)
    &&& m.machine_block_count == bs.len()
    &&& m.machine_cfg_edge_count == cfg.edges@.len()
    &&& m.machine_call_edge_count == call_edge_count(cfg.edges@, cfg.edges@.len() as int)
    &&& m.conditional_branch_block_count == cond_block_count(bs, bs.len() as int)
    &&& m.relaxed_branch_count == relaxed_count(text, text.len() as int)
    &&& m.max_cond_branch_abs_distance == max_branch_distance(text, text.len() as int)
    &&& m.max_machine_block_size == max_block_size(bs, bs.len() as int)
    &&& m.unreachable_machine_block_count == spec_unreachable(p, cfg)
    &&& m.layout_order_block_count == order.block_order@.len()
    &&& m.layout_order_text_size == order.text_size
}

fn call_edge_count_exec(es: &Vec<MachineCfgEdge>) -> (r: usize)
    ensures
        r as int == call_edge_count(es@, es@.len() as int),
{
    let mut c: usize = 0;
    let mut k: usize = 0;
    while k < es.len()
        invariant
            k <= es@.len(),
            c <= k,
            c as int == call_edge_count(es@, k as int),
        decreases es@.len() - k,
    {
        if es[k].kind == MachineCfgEdgeKind::Call {
            c = c + 1;
        }
        k = k + 1;
    }
    c
}

fn block_stats(blocks: &Vec<MachineBlock>) -> (r: (usize, usize))
    ensures
        r.0 as int == cond_block_count(blocks_view(blocks@), blocks@.len() as int),
        r.1 as int == max_block_size(blocks_view(blocks@), blocks@.len() as int),
{
    let ghost bv = blocks_view(blocks@);
    let mut conds: usize = 0;
    let mut biggest: usize = 0;
    let mut k: usize = 0;
    while k < blocks.len()
        invariant
            k <= blocks@.len(),
            bv == blocks_view(blocks@),
            conds <= k,
            conds as int == cond_block_count(bv, k as int),
            biggest as int == max_block_size(bv, k as int),
        decreases blocks@.len() - k,
    {
        if let MachineTerminator::ConditionalBranch { .. } = &blocks[k].terminator {
            conds = conds + 1;
        }
        if blocks[k].byte_size > biggest {
            biggest = blocks[k].byte_size;
        }
        k = k + 1;
    }
    (conds, biggest)
}

fn text_stats(ops: &Vec<AsmOp>, offs: &Vec<u64>) -> (r: (usize, usize, usize))
    requires
        offs@.len() == ops@.len() + 1,
        forall|k: int| 0 <= k <= ops@.len() ==> #[trigger] offs@[k] as int == text_offset(ops_view(ops@), k),
        text_offset(ops_view(ops@), ops@.len() as int) <= max_text_size(),
    ensures
        r.0 as int == instr_count(ops_view(ops@), ops@.len() as int),
        r.1 as int == relaxed_count(ops_view(ops@), ops@.len() as int),
        r.2 as int == max_branch_distance(ops_view(ops@), ops@.len() as int),
{
    let ghost v = ops_view(ops@);
    let n = ops.len();
    let mut instrs: usize = 0;
    let mut relaxed: usize = 0;
    let mut far: u64 = 0;
    let mut k: usize = 0;
    proof {
        crate::assembler::layout::lemma_offset_monotone(v, 0, n as int);
    }
    while k < n
        invariant
            n == ops@.len(),
            k <= n,
            v == ops_view(ops@),
            offs@.len() == n + 1,
            forall|j: int| 0 <= j <= n ==> #[trigger] offs@[j] as int == text_offset(v, j),
            text_offset(v, n as int) <= max_text_size(),
            instrs <= k && relaxed <= k,
            instrs as int == instr_count(v, k as int),
            relaxed as int == relaxed_count(v, k as int),
            far as int == max_branch_distance(v, k as int),
            far <= max_text_size(),
        decreases n - k,
    {
        let mut d: u64 = 0;
        match &ops[k] {
            AsmOp::Instr(inst) => {
                instrs = instrs + 1;
                if let Instruction::Branch { target, mode, .. } = inst {
                    if let BranchSizeMode::Relaxed = mode {
                        relaxed = relaxed + 1;
                    }
                    if let Some(p) = find_label(ops, target) {
                        proof {
                            crate::assembler::layout::lemma_offset_monotone(v, p as int, n as int);
                            crate::assembler::layout::lemma_offset_monotone(v, k as int, n as int);
                        }
                        d = if offs[p] >= offs[k] { offs[p] - offs[k] } else { offs[k] - offs[p] };
                    }
                }
            },
            _ => {},
        }
        if d > far {
            far = d;
        }
        k = k + 1;
    }
    (instrs, relaxed, far as usize)
}

/// The order that keeps the blocks where they are.
pub open spec fn identity_order(n: int) -> Seq<usize> {
    Seq::new(n as nat, |i: int| i as usize)
}

/// Both data sections of a parse stay within the size the assembler lays out.
pub open spec fn data_fits(st: ParseState) -> bool {
    &&& data_offset(st.rodata, st.rodata.len() as int) <= max_text_size()
    &&& data_offset(st.data, st.data.len() as int) <= max_text_size()
}

/// Whether a plan can be built from the lines, and otherwise the message of
/// the first check that refuses them: parsing, labels, text size, data size.
pub open spec fn plan_outcome(lines: Seq<Seq<char>>) -> Result<(), Seq<char>> {
    match spec_parse_lines(lines) {
        Err(m) => Err(m),
        Ok(st) => match label_error_from(st.text, st.rodata, st.data, 0) {
            Some(m) => Err(m),
            None => if !relaxation_fits(st.text) {
                Err("assembly text is too large"@)
            } else if !data_fits(st) {
                Err("assembly data is too large"@)
            } else {
                Ok(())
            },
        },
    }
}

/// What a successful plan says of the lines it was built from.
pub open spec fn plan_matches(lines: Seq<Seq<char>>, plan: MachineLayoutPlan) -> bool {
    let text = ops_view(plan.parsed.text@);
    let bs = blocks_view(plan.cfg.blocks@);
    &&& spec_parse_lines(lines) matches Ok(st) && least_relaxation(st.text, text) && ops_view(plan.parsed.rodata@) == st.rodata
        && ops_view(plan.parsed.data@) == st.data && plan.parsed.globals@.map_values(|g: String| g@) == st.globals
        && label_error_from(st.text, st.rodata, st.data, 0) is None
        && (plan.parsed.entry_label matches Some(e) ==> st.globals.len() > 0 && e@ == st.globals[0])
        && (plan.parsed.entry_label is None ==> st.globals.len() == 0)
    &&& short_branches_fit(text)
    &&& text_shape_ok(text)
    &&& data_shape_ok(ops_view(plan.parsed.rodata@))
    &&& data_shape_ok(ops_view(plan.parsed.data@))
    &&& data_offset(ops_view(plan.parsed.rodata@), plan.parsed.rodata@.len() as int) <= max_text_size()
    &&& data_offset(ops_view(plan.parsed.data@), plan.parsed.data@.len() as int) <= max_text_size()
    &&& text_offset(text, text.len() as int) <= max_text_size()
    &&& bs == spec_blocks(text)
    &&& spec_edges(bs, text, bs.len() as int) == Some(plan.cfg.edges@)
    &&& plan.order.block_order@ == identity_order(bs.len() as int)
    &&& plan.order.text_size == order_sum(bs, plan.order.block_order@)
    &&& plan.order.text_size == text_offset(text, text.len() as int)
    &&& plan.order.placed_blocks@.len() == bs.len()
    &&& forall|i: int| 0 <= i < bs.len() ==> (#[trigger] plan.order.placed_blocks@[i]).block_index == i
        && plan.order.placed_blocks@[i].byte_start == order_sum(bs, identity_order(bs.len() as int).subrange(0, i))
        && plan.order.placed_blocks@[i].byte_size == bs[i].byte_size
    &&& metrics_match(plan.parsed, plan.cfg, plan.order, plan.metrics)
}

/// Two plans built from the same lines agree on their sections, their entry
/// label, their blocks and edges, their order and their metrics.
pub proof fn lemma_plan_determined(lines: Seq<Seq<char>>, p1: MachineLayoutPlan, p2: MachineLayoutPlan)
    requires
        plan_matches(lines, p1),
        plan_matches(lines, p2),
    ensures
        ops_view(p1.parsed.text@) == ops_view(p2.parsed.text@),
        ops_view(p1.parsed.rodata@) == ops_view(p2.parsed.rodata@),
        ops_view(p1.parsed.data@) == ops_view(p2.parsed.data@),
        p1.parsed.entry_label is Some <==> p2.parsed.entry_label is Some,
        p1.parsed.entry_label is Some ==> p1.parsed.entry_label->0@ == p2.parsed.entry_label->0@,
        blocks_view(p1.cfg.blocks@) == blocks_view(p2.cfg.blocks@),
        p1.cfg.edges@ == p2.cfg.edges@,
        p1.metrics == p2.metrics,
{
    let st = spec_parse_lines(lines)->Ok_0;
    let t1 = ops_view(p1.parsed.text@);
    let t2 = ops_view(p2.parsed.text@);
    crate::assembler::layout::lemma_least_relaxation_unique(st.text, t1, t2);
    let bs = blocks_view(p1.cfg.blocks@);
    assert(entry_block(p1.parsed, p1.cfg) == entry_block(p2.parsed, p2.cfg));
    assert(spec_unreachable(p1.parsed, p1.cfg) == spec_unreachable(p2.parsed, p2.cfg));
    assert(p1.parsed.spec_section_size(SectionKind::Text) == p2.parsed.spec_section_size(SectionKind::Text));
    assert(p1.parsed.spec_section_size(SectionKind::Rodata) == p2.parsed.spec_section_size(SectionKind::Rodata));
    assert(p1.parsed.spec_section_size(SectionKind::Data) == p2.parsed.spec_section_size(SectionKind::Data));
}

/// Relaxing branches keeps every control transfer naming a block start.
proof fn lemma_relaxed_control(a: Seq<OpView>, b: Seq<OpView>)
    requires
        relaxed_from(a, b),
        crate::assembler::cfg::control_targets_start_blocks(a),
    ensures
        crate::assembler::cfg::control_targets_start_blocks(b),
{
    assert forall|k: int| 0 <= k < b.len() implies (#[trigger] b[k] matches OpView::Instr(i) ==> (
        crate::assembler::layout::control_target(i) matches Some(t) ==> crate::assembler::layout::starts_block(b, t))) by {
        assert(b[k] == a[k] || a[k] is Instr);
        if let OpView::Instr(i) = b[k] {
            if let Some(t) = crate::assembler::layout::control_target(i) {
                assert(a[k] matches OpView::Instr(i2) && crate::assembler::layout::control_target(i2) == Some(t));
                assert(crate::assembler::layout::starts_block(a, t));
                crate::assembler::layout::lemma_relaxed_labels_pub(a, b, t);
                let p = label_index(a, t)->0;
                crate::assembler::layout::lemma_label_index_contains(a, t);
                assert(crate::assembler::layout::has_instr_after(a, p));
                let w = choose|w: int| p < w < a.len() && a[w] is Instr;
                assert(b[w] == a[w] || a[w] is Instr);
                assert(b[w] is Instr);
            }
        }
    }
}

impl MachineLayoutPlan {
    /// Parses the lines, checks their labels, relaxes out-of-range branches,
    /// splits the text into machine blocks with their control-flow edges,
    /// keeps the blocks in source order and measures the result.
    pub fn build(lines: &[String]) -> (r: Result<MachineLayoutPlan, CompileError>)
        ensures
            r matches Ok(plan) ==> plan_outcome(lines@.map_values(|l: String| l@)) is Ok && plan_matches(
                lines@.map_values(|l: String| l@),
                plan,
            ),
            r matches Err(e) ==> plan_outcome(lines@.map_values(|l: String| l@)) == Err::<(), Seq<char>>(e.message@),
    {
        let ghost lv = lines@.map_values(|l: String| l@);
        let mut parsed = ParsedAssembly::parse(lines)?;
        let ghost st = spec_parse_lines(lv)->Ok_0;
        proof {
            lemma_parse_shape(lv);
        }
        check_labels(&parsed)?;
        proof {
            lemma_labels_resolve(st.text, st.rodata, st.data, 0);
            assert forall|k: int| 0 <= k < st.text.len() implies (#[trigger] st.text[k] matches OpView::Instr(
                InstView::Branch { target, .. }) ==> label_index(st.text, target) is Some) by {
                if let OpView::Instr(inst) = st.text[k] {
                    assert(crate::assembler::layout::control_target(inst) == (match inst {
                        InstView::Branch { target, .. } => Some(target),
                        InstView::Jump { target, .. } => Some(target),
                        _ => None,
                    }));
                }
            }
        }
        relax_branches(&mut parsed.text)?;
        let ghost text = ops_view(parsed.text@);
        proof {
            lemma_relaxed_shape(st.text, text);
        }
        let offs = match text_offsets(&parsed.text) {
            Ok(o) => o,
            Err(e) => {
                assert(false);
                return Err(e);
            },
        };
        let blocks = build_blocks(&parsed.text, &offs);
        proof {
            assert(crate::assembler::cfg::control_targets_start_blocks(st.text));
            lemma_relaxed_control(st.text, text);
            crate::assembler::cfg::lemma_edges_exist(text, blocks@.len() as int);
        }
        let edges = match build_edges(&blocks, &parsed.text) {
            Ok(es) => es,
            Err(e) => {
                assert(false);
                return Err(e);
            },
        };
        let cfg = MachineCfg { blocks, edges };
        let nb = cfg.blocks.len();
        let mut ident: Vec<usize> = Vec::new();
        let mut i: usize = 0;
        while i < nb
            invariant
                i <= nb,
                ident@ == identity_order(i as int),
            decreases nb - i,
        {
            ident.push(i);
            i = i + 1;
            assert(ident@ =~= identity_order(i as int));
        }
        proof {
            crate::assembler::order::lemma_order_error_iff_valid(nb as int, ident@);
        }
        let order = match build_machine_layout_order(&cfg, ident) {
            Ok(o) => o,
            Err(e) => {
                assert(false);
                return Err(e);
            },
        };
        let roffs = data_offsets(&parsed.rodata)?;
        let doffs = data_offsets(&parsed.data)?;
        let (instrs, relaxed, far) = text_stats(&parsed.text, &offs);
        let (conds, biggest) = block_stats(&cfg.blocks);
        let calls = call_edge_count_exec(&cfg.edges);
        let unreachable = unreachable_machine_block_count(&parsed, &cfg);
        let covered = instrs;
        let metrics = BackendShapeMetrics {
            text_size: offs[parsed.text.len()] as usize,
            rodata_size: roffs[parsed.rodata.len()] as usize,
            data_size: doffs[parsed.data.len()] as usize,
            executable_text_op_count: instrs,
            covered_text_op_count: covered,
            machine_block_count: nb,
            machine_cfg_edge_count: cfg.edges.len(),
            machine_call_edge_count: calls,
            conditional_branch_block_count: conds,
            relaxed_branch_count: relaxed,
            max_cond_branch_abs_distance: far,
            max_machine_block_size: biggest,
            unreachable_machine_block_count: unreachable,
            layout_order_block_count: order.block_order.len(),
            layout_order_text_size: order.text_size,
        };
        Ok(MachineLayoutPlan { parsed, cfg, order, metrics })
    }
}

impl ParsedAssembly {
    /// The byte size of a section as laid out.
    pub fn section_size(&self, kind: SectionKind) -> (r: usize)
        requires
            self.spec_section_size(kind) <= max_text_size(),
            data_shape_ok(ops_view(self.rodata@)),
            data_shape_ok(ops_view(self.data@)),
        ensures
            r as int == self.spec_section_size(kind),
    {
        let offs = match kind {
            SectionKind::Text => text_offsets(&self.text),
            SectionKind::Rodata => data_offsets(&self.rodata),
            SectionKind::Data => data_offsets(&self.data),
        };
        match offs {
            Ok(o) => {
                let n = o.len();
                o[n - 1] as usize
            },
            Err(_) => {
                assert(false);
                0
            },
        }
    }
}

} // verus!
