//! Byte layout of the text section: instruction sizes, label offsets, label
//! checks and the relaxation of conditional branches that cannot reach
//! their targets.

use vstd::prelude::*;
use crate::assembler::encode::{branch_in_range, li_size};
use crate::assembler::instr::{BranchSizeMode, InstView, Instruction};
use crate::assembler::parse::{ops_view, AsmOp, OpView, ParsedAssembly};
use crate::error::CompileError;
use crate::text::{chars_eq, str_chars, string_push_str};

verus! {

broadcast use vstd::std_specs::vec::group_vec_axioms;

/// The largest text section the assembler lays out.
pub open spec fn max_text_size() -> int {
    0x1000_0000
}

/// The byte size of an instruction as assembled.
pub open spec fn inst_size(i: InstView) -> int {
    match i {
        InstView::Li { value, .. } => li_size(value),
        InstView::La { .. } => 8,
        InstView::Branch { mode, .. } => if mode == BranchSizeMode::Relaxed { 8 } else { 4 },
        _ => 4,
    }
}

pub open spec fn op_size(o: OpView) -> int {
    match o {
        OpView::Instr(i) => inst_size(i),
        _ => 0,
    }
}

/// The byte offset of operation `k`: the sizes of the operations before it.
pub open spec fn text_offset(ops: Seq<OpView>, k: int) -> int
    decreases k,
{
    if k <= 0 {
        0
    } else {
        text_offset(ops, k - 1) + op_size(ops[k - 1])
    }
}

/// Index of the first label `name`, at or after `i`.
pub open spec fn label_index_from(ops: Seq<OpView>, name: Seq<char>, i: int) -> Option<int>
    decreases ops.len() - i,
{
    if i < 0 || i >= ops.len() {
        None
    } else if ops[i] == OpView::Label(name) {
        Some(i)
    } else {
        label_index_from(ops, name, i + 1)
    }
}

pub open spec fn label_index(ops: Seq<OpView>, name: Seq<char>) -> Option<int> {
    label_index_from(ops, name, 0)
}

/// Whether an instruction follows position `p`.
pub open spec fn has_instr_after(ops: Seq<OpView>, p: int) -> bool {
    exists|k: int| p < k < ops.len() && ops[k] is Instr
}

/// The label operand of a control-transfer instruction.
pub open spec fn control_target(i: InstView) -> Option<Seq<char>> {
    match i {
        InstView::Branch { target, .. } => Some(target),
        InstView::Jump { target, .. } => Some(target),
        _ => None,
    }
}

/// Whether a text label can be the target of a branch, jump or call.
pub open spec fn starts_block(ops: Seq<OpView>, name: Seq<char>) -> bool {
    label_index(ops, name) matches Some(p) && has_instr_after(ops, p)
}

pub open spec fn defined_anywhere(text: Seq<OpView>, rodata: Seq<OpView>, data: Seq<OpView>, name: Seq<char>) -> bool {
    text.contains(OpView::Label(name)) || rodata.contains(OpView::Label(name)) || data.contains(OpView::Label(name))
}

/// The label error of the first text operation, from `i` on, that names an
/// undefined label, or a control-transfer target that is no text block.
pub open spec fn label_error_from(ops: Seq<OpView>, rodata: Seq<OpView>, data: Seq<OpView>, i: int) -> Option<Seq<char>>
    decreases ops.len() - i,
{
    if i < 0 || i >= ops.len() {
        None
    } else {
        let here: Option<Seq<char>> = match ops[i] {
            OpView::Instr(inst) => match inst {
                InstView::La { target, .. } => if defined_anywhere(ops, rodata, data, target) {
                    None
                } else {
                    Some("unknown assembly label '"@ + target + "'"@)
                },
                _ => match control_target(inst) {
                    Some(t) => if !defined_anywhere(ops, rodata, data, t) {
                        Some("unknown assembly label '"@ + t + "'"@)
                    } else if !starts_block(ops, t) {
                        Some("assembly label '"@ + t + "' does not start a machine block"@)
                    } else {
                        None
                    },
                    None => None,
                },
            },
            _ => None,
        };
        if here is Some {
            here
        } else {
            label_error_from(ops, rodata, data, i + 1)
        }
    }
}

/// Whether a branch at `k` reaches its target directly in the layout of `ops`.
pub open spec fn branch_fits(ops: Seq<OpView>, k: int) -> bool {
    match ops[k] {
        OpView::Instr(InstView::Branch { target, .. }) => match label_index(ops, target) {
            Some(p) => branch_in_range(text_offset(ops, p) - text_offset(ops, k)),
            None => false,
        },
        _ => true,
    }
}

/// `b` is `a` with some short branches relaxed.
pub open spec fn relaxed_from(a: Seq<OpView>, b: Seq<OpView>) -> bool {
    &&& a.len() == b.len()
    &&& forall|k: int| 0 <= k < a.len() ==> #[trigger] b[k] == a[k] || (a[k] matches OpView::Instr(
        InstView::Branch { f3, rs1, rs2, target, mode }) && mode == BranchSizeMode::Short && b[k] == OpView::Instr(
        InstView::Branch { f3, rs1, rs2, target, mode: BranchSizeMode::Relaxed }))
}

/// Every short branch reaches its target.
pub open spec fn short_branches_fit(ops: Seq<OpView>) -> bool {
    forall|k: int| 0 <= k < ops.len() ==> (#[trigger] ops[k] matches OpView::Instr(InstView::Branch { mode, .. })
        && mode == BranchSizeMode::Short) ==> branch_fits(ops, k)
}

/// The number of short branches among the first `k` operations.
pub open spec fn short_count(ops: Seq<OpView>, k: int) -> nat
    decreases k,
{
    if k <= 0 {
        0
    } else {
        short_count(ops, k - 1) + (if ops[k - 1] matches OpView::Instr(InstView::Branch { mode, .. }) && mode
            == BranchSizeMode::Short { 1nat } else { 0nat })
    }
}

/// `b` relaxes no branch of `a` that `c` keeps short.
pub open spec fn relaxed_within(a: Seq<OpView>, b: Seq<OpView>, c: Seq<OpView>) -> bool {
    forall|k: int| 0 <= k < a.len() && #[trigger] b[k] != a[k] ==> c[k] != a[k]
}

/// Every relaxation of `a` whose short branches fit relaxes at least the branches `b` relaxes.
pub open spec fn below_all_fits(a: Seq<OpView>, b: Seq<OpView>) -> bool {
    forall|c: Seq<OpView>| #[trigger] relaxed_from(a, c) && short_branches_fit(c) ==> relaxed_within(a, b, c)
}

/// The relaxation of `a` the assembler settles on: its short branches fit,
/// and it relaxes only branches that every such relaxation relaxes.
pub open spec fn least_relaxation(a: Seq<OpView>, b: Seq<OpView>) -> bool {
    relaxed_from(a, b) && short_branches_fit(b) && below_all_fits(a, b)
}

/// Some relaxation of `a` whose short branches fit stays within the text size limit.
pub open spec fn relaxation_fits(a: Seq<OpView>) -> bool {
    exists|c: Seq<OpView>| #[trigger] relaxed_from(a, c) && short_branches_fit(c) && text_offset(c, c.len() as int) <= max_text_size()
}

// ---------------------------------------------------------------------------
// Executable layout
// ---------------------------------------------------------------------------

pub fn strings_eq(a: &String, b: &String) -> (r: bool)
    ensures
        r == (a@ == b@),
{
    let x = str_chars(a.as_str());
    let y = str_chars(b.as_str());
    chars_eq(x.as_slice(), y.as_slice())
}

pub fn inst_size_exec(i: &Instruction) -> (r: u64)
    ensures
        r as int == inst_size(i.view()),
        r <= 60,
{
    match i {
        Instruction::Li { value, .. } => {
            if -2048 <= *value && *value <= 2047 {
                4
            } else if -0x8000_0000i128 <= *value && *value < 0x7fff_f800i128 {
                8
            } else {
                60
            }
        },
        Instruction::La { .. } => 8,
        Instruction::Branch { mode, .. } => match mode {
            BranchSizeMode::Relaxed => 8,
            BranchSizeMode::Short => 4,
        },
        _ => 4,
    }
}

pub fn op_size_exec(o: &AsmOp) -> (r: u64)
    ensures
        r as int == op_size(o.view()),
        r <= 60,
{
    match o {
        AsmOp::Instr(i) => inst_size_exec(i),
        _ => 0,
    }
}

/// The offset of every text operation and, last, the text size; fails when
/// the text would exceed the size the assembler lays out.
pub fn text_offsets(ops: &Vec<AsmOp>) -> (r: Result<Vec<u64>, CompileError>)
    ensures
        r matches Ok(offs) ==> offs@.len() == ops@.len() + 1 && text_offset(ops_view(ops@), ops@.len() as int)
            <= max_text_size() && forall|k: int| 0 <= k <= ops@.len() ==> #[trigger] offs@[k] as int == text_offset(
            ops_view(ops@), k),
        r is Err ==> text_offset(ops_view(ops@), ops@.len() as int) > max_text_size(),
        r matches Err(e) ==> e.message@ == "assembly text is too large"@,
{
    let ghost v = ops_view(ops@);
    let mut offs: Vec<u64> = Vec::new();
    let mut cur: u64 = 0;
    let mut k: usize = 0;
    while k < ops.len()
        invariant
            k <= ops@.len(),
            v == ops_view(ops@),
            offs@.len() == k,
            cur as int == text_offset(v, k as int),
            cur <= 0x1000_0000,
            forall|j: int| 0 <= j < k ==> #[trigger] offs@[j] as int == text_offset(v, j),
        decreases ops@.len() - k,
    {
        offs.push(cur);
        let s = op_size_exec(&ops[k]);
        cur = cur + s;
        if cur > 0x1000_0000 {
            proof {
                lemma_offset_monotone(v, k as int + 1, ops@.len() as int);
            }
            return Err(CompileError::from_str_message("assembly text is too large"));
        }
        k = k + 1;
    }
    offs.push(cur);
    Ok(offs)
}

/// Offsets never decrease.
pub proof fn lemma_offset_monotone(ops: Seq<OpView>, i: int, j: int)
    requires
        0 <= i <= j <= ops.len(),
    ensures
        text_offset(ops, i) <= text_offset(ops, j),
    decreases j - i,
{
    if i < j {
        lemma_offset_monotone(ops, i, j - 1);
        lemma_op_size_nonneg(ops[j - 1]);
    }
}

pub proof fn lemma_op_size_nonneg(o: OpView)
    ensures
        0 <= op_size(o) <= 60,
{
}

/// The index of the first label `name` among the operations.
pub fn find_label(ops: &Vec<AsmOp>, name: &String) -> (r: Option<usize>)
    ensures
        r matches Some(p) ==> label_index(ops_view(ops@), name@) == Some(p as int) && p < ops@.len(),
        r is None ==> label_index(ops_view(ops@), name@) is None,
{
    let ghost v = ops_view(ops@);
    let mut i: usize = 0;
    while i < ops.len()
        invariant
            i <= ops@.len(),
            v == ops_view(ops@),
            label_index(v, name@) == label_index_from(v, name@, i as int),
        decreases ops@.len() - i,
    {
        if let AsmOp::Label(l) = &ops[i] {
            if strings_eq(l, name) {
                return Some(i);
            }
        }
        i = i + 1;
    }
    None
}

/// Whether an instruction follows position `p`.
pub fn instr_after(ops: &Vec<AsmOp>, p: usize) -> (r: bool)
    requires
        p < ops@.len(),
    ensures
        r == has_instr_after(ops_view(ops@), p as int),
{
    let ghost v = ops_view(ops@);
    let n = ops.len();
    let mut k = p + 1;
    while k < n
        invariant
            p < k <= ops@.len(),
            n == ops@.len(),
            v == ops_view(ops@),
            forall|j: int| p < j < k && j < ops@.len() ==> !(#[trigger] v[j] is Instr),
        decreases ops@.len() - k,
    {
        if let AsmOp::Instr(_) = &ops[k] {
            assert(v[k as int] is Instr);
            return true;
        }
        k = k + 1;
    }
    false
}

fn label_in_any(p: &ParsedAssembly, name: &String) -> (r: bool)
    ensures
        r == defined_anywhere(ops_view(p.text@), ops_view(p.rodata@), ops_view(p.data@), name@),
{
    let a = find_label(&p.text, name);
    let b = find_label(&p.rodata, name);
    let c = find_label(&p.data, name);
    proof {
        lemma_label_index_contains(ops_view(p.text@), name@);
        lemma_label_index_contains(ops_view(p.rodata@), name@);
        lemma_label_index_contains(ops_view(p.data@), name@);
    }
    a.is_some() || b.is_some() || c.is_some()
}

proof fn lemma_label_index_from_contains(ops: Seq<OpView>, name: Seq<char>, i: int)
    requires
        0 <= i <= ops.len(),
    ensures
        label_index_from(ops, name, i) is Some <==> exists|k: int| i <= k < ops.len() && ops[k] == OpView::Label(name),
        label_index_from(ops, name, i) matches Some(k) ==> i <= k < ops.len() && ops[k] == OpView::Label(name),
    decreases ops.len() - i,
{
    if i < ops.len() {
        lemma_label_index_from_contains(ops, name, i + 1);
    }
}

pub proof fn lemma_label_index_contains(ops: Seq<OpView>, name: Seq<char>)
    ensures
        label_index(ops, name) is Some <==> ops.contains(OpView::Label(name)),
        label_index(ops, name) matches Some(k) ==> 0 <= k < ops.len() && ops[k] == OpView::Label(name),
{
    lemma_label_index_from_contains(ops, name, 0);
}

fn unknown_label(t: &String) -> (e: CompileError)
    ensures
        e.message@ == "unknown assembly label '"@ + t@ + "'"@,
{
    let mut s = String::new();
    string_push_str(&mut s, "unknown assembly label '");
    string_push_str(&mut s, t.as_str());
    string_push_str(&mut s, "'");
    CompileError::without_span(s)
}

pub fn not_a_block(t: &String) -> (e: CompileError)
    ensures
        e.message@ == "assembly label '"@ + t@ + "' does not start a machine block"@,
{
    let mut s = String::new();
    string_push_str(&mut s, "assembly label '");
    string_push_str(&mut s, t.as_str());
    string_push_str(&mut s, "' does not start a machine block");
    CompileError::without_span(s)
}

/// Checks every label operand in the text: `la` may name any label;
/// branches, jumps and calls must name a text label that starts a block.
pub fn check_labels(p: &ParsedAssembly) -> (r: Result<(), CompileError>)
    ensures
        r is Ok <==> label_error_from(ops_view(p.text@), ops_view(p.rodata@), ops_view(p.data@), 0) is None,
        r matches Err(e) ==> label_error_from(ops_view(p.text@), ops_view(p.rodata@), ops_view(p.data@), 0) == Some(
            e.message@),
{
    let ghost ops = ops_view(p.text@);
    let mut i: usize = 0;
    while i < p.text.len()
        invariant
            i <= p.text@.len(),
            ops == ops_view(p.text@),
            label_error_from(ops, ops_view(p.rodata@), ops_view(p.data@), 0) == label_error_from(
                ops, ops_view(p.rodata@), ops_view(p.data@), i as int),
        decreases p.text@.len() - i,
    {
        if let AsmOp::Instr(inst) = &p.text[i] {
            match inst {
                Instruction::La { target, .. } => {
                    if !label_in_any(p, target) {
                        return Err(unknown_label(target));
                    }
                },
                Instruction::Branch { target, .. } | Instruction::Jump { target, .. } => {
                    if !label_in_any(p, target) {
                        return Err(unknown_label(target));
                    }
                    match find_label(&p.text, target) {
                        Some(pos) => {
                            if !instr_after(&p.text, pos) {
                                return Err(not_a_block(target));
                            }
                        },
                        None => {
                            return Err(not_a_block(target));
                        },
                    }
                },
                _ => {},
            }
        }
        i = i + 1;
    }
    Ok(())
}

// ---------------------------------------------------------------------------
// Branch relaxation
// ---------------------------------------------------------------------------

/// Every branch names a label of the text.
pub open spec fn targets_resolved(ops: Seq<OpView>) -> bool {
    forall|k: int| 0 <= k < ops.len() ==> (#[trigger] ops[k] matches OpView::Instr(InstView::Branch { target, .. })
        ==> label_index(ops, target) is Some)
}

proof fn lemma_relaxed_labels(a: Seq<OpView>, b: Seq<OpView>, name: Seq<char>, i: int)
    requires
        relaxed_from(a, b),
        0 <= i <= a.len(),
    ensures
        label_index_from(a, name, i) == label_index_from(b, name, i),
    decreases a.len() - i,
{
    if i < a.len() {
        assert(b[i] == a[i] || a[i] is Instr);
        lemma_relaxed_labels(a, b, name, i + 1);
    }
}

/// A text has at most one least relaxation: the relaxation the assembler
/// settles on is determined by the text alone.
pub proof fn lemma_least_relaxation_unique(a: Seq<OpView>, b1: Seq<OpView>, b2: Seq<OpView>)
    requires
        least_relaxation(a, b1),
        least_relaxation(a, b2),
    ensures
        b1 == b2,
{
    assert(relaxed_within(a, b1, b2));
    assert(relaxed_within(a, b2, b1));
    assert forall|k: int| 0 <= k < b1.len() implies b1[k] == b2[k] by {
        assert(b1[k] == a[k] || a[k] is Instr);
        assert(b2[k] == a[k] || a[k] is Instr);
    }
    assert(b1 =~= b2);
}

/// Relaxing branches keeps every label where it was.
pub proof fn lemma_relaxed_labels_pub(a: Seq<OpView>, b: Seq<OpView>, name: Seq<char>)
    requires
        relaxed_from(a, b),
    ensures
        label_index(a, name) == label_index(b, name),
{
    lemma_relaxed_labels(a, b, name, 0);
}

proof fn lemma_relaxed_count(a: Seq<OpView>, b: Seq<OpView>, k: int)
    requires
        relaxed_from(a, b),
        0 <= k <= a.len(),
    ensures
        short_count(b, k) <= short_count(a, k),
        (exists|j: int| 0 <= j < k && b[j] != a[j]) ==> short_count(b, k) < short_count(a, k),
    decreases k,
{
    if k > 0 {
        lemma_relaxed_count(a, b, k - 1);
        assert(b[k - 1] == a[k - 1] || a[k - 1] is Instr);
        if exists|j: int| 0 <= j < k && b[j] != a[j] {
            let j = choose|j: int| 0 <= j < k && b[j] != a[j];
            if j < k - 1 {
            } else {
                assert(b[k - 1] != a[k - 1]);
            }
        }
    }
}

proof fn lemma_relaxed_trans(a: Seq<OpView>, b: Seq<OpView>, c: Seq<OpView>)
    requires
        relaxed_from(a, b),
        relaxed_from(b, c),
    ensures
        relaxed_from(a, c),
{
    assert forall|k: int| 0 <= k < a.len() implies #[trigger] c[k] == a[k] || (a[k] matches OpView::Instr(
        InstView::Branch { f3, rs1, rs2, target, mode }) && mode == BranchSizeMode::Short && c[k] == OpView::Instr(
        InstView::Branch { f3, rs1, rs2, target, mode: BranchSizeMode::Relaxed })) by {
        assert(b[k] == a[k] || a[k] is Instr);
        assert(c[k] == b[k] || b[k] is Instr);
    }
}

proof fn lemma_relaxed_refl(a: Seq<OpView>)
    ensures
        relaxed_from(a, a),
{
}

/// Every text offset is a whole number of instruction words.
proof fn lemma_offset_words(ops: Seq<OpView>, k: int)
    ensures
        text_offset(ops, k) % 4 == 0,
        text_offset(ops, k) >= 0,
    decreases k,
{
    if k > 0 {
        lemma_offset_words(ops, k - 1);
        lemma_op_size_nonneg(ops[k - 1]);
        assert(op_size(ops[k - 1]) % 4 == 0);
    }
}

/// Relaxing more branches only spreads the text out: every stretch of it grows.
proof fn lemma_offsets_spread(a: Seq<OpView>, c: Seq<OpView>, s: Seq<OpView>, i: int, j: int)
    requires
        relaxed_from(a, c),
        relaxed_from(a, s),
        relaxed_within(a, c, s),
        0 <= i <= j <= a.len(),
    ensures
        text_offset(s, j) - text_offset(s, i) >= text_offset(c, j) - text_offset(c, i),
        text_offset(c, j) - text_offset(c, i) >= 0,
    decreases j - i,
{
    if i < j {
        lemma_offsets_spread(a, c, s, i, j - 1);
        let k = j - 1;
        assert(c[k] == a[k] || a[k] is Instr);
        assert(s[k] == a[k] || a[k] is Instr);
        lemma_op_size_nonneg(c[k]);
        assert(op_size(c[k]) <= op_size(s[k])) by {
            if c[k] != a[k] {
                assert(s[k] != a[k]);
            }
        }
    }
}

/// A short branch that misses its target in `c` misses it in every wider relaxation too.
proof fn lemma_miss_persists(a: Seq<OpView>, c: Seq<OpView>, s: Seq<OpView>, k: int)
    requires
        relaxed_from(a, c),
        relaxed_from(a, s),
        relaxed_within(a, c, s),
        targets_resolved(a),
        0 <= k < a.len(),
        c[k] == a[k],
        s[k] == a[k],
        !branch_fits(c, k),
    ensures
        !branch_fits(s, k),
{
    if let OpView::Instr(InstView::Branch { target, .. }) = a[k] {
        lemma_relaxed_labels_pub(a, c, target);
        lemma_relaxed_labels_pub(a, s, target);
        assert(label_index(a, target) is Some);
        let p = label_index(a, target)->0;
        lemma_label_index_contains(a, target);
        lemma_offset_words(c, p);
        lemma_offset_words(c, k);
        if p >= k {
            lemma_offsets_spread(a, c, s, k, p);
        } else {
            lemma_offsets_spread(a, c, s, p, k);
        }
    }
}

/// One round keeps the text below every fitting relaxation.
proof fn lemma_round_below(a: Seq<OpView>, c: Seq<OpView>, c2: Seq<OpView>)
    requires
        relaxed_from(a, c),
        below_all_fits(a, c),
        relaxed_from(c, c2),
        targets_resolved(a),
        forall|k: int| 0 <= k < c.len() && #[trigger] c2[k] != c[k] ==> !branch_fits(c, k),
    ensures
        below_all_fits(a, c2),
{
    assert forall|s: Seq<OpView>| #[trigger] relaxed_from(a, s) && short_branches_fit(s) implies relaxed_within(a, c2, s) by {
        assert(relaxed_within(a, c, s));
        assert forall|k: int| 0 <= k < a.len() && #[trigger] c2[k] != a[k] implies s[k] != a[k] by {
            if c[k] != a[k] {
            } else {
                assert(c2[k] != c[k]);
                assert(!branch_fits(c, k));
                if s[k] == a[k] {
                    lemma_miss_persists(a, c, s, k);
                    assert(a[k] matches OpView::Instr(InstView::Branch { mode, .. }) && mode == BranchSizeMode::Short);
                    assert(branch_fits(s, k));
                }
            }
        }
    }
}

/// A text below a relaxation is no longer than it.
proof fn lemma_below_size(a: Seq<OpView>, c: Seq<OpView>, s: Seq<OpView>)
    requires
        relaxed_from(a, c),
        relaxed_from(a, s),
        relaxed_within(a, c, s),
    ensures
        text_offset(c, c.len() as int) <= text_offset(s, s.len() as int),
{
    lemma_offsets_spread(a, c, s, 0, a.len() as int);
}

/// Relaxes, in one pass, every short branch that does not reach its target
/// in the layout `offs` describes.
fn relax_round(ops: &mut Vec<AsmOp>, offs: &Vec<u64>) -> (changed: bool)
    requires
        offs@.len() == old(ops)@.len() + 1,
        forall|k: int| 0 <= k <= old(ops)@.len() ==> #[trigger] offs@[k] as int == text_offset(ops_view(old(ops)@), k),
        targets_resolved(ops_view(old(ops)@)),
        text_offset(ops_view(old(ops)@), old(ops)@.len() as int) <= max_text_size(),
    ensures
        relaxed_from(ops_view(old(ops)@), ops_view(final(ops)@)),
        !changed ==> ops_view(final(ops)@) == ops_view(old(ops)@) && short_branches_fit(ops_view(old(ops)@)),
        changed ==> short_count(ops_view(final(ops)@), old(ops)@.len() as int) < short_count(
            ops_view(old(ops)@), old(ops)@.len() as int),
        forall|j: int| 0 <= j < old(ops)@.len() && #[trigger] ops_view(final(ops)@)[j] != ops_view(old(ops)@)[j] ==> !branch_fits(
            ops_view(old(ops)@), j),
{
    let ghost a = ops_view(ops@);
    let n = ops.len();
    let mut changed = false;
    let mut k: usize = 0;
    proof {
        lemma_offset_monotone(a, 0, n as int);
    }
    while k < n
        invariant
            n == ops@.len(),
            k <= n,
            a.len() == n,
            offs@.len() == n + 1,
            forall|j: int| 0 <= j <= n ==> #[trigger] offs@[j] as int == text_offset(a, j),
            targets_resolved(a),
            text_offset(a, n as int) <= max_text_size(),
            relaxed_from(a, ops_view(ops@)),
            forall|j: int| k <= j < n ==> ops_view(ops@)[j] == a[j],
            forall|j: int| 0 <= j < k && #[trigger] ops_view(ops@)[j] == a[j] ==> ((a[j] matches OpView::Instr(
                InstView::Branch { mode, .. }) && mode == BranchSizeMode::Short) ==> branch_fits(a, j)),
            changed <==> exists|j: int| 0 <= j < k && ops_view(ops@)[j] != a[j],
            forall|j: int| 0 <= j < k && #[trigger] ops_view(ops@)[j] != a[j] ==> !branch_fits(a, j),
        decreases n - k,
    {
        let mut replacement: Option<AsmOp> = None;
        if let AsmOp::Instr(Instruction::Branch { f3, rs1, rs2, target, mode }) = &ops[k] {
            if let BranchSizeMode::Short = mode {
                assert(a[k as int] == ops_view(ops@)[k as int]);
                proof {
                    lemma_relaxed_labels(a, ops_view(ops@), target@, 0);
                }
                match find_label(ops, target) {
                    Some(p) => {
                        proof {
                            lemma_offset_monotone(a, p as int, n as int);
                            lemma_offset_monotone(a, k as int, n as int);
                        }
                        let d: i64 = (offs[p] as i64) - (offs[k] as i64);
                        assert(d as int == text_offset(a, p as int) - text_offset(a, k as int));
                        if !(-4096 <= d && d <= 4094 && d % 2 == 0) {
                            assert(!branch_fits(a, k as int)) by {
                                if d % 2 != 0 {
                                    assert((d as int) % 2 != 0) by (nonlinear_arith)
                                        requires d % 2 != 0;
                                }
                            }
                            replacement = Some(AsmOp::Instr(Instruction::Branch {
                                f3: *f3,
                                rs1: *rs1,
                                rs2: *rs2,
                                target: target.clone(),
                                mode: BranchSizeMode::Relaxed,
                            }));
                        }
                    },
                    None => {
                        assert(false);
                    },
                }
            }
        }
        if let Some(op) = replacement {
            let ghost before = ops_view(ops@);
            ops.set(k, op);
            assert(ops_view(ops@) =~= before.update(k as int, op.view()));
            assert(ops_view(ops@)[k as int] != a[k as int]);
            changed = true;
        }
        k = k + 1;
    }
    proof {
        if !changed {
            assert(ops_view(ops@) =~= a);
        } else {
            lemma_relaxed_count(a, ops_view(ops@), n as int);
        }
    }
    changed
}

/// Relaxes conditional branches until every short branch reaches its target.
/// Fails when the text grows beyond the size the assembler lays out.
pub fn relax_branches(ops: &mut Vec<AsmOp>) -> (r: Result<(), CompileError>)
    requires
        targets_resolved(ops_view(old(ops)@)),
    ensures
        relaxed_from(ops_view(old(ops)@), ops_view(final(ops)@)),
        r is Ok ==> least_relaxation(ops_view(old(ops)@), ops_view(final(ops)@)) && text_offset(
            ops_view(final(ops)@),
            final(ops)@.len() as int,
        ) <= max_text_size(),
        r is Ok <==> relaxation_fits(ops_view(old(ops)@)),
        r is Err ==> text_offset(ops_view(final(ops)@), final(ops)@.len() as int) > max_text_size(),
        r matches Err(e) ==> e.message@ == "assembly text is too large"@,
{
    let ghost a = ops_view(ops@);
    proof {
        lemma_relaxed_refl(a);
    }
    assert(below_all_fits(a, a));
    loop
        invariant
            a == ops_view(old(ops)@),
            relaxed_from(a, ops_view(ops@)),
            targets_resolved(ops_view(ops@)),
            targets_resolved(a),
            below_all_fits(a, ops_view(ops@)),
        decreases short_count(ops_view(ops@), ops@.len() as int),
    {
        let offs = match text_offsets(ops) {
            Ok(offs) => offs,
            Err(e) => {
                proof {
                    let c = ops_view(ops@);
                    assert forall|c2: Seq<OpView>| #[trigger] relaxed_from(a, c2) && short_branches_fit(c2) implies text_offset(
                        c2,
                        c2.len() as int,
                    ) > max_text_size() by {
                        assert(relaxed_within(a, c, c2));
                        lemma_below_size(a, c, c2);
                    }
                }
                return Err(e);
            },
        };
        let ghost before = ops_view(ops@);
        let changed = relax_round(ops, &offs);
        proof {
            lemma_round_below(a, before, ops_view(ops@));
            lemma_relaxed_trans(a, before, ops_view(ops@));
            assert forall|k: int| 0 <= k < ops@.len() implies (#[trigger] ops_view(ops@)[k] matches OpView::Instr(
                InstView::Branch { target, .. }) ==> label_index(ops_view(ops@), target) is Some) by {
                let b = ops_view(ops@);
                assert(b[k] == before[k] || before[k] is Instr);
                if let OpView::Instr(InstView::Branch { target, .. }) = b[k] {
                    lemma_relaxed_labels(before, b, target, 0);
                }
            }
        }
        if !changed {
            proof {
                assert(relaxed_from(a, ops_view(ops@)) && short_branches_fit(ops_view(ops@)) && text_offset(
                    ops_view(ops@),
                    ops_view(ops@).len() as int,
                ) <= max_text_size());
            }
            return Ok(());
        }
    }
}

} // verus!
