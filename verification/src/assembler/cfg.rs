//! Machine basic blocks of the laid-out text section and the control-flow
//! edges between them.

use vstd::prelude::*;
use crate::assembler::instr::{InstView, Instruction};
use crate::assembler::layout::{find_label, inst_size, inst_size_exec, label_index, max_text_size, text_offset};
use crate::assembler::parse::{ops_view, AsmOp, OpView};
use crate::error::CompileError;
use crate::text::string_push_str;

verus! {

broadcast use vstd::std_specs::vec::group_vec_axioms;

/// How a machine block ends.
#[derive(Clone, Debug, PartialEq, Eq)]
pub enum MachineTerminator {
    /// A conditional branch; control may also fall through.
    ConditionalBranch { target: String },
    /// An unconditional jump.
    Jump { target: String },
    Return,
    /// Control falls into the next block (or off the end of the text).
    Fallthrough,
}

pub enum TermView {
    ConditionalBranch(Seq<char>),
    Jump(Seq<char>),
    Return,
    Fallthrough,
}

impl MachineTerminator {
    pub open spec fn view(&self) -> TermView {
        match *self {
            MachineTerminator::ConditionalBranch { target } => TermView::ConditionalBranch(target@),
            MachineTerminator::Jump { target } => TermView::Jump(target@),
            MachineTerminator::Return => TermView::Return,
            MachineTerminator::Fallthrough => TermView::Fallthrough,
        }
    }
}

/// A straight-line run of text instructions entered only at its start.
#[derive(Clone, Debug, PartialEq, Eq)]
pub struct MachineBlock {
    /// The first label naming the block's start, if any.
    pub label: Option<String>,
    /// Index of the block's first instruction among the text operations.
    pub first_op: usize,
    /// One past the block's last instruction.
    pub end_op: usize,
    pub byte_start: usize,
    pub byte_size: usize,
    pub instruction_count: usize,
    pub terminator: MachineTerminator,
}

pub struct BlockView {
    pub label: Option<Seq<char>>,
    pub first_op: int,
    pub end_op: int,
    pub byte_start: int,
    pub byte_size: int,
    pub count: int,
    pub term: TermView,
}

impl MachineBlock {
    pub open spec fn view(&self) -> BlockView {
        BlockView {
            label: match self.label {
                Some(l) => Some(l@),
                None => None,
            },
            first_op: self.first_op as int,
            end_op: self.end_op as int,
            byte_start: self.byte_start as int,
            byte_size: self.byte_size as int,
            count: self.instruction_count as int,
            term: self.terminator.view(),
        }
    }
}

pub open spec fn blocks_view(bs: Seq<MachineBlock>) -> Seq<BlockView> {
    bs.map_values(|b: MachineBlock| b.view())
}

#[derive(Clone, Copy, Debug, PartialEq, Eq, Structural)]
pub enum MachineCfgEdgeKind {
    ConditionalTaken,
    ConditionalFallthrough,
    Jump,
    Call,
    Fallthrough,
}

#[derive(Clone, Copy, Debug, PartialEq, Eq, Structural)]
pub struct MachineCfgEdge {
    pub from: usize,
    pub to: usize,
    pub kind: MachineCfgEdgeKind,
}

/// The blocks of the text and the edges between them.
#[derive(Clone, Debug, PartialEq, Eq)]
pub struct MachineCfg {
    pub blocks: Vec<MachineBlock>,
    pub edges: Vec<MachineCfgEdge>,
}

// ---------------------------------------------------------------------------
// Block formation
// ---------------------------------------------------------------------------

/// How an instruction ends a block, if it does.
pub open spec fn terminator_of(i: InstView) -> Option<TermView> {
    match i {
        InstView::Branch { target, .. } => Some(TermView::ConditionalBranch(target)),
        InstView::Jump { rd, target } => if rd == 0 { Some(TermView::Jump(target)) } else { None },
        InstView::Ret => Some(TermView::Return),
        _ => None,
    }
}

/// Blocks closed so far, the open block, and the label waiting for the next block.
pub struct BuildView {
    pub blocks: Seq<BlockView>,
    pub cur: Option<BlockView>,
    pub pending: Option<Seq<char>>,
}

pub open spec fn build_step(st: BuildView, ops: Seq<OpView>, k: int) -> BuildView {
    match ops[k] {
        OpView::Label(n) => match st.cur {
            Some(b) => BuildView {
                blocks: st.blocks.push(BlockView { end_op: k, term: TermView::Fallthrough, ..b }),
                cur: None,
                pending: Some(n),
            },
            None => BuildView { pending: if st.pending is Some { st.pending } else { Some(n) }, ..st },
        },
        OpView::Instr(i) => {
            let b0 = match st.cur {
                Some(b) => b,
                None => BlockView {
                    label: st.pending,
                    first_op: k,
                    end_op: k,
                    byte_start: text_offset(ops, k),
                    byte_size: 0,
                    count: 0,
                    term: TermView::Fallthrough,
                },
            };
            let pending = match st.cur {
                Some(_) => st.pending,
                None => None,
            };
            let b1 = BlockView { byte_size: b0.byte_size + inst_size(i), count: b0.count + 1, end_op: k + 1, ..b0 };
            match terminator_of(i) {
                Some(t) => BuildView { blocks: st.blocks.push(BlockView { term: t, ..b1 }), cur: None, pending },
                None => BuildView { blocks: st.blocks, cur: Some(b1), pending },
            }
        },
        _ => st,
    }
}

pub open spec fn build_upto(ops: Seq<OpView>, k: int) -> BuildView
    decreases k,
{
    if k <= 0 {
        BuildView { blocks: Seq::empty(), cur: None, pending: None }
    } else {
        build_step(build_upto(ops, k - 1), ops, k - 1)
    }
}

/// The machine blocks of the text operations.
pub open spec fn spec_blocks(ops: Seq<OpView>) -> Seq<BlockView> {
    let st = build_upto(ops, ops.len() as int);
    match st.cur {
        Some(b) => st.blocks.push(BlockView { end_op: ops.len() as int, term: TermView::Fallthrough, ..b }),
        None => st.blocks,
    }
}

/// The total byte size of the blocks.
pub open spec fn blocks_size(bs: Seq<BlockView>) -> int
    decreases bs.len(),
{
    if bs.len() == 0 {
        0
    } else {
        blocks_size(bs.drop_last()) + bs.last().byte_size
    }
}

/// The total instruction count of the blocks.
pub open spec fn blocks_count(bs: Seq<BlockView>) -> int
    decreases bs.len(),
{
    if bs.len() == 0 {
        0
    } else {
        blocks_count(bs.drop_last()) + bs.last().count
    }
}

/// The number of instructions among the first `k` operations.
pub open spec fn instr_count(ops: Seq<OpView>, k: int) -> int
    decreases k,
{
    if k <= 0 {
        0
    } else {
        instr_count(ops, k - 1) + (if ops[k - 1] is Instr { 1int } else { 0int })
    }
}

fn terminator_exec(i: &Instruction) -> (r: Option<MachineTerminator>)
    ensures
        r matches Some(t) ==> terminator_of(i.view()) == Some(t.view()),
        r is None ==> terminator_of(i.view()) is None,
{
    match i {
        Instruction::Branch { target, .. } => Some(MachineTerminator::ConditionalBranch { target: target.clone() }),
        Instruction::Jump { rd, target } => if *rd == 0 {
            Some(MachineTerminator::Jump { target: target.clone() })
        } else {
            None
        },
        Instruction::Ret => Some(MachineTerminator::Return),
        _ => None,
    }
}

fn clone_label(l: &Option<String>) -> (r: Option<String>)
    ensures
        r == *l,
{
    match l {
        Some(s) => Some(s.clone()),
        None => None,
    }
}

/// Splits the text into machine blocks: a block starts at its first
/// instruction after a label or after a block-ending instruction, and ends
/// with a branch, `j`, `ret`, or just before the next label.
pub fn build_blocks(ops: &Vec<AsmOp>, offs: &Vec<u64>) -> (r: Vec<MachineBlock>)
    requires
        offs@.len() == ops@.len() + 1,
        forall|k: int| 0 <= k <= ops@.len() ==> #[trigger] offs@[k] as int == text_offset(ops_view(ops@), k),
        text_offset(ops_view(ops@), ops@.len() as int) <= max_text_size(),
    ensures
        blocks_view(r@) == spec_blocks(ops_view(ops@)),
        blocks_size(blocks_view(r@)) == text_offset(ops_view(ops@), ops@.len() as int),
        blocks_count(blocks_view(r@)) == instr_count(ops_view(ops@), ops@.len() as int),
        blocks_well_formed(blocks_view(r@), ops@.len() as int),
        forall|j: int| 0 <= j < r@.len() ==> #[trigger] r@[j].byte_size <= max_text_size(),
{
    let ghost v = ops_view(ops@);
    let n = ops.len();
    let mut blocks: Vec<MachineBlock> = Vec::new();
    let mut cur: Option<MachineBlock> = None;
    let mut pending: Option<String> = None;
    let mut k: usize = 0;
    proof {
        crate::assembler::layout::lemma_offset_monotone(v, 0, n as int);
    }
    assert(blocks_view(blocks@) =~= Seq::<BlockView>::empty());
    while k < n
        invariant
            n == ops@.len(),
            k <= n,
            v == ops_view(ops@),
            offs@.len() == n + 1,
            forall|j: int| 0 <= j <= n ==> #[trigger] offs@[j] as int == text_offset(v, j),
            text_offset(v, n as int) <= max_text_size(),
            build_upto(v, k as int) == (BuildView {
                blocks: blocks_view(blocks@),
                cur: match cur {
                    Some(b) => Some(b.view()),
                    None => None,
                },
                pending: match pending {
                    Some(p) => Some(p@),
                    None => None,
                },
            }),
            cur matches Some(b) ==> b.byte_start + b.byte_size == text_offset(v, k as int) && b.instruction_count
                <= k,
            blocks_size(blocks_view(blocks@)) + (match cur {
                Some(b) => b.byte_size as int,
                None => 0,
            }) == text_offset(v, k as int),
            blocks_count(blocks_view(blocks@)) + (match cur {
                Some(b) => b.instruction_count as int,
                None => 0,
            }) == instr_count(v, k as int),
            blocks_well_formed(blocks_view(blocks@), k as int),
            cur matches Some(b) ==> b.first_op <= k,
            forall|j: int| 0 <= j < blocks@.len() ==> #[trigger] blocks@[j].byte_size <= text_offset(v, k as int),
        decreases n - k,
    {
        proof {
            crate::assembler::layout::lemma_offset_monotone(v, k as int + 1, n as int);
            crate::assembler::layout::lemma_op_size_nonneg(v[k as int]);
        }
        let ghost ob = blocks@;
        assert(text_offset(v, k + 1) == text_offset(v, k as int) + crate::assembler::layout::op_size(v[k as int]));
        assert(instr_count(v, k + 1) == instr_count(v, k as int) + (if v[k as int] is Instr { 1int } else { 0int }));
        match &ops[k] {
            AsmOp::Label(name) => {
                match cur {
                    Some(b) => {
                        let closed = MachineBlock { end_op: k, terminator: MachineTerminator::Fallthrough, ..b };
                        blocks.push(closed);
                        cur = None;
                        pending = Some(name.clone());
                    },
                    None => {
                        if pending.is_none() {
                            pending = Some(name.clone());
                        }
                    },
                }
            },
            AsmOp::Instr(inst) => {
                let b0 = match cur {
                    Some(b) => b,
                    None => {
                        let label = clone_label(&pending);
                        pending = None;
                        MachineBlock {
                            label,
                            first_op: k,
                            end_op: k,
                            byte_start: offs[k] as usize,
                            byte_size: 0,
                            instruction_count: 0,
                            terminator: MachineTerminator::Fallthrough,
                        }
                    },
                };
                let sz = inst_size_exec(inst) as usize;
                assert(v[k as int] == OpView::Instr(inst.view()));
                assert(text_offset(v, k + 1) == text_offset(v, k as int) + inst_size(inst.view()));
                let b1 = MachineBlock {
                    byte_size: b0.byte_size + sz,
                    instruction_count: b0.instruction_count + 1,
                    end_op: k + 1,
                    ..b0
                };
                match terminator_exec(inst) {
                    Some(t) => {
                        blocks.push(MachineBlock { terminator: t, ..b1 });
                        cur = None;
                    },
                    None => {
                        cur = Some(b1);
                    },
                }
            },
            _ => {},
        }
        k = k + 1;
        proof {
            assert(blocks_view(blocks@) =~= build_upto(v, k as int).blocks);
            if blocks@.len() > ob.len() {
                assert(blocks_view(blocks@).drop_last() =~= blocks_view(ob));
            } else {
                assert(blocks_view(blocks@) =~= blocks_view(ob));
            }
        }
    }
    let ghost before = blocks@;
    match cur {
        Some(b) => {
            blocks.push(MachineBlock { end_op: n, terminator: MachineTerminator::Fallthrough, ..b });
            assert(blocks_view(blocks@).drop_last() =~= blocks_view(before));
        },
        None => {},
    }
    assert(blocks_view(blocks@) =~= spec_blocks(v));
    blocks
}

// ---------------------------------------------------------------------------
// Edges
// ---------------------------------------------------------------------------

/// Index of the first instruction at or after `i`.
pub open spec fn first_instr_from(ops: Seq<OpView>, i: int) -> Option<int>
    decreases ops.len() - i,
{
    if i < 0 || i >= ops.len() {
        None
    } else if ops[i] is Instr {
        Some(i)
    } else {
        first_instr_from(ops, i + 1)
    }
}

/// Index of the first block at or after `j` whose first instruction is operation `q`.
pub open spec fn block_starting_at(blocks: Seq<BlockView>, q: int, j: int) -> Option<int>
    decreases blocks.len() - j,
{
    if j < 0 || j >= blocks.len() {
        None
    } else if blocks[j].first_op == q {
        Some(j)
    } else {
        block_starting_at(blocks, q, j + 1)
    }
}

/// The block that a text label names: the one holding the first instruction after it.
pub open spec fn label_block(blocks: Seq<BlockView>, ops: Seq<OpView>, name: Seq<char>) -> Option<int> {
    match label_index(ops, name) {
        Some(p) => match first_instr_from(ops, p + 1) {
            Some(q) => block_starting_at(blocks, q, 0),
            None => None,
        },
        None => None,
    }
}

pub open spec fn edge(from: int, to: int, kind: MachineCfgEdgeKind) -> MachineCfgEdge {
    MachineCfgEdge { from: from as usize, to: to as usize, kind }
}

/// Call edges of block `bi` from the calls among operations `[lo, hi)`.
pub open spec fn call_edges(blocks: Seq<BlockView>, ops: Seq<OpView>, bi: int, lo: int, hi: int) -> Option<Seq<MachineCfgEdge>>
    decreases hi - lo,
{
    if hi <= lo {
        Some(Seq::empty())
    } else {
        match call_edges(blocks, ops, bi, lo, hi - 1) {
            None => None,
            Some(es) => match ops[hi - 1] {
                OpView::Instr(InstView::Jump { rd, target }) => if rd != 0 {
                    match label_block(blocks, ops, target) {
                        Some(t) => Some(es.push(edge(bi, t, MachineCfgEdgeKind::Call))),
                        None => None,
                    }
                } else {
                    Some(es)
                },
                _ => Some(es),
            },
        }
    }
}

/// The edges that block `bi`'s terminator adds.
pub open spec fn term_edges(blocks: Seq<BlockView>, ops: Seq<OpView>, bi: int) -> Option<Seq<MachineCfgEdge>> {
    let has_next = bi + 1 < blocks.len();
    match blocks[bi].term {
        TermView::ConditionalBranch(t) => match label_block(blocks, ops, t) {
            Some(to) => Some(if has_next {
                seq![edge(bi, to, MachineCfgEdgeKind::ConditionalTaken), edge(bi, bi + 1, MachineCfgEdgeKind::ConditionalFallthrough)]
            } else {
                seq![edge(bi, to, MachineCfgEdgeKind::ConditionalTaken)]
            }),
            None => None,
        },
        TermView::Jump(t) => match label_block(blocks, ops, t) {
            Some(to) => Some(seq![edge(bi, to, MachineCfgEdgeKind::Jump)]),
            None => None,
        },
        TermView::Return => Some(Seq::empty()),
        TermView::Fallthrough => Some(if has_next { seq![edge(bi, bi + 1, MachineCfgEdgeKind::Fallthrough)] } else { Seq::empty() }),
    }
}

/// The edges of the first `k` blocks: each block's calls, in order, then its terminator's edges.
pub open spec fn spec_edges(blocks: Seq<BlockView>, ops: Seq<OpView>, k: int) -> Option<Seq<MachineCfgEdge>>
    decreases k,
{
    if k <= 0 {
        Some(Seq::empty())
    } else {
        match spec_edges(blocks, ops, k - 1) {
            None => None,
            Some(es) => match call_edges(blocks, ops, k - 1, blocks[k - 1].first_op, blocks[k - 1].end_op) {
                None => None,
                Some(cs) => match term_edges(blocks, ops, k - 1) {
                    None => None,
                    Some(ts) => Some(es + cs + ts),
                },
            },
        }
    }
}

fn first_instr_exec(ops: &Vec<AsmOp>, i: usize) -> (r: Option<usize>)
    ensures
        r matches Some(q) ==> first_instr_from(ops_view(ops@), i as int) == Some(q as int),
        r is None ==> first_instr_from(ops_view(ops@), i as int) is None,
{
    let ghost v = ops_view(ops@);
    let mut k = i;
    while k < ops.len()
        invariant
            i <= k,
            v == ops_view(ops@),
            first_instr_from(v, i as int) == first_instr_from(v, k as int),
        decreases ops@.len() - k,
    {
        if let AsmOp::Instr(_) = &ops[k] {
            assert(v[k as int] is Instr);
            return Some(k);
        }
        k = k + 1;
    }
    None
}

fn block_starting_exec(blocks: &Vec<MachineBlock>, q: usize) -> (r: Option<usize>)
    ensures
        r matches Some(j) ==> block_starting_at(blocks_view(blocks@), q as int, 0) == Some(j as int) && j < blocks@.len(),
        r is None ==> block_starting_at(blocks_view(blocks@), q as int, 0) is None,
{
    let ghost v = blocks_view(blocks@);
    let mut j: usize = 0;
    while j < blocks.len()
        invariant
            j <= blocks@.len(),
            v == blocks_view(blocks@),
            block_starting_at(v, q as int, 0) == block_starting_at(v, q as int, j as int),
        decreases blocks@.len() - j,
    {
        if blocks[j].first_op == q {
            return Some(j);
        }
        j = j + 1;
    }
    None
}

/// The block a text label names.
pub fn label_block_exec(blocks: &Vec<MachineBlock>, ops: &Vec<AsmOp>, name: &String) -> (r: Option<usize>)
    ensures
        r matches Some(j) ==> label_block(blocks_view(blocks@), ops_view(ops@), name@) == Some(j as int) && j < blocks@.len(),
        r is None ==> label_block(blocks_view(blocks@), ops_view(ops@), name@) is None,
{
    let n = ops.len();
    match find_label(ops, name) {
        Some(p) => match first_instr_exec(ops, p + 1) {
            Some(q) => block_starting_exec(blocks, q),
            None => None,
        },
        None => None,
    }
}

fn call_edges_exec(blocks: &Vec<MachineBlock>, ops: &Vec<AsmOp>, bi: usize, es: &mut Vec<MachineCfgEdge>) -> (r: Result<(), CompileError>)
    requires
        bi < blocks@.len(),
        blocks@[bi as int].first_op <= blocks@[bi as int].end_op <= ops@.len(),
    ensures
        r is Ok <==> call_edges(blocks_view(blocks@), ops_view(ops@), bi as int, blocks@[bi as int].first_op as int,
            blocks@[bi as int].end_op as int) is Some,
        r is Ok ==> final(es)@ == old(es)@ + call_edges(blocks_view(blocks@), ops_view(ops@), bi as int,
            blocks@[bi as int].first_op as int, blocks@[bi as int].end_op as int)->0,
{
    let ghost bv = blocks_view(blocks@);
    let ghost v = ops_view(ops@);
    let lo = blocks[bi].first_op;
    let hi = blocks[bi].end_op;
    let mut k = lo;
    assert(old(es)@ + Seq::<MachineCfgEdge>::empty() =~= old(es)@);
    while k < hi
        invariant
            lo <= k <= hi <= ops@.len(),
            lo == blocks@[bi as int].first_op,
            hi == blocks@[bi as int].end_op,
            bv == blocks_view(blocks@),
            v == ops_view(ops@),
            bi < blocks@.len(),
            call_edges(bv, v, bi as int, lo as int, k as int) is Some,
            es@ == old(es)@ + call_edges(bv, v, bi as int, lo as int, k as int)->0,
        decreases hi - k,
    {
        if let AsmOp::Instr(Instruction::Jump { rd, target }) = &ops[k] {
            if *rd != 0 {
                match label_block_exec(blocks, ops, target) {
                    Some(t) => {
                        es.push(MachineCfgEdge { from: bi, to: t, kind: MachineCfgEdgeKind::Call });
                    },
                    None => {
                        proof {
                            assert(v[k as int] == OpView::Instr(InstView::Jump { rd: *rd, target: target@ }));
                            assert(call_edges(bv, v, bi as int, lo as int, k as int + 1) is None);
                            lemma_call_edges_none(bv, v, bi as int, lo as int, k as int + 1, hi as int);
                            assert(call_edges(bv, v, bi as int, lo as int, hi as int) is None);
                            assert(lo == blocks@[bi as int].first_op);
                            assert(hi == blocks@[bi as int].end_op);
                            assert(call_edges(blocks_view(blocks@), ops_view(ops@), bi as int, blocks@[bi as int].first_op as int,
                                blocks@[bi as int].end_op as int) is None);
                        }
                        return Err(crate::assembler::layout::not_a_block(target));
                    },
                }
            }
        }
        k = k + 1;
    }
    Ok(())
}

proof fn lemma_call_edges_none(blocks: Seq<BlockView>, ops: Seq<OpView>, bi: int, lo: int, k: int, hi: int)
    requires
        lo <= k <= hi,
        call_edges(blocks, ops, bi, lo, k) is None,
    ensures
        call_edges(blocks, ops, bi, lo, hi) is None,
    decreases hi - k,
{
    if k < hi {
        lemma_call_edges_none(blocks, ops, bi, lo, k + 1, hi);
    }
}

proof fn lemma_spec_edges_none(blocks: Seq<BlockView>, ops: Seq<OpView>, k: int, n: int)
    requires
        0 <= k <= n,
        spec_edges(blocks, ops, k) is None,
    ensures
        spec_edges(blocks, ops, n) is None,
    decreases n - k,
{
    if k < n {
        lemma_spec_edges_none(blocks, ops, k + 1, n);
    }
}

/// Blocks cover valid operation ranges.
pub open spec fn blocks_well_formed(blocks: Seq<BlockView>, n_ops: int) -> bool {
    forall|j: int| 0 <= j < blocks.len() ==> 0 <= #[trigger] blocks[j].first_op <= blocks[j].end_op <= n_ops
}

/// The control-flow edges between the blocks; fails when a call, jump or
/// branch names a label that starts no block.
pub fn build_edges(blocks: &Vec<MachineBlock>, ops: &Vec<AsmOp>) -> (r: Result<Vec<MachineCfgEdge>, CompileError>)
    requires
        blocks_well_formed(blocks_view(blocks@), ops@.len() as int),
    ensures
        r is Ok <==> spec_edges(blocks_view(blocks@), ops_view(ops@), blocks@.len() as int) is Some,
        r matches Ok(es) ==> es@ == spec_edges(blocks_view(blocks@), ops_view(ops@), blocks@.len() as int)->0,
{
    let ghost bv = blocks_view(blocks@);
    let ghost v = ops_view(ops@);
    let nb = blocks.len();
    let mut es: Vec<MachineCfgEdge> = Vec::new();
    let mut bi: usize = 0;
    assert(es@ =~= Seq::<MachineCfgEdge>::empty());
    while bi < nb
        invariant
            nb == blocks@.len(),
            bi <= nb,
            bv == blocks_view(blocks@),
            v == ops_view(ops@),
            blocks_well_formed(bv, ops@.len() as int),
            spec_edges(bv, v, bi as int) is Some,
            es@ == spec_edges(bv, v, bi as int)->0,
        decreases nb - bi,
    {
        assert(bv[bi as int].first_op <= bv[bi as int].end_op <= ops@.len());
        let ghost before = es@;
        if let Err(e) = call_edges_exec(blocks, ops, bi, &mut es) {
            proof {
                lemma_spec_edges_none(bv, v, bi as int + 1, nb as int);
            }
            return Err(e);
        }
        let ghost mid = es@;
        let has_next = bi + 1 < nb;
        match &blocks[bi].terminator {
            MachineTerminator::ConditionalBranch { target } => match label_block_exec(blocks, ops, target) {
                Some(to) => {
                    es.push(MachineCfgEdge { from: bi, to, kind: MachineCfgEdgeKind::ConditionalTaken });
                    if has_next {
                        es.push(MachineCfgEdge { from: bi, to: bi + 1, kind: MachineCfgEdgeKind::ConditionalFallthrough });
                    }
                },
                None => {
                    proof {
                        lemma_spec_edges_none(bv, v, bi as int + 1, nb as int);
                    }
                    return Err(crate::assembler::layout::not_a_block(target));
                },
            },
            MachineTerminator::Jump { target } => match label_block_exec(blocks, ops, target) {
                Some(to) => {
                    es.push(MachineCfgEdge { from: bi, to, kind: MachineCfgEdgeKind::Jump });
                },
                None => {
                    proof {
                        lemma_spec_edges_none(bv, v, bi as int + 1, nb as int);
                    }
                    return Err(crate::assembler::layout::not_a_block(target));
                },
            },
            MachineTerminator::Return => {},
            MachineTerminator::Fallthrough => {
                if has_next {
                    es.push(MachineCfgEdge { from: bi, to: bi + 1, kind: MachineCfgEdgeKind::Fallthrough });
                }
            },
        }
        proof {
            let cs = call_edges(bv, v, bi as int, bv[bi as int].first_op, bv[bi as int].end_op)->0;
            let ts = term_edges(bv, v, bi as int)->0;
            assert(es@ =~= before + cs + ts);
        }
        bi = bi + 1;
    }
    Ok(es)
}

// ---------------------------------------------------------------------------
// Every label that precedes an instruction names a block
// ---------------------------------------------------------------------------

/// A label leaves no block open.
proof fn lemma_label_closes(ops: Seq<OpView>, p: int)
    requires
        0 <= p < ops.len(),
        ops[p] is Label,
    ensures
        build_upto(ops, p + 1).cur is None,
{
}

/// Labels keep the open block closed.
proof fn lemma_labels_keep_closed(ops: Seq<OpView>, p: int, q: int)
    requires
        0 <= p < q <= ops.len(),
        build_upto(ops, p + 1).cur is None,
        forall|k: int| p < k < q ==> !(#[trigger] ops[k] is Instr),
    ensures
        build_upto(ops, q).cur is None,
    decreases q - p,
{
    if q > p + 1 {
        lemma_labels_keep_closed(ops, p, q - 1);
        assert(!(ops[q - 1] is Instr));
    }
}

/// The block the instruction at `q` opens.
pub open spec fn has_block_at(st: BuildView, q: int) -> bool {
    (exists|j: int| 0 <= j < st.blocks.len() && #[trigger] st.blocks[j].first_op == q) || (st.cur matches Some(b) && b.first_op == q)
}

proof fn lemma_block_opens(ops: Seq<OpView>, q: int)
    requires
        0 <= q < ops.len(),
        ops[q] is Instr,
        build_upto(ops, q).cur is None,
    ensures
        has_block_at(build_upto(ops, q + 1), q),
{
    let st = build_upto(ops, q);
    let st2 = build_upto(ops, q + 1);
    if st2.cur is None {
        assert(st2.blocks.last().first_op == q);
        assert(st2.blocks[st2.blocks.len() - 1].first_op == q);
    }
}

proof fn lemma_block_stays(ops: Seq<OpView>, q: int, k: int)
    requires
        0 <= q < k <= ops.len(),
        has_block_at(build_upto(ops, k), q),
    ensures
        has_block_at(build_upto(ops, ops.len() as int), q),
    decreases ops.len() - k,
{
    if k < ops.len() {
        let st = build_upto(ops, k);
        let st2 = build_upto(ops, k + 1);
        if exists|j: int| 0 <= j < st.blocks.len() && #[trigger] st.blocks[j].first_op == q {
            let j = choose|j: int| 0 <= j < st.blocks.len() && #[trigger] st.blocks[j].first_op == q;
            assert(st2.blocks[j] == st.blocks[j]);
        } else {
            if st2.cur is None {
                assert(st2.blocks[st2.blocks.len() - 1].first_op == q);
            }
        }
        lemma_block_stays(ops, q, k + 1);
    }
}

proof fn lemma_block_starting_found(blocks: Seq<BlockView>, q: int, j: int, w: int)
    requires
        0 <= j <= w < blocks.len(),
        blocks[w].first_op == q,
    ensures
        block_starting_at(blocks, q, j) is Some,
    decreases w - j,
{
    if j < w && blocks[j].first_op != q {
        lemma_block_starting_found(blocks, q, j + 1, w);
    }
}

proof fn lemma_first_instr(ops: Seq<OpView>, i: int)
    requires
        0 <= i,
        exists|k: int| i <= k < ops.len() && ops[k] is Instr,
    ensures
        first_instr_from(ops, i) matches Some(q) && i <= q < ops.len() && ops[q] is Instr && forall|k: int| i <= k < q
            ==> !(#[trigger] ops[k] is Instr),
    decreases ops.len() - i,
{
    if !(ops[i] is Instr) {
        lemma_first_instr(ops, i + 1);
    }
}

/// A text label that an instruction follows names a block.
pub proof fn lemma_label_block_exists(ops: Seq<OpView>, name: Seq<char>)
    requires
        crate::assembler::layout::starts_block(ops, name),
    ensures
        label_block(spec_blocks(ops), ops, name) is Some,
{
    let p = label_index(ops, name)->0;
    crate::assembler::layout::lemma_label_index_contains(ops, name);
    lemma_first_instr(ops, p + 1);
    let q = first_instr_from(ops, p + 1)->0;
    lemma_label_closes(ops, p);
    lemma_labels_keep_closed(ops, p, q);
    lemma_block_opens(ops, q);
    lemma_block_stays(ops, q, q + 1);
    let st = build_upto(ops, ops.len() as int);
    let bs = spec_blocks(ops);
    if exists|j: int| 0 <= j < st.blocks.len() && #[trigger] st.blocks[j].first_op == q {
        let j = choose|j: int| 0 <= j < st.blocks.len() && #[trigger] st.blocks[j].first_op == q;
        assert(bs[j] == st.blocks[j]);
        lemma_block_starting_found(bs, q, 0, j);
    } else {
        assert(bs[bs.len() - 1].first_op == q);
        lemma_block_starting_found(bs, q, 0, bs.len() - 1);
    }
}

pub open spec fn term_target(t: TermView) -> Option<Seq<char>> {
    match t {
        TermView::ConditionalBranch(x) => Some(x),
        TermView::Jump(x) => Some(x),
        _ => None,
    }
}

/// The operation is an instruction that transfers control to `t`.
pub open spec fn transfers_to(o: OpView, t: Seq<char>) -> bool {
    o matches OpView::Instr(i) && crate::assembler::layout::control_target(i) == Some(t)
}

/// Some text instruction transfers control to `t`.
pub open spec fn is_control_target(ops: Seq<OpView>, t: Seq<char>) -> bool {
    exists|k: int| 0 <= k < ops.len() && #[trigger] transfers_to(ops[k], t)
}

proof fn lemma_term_targets_upto(ops: Seq<OpView>, k: int)
    requires
        0 <= k <= ops.len(),
    ensures
        forall|j: int| 0 <= j < build_upto(ops, k).blocks.len() ==> (term_target(#[trigger] build_upto(ops, k).blocks[j].term)
            matches Some(t) ==> is_control_target(ops, t)),
    decreases k,
{
    if k > 0 {
        lemma_term_targets_upto(ops, k - 1);
        let st = build_upto(ops, k - 1);
        let st2 = build_upto(ops, k);
        assert forall|j: int| 0 <= j < st2.blocks.len() implies (term_target(#[trigger] st2.blocks[j].term) matches Some(t)
            ==> is_control_target(ops, t)) by {
            if j < st.blocks.len() {
                assert(st2.blocks[j] == st.blocks[j]);
            } else {
                if let OpView::Instr(i) = ops[k - 1] {
                    if let Some(t) = term_target(st2.blocks[j].term) {
                        assert(crate::assembler::layout::control_target(i) == Some(t));
                        assert(transfers_to(ops[k - 1], t));
                    }
                }
            }
        }
    }
}

proof fn lemma_term_targets(ops: Seq<OpView>)
    ensures
        forall|j: int| 0 <= j < spec_blocks(ops).len() ==> (term_target(#[trigger] spec_blocks(ops)[j].term) matches Some(t)
            ==> is_control_target(ops, t)),
{
    lemma_term_targets_upto(ops, ops.len() as int);
    let st = build_upto(ops, ops.len() as int);
    assert forall|j: int| 0 <= j < spec_blocks(ops).len() implies (term_target(#[trigger] spec_blocks(ops)[j].term)
        matches Some(t) ==> is_control_target(ops, t)) by {
        if j < st.blocks.len() {
            assert(spec_blocks(ops)[j] == st.blocks[j]);
        }
    }
}

/// Every control transfer of the text names a label that starts a block.
pub open spec fn control_targets_start_blocks(ops: Seq<OpView>) -> bool {
    forall|k: int| 0 <= k < ops.len() ==> (#[trigger] ops[k] matches OpView::Instr(i) ==> (
        crate::assembler::layout::control_target(i) matches Some(t) ==> crate::assembler::layout::starts_block(ops, t)))
}

proof fn lemma_call_edges_some(ops: Seq<OpView>, bi: int, lo: int, hi: int)
    requires
        control_targets_start_blocks(ops),
        0 <= lo <= hi <= ops.len(),
    ensures
        call_edges(spec_blocks(ops), ops, bi, lo, hi) is Some,
    decreases hi - lo,
{
    if hi > lo {
        lemma_call_edges_some(ops, bi, lo, hi - 1);
        if let OpView::Instr(InstView::Jump { rd, target }) = ops[hi - 1] {
            assert(crate::assembler::layout::control_target(InstView::Jump { rd, target }) == Some(target));
            lemma_label_block_exists(ops, target);
        }
    }
}

/// When every control transfer names a block, the edges of all blocks exist.
pub proof fn lemma_edges_exist(ops: Seq<OpView>, k: int)
    requires
        control_targets_start_blocks(ops),
        0 <= k <= spec_blocks(ops).len(),
        blocks_well_formed(spec_blocks(ops), ops.len() as int),
    ensures
        spec_edges(spec_blocks(ops), ops, k) is Some,
    decreases k,
{
    if k > 0 {
        lemma_edges_exist(ops, k - 1);
        let bs = spec_blocks(ops);
        lemma_call_edges_some(ops, k - 1, bs[k - 1].first_op, bs[k - 1].end_op);
        lemma_term_targets(ops);
        if let Some(t) = term_target(bs[k - 1].term) {
            let w = choose|w: int| 0 <= w < ops.len() && #[trigger] transfers_to(ops[w], t);
            lemma_label_block_exists(ops, t);
        }
    }
}

} // verus!
