//! Placement of machine blocks in a chosen order, and the check that an
//! order places every block exactly once.

use vstd::prelude::*;
use crate::assembler::cfg::{blocks_size, blocks_view, BlockView, MachineCfg};
use crate::assembler::layout::max_text_size;
use crate::error::CompileError;
use crate::text::{dec_nat, push_decimal_u128, string_push_str};

verus! {

broadcast use vstd::std_specs::vec::group_vec_axioms;

/// A block at its place in a layout.
#[derive(Clone, Copy, Debug, PartialEq, Eq, Structural)]
pub struct MachinePlacedBlock {
    pub block_index: usize,
    pub byte_start: usize,
    pub byte_size: usize,
}

/// The blocks in layout order, each with its byte range.
#[derive(Clone, Debug, PartialEq, Eq)]
pub struct MachineLayoutOrder {
    pub block_order: Vec<usize>,
    pub placed_blocks: Vec<MachinePlacedBlock>,
    pub text_size: usize,
}

/// The byte size of the blocks that `order` lists, in that order.
pub open spec fn order_sum(bs: Seq<BlockView>, order: Seq<usize>) -> int
    decreases order.len(),
{
    if order.len() == 0 {
        0
    } else {
        order_sum(bs, order.drop_last()) + bs[order.last() as int].byte_size
    }
}

pub open spec fn all_below(order: Seq<usize>, m: int) -> bool {
    forall|i: int| 0 <= i < order.len() ==> #[trigger] order[i] < m
}

pub open spec fn distinct(order: Seq<usize>) -> bool {
    forall|i: int, j: int| 0 <= i < j < order.len() ==> order[i] != order[j]
}

/// `order` lists each of `nb` blocks exactly once.
pub open spec fn valid_order(nb: int, order: Seq<usize>) -> bool {
    order.len() == nb && all_below(order, nb) && distinct(order)
}

/// The first problem found scanning `order` from position `i`.
pub open spec fn order_error_from(nb: int, order: Seq<usize>, i: int) -> Option<Seq<char>>
    decreases order.len() - i,
{
    if i < 0 || i >= order.len() {
        None
    } else if order[i] >= nb {
        Some("machine layout order names unknown block "@ + dec_nat(order[i] as nat))
    } else if order.subrange(0, i).contains(order[i]) {
        Some("machine layout order repeats block "@ + dec_nat(order[i] as nat))
    } else {
        order_error_from(nb, order, i + 1)
    }
}

/// Why `order` is not a layout of `nb` blocks, if it is not.
pub open spec fn spec_order_error(nb: int, order: Seq<usize>) -> Option<Seq<char>> {
    if order.len() != nb {
        Some("machine layout order lists "@ + dec_nat(order.len()) + " blocks but the machine CFG has "@ + dec_nat(
            nb as nat))
    } else {
        order_error_from(nb, order, 0)
    }
}

proof fn lemma_order_error_from(nb: int, order: Seq<usize>, i: int)
    requires
        0 <= i <= order.len(),
        all_below(order.subrange(0, i), nb),
        distinct(order.subrange(0, i)),
    ensures
        order_error_from(nb, order, i) is None <==> all_below(order, nb) && distinct(order),
    decreases order.len() - i,
{
    if i < order.len() {
        if order[i] >= nb {
        } else if order.subrange(0, i).contains(order[i]) {
            let j = choose|j: int| 0 <= j < i && order.subrange(0, i)[j] == order[i];
            assert(order[j] == order[i]);
        } else {
            let next = order.subrange(0, i + 1);
            assert forall|a: int| 0 <= a < next.len() implies #[trigger] next[a] < nb by {
                if a < i {
                    assert(next[a] == order.subrange(0, i)[a]);
                }
            }
            assert forall|a: int, b: int| 0 <= a < b < next.len() implies next[a] != next[b] by {
                if b < i {
                    assert(next[a] == order.subrange(0, i)[a] && next[b] == order.subrange(0, i)[b]);
                } else {
                    assert(order.subrange(0, i)[a] == next[a]);
                }
            }
            lemma_order_error_from(nb, order, i + 1);
        }
    } else {
        assert(order.subrange(0, i) =~= order);
    }
}

/// An order is accepted exactly when it lists every block once.
pub proof fn lemma_order_error_iff_valid(nb: int, order: Seq<usize>)
    ensures
        spec_order_error(nb, order) is None <==> valid_order(nb, order),
{
    lemma_order_error_from(nb, order, 0);
}

// ---------------------------------------------------------------------------
// Order independence of the layout size
// ---------------------------------------------------------------------------

proof fn lemma_order_sum_remove(bs: Seq<BlockView>, order: Seq<usize>, i: int)
    requires
        0 <= i < order.len(),
    ensures
        order_sum(bs, order) == order_sum(bs, order.remove(i)) + bs[order[i] as int].byte_size,
    decreases order.len(),
{
    if i == order.len() - 1 {
        assert(order.remove(i) =~= order.drop_last());
    } else {
        let d = order.drop_last();
        lemma_order_sum_remove(bs, d, i);
        assert(order.remove(i).drop_last() =~= d.remove(i));
        assert(order.remove(i).last() == order.last());
    }
}

proof fn lemma_order_sum_prefix_blocks(bs: Seq<BlockView>, cs: Seq<BlockView>, order: Seq<usize>)
    requires
        all_below(order, cs.len() as int),
        cs.len() <= bs.len(),
        forall|j: int| 0 <= j < cs.len() ==> #[trigger] cs[j] == bs[j],
    ensures
        order_sum(bs, order) == order_sum(cs, order),
    decreases order.len(),
{
    if order.len() > 0 {
        assert(order[order.len() - 1] < cs.len());
        lemma_order_sum_prefix_blocks(bs, cs, order.drop_last());
    }
}

proof fn lemma_remove_keeps(order: Seq<usize>, i: int)
    requires
        0 <= i < order.len(),
        distinct(order),
    ensures
        distinct(order.remove(i)),
        forall|a: int| 0 <= a < order.remove(i).len() ==> #[trigger] order.remove(i)[a] != order[i],
        forall|a: int| 0 <= a < order.remove(i).len() ==> #[trigger] order.remove(i)[a] == (if a < i {
            order[a]
        } else {
            order[a + 1]
        }),
{
    let r = order.remove(i);
    assert forall|a: int| 0 <= a < r.len() implies #[trigger] r[a] != order[i] by {
        if a < i {
            assert(r[a] == order[a]);
        } else {
            assert(r[a] == order[a + 1]);
        }
    }
    assert forall|a: int, b: int| 0 <= a < b < r.len() implies r[a] != r[b] by {
        let a2 = if a < i { a } else { a + 1 };
        let b2 = if b < i { b } else { b + 1 };
        assert(r[a] == order[a2] && r[b] == order[b2]);
    }
}

/// Distinct indices below `m` number at most `m`.
proof fn lemma_distinct_len(order: Seq<usize>, m: int)
    requires
        0 <= m,
        all_below(order, m),
        distinct(order),
    ensures
        order.len() <= m,
    decreases m,
{
    if order.len() > 0 {
        if m == 0 {
            assert(order[0] < 0);
        } else if exists|i: int| 0 <= i < order.len() && order[i] == m - 1 {
            let i = choose|i: int| 0 <= i < order.len() && order[i] == m - 1;
            lemma_remove_keeps(order, i);
            let r = order.remove(i);
            assert forall|a: int| 0 <= a < r.len() implies #[trigger] r[a] < m - 1 by {
                if a < i {
                    assert(order[a] < m);
                } else {
                    assert(order[a + 1] < m);
                }
            }
            lemma_distinct_len(r, m - 1);
        } else {
            assert forall|a: int| 0 <= a < order.len() implies #[trigger] order[a] < m - 1 by {
                assert(order[a] < m);
            }
            lemma_distinct_len(order, m - 1);
        }
    }
}

/// Laying the blocks out in any order that lists each block once takes the
/// same number of bytes: the blocks' total size.
pub proof fn lemma_layout_size_independent_of_order(bs: Seq<BlockView>, order: Seq<usize>)
    requires
        valid_order(bs.len() as int, order),
    ensures
        order_sum(bs, order) == blocks_size(bs),
    decreases bs.len(),
{
    let nb = bs.len() as int;
    if nb == 0 {
        assert(order.len() == 0);
    } else {
        let x = nb - 1;
        if !(exists|i: int| 0 <= i < order.len() && order[i] == x) {
            assert forall|a: int| 0 <= a < order.len() implies #[trigger] order[a] < x by {
                assert(order[a] < nb);
            }
            lemma_distinct_len(order, x);
            assert(false);
        }
        let i = choose|i: int| 0 <= i < order.len() && order[i] == x;
        lemma_remove_keeps(order, i);
        let r = order.remove(i);
        let cs = bs.drop_last();
        assert forall|a: int| 0 <= a < r.len() implies #[trigger] r[a] < x by {
            if a < i {
                assert(order[a] < nb);
            } else {
                assert(order[a + 1] < nb);
            }
        }
        lemma_order_sum_remove(bs, order, i);
        lemma_order_sum_prefix_blocks(bs, cs, r);
        lemma_layout_size_independent_of_order(cs, r);
    }
}

/// The size of a prefix of a valid order never exceeds the blocks' total.
proof fn lemma_prefix_sum_bound(bs: Seq<BlockView>, order: Seq<usize>, k: int)
    requires
        valid_order(bs.len() as int, order),
        0 <= k <= order.len(),
        forall|j: int| 0 <= j < bs.len() ==> #[trigger] bs[j].byte_size >= 0,
    ensures
        0 <= order_sum(bs, order.subrange(0, k)) <= blocks_size(bs),
    decreases order.len() - k,
{
    lemma_order_sum_nonneg(bs, order.subrange(0, k));
    if k == order.len() {
        assert(order.subrange(0, k) =~= order);
        lemma_layout_size_independent_of_order(bs, order);
    } else {
        lemma_prefix_sum_bound(bs, order, k + 1);
        assert(order.subrange(0, k + 1).drop_last() =~= order.subrange(0, k));
        assert(bs[order[k] as int].byte_size >= 0);
    }
}

proof fn lemma_order_sum_nonneg(bs: Seq<BlockView>, order: Seq<usize>)
    requires
        all_below(order, bs.len() as int),
        forall|j: int| 0 <= j < bs.len() ==> #[trigger] bs[j].byte_size >= 0,
    ensures
        order_sum(bs, order) >= 0,
    decreases order.len(),
{
    if order.len() > 0 {
        assert(order[order.len() - 1] < bs.len());
        assert(all_below(order.drop_last(), bs.len() as int));
        lemma_order_sum_nonneg(bs, order.drop_last());
    }
}

// ---------------------------------------------------------------------------
// Executable checks and placement
// ---------------------------------------------------------------------------

/// Checks that `order` lists each block of the CFG exactly once.
pub fn validate_machine_layout_order(cfg: &MachineCfg, order: &[usize]) -> (r: Result<(), CompileError>)
    ensures
        r is Ok <==> spec_order_error(cfg.blocks@.len() as int, order@) is None,
        r matches Err(e) ==> spec_order_error(cfg.blocks@.len() as int, order@) == Some(e.message@),
{
    let nb = cfg.blocks.len();
    if order.len() != nb {
        let mut s = String::new();
        string_push_str(&mut s, "machine layout order lists ");
        push_decimal_u128(&mut s, order.len() as u128);
        string_push_str(&mut s, " blocks but the machine CFG has ");
        push_decimal_u128(&mut s, nb as u128);
        assert(s@ =~= spec_order_error(nb as int, order@)->0);
        return Err(CompileError::without_span(s));
    }
    let mut seen: Vec<bool> = Vec::new();
    let mut j: usize = 0;
    while j < nb
        invariant
            j <= nb,
            seen@.len() == j,
            forall|a: int| 0 <= a < j ==> !#[trigger] seen@[a],
        decreases nb - j,
    {
        seen.push(false);
        j = j + 1;
    }
    let mut i: usize = 0;
    while i < order.len()
        invariant
            i <= order@.len(),
            order@.len() == nb,
            nb == cfg.blocks@.len(),
            seen@.len() == nb,
            order_error_from(nb as int, order@, 0) == order_error_from(nb as int, order@, i as int),
            all_below(order@.subrange(0, i as int), nb as int),
            forall|b: int| 0 <= b < nb ==> (#[trigger] seen@[b] <==> order@.subrange(0, i as int).contains(b as usize)),
        decreases order@.len() - i,
    {
        let x = order[i];
        if x >= nb {
            let mut s = String::new();
            string_push_str(&mut s, "machine layout order names unknown block ");
            push_decimal_u128(&mut s, x as u128);
            assert(s@ =~= order_error_from(nb as int, order@, i as int)->0);
            return Err(CompileError::without_span(s));
        }
        if seen[x] {
            let mut s = String::new();
            string_push_str(&mut s, "machine layout order repeats block ");
            push_decimal_u128(&mut s, x as u128);
            assert(order@.subrange(0, i as int).contains(x));
            assert(s@ =~= order_error_from(nb as int, order@, i as int)->0);
            return Err(CompileError::without_span(s));
        }
        let ghost before = seen@;
        seen.set(x, true);
        proof {
            let p = order@.subrange(0, i as int);
            let q = order@.subrange(0, i + 1);
            assert(q =~= p.push(x));
            assert forall|b: int| 0 <= b < nb implies (#[trigger] seen@[b] <==> q.contains(b as usize)) by {
                if b == x as int {
                    assert(q[i as int] == x);
                } else {
                    if q.contains(b as usize) {
                        let w = choose|w: int| 0 <= w < q.len() && q[w] == b as usize;
                        assert(p[w] == b as usize);
                    }
                    if p.contains(b as usize) {
                        let w = choose|w: int| 0 <= w < p.len() && p[w] == b as usize;
                        assert(q[w] == b as usize);
                    }
                }
            }
            assert forall|a: int| 0 <= a < q.len() implies #[trigger] q[a] < nb by {
                if a < i {
                    assert(q[a] == p[a]);
                }
            }
        }
        i = i + 1;
    }
    Ok(())
}

/// Places the blocks in `order`, each right after the previous one.
pub fn build_machine_layout_order(cfg: &MachineCfg, order: Vec<usize>) -> (r: Result<MachineLayoutOrder, CompileError>)
    requires
        blocks_size(blocks_view(cfg.blocks@)) <= max_text_size(),
    ensures
        r is Ok <==> spec_order_error(cfg.blocks@.len() as int, order@) is None,
        r matches Err(e) ==> spec_order_error(cfg.blocks@.len() as int, order@) == Some(e.message@),
        r matches Ok(o) ==> o.block_order@ == order@ && o.placed_blocks@.len() == order@.len()
            && o.text_size == order_sum(blocks_view(cfg.blocks@), order@)
            && o.text_size == blocks_size(blocks_view(cfg.blocks@))
            && forall|i: int| 0 <= i < order@.len() ==> (#[trigger] o.placed_blocks@[i]).block_index == order@[i]
                && o.placed_blocks@[i].byte_start == order_sum(blocks_view(cfg.blocks@), order@.subrange(0, i))
                && o.placed_blocks@[i].byte_size == cfg.blocks@[order@[i] as int].byte_size,
{
    validate_machine_layout_order(cfg, order.as_slice())?;
    let ghost bs = blocks_view(cfg.blocks@);
    proof {
        lemma_order_error_iff_valid(cfg.blocks@.len() as int, order@);
    }
    let mut placed: Vec<MachinePlacedBlock> = Vec::new();
    let mut start: usize = 0;
    let mut i: usize = 0;
    assert(order@.subrange(0, 0) =~= Seq::<usize>::empty());
    while i < order.len()
        invariant
            i <= order@.len(),
            bs == blocks_view(cfg.blocks@),
            valid_order(bs.len() as int, order@),
            blocks_size(bs) <= max_text_size(),
            start as int == order_sum(bs, order@.subrange(0, i as int)),
            placed@.len() == i,
            forall|a: int| 0 <= a < i ==> (#[trigger] placed@[a]).block_index == order@[a] && placed@[a].byte_start
                == order_sum(bs, order@.subrange(0, a)) && placed@[a].byte_size == cfg.blocks@[order@[a] as int].byte_size,
        decreases order@.len() - i,
    {
        let b = order[i];
        assert(b < cfg.blocks@.len());
        let size = cfg.blocks[b].byte_size;
        proof {
            lemma_prefix_sum_bound(bs, order@, i as int + 1);
            assert(order@.subrange(0, i + 1).drop_last() =~= order@.subrange(0, i as int));
        }
        placed.push(MachinePlacedBlock { block_index: b, byte_start: start, byte_size: size });
        start = start + size;
        i = i + 1;
    }
    assert(order@.subrange(0, order@.len() as int) =~= order@);
    proof {
        lemma_layout_size_independent_of_order(bs, order@);
    }
    Ok(MachineLayoutOrder { block_order: order, placed_blocks: placed, text_size: start })
}

} // verus!
