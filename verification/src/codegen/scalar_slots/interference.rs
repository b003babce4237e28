//! The interference graph of scalar variables. Two distinct variables
//! interfere when both are parameters, when both are live at one program
//! point, or when one is written while the other is live just after the write.

use vstd::prelude::*;
use std::collections::{BTreeMap, BTreeSet};
use super::{block_ids, effects_view, minus, set_elements, sets_view, union_into, Insts, Variables};

verus! {

broadcast use {
    vstd::std_specs::btree::group_btree_axioms,
    vstd::std_specs::vec::group_vec_axioms,
    vstd::set_lib::group_set_properties,
    vstd::seq_lib::group_seq_properties,
};

/// Adds `other` to the neighbours of `at`.
fn add_neighbor(graph: &mut BTreeMap<usize, Variables>, at: usize, other: usize)
    requires
        old(graph)@.contains_key(at),
    ensures
        final(graph)@ == old(graph)@.insert(at, final(graph)@[at]),
        final(graph)@[at]@ == old(graph)@[at]@.insert(other),
{
    let mut set = match graph.get(&at) {
        Some(s) => s.clone(),
        None => {
            assert(false);
            BTreeSet::new()
        },
    };
    set.insert(other);
    graph.insert(at, set);
}

/// Makes two distinct variables neighbours of each other.
pub fn connect(left: usize, right: usize, graph: &mut BTreeMap<usize, Variables>)
    requires
        old(graph)@.contains_key(left),
        old(graph)@.contains_key(right),
    ensures
        final(graph)@.dom() == old(graph)@.dom(),
        forall|k: usize| #[trigger] final(graph)@.contains_key(k) ==> final(graph)@[k]@ == old(graph)@[k]@.union(
            if k == left && left != right { set![right] } else { Set::empty() },
        ).union(if k == right && left != right { set![left] } else { Set::empty() }),
{
    if left != right {
        add_neighbor(graph, left, right);
        add_neighbor(graph, right, left);
    }
    assert forall|k: usize| #[trigger] graph@.contains_key(k) implies graph@[k]@ == old(graph)@[k]@.union(
        if k == left && left != right { set![right] } else { Set::empty() },
    ).union(if k == right && left != right { set![left] } else { Set::empty() }) by {
        assert(graph@[k]@ =~= old(graph)@[k]@.union(
            if k == left && left != right { set![right] } else { Set::empty() },
        ).union(if k == right && left != right { set![left] } else { Set::empty() }));
    }
    assert(graph@.dom() =~= old(graph)@.dom());
}

/// The neighbours that joining every variable of `from` to every variable of
/// `to` gives `k`.
pub open spec fn pair_adds(from: Set<usize>, to: Set<usize>, k: usize) -> Set<usize> {
    (if from.contains(k) { to.remove(k) } else { Set::empty() }).union(if to.contains(k) { from.remove(k) } else { Set::empty() })
}

/// Joins every variable of `from` to every distinct variable of `to`.
pub fn connect_all(from: &Variables, to: &Variables, graph: &mut BTreeMap<usize, Variables>)
    requires
        from@.subset_of(old(graph)@.dom()),
        to@.subset_of(old(graph)@.dom()),
    ensures
        final(graph)@.dom() == old(graph)@.dom(),
        forall|k: usize| #[trigger] final(graph)@.contains_key(k) ==> final(graph)@[k]@ == old(graph)@[k]@.union(pair_adds(from@, to@, k)),
{
    let fs = set_elements(from);
    let ts = set_elements(to);
    let ghost g0 = old(graph)@;
    let mut i: usize = 0;
    assert forall|k: usize| #[trigger] graph@.contains_key(k) implies graph@[k]@ == g0[k]@.union(pair_adds(fs@.subrange(0, 0).to_set(), to@, k)) by {
        assert(fs@.subrange(0, 0).to_set() =~= Set::<usize>::empty());
        assert(graph@[k]@ =~= g0[k]@.union(pair_adds(Set::<usize>::empty(), to@, k)));
    }
    while i < fs.len()
        invariant
            i <= fs@.len(),
            fs@.to_set() == from@,
            ts@.to_set() == to@,
            from@.subset_of(g0.dom()),
            to@.subset_of(g0.dom()),
            graph@.dom() == g0.dom(),
            forall|k: usize| #[trigger] graph@.contains_key(k) ==> graph@[k]@ == g0[k]@.union(pair_adds(fs@.subrange(0, i as int).to_set(), to@, k)),
        decreases fs@.len() - i,
    {
        let a = fs[i];
        let ghost fi = fs@.subrange(0, i as int).to_set();
        assert(fs@.to_set().contains(a));
        let mut j: usize = 0;
        assert forall|k: usize| #[trigger] graph@.contains_key(k) implies graph@[k]@ == g0[k]@.union(pair_adds(fi, to@, k)).union(
            pair_adds(set![a], ts@.subrange(0, 0).to_set(), k)) by {
            assert(ts@.subrange(0, 0).to_set() =~= Set::<usize>::empty());
            assert(pair_adds(set![a], Set::<usize>::empty(), k) =~= Set::<usize>::empty());
        }
        while j < ts.len()
            invariant
                i < fs@.len(),
                j <= ts@.len(),
                a == fs@[i as int],
                fi == fs@.subrange(0, i as int).to_set(),
                fs@.to_set() == from@,
                ts@.to_set() == to@,
                from@.subset_of(g0.dom()),
                to@.subset_of(g0.dom()),
                graph@.dom() == g0.dom(),
                forall|k: usize| #[trigger] graph@.contains_key(k) ==> graph@[k]@ == g0[k]@.union(pair_adds(fi, to@, k)).union(
                    pair_adds(set![a], ts@.subrange(0, j as int).to_set(), k)),
            decreases ts@.len() - j,
        {
            let b = ts[j];
            assert(ts@.to_set().contains(b));
            let ghost tj = ts@.subrange(0, j as int).to_set();
            let ghost g1 = graph@;
            connect(a, b, graph);
            assert(ts@.subrange(0, j + 1) =~= ts@.subrange(0, j as int).push(b));
            assert(ts@.subrange(0, j + 1).to_set() =~= tj.insert(b));
            assert forall|k: usize| #[trigger] graph@.contains_key(k) implies graph@[k]@ == g0[k]@.union(pair_adds(fi, to@, k)).union(
                pair_adds(set![a], ts@.subrange(0, j + 1).to_set(), k)) by {
                assert(g1.contains_key(k));
                assert(graph@[k]@ =~= g0[k]@.union(pair_adds(fi, to@, k)).union(pair_adds(set![a], tj.insert(b), k)));
            }
            j = j + 1;
        }
        assert(ts@.subrange(0, ts@.len() as int) =~= ts@);
        assert(fs@.subrange(0, i + 1) =~= fs@.subrange(0, i as int).push(a));
        assert(fs@.subrange(0, i + 1).to_set() =~= fi.insert(a));
        assert forall|k: usize| #[trigger] graph@.contains_key(k) implies graph@[k]@ == g0[k]@.union(pair_adds(fs@.subrange(0, i + 1).to_set(), to@, k)) by {
            assert(graph@[k]@ =~= g0[k]@.union(pair_adds(fi.insert(a), to@, k)));
        }
        i = i + 1;
    }
    assert(fs@.subrange(0, fs@.len() as int) =~= fs@);
}

/// Makes every two distinct variables of `live` neighbours.
pub fn clique(live: &Variables, graph: &mut BTreeMap<usize, Variables>)
    requires
        live@.subset_of(old(graph)@.dom()),
    ensures
        final(graph)@.dom() == old(graph)@.dom(),
        forall|k: usize| #[trigger] final(graph)@.contains_key(k) ==> final(graph)@[k]@ == old(graph)@[k]@.union(
            if live@.contains(k) { live@.remove(k) } else { Set::empty() },
        ),
{
    connect_all(live, live, graph);
    assert forall|k: usize| #[trigger] graph@.contains_key(k) implies graph@[k]@ == old(graph)@[k]@.union(
        if live@.contains(k) { live@.remove(k) } else { Set::empty() },
    ) by {
        assert(pair_adds(live@, live@, k) =~= if live@.contains(k) { live@.remove(k) } else { Set::empty() });
    }
}

/// The variables live just before instruction `k` of a block whose
/// instructions are `insts` and whose live-out set is `out`; at `k` equal to
/// the length, the live-out set itself.
pub open spec fn live_at(insts: Insts, out: Set<usize>, k: int) -> Set<usize>
    decreases insts.len() - k,
{
    if 0 <= k < insts.len() {
        live_at(insts, out, k + 1).difference(insts[k].1).union(insts[k].0)
    } else {
        out
    }
}

/// `x` and `y` are both live at some point `k` of the block with `from <= k`.
pub open spec fn live_together(insts: Insts, out: Set<usize>, from: int, x: usize, y: usize) -> bool {
    exists|k: int| #![trigger live_at(insts, out, k)] 0 <= k && from <= k <= insts.len() && live_at(insts, out, k).contains(x)
        && live_at(insts, out, k).contains(y)
}

/// Instruction `k` of the block, with `from <= k`, writes `x` while `y` is live after it.
pub open spec fn written_over(insts: Insts, out: Set<usize>, from: int, x: usize, y: usize) -> bool {
    exists|k: int| #![trigger insts[k]] 0 <= k && from <= k < insts.len() && insts[k].1.contains(x) && live_at(insts, out, k + 1).contains(y)
}

/// Interference within one block, counting live points from `lt` and writes from `wf`.
pub open spec fn block_rel(insts: Insts, out: Set<usize>, lt: int, wf: int, x: usize, y: usize) -> bool {
    live_together(insts, out, lt, x, y) || written_over(insts, out, wf, x, y) || written_over(insts, out, wf, y, x)
}

/// Interference within the first `i` of the listed blocks.
pub open spec fn blocks_rel(e: Map<usize, Insts>, out: Map<usize, Set<usize>>, ids: Seq<usize>, i: int, x: usize, y: usize) -> bool
    decreases i,
{
    if i <= 0 {
        false
    } else {
        blocks_rel(e, out, ids, i - 1, x, y) || block_rel(e[ids[i - 1]], out[ids[i - 1]], 0, 0, x, y)
    }
}

/// Two distinct variables interfere: both are parameters, or they interfere
/// within some block given the blocks' live-out sets.
pub open spec fn interferes(params: Set<usize>, e: Map<usize, Insts>, out: Map<usize, Set<usize>>, x: usize, y: usize) -> bool {
    x != y && ((params.contains(x) && params.contains(y)) || exists|b: usize| #![trigger block_rel(e[b], out[b], 0, 0, x, y)]
        e.dom().contains(b) && block_rel(e[b], out[b], 0, 0, x, y))
}

/// Interference from the parameters and the first `i` listed blocks.
pub open spec fn outer_rel(params: Set<usize>, e: Map<usize, Insts>, out: Map<usize, Set<usize>>, ids: Seq<usize>, i: int, x: usize, y: usize) -> bool {
    x != y && ((params.contains(x) && params.contains(y)) || blocks_rel(e, out, ids, i, x, y))
}

/// `outer_rel`, and part of block `ids[i]`.
pub open spec fn inner_rel(params: Set<usize>, e: Map<usize, Insts>, out: Map<usize, Set<usize>>, ids: Seq<usize>, i: int, lt: int, wf: int, x: usize, y: usize) -> bool {
    outer_rel(params, e, out, ids, i, x, y) || (x != y && block_rel(e[ids[i]], out[ids[i]], lt, wf, x, y))
}

proof fn lemma_live_together_step(insts: Insts, out: Set<usize>, l: int)
    requires
        0 <= l <= insts.len(),
    ensures
        forall|x: usize, y: usize| #[trigger] live_together(insts, out, l, x, y) <==> live_together(insts, out, l + 1, x, y) || (live_at(
            insts,
            out,
            l,
        ).contains(x) && live_at(insts, out, l).contains(y)),
{
    assert forall|x: usize, y: usize| #[trigger] live_together(insts, out, l, x, y) <==> live_together(insts, out, l + 1, x, y) || (live_at(
        insts,
        out,
        l,
    ).contains(x) && live_at(insts, out, l).contains(y)) by {
        if live_together(insts, out, l, x, y) {
            let k = choose|k: int| #![trigger live_at(insts, out, k)] 0 <= k && l <= k <= insts.len() && live_at(insts, out, k).contains(x)
                && live_at(insts, out, k).contains(y);
            if k != l {
                assert(live_together(insts, out, l + 1, x, y));
            }
        }
        if live_together(insts, out, l + 1, x, y) {
            let k = choose|k: int| #![trigger live_at(insts, out, k)] 0 <= k && l + 1 <= k <= insts.len() && live_at(insts, out, k).contains(x)
                && live_at(insts, out, k).contains(y);
            assert(live_at(insts, out, k).contains(x));
        }
        if live_at(insts, out, l).contains(x) && live_at(insts, out, l).contains(y) {
            assert(live_at(insts, out, l).contains(x));
        }
    }
}

proof fn lemma_written_step(insts: Insts, out: Set<usize>, k: int)
    requires
        0 <= k < insts.len(),
    ensures
        forall|x: usize, y: usize| #[trigger] written_over(insts, out, k, x, y) <==> written_over(insts, out, k + 1, x, y) || (
        insts[k].1.contains(x) && live_at(insts, out, k + 1).contains(y)),
{
    assert forall|x: usize, y: usize| #[trigger] written_over(insts, out, k, x, y) <==> written_over(insts, out, k + 1, x, y) || (
    insts[k].1.contains(x) && live_at(insts, out, k + 1).contains(y)) by {
        if written_over(insts, out, k, x, y) {
            let j = choose|j: int| #![trigger insts[j]] 0 <= j && k <= j < insts.len() && insts[j].1.contains(x) && live_at(insts, out, j + 1).contains(y);
            if j != k {
                assert(insts[j].1.contains(x));
            }
        }
        if written_over(insts, out, k + 1, x, y) {
            let j = choose|j: int| #![trigger insts[j]] 0 <= j && k + 1 <= j < insts.len() && insts[j].1.contains(x) && live_at(insts, out, j + 1).contains(y);
            assert(insts[j].1.contains(x));
        }
        if insts[k].1.contains(x) && live_at(insts, out, k + 1).contains(y) {
            assert(insts[k].1.contains(x));
        }
    }
}

/// Nothing is live or written from past the end of a block.
proof fn lemma_block_rel_empty(insts: Insts, out: Set<usize>)
    ensures
        forall|x: usize, y: usize| !#[trigger] block_rel(insts, out, insts.len() as int + 1, insts.len() as int, x, y),
{
}

/// The live sets of a block stay within `u` when its live-out set and every set it reads do.
proof fn lemma_live_at_within(insts: Insts, out: Set<usize>, k: int, u: Set<usize>)
    requires
        out.subset_of(u),
        forall|i: int| 0 <= i < insts.len() ==> (#[trigger] insts[i]).0.subset_of(u),
    ensures
        live_at(insts, out, k).subset_of(u),
    decreases insts.len() - k,
{
    if 0 <= k < insts.len() {
        lemma_live_at_within(insts, out, k + 1, u);
        assert(insts[k].0.subset_of(u));
    }
}

/// Interference within the first `i` listed blocks is interference within one of them.
proof fn lemma_blocks_rel(e: Map<usize, Insts>, out: Map<usize, Set<usize>>, ids: Seq<usize>, i: int)
    requires
        0 <= i <= ids.len(),
    ensures
        forall|x: usize, y: usize| #[trigger] blocks_rel(e, out, ids, i, x, y) <==> exists|j: int| #![trigger ids[j]] 0 <= j < i
            && block_rel(e[ids[j]], out[ids[j]], 0, 0, x, y),
    decreases i,
{
    if i > 0 {
        lemma_blocks_rel(e, out, ids, i - 1);
        assert forall|x: usize, y: usize| #[trigger] blocks_rel(e, out, ids, i, x, y) <==> exists|j: int| #![trigger ids[j]] 0 <= j < i
            && block_rel(e[ids[j]], out[ids[j]], 0, 0, x, y) by {
            if blocks_rel(e, out, ids, i - 1, x, y) {
                let j = choose|j: int| #![trigger ids[j]] 0 <= j < i - 1 && block_rel(e[ids[j]], out[ids[j]], 0, 0, x, y);
                assert(0 <= j < i && block_rel(e[ids[j]], out[ids[j]], 0, 0, x, y));
            }
            if block_rel(e[ids[i - 1]], out[ids[i - 1]], 0, 0, x, y) {
                assert(ids[i - 1] == ids[i - 1]);
            }
            if exists|j: int| #![trigger ids[j]] 0 <= j < i && block_rel(e[ids[j]], out[ids[j]], 0, 0, x, y) {
                let j = choose|j: int| #![trigger ids[j]] 0 <= j < i && block_rel(e[ids[j]], out[ids[j]], 0, 0, x, y);
                if j < i - 1 {
                    assert(exists|j2: int| #![trigger ids[j2]] 0 <= j2 < i - 1 && block_rel(e[ids[j2]], out[ids[j2]], 0, 0, x, y));
                }
            }
        }
    }
}

/// Interference over every listed block is interference of the variables.
proof fn lemma_outer_full(params: Set<usize>, e: Map<usize, Insts>, out: Map<usize, Set<usize>>, ids: Seq<usize>)
    requires
        ids.to_set() == e.dom(),
    ensures
        forall|x: usize, y: usize| #[trigger] outer_rel(params, e, out, ids, ids.len() as int, x, y) <==> interferes(params, e, out, x, y),
{
    lemma_blocks_rel(e, out, ids, ids.len() as int);
    assert forall|x: usize, y: usize| #[trigger] outer_rel(params, e, out, ids, ids.len() as int, x, y) <==> interferes(params, e, out, x, y) by {
        if blocks_rel(e, out, ids, ids.len() as int, x, y) {
            let j = choose|j: int| #![trigger ids[j]] 0 <= j < ids.len() && block_rel(e[ids[j]], out[ids[j]], 0, 0, x, y);
            assert(ids.to_set().contains(ids[j]));
            assert(e.dom().contains(ids[j]) && block_rel(e[ids[j]], out[ids[j]], 0, 0, x, y));
        }
        if exists|b: usize| #![trigger block_rel(e[b], out[b], 0, 0, x, y)] e.dom().contains(b) && block_rel(e[b], out[b], 0, 0, x, y) {
            let b = choose|b: usize| #![trigger block_rel(e[b], out[b], 0, 0, x, y)] e.dom().contains(b) && block_rel(e[b], out[b], 0, 0, x, y);
            assert(ids.to_set().contains(b));
            let j = choose|j: int| 0 <= j < ids.len() && ids[j] == b;
            assert(0 <= j < ids.len() && block_rel(e[ids[j]], out[ids[j]], 0, 0, x, y));
        }
    }
}

/// The interference graph of `variables`: each variable with the set of
/// variables it interferes with, given the blocks' effects and live-out sets.
pub fn build_interference(
    params: &Variables,
    effects: &BTreeMap<usize, Vec<(Variables, Variables)>>,
    live_out: &BTreeMap<usize, Variables>,
    variables: &Variables,
) -> (g: BTreeMap<usize, Variables>)
    requires
        params@.subset_of(variables@),
        live_out@.dom() == effects@.dom(),
        forall|b: usize| #[trigger] effects@.contains_key(b) ==> live_out@[b]@.subset_of(variables@),
        forall|b: usize, i: int| #[trigger] effects_view(effects@).dom().contains(b) && 0 <= i < effects_view(effects@)[b].len() ==> (
        #[trigger] effects_view(effects@)[b][i]).0.subset_of(variables@) && effects_view(effects@)[b][i].1.subset_of(variables@),
    ensures
        g@.dom() == variables@,
        forall|x: usize| #[trigger] g@.contains_key(x) ==> g@[x]@ == Set::new(
            |y: usize| interferes(params@, effects_view(effects@), sets_view(live_out@), x, y),
        ),
{
    let ghost e = effects_view(effects@);
    let ghost o = sets_view(live_out@);
    let ghost pset = params@;
    let vs = set_elements(variables);
    let mut graph: BTreeMap<usize, Variables> = BTreeMap::new();
    let mut q: usize = 0;
    while q < vs.len()
        invariant
            q <= vs@.len(),
            graph@.dom() == vs@.subrange(0, q as int).to_set(),
            forall|k: usize| #[trigger] graph@.contains_key(k) ==> graph@[k]@ == Set::<usize>::empty(),
        decreases vs@.len() - q,
    {
        graph.insert(vs[q], BTreeSet::new());
        assert(vs@.subrange(0, q + 1) =~= vs@.subrange(0, q as int).push(vs@[q as int]));
        assert(graph@.dom() =~= vs@.subrange(0, q + 1).to_set());
        q = q + 1;
    }
    assert(vs@.subrange(0, vs@.len() as int) =~= vs@);
    clique(params, &mut graph);
    let ids = block_ids(effects);
    assert(e.dom() =~= effects@.dom());
    assert forall|k: usize| #[trigger] graph@.contains_key(k) implies graph@[k]@ == Set::new(
        |y: usize| outer_rel(pset, e, o, ids@, 0, k, y),
    ) by {
        assert(graph@[k]@ =~= Set::new(|y: usize| outer_rel(pset, e, o, ids@, 0, k, y)));
    }
    let mut i: usize = 0;
    while i < ids.len()
        invariant
            i <= ids@.len(),
            ids@.to_set() == effects@.dom(),
            e == effects_view(effects@),
            o == sets_view(live_out@),
            pset == params@,
            e.dom() == effects@.dom(),
            live_out@.dom() == effects@.dom(),
            forall|b: usize| #[trigger] effects@.contains_key(b) ==> live_out@[b]@.subset_of(variables@),
            forall|b: usize, j: int| #[trigger] e.dom().contains(b) && 0 <= j < e[b].len() ==> (#[trigger] e[b][j]).0.subset_of(
                variables@) && e[b][j].1.subset_of(variables@),
            graph@.dom() == variables@,
            forall|k: usize| #[trigger] graph@.contains_key(k) ==> graph@[k]@ == Set::new(
                |y: usize| outer_rel(pset, e, o, ids@, i as int, k, y),
            ),
        decreases ids@.len() - i,
    {
        let b = ids[i];
        assert(ids@.to_set().contains(b));
        let insts = match effects.get(&b) {
            Some(v) => v,
            None => {
                assert(false);
                return graph;
            },
        };
        let out_b = match live_out.get(&b) {
            Some(v) => v,
            None => {
                assert(false);
                return graph;
            },
        };
        let ghost ins = e[b];
        let ghost ob = o[b];
        let ghost n = ins.len() as int;
        assert(ins == insts@.map_values(|p: (Variables, Variables)| (p.0@, p.1@)));
        assert(ob == out_b@);
        proof {
            lemma_block_rel_empty(ins, ob);
            lemma_live_together_step(ins, ob, n);
            assert forall|j: int| 0 <= j < ins.len() implies (#[trigger] ins[j]).0.subset_of(variables@) by {
                assert(e.dom().contains(b));
            }
        }
        let mut live = out_b.clone();
        let ghost g1 = graph@;
        clique(&live, &mut graph);
        assert forall|k: usize| #[trigger] graph@.contains_key(k) implies graph@[k]@ == Set::new(
            |y: usize| inner_rel(pset, e, o, ids@, i as int, n, n, k, y),
        ) by {
            assert(g1.contains_key(k));
            assert(live_at(ins, ob, n) == ob);
            assert(graph@[k]@ =~= Set::new(|y: usize| inner_rel(pset, e, o, ids@, i as int, n, n, k, y)));
        }
        let mut p = insts.len();
        while p > 0
            invariant
                p <= insts@.len(),
                n == insts@.len(),
                i < ids@.len(),
                b == ids@[i as int],
                e.dom().contains(b),
                ins == e[b],
                ob == o[b],
                ins == insts@.map_values(|p: (Variables, Variables)| (p.0@, p.1@)),
                forall|j: int| 0 <= j < ins.len() ==> (#[trigger] ins[j]).0.subset_of(variables@) && ins[j].1.subset_of(variables@),
                ob.subset_of(variables@),
                live@ == live_at(ins, ob, p as int),
                graph@.dom() == variables@,
                forall|k: usize| #[trigger] graph@.contains_key(k) ==> graph@[k]@ == Set::new(
                    |y: usize| inner_rel(pset, e, o, ids@, i as int, p as int, p as int, k, y),
                ),
            decreases p,
        {
            p = p - 1;
            proof {
                lemma_live_at_within(ins, ob, p + 1, variables@);
                lemma_written_step(ins, ob, p as int);
                lemma_live_together_step(ins, ob, p as int);
                assert(ins[p as int].1.subset_of(variables@));
            }
            let ghost g2 = graph@;
            connect_all(&insts[p].1, &live, &mut graph);
            assert forall|k: usize| #[trigger] graph@.contains_key(k) implies graph@[k]@ == Set::new(
                |y: usize| inner_rel(pset, e, o, ids@, i as int, p + 1, p as int, k, y),
            ) by {
                assert(g2.contains_key(k));
                assert(graph@[k]@ =~= Set::new(|y: usize| inner_rel(pset, e, o, ids@, i as int, p + 1, p as int, k, y)));
            }
            let d = minus(&live, &insts[p].1);
            live = d;
            union_into(&mut live, &insts[p].0);
            assert(live@ == live_at(ins, ob, p as int));
            proof {
                lemma_live_at_within(ins, ob, p as int, variables@);
            }
            let ghost g3 = graph@;
            clique(&live, &mut graph);
            assert forall|k: usize| #[trigger] graph@.contains_key(k) implies graph@[k]@ == Set::new(
                |y: usize| inner_rel(pset, e, o, ids@, i as int, p as int, p as int, k, y),
            ) by {
                assert(g3.contains_key(k));
                assert(graph@[k]@ =~= Set::new(|y: usize| inner_rel(pset, e, o, ids@, i as int, p as int, p as int, k, y)));
            }
        }
        assert forall|k: usize| #[trigger] graph@.contains_key(k) implies graph@[k]@ == Set::new(
            |y: usize| outer_rel(pset, e, o, ids@, i + 1, k, y),
        ) by {
            assert(graph@[k]@ =~= Set::new(|y: usize| outer_rel(pset, e, o, ids@, i + 1, k, y)));
        }
        i = i + 1;
    }
    proof {
        lemma_outer_full(pset, e, o, ids@);
    }
    assert forall|k: usize| #[trigger] graph@.contains_key(k) implies graph@[k]@ == Set::new(
        |y: usize| interferes(params@, effects_view(effects@), sets_view(live_out@), k, y),
    ) by {
        assert(graph@[k]@ =~= Set::new(|y: usize| interferes(pset, e, o, k, y)));
    }
    graph
}

/// Interference joins distinct variables and goes both ways.
pub proof fn lemma_interferes_symmetric(params: Set<usize>, e: Map<usize, Insts>, out: Map<usize, Set<usize>>)
    ensures
        forall|x: usize, y: usize| #[trigger] interferes(params, e, out, x, y) ==> x != y && interferes(params, e, out, y, x),
{
    assert forall|x: usize, y: usize| #[trigger] interferes(params, e, out, x, y) implies x != y && interferes(params, e, out, y, x) by {
        if !(params.contains(x) && params.contains(y)) {
            let b = choose|b: usize| #![trigger block_rel(e[b], out[b], 0, 0, x, y)] e.dom().contains(b) && block_rel(e[b], out[b], 0, 0, x, y);
            if live_together(e[b], out[b], 0, x, y) {
                let k = choose|k: int| #![trigger live_at(e[b], out[b], k)] 0 <= k && 0 <= k <= e[b].len() && live_at(e[b], out[b], k).contains(x)
                    && live_at(e[b], out[b], k).contains(y);
                assert(live_at(e[b], out[b], k).contains(y));
            }
            assert(block_rel(e[b], out[b], 0, 0, y, x));
        }
    }
}

} // verus!
