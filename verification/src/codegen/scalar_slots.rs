//! Scalar slot reuse. Liveness of scalar variables over a function's blocks
//! is the least solution of the backward dataflow equations, computed by
//! round-robin iteration; variables that are never live together, and never
//! written while the other is live, may share a stack slot. Anything outside
//! the scalar subset keeps one slot per variable.

pub mod classify;
pub mod interference;
pub mod coloring;

use vstd::prelude::*;
use std::collections::{BTreeMap, BTreeSet};
use vstd::std_specs::iter::IteratorSpec;
use vstd::std_specs::cmp::OrdSpec;
use crate::codegen::abi::CallableAbi;
use crate::ir::{IrBlock, IrBody, IrOperand, IrParam, IrVar};
use crate::names::NameMap;
use classify::{all_params_scalar, block_effect, block_effects, effects_view_seq, insts_vars, lemma_insts_vars_contains, names_view, params_scalar, terminal_next};
use coloring::{assign_slots, graph_ok, held_before};
use interference::{build_interference, interferes, lemma_interferes_symmetric, live_at};

verus! {

broadcast use {
    vstd::std_specs::btree::group_btree_axioms,
    vstd::std_specs::vec::group_vec_axioms,
    vstd::set_lib::group_set_properties,
    vstd::seq_lib::group_seq_properties,
};

/// A set of variable ids.
pub type Variables = BTreeSet<usize>;

// ---------------------------------------------------------------------------
// Set helpers
// ---------------------------------------------------------------------------

/// The elements of a set, each once.
pub fn set_elements(s: &Variables) -> (v: Vec<usize>)
    ensures
        v@.to_set() == s@,
        v@.no_duplicates(),
        forall|i: int, j: int| 0 <= i < j < v@.len() ==> v@[i] < v@[j],
{
    let ghost q = vstd::std_specs::btree::spec_btree_keys_iter(s).remaining().map_values(|r: &usize| *r);
    let mut v: Vec<usize> = Vec::new();
    for x in it: s.iter()
        invariant
            it.seq().map_values(|r: &usize| *r) == q,
            v@ == q.take(it.index() as int),
    {
        v.push(*x);
        assert(v@ =~= q.take(it.index() + 1));
    }
    assert(v@ =~= q);
    proof {
        let r = vstd::std_specs::btree::spec_btree_keys_iter(s).remaining();
        assert(r.unref() =~= q);
        lemma_increasing_refs(r);
    }
    v
}

/// An increasing sequence of references to integers orders the integers.
proof fn lemma_increasing_refs(r: Seq<&usize>)
    requires
        vstd::std_specs::btree::increasing_seq(r),
    ensures
        forall|i: int, j: int| 0 <= i < j < r.len() ==> *r[i] < *r[j],
{
    broadcast use vstd::laws_cmp::group_laws_cmp;

    assert(vstd::laws_cmp::obeys_cmp::<usize>());
    assert(vstd::laws_cmp::obeys_cmp::<&usize>());
    vstd::std_specs::btree::axiom_increasing_seq_meaning(r);
    assert forall|i: int, j: int| 0 <= i < j < r.len() implies *r[i] < *r[j] by {
        assert((&r[i]).cmp_spec(&r[j]) is Less);
    }
}

/// Adds every element of `src` to `dst`.
pub fn union_into(dst: &mut Variables, src: &Variables)
    ensures
        final(dst)@ == old(dst)@.union(src@),
{
    let xs = set_elements(src);
    let mut i: usize = 0;
    while i < xs.len()
        invariant
            i <= xs@.len(),
            dst@ == old(dst)@.union(xs@.subrange(0, i as int).to_set()),
        decreases xs@.len() - i,
    {
        dst.insert(xs[i]);
        assert(xs@.subrange(0, i + 1) =~= xs@.subrange(0, i as int).push(xs@[i as int]));
        assert(xs@.subrange(0, i + 1).to_set() =~= xs@.subrange(0, i as int).to_set().insert(xs@[i as int]));
        i = i + 1;
    }
    assert(xs@.subrange(0, xs@.len() as int) =~= xs@);
}

/// The elements of `a` not in `b`.
pub fn minus(a: &Variables, b: &Variables) -> (r: Variables)
    ensures
        r@ == a@.difference(b@),
{
    let xs = set_elements(a);
    let mut r: Variables = BTreeSet::new();
    let mut i: usize = 0;
    while i < xs.len()
        invariant
            i <= xs@.len(),
            r@ == xs@.subrange(0, i as int).to_set().difference(b@),
        decreases xs@.len() - i,
    {
        if !b.contains(&xs[i]) {
            r.insert(xs[i]);
        }
        assert(xs@.subrange(0, i + 1) =~= xs@.subrange(0, i as int).push(xs@[i as int]));
        assert(xs@.subrange(0, i + 1).to_set() =~= xs@.subrange(0, i as int).to_set().insert(xs@[i as int]));
        assert(r@ =~= xs@.subrange(0, i + 1).to_set().difference(b@));
        i = i + 1;
    }
    assert(xs@.subrange(0, xs@.len() as int) =~= xs@);
    r
}

/// Whether every element of `a` is in `b`.
pub fn subset(a: &Variables, b: &Variables) -> (r: bool)
    ensures
        r == a@.subset_of(b@),
{
    let xs = set_elements(a);
    let mut i: usize = 0;
    while i < xs.len()
        invariant
            i <= xs@.len(),
            xs@.to_set() == a@,
            forall|j: int| 0 <= j < i ==> b@.contains(#[trigger] xs@[j]),
        decreases xs@.len() - i,
    {
        if !b.contains(&xs[i]) {
            assert(a@.contains(xs@[i as int]));
            return false;
        }
        i = i + 1;
    }
    assert forall|x: usize| a@.contains(x) implies b@.contains(x) by {
        assert(xs@.contains(x));
    }
    true
}

pub fn same_set(a: &Variables, b: &Variables) -> (r: bool)
    ensures
        r == (a@ == b@),
{
    let r = subset(a, b) && subset(b, a);
    if r {
        assert(a@ =~= b@);
    }
    r
}

// ---------------------------------------------------------------------------
// Dataflow equations
// ---------------------------------------------------------------------------

/// Each instruction's used and defined variables.
pub type Insts = Seq<(Set<usize>, Set<usize>)>;

/// The variables live before the instructions, given those live after them.
pub open spec fn transfer(insts: Insts, after: Set<usize>) -> Set<usize>
    decreases insts.len(),
{
    if insts.len() == 0 {
        after
    } else {
        transfer(insts.drop_last(), after.difference(insts.last().1).union(insts.last().0))
    }
}

/// The union of the live-in sets of the successors.
pub open spec fn succ_union(inn: Map<usize, Set<usize>>, ss: Seq<usize>) -> Set<usize>
    decreases ss.len(),
{
    if ss.len() == 0 {
        Set::empty()
    } else {
        succ_union(inn, ss.drop_last()).union(inn[ss.last()])
    }
}

/// `(inn, out)` solves the liveness equations of the blocks.
pub open spec fn solves(e: Map<usize, Insts>, s: Map<usize, Seq<usize>>, inn: Map<usize, Set<usize>>, out: Map<
    usize,
    Set<usize>,
>) -> bool {
    &&& inn.dom() == e.dom()
    &&& out.dom() == e.dom()
    &&& forall|b: usize| #[trigger] e.dom().contains(b) ==> out[b] == succ_union(inn, s[b]) && inn[b] == transfer(e[b], out[b])
}

/// Pointwise inclusion of live sets over the blocks.
pub open spec fn below(dom: Set<usize>, inn: Map<usize, Set<usize>>, out: Map<usize, Set<usize>>, inn2: Map<
    usize,
    Set<usize>,
>, out2: Map<usize, Set<usize>>) -> bool {
    forall|b: usize| #[trigger] dom.contains(b) ==> inn[b].subset_of(inn2[b]) && out[b].subset_of(out2[b])
}

/// Every block has successors, all of them blocks.
pub open spec fn graph_closed(e: Map<usize, Insts>, s: Map<usize, Seq<usize>>) -> bool {
    forall|b: usize| #[trigger] e.dom().contains(b) ==> s.contains_key(b) && forall|j: int| 0 <= j < s[b].len() ==> e.dom().contains(#[trigger] s[b][j])
}

/// The abstract instructions of the effects map.
pub open spec fn effects_view(m: Map<usize, Vec<(Variables, Variables)>>) -> Map<usize, Insts> {
    m.map_values(|v: Vec<(Variables, Variables)>| v@.map_values(|p: (Variables, Variables)| (p.0@, p.1@)))
}

pub open spec fn successors_view(m: Map<usize, Vec<usize>>) -> Map<usize, Seq<usize>> {
    m.map_values(|v: Vec<usize>| v@)
}

pub open spec fn sets_view(m: Map<usize, Variables>) -> Map<usize, Set<usize>> {
    m.map_values(|v: Variables| v@)
}

proof fn lemma_transfer_mono(insts: Insts, a: Set<usize>, b: Set<usize>)
    requires
        a.subset_of(b),
    ensures
        transfer(insts, a).subset_of(transfer(insts, b)),
    decreases insts.len(),
{
    if insts.len() > 0 {
        let (u, d) = insts.last();
        lemma_transfer_mono(insts.drop_last(), a.difference(d).union(u), b.difference(d).union(u));
    }
}

/// Everything live before is live after or used.
proof fn lemma_transfer_bound(insts: Insts, a: Set<usize>, u: Set<usize>)
    requires
        a.subset_of(u),
        forall|i: int| 0 <= i < insts.len() ==> (#[trigger] insts[i]).0.subset_of(u),
    ensures
        transfer(insts, a).subset_of(u),
    decreases insts.len(),
{
    if insts.len() > 0 {
        let (x, d) = insts.last();
        assert(insts[insts.len() - 1].0.subset_of(u));
        assert forall|i: int| 0 <= i < insts.drop_last().len() implies (#[trigger] insts.drop_last()[i]).0.subset_of(u) by {
            assert(insts[i].0.subset_of(u));
        }
        lemma_transfer_bound(insts.drop_last(), a.difference(d).union(x), u);
    }
}

proof fn lemma_succ_mono(inn: Map<usize, Set<usize>>, inn2: Map<usize, Set<usize>>, ss: Seq<usize>)
    requires
        forall|j: int| 0 <= j < ss.len() ==> inn[#[trigger] ss[j]].subset_of(inn2[ss[j]]),
    ensures
        succ_union(inn, ss).subset_of(succ_union(inn2, ss)),
    decreases ss.len(),
{
    if ss.len() > 0 {
        assert(inn[ss[ss.len() - 1]].subset_of(inn2[ss[ss.len() - 1]]));
        assert forall|j: int| 0 <= j < ss.drop_last().len() implies inn[#[trigger] ss.drop_last()[j]].subset_of(
            inn2[ss.drop_last()[j]]) by {
            assert(inn[ss[j]].subset_of(inn2[ss[j]]));
        }
        lemma_succ_mono(inn, inn2, ss.drop_last());
    }
}

proof fn lemma_succ_bound(inn: Map<usize, Set<usize>>, ss: Seq<usize>, u: Set<usize>)
    requires
        forall|j: int| 0 <= j < ss.len() ==> inn[#[trigger] ss[j]].subset_of(u),
    ensures
        succ_union(inn, ss).subset_of(u),
    decreases ss.len(),
{
    if ss.len() > 0 {
        assert(inn[ss[ss.len() - 1]].subset_of(u));
        assert forall|j: int| 0 <= j < ss.drop_last().len() implies inn[#[trigger] ss.drop_last()[j]].subset_of(u) by {
            assert(inn[ss[j]].subset_of(u));
        }
        lemma_succ_bound(inn, ss.drop_last(), u);
    }
}

/// The summed sizes of the live sets of the blocks listed first in `ids`.
pub open spec fn total_size(ids: Seq<usize>, inn: Map<usize, Set<usize>>, out: Map<usize, Set<usize>>, k: int) -> int
    decreases k,
{
    if k <= 0 {
        0
    } else {
        total_size(ids, inn, out, k - 1) + inn[ids[k - 1]].len() + out[ids[k - 1]].len()
    }
}

proof fn lemma_total_bound(ids: Seq<usize>, inn: Map<usize, Set<usize>>, out: Map<usize, Set<usize>>, u: Set<usize>, k: int)
    requires
        0 <= k <= ids.len(),
        u.finite(),
        forall|i: int| 0 <= i < ids.len() ==> inn[#[trigger] ids[i]].subset_of(u) && out[ids[i]].subset_of(u),
    ensures
        0 <= total_size(ids, inn, out, k) <= 2 * k * u.len(),
    decreases k,
{
    if k > 0 {
        lemma_total_bound(ids, inn, out, u, k - 1);
        let b = ids[k - 1];
        assert(inn[b].subset_of(u) && out[b].subset_of(u));
        vstd::set_lib::lemma_len_subset(inn[b], u);
        vstd::set_lib::lemma_len_subset(out[b], u);
        assert(2 * (k - 1) * u.len() + 2 * u.len() == 2 * k * u.len()) by (nonlinear_arith);
    }
}

/// Updating block `b`'s live sets, with larger ones, grows the total by their growth.
proof fn lemma_total_update(ids: Seq<usize>, inn: Map<usize, Set<usize>>, out: Map<usize, Set<usize>>, b: usize, x: Set<usize>,
    y: Set<usize>, k: int)
    requires
        0 <= k <= ids.len(),
        ids.no_duplicates(),
    ensures
        total_size(ids, inn.insert(b, x), out.insert(b, y), k) == total_size(ids, inn, out, k) + (if ids.subrange(0, k).contains(b) {
            x.len() + y.len() - inn[b].len() - out[b].len()
        } else {
            0
        }),
    decreases k,
{
    if k > 0 {
        lemma_total_update(ids, inn, out, b, x, y, k - 1);
        let c = ids[k - 1];
        let pre = ids.subrange(0, k - 1);
        let cur = ids.subrange(0, k);
        assert(cur =~= pre.push(c));
        if c == b {
            assert(!pre.contains(b)) by {
                if pre.contains(b) {
                    let j = choose|j: int| 0 <= j < pre.len() && #[trigger] pre[j] == b;
                    assert(ids[j] == ids[k - 1]);
                }
            }
        }
    } else {
        assert(ids.subrange(0, 0) =~= Seq::<usize>::empty());
    }
}

// ---------------------------------------------------------------------------
// Fixpoint iteration
// ---------------------------------------------------------------------------

/// The keys of a map, each once.
fn block_ids<V>(m: &BTreeMap<usize, V>) -> (v: Vec<usize>)
    ensures
        v@.to_set() == m@.dom(),
        v@.no_duplicates(),
{
    let ghost q = vstd::std_specs::btree::spec_btree_map_iter(m).remaining();
    let ghost keys = q.map_values(|r: (&usize, &V)| *r.0);
    let mut v: Vec<usize> = Vec::new();
    for kv in it: m.iter()
        invariant
            it.seq() == q,
            keys == q.map_values(|r: (&usize, &V)| *r.0),
            v@ == keys.take(it.index() as int),
    {
        v.push(*kv.0);
        assert(v@ =~= keys.take(it.index() + 1));
    }
    assert(v@ =~= keys);
    proof {
        assert forall|k: usize| m@.dom().contains(k) implies v@.to_set().contains(k) by {
            assert(q.contains((&k, &m@[k])));
            let i = choose|i: int| 0 <= i < q.len() && q[i] == (&k, &m@[k]);
            assert(v@[i] == k);
        }
        assert forall|k: usize| v@.to_set().contains(k) implies m@.dom().contains(k) by {
            let i = choose|i: int| 0 <= i < v@.len() && v@[i] == k;
            assert(m@.contains_key(*q[i].0));
        }
        assert(v@.to_set() =~= m@.dom());
        assert forall|i: int, j: int| 0 <= i < j < v@.len() implies v@[i] != v@[j] by {
            assert(q[i] != q[j]);
            if v@[i] == v@[j] {
                assert(m@[*q[i].0] == *q[i].1);
                assert(m@[*q[j].0] == *q[j].1);
            }
        }
    }
    v
}

/// The variables used anywhere: live sets never leave it.
/// Every variable that some instruction of some block reads.
pub open spec fn used_vars(e: Map<usize, Insts>) -> Set<usize> {
    Set::new(|x: usize| exists|b: usize, i: int| #![trigger e[b][i]] e.dom().contains(b) && 0 <= i < e[b].len() && e[b][i].0.contains(x))
}

fn used_universe(effects: &BTreeMap<usize, Vec<(Variables, Variables)>>, ids: &Vec<usize>) -> (u: Variables)
    requires
        ids@.to_set() == effects@.dom(),
    ensures
        u@.finite(),
        u@.subset_of(used_vars(effects_view(effects@))),
        forall|b: usize, i: int| #[trigger] effects_view(effects@).dom().contains(b) && 0 <= i < effects_view(effects@)[b].len()
            ==> (#[trigger] effects_view(effects@)[b][i]).0.subset_of(u@),
{
    let mut u: Variables = BTreeSet::new();
    let mut p: usize = 0;
    while p < ids.len()
        invariant
            p <= ids@.len(),
            ids@.to_set() == effects@.dom(),
            forall|q: int, i: int| 0 <= q < p && 0 <= i < effects@[ids@[q]]@.len() ==> (#[trigger] effects@[ids@[q]]@[i]).0@.subset_of(u@),
            u@.subset_of(used_vars(effects_view(effects@))),
        decreases ids@.len() - p,
    {
        assert(ids@.to_set().contains(ids@[p as int]));
        let insts = match effects.get(&ids[p]) {
            Some(v) => v,
            None => {
                assert(false);
                return u;
            },
        };
        let mut i: usize = 0;
        while i < insts.len()
            invariant
                i <= insts@.len(),
                p < ids@.len(),
                ids@.to_set() == effects@.dom(),
                *insts == effects@[ids@[p as int]],
                forall|q: int, k: int| 0 <= q < p && 0 <= k < effects@[ids@[q]]@.len() ==> (#[trigger] effects@[ids@[q]]@[k]).0@.subset_of(u@),
                forall|k: int| 0 <= k < i ==> (#[trigger] insts@[k]).0@.subset_of(u@),
                u@.subset_of(used_vars(effects_view(effects@))),
            decreases insts@.len() - i,
        {
            proof {
                let b = ids@[p as int];
                let e = effects_view(effects@);
                assert(ids@.to_set().contains(b));
                assert(e[b][i as int] == (insts@[i as int].0@, insts@[i as int].1@));
                assert forall|x: usize| insts@[i as int].0@.contains(x) implies used_vars(e).contains(x) by {
                    assert(e.dom().contains(b) && 0 <= i < e[b].len() && e[b][i as int].0.contains(x));
                }
            }
            union_into(&mut u, &insts[i].0);
            i = i + 1;
        }
        p = p + 1;
    }
    let elems = set_elements(&u);
    proof {
        vstd::seq_lib::seq_to_set_is_finite(elems@);
        assert forall|b: usize, i: int| #[trigger] effects_view(effects@).dom().contains(b) && 0 <= i < effects_view(effects@)[b].len()
            implies (#[trigger] effects_view(effects@)[b][i]).0.subset_of(u@) by {
            assert(ids@.to_set().contains(b));
            let q = choose|q: int| 0 <= q < ids@.len() && ids@[q] == b;
            assert(effects@[ids@[q]]@[i].0@.subset_of(u@));
        }
    }
    u
}

/// What round-robin iteration keeps: the live sets cover exactly the
/// blocks, stay within the used variables, lie below every solution, and lie
/// below what one more step would compute.
pub open spec fn iteration_ok(e: Map<usize, Insts>, s: Map<usize, Seq<usize>>, u: Set<usize>, inn: Map<usize, Set<usize>>, out: Map<
    usize,
    Set<usize>,
>) -> bool {
    &&& inn.dom() == e.dom()
    &&& out.dom() == e.dom()
    &&& forall|b: usize| #[trigger] e.dom().contains(b) ==> inn[b].subset_of(u) && out[b].subset_of(u)
    &&& forall|b: usize| #[trigger] e.dom().contains(b) ==> out[b].subset_of(succ_union(inn, s[b])) && inn[b].subset_of(
        transfer(e[b], succ_union(inn, s[b])))
    &&& forall|inn2: Map<usize, Set<usize>>, out2: Map<usize, Set<usize>>| #[trigger] solves(e, s, inn2, out2) ==> below(e.dom(), inn, out, inn2, out2)
}

/// Every used variable of the blocks lies in `u`.
pub open spec fn uses_within(e: Map<usize, Insts>, u: Set<usize>) -> bool {
    forall|b: usize, i: int| #[trigger] e.dom().contains(b) && 0 <= i < e[b].len() ==> (#[trigger] e[b][i]).0.subset_of(u)
}

/// One step at block `b` keeps the iteration invariant, and only grows the block's sets.
proof fn lemma_step(e: Map<usize, Insts>, s: Map<usize, Seq<usize>>, u: Set<usize>, inn: Map<usize, Set<usize>>, out: Map<
    usize,
    Set<usize>,
>, b: usize)
    requires
        iteration_ok(e, s, u, inn, out),
        graph_closed(e, s),
        uses_within(e, u),
        e.dom().contains(b),
    ensures
        ({
            let after = succ_union(inn, s[b]);
            let before = transfer(e[b], after);
            &&& iteration_ok(e, s, u, inn.insert(b, before), out.insert(b, after))
            &&& inn[b].subset_of(before)
            &&& out[b].subset_of(after)
        }),
{
    let after = succ_union(inn, s[b]);
    let before = transfer(e[b], after);
    let inn1 = inn.insert(b, before);
    let out1 = out.insert(b, after);
    assert(inn1.dom() =~= e.dom());
    assert(out1.dom() =~= e.dom());
    // the new sets only grow
    assert forall|c: usize| #[trigger] e.dom().contains(c) implies inn[c].subset_of(inn1[c]) by {}
    // bounds
    assert forall|j: int| 0 <= j < s[b].len() implies inn[#[trigger] s[b][j]].subset_of(u) by {
        assert(e.dom().contains(s[b][j]));
    }
    lemma_succ_bound(inn, s[b], u);
    assert forall|i: int| 0 <= i < e[b].len() implies (#[trigger] e[b][i]).0.subset_of(u) by {}
    lemma_transfer_bound(e[b], after, u);
    // post-fixpoint
    assert forall|c: usize| #[trigger] e.dom().contains(c) implies out1[c].subset_of(succ_union(inn1, s[c])) && inn1[c].subset_of(
        transfer(e[c], succ_union(inn1, s[c]))) by {
        assert forall|j: int| 0 <= j < s[c].len() implies inn[#[trigger] s[c][j]].subset_of(inn1[s[c][j]]) by {
            assert(e.dom().contains(s[c][j]));
        }
        lemma_succ_mono(inn, inn1, s[c]);
        lemma_transfer_mono(e[c], succ_union(inn, s[c]), succ_union(inn1, s[c]));
    }
    // below every solution
    assert forall|inn2: Map<usize, Set<usize>>, out2: Map<usize, Set<usize>>| #[trigger] solves(e, s, inn2, out2) implies below(
        e.dom(), inn1, out1, inn2, out2) by {
        assert(below(e.dom(), inn, out, inn2, out2));
        assert forall|j: int| 0 <= j < s[b].len() implies inn[#[trigger] s[b][j]].subset_of(inn2[s[b][j]]) by {
            assert(e.dom().contains(s[b][j]));
        }
        lemma_succ_mono(inn, inn2, s[b]);
        lemma_transfer_mono(e[b], after, out2[b]);
    }
}

/// The live sets of the listed blocks stay within `u`.
proof fn lemma_ids_within(e: Map<usize, Insts>, s: Map<usize, Seq<usize>>, u: Set<usize>, inn: Map<usize, Set<usize>>, out: Map<
    usize,
    Set<usize>,
>, ids: Seq<usize>)
    requires
        iteration_ok(e, s, u, inn, out),
        ids.to_set() == e.dom(),
    ensures
        forall|i: int| 0 <= i < ids.len() ==> inn[#[trigger] ids[i]].subset_of(u) && out[ids[i]].subset_of(u),
{
    assert forall|i: int| 0 <= i < ids.len() implies inn[#[trigger] ids[i]].subset_of(u) && out[ids[i]].subset_of(u) by {
        assert(ids.to_set().contains(ids[i]));
        assert(e.dom().contains(ids[i]));
    }
}

/// The live-out set of a block: the union of its successors' live-in sets.
fn live_after(input: &BTreeMap<usize, Variables>, succs: &Vec<usize>) -> (r: Variables)
    requires
        forall|j: int| 0 <= j < succs@.len() ==> input@.contains_key(#[trigger] succs@[j]),
    ensures
        r@ == succ_union(sets_view(input@), succs@),
{
    let mut after: Variables = BTreeSet::new();
    let mut j: usize = 0;
    assert(succs@.subrange(0, 0) =~= Seq::<usize>::empty());
    while j < succs.len()
        invariant
            j <= succs@.len(),
            forall|q: int| 0 <= q < succs@.len() ==> input@.contains_key(#[trigger] succs@[q]),
            after@ == succ_union(sets_view(input@), succs@.subrange(0, j as int)),
        decreases succs@.len() - j,
    {
        assert(input@.contains_key(succs@[j as int]));
        match input.get(&succs[j]) {
            Some(set) => union_into(&mut after, set),
            None => {
                assert(false);
            },
        }
        assert(succs@.subrange(0, j + 1).drop_last() =~= succs@.subrange(0, j as int));
        j = j + 1;
    }
    assert(succs@.subrange(0, succs@.len() as int) =~= succs@);
    after
}

/// The live-in set of a block from its live-out set.
fn live_before(insts: &Vec<(Variables, Variables)>, after: &Variables) -> (r: Variables)
    ensures
        r@ == transfer(insts@.map_values(|p: (Variables, Variables)| (p.0@, p.1@)), after@),
{
    let ghost e = insts@.map_values(|p: (Variables, Variables)| (p.0@, p.1@));
    let mut before = after.clone();
    let mut k = insts.len();
    assert(e.subrange(0, k as int) =~= e);
    while k > 0
        invariant
            k <= insts@.len(),
            e == insts@.map_values(|p: (Variables, Variables)| (p.0@, p.1@)),
            transfer(e, after@) == transfer(e.subrange(0, k as int), before@),
        decreases k,
    {
        k = k - 1;
        let d = minus(&before, &insts[k].1);
        before = d;
        union_into(&mut before, &insts[k].0);
        assert(e.subrange(0, k + 1).drop_last() =~= e.subrange(0, k as int));
    }
    before
}

/// The least live-in and live-out sets of the blocks: every block's live-out
/// set is the union of its successors' live-in sets, and its live-in set is
/// what its instructions, walked backwards, leave live from its live-out set.
pub fn liveness(
    effects: &BTreeMap<usize, Vec<(Variables, Variables)>>,
    successors: &BTreeMap<usize, Vec<usize>>,
) -> (r: (BTreeMap<usize, Variables>, BTreeMap<usize, Variables>))
    requires
        graph_closed(effects_view(effects@), successors_view(successors@)),
    ensures
        solves(effects_view(effects@), successors_view(successors@), sets_view(r.0@), sets_view(r.1@)),
        forall|inn2: Map<usize, Set<usize>>, out2: Map<usize, Set<usize>>| #[trigger] solves(effects_view(effects@),
            successors_view(successors@), inn2, out2) ==> below(effects@.dom(), sets_view(r.0@), sets_view(r.1@), inn2, out2),
        forall|b: usize| #[trigger] effects@.contains_key(b) ==> r.0@[b]@.subset_of(used_vars(effects_view(effects@)))
            && r.1@[b]@.subset_of(used_vars(effects_view(effects@))),
{
    let ghost e = effects_view(effects@);
    let ghost s = successors_view(successors@);
    let ids = block_ids(effects);
    let uni = used_universe(effects, &ids);
    let ghost u = uni@;
    let n = ids.len();
    let mut input: BTreeMap<usize, Variables> = BTreeMap::new();
    let mut output: BTreeMap<usize, Variables> = BTreeMap::new();
    let mut p: usize = 0;
    while p < n
        invariant
            p <= n,
            n == ids@.len(),
            input@.dom() == ids@.subrange(0, p as int).to_set(),
            output@.dom() == ids@.subrange(0, p as int).to_set(),
            forall|b: usize| #[trigger] input@.contains_key(b) ==> input@[b]@ == Set::<usize>::empty(),
            forall|b: usize| #[trigger] output@.contains_key(b) ==> output@[b]@ == Set::<usize>::empty(),
        decreases n - p,
    {
        input.insert(ids[p], BTreeSet::new());
        output.insert(ids[p], BTreeSet::new());
        assert(ids@.subrange(0, p + 1) =~= ids@.subrange(0, p as int).push(ids@[p as int]));
        assert(input@.dom() =~= ids@.subrange(0, p + 1).to_set());
        assert(output@.dom() =~= ids@.subrange(0, p + 1).to_set());
        p = p + 1;
    }
    assert(ids@.subrange(0, n as int) =~= ids@);
    proof {
        assert(e.dom() =~= effects@.dom());
        assert(sets_view(input@).dom() =~= e.dom());
        assert(sets_view(output@).dom() =~= e.dom());
        assert forall|inn2: Map<usize, Set<usize>>, out2: Map<usize, Set<usize>>| #[trigger] solves(e, s, inn2, out2) implies below(
            e.dom(), sets_view(input@), sets_view(output@), inn2, out2) by {}
        assert forall|b: usize| #[trigger] e.dom().contains(b) implies sets_view(output@)[b].subset_of(succ_union(sets_view(input@), s[b]))
            && sets_view(input@)[b].subset_of(transfer(e[b], succ_union(sets_view(input@), s[b]))) by {}
        assert(iteration_ok(e, s, u, sets_view(input@), sets_view(output@)));
        lemma_ids_within(e, s, u, sets_view(input@), sets_view(output@), ids@);
        lemma_total_bound(ids@, sets_view(input@), sets_view(output@), u, n as int);
    }
    loop
        invariant
            n == ids@.len(),
            ids@.to_set() == effects@.dom(),
            ids@.no_duplicates(),
            e == effects_view(effects@),
            s == successors_view(successors@),
            u.finite(),
            u.subset_of(used_vars(e)),
            uses_within(e, u),
            graph_closed(e, s),
            iteration_ok(e, s, u, sets_view(input@), sets_view(output@)),
            input@.dom() == e.dom(),
            output@.dom() == e.dom(),
            0 <= total_size(ids@, sets_view(input@), sets_view(output@), n as int) <= 2 * n * u.len(),
        decreases 2 * n * u.len() - total_size(ids@, sets_view(input@), sets_view(output@), n as int),
    {
        let ghost inn0 = sets_view(input@);
        let ghost out0 = sets_view(output@);
        let mut changed = false;
        let mut p = n;
        while p > 0
            invariant
                p <= n,
                n == ids@.len(),
                ids@.to_set() == effects@.dom(),
                ids@.no_duplicates(),
                e == effects_view(effects@),
                s == successors_view(successors@),
                u.finite(),
                u.subset_of(used_vars(e)),
                uses_within(e, u),
                graph_closed(e, s),
                iteration_ok(e, s, u, sets_view(input@), sets_view(output@)),
                input@.dom() == e.dom(),
                output@.dom() == e.dom(),
                total_size(ids@, sets_view(input@), sets_view(output@), n as int) >= total_size(ids@, inn0, out0, n as int),
                changed ==> total_size(ids@, sets_view(input@), sets_view(output@), n as int) > total_size(ids@, inn0, out0, n as int),
                !changed ==> sets_view(input@) == inn0 && sets_view(output@) == out0,
                !changed ==> forall|q: int| p <= q < n ==> (#[trigger] out0[ids@[q]]) == succ_union(inn0, s[ids@[q]]) && inn0[ids@[q]]
                    == transfer(e[ids@[q]], out0[ids@[q]]),
            decreases p,
        {
            p = p - 1;
            let b = ids[p];
            assert(ids@.to_set().contains(b));
            assert(e.dom().contains(b));
            let succs = match successors.get(&b) {
                Some(v) => v,
                None => {
                    assert(false);
                    return (input, output);
                },
            };
            assert(succs@ == s[b]);
            let after = live_after(&input, succs);
            let insts = match effects.get(&b) {
                Some(v) => v,
                None => {
                    assert(false);
                    return (input, output);
                },
            };
            let before = live_before(insts, &after);
            let ghost inn = sets_view(input@);
            let ghost out = sets_view(output@);
            proof {
                lemma_step(e, s, u, inn, out, b);
                lemma_total_update(ids@, inn, out, b, before@, after@, n as int);
                assert(ids@.subrange(0, n as int) =~= ids@);
                assert(ids@.contains(b));
                vstd::set_lib::lemma_len_subset(inn[b], before@);
                vstd::set_lib::lemma_len_subset(out[b], after@);
                vstd::set_lib::lemma_len_subset(before@, u);
            }
            let same_in = match input.get(&b) {
                Some(old_in) => same_set(old_in, &before),
                None => false,
            };
            let same_out = match output.get(&b) {
                Some(old_out) => same_set(old_out, &after),
                None => false,
            };
            proof {
                if !same_in {
                    if inn[b].len() == before@.len() {
                        vstd::set_lib::lemma_subset_equality(inn[b], before@);
                    }
                }
                if !same_out {
                    vstd::set_lib::lemma_len_subset(after@, u);
                    if out[b].len() == after@.len() {
                        vstd::set_lib::lemma_subset_equality(out[b], after@);
                    }
                }
            }
            if !(same_in && same_out) {
                changed = true;
            }
            input.insert(b, before);
            output.insert(b, after);
            proof {
                assert(sets_view(input@) =~= inn.insert(b, before@));
                assert(sets_view(output@) =~= out.insert(b, after@));
                if same_in && same_out {
                    assert(inn.insert(b, before@) =~= inn);
                    assert(out.insert(b, after@) =~= out);
                }
            }
        }
        proof {
            assert(e.dom() =~= effects@.dom());
            lemma_ids_within(e, s, u, sets_view(input@), sets_view(output@), ids@);
            lemma_total_bound(ids@, sets_view(input@), sets_view(output@), u, n as int);
        }
        if !changed {
            proof {
                assert forall|b: usize| #[trigger] e.dom().contains(b) implies sets_view(output@)[b] == succ_union(sets_view(input@), s[b])
                    && sets_view(input@)[b] == transfer(e[b], sets_view(output@)[b]) by {
                    assert(ids@.to_set().contains(b));
                    let q = choose|q: int| 0 <= q < ids@.len() && ids@[q] == b;
                    assert(out0[ids@[q]] == succ_union(inn0, s[ids@[q]]));
                }
                assert(solves(e, s, sets_view(input@), sets_view(output@)));
                assert(e.dom() =~= effects@.dom());
                assert forall|b: usize| #[trigger] effects@.contains_key(b) implies input@[b]@.subset_of(used_vars(e))
                    && output@[b]@.subset_of(used_vars(e)) by {
                    assert(e.dom().contains(b));
                    assert(sets_view(input@)[b] == input@[b]@);
                }
            }
            return (input, output);
        }
    }
}

// ---------------------------------------------------------------------------
// Slot allocation
// ---------------------------------------------------------------------------

/// The body declares no cell effects, and every parameter is a scalar passed by value.
pub open spec fn body_eligible(body: IrBody, params: Seq<IrParam>) -> bool {
    &&& body.cell_bindings@.len() == 0
    &&& body.consume_set@.len() == 0
    &&& body.read_refs@.len() == 0
    &&& body.create_set@.len() == 0
    &&& body.mutate_set@.len() == 0
    &&& body.write_intents@.len() == 0
    &&& body.bounded_collection_ops@.len() == 0
    &&& body.borrow_regions@.len() == 0
    &&& body.trusted_external_calls@.len() == 0
    &&& params_scalar(params)
}

/// The ids of the parameters' bindings.
pub open spec fn param_ids(params: Seq<IrParam>) -> Set<usize> {
    params.map_values(|p: IrParam| p.binding.id).to_set()
}

/// Each block id with the effects of that block.
pub open spec fn blocks_effects(blocks: Seq<IrBlock>, abis: NameMap<CallableAbi>, local: Seq<Seq<char>>) -> Map<usize, Insts>
    decreases blocks.len(),
{
    if blocks.len() == 0 {
        Map::empty()
    } else {
        blocks_effects(blocks.drop_last(), abis, local).insert(blocks.last().id.0, block_effect(blocks.last(), abis, local)->0)
    }
}

/// Each block id with the blocks it passes control to.
pub open spec fn blocks_next(blocks: Seq<IrBlock>) -> Map<usize, Seq<usize>>
    decreases blocks.len(),
{
    if blocks.len() == 0 {
        Map::empty()
    } else {
        blocks_next(blocks.drop_last()).insert(blocks.last().id.0, terminal_next(blocks.last().terminator))
    }
}

/// Every variable the blocks read or write.
pub open spec fn blocks_vars(blocks: Seq<IrBlock>, abis: NameMap<CallableAbi>, local: Seq<Seq<char>>) -> Set<usize>
    decreases blocks.len(),
{
    if blocks.len() == 0 {
        Set::empty()
    } else {
        blocks_vars(blocks.drop_last(), abis, local).union(insts_vars(block_effect(blocks.last(), abis, local)->0))
    }
}

/// Slot reuse understands every block.
pub open spec fn blocks_understood(blocks: Seq<IrBlock>, abis: NameMap<CallableAbi>, local: Seq<Seq<char>>) -> bool {
    forall|i: int| 0 <= i < blocks.len() ==> (#[trigger] block_effect(blocks[i], abis, local)) is Some
}

/// No two blocks share an id.
pub open spec fn ids_distinct(blocks: Seq<IrBlock>) -> bool {
    forall|i: int, j: int| 0 <= i < j < blocks.len() ==> blocks[i].id.0 != blocks[j].id.0
}

/// Slot reuse applies to the function: nothing in it is outside what it understands.
pub open spec fn classified(body: IrBody, params: Seq<IrParam>, abis: NameMap<CallableAbi>, local: Seq<Seq<char>>) -> bool {
    &&& body_eligible(body, params)
    &&& blocks_understood(body.blocks@, abis, local)
    &&& ids_distinct(body.blocks@)
    &&& graph_closed(blocks_effects(body.blocks@, abis, local), blocks_next(body.blocks@))
}

/// The variables that get a slot: the parameters and everything the blocks touch.
pub open spec fn slot_vars(body: IrBody, params: Seq<IrParam>, abis: NameMap<CallableAbi>, local: Seq<Seq<char>>) -> Set<usize> {
    param_ids(params).union(blocks_vars(body.blocks@, abis, local))
}

/// The least live-out sets of the blocks.
pub open spec fn least_out(e: Map<usize, Insts>, s: Map<usize, Seq<usize>>) -> Map<usize, Set<usize>> {
    (choose|p: (Map<usize, Set<usize>>, Map<usize, Set<usize>>)| solves(e, s, p.0, p.1) && forall|inn2: Map<usize, Set<usize>>, out2: Map<
        usize,
        Set<usize>,
    >| #[trigger] solves(e, s, inn2, out2) ==> below(e.dom(), p.0, p.1, inn2, out2)).1
}

/// Slot `8 * m` is held by a variable before `v` that interferes with `v`.
pub open spec fn slot_taken_before(
    params: Set<usize>,
    e: Map<usize, Insts>,
    out: Map<usize, Set<usize>>,
    slots: Map<usize, usize>,
    v: usize,
    m: int,
) -> bool {
    exists|u: usize| #[trigger] slots.contains_key(u) && u < v && interferes(params, e, out, v, u) && slots[u] == 8 * m
}

/// The slots of the function's variables: each a multiple of eight, distinct
/// for interfering variables, and the lowest one not held by an interfering
/// variable that comes before.
pub open spec fn slots_correct(
    body: IrBody,
    params: Seq<IrParam>,
    abis: NameMap<CallableAbi>,
    local: Seq<Seq<char>>,
    slots: Map<usize, usize>,
) -> bool {
    let e = blocks_effects(body.blocks@, abis, local);
    let out = least_out(e, blocks_next(body.blocks@));
    let p = param_ids(params);
    &&& slots.dom() == slot_vars(body, params, abis, local)
    &&& forall|v: usize| #[trigger] slots.contains_key(v) ==> slots[v] % 8 == 0
    &&& forall|a: usize, b: usize| #[trigger] slots.contains_key(a) && #[trigger] slots.contains_key(b) && interferes(p, e, out, a, b) ==> slots[a]
        != slots[b]
    &&& forall|v: usize, m: int| slots.contains_key(v) && 0 <= m && 8 * m < slots[v] ==> #[trigger] slot_taken_before(p, e, out, slots, v, m)
}

/// The least solution is the only one.
proof fn lemma_least_out(e: Map<usize, Insts>, s: Map<usize, Seq<usize>>, inn: Map<usize, Set<usize>>, out: Map<usize, Set<usize>>)
    requires
        solves(e, s, inn, out),
        forall|inn2: Map<usize, Set<usize>>, out2: Map<usize, Set<usize>>| #[trigger] solves(e, s, inn2, out2) ==> below(e.dom(), inn, out, inn2, out2),
    ensures
        least_out(e, s) == out,
{
    let p = choose|p: (Map<usize, Set<usize>>, Map<usize, Set<usize>>)| solves(e, s, p.0, p.1) && forall|inn2: Map<usize, Set<usize>>, out2: Map<
        usize,
        Set<usize>,
    >| #[trigger] solves(e, s, inn2, out2) ==> below(e.dom(), p.0, p.1, inn2, out2);
    let q = (inn, out);
    assert(solves(e, s, q.0, q.1));
    assert(solves(e, s, p.0, p.1));
    assert(below(e.dom(), inn, out, p.0, p.1));
    assert(below(e.dom(), p.0, p.1, inn, out));
    assert forall|b: usize| #[trigger] p.1.contains_key(b) implies p.1[b] == out[b] by {
        assert(e.dom().contains(b));
        assert(p.1[b] =~= out[b]);
    }
    assert(p.1 =~= out);
}

/// Slot offsets for the scalar variables of a function, reusing a slot for
/// variables that never interfere; `None` keeps one slot per variable:
/// when the body declares cell effects, a parameter is not a scalar
/// passed by value, an instruction or terminator is one slot reuse does not
/// understand, two blocks share an id, control passes to a missing block, or
/// the offsets could not be counted in a `usize`.
pub fn allocate(body: &IrBody, params: &Vec<IrParam>, abis: &NameMap<CallableAbi>, local_calls: &Vec<String>) -> (r: Option<
    BTreeMap<usize, usize>,
>)
    ensures
        r is None <==> !classified(*body, params@, *abis, names_view(local_calls@)) || slot_vars(
            *body,
            params@,
            *abis,
            names_view(local_calls@),
        ).len() > usize::MAX / 8,
        r matches Some(slots) ==> slots_correct(*body, params@, *abis, names_view(local_calls@), slots@),
{
    let ghost local = names_view(local_calls@);
    if body.cell_bindings.len() != 0 || body.consume_set.len() != 0 || body.read_refs.len() != 0 || body.create_set.len() != 0
        || body.mutate_set.len() != 0 || body.write_intents.len() != 0 || body.bounded_collection_ops.len() != 0
        || body.borrow_regions.len() != 0 || body.trusted_external_calls.len() != 0 || !all_params_scalar(params) {
        return None;
    }
    let mut variables: Variables = BTreeSet::new();
    let mut i: usize = 0;
    while i < params.len()
        invariant
            i <= params@.len(),
            variables@ == params@.subrange(0, i as int).map_values(|p: IrParam| p.binding.id).to_set(),
        decreases params@.len() - i,
    {
        let ghost f = |p: IrParam| p.binding.id;
        variables.insert(params[i].binding.id);
        assert(params@.subrange(0, i + 1).map_values(f) =~= params@.subrange(0, i as int).map_values(f).push(params@[i as int].binding.id));
        assert(variables@ =~= params@.subrange(0, i + 1).map_values(f).to_set());
        i = i + 1;
    }
    assert(params@.subrange(0, params@.len() as int) =~= params@);
    let pset = variables.clone();
    assert(pset@ == param_ids(params@));
    let ghost blocks = body.blocks@;
    let mut effects: BTreeMap<usize, Vec<(Variables, Variables)>> = BTreeMap::new();
    let mut successors: BTreeMap<usize, Vec<usize>> = BTreeMap::new();
    let mut bi: usize = 0;
    assert(blocks.subrange(0, 0) =~= Seq::<IrBlock>::empty());
    assert(effects_view(effects@) =~= Map::<usize, Insts>::empty());
    assert(successors_view(successors@) =~= Map::<usize, Seq<usize>>::empty());
    assert(variables@ =~= pset@.union(Set::<usize>::empty()));
    while bi < body.blocks.len()
        invariant
            bi <= blocks.len(),
            blocks == body.blocks@,
            local == names_view(local_calls@),
            pset@ == param_ids(params@),
            body_eligible(*body, params@),
            blocks_understood(blocks.subrange(0, bi as int), *abis, local),
            ids_distinct(blocks.subrange(0, bi as int)),
            effects_view(effects@) == blocks_effects(blocks.subrange(0, bi as int), *abis, local),
            successors_view(successors@) == blocks_next(blocks.subrange(0, bi as int)),
            effects@.dom() == successors@.dom(),
            forall|j: int| 0 <= j < bi ==> effects@.contains_key(#[trigger] blocks[j].id.0),
            forall|k: usize| effects@.contains_key(k) ==> exists|j: int| 0 <= j < bi && #[trigger] blocks[j].id.0 == k,
            variables@ == pset@.union(blocks_vars(blocks.subrange(0, bi as int), *abis, local)),
            forall|b: usize| #[trigger] effects@.contains_key(b) ==> insts_vars(effects_view(effects@)[b]).subset_of(variables@),
        decreases blocks.len() - bi,
    {
        let block = &body.blocks[bi];
        let ghost pre = blocks.subrange(0, bi as int);
        let ghost now = blocks.subrange(0, bi + 1);
        assert(now.drop_last() =~= pre);
        assert(now.last() == *block);
        let ghost vars0 = variables@;
        let res = block_effects(block, abis, local_calls, &mut variables);
        let (instructions, next) = match res {
            Some(p) => p,
            None => {
                assert(block_effect(blocks[bi as int], *abis, local) is None);
                return None;
            },
        };
        if effects.contains_key(&block.id.0) {
            proof {
                let j = choose|j: int| 0 <= j < bi && #[trigger] blocks[j].id.0 == block.id.0;
                assert(!ids_distinct(blocks));
            }
            return None;
        }
        let ghost old_effects = effects@;
        let ghost ins = effects_view_seq(instructions@);
        effects.insert(block.id.0, instructions);
        successors.insert(block.id.0, next);
        proof {
            assert(effects_view(effects@) =~= effects_view(old_effects).insert(block.id.0, ins));
            assert(successors_view(successors@) =~= blocks_next(now));
            assert(effects@.dom() =~= successors@.dom());
            assert(variables@ =~= pset@.union(blocks_vars(now, *abis, local)));
            assert forall|b: usize| #[trigger] effects@.contains_key(b) implies insts_vars(effects_view(effects@)[b]).subset_of(variables@) by {
                if b != block.id.0 {
                    assert(old_effects.contains_key(b));
                    assert(effects_view(effects@)[b] == effects_view(old_effects)[b]);
                }
            }
            assert forall|k: usize| effects@.contains_key(k) implies exists|j: int| 0 <= j < bi + 1 && #[trigger] blocks[j].id.0 == k by {
                if k == block.id.0 {
                    assert(blocks[bi as int].id.0 == k);
                } else {
                    assert(old_effects.contains_key(k));
                    let j = choose|j: int| 0 <= j < bi && #[trigger] blocks[j].id.0 == k;
                    assert(blocks[j].id.0 == k);
                }
            }
            assert forall|i1: int, j1: int| 0 <= i1 < j1 < now.len() implies now[i1].id.0 != now[j1].id.0 by {
                if j1 == bi {
                    assert(effects@.contains_key(blocks[i1].id.0));
                    assert(old_effects.contains_key(blocks[i1].id.0));
                } else {
                    assert(now[i1] == pre[i1] && now[j1] == pre[j1]);
                }
            }
            assert forall|i1: int| 0 <= i1 < now.len() implies (#[trigger] block_effect(now[i1], *abis, local)) is Some by {
                if i1 < bi {
                    assert(now[i1] == pre[i1]);
                }
            }
        }
        bi = bi + 1;
    }
    assert(blocks.subrange(0, blocks.len() as int) =~= blocks);
    let ghost e = effects_view(effects@);
    let ghost s = successors_view(successors@);
    // control may only pass to blocks of the function
    let ids = block_ids(&effects);
    let mut q: usize = 0;
    while q < ids.len()
        invariant
            q <= ids@.len(),
            ids@.to_set() == effects@.dom(),
            effects@.dom() == successors@.dom(),
            e == effects_view(effects@),
            s == successors_view(successors@),
            local == names_view(local_calls@),
            e == blocks_effects(body.blocks@, *abis, local),
            s == blocks_next(body.blocks@),
            forall|qq: int| 0 <= qq < q ==> forall|j: int| 0 <= j < s[#[trigger] ids@[qq]].len() ==> e.dom().contains(s[ids@[qq]][j]),
        decreases ids@.len() - q,
    {
        let b = ids[q];
        assert(ids@.to_set().contains(b));
        let next = match successors.get(&b) {
            Some(v) => v,
            None => {
                assert(false);
                return None;
            },
        };
        assert(next@ == s[b]);
        assert(e.dom().contains(b));
        let mut j: usize = 0;
        while j < next.len()
            invariant
                j <= next@.len(),
                next@ == s[b],
                e.dom().contains(b),
                s.contains_key(b),
                e == effects_view(effects@),
                local == names_view(local_calls@),
                e == blocks_effects(body.blocks@, *abis, local),
                s == blocks_next(body.blocks@),
                forall|jj: int| 0 <= jj < j ==> e.dom().contains(#[trigger] next@[jj]),
            decreases next@.len() - j,
        {
            if !effects.contains_key(&next[j]) {
                proof {
                    assert(e.dom().contains(b));
                    assert(!e.dom().contains(s[b][j as int]));
                    assert(!graph_closed(e, s));
                }
                return None;
            }
            j = j + 1;
        }
        q = q + 1;
    }
    proof {
        assert(e.dom() =~= effects@.dom());
        assert forall|b: usize| #[trigger] e.dom().contains(b) implies s.contains_key(b) && forall|j: int| 0 <= j < s[b].len() ==> e.dom().contains(
            #[trigger] s[b][j]) by {
            assert(ids@.to_set().contains(b));
            let qq = choose|qq: int| 0 <= qq < ids@.len() && ids@[qq] == b;
            assert(forall|j: int| 0 <= j < s[ids@[qq]].len() ==> e.dom().contains(s[ids@[qq]][j]));
        }
        assert(graph_closed(e, s));
    }
    let (_live_in, live_out) = liveness(&effects, &successors);
    proof {
        lemma_least_out(e, s, sets_view(_live_in@), sets_view(live_out@));
        assert(live_out@.dom() =~= effects@.dom()) by {
            assert(sets_view(live_out@).dom() == e.dom());
        }
        assert forall|x: usize| used_vars(e).contains(x) implies variables@.contains(x) by {
            let (b, k) = choose|b: usize, k: int| #![trigger e[b][k]] e.dom().contains(b) && 0 <= k < e[b].len() && e[b][k].0.contains(x);
            lemma_insts_vars_contains(e[b]);
            assert(effects@.contains_key(b));
        }
        assert forall|b: usize| #[trigger] effects@.contains_key(b) implies live_out@[b]@.subset_of(variables@) by {}
        assert forall|b: usize, k: int| #[trigger] e.dom().contains(b) && 0 <= k < e[b].len() implies (#[trigger] e[b][k]).0.subset_of(
            variables@) && e[b][k].1.subset_of(variables@) by {
            lemma_insts_vars_contains(e[b]);
            assert(effects@.contains_key(b));
        }
    }
    let graph = build_interference(&pset, &effects, &live_out, &variables);
    proof {
        lemma_interferes_symmetric(pset@, e, sets_view(live_out@));
        assert forall|x: usize, y: usize| graph@.contains_key(x) && graph@.contains_key(y) && #[trigger] graph@[x]@.contains(y) implies x != y
            && graph@[y]@.contains(x) by {
            assert(interferes(pset@, e, sets_view(live_out@), x, y));
        }
        assert(graph_ok(variables@, graph@));
    }
    let r = assign_slots(&variables, &graph);
    proof {
        if r is Some {
            let slots = r->0;
            {
                let ob = least_out(e, s);
                assert(ob == sets_view(live_out@));
                assert forall|a: usize, b: usize| #[trigger] slots@.contains_key(a) && #[trigger] slots@.contains_key(b) && interferes(
                    pset@, e, ob, a, b) implies slots@[a] != slots@[b] by {
                    assert(graph@[a]@.contains(b));
                }
                assert forall|v: usize, m: int| slots@.contains_key(v) && 0 <= m && 8 * m < slots@[v] implies #[trigger] slot_taken_before(
                    pset@, e, ob, slots@, v, m) by {
                    assert(held_before(graph@, slots@, v, m));
                    let u = choose|u: usize| #[trigger] slots@.contains_key(u) && u < v && graph@[v]@.contains(u) && slots@[u] == 8 * m;
                    assert(interferes(pset@, e, ob, v, u));
                }
            }
        }
    }
    r
}

/// Two slot assignments that are both correct for the same function agree
/// on variable `v` and on every variable before it.
proof fn lemma_slot_agrees(
    p: Set<usize>,
    e: Map<usize, Insts>,
    out: Map<usize, Set<usize>>,
    s1: Map<usize, usize>,
    s2: Map<usize, usize>,
    v: usize,
)
    requires
        s1.dom() == s2.dom(),
        s1.contains_key(v),
        forall|x: usize| #[trigger] s1.contains_key(x) ==> s1[x] % 8 == 0,
        forall|x: usize| #[trigger] s2.contains_key(x) ==> s2[x] % 8 == 0,
        forall|a: usize, b: usize| #[trigger] s1.contains_key(a) && #[trigger] s1.contains_key(b) && interferes(p, e, out, a, b) ==> s1[a] != s1[b],
        forall|a: usize, b: usize| #[trigger] s2.contains_key(a) && #[trigger] s2.contains_key(b) && interferes(p, e, out, a, b) ==> s2[a] != s2[b],
        forall|x: usize, m: int| s1.contains_key(x) && 0 <= m && 8 * m < s1[x] ==> #[trigger] slot_taken_before(p, e, out, s1, x, m),
        forall|x: usize, m: int| s2.contains_key(x) && 0 <= m && 8 * m < s2[x] ==> #[trigger] slot_taken_before(p, e, out, s2, x, m),
    ensures
        s1[v] == s2[v],
    decreases v,
{
    if s1[v] < s2[v] {
        let m: int = s1[v] as int / 8;
        assert(8 * m == s1[v]);
        assert(slot_taken_before(p, e, out, s2, v, m));
        let u = choose|u: usize| #[trigger] s2.contains_key(u) && u < v && interferes(p, e, out, v, u) && s2[u] == 8 * m;
        lemma_slot_agrees(p, e, out, s1, s2, u);
        assert(s1.contains_key(u));
        assert(s1[v] != s1[u]);
    } else if s2[v] < s1[v] {
        let m: int = s2[v] as int / 8;
        assert(8 * m == s2[v]);
        assert(slot_taken_before(p, e, out, s1, v, m));
        let u = choose|u: usize| #[trigger] s1.contains_key(u) && u < v && interferes(p, e, out, v, u) && s1[u] == 8 * m;
        lemma_slot_agrees(p, e, out, s1, s2, u);
        assert(s2.contains_key(u));
        assert(s2[v] != s2[u]);
    }
}

/// The slots of a function are determined by the function: two assignments
/// that are both correct for the same body, parameters, callable ABIs and
/// local calls are the same map. So `allocate` gives equal results for equal
/// arguments, whatever order its maps are walked in.
pub proof fn lemma_slots_determined(
    body: IrBody,
    params: Seq<IrParam>,
    abis: NameMap<CallableAbi>,
    local: Seq<Seq<char>>,
    s1: Map<usize, usize>,
    s2: Map<usize, usize>,
)
    requires
        slots_correct(body, params, abis, local, s1),
        slots_correct(body, params, abis, local, s2),
    ensures
        s1 == s2,
{
    let e = blocks_effects(body.blocks@, abis, local);
    let out = least_out(e, blocks_next(body.blocks@));
    let p = param_ids(params);
    assert forall|v: usize| #[trigger] s1.contains_key(v) implies s1[v] == s2[v] by {
        lemma_slot_agrees(p, e, out, s1, s2, v);
    }
    assert(s1 =~= s2);
}

/// Every two parameters hold different slots, so spilling one on entry never
/// overwrites another.
pub proof fn lemma_params_apart(
    body: IrBody,
    params: Seq<IrParam>,
    abis: NameMap<CallableAbi>,
    local: Seq<Seq<char>>,
    slots: Map<usize, usize>,
    x: usize,
    y: usize,
)
    requires
        slots_correct(body, params, abis, local, slots),
        param_ids(params).contains(x),
        param_ids(params).contains(y),
        x != y,
    ensures
        slots[x] != slots[y],
{
    assert(slots.contains_key(x) && slots.contains_key(y));
    assert(interferes(param_ids(params), blocks_effects(body.blocks@, abis, local), least_out(
        blocks_effects(body.blocks@, abis, local),
        blocks_next(body.blocks@),
    ), x, y));
}

/// At every point of every block, two variables live there hold different slots.
pub proof fn lemma_live_apart(
    body: IrBody,
    params: Seq<IrParam>,
    abis: NameMap<CallableAbi>,
    local: Seq<Seq<char>>,
    slots: Map<usize, usize>,
    b: usize,
    k: int,
    x: usize,
    y: usize,
)
    requires
        slots_correct(body, params, abis, local, slots),
        blocks_effects(body.blocks@, abis, local).contains_key(b),
        0 <= k <= blocks_effects(body.blocks@, abis, local)[b].len(),
        live_at(
            blocks_effects(body.blocks@, abis, local)[b],
            least_out(blocks_effects(body.blocks@, abis, local), blocks_next(body.blocks@))[b],
            k,
        ).contains(x),
        live_at(
            blocks_effects(body.blocks@, abis, local)[b],
            least_out(blocks_effects(body.blocks@, abis, local), blocks_next(body.blocks@))[b],
            k,
        ).contains(y),
        slots.contains_key(x),
        slots.contains_key(y),
        x != y,
    ensures
        slots[x] != slots[y],
{
    let e = blocks_effects(body.blocks@, abis, local);
    let out = least_out(e, blocks_next(body.blocks@));
    assert(live_at(e[b], out[b], k).contains(x));
    assert(interference::live_together(e[b], out[b], 0, x, y));
    assert(interference::block_rel(e[b], out[b], 0, 0, x, y));
    assert(interferes(param_ids(params), e, out, x, y));
}

/// An instruction never writes a variable into the slot of another variable
/// that is live just after it.
pub proof fn lemma_write_apart(
    body: IrBody,
    params: Seq<IrParam>,
    abis: NameMap<CallableAbi>,
    local: Seq<Seq<char>>,
    slots: Map<usize, usize>,
    b: usize,
    k: int,
    x: usize,
    y: usize,
)
    requires
        slots_correct(body, params, abis, local, slots),
        blocks_effects(body.blocks@, abis, local).contains_key(b),
        0 <= k < blocks_effects(body.blocks@, abis, local)[b].len(),
        blocks_effects(body.blocks@, abis, local)[b][k].1.contains(x),
        live_at(
            blocks_effects(body.blocks@, abis, local)[b],
            least_out(blocks_effects(body.blocks@, abis, local), blocks_next(body.blocks@))[b],
            k + 1,
        ).contains(y),
        slots.contains_key(x),
        slots.contains_key(y),
        x != y,
    ensures
        slots[x] != slots[y],
{
    let e = blocks_effects(body.blocks@, abis, local);
    let out = least_out(e, blocks_next(body.blocks@));
    assert(e[b][k].1.contains(x));
    assert(interference::written_over(e[b], out[b], 0, x, y));
    assert(interference::block_rel(e[b], out[b], 0, 0, x, y));
    assert(interferes(param_ids(params), e, out, x, y));
}


proof fn lemma_blocks_effects_at(blocks: Seq<IrBlock>, abis: NameMap<CallableAbi>, local: Seq<Seq<char>>, j: int)
    requires
        0 <= j < blocks.len(),
        ids_distinct(blocks),
    ensures
        blocks_effects(blocks, abis, local).contains_key(blocks[j].id.0),
        blocks_effects(blocks, abis, local)[blocks[j].id.0] == block_effect(blocks[j], abis, local)->0,
        insts_vars(block_effect(blocks[j], abis, local)->0).subset_of(blocks_vars(blocks, abis, local)),
    decreases blocks.len(),
{
    if j < blocks.len() - 1 {
        let d = blocks.drop_last();
        assert(d[j] == blocks[j]);
        assert(ids_distinct(d));
        lemma_blocks_effects_at(d, abis, local, j);
        assert(blocks[j].id.0 != blocks.last().id.0);
    }
}

/// Two different variables that one instruction reads, such as the left
/// and right operands of a binary operation, are both needed when it runs,
/// so slot reuse never gives them the same slot.
pub proof fn lemma_operands_apart(
    body: IrBody,
    params: Seq<IrParam>,
    abis: NameMap<CallableAbi>,
    local: Seq<Seq<char>>,
    slots: Map<usize, usize>,
    j: int,
    k: int,
    ix: int,
    iy: int,
    x: IrVar,
    y: IrVar,
)
    requires
        slots_correct(body, params, abis, local, slots),
        classified(body, params, abis, local),
        0 <= j < body.blocks@.len(),
        0 <= k < body.blocks@[j].instructions@.len(),
        0 <= ix < classify::operands_read(body.blocks@[j].instructions@[k]).len(),
        0 <= iy < classify::operands_read(body.blocks@[j].instructions@[k]).len(),
        classify::operands_read(body.blocks@[j].instructions@[k])[ix] == IrOperand::Var(x),
        classify::operands_read(body.blocks@[j].instructions@[k])[iy] == IrOperand::Var(y),
        x.id != y.id,
    ensures
        slots.contains_key(x.id),
        slots.contains_key(y.id),
        slots[x.id] != slots[y.id],
{
    let blocks = body.blocks@;
    let blk = blocks[j];
    let insts = blk.instructions@;
    let inst = insts[k];
    let b = blk.id.0;
    assert(block_effect(blocks[j], abis, local) is Some);
    lemma_blocks_effects_at(blocks, abis, local, j);
    let e = blocks_effects(blocks, abis, local);
    let be = block_effect(blk, abis, local)->0;
    let ie = classify::insts_effects(insts, abis, local)->0;
    assert(classify::insts_effects(insts, abis, local) is Some);
    classify::lemma_insts_effects_at(insts, abis, local, k);
    assert(be[k] == ie[k]);
    classify::lemma_effect_uses_every_operand(inst, abis, local, ix, x);
    classify::lemma_effect_uses_every_operand(inst, abis, local, iy, y);
    let uses = be[k].0;
    assert(uses.contains(x.id) && uses.contains(y.id));
    let out = least_out(e, blocks_next(blocks));
    assert(live_at(e[b], out[b], k) == live_at(e[b], out[b], k + 1).difference(e[b][k].1).union(e[b][k].0));
    lemma_insts_vars_contains(be);
    assert(slots.contains_key(x.id) && slots.contains_key(y.id));
    lemma_live_apart(body, params, abis, local, slots, b, k, x.id, y.id);
}

} // verus!
