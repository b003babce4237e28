//! Greedy slot assignment: variables in increasing order each take the
//! lowest eight-byte slot that none of their already placed neighbours holds.

use vstd::prelude::*;
use std::collections::{BTreeMap, BTreeSet};
use super::{set_elements, Variables};

verus! {

broadcast use {
    vstd::std_specs::btree::group_btree_axioms,
    vstd::std_specs::vec::group_vec_axioms,
    vstd::set_lib::group_set_properties,
    vstd::seq_lib::group_seq_properties,
};

/// The graph's edges are symmetric and join distinct variables.
pub open spec fn graph_ok(vars: Set<usize>, g: Map<usize, Variables>) -> bool {
    &&& g.dom() == vars
    &&& forall|x: usize, y: usize| g.contains_key(x) && g.contains_key(y) && #[trigger] g[x]@.contains(y) ==> x != y && g[y]@.contains(x)
}

/// A slot assignment that gives every variable a multiple of eight, gives
/// neighbours different slots, and gives each variable the lowest slot not
/// held by a neighbour that comes before it.
pub open spec fn greedy_slots(vars: Set<usize>, g: Map<usize, Variables>, slots: Map<usize, usize>) -> bool {
    &&& slots.dom() == vars
    &&& forall|v: usize| #[trigger] slots.contains_key(v) ==> slots[v] % 8 == 0
    &&& forall|a: usize, b: usize| #[trigger] slots.contains_key(a) && #[trigger] slots.contains_key(b) && g[a]@.contains(b) ==> slots[a] != slots[b]
    &&& forall|v: usize, m: int| slots.contains_key(v) && 0 <= m && 8 * m < slots[v] ==> #[trigger] held_before(g, slots, v, m)
}

/// Slot `8 * m` is held by a neighbour of `v` that comes before `v`.
pub open spec fn held_before(g: Map<usize, Variables>, slots: Map<usize, usize>, v: usize, m: int) -> bool {
    exists|u: usize| #[trigger] slots.contains_key(u) && u < v && g[v]@.contains(u) && slots[u] == 8 * m
}

/// Places the variables in increasing order, each in the lowest slot that no
/// neighbour placed before it holds. `None` when the slot offsets could not be
/// counted in a `usize`.
pub fn assign_slots(variables: &Variables, graph: &BTreeMap<usize, Variables>) -> (r: Option<BTreeMap<usize, usize>>)
    requires
        graph_ok(variables@, graph@),
    ensures
        r is None <==> variables@.len() > usize::MAX / 8,
        r matches Some(slots) ==> greedy_slots(variables@, graph@, slots@),
{
    let vs = set_elements(variables);
    proof {
        vs@.unique_seq_to_set();
    }
    if vs.len() > usize::MAX / 8 {
        return None;
    }
    let mut slots: BTreeMap<usize, usize> = BTreeMap::new();
    let mut i: usize = 0;
    assert(vs@.subrange(0, 0).to_set() =~= Set::<usize>::empty());
    while i < vs.len()
        invariant
            i <= vs@.len(),
            vs@.len() <= usize::MAX / 8,
            vs@.to_set() == variables@,
            vs@.no_duplicates(),
            forall|a: int, b: int| 0 <= a < b < vs@.len() ==> vs@[a] < vs@[b],
            graph_ok(variables@, graph@),
            slots@.dom() == vs@.subrange(0, i as int).to_set(),
            forall|w: usize| #[trigger] slots@.contains_key(w) ==> slots@[w] % 8 == 0 && slots@[w] < 8 * i,
            forall|a: usize, b: usize| #[trigger] slots@.contains_key(a) && #[trigger] slots@.contains_key(b) && graph@[a]@.contains(b) ==> slots@[a]
                != slots@[b],
            forall|w: usize, m: int| slots@.contains_key(w) && 0 <= m && 8 * m < slots@[w] ==> #[trigger] held_before(graph@, slots@, w, m),
        decreases vs@.len() - i,
    {
        let v = vs[i];
        assert(vs@.to_set().contains(v));
        let nb = match graph.get(&v) {
            Some(s) => s,
            None => {
                assert(false);
                return None;
            },
        };
        let ws = set_elements(nb);
        let mut occupied: BTreeSet<usize> = BTreeSet::new();
        let mut j: usize = 0;
        while j < ws.len()
            invariant
                j <= ws@.len(),
                ws@.to_set() == nb@,
                forall|s: usize| #[trigger] occupied@.contains(s) <==> exists|q: int| #![trigger ws@[q]] 0 <= q < j && slots@.contains_key(ws@[q])
                    && slots@[ws@[q]] == s,
            decreases ws@.len() - j,
        {
            let w = ws[j];
            match slots.get(&w) {
                Some(s) => {
                    occupied.insert(*s);
                },
                None => {},
            }
            assert forall|s: usize| #[trigger] occupied@.contains(s) <==> exists|q: int| #![trigger ws@[q]] 0 <= q < j + 1 && slots@.contains_key(ws@[q])
                && slots@[ws@[q]] == s by {
                if exists|q: int| #![trigger ws@[q]] 0 <= q < j + 1 && slots@.contains_key(ws@[q]) && slots@[ws@[q]] == s {
                    let q = choose|q: int| #![trigger ws@[q]] 0 <= q < j + 1 && slots@.contains_key(ws@[q]) && slots@[ws@[q]] == s;
                    if q < j {
                        assert(exists|q2: int| #![trigger ws@[q2]] 0 <= q2 < j && slots@.contains_key(ws@[q2]) && slots@[ws@[q2]] == s);
                    }
                }
                if occupied@.contains(s) && s != (if slots@.contains_key(w) { slots@[w] } else { s }) {
                    let q = choose|q: int| #![trigger ws@[q]] 0 <= q < j && slots@.contains_key(ws@[q]) && slots@[ws@[q]] == s;
                    assert(0 <= q < j + 1);
                }
            }
            j = j + 1;
        }
        // what is occupied: the slots of the placed neighbours
        assert forall|s: usize| #[trigger] occupied@.contains(s) implies s < 8 * i by {
            {
                let q = choose|q: int| #![trigger ws@[q]] 0 <= q < ws@.len() && slots@.contains_key(ws@[q]) && slots@[ws@[q]] == s;
                assert(slots@.contains_key(ws@[q]));
            }
        }
        let mut m: usize = 0;
        while occupied.contains(&(m * 8))
            invariant
                m <= i,
                i < vs@.len(),
                vs@.len() <= usize::MAX / 8,
                forall|s: usize| #[trigger] occupied@.contains(s) ==> s < 8 * i,
                forall|mm: int| 0 <= mm < m ==> #[trigger] occupied@.contains((8 * mm) as usize),
            decreases i - m,
        {
            assert(m < i) by {
                if m >= i {
                    assert(occupied@.contains((m * 8) as usize));
                }
            }
            assert forall|mm: int| 0 <= mm < m + 1 implies #[trigger] occupied@.contains((8 * mm) as usize) by {
                if mm == m {
                    assert((8 * mm) as usize == (m * 8) as usize);
                }
            }
            m = m + 1;
        }
        let slot = m * 8;
        let ghost old_slots = slots@;
        assert(!old_slots.contains_key(v)) by {
            if old_slots.contains_key(v) {
                let q = choose|q: int| 0 <= q < i && vs@[q] == v;
                assert(vs@[q] < vs@[i as int]);
            }
        }
        slots.insert(v, slot);
        assert(vs@.subrange(0, i + 1) =~= vs@.subrange(0, i as int).push(v));
        assert(slots@.dom() =~= vs@.subrange(0, i + 1).to_set());
        proof {
            // neighbours placed earlier hold other slots
            assert forall|u: usize| #[trigger] old_slots.contains_key(u) && nb@.contains(u) implies old_slots[u] != slot by {
                assert(ws@.to_set().contains(u));
                let q = choose|q: int| 0 <= q < ws@.len() && ws@[q] == u;
                assert(occupied@.contains(old_slots[u]));
            }
            assert forall|a: usize, b: usize| #[trigger] slots@.contains_key(a) && #[trigger] slots@.contains_key(b) && graph@[a]@.contains(b)
                implies slots@[a] != slots@[b] by {
                if a == v && b != v {
                    assert(old_slots.contains_key(b));
                } else if b == v && a != v {
                    assert(old_slots.contains_key(a));
                    assert(vs@.to_set().contains(a)) by {
                        let k = choose|k: int| 0 <= k < i && vs@[k] == a;
                        assert(vs@[k] == a);
                    }
                    assert(graph@.contains_key(a) && graph@.contains_key(b) && graph@[a]@.contains(b));
                    assert(graph@[b]@.contains(a));
                    assert(old_slots.contains_key(a));
                } else if a == v && b == v {
                    assert(graph@.contains_key(a) && graph@[a]@.contains(b));
                }
            }
            assert forall|w: usize, mm: int| slots@.contains_key(w) && 0 <= mm && 8 * mm < slots@[w] implies #[trigger] held_before(graph@, slots@, w, mm) by {
                if w == v {
                    assert(mm < m);
                    assert(occupied@.contains((8 * mm) as usize));
                    let q = choose|q: int| #![trigger ws@[q]] 0 <= q < ws@.len() && slots@.contains_key(ws@[q]) && old_slots[ws@[q]] == (8 * mm) as usize;
                    let u = ws@[q];
                    assert(old_slots.contains_key(u));
                    assert(ws@.to_set().contains(u));
                    let k = choose|k: int| 0 <= k < i && vs@[k] == u;
                    assert(vs@[k] < vs@[i as int]);
                    assert(slots@.contains_key(u) && u < w && graph@[w]@.contains(u) && slots@[u] == 8 * mm);
                } else {
                    assert(old_slots.contains_key(w));
                    assert(held_before(graph@, old_slots, w, mm));
                    let u = choose|u: usize| #[trigger] old_slots.contains_key(u) && u < w && graph@[w]@.contains(u) && old_slots[u] == 8 * mm;
                    assert(slots@.contains_key(u));
                }
            }
        }
        i = i + 1;
    }
    assert(vs@.subrange(0, vs@.len() as int) =~= vs@);
    Some(slots)
}

} // verus!
