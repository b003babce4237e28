//! Field layouts of mutated cells, and the byte ranges a mutation may change.

use vstd::prelude::*;
use crate::codegen::generator::{CodeGenerator, RUNTIME_SCRATCH_BUFFER_SIZE};
use crate::codegen::schema::{layout_fixed_byte_width, SchemaFieldLayout};
use crate::codegen::widths::{byte_width_fits, opt_usize, spec_fixed_byte_width};
use crate::ir::{MutateFieldTransition, MutatePattern};

verus! {

broadcast use vstd::std_specs::vec::group_vec_axioms;

/// A field's byte-block width, or its enum's storage width.
pub open spec fn layout_byte_width(l: SchemaFieldLayout) -> Option<int> {
    if spec_fixed_byte_width(l.ty, l.fixed_size) is Some {
        spec_fixed_byte_width(l.ty, l.fixed_size)
    } else {
        opt_usize(l.fixed_enum_size)
    }
}

/// Whether byte `b` lies in the half-open range `r`.
pub open spec fn in_range(r: (usize, usize), b: int) -> bool {
    r.0 <= b < r.1
}

/// Whether byte `b` lies in one of the ranges.
pub open spec fn covered(rs: Seq<(usize, usize)>, b: int) -> bool {
    exists|i: int| 0 <= i < rs.len() && #[trigger] in_range(rs[i], b)
}

/// Ranges in order of their starts.
pub open spec fn sorted_by_start(rs: Seq<(usize, usize)>) -> bool {
    forall|i: int, j: int| 0 <= i < j < rs.len() ==> rs[i].0 <= rs[j].0
}

/// Nonempty ranges in increasing order with a gap between each two.
pub open spec fn canonical_ranges(rs: Seq<(usize, usize)>) -> bool {
    &&& forall|i: int| 0 <= i < rs.len() ==> #[trigger] rs[i].0 < rs[i].1
    &&& forall|i: int, j: int| 0 <= i < j < rs.len() ==> rs[i].1 < rs[j].0
}

impl CodeGenerator {
    /// The layout of `field` in schema `ty`.
    pub open spec fn spec_field_layout(&self, ty: Seq<char>, field: Seq<char>) -> Option<SchemaFieldLayout> {
        match self.type_layouts.lookup(ty) {
            Some(fields) => fields.lookup(field),
            None => None,
        }
    }

    /// Every recorded field type has a byte width that fits `usize`.
    pub open spec fn layouts_fit(&self) -> bool {
        forall|ty: Seq<char>, field: Seq<char>| #[trigger] self.spec_field_layout(ty, field) matches Some(l) ==> byte_width_fits(l.ty)
    }

    /// The layout of `field` in schema `ty`, if it was recorded.
    pub fn field_layout(&self, ty: &str, field: &str) -> (r: Option<&SchemaFieldLayout>)
        ensures
            match r {
                Some(l) => self.spec_field_layout(ty@, field@) == Some(*l),
                None => self.spec_field_layout(ty@, field@) is None,
            },
    {
        match self.type_layouts.position(ty) {
            Some(i) => {
                let fields = &self.type_layouts.entries[i].1;
                match fields.position(field) {
                    Some(j) => Some(&fields.entries[j].1),
                    None => None,
                }
            },
            None => None,
        }
    }
}

/// The byte range of a transition's field inside the scratch buffer, when the
/// field has a fixed width and ends within the buffer.
pub open spec fn transition_range(g: CodeGenerator, ty: Seq<char>, t: MutateFieldTransition) -> Option<(usize, usize)> {
    match g.spec_field_layout(ty, t.field@) {
        Some(l) => match layout_byte_width(l) {
            Some(w) => if l.offset + w <= RUNTIME_SCRATCH_BUFFER_SIZE {
                Some((l.offset, (l.offset + w) as usize))
            } else {
                None
            },
            None => None,
        },
        None => None,
    }
}

/// Whether the exclusion ranges of a mutation are known: each written field
/// has a transition, the schema has a fixed size that fits the scratch
/// buffer, and every transition's field has a range in it.
pub open spec fn exclusion_known(g: CodeGenerator, p: MutatePattern) -> bool {
    &&& p.transitions@.len() == p.fields@.len()
    &&& g.type_fixed_sizes.lookup(p.ty@) is Some
    &&& g.type_fixed_sizes.lookup(p.ty@)->0 <= RUNTIME_SCRATCH_BUFFER_SIZE
    &&& forall|i: int| 0 <= i < p.transitions@.len() ==> #[trigger] transition_range(g, p.ty@, p.transitions@[i]) is Some
}

/// The ranges of the transitions' fields, in transition order.
pub open spec fn transition_ranges(g: CodeGenerator, p: MutatePattern) -> Seq<(usize, usize)> {
    Seq::new(p.transitions@.len(), |i: int| transition_range(g, p.ty@, p.transitions@[i])->0)
}

/// Sorts ranges by their starts.
pub fn sort_ranges(ranges: &Vec<(usize, usize)>) -> (r: Vec<(usize, usize)>)
    ensures
        sorted_by_start(r@),
        forall|b: int| covered(r@, b) <==> covered(ranges@, b),
{
    let mut out: Vec<(usize, usize)> = Vec::new();
    let mut k: usize = 0;
    while k < ranges.len()
        invariant
            k <= ranges@.len(),
            sorted_by_start(out@),
            forall|b: int| covered(out@, b) <==> covered(ranges@.take(k as int), b),
        decreases ranges@.len() - k,
    {
        let x = ranges[k];
        let mut p: usize = 0;
        while p < out.len() && out[p].0 <= x.0
            invariant
                p <= out@.len(),
                forall|i: int| 0 <= i < p ==> out@[i].0 <= x.0,
            decreases out@.len() - p,
        {
            p = p + 1;
        }
        let ghost before = out@;
        out.insert(p, x);
        proof {
            before.insert_ensures(p as int, x);
            assert forall|i: int, j: int| 0 <= i < j < out@.len() implies out@[i].0 <= out@[j].0 by {
                if j < p {
                } else if j == p {
                } else if i < p {
                    if p < before.len() {
                        assert(before[p as int].0 > x.0);
                    }
                } else if i == p {
                    assert(before[p as int].0 > x.0);
                    assert(before[p as int].0 <= before[j - 1].0);
                } else {
                    assert(before[i - 1].0 <= before[j - 1].0);
                }
            }
            assert(ranges@.take(k + 1) =~= ranges@.take(k as int).push(x));
            assert forall|b: int| covered(out@, b) <==> covered(ranges@.take(k + 1), b) by {
                let t = ranges@.take(k as int);
                if covered(out@, b) {
                    let i = choose|i: int| 0 <= i < out@.len() && #[trigger] in_range(out@[i], b);
                    if i < p {
                        assert(in_range(before[i], b));
                        assert(covered(before, b));
                        assert(covered(t, b));
                        let w = choose|w: int| 0 <= w < t.len() && #[trigger] in_range(t[w], b);
                        assert(in_range(t.push(x)[w], b));
                    } else if i == p {
                        assert(in_range(t.push(x)[t.len() as int], b));
                    } else {
                        assert(in_range(before[i - 1], b));
                        assert(covered(before, b));
                        assert(covered(t, b));
                        let w = choose|w: int| 0 <= w < t.len() && #[trigger] in_range(t[w], b);
                        assert(in_range(t.push(x)[w], b));
                    }
                }
                if covered(ranges@.take(k + 1), b) {
                    let w = choose|w: int| 0 <= w < t.len() + 1 && #[trigger] in_range(t.push(x)[w], b);
                    if w == t.len() {
                        assert(in_range(out@[p as int], b));
                    } else {
                        assert(in_range(t[w], b));
                        assert(covered(t, b));
                        assert(covered(before, b));
                        let i = choose|i: int| 0 <= i < before.len() && #[trigger] in_range(before[i], b);
                        if i < p {
                            assert(in_range(out@[i], b));
                        } else {
                            assert(in_range(out@[i + 1], b));
                        }
                    }
                }
            }
        }
        k = k + 1;
    }
    assert(ranges@.take(ranges@.len() as int) =~= ranges@);
    out
}

/// Merges ranges sorted by start into the canonical list that covers the
/// same bytes: empty ranges vanish, and overlapping or touching ones join.
pub fn merge_ranges(sorted: &Vec<(usize, usize)>) -> (r: Vec<(usize, usize)>)
    requires
        sorted_by_start(sorted@),
    ensures
        canonical_ranges(r@),
        forall|b: int| covered(r@, b) <==> covered(sorted@, b),
{
    let mut merged: Vec<(usize, usize)> = Vec::new();
    let mut k: usize = 0;
    while k < sorted.len()
        invariant
            k <= sorted@.len(),
            sorted_by_start(sorted@),
            canonical_ranges(merged@),
            forall|b: int| covered(merged@, b) <==> covered(sorted@.take(k as int), b),
            merged@.len() > 0 ==> forall|j: int| k <= j < sorted@.len() ==> merged@.last().0 <= #[trigger] sorted@[j].0,
        decreases sorted@.len() - k,
    {
        let (start, end) = sorted[k];
        let ghost t = sorted@.take(k as int);
        let ghost before = merged@;
        assert(sorted@.take(k + 1) =~= t.push((start, end)));
        if start >= end {
            assert forall|b: int| covered(merged@, b) <==> covered(sorted@.take(k + 1), b) by {
                if covered(t.push((start, end)), b) {
                    let w = choose|w: int| 0 <= w < t.len() + 1 && #[trigger] in_range(t.push((start, end))[w], b);
                    assert(in_range(t[w], b));
                }
                if covered(t, b) {
                    let w = choose|w: int| 0 <= w < t.len() && #[trigger] in_range(t[w], b);
                    assert(in_range(t.push((start, end))[w], b));
                }
            }
        } else {
            let n = merged.len();
            if n > 0 && start <= merged[n - 1].1 {
                let last = merged[n - 1];
                let new_end = if last.1 < end { end } else { last.1 };
                merged.set(n - 1, (last.0, new_end));
                proof {
                    assert(last.0 <= start);
                    assert forall|b: int| covered(merged@, b) <==> covered(sorted@.take(k + 1), b) by {
                        if covered(merged@, b) {
                            let i = choose|i: int| 0 <= i < merged@.len() && #[trigger] in_range(merged@[i], b);
                            if i < n - 1 {
                                assert(in_range(before[i], b));
                                assert(covered(before, b));
                        assert(covered(t, b));
                        let w = choose|w: int| 0 <= w < t.len() && #[trigger] in_range(t[w], b);
                                assert(in_range(t.push((start, end))[w], b));
                            } else if b < last.1 {
                                assert(in_range(before[n - 1], b));
                                assert(covered(before, b));
                        assert(covered(t, b));
                        let w = choose|w: int| 0 <= w < t.len() && #[trigger] in_range(t[w], b);
                                assert(in_range(t.push((start, end))[w], b));
                            } else {
                                assert(in_range(t.push((start, end))[t.len() as int], b));
                            }
                        }
                        if covered(t.push((start, end)), b) {
                            let w = choose|w: int| 0 <= w < t.len() + 1 && #[trigger] in_range(t.push((start, end))[w], b);
                            if w == t.len() {
                                if b < last.1 {
                                    assert(in_range(merged@[n - 1], b));
                                } else {
                                    assert(in_range(merged@[n - 1], b));
                                }
                            } else {
                                assert(in_range(t[w], b));
                                assert(covered(t, b));
                                assert(covered(before, b));
                                let i = choose|i: int| 0 <= i < before.len() && #[trigger] in_range(before[i], b);
                                if i < n - 1 {
                                    assert(in_range(merged@[i], b));
                                } else {
                                    assert(in_range(merged@[n - 1], b));
                                }
                            }
                        }
                    }
                }
            } else {
                merged.push((start, end));
                proof {
                    assert forall|i: int, j: int| 0 <= i < j < merged@.len() implies merged@[i].1 < merged@[j].0 by {
                        if j == n {
                            if i < n - 1 {
                                assert(before[i].1 < before[n - 1].0);
                                assert(before[n - 1].0 < before[n - 1].1);
                            }
                        }
                    }
                    assert forall|b: int| covered(merged@, b) <==> covered(sorted@.take(k + 1), b) by {
                        if covered(merged@, b) {
                            let i = choose|i: int| 0 <= i < merged@.len() && #[trigger] in_range(merged@[i], b);
                            if i < n {
                                assert(in_range(before[i], b));
                                assert(covered(before, b));
                        assert(covered(t, b));
                        let w = choose|w: int| 0 <= w < t.len() && #[trigger] in_range(t[w], b);
                                assert(in_range(t.push((start, end))[w], b));
                            } else {
                                assert(in_range(t.push((start, end))[t.len() as int], b));
                            }
                        }
                        if covered(t.push((start, end)), b) {
                            let w = choose|w: int| 0 <= w < t.len() + 1 && #[trigger] in_range(t.push((start, end))[w], b);
                            if w == t.len() {
                                assert(in_range(merged@[n as int], b));
                            } else {
                                assert(in_range(t[w], b));
                                assert(covered(t, b));
                                assert(covered(before, b));
                                let i = choose|i: int| 0 <= i < before.len() && #[trigger] in_range(before[i], b);
                                assert(in_range(merged@[i], b));
                            }
                        }
                    }
                }
            }
        }
        k = k + 1;
    }
    assert(sorted@.take(sorted@.len() as int) =~= sorted@);
    merged
}

/// The bytes a canonical list covers beyond its first range are exactly what
/// the rest of the list covers.
proof fn lemma_canonical_tail(a: Seq<(usize, usize)>, x: int)
    requires
        canonical_ranges(a),
        a.len() > 0,
    ensures
        covered(a.drop_first(), x) <==> (covered(a, x) && x >= a[0].1),
{
    let t = a.drop_first();
    if covered(t, x) {
        let i = choose|i: int| 0 <= i < t.len() && #[trigger] in_range(t[i], x);
        assert(in_range(a[i + 1], x));
        assert(a[0].1 < a[i + 1].0);
    }
    if covered(a, x) && x >= a[0].1 {
        let i = choose|i: int| 0 <= i < a.len() && #[trigger] in_range(a[i], x);
        assert(i != 0);
        assert(in_range(t[i - 1], x));
    }
}

/// Two canonical range lists that cover the same bytes are the same list:
/// the canonical cover of a set of bytes is unique.
pub proof fn lemma_canonical_unique(a: Seq<(usize, usize)>, b: Seq<(usize, usize)>)
    requires
        canonical_ranges(a),
        canonical_ranges(b),
        forall|x: int| covered(a, x) <==> covered(b, x),
    ensures
        a == b,
    decreases a.len() + b.len(),
{
    if a.len() == 0 || b.len() == 0 {
        if a.len() > 0 {
            assert(in_range(a[0], a[0].0 as int));
            assert(covered(a, a[0].0 as int));
        }
        if b.len() > 0 {
            assert(in_range(b[0], b[0].0 as int));
            assert(covered(b, b[0].0 as int));
        }
        assert(a =~= b);
    } else {
        let (s1, e1) = a[0];
        let (s2, e2) = b[0];
        if s1 < s2 {
            assert(in_range(a[0], s1 as int));
            assert(covered(b, s1 as int));
            let j = choose|j: int| 0 <= j < b.len() && #[trigger] in_range(b[j], s1 as int);
            if j > 0 {
                assert(b[0].1 < b[j].0);
            }
        }
        if s2 < s1 {
            assert(in_range(b[0], s2 as int));
            assert(covered(a, s2 as int));
            let j = choose|j: int| 0 <= j < a.len() && #[trigger] in_range(a[j], s2 as int);
            if j > 0 {
                assert(a[0].1 < a[j].0);
            }
        }
        assert(s1 == s2);
        if e1 < e2 {
            assert(in_range(b[0], e1 as int));
            assert(covered(a, e1 as int));
            let j = choose|j: int| 0 <= j < a.len() && #[trigger] in_range(a[j], e1 as int);
            if j > 0 {
                assert(a[0].1 < a[j].0);
            }
        }
        if e2 < e1 {
            assert(in_range(a[0], e2 as int));
            assert(covered(b, e2 as int));
            let j = choose|j: int| 0 <= j < b.len() && #[trigger] in_range(b[j], e2 as int);
            if j > 0 {
                assert(b[0].1 < b[j].0);
            }
        }
        assert(e1 == e2);
        assert forall|x: int| covered(a.drop_first(), x) <==> covered(b.drop_first(), x) by {
            lemma_canonical_tail(a, x);
            lemma_canonical_tail(b, x);
        }
        lemma_canonical_unique(a.drop_first(), b.drop_first());
        assert(a =~= b) by {
            assert forall|i: int| 0 <= i < a.len() implies a[i] == b[i] by {
                if i > 0 {
                    assert(a[i] == a.drop_first()[i - 1]);
                    assert(b[i] == b.drop_first()[i - 1]);
                }
            }
        }
    }
}

impl CodeGenerator {
    /// The byte ranges of a mutated cell that its transitions may change,
    /// sorted and merged; `None` when some transition's field has no fixed
    /// range inside the scratch buffer, or the schema is not fixed-size.
    pub fn mutate_transition_exclusion_ranges(&self, pattern: &MutatePattern) -> (r: Option<Vec<(usize, usize)>>)
        requires
            self.layouts_fit(),
        ensures
            r is Some <==> exclusion_known(*self, *pattern),
            r matches Some(m) ==> canonical_ranges(m@) && forall|b: int|
                covered(m@, b) <==> covered(transition_ranges(*self, *pattern), b),
    {
        if pattern.transitions.len() != pattern.fields.len() {
            return None;
        }
        let type_size = match self.type_fixed_sizes.get(pattern.ty.as_str()) {
            Some(size) => size,
            None => return None,
        };
        if type_size > RUNTIME_SCRATCH_BUFFER_SIZE {
            return None;
        }
        let ghost all = transition_ranges(*self, *pattern);
        let mut ranges: Vec<(usize, usize)> = Vec::new();
        let mut k: usize = 0;
        while k < pattern.transitions.len()
            invariant
                k <= pattern.transitions@.len(),
                self.layouts_fit(),
                all == transition_ranges(*self, *pattern),
                ranges@ == all.take(k as int),
                forall|i: int| 0 <= i < k ==> #[trigger] transition_range(*self, pattern.ty@, pattern.transitions@[i]) is Some,
            decreases pattern.transitions@.len() - k,
        {
            let t = &pattern.transitions[k];
            let layout = match self.field_layout(pattern.ty.as_str(), t.field.as_str()) {
                Some(l) => l,
                None => {
                    assert(transition_range(*self, pattern.ty@, pattern.transitions@[k as int]) is None);
                    return None;
                },
            };
            let width = match layout_fixed_byte_width(layout) {
                Some(w) => w,
                None => {
                    assert(transition_range(*self, pattern.ty@, pattern.transitions@[k as int]) is None);
                    return None;
                },
            };
            if width > RUNTIME_SCRATCH_BUFFER_SIZE || layout.offset > RUNTIME_SCRATCH_BUFFER_SIZE - width {
                assert(transition_range(*self, pattern.ty@, pattern.transitions@[k as int]) is None);
                return None;
            }
            ranges.push((layout.offset, layout.offset + width));
            proof {
                assert(all[k as int] == (layout.offset, (layout.offset + width) as usize));
                assert(all.take(k + 1) =~= all.take(k as int).push(all[k as int]));
            }
            k = k + 1;
        }
        proof {
            assert(all.take(k as int) =~= all);
        }
        let sorted = sort_ranges(&ranges);
        Some(merge_ranges(&sorted))
    }
}

} // verus!
