//! A small map keyed by names, kept as an insertion-ordered list where a
//! later entry for a name shadows earlier ones.

use vstd::prelude::*;
use crate::text::chars_eq_str;
use crate::text::str_chars;

verus! {

/// The entry for `k` that was inserted last, if any.
pub open spec fn find_last<V>(s: Seq<(Seq<char>, V)>, k: Seq<char>) -> Option<V>
    decreases s.len(),
{
    if s.len() == 0 {
        None
    } else if s.last().0 == k {
        Some(s.last().1)
    } else {
        find_last(s.drop_last(), k)
    }
}

pub struct NameMap<V> {
    pub entries: Vec<(String, V)>,
}

impl<V> NameMap<V> {
    /// The entries as name characters and values, in insertion order.
    pub open spec fn pairs(&self) -> Seq<(Seq<char>, V)> {
        self.entries@.map_values(|e: (String, V)| (e.0@, e.1))
    }

    /// The value bound to `k`.
    pub open spec fn lookup(&self, k: Seq<char>) -> Option<V> {
        find_last(self.pairs(), k)
    }

    pub fn new() -> (m: Self)
        ensures
            m.pairs() == Seq::<(Seq<char>, V)>::empty(),
            forall|k: Seq<char>| m.lookup(k) is None,
    {
        let m = NameMap { entries: Vec::new() };
        assert(m.pairs() =~= Seq::<(Seq<char>, V)>::empty());
        m
    }

    /// Binds `key` to `value`, shadowing any earlier binding of `key`.
    pub fn insert(&mut self, key: String, value: V)
        ensures
            final(self).pairs() == old(self).pairs().push((key@, value)),
            final(self).lookup(key@) == Some(value),
            forall|k: Seq<char>| k != key@ ==> final(self).lookup(k) == old(self).lookup(k),
    {
        let ghost kv = key@;
        self.entries.push((key, value));
        assert(self.pairs() =~= old(self).pairs().push((kv, value)));
        assert(self.pairs().drop_last() =~= old(self).pairs());
    }

    /// Removes every binding.
    pub fn clear(&mut self)
        ensures
            final(self).pairs() == Seq::<(Seq<char>, V)>::empty(),
            forall|k: Seq<char>| final(self).lookup(k) is None,
    {
        self.entries.clear();
        assert(self.pairs() =~= Seq::<(Seq<char>, V)>::empty());
    }

    /// Index of the latest entry named `key`.
    pub fn position(&self, key: &str) -> (r: Option<usize>)
        ensures
            r is None ==> self.lookup(key@) is None,
            r matches Some(i) ==> i < self.entries@.len() && self.lookup(key@) == Some(self.entries@[i as int].1)
                && self.entries@[i as int].0@ == key@,
    {
        let ghost p = self.pairs();
        let mut i = self.entries.len();
        assert(p.subrange(0, i as int) =~= p);
        while i > 0
            invariant
                i <= self.entries@.len(),
                p == self.pairs(),
                find_last(p, key@) == find_last(p.subrange(0, i as int), key@),
            decreases i,
        {
            let ghost sub = p.subrange(0, i as int);
            assert(sub.drop_last() =~= p.subrange(0, i - 1));
            if chars_eq_str(str_chars(self.entries[i - 1].0.as_str()).as_slice(), key) {
                return Some(i - 1);
            }
            i = i - 1;
        }
        assert(p.subrange(0, 0) =~= Seq::<(Seq<char>, V)>::empty());
        None
    }

    pub fn contains_key(&self, key: &str) -> (r: bool)
        ensures
            r == self.lookup(key@) is Some,
    {
        self.position(key).is_some()
    }
}

impl<V: Copy> NameMap<V> {
    /// The value bound to `key`.
    pub fn get(&self, key: &str) -> (r: Option<V>)
        ensures
            r == self.lookup(key@),
    {
        match self.position(key) {
            Some(i) => Some(self.entries[i].1),
            None => None,
        }
    }
}

} // verus!
