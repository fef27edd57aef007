//! A table keyed by number, read in the order of its keys.

use std::collections::BTreeMap;

use vstd::prelude::*;
use vstd::std_specs::btree::increasing_seq;
use vstd::std_specs::cmp::OrdSpec;

use crate::seqs::opt_view;

verus! {

broadcast use vstd::std_specs::btree::group_btree_axioms;

/// Values under numbers.
#[derive(Debug)]
pub struct Slots<T> {
    entries: BTreeMap<u64, T>,
}

impl<T: View> View for Slots<T> {
    type V = Map<u64, T::V>;

    closed spec fn view(&self) -> Map<u64, T::V> {
        self.entries@.map_values(|v: T| v@)
    }
}

/// The value under the key `k`.
pub open spec fn found<V>(m: Map<u64, V>, k: u64) -> Option<V> {
    if m.contains_key(k) {
        Some(m[k])
    } else {
        None
    }
}

/// Whether the keys ascend.
pub open spec fn ascends(s: Seq<u64>) -> bool {
    forall|i: int, j: int| 0 <= i < j < s.len() ==> #[trigger] s[i] < #[trigger] s[j]
}

/// Whether these are the keys, in ascending order.
pub open spec fn lists(s: Seq<u64>, keys: Set<u64>) -> bool {
    &&& ascends(s)
    &&& forall|k: u64| #[trigger] s.contains(k) <==> keys.contains(k)
}

/// The keys in ascending order.
pub open spec fn in_order(keys: Set<u64>) -> Seq<u64> {
    choose|s: Seq<u64>| lists(s, keys)
}

/// There is one ascending order.
proof fn lemma_one_order(s: Seq<u64>, t: Seq<u64>, keys: Set<u64>)
    requires
        lists(s, keys),
        lists(t, keys),
    ensures
        s == t,
    decreases s.len(),
{
    if s.len() == 0 {
        if t.len() > 0 {
            assert(t.contains(t[0]));
            assert(s.contains(t[0]));
        }
        assert(s =~= t);
    } else {
        let n = s.len() - 1;
        assert(s.contains(s[n]));
        assert(t.contains(s[n]));
        let m = t.len() - 1;
        assert(t.contains(t[m]));
        assert(s.contains(t[m]));
        let i = choose|i: int| 0 <= i < s.len() && s[i] == t[m];
        let j = choose|j: int| 0 <= j < t.len() && t[j] == s[n];
        assert(s[i] <= s[n]);
        assert(t[j] <= t[m]);
        let rest = keys.remove(s[n]);
        lemma_without_last(s, keys);
        lemma_without_last(t, keys);
        lemma_one_order(s.drop_last(), t.drop_last(), rest);
        assert(s =~= s.drop_last().push(s[n]));
        assert(t =~= t.drop_last().push(t[m]));
    }
}

proof fn lemma_without_last(s: Seq<u64>, keys: Set<u64>)
    requires
        lists(s, keys),
        s.len() > 0,
    ensures
        lists(s.drop_last(), keys.remove(s.last())),
{
    let head = s.drop_last();
    let rest = keys.remove(s.last());
    assert(ascends(head)) by {
        assert forall|i: int, j: int| 0 <= i < j < head.len() implies #[trigger] head[i]
            < #[trigger] head[j] by {
            assert(s[i] < s[j]);
        }
    }
    assert forall|k: u64| #[trigger] head.contains(k) <==> rest.contains(k) by {
        if head.contains(k) {
            let i = choose|i: int| 0 <= i < head.len() && head[i] == k;
            assert(s[i] == k);
            assert(s.contains(k));
            assert(s[i] < s[s.len() - 1]);
        }
        if rest.contains(k) {
            assert(s.contains(k));
            let i = choose|i: int| 0 <= i < s.len() && s[i] == k;
            assert(head[i] == k);
        }
    }
}

/// The ascending order of the keys is the one that lists them.
pub proof fn law_order_is_ascending(s: Seq<u64>, keys: Set<u64>)
    requires
        lists(s, keys),
    ensures
        in_order(keys) == s,
{
    lemma_one_order(in_order(keys), s, keys);
}

impl<T: View> Slots<T> {
    /// A table without entries.
    pub fn new() -> (r: Slots<T>)
        ensures
            r@ == Map::<u64, T::V>::empty(),
    {
        let r = Slots { entries: BTreeMap::new() };
        assert(r@ =~= Map::<u64, T::V>::empty());
        r
    }

    /// The keys, in ascending order.
    pub fn keys(&self) -> (r: Vec<u64>)
        ensures
            r@ == in_order(self@.dom()),
            lists(r@, self@.dom()),
    {
        let mut r: Vec<u64> = Vec::new();
        let iter = self.entries.iter();
        let ghost all = vstd::std_specs::iter::IteratorSpec::remaining(&iter);
        for e in it: iter
            invariant
                it.seq() == all,
                r@.len() == it.index(),
                forall|i: int| 0 <= i < r@.len() ==> #[trigger] r@[i] == *all[i].0,
        {
            r.push(*e.0);
        }
        proof {
            let keys = all.map_values(|kv: (&u64, &T)| *kv.0);
            assert(r@ =~= keys);
            assert(increasing_seq(keys));
            assert(ascends(r@)) by {
                assert forall|i: int, j: int| 0 <= i < j < r@.len() implies #[trigger] r@[i]
                    < #[trigger] r@[j] by {
                    assert(r@[i].cmp_spec(&r@[j]) is Less);
                }
            }
            assert forall|k: u64| #[trigger] r@.contains(k) <==> self@.dom().contains(k) by {
                if r@.contains(k) {
                    let i = choose|i: int| 0 <= i < r@.len() && r@[i] == k;
                    assert(self.entries@.contains_key(*all[i].0));
                }
                if self@.dom().contains(k) {
                    assert(self.entries@.contains_key(k));
                    let i = choose|i: int|
                        0 <= i < all.len() && all[i] == (&k, &self.entries@[k]);
                    assert(r@[i] == k);
                }
            }
            lemma_one_order(r@, in_order(self@.dom()), self@.dom());
        }
        r
    }

    /// The value under the key `k`.
    pub fn get(&self, k: u64) -> (r: Option<&T>)
        ensures
            opt_view(r) == found(self@, k),
    {
        self.entries.get(&k)
    }

    /// Puts a value under the key `k`.
    pub fn set(&mut self, k: u64, v: T)
        ensures
            final(self)@ == old(self)@.insert(k, v@),
    {
        let ghost before = self@;
        let _ = self.entries.insert(k, v);
        assert(self@ =~= before.insert(k, v@));
    }
}

} // verus!
