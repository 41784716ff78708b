//! A small association map keyed by chunk coordinate.
//!
//! Backed by a vector of entries with pairwise-distinct keys, viewed as a
//! `Map<ChunkCoordinate, V>`. Lookup is linear, which suits the short,
//! bounded collections the streaming pipeline keeps per tick.

use vstd::prelude::*;

use crate::coord::ChunkCoordinate;

verus! {

/// Association map from chunk coordinates to `V`, with distinct keys.
pub struct VecMap<V> {
    entries: Vec<(ChunkCoordinate, V)>,
}

/// Some entry of `s` carries the key `k`.
pub open spec fn has_key<V>(s: Seq<(ChunkCoordinate, V)>, k: ChunkCoordinate) -> bool {
    exists|i: int| 0 <= i < s.len() && s[i].0 == k
}

/// The value stored beside the key `k`.
pub open spec fn value_of<V>(s: Seq<(ChunkCoordinate, V)>, k: ChunkCoordinate) -> V {
    s[choose|i: int| 0 <= i < s.len() && s[i].0 == k].1
}

/// The keys of `s` are pairwise distinct.
pub open spec fn distinct_keys<V>(s: Seq<(ChunkCoordinate, V)>) -> bool {
    forall|i: int, j: int| 0 <= i < j < s.len() ==> s[i].0 != s[j].0
}

/// With distinct keys, holding the entry `(k, v)` settles what a lookup of
/// `k` returns.
proof fn lemma_value_is<V>(s: Seq<(ChunkCoordinate, V)>, i: int, k: ChunkCoordinate, v: V)
    requires
        distinct_keys(s),
        0 <= i < s.len(),
        s[i] == (k, v),
    ensures
        has_key(s, k),
        value_of(s, k) == v,
{
    assert(s[i].0 == k);
    let a = choose|a: int| 0 <= a < s.len() && s[a].0 == k;
    assert(a == i);
}

/// Index in the sequence before a swap-remove at `i` holding what stands at
/// `a` afterwards.
pub open spec fn src_index(a: int, i: int, n: int) -> int {
    if a == i {
        n - 1
    } else {
        a
    }
}

/// After a swap-remove at `i`, the entries are exactly those that stood
/// away from `i`, each found by one explicit index map; keys stay distinct.
proof fn lemma_swap_remove_distinct<V>(
    before: Seq<(ChunkCoordinate, V)>,
    after: Seq<(ChunkCoordinate, V)>,
    i: int,
)
    requires
        distinct_keys(before),
        0 <= i < before.len(),
        after == before.update(i, before.last()).drop_last(),
    ensures
        distinct_keys(after),
        after.len() == before.len() - 1,
        forall|a: int|
            0 <= a < after.len() ==> #[trigger] after[a] == before[src_index(
                a,
                i,
                before.len() as int,
            )],
{
    assert forall|a: int, b: int| 0 <= a < b < after.len() implies after[a].0 != after[b].0 by {
        let fa = if a == i {
            before.len() - 1
        } else {
            a
        };
        let fb = if b == i {
            before.len() - 1
        } else {
            b
        };
        assert(after[a] == before[fa]);
        assert(after[b] == before[fb]);
        assert(fa != fb);
    }
}

impl<V> View for VecMap<V> {
    type V = Map<ChunkCoordinate, V>;

    closed spec fn view(&self) -> Map<ChunkCoordinate, V> {
        Map::new(|k: ChunkCoordinate| has_key(self.entries@, k), |k| value_of(self.entries@, k))
    }
}

impl<V> VecMap<V> {
    /// Keys are pairwise distinct, so each lookup is unambiguous.
    pub closed spec fn wf(self) -> bool {
        distinct_keys(self.entries@)
    }

    /// Number of entries, equal to the number of distinct keys held.
    pub closed spec fn spec_len(self) -> int {
        self.entries@.len() as int
    }

    /// An empty map.
    pub fn new() -> (r: VecMap<V>)
        ensures
            r.wf(),
            r@ == Map::<ChunkCoordinate, V>::empty(),
            r.spec_len() == 0,
    {
        let r = VecMap { entries: Vec::new() };
        proof {
            assert(r@ =~= Map::<ChunkCoordinate, V>::empty());
        }
        r
    }

    /// Index of the entry holding `k`, if one does.
    fn find(&self, k: &ChunkCoordinate) -> (r: Option<usize>)
        ensures
            match r {
                Some(i) => i < self.entries@.len() && self.entries@[i as int].0 == *k,
                None => !has_key(self.entries@, *k),
            },
    {
        let mut i: usize = 0;
        while i < self.entries.len()
            invariant
                i <= self.entries@.len(),
                forall|j: int| 0 <= j < i ==> self.entries@[j].0 != *k,
            decreases self.entries@.len() - i,
        {
            if self.entries[i].0 == *k {
                return Some(i);
            }
            i += 1;
        }
        None
    }

    /// Whether a value is stored under `k`.
    pub fn contains_key(&self, k: &ChunkCoordinate) -> (r: bool)
        ensures
            r == self@.dom().contains(*k),
    {
        self.find(k).is_some()
    }

    /// The value stored under `k`, if one is.
    pub fn get(&self, k: &ChunkCoordinate) -> (r: Option<&V>)
        requires
            self.wf(),
        ensures
            match r {
                Some(v) => self@.dom().contains(*k) && *v == self@[*k],
                None => !self@.dom().contains(*k),
            },
    {
        match self.find(k) {
            Some(i) => {
                proof {
                    let e = self.entries@[i as int];
                    lemma_value_is(self.entries@, i as int, *k, e.1);
                }
                Some(&self.entries[i].1)
            },
            None => None,
        }
    }

    /// Stores `v` under `k`, replacing any previous value.
    pub fn insert(&mut self, k: ChunkCoordinate, v: V)
        requires
            old(self).wf(),
        ensures
            final(self).wf(),
            final(self)@ == old(self)@.insert(k, v),
            final(self).spec_len() <= old(self).spec_len() + 1,
    {
        let ghost olds = self.entries@;
        let ghost n = self.entries@.len() as int;
        match self.find(&k) {
            Some(i) => {
                self.entries.swap_remove(i);
                let ghost mid = self.entries@;
                self.entries.push((k, v));
                proof {
                    let news = self.entries@;
                    lemma_swap_remove_distinct(olds, mid, i as int);
                    assert(!has_key(mid, k)) by {
                        if has_key(mid, k) {
                            let a = choose|a: int| 0 <= a < mid.len() && mid[a].0 == k;
                            let b = if a == i {
                                n - 1
                            } else {
                                a
                            };
                            assert(mid[a] == olds[b]);
                            assert(olds[b].0 == k && olds[i as int].0 == k && b != i);
                            assert(false);
                        }
                    }
                    assert(distinct_keys(news)) by {
                        assert(forall|j: int| 0 <= j < mid.len() ==> news[j] == mid[j]);
                        assert(forall|j: int| 0 <= j < mid.len() ==> (#[trigger] mid[j]).0 != k);
                        assert(news[news.len() - 1] == (k, v));
                    }
                    assert(self@ =~= old(self)@.insert(k, v)) by {
                        lemma_value_is(news, news.len() - 1, k, v);
                        assert forall|q: ChunkCoordinate| q != k && #[trigger] has_key(news, q)
                            implies has_key(olds, q) && value_of(news, q) == value_of(
                            olds,
                            q,
                        ) by {
                            let a = choose|a: int| 0 <= a < news.len() && news[a].0 == q;
                            assert(a < mid.len()) by {
                                if a == news.len() - 1 {
                                    assert(news[a].0 == k);
                                }
                            }
                            let b = if a == i {
                                n - 1
                            } else {
                                a
                            };
                            assert(news[a] == mid[a] && mid[a] == olds[b]);
                            lemma_value_is(olds, b, q, olds[b].1);
                            lemma_value_is(news, a, q, news[a].1);
                        }
                        assert forall|q: ChunkCoordinate| q != k && #[trigger] has_key(olds, q)
                            implies has_key(news, q) by {
                            let b = choose|b: int| 0 <= b < olds.len() && olds[b].0 == q;
                            assert(b != i);
                            let a = if b == n - 1 {
                                i as int
                            } else {
                                b
                            };
                            assert(mid[a] == olds[b]);
                            assert(news[a] == mid[a]);
                        }
                    }
                }
            },
            None => {
                self.entries.push((k, v));
                proof {
                    let news = self.entries@;
                    assert(distinct_keys(news)) by {
                        assert(forall|j: int| 0 <= j < olds.len() ==> (#[trigger] olds[j]).0 != k);
                        assert(forall|j: int| 0 <= j < olds.len() ==> news[j] == olds[j]);
                    }
                    assert(self@ =~= old(self)@.insert(k, v)) by {
                        lemma_value_is(news, news.len() - 1, k, v);
                        assert forall|q: ChunkCoordinate| q != k && #[trigger] has_key(news, q)
                            implies has_key(olds, q) && value_of(news, q) == value_of(
                            olds,
                            q,
                        ) by {
                            let a = choose|a: int| 0 <= a < news.len() && news[a].0 == q;
                            assert(a < olds.len()) by {
                                if a == news.len() - 1 {
                                    assert(news[a].0 == k);
                                }
                            }
                            assert(news[a] == olds[a]);
                            lemma_value_is(olds, a, q, olds[a].1);
                            lemma_value_is(news, a, q, news[a].1);
                        }
                        assert forall|q: ChunkCoordinate| q != k && #[trigger] has_key(olds, q)
                            implies has_key(news, q) by {
                            let a = choose|a: int| 0 <= a < olds.len() && olds[a].0 == q;
                            assert(news[a] == olds[a]);
                        }
                    }
                }
            },
        }
    }

    /// Removes the value stored under `k`, if one is, and returns it.
    pub fn remove(&mut self, k: &ChunkCoordinate) -> (r: Option<V>)
        requires
            old(self).wf(),
        ensures
            final(self).wf(),
            final(self)@ == old(self)@.remove(*k),
            match r {
                Some(v) => old(self)@.dom().contains(*k) && v == old(self)@[*k],
                None => !old(self)@.dom().contains(*k),
            },
    {
        let ghost olds = self.entries@;
        let ghost n = self.entries@.len() as int;
        match self.find(k) {
            Some(i) => {
                let (_, v) = self.entries.swap_remove(i);
                proof {
                    let news = self.entries@;
                    lemma_swap_remove_distinct(olds, news, i as int);
                    lemma_value_is(olds, i as int, *k, olds[i as int].1);
                    assert(!has_key(news, *k)) by {
                        if has_key(news, *k) {
                            let a = choose|a: int| 0 <= a < news.len() && news[a].0 == *k;
                            let b = if a == i {
                                n - 1
                            } else {
                                a
                            };
                            assert(news[a] == olds[b]);
                            assert(olds[b].0 == *k && olds[i as int].0 == *k && b != i);
                            assert(false);
                        }
                    }
                    assert(self@ =~= old(self)@.remove(*k)) by {
                        assert forall|q: ChunkCoordinate| q != *k && #[trigger] has_key(news, q)
                            implies has_key(olds, q) && value_of(news, q) == value_of(
                            olds,
                            q,
                        ) by {
                            let a = choose|a: int| 0 <= a < news.len() && news[a].0 == q;
                            let b = if a == i {
                                n - 1
                            } else {
                                a
                            };
                            assert(news[a] == olds[b]);
                            lemma_value_is(olds, b, q, olds[b].1);
                            lemma_value_is(news, a, q, news[a].1);
                        }
                        assert forall|q: ChunkCoordinate| q != *k && #[trigger] has_key(olds, q)
                            implies has_key(news, q) by {
                            let b = choose|b: int| 0 <= b < olds.len() && olds[b].0 == q;
                            assert(b != i);
                            let a = if b == n - 1 {
                                i as int
                            } else {
                                b
                            };
                            assert(news[a] == olds[b]);
                        }
                    }
                }
                Some(v)
            },
            None => {
                proof {
                    assert(self@ =~= old(self)@.remove(*k));
                }
                None
            },
        }
    }

    /// The keys currently held, without duplicates, in storage order.
    pub fn keys(&self) -> (r: Vec<ChunkCoordinate>)
        requires
            self.wf(),
        ensures
            r@.no_duplicates(),
            forall|c: ChunkCoordinate| #[trigger] r@.contains(c) <==> self@.dom().contains(c),
            r@.len() == self.spec_len(),
    {
        let mut r: Vec<ChunkCoordinate> = Vec::new();
        let mut i: usize = 0;
        while i < self.entries.len()
            invariant
                self.wf(),
                i <= self.entries@.len(),
                r@.len() == i,
                forall|j: int| 0 <= j < i ==> r@[j] == self.entries@[j].0,
            decreases self.entries@.len() - i,
        {
            let k = self.entries[i].0;
            r.push(k);
            i += 1;
        }
        proof {
            assert forall|c: ChunkCoordinate| #[trigger] r@.contains(c) == has_key(
                self.entries@,
                c,
            ) by {
                if r@.contains(c) {
                    let a = choose|a: int| 0 <= a < r@.len() && r@[a] == c;
                    assert(self.entries@[a].0 == c);
                }
                if has_key(self.entries@, c) {
                    let a = choose|a: int| 0 <= a < self.entries@.len() && self.entries@[a].0 == c;
                    assert(r@[a] == c);
                }
            }
        }
        r
    }
}

} // verus!
