use vstd::prelude::*;
use std::collections::HashMap;

verus! {

/// A map from spread numbers to values: the values in a hash map, and the
/// spread numbers it holds listed once each, so that they can be walked.
pub struct SpreadMap<V> {
    values: HashMap<u64, V>,
    keys: Vec<u64>,
}

impl<V: Copy> SpreadMap<V> {
    /// The value held for `k`.
    pub closed spec fn lookup(&self, k: u64) -> Option<V> {
        if self.values@.contains_key(k) {
            Some(self.values@[k])
        } else {
            None
        }
    }

    /// The listed spread numbers are those of the hash map, each once.
    pub closed spec fn wf(&self) -> bool {
        &&& self.keys@.no_duplicates()
        &&& forall|k: u64| #[trigger] self.values@.contains_key(k) <==> self.keys@.contains(k)
    }

    /// An empty map.
    pub fn new() -> (r: Self)
        ensures
            r.wf(),
            forall|k: u64| r.lookup(k) is None,
    {
        SpreadMap { values: HashMap::new(), keys: Vec::new() }
    }

    /// The value held for `k`.
    pub fn get(&self, k: u64) -> (r: Option<V>)
        requires
            self.wf(),
        ensures
            r == self.lookup(k),
    {
        broadcast use vstd::std_specs::hash::group_hash_axioms;

        match self.values.get(&k) {
            Some(v) => Some(*v),
            None => None,
        }
    }

    /// Holds `v` for `k`.
    pub fn insert(&mut self, k: u64, v: V)
        requires
            old(self).wf(),
        ensures
            final(self).wf(),
            forall|j: u64| #[trigger] final(self).lookup(j) == if j == k {
                Some(v)
            } else {
                old(self).lookup(j)
            },
    {
        broadcast use vstd::std_specs::hash::group_hash_axioms;

        if !self.values.contains_key(&k) {
            let ghost before = self.keys@;
            self.keys.push(k);
            proof {
                assert forall|a: int, b: int|
                    0 <= a < self.keys@.len() && 0 <= b < self.keys@.len() && a != b implies self.keys@[a]
                    != self.keys@[b] by {
                    if a == before.len() {
                        assert(!before.contains(k));
                        assert(self.keys@[b] == before[b]);
                    } else if b == before.len() {
                        assert(!before.contains(k));
                        assert(self.keys@[a] == before[a]);
                    } else {
                        assert(self.keys@[a] == before[a] && self.keys@[b] == before[b]);
                    }
                }
                assert forall|j: u64| self.keys@.contains(j) <==> (before.contains(j) || j == k) by {
                    if self.keys@.contains(j) && j != k {
                        let p = choose|p: int| 0 <= p < self.keys@.len() && self.keys@[p] == j;
                        assert(self.keys@[p] == before[p]);
                    }
                    if before.contains(j) {
                        let p = choose|p: int| 0 <= p < before.len() && before[p] == j;
                        assert(self.keys@[p] == j);
                    }
                    if j == k {
                        assert(self.keys@[before.len() as int] == k);
                    }
                }
            }
        }
        self.values.insert(k, v);
    }

    /// Keeps the entries whose key is below `bound` (or equal to it, when
    /// `inclusive`), and drops the others.
    pub fn retain_below(&mut self, bound: u64, inclusive: bool)
        requires
            old(self).wf(),
        ensures
            final(self).wf(),
            forall|j: u64| #[trigger] final(self).lookup(j) == if j < bound || (inclusive && j == bound) {
                old(self).lookup(j)
            } else {
                None
            },
    {
        broadcast use vstd::std_specs::hash::group_hash_axioms;

        let ghost v0 = self.values@;
        let ghost k0 = self.keys@;
        let mut kept: Vec<u64> = Vec::new();
        let mut i: usize = 0;
        while i < self.keys.len()
            invariant
                0 <= i <= self.keys@.len(),
                self.keys@ == k0,
                k0.no_duplicates(),
                forall|k: u64| #[trigger] v0.contains_key(k) <==> k0.contains(k),
                kept@.no_duplicates(),
                forall|j: u64|
                    #[trigger] kept@.contains(j) <==> (k0.subrange(0, i as int).contains(j) && (j < bound || (
                    inclusive && j == bound))),
                forall|j: u64|
                    #[trigger] self.values@.contains_key(j) <==> (v0.contains_key(j) && ((j < bound || (inclusive
                        && j == bound)) || !k0.subrange(0, i as int).contains(j))),
                forall|j: u64| #[trigger] self.values@.contains_key(j) ==> self.values@[j] == v0[j],
            decreases k0.len() - i,
        {
            let k = self.keys[i];
            let ghost s0 = k0.subrange(0, i as int);
            let ghost s1 = k0.subrange(0, i + 1);
            proof {
                assert forall|j: u64| s1.contains(j) <==> (s0.contains(j) || j == k) by {
                    if s1.contains(j) {
                        let p = choose|p: int| 0 <= p < s1.len() && s1[p] == j;
                        if p < i {
                            assert(s0[p] == j);
                        }
                    }
                    if s0.contains(j) {
                        let p = choose|p: int| 0 <= p < s0.len() && s0[p] == j;
                        assert(s1[p] == j);
                    }
                    if j == k {
                        assert(s1[i as int] == j);
                    }
                }
                assert(!s0.contains(k)) by {
                    if s0.contains(k) {
                        let p = choose|p: int| 0 <= p < s0.len() && s0[p] == k;
                        assert(k0[p] == k0[i as int]);
                    }
                }
            }
            let ghost kept_before = kept@;
            assert(forall|j: u64| #[trigger] kept_before.contains(j) <==> (s0.contains(j) && (j < bound || (inclusive
                && j == bound))));
            if k < bound || (inclusive && k == bound) {
                let ghost before = kept@;
                kept.push(k);
                proof {
                    assert forall|a: int, b: int|
                        0 <= a < kept@.len() && 0 <= b < kept@.len() && a != b implies kept@[a] != kept@[b] by {
                        if a == before.len() {
                            assert(!before.contains(k));
                            assert(kept@[b] == before[b]);
                        } else if b == before.len() {
                            assert(!before.contains(k));
                            assert(kept@[a] == before[a]);
                        } else {
                            assert(kept@[a] == before[a] && kept@[b] == before[b]);
                        }
                    }
                    assert forall|j: u64| kept@.contains(j) <==> (before.contains(j) || j == k) by {
                        if kept@.contains(j) && j != k {
                            let p = choose|p: int| 0 <= p < kept@.len() && kept@[p] == j;
                            assert(kept@[p] == before[p]);
                        }
                        if before.contains(j) {
                            let p = choose|p: int| 0 <= p < before.len() && before[p] == j;
                            assert(kept@[p] == j);
                        }
                        if j == k {
                            assert(kept@[before.len() as int] == k);
                        }
                    }
                }
            } else {
                self.values.remove(&k);
                assert(kept@ == kept_before);
            }
            proof {
                assert forall|j: u64| #[trigger] kept@.contains(j) <==> (s1.contains(j) && (j < bound || (inclusive
                    && j == bound))) by {
                    assert(s1.contains(j) <==> (s0.contains(j) || j == k));
                    assert(kept_before.contains(j) <==> (s0.contains(j) && (j < bound || (inclusive && j == bound))));
                    if k < bound || (inclusive && k == bound) {
                        assert(kept@ == kept_before.push(k));
                        assert(kept@.contains(j) <==> (kept_before.contains(j) || j == k));
                    }
                }
                assert forall|j: u64| #[trigger] self.values@.contains_key(j) <==> (v0.contains_key(j) && ((j < bound
                    || (inclusive && j == bound)) || !s1.contains(j))) by {}
            }
            i += 1;
        }
        proof {
            assert(k0.subrange(0, k0.len() as int) =~= k0);
        }
        self.keys = kept;
    }

    /// Drops every entry.
    pub fn clear(&mut self)
        ensures
            final(self).wf(),
            forall|k: u64| final(self).lookup(k) is None,
    {
        self.values.clear();
        self.keys.clear();
    }

    /// The keys held, in no particular order.
    pub fn keys(&self) -> (r: Vec<u64>)
        requires
            self.wf(),
        ensures
            forall|k: u64| #[trigger] self.lookup(k) is Some <==> r@.contains(k),
            r@.no_duplicates(),
    {
        let mut r: Vec<u64> = Vec::new();
        let mut i: usize = 0;
        while i < self.keys.len()
            invariant
                0 <= i <= self.keys@.len(),
                r@ == self.keys@.subrange(0, i as int),
            decreases self.keys@.len() - i,
        {
            r.push(self.keys[i]);
            assert(r@ =~= self.keys@.subrange(0, i + 1));
            i += 1;
        }
        assert(r@ =~= self.keys@);
        r
    }
}

} // verus!
