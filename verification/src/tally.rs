//! A counting table keyed by plain integers: a hash map gives constant
//! lookup while a key list in first-touch order makes iteration
//! deterministic. Counts clamp at the top of `u64` rather than wrap.

use vstd::prelude::*;
use std::collections::HashMap;

verus! {

broadcast use vstd::std_specs::hash::group_hash_axioms;

/// A tally of how often each key was counted.
pub struct CountTable {
    keys: Vec<u32>,
    counts: Vec<u64>,
    pos: HashMap<u32, usize>,
}

impl CountTable {
    /// Structural well-formedness: the key list and the position map are
    /// inverses, and counts run parallel to keys.
    pub closed spec fn wf(&self) -> bool {
        &&& self.keys@.len() == self.counts@.len()
        &&& forall|i: int|
            0 <= i < self.keys@.len() ==> self.pos@.contains_key(#[trigger] self.keys@[i])
                && self.pos@[self.keys@[i]] == i
        &&& forall|k: u32|
            #[trigger] self.pos@.contains_key(k) ==> self.pos@[k] < self.keys@.len()
                && self.keys@[self.pos@[k] as int] == k
    }

    /// The keys counted at least once, in first-touch order.
    pub closed spec fn key_list(&self) -> Seq<u32> {
        self.keys@
    }

    /// Whether a key was counted at least once.
    pub closed spec fn has_key(&self, k: u32) -> bool {
        self.pos@.contains_key(k)
    }

    /// The count a key holds, zero for a key never counted.
    pub closed spec fn count_of(&self, k: u32) -> int {
        if self.pos@.contains_key(k) {
            self.counts@[self.pos@[k] as int] as int
        } else {
            0
        }
    }

    /// Keys appear in the list exactly once, and exactly the counted
    /// ones.
    pub proof fn lemma_key_facts(&self)
        requires
            self.wf(),
        ensures
            forall|i: int, j: int|
                0 <= i < j < self.key_list().len() ==> self.key_list()[i] != self.key_list()[j],
            forall|i: int|
                0 <= i < self.key_list().len() ==> self.has_key(#[trigger] self.key_list()[i]),
            forall|k: u32| #[trigger] self.has_key(k) ==> self.key_list().contains(k),
            forall|k: u32| !self.has_key(k) ==> self.count_of(k) == 0,
    {
        assert forall|k: u32| #[trigger] self.has_key(k) implies self.key_list().contains(k) by {
            assert(self.keys@[self.pos@[k] as int] == k);
        }
    }

    /// An empty tally.
    pub fn new() -> (r: Self)
        ensures
            r.wf(),
            r.key_list() == Seq::<u32>::empty(),
            forall|k: u32| #[trigger] r.count_of(k) == 0,
            forall|k: u32| !(#[trigger] r.has_key(k)),
    {
        CountTable { keys: Vec::new(), counts: Vec::new(), pos: HashMap::new() }
    }

    /// How many distinct keys were counted.
    pub fn len(&self) -> (r: usize)
        requires
            self.wf(),
        ensures
            r == self.key_list().len(),
    {
        self.keys.len()
    }

    /// The key and count at a position of the key list.
    pub fn entry(&self, i: usize) -> (r: (u32, u64))
        requires
            self.wf(),
            i < self.key_list().len(),
        ensures
            r.0 == self.key_list()[i as int],
            r.1 == self.count_of(self.key_list()[i as int]),
    {
        (self.keys[i], self.counts[i])
    }

    /// Counts a key once more; a count already at the top of `u64` stays
    /// there.
    pub fn add_one(&mut self, key: u32)
        requires
            old(self).wf(),
        ensures
            final(self).wf(),
            final(self).count_of(key) == if old(self).count_of(key) < u64::MAX {
                old(self).count_of(key) + 1
            } else {
                old(self).count_of(key)
            },
            forall|k: u32|
                k != key ==> #[trigger] final(self).count_of(k) == old(self).count_of(k),
            final(self).key_list() == if old(self).has_key(key) {
                old(self).key_list()
            } else {
                old(self).key_list().push(key)
            },
            forall|k: u32|
                #[trigger] final(self).has_key(k) == (old(self).has_key(k) || k == key),
    {
        let found = match self.pos.get(&key) {
            Some(i) => Some(*i),
            None => None,
        };
        match found {
            Some(i) => {
                let c = self.counts[i];
                let c2 = if c < u64::MAX {
                    c + 1
                } else {
                    c
                };
                self.counts.set(i, c2);
                proof {
                    assert(self.keys@[i as int] == key);
                    assert forall|k: u32| #[trigger] self.pos@.contains_key(k) implies self.pos@[k]
                        < self.keys@.len() && self.keys@[self.pos@[k] as int] == k by {}
                    assert forall|k: u32| k != key implies #[trigger] self.count_of(k) == old(
                        self,
                    ).count_of(k) by {
                        if self.pos@.contains_key(k) {
                            assert(self.pos@[k] != i);
                        }
                    }
                }
            },
            None => {
                let n = self.keys.len();
                self.keys.push(key);
                self.counts.push(1);
                self.pos.insert(key, n);
                proof {
                    assert forall|i: int|
                        0 <= i < self.keys@.len() implies self.pos@.contains_key(
                        #[trigger] self.keys@[i],
                    ) && self.pos@[self.keys@[i]] == i by {
                        if i < self.keys@.len() - 1 {
                            assert(old(self).pos@.contains_key(self.keys@[i]));
                        }
                    }
                    assert forall|k: u32| k != key implies #[trigger] self.count_of(k) == old(
                        self,
                    ).count_of(k) by {}
                }
            },
        }
    }
}

} // verus!
