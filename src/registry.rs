use vstd::prelude::*;
use crate::pool::{Pool, PoolView};

verus! {

/// A pool stored under its key.
#[derive(Debug)]
struct PoolEntry {
    key: String,
    pool: Pool,
}

/// The store of live pools, each under a distinct key.
pub struct PoolRegistry {
    entries: Vec<PoolEntry>,
    pools: Ghost<Map<Seq<char>, PoolView>>,
}

impl View for PoolRegistry {
    type V = Map<Seq<char>, PoolView>;

    closed spec fn view(&self) -> Map<Seq<char>, PoolView> {
        self.pools@
    }
}

impl PoolRegistry {
    /// Keys are distinct, every stored pool is well formed, and the abstract
    /// map holds exactly the stored entries.
    pub closed spec fn wf(&self) -> bool {
        &&& forall|i: int, j: int|
            0 <= i < self.entries@.len() && 0 <= j < self.entries@.len() && i != j
                ==> self.entries@[i].key@ != self.entries@[j].key@
        &&& forall|i: int|
            #![trigger self.entries@[i]]
            0 <= i < self.entries@.len() ==> {
                &&& self.entries@[i].pool.wf()
                &&& self.pools@.contains_key(self.entries@[i].key@)
                &&& self.pools@[self.entries@[i].key@] == self.entries@[i].pool@
            }
        &&& forall|k: Seq<char>|
            self.pools@.contains_key(k) ==> exists|i: int|
                0 <= i < self.entries@.len() && self.entries@[i].key@ == k
    }

    /// Every stored pool satisfies the pool invariant.
    pub proof fn lemma_pools_wf(&self)
        requires
            self.wf(),
        ensures
            forall|k: Seq<char>| #[trigger] self@.contains_key(k) ==> self@[k].wf(),
    {
        assert forall|k: Seq<char>| #[trigger] self@.contains_key(k) implies self@[k].wf() by {
            let i = choose|i: int| 0 <= i < self.entries@.len() && self.entries@[i].key@ == k;
            self.entries@[i].pool.lemma_view_wf();
        }
    }

    pub fn new() -> (r: PoolRegistry)
        ensures
            r.wf(),
            r@ == Map::<Seq<char>, PoolView>::empty(),
    {
        PoolRegistry { entries: Vec::new(), pools: Ghost(Map::empty()) }
    }

    fn find(&self, key: &String) -> (r: Option<usize>)
        requires
            self.wf(),
        ensures
            r is None <==> !self@.contains_key(key@),
            r matches Some(i) ==> i < self.entries@.len() && self.entries@[i as int].key@ == key@,
    {
        let mut i: usize = 0;
        while i < self.entries.len()
            invariant
                0 <= i <= self.entries@.len(),
                self.wf(),
                forall|j: int| 0 <= j < i ==> self.entries@[j].key@ != key@,
            decreases self.entries@.len() - i,
        {
            if self.entries[i].key == *key {
                assert(self.pools@.contains_key(self.entries@[i as int].key@));
                return Some(i);
            }
            i += 1;
        }
        None
    }

    /// The pool stored under `key`, if any.
    pub fn get(&self, key: &String) -> (r: Option<&Pool>)
        requires
            self.wf(),
        ensures
            r is Some <==> self@.contains_key(key@),
            r matches Some(p) ==> p@ == self@[key@] && p.wf(),
    {
        match self.find(key) {
            Some(i) => Some(&self.entries[i].pool),
            None => None,
        }
    }

    /// Stores `pool` under a key that holds no pool yet.
    pub fn insert(&mut self, key: String, pool: Pool)
        requires
            old(self).wf(),
            !old(self)@.contains_key(key@),
            pool.wf(),
        ensures
            final(self).wf(),
            final(self)@ == old(self)@.insert(key@, pool@),
    {
        let ghost k = key@;
        let ghost v = pool@;
        let ghost old_entries = self.entries@;
        self.entries.push(PoolEntry { key, pool });
        self.pools = Ghost(self.pools@.insert(k, v));
        proof {
            let n = old_entries.len() as int;
            assert(self.entries@[n].key@ == k);
            assert forall|i: int| 0 <= i < n implies old_entries[i].key@ != k by {
                assert(old(self).pools@.contains_key(old_entries[i].key@));
            }
            assert forall|kk: Seq<char>| self.pools@.contains_key(kk) implies exists|i: int|
                0 <= i < self.entries@.len() && self.entries@[i].key@ == kk by {
                if kk != k {
                    let i = choose|i: int| 0 <= i < old_entries.len() && old_entries[i].key@ == kk;
                    assert(self.entries@[i] == old_entries[i]);
                }
            }
        }
    }

    /// Takes the pool stored under `key` out of the registry; nothing changes
    /// where there is none.
    pub fn remove(&mut self, key: &String) -> (r: Option<Pool>)
        requires
            old(self).wf(),
        ensures
            final(self).wf(),
            r is Some <==> old(self)@.contains_key(key@),
            r matches Some(p) ==> p@ == old(self)@[key@] && p.wf(),
            final(self)@ == old(self)@.remove(key@),
    {
        match self.find(key) {
            None => {
                assert(self.pools@.remove(key@) =~= self.pools@);
                None
            },
            Some(idx) => {
                let ghost old_entries = self.entries@;
                let ghost n = idx as int;
                let entry = self.entries.remove(idx);
                self.pools = Ghost(self.pools@.remove(key@));
                proof {
                    assert(entry == old_entries[n]);
                    assert forall|i: int| 0 <= i < self.entries@.len() implies
                        #[trigger] self.entries@[i] == old_entries[if i < n { i } else { i + 1 }] by {}
                    assert forall|i: int, j: int|
                        0 <= i < self.entries@.len() && 0 <= j < self.entries@.len() && i != j
                        implies self.entries@[i].key@ != self.entries@[j].key@ by {
                        let oi = if i < n { i } else { i + 1 };
                        let oj = if j < n { j } else { j + 1 };
                        assert(self.entries@[i] == old_entries[oi]);
                        assert(self.entries@[j] == old_entries[oj]);
                    }
                    assert forall|i: int| #![trigger self.entries@[i]] 0 <= i < self.entries@.len() implies {
                        &&& self.entries@[i].pool.wf()
                        &&& self.pools@.contains_key(self.entries@[i].key@)
                        &&& self.pools@[self.entries@[i].key@] == self.entries@[i].pool@
                    } by {
                        let oi = if i < n { i } else { i + 1 };
                        assert(self.entries@[i] == old_entries[oi]);
                        assert(old_entries[oi].key@ != old_entries[n].key@);
                    }
                    assert forall|kk: Seq<char>| self.pools@.contains_key(kk) implies exists|i: int|
                        0 <= i < self.entries@.len() && self.entries@[i].key@ == kk by {
                        let oi = choose|i: int| 0 <= i < old_entries.len() && old_entries[i].key@ == kk;
                        assert(oi != n);
                        let i = if oi < n { oi } else { oi - 1 };
                        assert(self.entries@[i] == old_entries[oi]);
                    }
                }
                Some(entry.pool)
            },
        }
    }
    /// The keys of all live pools.
    pub fn keys(&self) -> (r: Vec<String>)
        requires
            self.wf(),
        ensures
            r@.len() == self@.dom().len(),
            forall|k: Seq<char>| self@.contains_key(k) <==> #[trigger] crate::pool::ids(r@).contains(k),
    {
        let mut r: Vec<String> = Vec::new();
        let mut i: usize = 0;
        while i < self.entries.len()
            invariant
                0 <= i <= self.entries@.len(),
                self.wf(),
                r@.len() == i,
                forall|j: int| 0 <= j < i ==> #[trigger] r@[j]@ == self.entries@[j].key@,
            decreases self.entries@.len() - i,
        {
            r.push(self.entries[i].key.clone());
            i += 1;
        }
        proof {
            let ks = crate::pool::ids(r@);
            assert forall|k: Seq<char>| self@.contains_key(k) <==> #[trigger] ks.contains(k) by {
                if self@.contains_key(k) {
                    let j = choose|j: int| 0 <= j < self.entries@.len() && self.entries@[j].key@ == k;
                    assert(ks[j] == k);
                }
                if ks.contains(k) {
                    let j = choose|j: int| 0 <= j < ks.len() && ks[j] == k;
                    assert(r@[j]@ == self.entries@[j].key@);
                    assert(self.pools@.contains_key(self.entries@[j].key@));
                }
            }
            assert(ks.no_duplicates()) by {
                assert forall|x: int, y: int| 0 <= x < ks.len() && 0 <= y < ks.len() && x != y
                    implies ks[x] != ks[y] by {
                    assert(r@[x]@ == self.entries@[x].key@);
                    assert(r@[y]@ == self.entries@[y].key@);
                }
            }
            ks.unique_seq_to_set();
            assert(ks.to_set() =~= self@.dom());
        }
        r
    }
}

} // verus!
