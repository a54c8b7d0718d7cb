use vstd::prelude::*;

verus! {

/// Storage namespaces used by the contract: the registry itself, and one
/// isolated set of participants per pool, named by a digest of the pool key.
#[derive(Debug)]
pub enum StorageKeys {
    Pools,
    PoolParticipants { pool_hash: Vec<u8> },
}

/// The identities of a sequence of accounts.
pub open spec fn ids(s: Seq<String>) -> Seq<Seq<char>> {
    s.map_values(|a: String| a@)
}

/// Abstract state of one pool.
pub struct PoolView {
    pub creator: Seq<char>,
    pub participants: Set<Seq<char>>,
    pub max_participants: nat,
    pub current_participants: nat,
    pub created_at: u64,
    pub amount: u128,
    pub pool_hash: Seq<u8>,
}

impl PoolView {
    /// The live count is the size of the membership set and never exceeds
    /// the capacity.
    pub open spec fn wf(self) -> bool {
        &&& self.participants.finite()
        &&& self.participants.len() == self.current_participants
        &&& self.current_participants <= self.max_participants
        &&& self.max_participants <= u32::MAX
    }

    /// The pot: every escrowed deposit.
    pub open spec fn pot(self) -> int {
        self.amount * self.current_participants
    }
}

/// One pooling round: configuration, membership and accounting.
#[derive(Debug)]
pub struct Pool {
    creator: String,
    participants: Vec<String>,
    max_num_of_participants: u32,
    current_num_of_participants: u32,
    created_at: u64,
    amount: u128,
    participants_key: StorageKeys,
}

impl View for Pool {
    type V = PoolView;

    closed spec fn view(&self) -> PoolView {
        PoolView {
            creator: self.creator@,
            participants: ids(self.participants@).to_set(),
            max_participants: self.max_num_of_participants as nat,
            current_participants: self.current_num_of_participants as nat,
            created_at: self.created_at,
            amount: self.amount,
            pool_hash: match self.participants_key {
                StorageKeys::PoolParticipants { pool_hash } => pool_hash@,
                StorageKeys::Pools => Seq::empty(),
            },
        }
    }
}

impl Pool {
    /// Members are held once each, the counter matches them, and the
    /// participant set lives in the pool's own namespace.
    pub closed spec fn wf(&self) -> bool {
        &&& ids(self.participants@).no_duplicates()
        &&& self.participants@.len() == self.current_num_of_participants
        &&& self.current_num_of_participants <= self.max_num_of_participants
        &&& self.participants_key is PoolParticipants
    }

    pub(crate) proof fn lemma_view_wf(&self)
        requires
            self.wf(),
        ensures
            self@.wf(),
    {
        ids(self.participants@).unique_seq_to_set();
    }

    /// An empty pool created by `creator` at time `created_at`.
    pub fn new(
        creator: String,
        amount: u128,
        max_num_of_participants: u32,
        created_at: u64,
        pool_hash: Vec<u8>,
    ) -> (p: Pool)
        ensures
            p.wf(),
            p@.wf(),
            p@ == (PoolView {
                creator: creator@,
                participants: Set::empty(),
                max_participants: max_num_of_participants as nat,
                current_participants: 0,
                created_at,
                amount,
                pool_hash: pool_hash@,
            }),
    {
        let p = Pool {
            creator,
            participants: Vec::new(),
            max_num_of_participants,
            current_num_of_participants: 0,
            created_at,
            amount,
            participants_key: StorageKeys::PoolParticipants { pool_hash },
        };
        proof {
            assert(ids(p.participants@) =~= Seq::<Seq<char>>::empty());
            assert(p@.participants =~= Set::<Seq<char>>::empty());
            p.lemma_view_wf();
        }
        p
    }

    pub fn creator(&self) -> (r: &String)
        ensures
            r@ == self@.creator,
    {
        &self.creator
    }

    pub fn max_num_of_participants(&self) -> (r: u32)
        ensures
            r == self@.max_participants,
    {
        self.max_num_of_participants
    }

    pub fn current_num_of_participants(&self) -> (r: u32)
        ensures
            r == self@.current_participants,
    {
        self.current_num_of_participants
    }

    pub fn created_at(&self) -> (r: u64)
        ensures
            r == self@.created_at,
    {
        self.created_at
    }

    pub fn amount(&self) -> (r: u128)
        ensures
            r == self@.amount,
    {
        self.amount
    }

    /// The storage namespace of this pool's participant set.
    pub fn participants_key(&self) -> (r: &StorageKeys)
        requires
            self.wf(),
        ensures
            r matches StorageKeys::PoolParticipants { pool_hash } && pool_hash@ == self@.pool_hash,
    {
        &self.participants_key
    }

    /// The current members, each once.
    pub fn participants(&self) -> (r: &Vec<String>)
        requires
            self.wf(),
        ensures
            ids(r@).no_duplicates(),
            ids(r@).to_set() == self@.participants,
            r@.len() == self@.current_participants,
    {
        &self.participants
    }

    /// Whether `account` is currently a member.
    pub fn is_participant(&self, account: &String) -> (r: bool)
        ensures
            r == self@.participants.contains(account@),
    {
        let mut i: usize = 0;
        while i < self.participants.len()
            invariant
                0 <= i <= self.participants@.len(),
                forall|j: int| 0 <= j < i ==> self.participants@[j]@ != account@,
            decreases self.participants@.len() - i,
        {
            if self.participants[i] == *account {
                assert(ids(self.participants@)[i as int] == account@);
                return true;
            }
            i += 1;
        }
        proof {
            if ids(self.participants@).contains(account@) {
                let j = choose|j: int| 0 <= j < ids(self.participants@).len() && ids(self.participants@)[j] == account@;
                assert(self.participants@[j]@ == account@);
            }
        }
        false
    }

    /// Admits `account`, which is not yet a member, into a pool with room left.
    pub fn add_participant(&mut self, account: String)
        requires
            old(self).wf(),
            !old(self)@.participants.contains(account@),
            old(self)@.current_participants < old(self)@.max_participants,
        ensures
            final(self).wf(),
            final(self)@ == (PoolView {
                participants: old(self)@.participants.insert(account@),
                current_participants: old(self)@.current_participants + 1,
                ..old(self)@
            }),
    {
        let ghost before = ids(self.participants@);
        let ghost a = account@;
        self.participants.push(account);
        self.current_num_of_participants = self.current_num_of_participants + 1;
        proof {
            assert(ids(self.participants@) =~= before.push(a));
            assert(!before.contains(a));
            before.lemma_push_to_set_commute(a);
            assert(ids(self.participants@).no_duplicates()) by {
                assert forall|i: int, j: int|
                    0 <= i < ids(self.participants@).len() && 0 <= j < ids(self.participants@).len() && i != j
                    implies ids(self.participants@)[i] != ids(self.participants@)[j] by {
                    if i < before.len() && j < before.len() {
                    } else if i == before.len() {
                        assert(before[j] == ids(self.participants@)[j]);
                    } else {
                        assert(before[i] == ids(self.participants@)[i]);
                    }
                }
            }
        }
    }

    /// Removes `account` if it is a member, reporting whether it was.
    pub fn remove_participant(&mut self, account: &String) -> (r: bool)
        requires
            old(self).wf(),
        ensures
            final(self).wf(),
            r == old(self)@.participants.contains(account@),
            r ==> final(self)@ == (PoolView {
                participants: old(self)@.participants.remove(account@),
                current_participants: (old(self)@.current_participants - 1) as nat,
                ..old(self)@
            }),
            !r ==> final(self)@ == old(self)@,
    {
        let ghost before = ids(self.participants@);
        let mut i: usize = 0;
        while i < self.participants.len()
            invariant
                0 <= i <= self.participants@.len(),
                *self == *old(self),
                self.wf(),
                before == ids(self.participants@),
                forall|j: int| 0 <= j < i ==> self.participants@[j]@ != account@,
            decreases self.participants@.len() - i,
        {
            if self.participants[i] == *account {
                let ghost idx = i as int;
                assert(before[idx] == account@);
                assert(before.no_duplicates());
                assert(self.current_num_of_participants > 0);
                self.participants.remove(i);
                self.current_num_of_participants = self.current_num_of_participants - 1;
                proof {
                    let after = ids(self.participants@);
                    assert(after =~= before.remove(idx));
                    assert(after.no_duplicates()) by {
                        assert forall|x: int, y: int|
                            0 <= x < after.len() && 0 <= y < after.len() && x != y
                            implies after[x] != after[y] by {
                            let ox = if x < idx { x } else { x + 1 };
                            let oy = if y < idx { y } else { y + 1 };
                            assert(after[x] == before[ox]);
                            assert(after[y] == before[oy]);
                            assert(ox != oy);
                        }
                    }
                    assert(after.to_set() =~= before.to_set().remove(account@)) by {
                        assert forall|e: Seq<char>| after.to_set().contains(e)
                            == before.to_set().remove(account@).contains(e) by {
                            if after.contains(e) {
                                let x = choose|x: int| 0 <= x < after.len() && after[x] == e;
                                let ox = if x < idx { x } else { x + 1 };
                                assert(before[ox] == e);
                                assert(ox != idx);
                            }
                            if before.contains(e) && e != account@ {
                                let y = choose|y: int| 0 <= y < before.len() && before[y] == e;
                                assert(y != idx);
                                let ny = if y < idx { y } else { y - 1 };
                                assert(after[ny] == e);
                            }
                        }
                    }
                    assert(before.to_set().contains(account@));
                }
                return true;
            }
            i += 1;
        }
        proof {
            if before.contains(account@) {
                let j = choose|j: int| 0 <= j < before.len() && before[j] == account@;
                assert(self.participants@[j]@ == account@);
            }
        }
        false
    }
}

} // verus!
