use vstd::prelude::*;
use crate::pool::{ids, Pool, PoolView};
use crate::registry::PoolRegistry;

verus! {

/// Why an operation was refused. A refused operation changes nothing.
#[derive(Debug, Clone, Copy, PartialEq, Eq, Structural)]
pub enum PoolError {
    /// The caller is not the account the operation is reserved for.
    Unauthorized,
    /// No live pool is stored under the key.
    NotFound,
    /// A live pool is already stored under the key.
    KeyCollision,
    /// The caller is already a member of the pool.
    AlreadyJoined,
    /// The caller is not a member of the pool.
    NotAMember,
    /// The pool has reached its capacity.
    PoolFull,
    /// The attached deposit differs from the pool's stake.
    WrongDeposit,
    /// No winners were given.
    NoWinners,
    /// More winners were given than the pool has participants.
    TooManyWinners,
    /// The per-winner payout does not fit in 128 bits.
    PayoutOverflow,
}

/// A value transfer out of the contract's custody, for the ledger to carry out.
#[derive(Debug)]
pub struct Transfer {
    pub receiver: String,
    pub amount: u128,
}

/// Abstract state of the contract: its administrator and the live pools.
pub struct ContractView {
    pub admin: Seq<char>,
    pub pools: Map<Seq<char>, PoolView>,
}

impl ContractView {
    /// Every live pool satisfies the pool invariant.
    pub open spec fn wf(self) -> bool {
        forall|k: Seq<char>| #[trigger] self.pools.contains_key(k) ==> self.pools[k].wf()
    }
}

/// What each winner receives: the stake divided among the winners, rounded
/// down, then multiplied by the number of participants.
pub open spec fn payout(amount: int, participants: int, winners: int) -> int {
    (amount / winners) * participants
}

/// Value left in custody after every winner is paid.
pub open spec fn remainder(amount: int, participants: int, winners: int) -> int {
    amount * participants - payout(amount, participants, winners) * winners
}

/// The outcome of creating a pool.
pub open spec fn create_step(
    s: ContractView,
    caller: Seq<char>,
    key: Seq<char>,
    amount: u128,
    max_participants: u32,
    now: u64,
    pool_hash: Seq<u8>,
) -> Result<ContractView, PoolError> {
    if caller != s.admin {
        Err(PoolError::Unauthorized)
    } else if s.pools.contains_key(key) {
        Err(PoolError::KeyCollision)
    } else {
        Ok(
            ContractView {
                pools: s.pools.insert(
                    key,
                    PoolView {
                        creator: s.admin,
                        participants: Set::empty(),
                        max_participants: max_participants as nat,
                        current_participants: 0,
                        created_at: now,
                        amount,
                        pool_hash,
                    },
                ),
                ..s
            },
        )
    }
}

/// The outcome of `caller` joining the pool at `key` with `deposit` attached.
pub open spec fn join_step(s: ContractView, caller: Seq<char>, key: Seq<char>, deposit: u128) -> Result<
    ContractView,
    PoolError,
> {
    if !s.pools.contains_key(key) {
        Err(PoolError::NotFound)
    } else {
        let p = s.pools[key];
        if p.current_participants >= p.max_participants {
            Err(PoolError::PoolFull)
        } else if deposit != p.amount {
            Err(PoolError::WrongDeposit)
        } else if p.participants.contains(caller) {
            Err(PoolError::AlreadyJoined)
        } else {
            Ok(
                ContractView {
                    pools: s.pools.insert(
                        key,
                        PoolView {
                            participants: p.participants.insert(caller),
                            current_participants: p.current_participants + 1,
                            ..p
                        },
                    ),
                    ..s
                },
            )
        }
    }
}

/// The outcome of `caller` leaving the pool at `key`.
pub open spec fn leave_step(s: ContractView, caller: Seq<char>, key: Seq<char>) -> Result<
    ContractView,
    PoolError,
> {
    if !s.pools.contains_key(key) {
        Err(PoolError::NotFound)
    } else {
        let p = s.pools[key];
        if !p.participants.contains(caller) {
            Err(PoolError::NotAMember)
        } else {
            Ok(
                ContractView {
                    pools: s.pools.insert(
                        key,
                        PoolView {
                            participants: p.participants.remove(caller),
                            current_participants: (p.current_participants - 1) as nat,
                            ..p
                        },
                    ),
                    ..s
                },
            )
        }
    }
}

/// The outcome of `caller` resolving the pool at `key` among `winners` winners.
pub open spec fn resolve_step(s: ContractView, caller: Seq<char>, key: Seq<char>, winners: nat) -> Result<
    ContractView,
    PoolError,
> {
    if !s.pools.contains_key(key) {
        Err(PoolError::NotFound)
    } else {
        let p = s.pools[key];
        if caller != p.creator {
            Err(PoolError::Unauthorized)
        } else if winners == 0 {
            Err(PoolError::NoWinners)
        } else if winners > p.current_participants {
            Err(PoolError::TooManyWinners)
        } else if payout(p.amount as int, p.current_participants as int, winners as int)
            > u128::MAX {
            Err(PoolError::PayoutOverflow)
        } else {
            Ok(ContractView { pools: s.pools.remove(key), ..s })
        }
    }
}

/// The per-winner payout, or `None` where there are no winners or it does
/// not fit in 128 bits.
pub fn winner_payout(amount: u128, participants: u32, winners: usize) -> (r: Option<u128>)
    ensures
        r == if winners == 0 || payout(amount as int, participants as int, winners as int)
            > u128::MAX {
            None::<u128>
        } else {
            Some(payout(amount as int, participants as int, winners as int) as u128)
        },
{
    if winners == 0 {
        return None;
    }
    let share = amount / (winners as u128);
    share.checked_mul(participants as u128)
}

/// The value stranded in custody by rounding once every winner is paid, or
/// `None` where there are no winners or the pot does not fit in 128 bits.
pub fn stranded_remainder(amount: u128, participants: u32, winners: usize) -> (r: Option<u128>)
    ensures
        r == if winners == 0 || amount * participants > u128::MAX {
            None::<u128>
        } else {
            Some(remainder(amount as int, participants as int, winners as int) as u128)
        },
        r matches Some(v) ==> v == remainder(amount as int, participants as int, winners as int),
{
    if winners == 0 {
        return None;
    }
    let pot = match amount.checked_mul(participants as u128) {
        Some(v) => v,
        None => return None,
    };
    let n = winners as u128;
    let share = amount / n;
    proof {
        lemma_payout_within_pot(amount as int, participants as int, winners as int);
        assert(share * n <= amount) by (nonlinear_arith)
            requires
                share == amount / n,
                n > 0,
        ;
        assert(share * participants * n <= pot) by (nonlinear_arith)
            requires
                share * n <= amount,
                pot == amount * participants,
                participants >= 0,
        ;
    }
    let paid_each = share * (participants as u128);
    Some(pot - paid_each * n)
}

/// The winners together never receive more than the pot: the remainder left
/// in custody is never negative.
pub proof fn lemma_payout_within_pot(amount: int, participants: int, winners: int)
    requires
        amount >= 0,
        participants >= 0,
        winners > 0,
    ensures
        0 <= payout(amount, participants, winners) * winners <= amount * participants,
        0 <= remainder(amount, participants, winners),
        payout(amount, participants, winners) <= amount * participants,
{
    let share = amount / winners;
    assert(0 <= share * winners <= amount) by (nonlinear_arith)
        requires
            share == amount / winners,
            amount >= 0,
            winners > 0,
    ;
    assert(0 <= share * participants * winners <= amount * participants) by (nonlinear_arith)
        requires
            0 <= share * winners <= amount,
            participants >= 0,
    ;
    assert(share * participants <= share * participants * winners) by (nonlinear_arith)
        requires
            share >= 0,
            participants >= 0,
            winners >= 1,
    ;
}

/// The pooling contract: a single administrator, fixed at construction, and
/// the registry of live pools.
pub struct Contract {
    admin: String,
    pools: PoolRegistry,
}

impl View for Contract {
    type V = ContractView;

    closed spec fn view(&self) -> ContractView {
        ContractView { admin: self.admin@, pools: self.pools@ }
    }
}

impl Contract {
    pub closed spec fn wf(&self) -> bool {
        self.pools.wf()
    }

    /// Every live pool of a well-formed contract satisfies the pool invariant.
    pub proof fn lemma_wf(&self)
        requires
            self.wf(),
        ensures
            self@.wf(),
    {
        self.pools.lemma_pools_wf();
    }

    /// A contract administered by `admin`, with no pools.
    pub fn new(admin: String) -> (c: Contract)
        ensures
            c.wf(),
            c@.admin == admin@,
            c@.pools == Map::<Seq<char>, PoolView>::empty(),
    {
        Contract { admin, pools: PoolRegistry::new() }
    }

    pub fn admin(&self) -> (r: &String)
        ensures
            r@ == self@.admin,
    {
        &self.admin
    }

    /// The live pool stored under `key`, if any.
    pub fn get_pool(&self, key: &String) -> (r: Option<&Pool>)
        requires
            self.wf(),
        ensures
            r is Some <==> self@.pools.contains_key(key@),
            r matches Some(p) ==> p@ == self@.pools[key@] && p.wf(),
    {
        self.pools.get(key)
    }

    /// The keys of all live pools, each once.
    pub fn pool_keys(&self) -> (r: Vec<String>)
        requires
            self.wf(),
        ensures
            r@.len() == self@.pools.dom().len(),
            forall|k: Seq<char>| self@.pools.contains_key(k) <==> #[trigger] ids(r@).contains(k),
    {
        self.pools.keys()
    }

    /// The administrator `caller` opens a pool under `key` with the given
    /// per-person stake and capacity, created at `now`, whose participant set
    /// lives in the namespace named by `pool_hash`. A key that holds a live
    /// pool is refused rather than overwritten.
    pub fn new_pool(
        &mut self,
        caller: &String,
        key: String,
        amount: u128,
        max_num_of_participants: u32,
        now: u64,
        pool_hash: Vec<u8>,
    ) -> (r: Result<(), PoolError>)
        requires
            old(self).wf(),
        ensures
            final(self).wf(),
            match create_step(
                old(self)@,
                caller@,
                key@,
                amount,
                max_num_of_participants,
                now,
                pool_hash@,
            ) {
                Ok(s) => r is Ok && final(self)@ == s,
                Err(e) => r == Err::<(), PoolError>(e) && final(self)@ == old(self)@,
            },
    {
        if !(*caller == self.admin) {
            return Err(PoolError::Unauthorized);
        }
        if self.pools.get(&key).is_some() {
            return Err(PoolError::KeyCollision);
        }
        let pool = Pool::new(self.admin.clone(), amount, max_num_of_participants, now, pool_hash);
        self.pools.insert(key, pool);
        Ok(())
    }

    /// `caller` joins the pool at `key`, attaching `attached_deposit`. The
    /// deposit must equal the pool's stake exactly; a mismatched deposit is
    /// not refunded.
    pub fn join_pool(&mut self, caller: &String, key: String, attached_deposit: u128) -> (r: Result<
        (),
        PoolError,
    >)
        requires
            old(self).wf(),
        ensures
            final(self).wf(),
            match join_step(old(self)@, caller@, key@, attached_deposit) {
                Ok(s) => r is Ok && final(self)@ == s,
                Err(e) => r == Err::<(), PoolError>(e) && final(self)@ == old(self)@,
            },
    {
        match self.pools.get(&key) {
            None => return Err(PoolError::NotFound),
            Some(pool) => {
                if pool.current_num_of_participants() >= pool.max_num_of_participants() {
                    return Err(PoolError::PoolFull);
                }
                if attached_deposit != pool.amount() {
                    return Err(PoolError::WrongDeposit);
                }
                if pool.is_participant(caller) {
                    return Err(PoolError::AlreadyJoined);
                }
            },
        }
        let ghost before = self.pools@;
        let mut pool = match self.pools.remove(&key) {
            Some(p) => p,
            None => return Err(PoolError::NotFound),
        };
        pool.add_participant(caller.clone());
        self.pools.insert(key, pool);
        proof {
            assert(self.pools@ =~= before.insert(key@, pool@));
        }
        Ok(())
    }

    /// `caller` leaves the pool at `key`; the transfer handed back refunds the
    /// stake it deposited.
    pub fn leave_pool(&mut self, caller: &String, key: String) -> (r: Result<Transfer, PoolError>)
        requires
            old(self).wf(),
        ensures
            final(self).wf(),
            match leave_step(old(self)@, caller@, key@) {
                Ok(s) => final(self)@ == s && (r matches Ok(t) && t.receiver@ == caller@
                    && t.amount == old(self)@.pools[key@].amount),
                Err(e) => r == Err::<Transfer, PoolError>(e) && final(self)@ == old(self)@,
            },
    {
        match self.pools.get(&key) {
            None => return Err(PoolError::NotFound),
            Some(pool) => {
                if !pool.is_participant(caller) {
                    return Err(PoolError::NotAMember);
                }
            },
        }
        let ghost before = self.pools@;
        let mut pool = match self.pools.remove(&key) {
            Some(p) => p,
            None => return Err(PoolError::NotFound),
        };
        pool.remove_participant(caller);
        let refund = Transfer { receiver: caller.clone(), amount: pool.amount() };
        self.pools.insert(key, pool);
        proof {
            assert(self.pools@ =~= before.insert(key@, pool@));
        }
        Ok(refund)
    }

    /// The creator `caller` resolves the pool at `key`: each of `winners`, in
    /// order, is owed one transfer of the per-winner payout, and the pool is
    /// deleted. Winners are not required to be participants.
    pub fn reward_pool_winners(&mut self, caller: &String, key: String, winners: &[String]) -> (r:
        Result<Vec<Transfer>, PoolError>)
        requires
            old(self).wf(),
        ensures
            final(self).wf(),
            match resolve_step(old(self)@, caller@, key@, winners@.len()) {
                Ok(s) => final(self)@ == s && (r matches Ok(ts) && ts@.len() == winners@.len()
                    && forall|i: int|
                    #![trigger ts@[i]]
                    0 <= i < ts@.len() ==> {
                        &&& ts@[i].receiver@ == winners@[i]@
                        &&& ts@[i].amount == payout(
                            old(self)@.pools[key@].amount as int,
                            old(self)@.pools[key@].current_participants as int,
                            winners@.len() as int,
                        )
                    }),
                Err(e) => r == Err::<Vec<Transfer>, PoolError>(e) && final(self)@ == old(self)@,
            },
    {
        let amount = match self.pools.get(&key) {
            None => return Err(PoolError::NotFound),
            Some(pool) => {
                if !(*caller == *pool.creator()) {
                    return Err(PoolError::Unauthorized);
                }
                if winners.len() == 0 {
                    return Err(PoolError::NoWinners);
                }
                if winners.len() > pool.current_num_of_participants() as usize {
                    return Err(PoolError::TooManyWinners);
                }
                match winner_payout(pool.amount(), pool.current_num_of_participants(), winners.len()) {
                    None => return Err(PoolError::PayoutOverflow),
                    Some(a) => a,
                }
            },
        };
        let mut transfers: Vec<Transfer> = Vec::new();
        let mut i: usize = 0;
        while i < winners.len()
            invariant
                0 <= i <= winners@.len(),
                *self == *old(self),
                self.wf(),
                transfers@.len() == i,
                forall|j: int|
                    #![trigger transfers@[j]]
                    0 <= j < i ==> {
                        &&& transfers@[j].receiver@ == winners@[j]@
                        &&& transfers@[j].amount == amount
                    },
            decreases winners@.len() - i,
        {
            transfers.push(Transfer { receiver: winners[i].clone(), amount });
            i += 1;
        }
        self.pools.remove(&key);
        Ok(transfers)
    }
}

} // verus!
