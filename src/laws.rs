use vstd::prelude::*;
use crate::contract::{create_step, join_step, leave_step, resolve_step, ContractView, PoolError};

verus! {

/// A pool that was just created is empty and carries exactly the stake and
/// capacity it was created with, and the administrator as its creator.
pub proof fn lemma_created_pool_is_fresh(
    s: ContractView,
    caller: Seq<char>,
    key: Seq<char>,
    amount: u128,
    max_participants: u32,
    now: u64,
    pool_hash: Seq<u8>,
)
    requires
        create_step(s, caller, key, amount, max_participants, now, pool_hash) is Ok,
    ensures
        ({
            let t = create_step(s, caller, key, amount, max_participants, now, pool_hash)->Ok_0;
            &&& t.pools.contains_key(key)
            &&& t.pools[key].current_participants == 0
            &&& t.pools[key].participants.is_empty()
            &&& t.pools[key].max_participants == max_participants
            &&& t.pools[key].amount == amount
            &&& t.pools[key].creator == s.admin
            &&& t.admin == s.admin
        }),
{
}

/// Every operation keeps each pool's live count equal to the size of its
/// membership set and within capacity: a successful join adds one new member
/// and one to the count, a successful leave removes one member and one from
/// the count, and the other pools are untouched.
pub proof fn lemma_steps_keep_count(
    s: ContractView,
    caller: Seq<char>,
    key: Seq<char>,
    amount: u128,
    max_participants: u32,
    now: u64,
    pool_hash: Seq<u8>,
    deposit: u128,
    winners: nat,
)
    requires
        s.wf(),
    ensures
        create_step(s, caller, key, amount, max_participants, now, pool_hash) matches Ok(t)
            ==> t.wf(),
        join_step(s, caller, key, deposit) matches Ok(t) ==> {
            &&& t.wf()
            &&& !s.pools[key].participants.contains(caller)
            &&& t.pools[key].participants == s.pools[key].participants.insert(caller)
            &&& t.pools[key].current_participants == s.pools[key].current_participants + 1
            &&& forall|k: Seq<char>| k != key ==> t.pools.contains_key(k) == s.pools.contains_key(k)
                && t.pools[k] == s.pools[k]
        },
        leave_step(s, caller, key) matches Ok(t) ==> {
            &&& t.wf()
            &&& s.pools[key].participants.contains(caller)
            &&& t.pools[key].participants == s.pools[key].participants.remove(caller)
            &&& t.pools[key].current_participants + 1 == s.pools[key].current_participants
            &&& forall|k: Seq<char>| k != key ==> t.pools.contains_key(k) == s.pools.contains_key(k)
                && t.pools[k] == s.pools[k]
        },
        resolve_step(s, caller, key, winners) matches Ok(t) ==> t.wf() && !t.pools.contains_key(
            key,
        ),
{
    if create_step(s, caller, key, amount, max_participants, now, pool_hash) is Ok {
        let t = create_step(s, caller, key, amount, max_participants, now, pool_hash)->Ok_0;
        assert(t.pools[key].participants.len() == 0);
    }
    if join_step(s, caller, key, deposit) is Ok {
        let p = s.pools[key];
        let t = join_step(s, caller, key, deposit)->Ok_0;
        assert(p.wf());
        assert(p.participants.insert(caller).len() == p.participants.len() + 1);
        assert forall|k: Seq<char>| #[trigger] t.pools.contains_key(k) implies t.pools[k].wf() by {
            if k != key {
                assert(s.pools.contains_key(k));
            }
        }
    }
    if leave_step(s, caller, key) is Ok {
        let p = s.pools[key];
        let t = leave_step(s, caller, key)->Ok_0;
        assert(p.wf());
        assert(p.participants.remove(caller).len() + 1 == p.participants.len());
        assert forall|k: Seq<char>| #[trigger] t.pools.contains_key(k) implies t.pools[k].wf() by {
            if k != key {
                assert(s.pools.contains_key(k));
            }
        }
    }
}

/// With room left in the pool, a deposit other than the stake is refused
/// as a wrong deposit, whether it is zero, smaller or larger.
pub proof fn lemma_wrong_deposit_refused(s: ContractView, caller: Seq<char>, key: Seq<char>, deposit: u128)
    requires
        s.pools.contains_key(key),
        s.pools[key].current_participants < s.pools[key].max_participants,
        deposit != s.pools[key].amount,
    ensures
        join_step(s, caller, key, deposit) == Err::<ContractView, PoolError>(PoolError::WrongDeposit),
{
}

/// A join on a live pool is refused as full exactly when the pool is at
/// capacity.
pub proof fn lemma_full_iff_at_capacity(s: ContractView, caller: Seq<char>, key: Seq<char>, deposit: u128)
    requires
        s.wf(),
        s.pools.contains_key(key),
    ensures
        (join_step(s, caller, key, deposit) == Err::<ContractView, PoolError>(PoolError::PoolFull))
            <==> s.pools[key].current_participants == s.pools[key].max_participants,
{
    assert(s.pools[key].wf());
}

/// Leaving a live pool is refused for a non-member, and for a member it
/// succeeds and lowers the count by one.
pub proof fn lemma_leave_needs_membership(s: ContractView, caller: Seq<char>, key: Seq<char>)
    requires
        s.wf(),
        s.pools.contains_key(key),
    ensures
        !s.pools[key].participants.contains(caller) ==> leave_step(s, caller, key)
            == Err::<ContractView, PoolError>(PoolError::NotAMember),
        s.pools[key].participants.contains(caller) ==> (leave_step(s, caller, key) matches Ok(t)
            && t.pools[key].current_participants + 1 == s.pools[key].current_participants),
{
    if s.pools[key].participants.contains(caller) {
        assert(s.pools[key].wf());
        assert(s.pools[key].participants.len() > 0);
    }
}

/// Only the creator recorded in the pool may resolve it.
pub proof fn lemma_resolve_needs_creator(s: ContractView, caller: Seq<char>, key: Seq<char>, winners: nat)
    requires
        s.pools.contains_key(key),
        caller != s.pools[key].creator,
    ensures
        resolve_step(s, caller, key, winners) == Err::<ContractView, PoolError>(PoolError::Unauthorized),
{
}

/// The creator's resolution is refused without winners, and with more
/// winners than participants.
pub proof fn lemma_resolve_winner_count(s: ContractView, key: Seq<char>, winners: nat)
    requires
        s.pools.contains_key(key),
    ensures
        winners == 0 ==> resolve_step(s, s.pools[key].creator, key, winners)
            == Err::<ContractView, PoolError>(PoolError::NoWinners),
        winners > s.pools[key].current_participants ==> resolve_step(
            s,
            s.pools[key].creator,
            key,
            winners,
        ) == Err::<ContractView, PoolError>(PoolError::TooManyWinners),
{
}

} // verus!
