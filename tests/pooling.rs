use pooling::{stranded_remainder, winner_payout, Contract, PoolError, StorageKeys};

fn s(x: &str) -> String {
    x.to_string()
}

fn hash_of(key: &str) -> Vec<u8> {
    key.bytes().collect()
}

fn contract_with_pool(key: &str, amount: u128, max: u32) -> Contract {
    let mut c = Contract::new(s("admin"));
    assert_eq!(c.new_pool(&s("admin"), s(key), amount, max, 7, hash_of(key)), Ok(()));
    c
}

fn count(c: &Contract, key: &str) -> u32 {
    c.get_pool(&s(key)).unwrap().current_num_of_participants()
}

#[test]
fn create_pool_starts_empty() {
    let c = contract_with_pool("round", 100, 4);
    let p = c.get_pool(&s("round")).unwrap();
    assert_eq!(p.current_num_of_participants(), 0);
    assert_eq!(p.max_num_of_participants(), 4);
    assert_eq!(p.amount(), 100);
    assert_eq!(p.creator(), "admin");
    assert_eq!(p.created_at(), 7);
    assert!(!p.is_participant(&s("alice")));
    match p.participants_key() {
        StorageKeys::PoolParticipants { pool_hash } => assert_eq!(pool_hash, &hash_of("round")),
        StorageKeys::Pools => panic!("participants must live in the pool's own namespace"),
    }
    assert_eq!(c.admin(), "admin");
}

#[test]
fn create_pool_by_non_admin_is_unauthorized() {
    let mut c = Contract::new(s("admin"));
    assert_eq!(c.new_pool(&s("mallory"), s("round"), 100, 4, 7, hash_of("round")), Err(PoolError::Unauthorized));
    assert!(c.get_pool(&s("round")).is_none());
}

#[test]
fn create_pool_on_live_key_is_refused() {
    let mut c = contract_with_pool("round", 100, 4);
    c.join_pool(&s("alice"), s("round"), 100).unwrap();
    assert_eq!(c.new_pool(&s("admin"), s("round"), 5, 9, 8, hash_of("round")), Err(PoolError::KeyCollision));
    let p = c.get_pool(&s("round")).unwrap();
    assert_eq!(p.amount(), 100);
    assert_eq!(p.current_num_of_participants(), 1);
}

#[test]
fn join_and_leave_track_the_count() {
    let mut c = contract_with_pool("round", 10, 3);
    c.join_pool(&s("a"), s("round"), 10).unwrap();
    c.join_pool(&s("b"), s("round"), 10).unwrap();
    assert_eq!(count(&c, "round"), 2);
    let t = c.leave_pool(&s("a"), s("round")).unwrap();
    assert_eq!(t.receiver, "a");
    assert_eq!(t.amount, 10);
    assert_eq!(count(&c, "round"), 1);
    c.join_pool(&s("a"), s("round"), 10).unwrap();
    c.join_pool(&s("c"), s("round"), 10).unwrap();
    assert_eq!(count(&c, "round"), 3);
    let p = c.get_pool(&s("round")).unwrap();
    assert!(p.is_participant(&s("a")));
    assert!(p.is_participant(&s("b")));
    assert!(p.is_participant(&s("c")));
}

#[test]
fn double_join_is_refused() {
    let mut c = contract_with_pool("round", 10, 3);
    c.join_pool(&s("a"), s("round"), 10).unwrap();
    assert_eq!(c.join_pool(&s("a"), s("round"), 10), Err(PoolError::AlreadyJoined));
    assert_eq!(count(&c, "round"), 1);
}

#[test]
fn wrong_deposit_is_refused_for_any_other_value() {
    let mut c = contract_with_pool("round", 100, 4);
    for d in [0u128, 1, 99, 101, u128::MAX] {
        assert_eq!(c.join_pool(&s("a"), s("round"), d), Err(PoolError::WrongDeposit));
    }
    assert_eq!(count(&c, "round"), 0);
}

#[test]
fn join_on_full_pool_is_refused() {
    let mut c = contract_with_pool("round", 5, 2);
    c.join_pool(&s("a"), s("round"), 5).unwrap();
    assert_eq!(c.join_pool(&s("a"), s("round"), 5), Err(PoolError::AlreadyJoined));
    c.join_pool(&s("b"), s("round"), 5).unwrap();
    assert_eq!(c.join_pool(&s("c"), s("round"), 5), Err(PoolError::PoolFull));
    assert_eq!(c.join_pool(&s("c"), s("round"), 4), Err(PoolError::PoolFull));
    c.leave_pool(&s("b"), s("round")).unwrap();
    assert_eq!(c.join_pool(&s("c"), s("round"), 5), Ok(()));
}

#[test]
fn zero_capacity_pool_is_always_full() {
    let mut c = contract_with_pool("closed", 5, 0);
    assert_eq!(c.join_pool(&s("a"), s("closed"), 5), Err(PoolError::PoolFull));
}

#[test]
fn join_missing_pool_is_not_found() {
    let mut c = Contract::new(s("admin"));
    assert_eq!(c.join_pool(&s("a"), s("nope"), 5), Err(PoolError::NotFound));
    assert_eq!(c.leave_pool(&s("a"), s("nope")).unwrap_err(), PoolError::NotFound);
    assert_eq!(c.reward_pool_winners(&s("admin"), s("nope"), &[s("a")]).unwrap_err(), PoolError::NotFound);
}

#[test]
fn leave_by_non_member_is_refused() {
    let mut c = contract_with_pool("round", 10, 3);
    c.join_pool(&s("a"), s("round"), 10).unwrap();
    assert_eq!(c.leave_pool(&s("z"), s("round")).unwrap_err(), PoolError::NotAMember);
    c.leave_pool(&s("a"), s("round")).unwrap();
    assert_eq!(c.leave_pool(&s("a"), s("round")).unwrap_err(), PoolError::NotAMember);
    assert_eq!(count(&c, "round"), 0);
}

#[test]
fn resolve_by_other_than_creator_is_unauthorized() {
    let mut c = contract_with_pool("round", 10, 3);
    c.join_pool(&s("a"), s("round"), 10).unwrap();
    assert_eq!(c.reward_pool_winners(&s("a"), s("round"), &[s("a")]).unwrap_err(), PoolError::Unauthorized);
    assert_eq!(c.reward_pool_winners(&s("admin2"), s("round"), &[s("a")]).unwrap_err(), PoolError::Unauthorized);
    assert!(c.get_pool(&s("round")).is_some());
}

#[test]
fn resolve_winner_count_errors() {
    let mut c = contract_with_pool("round", 10, 3);
    c.join_pool(&s("a"), s("round"), 10).unwrap();
    assert_eq!(c.reward_pool_winners(&s("admin"), s("round"), &[]).unwrap_err(), PoolError::NoWinners);
    assert_eq!(
        c.reward_pool_winners(&s("admin"), s("round"), &[s("a"), s("b")]).unwrap_err(),
        PoolError::TooManyWinners
    );
    assert_eq!(count(&c, "round"), 1);
}

#[test]
fn resolve_with_overflowing_payout_is_refused() {
    let mut c = contract_with_pool("big", u128::MAX, 3);
    c.join_pool(&s("a"), s("big"), u128::MAX).unwrap();
    c.join_pool(&s("b"), s("big"), u128::MAX).unwrap();
    assert_eq!(c.reward_pool_winners(&s("admin"), s("big"), &[s("a")]).unwrap_err(), PoolError::PayoutOverflow);
    assert!(c.get_pool(&s("big")).is_some());
}

#[test]
fn scenario_full_round() {
    let mut c = contract_with_pool("p1", 100, 4);
    c.join_pool(&s("alice"), s("p1"), 100).unwrap();
    c.join_pool(&s("bob"), s("p1"), 100).unwrap();
    c.join_pool(&s("carol"), s("p1"), 100).unwrap();
    assert_eq!(count(&c, "p1"), 3);
    assert_eq!(c.join_pool(&s("dave"), s("p1"), 50), Err(PoolError::WrongDeposit));
    assert_eq!(count(&c, "p1"), 3);
    c.leave_pool(&s("carol"), s("p1")).unwrap();
    assert_eq!(count(&c, "p1"), 2);
    let ts = c.reward_pool_winners(&s("admin"), s("p1"), &[s("alice"), s("bob")]).unwrap();
    assert_eq!(ts.len(), 2);
    assert_eq!(ts[0].receiver, "alice");
    assert_eq!(ts[1].receiver, "bob");
    assert_eq!(ts[0].amount, 100);
    assert_eq!(ts[1].amount, 100);
    assert_eq!(ts[0].amount + ts[1].amount, 200);
    assert_eq!(stranded_remainder(100, 2, 2), Some(0));
    assert!(c.get_pool(&s("p1")).is_none());
    assert_eq!(c.reward_pool_winners(&s("admin"), s("p1"), &[s("alice")]).unwrap_err(), PoolError::NotFound);
    assert_eq!(c.join_pool(&s("alice"), s("p1"), 100), Err(PoolError::NotFound));
    assert_eq!(c.new_pool(&s("admin"), s("p1"), 1, 1, 9, hash_of("p1")), Ok(()));
}

#[test]
fn scenario_rounding_remainder() {
    assert_eq!(winner_payout(100, 3, 2), Some(150));
    let mut c = contract_with_pool("odd", 101, 3);
    c.join_pool(&s("a"), s("odd"), 101).unwrap();
    c.join_pool(&s("b"), s("odd"), 101).unwrap();
    c.join_pool(&s("c"), s("odd"), 101).unwrap();
    let winners = [s("a"), s("c")];
    let ts = c.reward_pool_winners(&s("admin"), s("odd"), &winners).unwrap();
    assert_eq!(ts.len(), 2);
    assert_eq!(ts[0].amount, 150);
    assert_eq!(ts[1].amount, 150);
    let pot: u128 = 101 * 3;
    let paid: u128 = ts.iter().map(|t| t.amount).sum();
    assert_eq!(paid, 300);
    let residual = stranded_remainder(101, 3, 2).unwrap();
    assert_eq!(residual, pot - ts[0].amount * 2);
    assert_eq!(residual, 3);
}

#[test]
fn winners_need_not_be_participants() {
    let mut c = contract_with_pool("round", 9, 3);
    c.join_pool(&s("a"), s("round"), 9).unwrap();
    c.join_pool(&s("b"), s("round"), 9).unwrap();
    let ts = c.reward_pool_winners(&s("admin"), s("round"), &[s("outsider")]).unwrap();
    assert_eq!(ts.len(), 1);
    assert_eq!(ts[0].receiver, "outsider");
    assert_eq!(ts[0].amount, 18);
}

#[test]
fn payout_formula_values() {
    assert_eq!(winner_payout(100, 2, 2), Some(100));
    assert_eq!(winner_payout(101, 3, 2), Some(150));
    assert_eq!(winner_payout(7, 4, 3), Some(8));
    assert_eq!(winner_payout(7, 4, 0), None);
    assert_eq!(winner_payout(u128::MAX, 2, 1), None);
    assert_eq!(winner_payout(u128::MAX, 1, 1), Some(u128::MAX));
    assert_eq!(stranded_remainder(7, 4, 3), Some(4));
    assert_eq!(stranded_remainder(7, 4, 0), None);
    assert_eq!(stranded_remainder(u128::MAX, 2, 1), None);
    assert_eq!(stranded_remainder(0, 5, 2), Some(0));
}
