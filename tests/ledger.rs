use voting_escrow::error::ContractError;
use voting_escrow::escrow::Ledger;
use voting_escrow::math::{MAX_LOCK_PERIODS, MAX_LOCK_SECONDS, WEEK};

const UNIT: u128 = 1_000_000_000_000_000_000;

fn s(x: &str) -> String {
    String::from(x)
}

fn ledger() -> Ledger {
    Ledger::new(s("xastro"), vec![s("banned")])
}

#[test]
fn longest_lock_of_a_thousand() {
    let mut l = ledger();
    let p = l.create_or_extend_lock(&s("xastro"), &s("alice"), 1000, MAX_LOCK_SECONDS, 0).unwrap();
    assert_eq!(p.power, 2500);
    assert_eq!(p.start, 0);
    assert_eq!(p.end, MAX_LOCK_PERIODS);
    assert_eq!(p.slope.atomics, 2500 * UNIT / 104);
    assert_eq!(l.account_voting_power_at(&s("alice"), 0), 2500);
    assert_eq!(l.account_voting_power_at(&s("alice"), MAX_LOCK_PERIODS / 2), 1250);
    assert_eq!(l.account_voting_power_at(&s("alice"), MAX_LOCK_PERIODS), 0);
    assert_eq!(l.total_power_at(MAX_LOCK_PERIODS / 2), 1250);
    assert_eq!(l.total_power_at(MAX_LOCK_PERIODS), 0);
}

#[test]
fn two_half_locks_share_expiry() {
    let mut l = ledger();
    let half = MAX_LOCK_PERIODS / 2;
    let a = l.create_or_extend_lock(&s("xastro"), &s("alice"), 500, half * WEEK, 0).unwrap();
    let b = l.create_or_extend_lock(&s("xastro"), &s("bob"), 500, half * WEEK, 0).unwrap();
    assert_eq!(a.power, 875);
    assert_eq!(b.power, 875);
    assert_eq!(l.total_power_at(0), a.power + b.power);
    assert_eq!(l.total_power_at(half), 0);
    assert_eq!(l.account_voting_power_at(&s("alice"), half), 0);
}

#[test]
fn blacklisted_account_cannot_lock() {
    let mut l = ledger();
    let r = l.create_or_extend_lock(&s("xastro"), &s("banned"), 1000, MAX_LOCK_SECONDS, 0);
    match r {
        Err(ContractError::AddressBlacklisted(a)) => assert_eq!(a, "banned"),
        _ => panic!("expected a blacklist error"),
    }
    assert!(l.accounts.is_empty());
    assert_eq!(l.account_voting_power_at(&s("banned"), 0), 0);
}

#[test]
fn blacklisted_history_is_unchanged() {
    let mut l = ledger();
    l.create_or_extend_lock(&s("xastro"), &s("carol"), 100, 10 * WEEK, 0).unwrap();
    l.blacklist.push(s("carol"));
    let before = l.accounts[0].history.entries.clone();
    let r = l.create_or_extend_lock(&s("xastro"), &s("carol"), 100, 20 * WEEK, 3 * WEEK);
    assert!(matches!(r, Err(ContractError::AddressBlacklisted(_))));
    assert_eq!(l.accounts[0].history.entries, before);
    assert_eq!(l.accounts[0].amount, 100);
}

#[test]
fn lock_from_other_sender_is_unauthorized() {
    let mut l = ledger();
    let r = l.create_or_extend_lock(&s("mallory"), &s("alice"), 1000, MAX_LOCK_SECONDS, 0);
    assert!(matches!(r, Err(ContractError::Unauthorized {})));
    assert!(l.accounts.is_empty());
    assert!(l.total.entries.is_empty());
}

#[test]
fn lock_duration_out_of_range() {
    let mut l = ledger();
    let short = l.create_or_extend_lock(&s("xastro"), &s("alice"), 1000, WEEK - 1, 0);
    assert!(matches!(short, Err(ContractError::LockTimeLimitsError {})));
    let long = l.create_or_extend_lock(&s("xastro"), &s("alice"), 1000, MAX_LOCK_SECONDS + 1, 0);
    assert!(matches!(long, Err(ContractError::LockTimeLimitsError {})));
    assert!(l.schedule.entries.is_empty());
}

#[test]
fn overflowing_amount_is_refused() {
    let mut l = ledger();
    let big: u128 = 100_000_000_000_000_000_000;
    l.create_or_extend_lock(&s("xastro"), &s("alice"), big, WEEK, 0).unwrap();
    // the amounts do not add up within range
    let r = l.create_or_extend_lock(&s("xastro"), &s("alice"), u128::MAX, WEEK, 0);
    assert!(matches!(r, Err(ContractError::ArithmeticOverflow {})));
    // the slope of the power would not fit as a decimal
    let r = l.create_or_extend_lock(&s("xastro"), &s("alice"), 4 * big, WEEK, 0);
    assert!(matches!(r, Err(ContractError::ArithmeticOverflow {})));
    assert_eq!(l.accounts[0].amount, big);
    assert_eq!(l.accounts[0].history.entries.len(), 1);
}

#[test]
fn extending_moves_the_expiry() {
    let mut l = ledger();
    l.create_or_extend_lock(&s("xastro"), &s("alice"), 1000, 52 * WEEK, 0).unwrap();
    let p = l.create_or_extend_lock(&s("xastro"), &s("alice"), 1000, MAX_LOCK_SECONDS, 10 * WEEK).unwrap();
    assert_eq!(l.accounts[0].amount, 2000);
    assert_eq!(p.power, 5000);
    assert_eq!(p.start, 10);
    assert_eq!(p.end, 114);
    assert_eq!(l.accounts[0].history.entries.len(), 2);
    assert_eq!(l.total_power_at(10), 5000);
    assert_eq!(l.total_power_at(52), l.account_voting_power_at(&s("alice"), 52));
    assert_eq!(l.total_power_at(114), 0);
    // the first lock's expiry was taken back
    let at_52: Vec<_> = l.schedule.entries.iter().filter(|e| e.0 == 52).collect();
    assert_eq!(at_52[0].1.atomics, 0);
}

#[test]
fn withdraw_only_after_expiry() {
    let mut l = ledger();
    l.create_or_extend_lock(&s("xastro"), &s("alice"), 700, 4 * WEEK, 0).unwrap();
    assert!(matches!(l.withdraw(&s("alice"), 3 * WEEK), Err(ContractError::LockNotExpired {})));
    assert_eq!(l.accounts[0].amount, 700);
    assert_eq!(l.withdraw(&s("alice"), 4 * WEEK).unwrap(), 700);
    assert_eq!(l.accounts[0].amount, 0);
    assert_eq!(l.withdraw(&s("alice"), 5 * WEEK).unwrap(), 0);
    assert_eq!(l.withdraw(&s("nobody"), 5 * WEEK).unwrap(), 0);
    assert_eq!(l.account_voting_power_at(&s("alice"), 4), 0);
}

#[test]
fn aggregate_rounds_once_for_all_accounts() {
    // each account's decay is rounded on its own, the aggregate's once
    let mut l = ledger();
    l.create_or_extend_lock(&s("xastro"), &s("alice"), 500, 52 * WEEK, 0).unwrap();
    l.create_or_extend_lock(&s("xastro"), &s("bob"), 500, 52 * WEEK, 0).unwrap();
    let sum = l.account_voting_power_at(&s("alice"), 2) + l.account_voting_power_at(&s("bob"), 2);
    assert_eq!(sum, 1682);
    assert_eq!(l.total_power_at(2), 1683);
}

#[test]
fn blacklisted_lock_from_other_sender_changes_nothing() {
    let mut l = ledger();
    let r = l.create_or_extend_lock(&s("mallory"), &s("banned"), 1000, WEEK, 0);
    assert!(matches!(r, Err(ContractError::Unauthorized {})));
    assert!(l.accounts.is_empty());
    assert!(l.schedule.entries.is_empty());
}

#[test]
fn extension_in_the_same_period_overwrites() {
    let mut l = ledger();
    l.create_or_extend_lock(&s("xastro"), &s("alice"), 100, 10 * WEEK, 0).unwrap();
    l.create_or_extend_lock(&s("xastro"), &s("bob"), 100, 10 * WEEK, 0).unwrap();
    l.create_or_extend_lock(&s("xastro"), &s("alice"), 100, 20 * WEEK, WEEK - 1).unwrap();
    assert_eq!(l.accounts[0].history.entries.len(), 1);
    assert_eq!(l.accounts[0].end, 20);
    assert_eq!(l.accounts[1].amount, 100);
    assert_eq!(l.total.entries.len(), 1);
}
