use voting_escrow::decimal::Decimal;
use voting_escrow::error::ContractError;
use voting_escrow::history::{CheckpointLog, SlopeSchedule};
use voting_escrow::point::Point;

fn point(power: u128, start: u64) -> Point {
    Point { power, start, end: start + 10, slope: Decimal { atomics: 0 } }
}

fn dec(atomics: u128) -> Decimal {
    Decimal { atomics }
}

#[test]
fn lookup_before_first_checkpoint_is_none() {
    let mut log = CheckpointLog::new();
    assert!(log.last_at_or_before(100).is_none());
    log.write(5, point(1, 5));
    assert!(log.last_at_or_before(4).is_none());
    assert!(log.last_at_or_before(0).is_none());
}

#[test]
fn lookup_finds_greatest_key_not_above() {
    let mut log = CheckpointLog::new();
    log.write(5, point(1, 5));
    log.write(9, point(2, 9));
    log.write(20, point(3, 20));
    assert_eq!(log.last_at_or_before(5).unwrap().1.power, 1);
    assert_eq!(log.last_at_or_before(8).unwrap().1.power, 1);
    assert_eq!(log.last_at_or_before(9).unwrap().0, 9);
    assert_eq!(log.last_at_or_before(19).unwrap().1.power, 2);
    assert_eq!(log.last_at_or_before(20).unwrap().1.power, 3);
    assert_eq!(log.last_at_or_before(u64::MAX).unwrap().0, 20);
}

#[test]
fn last_write_within_a_period_wins() {
    let mut log = CheckpointLog::new();
    log.write(3, point(1, 3));
    log.write(3, point(7, 3));
    assert_eq!(log.entries.len(), 1);
    assert_eq!(log.last_at_or_before(3).unwrap().1.power, 7);
}

#[test]
fn expiries_in_one_period_are_summed() {
    let mut s = SlopeSchedule::new();
    s.record_expiry(10, dec(3)).unwrap();
    s.record_expiry(4, dec(1)).unwrap();
    s.record_expiry(10, dec(5)).unwrap();
    s.record_expiry(7, dec(2)).unwrap();
    assert_eq!(s.entries, vec![(4, dec(1)), (7, dec(2)), (10, dec(8))]);
}

#[test]
fn overflowing_expiry_changes_nothing() {
    let mut s = SlopeSchedule::new();
    s.record_expiry(10, dec(u128::MAX)).unwrap();
    let r = s.record_expiry(10, dec(1));
    assert!(matches!(r, Err(ContractError::ArithmeticOverflow {})));
    assert_eq!(s.entries, vec![(10, dec(u128::MAX))]);
}

#[test]
fn range_excludes_lower_and_includes_upper() {
    let mut s = SlopeSchedule::new();
    for p in [2u64, 4, 6, 8] {
        s.record_expiry(p, dec(p as u128)).unwrap();
    }
    assert_eq!(s.range(2, 6), vec![(4, dec(4)), (6, dec(6))]);
    assert_eq!(s.range(0, 8).len(), 4);
    assert_eq!(s.range(8, 100), vec![]);
    assert_eq!(s.range(3, 3), vec![]);
    assert_eq!(s.range(1, 2), vec![(2, dec(2))]);
}
