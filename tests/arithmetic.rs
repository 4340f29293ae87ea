use voting_escrow::decimal::{calc_coefficient, Decimal};
use voting_escrow::error::ContractError;
use voting_escrow::math::{
    get_period, time_limits_check, MAX_LOCK_PERIODS, MAX_LOCK_SECONDS, MAX_LOCK_TIME, WEEK,
};

const UNIT: u128 = 1_000_000_000_000_000_000;

#[test]
fn period_is_floor_of_weeks() {
    assert_eq!(get_period(0), 0);
    assert_eq!(get_period(WEEK - 1), 0);
    assert_eq!(get_period(WEEK), 1);
    assert_eq!(get_period(MAX_LOCK_TIME), MAX_LOCK_PERIODS);
    assert_eq!(get_period(u64::MAX), u64::MAX / 604800);
}

#[test]
fn lock_time_limits_are_inclusive() {
    assert!(time_limits_check(WEEK).is_ok());
    assert_eq!(MAX_LOCK_SECONDS, MAX_LOCK_PERIODS * WEEK);
    assert!(time_limits_check(MAX_LOCK_SECONDS).is_ok());
    assert!(matches!(time_limits_check(WEEK - 1), Err(ContractError::LockTimeLimitsError {})));
    assert!(matches!(
        time_limits_check(MAX_LOCK_SECONDS + 1),
        Err(ContractError::LockTimeLimitsError {})
    ));
    // two calendar years are more than the longest lock of whole periods
    assert!(matches!(time_limits_check(MAX_LOCK_TIME), Err(ContractError::LockTimeLimitsError {})));
    assert!(matches!(time_limits_check(0), Err(ContractError::LockTimeLimitsError {})));
}

#[test]
fn coefficient_endpoints_are_exact() {
    assert_eq!(calc_coefficient(0).atomics, UNIT);
    assert_eq!(calc_coefficient(MAX_LOCK_PERIODS).atomics, 2_500_000_000_000_000_000);
    assert_eq!(calc_coefficient(52).atomics, 1_750_000_000_000_000_000);
    // 1 + 15 / 1040, rounded down to 18 places
    assert_eq!(calc_coefficient(1).atomics, 1_014_423_076_923_076_923);
}

#[test]
fn coefficient_strictly_increases() {
    let mut prev = calc_coefficient(0).atomics;
    for i in 1..=MAX_LOCK_PERIODS {
        let c = calc_coefficient(i).atomics;
        assert!(c > prev);
        prev = c;
    }
}

#[test]
fn rounded_mul_rounds_half_up() {
    let c = Decimal { atomics: 1_500_000_000_000_000_000 };
    assert_eq!(c.checked_mul(3).unwrap(), 5);
    assert_eq!(c.checked_mul(1).unwrap(), 2);
    let d = Decimal { atomics: 1_400_000_000_000_000_000 };
    assert_eq!(d.checked_mul(1).unwrap(), 1);
    let e = Decimal { atomics: 2_500_000_000_000_000_000 };
    assert_eq!(e.checked_mul(1000).unwrap(), 2500);
    let just_below = Decimal { atomics: 499_999_999_999_999_999 };
    assert_eq!(just_below.checked_mul(1).unwrap(), 0);
    let half = Decimal { atomics: 500_000_000_000_000_000 };
    assert_eq!(half.checked_mul(1).unwrap(), 1);
    assert_eq!(half.checked_mul(3).unwrap(), 2);
}

#[test]
fn rounded_mul_of_zero() {
    assert_eq!(Decimal { atomics: 0 }.checked_mul(u128::MAX).unwrap(), 0);
    assert_eq!(Decimal { atomics: u128::MAX }.checked_mul(0).unwrap(), 0);
}

#[test]
fn rounded_mul_overflows() {
    let max = Decimal { atomics: u128::MAX };
    assert!(matches!(max.checked_mul(UNIT * 2), Err(ContractError::ArithmeticOverflow {})));
    assert_eq!(max.checked_mul(UNIT).unwrap(), u128::MAX);
    let two = Decimal { atomics: 2 * UNIT };
    assert!(matches!(two.checked_mul(u128::MAX), Err(ContractError::ArithmeticOverflow {})));
    // one and a half times two thirds of the range, plus a little
    let c = Decimal { atomics: UNIT + 500_000_000_000_000_000 };
    let a = u128::MAX / 3 * 2 + 1;
    assert!(matches!(c.checked_mul(a), Err(ContractError::ArithmeticOverflow {})));
}

#[test]
fn rounded_mul_has_no_downward_bias() {
    // over a full cycle of fractional parts, round half up keeps the sum
    // within half a unit per term of the exact sum
    let c = Decimal { atomics: 1_100_000_000_000_000_000 };
    let mut rounded: u128 = 0;
    let mut exact_tenths: u128 = 0;
    for a in 1..=100u128 {
        rounded += c.checked_mul(a).unwrap();
        exact_tenths += 11 * a;
    }
    assert_eq!(exact_tenths, 55550);
    assert_eq!(rounded, 5560);
}
