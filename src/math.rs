use crate::error::ContractError;
use vstd::prelude::*;

verus! {

/// Length of one period, in seconds (one week).
pub const WEEK: u64 = 604800;

/// Two years of 365 days, in seconds; the longest lock is the whole periods in it.
pub const MAX_LOCK_TIME: u64 = 63072000;

/// Longest lock, in whole periods.
pub const MAX_LOCK_PERIODS: u64 = 104;

/// Longest lock, in seconds: `MAX_LOCK_PERIODS` whole periods.
pub const MAX_LOCK_SECONDS: u64 = 62899200;

/// Scale of the fixed-point decimals: one unit is `10^18` atomics.
pub const DECIMAL_FRACTIONAL: u128 = 1_000_000_000_000_000_000;

/// Half of one unit, the rounding threshold.
pub const DECIMAL_HALF: u128 = 500_000_000_000_000_000;

/// Period index of a time in seconds.
pub open spec fn period_of(time: nat) -> nat {
    time / (WEEK as nat)
}

/// Calculates in which period a time (in seconds) falls.
pub fn get_period(time: u64) -> (r: u64)
    ensures
        r == period_of(time as nat),
{
    time / WEEK
}

/// Whether a lock duration in seconds lies between one period and the longest
/// lock, both included.
pub open spec fn lock_time_ok(time: nat) -> bool {
    WEEK <= time <= MAX_LOCK_PERIODS * WEEK
}

/// Checks that a lock duration lies within the allowed limits.
pub fn time_limits_check(time: u64) -> (r: Result<(), ContractError>)
    ensures
        r is Ok <==> lock_time_ok(time as nat),
        r is Err ==> r->Err_0 is LockTimeLimitsError,
{
    assert(MAX_LOCK_SECONDS == MAX_LOCK_PERIODS * WEEK);
    if !(WEEK <= time && time <= MAX_LOCK_SECONDS) {
        Err(ContractError::LockTimeLimitsError {  })
    } else {
        Ok(())
    }
}

} // verus!
