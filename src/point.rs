use crate::decimal::{lemma_rounding_gap, rounded_mul, round_half_up, Decimal};
use crate::math::DECIMAL_FRACTIONAL;
use vstd::arithmetic::div_mod::*;
use vstd::prelude::*;

verus! {

/// A voting-power checkpoint: `power` at period `start`, decaying by `slope`
/// per period until it reaches zero at period `end`.
#[derive(Clone, Copy, Debug, PartialEq, Eq, Structural)]
pub struct Point {
    pub power: u128,
    pub start: u64,
    pub end: u64,
    pub slope: Decimal,
}

/// Voting power of a checkpoint at a period no earlier than its start:
/// `max(0, power - slope * (period - start))`, the product rounded half up.
pub open spec fn power_at(point: Point, period: nat) -> nat {
    let shift = rounded_mul(point.slope.atomics as nat, (period - point.start) as nat);
    if shift >= point.power {
        0
    } else {
        (point.power - shift) as nat
    }
}

/// A checkpoint whose power is used up by its end: `start <= end` and the
/// decay over `[start, end]` covers the power.
pub open spec fn decays_by_end(point: Point) -> bool {
    &&& point.start <= point.end
    &&& point.power <= rounded_mul(point.slope.atomics as nat, (point.end - point.start) as nat)
}

/// Main calculation: the previous power minus the slope times the periods
/// elapsed since the checkpoint, never below zero.
pub fn calc_voting_power(point: &Point, period: u64) -> (r: u128)
    requires
        period >= point.start,
    ensures
        r == power_at(*point, period as nat),
{
    match point.slope.checked_mul((period - point.start) as u128) {
        Ok(shift) => {
            if shift >= point.power {
                0
            } else {
                point.power - shift
            }
        },
        Err(_) => 0,
    }
}

/// The rounded product grows with the amount.
pub proof fn lemma_rounded_mul_monotonic(c: nat, a: nat, b: nat)
    requires
        a <= b,
    ensures
        rounded_mul(c, a) <= rounded_mul(c, b),
{
    assert(c * a <= c * b) by (nonlinear_arith)
        requires
            a <= b,
    ;
    lemma_div_is_ordered(c * a + (crate::math::DECIMAL_HALF as int), c * b + (crate::math::DECIMAL_HALF as int), DECIMAL_FRACTIONAL as int);
}

/// From its end on, a checkpoint that decays by its end has no power left.
pub proof fn lemma_power_zero_after_end(point: Point, period: nat)
    requires
        decays_by_end(point),
        period >= point.end,
    ensures
        power_at(point, period) == 0,
{
    lemma_rounded_mul_monotonic(
        point.slope.atomics as nat,
        (point.end - point.start) as nat,
        (period - point.start) as nat,
    );
}

/// Between start and end a checkpoint that decays by its end loses power
/// monotonically: it holds its full power at the start and none at the end.
pub proof fn lemma_power_decays(point: Point, p: nat, q: nat)
    requires
        decays_by_end(point),
        point.start <= p <= q <= point.end,
    ensures
        power_at(point, q) <= power_at(point, p),
        power_at(point, point.start as nat) == point.power,
        power_at(point, point.end as nat) == 0,
{
    lemma_rounded_mul_monotonic(
        point.slope.atomics as nat,
        (p - point.start) as nat,
        (q - point.start) as nat,
    );
    assert(point.slope.atomics as nat * 0 == 0);
    assert(round_half_up(0) == 0);
    lemma_power_zero_after_end(point, point.end as nat);
}

/// Two checkpoints that start together, and the one point that carries their
/// summed power and slope: while neither has run out, the combined point's
/// power differs from the sum of their powers by at most one unit, the cost
/// of rounding the combined decay once instead of each decay on its own.
pub proof fn lemma_combined_decay_gap(a: Point, b: Point, c: Point, period: nat)
    requires
        a.start == b.start == c.start,
        c.power == a.power + b.power,
        c.slope.atomics == a.slope.atomics + b.slope.atomics,
        period >= a.start,
        rounded_mul(a.slope.atomics as nat, (period - a.start) as nat) <= a.power,
        rounded_mul(b.slope.atomics as nat, (period - b.start) as nat) <= b.power,
    ensures
        power_at(a, period) + power_at(b, period) <= power_at(c, period) + 1,
        power_at(c, period) <= power_at(a, period) + power_at(b, period) + 1,
{
    let t = (period - a.start) as nat;
    let x = a.slope.atomics as nat * t;
    let y = b.slope.atomics as nat * t;
    assert(c.slope.atomics as nat * t == x + y) by (nonlinear_arith)
        requires
            c.slope.atomics == a.slope.atomics + b.slope.atomics,
            x == a.slope.atomics as nat * t,
            y == b.slope.atomics as nat * t,
    ;
    lemma_rounding_gap(x, y);
}

} // verus!
