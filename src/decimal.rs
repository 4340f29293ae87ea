use crate::error::ContractError;
use crate::math::{DECIMAL_FRACTIONAL, DECIMAL_HALF, MAX_LOCK_PERIODS};
use vstd::arithmetic::div_mod::*;
use vstd::prelude::*;

verus! {

/// A non-negative fixed-point number with 18 decimal places: its value is
/// `atomics / 10^18`.
#[derive(Clone, Copy, Debug, PartialEq, Eq, Structural)]
pub struct Decimal {
    pub atomics: u128,
}

/// `x / 10^18`, rounded to the nearest integer, halves rounded up.
pub open spec fn round_half_up(x: nat) -> nat {
    ((x + DECIMAL_HALF) / (DECIMAL_FRACTIONAL as int)) as nat
}

/// The product of a decimal (given by its atomics) and an integer amount,
/// rounded half up to an integer.
pub open spec fn rounded_mul(c: nat, a: nat) -> nat {
    round_half_up(c * a)
}

/// Atomics of the lock coefficient `1 + 1.5 * interval / MAX_LOCK_PERIODS`,
/// with the fractional part rounded down to 18 decimal places.
pub open spec fn coefficient_atomics(interval: nat) -> nat {
    (DECIMAL_FRACTIONAL + (15 * interval * DECIMAL_FRACTIONAL) / (MAX_LOCK_PERIODS * 10)) as nat
}

/// Relies on cosmwasm_std::Uint128::full_mul and on the division, remainder and
/// narrowing of cosmwasm_std::Uint256: the exact 256-bit product `a * b`,
/// divided by `d`, with the quotient when it fits in 128 bits and the remainder.
#[verifier::external_body]
pub(crate) fn wide_mul_div_rem(a: u128, b: u128, d: u128) -> (r: Option<(u128, u128)>)
    requires
        d > 0,
    ensures
        r is Some <==> (a * b) / (d as int) <= u128::MAX,
        match r {
            Some((q, m)) => q == (a * b) / (d as int) && m == (a * b) % (d as int),
            None => true,
        },
{
    let n = cosmwasm_std::Uint128::new(a).full_mul(b);
    let den = cosmwasm_std::Uint256::from(d);
    let q = cosmwasm_std::Uint128::try_from(n / den);
    let m = cosmwasm_std::Uint128::try_from(n.checked_rem(den).unwrap());
    match (q, m) {
        (Ok(q), Ok(m)) => Some((q.u128(), m.u128())),
        _ => None,
    }
}

/// Relies on cosmwasm_std::Decimal::from_ratio: the ratio `n / d`, rounded down
/// to 18 decimal places; it panics when `d` is zero or the result overflows.
#[verifier::external_body]
fn decimal_from_ratio(n: u128, d: u128) -> (r: Decimal)
    requires
        d > 0,
        n * DECIMAL_FRACTIONAL / (d as int) <= u128::MAX,
    ensures
        r.atomics == n * DECIMAL_FRACTIONAL / (d as int),
{
    let r = cosmwasm_std::Decimal::from_ratio(n, d);
    Decimal { atomics: cosmwasm_std::Fraction::numerator(&r).u128() }
}

proof fn lemma_round_split(x: nat)
    ensures
        round_half_up(x) == x / (DECIMAL_FRACTIONAL as nat) + (if x % (DECIMAL_FRACTIONAL as nat)
            >= DECIMAL_HALF {
            1nat
        } else {
            0nat
        }),
{
    let d = DECIMAL_FRACTIONAL as int;
    lemma_fundamental_div_mod(x as int, d);
    let q = x as int / d;
    let m = x as int % d;
    lemma_mod_bound(x as int, d);
    if m >= DECIMAL_HALF {
        assert((x + DECIMAL_HALF) == (q + 1) * d + (m + DECIMAL_HALF - d)) by (nonlinear_arith)
            requires
                x == q * d + m,
                d == 2 * DECIMAL_HALF,
        ;
        lemma_fundamental_div_mod_converse(
            (x + DECIMAL_HALF) as int,
            d,
            q + 1,
            m + DECIMAL_HALF - d,
        );
    } else {
        assert((x + DECIMAL_HALF) == q * d + (m + DECIMAL_HALF)) by (nonlinear_arith)
            requires
                x == q * d + m,
        ;
        lemma_fundamental_div_mod_converse((x + DECIMAL_HALF) as int, d, q, m + DECIMAL_HALF);
    }
}

impl Decimal {
    /// The decimal `1.0`.
    pub fn one() -> (r: Decimal)
        ensures
            r.atomics == DECIMAL_FRACTIONAL,
    {
        Decimal { atomics: DECIMAL_FRACTIONAL }
    }

    /// Multiplies by an integer amount and rounds the product half up to an
    /// integer; fails when the rounded product does not fit in 128 bits.
    pub fn checked_mul(self, other: u128) -> (r: Result<u128, ContractError>)
        ensures
            r is Ok <==> rounded_mul(self.atomics as nat, other as nat) <= u128::MAX,
            r is Ok ==> r->Ok_0 == rounded_mul(self.atomics as nat, other as nat),
            r is Err ==> r->Err_0 is ArithmeticOverflow,
    {
        proof {
            lemma_round_split((self.atomics * other) as nat);
        }
        if self.atomics == 0 || other == 0 {
            proof {
                assert(self.atomics * other == 0) by (nonlinear_arith)
                    requires
                        self.atomics == 0 || other == 0,
                ;
            }
            return Ok(0);
        }
        match wide_mul_div_rem(other, self.atomics, DECIMAL_FRACTIONAL) {
            None => {
                proof {
                    assert(other * self.atomics == self.atomics * other) by (nonlinear_arith);
                }
                Err(ContractError::ArithmeticOverflow {  })
            },
            Some((q, m)) => {
                proof {
                    assert(other * self.atomics == self.atomics * other) by (nonlinear_arith);
                }
                if m >= DECIMAL_HALF {
                    if q == u128::MAX {
                        Err(ContractError::ArithmeticOverflow {  })
                    } else {
                        Ok(q + 1)
                    }
                } else {
                    Ok(q)
                }
            },
        }
    }
}

/// Coefficient of a lock that spans `interval` periods:
/// `1 + 1.5 * interval / MAX_LOCK_PERIODS`, which is 1 for an empty interval
/// and 2.5 for the longest lock.
pub fn calc_coefficient(interval: u64) -> (r: Decimal)
    ensures
        r.atomics == coefficient_atomics(interval as nat),
{
    let n: u128 = 15u128 * (interval as u128);
    let d: u128 = (MAX_LOCK_PERIODS as u128) * 10;
    proof {
        assert(n * DECIMAL_FRACTIONAL / (d as int) <= n * DECIMAL_FRACTIONAL) by {
            lemma_div_is_ordered_by_denominator((n * DECIMAL_FRACTIONAL) as int, 1, d as int);
        }
        assert(n * DECIMAL_FRACTIONAL <= 0x1_0000_0000_0000_0000 * 16 * DECIMAL_FRACTIONAL)
            by (nonlinear_arith)
            requires
                n <= 0x1_0000_0000_0000_0000 * 16,
        ;
    }
    let frac = decimal_from_ratio(n, d);
    Decimal { atomics: DECIMAL_FRACTIONAL + frac.atomics }
}

/// Rounding two amounts together differs from rounding them one by one by
/// at most one unit either way: the bound on how far an aggregate decay,
/// rounded once, can drift from the sum of the accounts' rounded decays in
/// one step.
pub proof fn lemma_rounding_gap(x: nat, y: nat)
    ensures
        round_half_up(x) + round_half_up(y) <= round_half_up(x + y) + 1,
        round_half_up(x + y) <= round_half_up(x) + round_half_up(y) + 1,
{
    let d = DECIMAL_FRACTIONAL as int;
    let h = DECIMAL_HALF as int;
    let a = x + h;
    let b = y + h;
    let c = x + y + h;
    lemma_fundamental_div_mod(a, d);
    lemma_mod_bound(a, d);
    lemma_fundamental_div_mod(b, d);
    lemma_mod_bound(b, d);
    lemma_fundamental_div_mod(c, d);
    lemma_mod_bound(c, d);
    let qa = a / d;
    let qb = b / d;
    let qc = c / d;
    assert(d * (qc - qa - qb) == a % d + b % d - h - c % d) by (nonlinear_arith)
        requires
            a == d * qa + a % d,
            b == d * qb + b % d,
            c == d * qc + c % d,
            c == a + b - h,
    ;
    assert(-1 <= qc - qa - qb <= 1) by (nonlinear_arith)
        requires
            d * (qc - qa - qb) == a % d + b % d - h - c % d,
            0 <= a % d < d,
            0 <= b % d < d,
            0 <= c % d < d,
            d == 2 * h,
            h > 0,
    ;
}

/// The coefficient is exactly 1 for an empty interval, exactly 2.5 for the
/// longest lock, and strictly increasing in the interval.
pub proof fn lemma_coefficient_range(i: nat, j: nat)
    requires
        i < j,
    ensures
        coefficient_atomics(0) == DECIMAL_FRACTIONAL,
        coefficient_atomics(MAX_LOCK_PERIODS as nat) == 5 * DECIMAL_HALF,
        coefficient_atomics(i) < coefficient_atomics(j),
{
    let f = DECIMAL_FRACTIONAL as int;
    let d = (MAX_LOCK_PERIODS * 10) as int;
    let x = 15 * i * f;
    let y = 15 * j * f;
    assert(y >= x + d) by (nonlinear_arith)
        requires
            i < j,
            x == 15 * i * f,
            y == 15 * j * f,
            f == DECIMAL_FRACTIONAL,
            d == 1040,
    ;
    lemma_div_plus_one(x, d);
    lemma_div_is_ordered(d + x, y, d);
    assert(15 * (MAX_LOCK_PERIODS as nat) * f / d == 3 * DECIMAL_HALF);
}

} // verus!
