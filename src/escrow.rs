use crate::decimal::{calc_coefficient, coefficient_atomics, rounded_mul, wide_mul_div_rem, Decimal};
use crate::error::ContractError;
use crate::guard::{blacklist_check, blacklisted, xastro_token_check};
use crate::history::{scheduled_at, CheckpointLog, SlopeSchedule};
use crate::ledger::{
    account_power, last_entry, lemma_last_entry_unique, replay_total, total_point, total_power,
    total_voting_power_at, voting_power_at,
};
use crate::math::{get_period, lock_time_ok, DECIMAL_HALF, MAX_LOCK_PERIODS, period_of, time_limits_check, DECIMAL_FRACTIONAL, WEEK};
use crate::point::{calc_voting_power, decays_by_end, power_at, Point};
use vstd::arithmetic::div_mod::*;
use vstd::prelude::*;

verus! {

/// One account's lock and its checkpoint history.
pub struct Account {
    pub addr: String,
    pub amount: u128,
    pub end: u64,
    pub history: CheckpointLog,
}

/// The voting-power ledger: accounts with their locks and histories, the
/// aggregate history, the slope-change schedule, and the access settings.
pub struct Ledger {
    pub deposit_token_addr: String,
    pub blacklist: Vec<String>,
    pub accounts: Vec<Account>,
    pub total: CheckpointLog,
    pub schedule: SlopeSchedule,
}

/// The point of a lock of `amount` over `dt` periods from period `start`:
/// the amount times the coefficient, rounded half up, decaying to zero over
/// the lock.
pub open spec fn lock_point(amount: nat, start: u64, dt: u64) -> Point {
    let power = rounded_mul(coefficient_atomics(dt as nat), amount);
    Point {
        power: power as u128,
        start,
        end: (start + dt) as u64,
        slope: Decimal { atomics: (power * DECIMAL_FRACTIONAL / (dt as int)) as u128 },
    }
}

/// Whether a lock of `amount` over `dt` periods can be represented: the
/// amount, its power and the power's slope as a decimal all fit in 128 bits.
pub open spec fn lock_fits(amount: nat, dt: nat) -> bool {
    let power = rounded_mul(coefficient_atomics(dt), amount);
    &&& amount <= u128::MAX
    &&& power <= u128::MAX
    &&& power * DECIMAL_FRACTIONAL / (dt as int) <= u128::MAX
}

/// The amount locked by an account, zero for an account without a lock.
pub open spec fn amount_of(accounts: Seq<Account>, addr: Seq<char>) -> nat {
    if exists|i: int| 0 <= i < accounts.len() && accounts[i].addr@ == addr {
        accounts[choose|i: int| 0 <= i < accounts.len() && accounts[i].addr@ == addr].amount as nat
    } else {
        0
    }
}

/// The checkpoint history of an account, empty for an unknown account.
pub open spec fn history_of(accounts: Seq<Account>, addr: Seq<char>) -> Seq<(u64, Point)> {
    if exists|i: int| 0 <= i < accounts.len() && accounts[i].addr@ == addr {
        accounts[choose|i: int| 0 <= i < accounts.len() && accounts[i].addr@ == addr].history@
    } else {
        Seq::empty()
    }
}

/// The slope that an account's lock still adds to the aggregate at a period:
/// that of its last checkpoint while the lock runs, else none.
pub open spec fn running_slope(accounts: Seq<Account>, addr: Seq<char>, period: u64) -> nat {
    if exists|i: int| 0 <= i < accounts.len() && accounts[i].addr@ == addr {
        let acc = accounts[choose|i: int| 0 <= i < accounts.len() && accounts[i].addr@ == addr];
        if acc.end > period {
            match last_entry(acc.history@, period) {
                None => 0,
                Some(e) => e.1.slope.atomics as nat,
            }
        } else {
            0
        }
    } else {
        0
    }
}

/// `a - b`, or zero when `b` is larger.
pub open spec fn sat_sub(a: nat, b: nat) -> nat {
    if a >= b {
        (a - b) as nat
    } else {
        0
    }
}

/// The end period of an account's lock, zero for an unknown account.
pub open spec fn end_of(accounts: Seq<Account>, addr: Seq<char>) -> u64 {
    if exists|i: int| 0 <= i < accounts.len() && accounts[i].addr@ == addr {
        accounts[choose|i: int| 0 <= i < accounts.len() && accounts[i].addr@ == addr].end
    } else {
        0
    }
}

/// A history after a write at `period`: the last entry replaced when it is
/// at the same period, else the new entry appended.
pub open spec fn written(h: Seq<(u64, Point)>, period: u64, point: Point) -> Seq<(u64, Point)> {
    if h.len() > 0 && h.last().0 == period {
        h.update(h.len() - 1, (period, point))
    } else {
        h.push((period, point))
    }
}

/// Aggregate power after an account's lock is replaced by `point` at
/// `period`: the aggregate carried to the period, less what the account had
/// (never below zero), plus the new lock's power.
pub open spec fn next_total_power(
    total: Seq<(u64, Point)>,
    schedule: Seq<(u64, Decimal)>,
    accounts: Seq<Account>,
    addr: Seq<char>,
    period: u64,
    point: Point,
) -> nat {
    let tpow: nat = match total_point(total, schedule, period) {
        None => 0,
        Some(p) => power_at(p, period as nat),
    };
    sat_sub(tpow, account_power(history_of(accounts, addr), period)) + point.power as nat
}

/// Aggregate slope after an account's lock is replaced by `point` at
/// `period`: the carried slope, less the account's running slope (never
/// below zero), plus the new lock's slope.
pub open spec fn next_total_slope(
    total: Seq<(u64, Point)>,
    schedule: Seq<(u64, Decimal)>,
    accounts: Seq<Account>,
    addr: Seq<char>,
    period: u64,
    point: Point,
) -> nat {
    let tslope: nat = match total_point(total, schedule, period) {
        None => 0,
        Some(p) => p.slope.atomics as nat,
    };
    sat_sub(tslope, running_slope(accounts, addr, period)) + point.slope.atomics as nat
}

/// The aggregate checkpoint after an account's lock is replaced by `point`
/// at `period`.
pub open spec fn next_total(
    total: Seq<(u64, Point)>,
    schedule: Seq<(u64, Decimal)>,
    accounts: Seq<Account>,
    addr: Seq<char>,
    period: u64,
    point: Point,
) -> Point {
    Point {
        power: next_total_power(total, schedule, accounts, addr, period, point) as u128,
        start: period,
        end: point.end,
        slope: Decimal {
            atomics: next_total_slope(total, schedule, accounts, addr, period, point) as u128,
        },
    }
}

/// The slope of a lock's point covers its power by the lock's end.
pub proof fn lemma_lock_point_decays(amount: nat, start: u64, dt: u64)
    requires
        1 <= dt <= MAX_LOCK_PERIODS,
        start + dt <= u64::MAX,
        lock_fits(amount, dt as nat),
    ensures
        decays_by_end(lock_point(amount, start, dt)),
{
    let point = lock_point(amount, start, dt);
    let power = rounded_mul(coefficient_atomics(dt as nat), amount);
    let d = DECIMAL_FRACTIONAL as int;
    let x = power * d;
    let q = x / (dt as int);
    lemma_fundamental_div_mod(x, dt as int);
    lemma_mod_bound(x, dt as int);
    assert(q * dt + DECIMAL_HALF >= x) by (nonlinear_arith)
        requires
            x == dt * q + x % (dt as int),
            0 <= x % (dt as int) < dt,
            dt <= 104,
    ;
    lemma_div_is_ordered(x, q * dt + DECIMAL_HALF, d);
    lemma_div_multiples_vanish(power as int, d);
    assert(point.slope.atomics == q);
    assert((point.end - point.start) as nat == dt);
}

impl Ledger {
    /// Nothing that the write path keeps changed.
    pub open spec fn same_state(&self, other: &Ledger) -> bool {
        &&& self.deposit_token_addr == other.deposit_token_addr
        &&& self.blacklist == other.blacklist
        &&& self.accounts@ == other.accounts@
        &&& self.total@ == other.total@
        &&& self.schedule@ == other.schedule@
    }

    /// Whether every sum of a lock call with these arguments fits in 128 bits:
    /// the lock's amount, power and slope, the new aggregate power and slope,
    /// and the slope scheduled at the lock's end.
    pub open spec fn lock_fits_in(
        &self,
        account: Seq<char>,
        amount_delta: nat,
        new_duration: u64,
        now: u64,
    ) -> bool {
        let period = period_of(now as nat) as u64;
        let dt = (new_duration / WEEK) as u64;
        let amount = amount_of(self.accounts@, account) + amount_delta;
        let point = lock_point(amount, period, dt);
        &&& lock_fits(amount, dt as nat)
        &&& next_total_power(self.total@, self.schedule@, self.accounts@, account, period, point)
            <= u128::MAX
        &&& next_total_slope(self.total@, self.schedule@, self.accounts@, account, period, point)
            <= u128::MAX
        &&& scheduled_at(self.schedule@, point.end) + point.slope.atomics <= u128::MAX
    }

    pub open spec fn wf(&self) -> bool {
        &&& self.total.wf()
        &&& self.schedule.wf()
        &&& forall|i: int| 0 <= i < self.accounts@.len() ==> (#[trigger] self.accounts@[i]).history.wf()
        &&& forall|i: int, j: int|
            0 <= i < j < self.accounts@.len() ==> self.accounts@[i].addr@ != self.accounts@[j].addr@
    }

    /// Whether every history ends no later than `period`, so that a write at
    /// `period` keeps them ordered.
    pub open spec fn writable_at(&self, period: u64) -> bool {
        &&& self.total@.len() > 0 ==> self.total@.last().0 <= period
        &&& forall|i: int|
            0 <= i < self.accounts@.len() && (#[trigger] self.accounts@[i]).history@.len() > 0
                ==> self.accounts@[i].history@.last().0 <= period
    }

    /// An empty ledger.
    pub fn new(deposit_token_addr: String, blacklist: Vec<String>) -> (r: Ledger)
        ensures
            r.wf(),
            r.deposit_token_addr == deposit_token_addr,
            r.blacklist == blacklist,
            r.accounts@.len() == 0,
            r.total@.len() == 0,
            r.schedule@.len() == 0,
    {
        Ledger {
            deposit_token_addr,
            blacklist,
            accounts: Vec::new(),
            total: CheckpointLog::new(),
            schedule: SlopeSchedule::new(),
        }
    }

    /// The position of an account, if it has one.
    pub fn find_account(&self, addr: &String) -> (r: Option<usize>)
        ensures
            r is Some ==> r->0 < self.accounts@.len() && self.accounts@[r->0 as int].addr@ == addr@,
            r is None ==> forall|i: int|
                0 <= i < self.accounts@.len() ==> self.accounts@[i].addr@ != addr@,
    {
        let mut i: usize = 0;
        while i < self.accounts.len()
            invariant
                i <= self.accounts@.len(),
                forall|j: int| 0 <= j < i ==> self.accounts@[j].addr@ != addr@,
            decreases self.accounts@.len() - i,
        {
            if self.accounts[i].addr == *addr {
                return Some(i);
            }
            i += 1;
        }
        None
    }

    /// Voting power of an account at a period; zero for an unknown account or
    /// a period before its first checkpoint.
    pub fn account_voting_power_at(&self, account: &String, period: u64) -> (r: u128)
        requires
            self.wf(),
        ensures
            r == account_power(history_of(self.accounts@, account@), period),
    {
        match self.find_account(account) {
            None => {
                proof {
                    assert(history_of(self.accounts@, account@) =~= Seq::<(u64, Point)>::empty());
                }
                0
            },
            Some(i) => {
                proof {
                    assert(history_of(self.accounts@, account@) == self.accounts@[i as int].history@);
                }
                voting_power_at(&self.accounts[i].history, period)
            },
        }
    }

    /// Aggregate voting power of all accounts at a period.
    pub fn total_power_at(&self, period: u64) -> (r: u128)
        requires
            self.wf(),
        ensures
            r == total_power(self.total@, self.schedule@, period),
    {
        total_voting_power_at(&self.total, &self.schedule, period)
    }

    /// Creates a lock, or adds to and re-times an existing one, as of the
    /// period of `now`: the lock then holds its earlier amount plus
    /// `amount_delta` for `new_duration` seconds' worth of whole periods. The
    /// account gets a new checkpoint, the aggregate history one too, and the
    /// lock's slope is scheduled to expire at its end (an earlier schedule
    /// of the account's still running lock is taken back). Checks, in order,
    /// that the sender is the deposit token, that the account is not
    /// blacklisted and that the duration is within limits; a failed call
    /// changes nothing.
    pub fn create_or_extend_lock(
        &mut self,
        sender: &String,
        account: &String,
        amount_delta: u128,
        new_duration: u64,
        now: u64,
    ) -> (r: Result<Point, ContractError>)
        requires
            old(self).wf(),
            old(self).writable_at(period_of(now as nat) as u64),
        ensures
            final(self).wf(),
            final(self).writable_at(period_of(now as nat) as u64),
            final(self).deposit_token_addr == old(self).deposit_token_addr,
            final(self).blacklist == old(self).blacklist,
            r is Err ==> final(self).same_state(old(self)),
            sender@ != old(self).deposit_token_addr@ ==> r is Err && r->Err_0 is Unauthorized,
            blacklisted(old(self).blacklist@, account@) ==> r is Err,
            sender@ == old(self).deposit_token_addr@ && blacklisted(old(self).blacklist@, account@)
                ==> r is Err && r->Err_0 is AddressBlacklisted && r->Err_0->AddressBlacklisted_0@
                == account@,
            sender@ == old(self).deposit_token_addr@ && !blacklisted(old(self).blacklist@, account@)
                && !lock_time_ok(new_duration as nat) ==> r is Err && r->Err_0 is LockTimeLimitsError,
            sender@ == old(self).deposit_token_addr@ && !blacklisted(old(self).blacklist@, account@)
                && lock_time_ok(new_duration as nat) ==> {
                &&& r is Ok <==> old(self).lock_fits_in(account@, amount_delta as nat, new_duration, now)
                &&& r is Err ==> r->Err_0 is ArithmeticOverflow
            },
            r is Ok ==> {
                let period = period_of(now as nat) as u64;
                let amount = (amount_of(old(self).accounts@, account@) + amount_delta) as nat;
                let point = r->Ok_0;
                let old_accounts = old(self).accounts@;
                &&& point == lock_point(amount, period, (new_duration / WEEK) as u64)
                &&& decays_by_end(point)
                &&& amount_of(final(self).accounts@, account@) == amount
                &&& end_of(final(self).accounts@, account@) == point.end
                &&& history_of(final(self).accounts@, account@) == written(
                    history_of(old_accounts, account@),
                    period,
                    point,
                )
                &&& forall|j: int|
                    0 <= j < old_accounts.len() && old_accounts[j].addr@ != account@
                        ==> final(self).accounts@[j] == old_accounts[j]
                &&& final(self).accounts@.len() >= old_accounts.len()
                &&& forall|j: int|
                    old_accounts.len() <= j < final(self).accounts@.len()
                        ==> final(self).accounts@[j].addr@ == account@
                &&& final(self).total@ == written(
                    old(self).total@,
                    period,
                    next_total(old(self).total@, old(self).schedule@, old_accounts, account@, period, point),
                )
                &&& forall|k: u64|
                    scheduled_at(final(self).schedule@, k) == {
                        let added = scheduled_at(old(self).schedule@, k) + if k == point.end {
                            point.slope.atomics as nat
                        } else {
                            0
                        };
                        if k == end_of(old_accounts, account@) {
                            sat_sub(added, running_slope(old_accounts, account@, period))
                        } else {
                            added
                        }
                    }
            },
    {
        match xastro_token_check(&self.deposit_token_addr, sender) {
            Err(e) => return Err(e),
            Ok(()) => {},
        }
        match blacklist_check(&self.blacklist, account) {
            Err(e) => return Err(e),
            Ok(()) => {},
        }
        match time_limits_check(new_duration) {
            Err(e) => return Err(e),
            Ok(()) => {},
        }
        let cur = get_period(now);
        let dt = get_period(new_duration);
        proof {
            let w = WEEK as int;
            lemma_fundamental_div_mod(now as int, w);
            lemma_mod_bound(now as int, w);
            lemma_fundamental_div_mod(new_duration as int, w);
            lemma_mod_bound(new_duration as int, w);
            assert(cur + dt <= u64::MAX && 1 <= dt <= MAX_LOCK_PERIODS) by (nonlinear_arith)
                requires
                    now == w * cur + (now as int) % w,
                    0 <= (now as int) % w < w,
                    new_duration == w * dt + (new_duration as int) % w,
                    0 <= (new_duration as int) % w < w,
                    w == 604800,
                    w <= new_duration <= 104 * w,
                    now <= u64::MAX,
            ;
        }
        let end = cur + dt;
        let idx = self.find_account(account);
        let mut old_amount: u128 = 0;
        let mut old_end: u64 = 0;
        let mut old_power: u128 = 0;
        let mut old_slope: u128 = 0;
        if let Some(i) = idx {
            old_amount = self.accounts[i].amount;
            old_end = self.accounts[i].end;
            old_power = voting_power_at(&self.accounts[i].history, cur);
            if old_end > cur {
                let last = self.accounts[i].history.last_at_or_before(cur);
                proof {
                    lemma_last_entry_unique(self.accounts@[i as int].history@, cur, last);
                }
                if let Some(e) = last {
                    old_slope = e.1.slope.atomics;
                }
            }
        }
        proof {
            if let Some(i) = idx {
                assert(amount_of(self.accounts@, account@) == old_amount);
                assert(history_of(self.accounts@, account@) == self.accounts@[i as int].history@);
                assert(running_slope(self.accounts@, account@, cur) == old_slope);
                assert(end_of(self.accounts@, account@) == old_end);
            } else {
                assert(amount_of(self.accounts@, account@) == 0);
                assert(history_of(self.accounts@, account@) =~= Seq::<(u64, Point)>::empty());
                assert(running_slope(self.accounts@, account@, cur) == 0);
            }
            assert(account_power(history_of(self.accounts@, account@), cur) == old_power);
        }
        let amount = match old_amount.checked_add(amount_delta) {
            Some(a) => a,
            None => return Err(ContractError::ArithmeticOverflow {  }),
        };
        let power = match calc_coefficient(dt).checked_mul(amount) {
            Ok(p) => p,
            Err(e) => return Err(e),
        };
        let slope = match wide_mul_div_rem(power, DECIMAL_FRACTIONAL, dt as u128) {
            Some((q, _)) => q,
            None => return Err(ContractError::ArithmeticOverflow {  }),
        };
        let point = Point { power, start: cur, end, slope: Decimal { atomics: slope } };
        proof {
            assert(point == lock_point(amount as nat, cur, dt));
            lemma_lock_point_decays(amount as nat, cur, dt);
        }
        let mut total_power: u128 = 0;
        let mut total_slope: u128 = 0;
        if let Some(p) = replay_total(&self.total, &self.schedule, cur) {
            total_power = calc_voting_power(&p, cur);
            total_slope = p.slope.atomics;
        }
        let kept_power: u128 = if total_power >= old_power { total_power - old_power } else { 0 };
        let kept_slope: u128 = if total_slope >= old_slope { total_slope - old_slope } else { 0 };
        let new_total_power = match kept_power.checked_add(power) {
            Some(p) => p,
            None => return Err(ContractError::ArithmeticOverflow {  }),
        };
        let new_total_slope = match kept_slope.checked_add(slope) {
            Some(s) => s,
            None => return Err(ContractError::ArithmeticOverflow {  }),
        };
        match self.schedule.record_expiry(end, Decimal { atomics: slope }) {
            Err(e) => return Err(e),
            Ok(()) => {},
        }
        if old_end > cur && old_slope > 0 {
            self.schedule.cancel_expiry(old_end, Decimal { atomics: old_slope });
        }
        self.total.write(
            cur,
            Point { power: new_total_power, start: cur, end, slope: Decimal { atomics: new_total_slope } },
        );
        let ghost before = self.accounts@;
        match idx {
            Some(i) => {
                let mut acc = self.accounts.remove(i);
                acc.amount = amount;
                acc.end = end;
                acc.history.write(cur, point);
                self.accounts.insert(i, acc);
                proof {
                    assert(self.accounts@ == before.update(i as int, self.accounts@[i as int]));
                    assert(self.accounts@[i as int].history@.last() == (cur, point));
                    assert(amount_of(self.accounts@, account@) == amount);
                }
            },
            None => {
                let mut history = CheckpointLog::new();
                history.write(cur, point);
                self.accounts.push(Account { addr: account.clone(), amount, end, history });
                proof {
                    let n = before.len() as int;
                    assert(self.accounts@[n].history@.last() == (cur, point));
                    assert(amount_of(self.accounts@, account@) == amount);
                }
            },
        }
        Ok(point)
    }

    /// Releases an account's locked amount once its lock has ended: the
    /// account then holds nothing and its history gets an empty checkpoint at
    /// the period of `now`. Fails with `LockNotExpired`, changing nothing,
    /// while the lock still runs; an account without a lock gets zero.
    pub fn withdraw(&mut self, account: &String, now: u64) -> (r: Result<u128, ContractError>)
        requires
            old(self).wf(),
            old(self).writable_at(period_of(now as nat) as u64),
        ensures
            final(self).wf(),
            final(self).writable_at(period_of(now as nat) as u64),
            final(self).deposit_token_addr == old(self).deposit_token_addr,
            final(self).blacklist == old(self).blacklist,
            final(self).total@ == old(self).total@,
            final(self).schedule@ == old(self).schedule@,
            (forall|i: int|
                0 <= i < old(self).accounts@.len() ==> old(self).accounts@[i].addr@ != account@) ==> r
                == Ok::<u128, ContractError>(0) && final(self).same_state(old(self)),
            forall|i: int|
                0 <= i < old(self).accounts@.len() && old(self).accounts@[i].addr@ == account@ ==> {
                    let period = period_of(now as nat) as u64;
                    let acc = old(self).accounts@[i];
                    &&& acc.end > period ==> r is Err && r->Err_0 is LockNotExpired && final(self).same_state(old(self))
                    &&& acc.end <= period ==> {
                        &&& r == Ok::<u128, ContractError>(acc.amount)
                        &&& final(self).accounts@.len() == old(self).accounts@.len()
                        &&& final(self).accounts@[i].addr == acc.addr
                        &&& final(self).accounts@[i].amount == 0
                        &&& final(self).accounts@[i].end == acc.end
                        &&& final(self).accounts@[i].history@ == written(
                            acc.history@,
                            period,
                            Point { power: 0, start: period, end: period, slope: Decimal { atomics: 0 } },
                        )
                        &&& forall|j: int|
                            0 <= j < old(self).accounts@.len() && j != i ==> final(self).accounts@[j]
                                == old(self).accounts@[j]
                    }
                },
    {
        let cur = get_period(now);
        match self.find_account(account) {
            None => Ok(0),
            Some(i) => {
                if self.accounts[i].end > cur {
                    return Err(ContractError::LockNotExpired {  });
                }
                let ghost before = self.accounts@;
                let mut acc = self.accounts.remove(i);
                let released = acc.amount;
                acc.amount = 0;
                acc.history.write(
                    cur,
                    Point { power: 0, start: cur, end: cur, slope: Decimal { atomics: 0 } },
                );
                self.accounts.insert(i, acc);
                proof {
                    assert(self.accounts@ == before.update(i as int, self.accounts@[i as int]));
                }
                Ok(released)
            },
        }
    }
}

} // verus!
