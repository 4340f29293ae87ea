use crate::decimal::Decimal;
use crate::history::{in_window, is_last_at_or_before, keys_increasing, CheckpointLog, SlopeSchedule};
use crate::point::{calc_voting_power, power_at, Point};
use vstd::prelude::*;

verus! {

/// The entry with the greatest key not above `period`, in a sequence ordered by key.
pub open spec fn last_entry<T>(s: Seq<(u64, T)>, period: u64) -> Option<(u64, T)>
    decreases s.len(),
{
    if s.len() == 0 {
        None
    } else if s.last().0 <= period {
        Some(s.last())
    } else {
        last_entry(s.drop_last(), period)
    }
}

/// Voting power of an account at a period: its last checkpoint at or before
/// the period, decayed to it; zero when there is none.
pub open spec fn account_power(log: Seq<(u64, Point)>, period: u64) -> nat {
    match last_entry(log, period) {
        None => 0,
        Some(e) => power_at(e.1, period as nat),
    }
}

/// A point carried forward to the period of a scheduled slope change: its
/// power decays to that period, and the change is taken off its slope.
pub open spec fn apply_change(point: Point, change: (u64, Decimal)) -> Point {
    Point {
        power: power_at(point, change.0 as nat) as u128,
        start: change.0,
        end: point.end,
        slope: Decimal {
            atomics: if point.slope.atomics >= change.1.atomics {
                (point.slope.atomics - change.1.atomics) as u128
            } else {
                0
            },
        },
    }
}

/// A point carried forward through a sequence of slope changes, in order.
pub open spec fn replay(point: Point, changes: Seq<(u64, Decimal)>) -> Point
    decreases changes.len(),
{
    if changes.len() == 0 {
        point
    } else {
        apply_change(replay(point, changes.drop_last()), changes.last())
    }
}

/// Aggregate voting power at a period: the last aggregate checkpoint at or
/// before the period, carried through every slope change after it up to and
/// including the period, then decayed to the period.
pub open spec fn total_power(
    total: Seq<(u64, Point)>,
    schedule: Seq<(u64, Decimal)>,
    period: u64,
) -> nat {
    match last_entry(total, period) {
        None => 0,
        Some(e) => power_at(replay(e.1, schedule.filter(in_window(e.1.start, period))), period as nat),
    }
}

/// In a sequence ordered by key, the entry with the greatest key not above a
/// period is unique.
pub proof fn lemma_last_entry_unique<T>(s: Seq<(u64, T)>, period: u64, r: Option<(u64, T)>)
    requires
        keys_increasing(s),
        is_last_at_or_before(s, period, r),
    ensures
        r == last_entry(s, period),
    decreases s.len(),
{
    if s.len() > 0 {
        let n = s.len() - 1;
        if s.last().0 <= period {
            if let Some(e) = r {
                let k = choose|k: int| 0 <= k < s.len() && s[k] == e;
                assert(s[n].0 <= e.0);
                if k < n {
                    assert(s[k].0 < s[n].0);
                }
            } else {
                assert(s[n].0 > period);
            }
        } else {
            let t = s.drop_last();
            if let Some(e) = r {
                let k = choose|k: int| 0 <= k < s.len() && s[k] == e;
                assert(k != n);
                assert(t[k] == e);
            }
            lemma_last_entry_unique(t, period, r);
        }
    }
}

/// Voting power of an account at a period, from its checkpoint history; zero
/// when the history starts later.
pub fn voting_power_at(log: &CheckpointLog, period: u64) -> (r: u128)
    requires
        log.wf(),
    ensures
        r == account_power(log@, period),
{
    let last = log.last_at_or_before(period);
    proof {
        lemma_last_entry_unique(log@, period, last);
    }
    match last {
        None => 0,
        Some(e) => {
            proof {
                let k = choose|k: int| 0 <= k < log@.len() && log@[k] == e;
                assert(log@[k].1.start == log@[k].0);
            }
            calc_voting_power(&e.1, period)
        },
    }
}

/// Voting power of an account is a function of its history and the period:
/// asking twice with the history unchanged gives the same answer.
pub proof fn lemma_voting_power_repeatable(a: Seq<(u64, Point)>, b: Seq<(u64, Point)>, period: u64)
    requires
        a == b,
    ensures
        account_power(a, period) == account_power(b, period),
{
}

/// The aggregate checkpoint carried forward to a period: the last aggregate
/// checkpoint at or before it, through every slope change after it up to and
/// including the period; none when the aggregate history starts later.
pub open spec fn total_point(
    total: Seq<(u64, Point)>,
    schedule: Seq<(u64, Decimal)>,
    period: u64,
) -> Option<Point> {
    match last_entry(total, period) {
        None => None,
        Some(e) => Some(replay(e.1, schedule.filter(in_window(e.1.start, period)))),
    }
}

/// Carries the aggregate checkpoint forward to a period, applying each
/// scheduled slope change once.
pub fn replay_total(total: &CheckpointLog, schedule: &SlopeSchedule, period: u64) -> (r: Option<Point>)
    requires
        total.wf(),
        schedule.wf(),
    ensures
        r == total_point(total@, schedule@, period),
        r is Some ==> r->0.start <= period,
{
    let last = total.last_at_or_before(period);
    proof {
        lemma_last_entry_unique(total@, period, last);
    }
    match last {
        None => None,
        Some(e) => {
            let point = e.1;
            proof {
                let k = choose|k: int| 0 <= k < total@.len() && total@[k] == e;
                assert(total@[k].1.start == total@[k].0);
            }
            let changes = schedule.range(point.start, period);
            let mut cur = point;
            let mut i: usize = 0;
            while i < changes.len()
                invariant
                    i <= changes@.len(),
                    keys_increasing(changes@),
                    forall|k: int|
                        0 <= k < changes@.len() ==> point.start < (#[trigger] changes@[k]).0
                            <= period,
                    point.start <= period,
                    cur == replay(point, changes@.take(i as int)),
                    i == 0 ==> cur.start == point.start,
                    i > 0 ==> cur.start == changes@[i - 1].0,
                decreases changes@.len() - i,
            {
                let change = changes[i];
                proof {
                    assert(changes@.take(i + 1).drop_last() == changes@.take(i as int));
                    if i > 0 {
                        assert(changes@[i - 1].0 < changes@[i as int].0);
                    }
                }
                let power = calc_voting_power(&cur, change.0);
                let slope: u128 = if cur.slope.atomics >= change.1.atomics {
                    cur.slope.atomics - change.1.atomics
                } else {
                    0
                };
                cur = Point { power, start: change.0, end: cur.end, slope: Decimal { atomics: slope } };
                i += 1;
            }
            proof {
                assert(changes@.take(changes@.len() as int) == changes@);
            }
            Some(cur)
        },
    }
}

/// Aggregate voting power at a period: replays the scheduled slope changes
/// from the last aggregate checkpoint up to the period, applying each once.
pub fn total_voting_power_at(total: &CheckpointLog, schedule: &SlopeSchedule, period: u64) -> (r:
    u128)
    requires
        total.wf(),
        schedule.wf(),
    ensures
        r == total_power(total@, schedule@, period),
{
    match replay_total(total, schedule, period) {
        None => 0,
        Some(point) => calc_voting_power(&point, period),
    }
}

} // verus!
