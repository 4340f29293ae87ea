use crate::decimal::Decimal;
use crate::error::ContractError;
use crate::point::Point;
use vstd::prelude::*;

verus! {

/// Keys strictly increase along the sequence.
pub open spec fn keys_increasing<T>(s: Seq<(u64, T)>) -> bool {
    forall|i: int, j: int| 0 <= i < j < s.len() ==> s[i].0 < s[j].0
}

/// The entry with the greatest key not above `period`, if any.
pub open spec fn is_last_at_or_before<T>(s: Seq<(u64, T)>, period: u64, r: Option<(u64, T)>) -> bool {
    match r {
        None => forall|i: int| 0 <= i < s.len() ==> s[i].0 > period,
        Some(e) => {
            &&& s.contains(e)
            &&& e.0 <= period
            &&& forall|i: int| 0 <= i < s.len() && s[i].0 <= period ==> s[i].0 <= e.0
        },
    }
}

/// One account's history of checkpoints, ordered by period, at most one per
/// period.
pub struct CheckpointLog {
    pub entries: Vec<(u64, Point)>,
}

impl View for CheckpointLog {
    type V = Seq<(u64, Point)>;

    open spec fn view(&self) -> Seq<(u64, Point)> {
        self.entries@
    }
}

impl CheckpointLog {
    pub open spec fn wf(&self) -> bool {
        &&& keys_increasing(self@)
        &&& forall|i: int| 0 <= i < self@.len() ==> (#[trigger] self@[i]).1.start == self@[i].0
    }

    /// An empty history.
    pub fn new() -> (r: CheckpointLog)
        ensures
            r.wf(),
            r@.len() == 0,
    {
        CheckpointLog { entries: Vec::new() }
    }

    /// Records a checkpoint at a period no earlier than the last one; a
    /// second write in the same period replaces the first.
    pub fn write(&mut self, period: u64, point: Point)
        requires
            old(self).wf(),
            point.start == period,
            old(self)@.len() > 0 ==> old(self)@.last().0 <= period,
        ensures
            final(self).wf(),
            old(self)@.len() > 0 && old(self)@.last().0 == period ==> final(self)@ == old(self)@.update(old(self)@.len() - 1, (period, point)),
            !(old(self)@.len() > 0 && old(self)@.last().0 == period) ==> final(self)@ == old(self)@.push((period, point)),
    {
        let n = self.entries.len();
        if n > 0 && self.entries[n - 1].0 == period {
            self.entries.set(n - 1, (period, point));
        } else {
            self.entries.push((period, point));
        }
    }

    /// The checkpoint with the greatest period not above `period`, or none
    /// when the history starts later.
    pub fn last_at_or_before(&self, period: u64) -> (r: Option<(u64, Point)>)
        requires
            self.wf(),
        ensures
            is_last_at_or_before(self@, period, r),
    {
        let mut i: usize = self.entries.len();
        while i > 0
            invariant
                self.wf(),
                i <= self@.len(),
                forall|j: int| i <= j < self@.len() ==> self@[j].0 > period,
            decreases i,
        {
            let e = self.entries[i - 1];
            if e.0 <= period {
                assert(self@[i - 1] == e);
                return Some(e);
            }
            i -= 1;
        }
        None
    }
}

/// The schedule of aggregate slope reductions, keyed by the period in which
/// locks expire, ordered by period, at most one entry per period.
pub struct SlopeSchedule {
    pub entries: Vec<(u64, Decimal)>,
}

impl View for SlopeSchedule {
    type V = Seq<(u64, Decimal)>;

    open spec fn view(&self) -> Seq<(u64, Decimal)> {
        self.entries@
    }
}

/// The reduction scheduled at a period, zero when there is none.
pub open spec fn scheduled_at(s: Seq<(u64, Decimal)>, period: u64) -> nat {
    if exists|i: int| 0 <= i < s.len() && s[i].0 == period {
        s[choose|i: int| 0 <= i < s.len() && s[i].0 == period].1.atomics as nat
    } else {
        0
    }
}

/// In a schedule ordered by period, the entry at a period is the one found there.
pub proof fn lemma_scheduled_at(s: Seq<(u64, Decimal)>, i: int)
    requires
        keys_increasing(s),
        0 <= i < s.len(),
    ensures
        scheduled_at(s, s[i].0) == s[i].1.atomics,
{
    let k = choose|k: int| 0 <= k < s.len() && s[k].0 == s[i].0;
    if k < i {
        assert(s[k].0 < s[i].0);
    } else if k > i {
        assert(s[i].0 < s[k].0);
    }
}

/// Whether an entry's period lies in `(from, to]`.
pub open spec fn in_window(from: u64, to: u64) -> spec_fn((u64, Decimal)) -> bool {
    |e: (u64, Decimal)| from < e.0 && e.0 <= to
}

/// Entries that the predicate rejects leave the filtered prefix as it was.
proof fn lemma_filter_rejects(s: Seq<(u64, Decimal)>, f: spec_fn((u64, Decimal)) -> bool, i: int, n: int)
    requires
        0 <= i <= n <= s.len(),
        forall|j: int| i <= j < n ==> !f(#[trigger] s[j]),
    ensures
        s.take(n).filter(f) == s.take(i).filter(f),
    decreases n - i,
{
    if n > i {
        lemma_filter_rejects(s, f, i, n - 1);
        assert(s.take(n) == s.take(n - 1).push(s[n - 1]));
        s.take(n - 1).lemma_filter_push(s[n - 1], f);
    }
}

impl SlopeSchedule {
    pub open spec fn wf(&self) -> bool {
        keys_increasing(self@)
    }

    /// The position of the first entry at or after `period`, found by binary
    /// search.
    pub fn first_at_least(&self, period: u64) -> (r: usize)
        requires
            self.wf(),
        ensures
            r <= self@.len(),
            forall|j: int| 0 <= j < r ==> self@[j].0 < period,
            forall|j: int| r <= j < self@.len() ==> self@[j].0 >= period,
    {
        let mut lo: usize = 0;
        let mut hi: usize = self.entries.len();
        while lo < hi
            invariant
                self.wf(),
                lo <= hi <= self@.len(),
                forall|j: int| 0 <= j < lo ==> self@[j].0 < period,
                forall|j: int| hi <= j < self@.len() ==> self@[j].0 >= period,
            decreases hi - lo,
        {
            let mid = lo + (hi - lo) / 2;
            if self.entries[mid].0 < period {
                proof {
                    assert forall|j: int| 0 <= j <= mid implies self@[j].0 < period by {
                        if j < mid {
                            assert(self@[j].0 < self@[mid as int].0);
                        }
                    }
                }
                lo = mid + 1;
            } else {
                proof {
                    assert forall|j: int| mid <= j < self@.len() implies self@[j].0 >= period by {
                        if j > mid {
                            assert(self@[mid as int].0 < self@[j].0);
                        }
                    }
                }
                hi = mid;
            }
        }
        lo
    }

    /// An empty schedule.
    pub fn new() -> (r: SlopeSchedule)
        ensures
            r.wf(),
            r@.len() == 0,
    {
        SlopeSchedule { entries: Vec::new() }
    }

    /// Adds `delta` to the reduction scheduled at `period`, creating the entry
    /// when there is none; fails, changing nothing, when the sum overflows.
    pub fn record_expiry(&mut self, period: u64, delta: Decimal) -> (r: Result<(), ContractError>)
        requires
            old(self).wf(),
        ensures
            final(self).wf(),
            r is Err ==> final(self)@ == old(self)@ && r->Err_0 is ArithmeticOverflow,
            r is Ok <==> scheduled_at(old(self)@, period) + delta.atomics <= u128::MAX,
            r is Ok ==> forall|k: u64|
                scheduled_at(final(self)@, k) == scheduled_at(old(self)@, k) + if k == period {
                    delta.atomics as nat
                } else {
                    0
                },
            (forall|i: int| 0 <= i < old(self)@.len() ==> old(self)@[i].0 != period) ==> {
                &&& r is Ok
                &&& final(self)@.len() == old(self)@.len() + 1
                &&& forall|e: (u64, Decimal)|
                    final(self)@.contains(e) <==> (old(self)@.contains(e) || e == (period, delta))
            },
            forall|i: int|
                0 <= i < old(self)@.len() && old(self)@[i].0 == period ==> {
                    &&& (r is Ok <==> old(self)@[i].1.atomics + delta.atomics <= u128::MAX)
                    &&& r is Ok ==> final(self)@ == old(self)@.update(
                        i,
                        (period, (Decimal { atomics: (old(self)@[i].1.atomics + delta.atomics) as u128 })),
                    )
                },
    {
        let n = self.entries.len();
        let pos = self.first_at_least(period);
        if pos < n && self.entries[pos].0 == period {
            let cur = self.entries[pos].1;
            let ghost before = self@;
            proof {
                lemma_scheduled_at(before, pos as int);
            }
            if cur.atomics > u128::MAX - delta.atomics {
                return Err(ContractError::ArithmeticOverflow {  });
            }
            self.entries.set(pos, (period, Decimal { atomics: cur.atomics + delta.atomics }));
            proof {
                assert forall|j: int| 0 <= j < self@.len() implies self@[j].0 == before[j].0 by {}
                assert(keys_increasing(self@));
                assert forall|k: u64|
                    scheduled_at(self@, k) == scheduled_at(before, k) + if k == period {
                        delta.atomics as nat
                    } else {
                        0
                    } by {
                    if exists|j: int| 0 <= j < before.len() && before[j].0 == k {
                        let j = choose|j: int| 0 <= j < before.len() && before[j].0 == k;
                        lemma_scheduled_at(before, j);
                        lemma_scheduled_at(self@, j);
                    } else {
                        assert forall|j: int| 0 <= j < self@.len() implies self@[j].0 != k by {
                            assert(self@[j].0 == before[j].0);
                        }
                    }
                }
            }
            Ok(())
        } else {
            let ghost before = self@;
            self.entries.insert(pos, (period, delta));
            proof {
                assert forall|j: int| 0 <= j < before.len() implies before[j].0 != period by {
                    if j >= pos {
                        assert(before[j].0 >= before[pos as int].0);
                    }
                }
                assert forall|e: (u64, Decimal)|
                    self@.contains(e) <==> (before.contains(e) || e == (period, delta)) by {
                    if self@.contains(e) {
                        let k = choose|k: int| 0 <= k < self@.len() && self@[k] == e;
                        if k < pos {
                            assert(before[k] == e);
                        } else if k > pos {
                            assert(before[k - 1] == e);
                        } else {
                            assert(self@[pos as int] == (period, delta));
                        }
                    }
                    if before.contains(e) {
                        let k = choose|k: int| 0 <= k < before.len() && before[k] == e;
                        if k < pos {
                            assert(self@[k] == e);
                        } else {
                            assert(self@[k + 1] == e);
                        }
                    }
                    if e == (period, delta) {
                        assert(self@[pos as int] == e);
                    }
                }
                assert(before == old(self)@);
                assert(forall|e: (u64, Decimal)|
                    self@.contains(e) <==> (old(self)@.contains(e) || e == (period, delta)));
                assert forall|k: u64|
                    scheduled_at(self@, k) == scheduled_at(before, k) + if k == period {
                        delta.atomics as nat
                    } else {
                        0
                    } by {
                    if k == period {
                        lemma_scheduled_at(self@, pos as int);
                    } else if exists|j: int| 0 <= j < before.len() && before[j].0 == k {
                        let j = choose|j: int| 0 <= j < before.len() && before[j].0 == k;
                        lemma_scheduled_at(before, j);
                        if j < pos {
                            assert(self@[j] == before[j]);
                            lemma_scheduled_at(self@, j);
                        } else {
                            assert(self@[j + 1] == before[j]);
                            lemma_scheduled_at(self@, j + 1);
                        }
                    } else {
                        assert forall|j: int| 0 <= j < self@.len() implies self@[j].0 != k by {
                            if j < pos {
                                assert(self@[j] == before[j]);
                            } else if j > pos {
                                assert(self@[j] == before[j - 1]);
                            }
                        }
                    }
                }
            }
            Ok(())
        }
    }

    /// Takes `delta` off the reduction scheduled at `period`, never below
    /// zero; without an entry at that period nothing changes.
    pub fn cancel_expiry(&mut self, period: u64, delta: Decimal)
        requires
            old(self).wf(),
        ensures
            final(self).wf(),
            forall|k: u64|
                scheduled_at(final(self)@, k) == if k == period {
                    if scheduled_at(old(self)@, k) >= delta.atomics {
                        (scheduled_at(old(self)@, k) - delta.atomics) as nat
                    } else {
                        0
                    }
                } else {
                    scheduled_at(old(self)@, k)
                },
            (forall|i: int| 0 <= i < old(self)@.len() ==> old(self)@[i].0 != period) ==> final(self)@ == old(self)@,
            forall|i: int|
                0 <= i < old(self)@.len() && old(self)@[i].0 == period ==> final(self)@ == old(self)@.update(
                    i,
                    (period, (Decimal {
                        atomics: if old(self)@[i].1.atomics >= delta.atomics {
                            (old(self)@[i].1.atomics - delta.atomics) as u128
                        } else {
                            0
                        },
                    })),
                ),
    {
        let n = self.entries.len();
        let pos = self.first_at_least(period);
        if pos < n && self.entries[pos].0 == period {
            let cur = self.entries[pos].1;
            let left: u128 = if cur.atomics >= delta.atomics {
                cur.atomics - delta.atomics
            } else {
                0
            };
            let ghost before = self@;
            self.entries.set(pos, (period, Decimal { atomics: left }));
            proof {
                assert forall|i: int|
                    0 <= i < before.len() && before[i].0 == period implies i == pos by {
                    if i < pos {
                        assert(before[i].0 < before[pos as int].0);
                    } else if i > pos {
                        assert(before[pos as int].0 < before[i].0);
                    }
                }
                assert forall|j: int| 0 <= j < self@.len() implies self@[j].0 == before[j].0 by {}
                assert(keys_increasing(self@));
                lemma_scheduled_at(before, pos as int);
                lemma_scheduled_at(self@, pos as int);
                assert forall|k: u64| k != period implies scheduled_at(self@, k) == scheduled_at(
                    before,
                    k,
                ) by {
                    if exists|j: int| 0 <= j < before.len() && before[j].0 == k {
                        let j = choose|j: int| 0 <= j < before.len() && before[j].0 == k;
                        lemma_scheduled_at(before, j);
                        lemma_scheduled_at(self@, j);
                    } else {
                        assert forall|j: int| 0 <= j < self@.len() implies self@[j].0 != k by {
                            assert(self@[j].0 == before[j].0);
                        }
                    }
                }
            }
        } else {
            proof {
                assert forall|j: int| 0 <= j < self@.len() implies self@[j].0 != period by {
                    if j > pos {
                        assert(self@[pos as int].0 < self@[j].0);
                    }
                }
            }
        }
    }

    /// The entries whose period lies in `(from, to]`, in order.
    pub fn range(&self, from: u64, to: u64) -> (r: Vec<(u64, Decimal)>)
        requires
            self.wf(),
        ensures
            r@ == self@.filter(in_window(from, to)),
            keys_increasing(r@),
            forall|i: int| 0 <= i < r@.len() ==> from < (#[trigger] r@[i]).0 <= to,
    {
        let mut r: Vec<(u64, Decimal)> = Vec::new();
        let n = self.entries.len();
        if from == u64::MAX {
            proof {
                lemma_filter_rejects(self@, in_window(from, to), 0, n as int);
                assert(self@.take(n as int) == self@);
                assert(self@.take(0) == Seq::<(u64, Decimal)>::empty());
            }
            return r;
        }
        let mut i: usize = self.first_at_least(from + 1);
        proof {
            lemma_filter_rejects(self@, in_window(from, to), 0, i as int);
            assert(self@.take(0) == Seq::<(u64, Decimal)>::empty());
        }
        while i < n && self.entries[i].0 <= to
            invariant
                self.wf(),
                n == self@.len(),
                i <= n,
                r@ == self@.take(i as int).filter(in_window(from, to)),
                keys_increasing(r@),
                forall|k: int| 0 <= k < r@.len() ==> from < (#[trigger] r@[k]).0 <= to,
                forall|k: int| 0 <= k < r@.len() && i < n ==> (#[trigger] r@[k]).0 < self@[i as int].0,
                forall|j: int| i <= j < n ==> self@[j].0 > from,
            decreases n - i,
        {
            let e = self.entries[i];
            proof {
                assert(self@.take(i + 1) == self@.take(i as int).push(e));
                self@.take(i as int).lemma_filter_push(e, in_window(from, to));
            }
            r.push(e);
            i += 1;
            proof {
                if i < n {
                    assert(e.0 < self@[i as int].0);
                }
            }
        }
        proof {
            assert forall|j: int| i <= j < n implies !in_window(from, to)(#[trigger] self@[j]) by {
                if j > i {
                    assert(self@[i as int].0 < self@[j].0);
                }
            }
            lemma_filter_rejects(self@, in_window(from, to), i as int, n as int);
        }
        assert(self@.take(self@.len() as int) == self@);
        r
    }
}

} // verus!
