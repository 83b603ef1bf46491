//! A trigger that fires at a fixed cadence on a monotonic clock.

use vstd::arithmetic::div_mod::lemma_fundamental_div_mod;
use vstd::prelude::*;

verus! {

/// A point on the monotonic clock.
#[verifier::external_type_specification]
#[verifier::external_body]
pub struct ExInstant(std::time::Instant);

/// Reads the clock with `std::time::Instant::now`. Nothing is promised of
/// the reading.
#[verifier::external_body]
fn clock_now() -> std::time::Instant {
    std::time::Instant::now()
}

/// Calls `std::time::Instant::elapsed`: the time that has passed on the
/// clock since `origin`. Nothing is promised of it.
#[verifier::external_body]
fn elapsed_since(origin: &std::time::Instant) -> std::time::Duration {
    origin.elapsed()
}

/// Calls `std::time::Duration::as_nanos`: the whole of `span` in
/// nanoseconds. Nothing is promised of the number.
#[verifier::external_body]
fn nanos_of(span: &std::time::Duration) -> u128 {
    span.as_nanos()
}

/// Whether a reading of `now` finds the deadline `next` reached.
pub open spec fn is_due(next: nat, now: nat) -> bool {
    now >= next
}

/// The deadline after the clock was read at `now`: one period later if the
/// deadline was reached, else the same. However late the reading is, the
/// deadline moves by one period only.
pub open spec fn next_deadline(next: nat, period: nat, now: nat) -> nat {
    if is_due(next, now) {
        next + period
    } else {
        next
    }
}

/// What a reading of `now` answers and leaves as the deadline of a machine
/// whose clock ends at `u64::MAX`: whether the deadline `next` was reached,
/// and the deadline after it, which stays at the end of the clock where it
/// would pass it.
pub open spec fn reading(next: nat, period: nat, now: nat) -> (bool, nat) {
    (
        is_due(next, now),
        if next_deadline(next, period, now) <= u64::MAX {
            next_deadline(next, period, now)
        } else {
            u64::MAX as nat
        },
    )
}

/// The deadline after the clock was read at each of `readings` in turn,
/// starting from the deadline `next`.
pub open spec fn deadline_after(next: nat, period: nat, readings: Seq<nat>) -> nat
    decreases readings.len(),
{
    if readings.len() == 0 {
        next
    } else {
        next_deadline(deadline_after(next, period, readings.drop_last()), period, readings.last())
    }
}

/// How often the trigger fired when the clock was read at each of
/// `readings` in turn, starting from the deadline `next`.
pub open spec fn fire_count(next: nat, period: nat, readings: Seq<nat>) -> nat
    decreases readings.len(),
{
    if readings.len() == 0 {
        0
    } else {
        let earlier = fire_count(next, period, readings.drop_last());
        if is_due(deadline_after(next, period, readings.drop_last()), readings.last()) {
            earlier + 1
        } else {
            earlier
        }
    }
}

/// Whether `readings` never go back, start no earlier than `start`, and
/// lie at most `gap` apart, the first at most `gap` after `start`.
pub open spec fn steady(start: nat, gap: nat, readings: Seq<nat>) -> bool {
    &&& forall|i: int| 0 <= i < readings.len() ==> start <= #[trigger] readings[i]
    &&& forall|i: int, j: int| 0 <= i <= j < readings.len() ==> readings[i] <= readings[j]
    &&& readings.len() > 0 ==> readings[0] <= start + gap
    &&& forall|i: int|
        0 < i < readings.len() ==> #[trigger] readings[i] <= readings[i - 1] + gap
}

/// The deadline is the first one plus one period for each firing.
pub proof fn lemma_deadline_counts_fires(next: nat, period: nat, readings: Seq<nat>)
    ensures
        deadline_after(next, period, readings) == next + fire_count(next, period, readings)
            * period,
    decreases readings.len(),
{
    if readings.len() > 0 {
        lemma_deadline_counts_fires(next, period, readings.drop_last());
        let earlier = fire_count(next, period, readings.drop_last());
        let before = deadline_after(next, period, readings.drop_last());
        assert(before == next + earlier * period);
        assert((earlier + 1) * period == earlier * period + period) by (nonlinear_arith);
        if is_due(before, readings.last()) {
            assert(fire_count(next, period, readings) == earlier + 1);
            assert(deadline_after(next, period, readings) == before + period);
        } else {
            assert(fire_count(next, period, readings) == earlier);
            assert(deadline_after(next, period, readings) == before);
        }
    } else {
        assert(0 * period == 0) by (nonlinear_arith);
    }
}

/// Each firing is backed by a full period of clock time: with the first
/// deadline one period after `start`, `k` firings need a reading at
/// `start + k * period` or later.
pub proof fn lemma_fires_are_paid(start: nat, period: nat, readings: Seq<nat>)
    requires
        forall|i: int, j: int| 0 <= i <= j < readings.len() ==> readings[i] <= readings[j],
        readings.len() > 0,
    ensures
        fire_count(start + period, period, readings) > 0 ==> start + fire_count(
            start + period,
            period,
            readings,
        ) * period <= readings.last(),
    decreases readings.len(),
{
    let next = start + period;
    let front = readings.drop_last();
    let earlier = fire_count(next, period, front);
    lemma_deadline_counts_fires(next, period, front);
    if is_due(deadline_after(next, period, front), readings.last()) {
        assert((earlier + 1) * period == earlier * period + period) by (nonlinear_arith);
    } else if front.len() > 0 {
        assert forall|i: int, j: int| 0 <= i <= j < front.len() implies front[i] <= front[j] by {
            assert(front[i] == readings[i] && front[j] == readings[j]);
        }
        lemma_fires_are_paid(start, period, front);
        assert(front.last() == readings[front.len() - 1]);
    }
}

/// Where the clock is read at least once per period, the deadline is never
/// more than one period behind the last reading.
pub proof fn lemma_deadline_keeps_up(start: nat, period: nat, readings: Seq<nat>)
    requires
        period > 0,
        steady(start, period, readings),
        readings.len() > 0,
    ensures
        readings.last() < deadline_after(start + period, period, readings) + period,
    decreases readings.len(),
{
    let next = start + period;
    let front = readings.drop_last();
    if front.len() > 0 {
        assert(steady(start, period, front)) by {
            assert forall|i: int| 0 <= i < front.len() implies start <= #[trigger] front[i] by {
                assert(front[i] == readings[i]);
            }
            assert forall|i: int, j: int| 0 <= i <= j < front.len() implies front[i]
                <= front[j] by {
                assert(front[i] == readings[i] && front[j] == readings[j]);
            }
            assert(front[0] == readings[0]);
            assert forall|i: int| 0 < i < front.len() implies #[trigger] front[i] <= front[i
                - 1] + period by {
                assert(front[i] == readings[i] && front[i - 1] == readings[i - 1]);
            }
        }
        lemma_deadline_keeps_up(start, period, front);
        assert(front.last() == readings[readings.len() - 2]);
        assert(readings.last() == readings[readings.len() - 1]);
        assert(readings[readings.len() - 1] <= readings[readings.len() - 2] + period);
        let before = deadline_after(next, period, front);
        assert(deadline_after(next, period, readings) == next_deadline(
            before,
            period,
            readings.last(),
        ));
    } else {
        assert(readings.last() == readings[0]);
        assert(deadline_after(next, period, front) == next);
        assert(deadline_after(next, period, readings) == next_deadline(
            next,
            period,
            readings.last(),
        ));
    }
}

/// Over a run of length `T` with period `period`, read at least once per
/// period, the trigger fires `T / period` times or once less.
pub proof fn lemma_fire_count_tracks_time(start: nat, period: nat, readings: Seq<nat>)
    requires
        period > 0,
        steady(start, period, readings),
        readings.len() > 0,
    ensures
        (readings.last() - start) / (period as int) - 1 <= fire_count(
            start + period,
            period,
            readings,
        ) <= (readings.last() - start) / (period as int),
{
    let next = start + period;
    let k = fire_count(next, period, readings);
    let run = readings.last() - start;
    let p = period as int;
    assert(start <= readings[readings.len() - 1]);
    lemma_deadline_counts_fires(next, period, readings);
    lemma_deadline_keeps_up(start, period, readings);
    lemma_fires_are_paid(start, period, readings);
    // k * p <= run < (k + 2) * p
    assert(k * p <= run) by {
        if k == 0 {
            assert(0 * p == 0) by (nonlinear_arith);
        }
    }
    assert(run < (k + 2) * p) by {
        assert((k + 2) * p == k * p + p + p) by (nonlinear_arith);
    }
    lemma_fundamental_div_mod(run, p);
    let q = run / p;
    assert(k <= q) by {
        if k > q {
            assert(k * p >= (q + 1) * p) by (nonlinear_arith)
                requires
                    k >= q + 1,
                    p > 0,
            ;
            assert((q + 1) * p == q * p + p) by (nonlinear_arith);
            assert(p * q == q * p) by (nonlinear_arith);
        }
    }
    assert(q - 1 <= k) by {
        if q > k + 1 {
            assert(q * p >= (k + 2) * p) by (nonlinear_arith)
                requires
                    q >= k + 2,
                    p > 0,
            ;
            assert(p * q == q * p) by (nonlinear_arith);
        }
    }
}

/// A trigger with a fixed period, in nanoseconds of a monotonic clock that
/// starts when the machine is made.
pub struct TickMachine {
    origin: std::time::Instant,
    period: u64,
    next: u64,
}

impl TickMachine {
    /// The period in nanoseconds.
    pub closed spec fn period(&self) -> nat {
        self.period as nat
    }

    /// The next deadline in nanoseconds since the machine was made.
    pub closed spec fn next(&self) -> nat {
        self.next as nat
    }

    /// A machine whose first deadline is one period from now.
    pub fn new(period_nanos: u64) -> (m: Self)
        ensures
            m.period() == period_nanos,
            m.next() == period_nanos,
    {
        TickMachine { origin: clock_now(), period: period_nanos, next: period_nanos }
    }

    /// Whether the deadline is reached at `now` nanoseconds since the
    /// machine was made. If it is, the deadline moves on by one period,
    /// however late `now` is; a deadline that would pass the end of the
    /// clock stays at its end.
    pub fn tick_at(&mut self, now: u64) -> (fired: bool)
        ensures
            fired == is_due(old(self).next(), now as nat),
            final(self).period() == old(self).period(),
            final(self).next() == if next_deadline(
                old(self).next(),
                old(self).period(),
                now as nat,
            ) <= u64::MAX {
                next_deadline(old(self).next(), old(self).period(), now as nat)
            } else {
                u64::MAX as nat
            },
    {
        if now >= self.next {
            self.next = if self.period <= u64::MAX - self.next {
                self.next + self.period
            } else {
                u64::MAX
            };
            true
        } else {
            false
        }
    }

    /// Reads the clock and says whether the periodic work is due now; at
    /// most once per call, and the deadline then moves on by one period.
    /// The answer and the new deadline are those of `tick_at` for the
    /// reading that the clock gave.
    pub fn tick(&mut self) -> (fired: bool)
        ensures
            final(self).period() == old(self).period(),
            fired ==> final(self).next() == old(self).next() + old(self).period()
                || final(self).next() == u64::MAX,
            !fired ==> final(self).next() == old(self).next(),
            exists|now: u64| #[trigger]
                reading(old(self).next(), old(self).period(), now as nat) == (
                    fired,
                    final(self).next(),
                ),
    {
        let span = elapsed_since(&self.origin);
        let nanos = nanos_of(&span);
        let now: u64 = if nanos > u64::MAX as u128 {
            u64::MAX
        } else {
            nanos as u64
        };
        let fired = self.tick_at(now);
        assert(reading(old(self).next(), old(self).period(), now as nat) == (fired, self.next()));
        fired
    }
}

} // verus!
