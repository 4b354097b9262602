//! Clocks.

use crate::call::{result_of, result_of_one, result_of_two};
use std::time::{Duration, Instant};
use vstd::prelude::*;

verus! {

/// A reading of the monotonic clock, as `std::time::Instant`. It is carried through unread.
#[verifier::external_type_specification]
#[verifier::external_body]
pub struct ExInstant(Instant);

/// `Instant::now` reads the monotonic clock. Nothing is claimed of the reading.
pub assume_specification[ Instant::now ]() -> (r: Instant)
;

/// `Instant::saturating_duration_since` gives the time from an earlier reading to a later one,
/// and none at all where the two are the other way round. How long it is rests on the clock.
pub assume_specification[ Instant::saturating_duration_since ](
    later: &Instant,
    earlier: Instant,
) -> (r: Duration)
;

/// `Duration::as_nanos` counts the nanoseconds. A duration has fewer than two to the 64th whole
/// seconds, which bounds their number. How many there are is left unsaid: the durations here come
/// from the clock.
pub assume_specification[ Duration::as_nanos ](duration: &Duration) -> (r: u128)
    ensures
        r < NANOS_LIMIT,
;

/// More nanoseconds than any duration has.
pub const NANOS_LIMIT: u128 = 18_446_744_073_709_551_616_000_000_000;

/// The number is the count of nanoseconds that the standard library gives from one reading of the
/// clock to a later one.
pub open spec fn counted(earlier: Instant, later: Instant, nanos: int) -> bool {
    exists|gone: Duration, n: u128|
        #![trigger call_ensures(Duration::as_nanos, (&gone,), n)]
        {
            &&& call_ensures(Instant::saturating_duration_since, (&later, earlier), gone)
            &&& call_ensures(Duration::as_nanos, (&gone,), n)
            &&& nanos == n
        }
}

/// The nanoseconds from one reading of the clock to a later one.
pub(crate) fn nanos_between(earlier: &Instant, later: &Instant) -> (r: u128)
    ensures
        r < NANOS_LIMIT,
        counted(*earlier, *later, r as int),
{
    let gone: Duration = result_of_two(Instant::saturating_duration_since, later, *earlier);
    let r: u128 = result_of_one(Duration::as_nanos, &gone);
    assert(call_ensures(Duration::as_nanos, (&gone,), r));
    r
}

/// What a clock that was started then, and read this before, reads by a reading of the monotonic
/// clock: the nanoseconds between the two, but nothing less than before.
pub open spec fn reads_clock(started: Instant, before: int, r: int) -> bool {
    exists|now: Instant, nanos: int|
        {
            &&& call_ensures(Instant::now, (), now)
            &&& #[trigger] counted(started, now, nanos)
            &&& r == if nanos < before {
                before
            } else {
                nanos
            }
        }
}

/// A clock of its own that starts at zero, counts nanoseconds and never runs back.
pub struct Stopwatch {
    start: Instant,
    reading: u128,
}

impl Stopwatch {
    /// When the stopwatch was started.
    pub closed spec fn started(&self) -> Instant {
        self.start
    }

    /// The last reading, in nanoseconds.
    pub closed spec fn reading(&self) -> int {
        self.reading as int
    }

    /// The reading is one that a duration can have.
    pub open spec fn wf(&self) -> bool {
        0 <= self.reading() < NANOS_LIMIT
    }

    /// Starts a stopwatch.
    pub fn start() -> (r: Stopwatch)
        ensures
            r.wf(),
            r.reading() == 0,
    {
        Stopwatch { start: Instant::now(), reading: 0 }
    }

    /// What the stopwatch reads now.
    pub fn peek(&self) -> (r: u128)
        requires
            self.wf(),
        ensures
            self.reading() <= r < NANOS_LIMIT,
            reads_clock(self.started(), self.reading(), r as int),
    {
        let now: Instant = result_of(Instant::now);
        let nanos: u128 = nanos_between(&self.start, &now);
        assert(counted(self.start, now, nanos as int));
        if nanos < self.reading {
            self.reading
        } else {
            nanos
        }
    }

    /// Reads the stopwatch.
    pub fn read(&mut self) -> (r: u128)
        requires
            old(self).wf(),
        ensures
            final(self).wf(),
            final(self).started() == old(self).started(),
            final(self).reading() >= old(self).reading(),
            r == final(self).reading(),
            reads_clock(old(self).started(), old(self).reading(), r as int),
    {
        self.reading = self.peek();
        self.reading
    }
}

/// Calls `Utc::now` of chrono and `DateTime::timestamp`: the seconds since the Unix epoch, by
/// the clock of the machine. Nothing is claimed of them.
#[verifier::external_body]
pub(crate) fn unix_time() -> (r: i64) {
    chrono::Utc::now().timestamp()
}

/// The number is one that a reading of the machine's clock gave.
pub closed spec fn is_unix_time(seconds: i64) -> bool {
    call_ensures(unix_time, (), seconds)
}

/// Reads the seconds since the Unix epoch off the clock of the machine.
pub(crate) fn unix_time_now() -> (r: i64)
    ensures
        is_unix_time(r),
{
    result_of(unix_time)
}

} // verus!
