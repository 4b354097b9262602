//! A token bucket against broadcast storms.

use crate::clock::{reads_clock, Stopwatch, NANOS_LIMIT};
use std::time::Instant;
use vstd::prelude::*;

verus! {

/// How many parts a token is counted in. A bucket that gains `n` tokens per second gains `n`
/// of these parts in each nanosecond.
pub const TOKEN: u64 = 1_000_000_000;

/// Token bucket rate limiter for broadcast packets per peer to prevent broadcast storms.
///
/// The level is counted in parts of a token, so that no time that has passed is lost to
/// rounding.
pub struct BroadcastRateLimiter {
    tokens: u64,
    watch: Stopwatch,
    last_update: u128,
    max_tokens: u32,
    refill_rate: u32,
}

/// The level of a bucket of `max_tokens` after it has filled at `rate` tokens per second for
/// `elapsed` nanoseconds, in parts of a token.
pub open spec fn refilled(level: int, max_tokens: int, rate: int, elapsed: int) -> int {
    let full = max_tokens * TOKEN;
    if level + elapsed * rate < full {
        level + elapsed * rate
    } else {
        full
    }
}

/// The time between two requests; none where the second comes first.
pub open spec fn gap(earlier: int, later: int) -> int {
    if later >= earlier {
        later - earlier
    } else {
        0
    }
}

/// A request finds a whole token in a bucket that stood at `level` `elapsed` nanoseconds ago.
pub open spec fn granted(level: int, max_tokens: int, rate: int, elapsed: int) -> bool {
    refilled(level, max_tokens, rate, elapsed) >= TOKEN
}

/// The level after that request.
pub open spec fn level_after(level: int, max_tokens: int, rate: int, elapsed: int) -> int {
    let full = refilled(level, max_tokens, rate, elapsed);
    if granted(level, max_tokens, rate, elapsed) {
        full - TOKEN
    } else {
        full
    }
}

impl BroadcastRateLimiter {
    /// What is in the bucket, in parts of a token.
    pub closed spec fn level(&self) -> int {
        self.tokens as int
    }

    /// How many tokens the bucket holds.
    pub closed spec fn capacity(&self) -> int {
        self.max_tokens as int
    }

    /// How many tokens the bucket gains in a second.
    pub closed spec fn rate(&self) -> int {
        self.refill_rate as int
    }

    /// When the last token was asked for, in nanoseconds on the clock of the bucket.
    pub closed spec fn asked(&self) -> int {
        self.last_update as int
    }

    /// What the clock of the bucket read last.
    pub closed spec fn clock(&self) -> int {
        self.watch.reading()
    }

    /// When the clock of the bucket was started.
    pub closed spec fn started(&self) -> Instant {
        self.watch.started()
    }

    /// The bucket holds no more than fits.
    pub open spec fn wf(&self) -> bool {
        &&& 0 <= self.asked() < NANOS_LIMIT
        &&& 0 <= self.clock() < NANOS_LIMIT
        &&& 0 <= self.level() <= self.capacity() * TOKEN
        &&& 0 <= self.capacity() <= u32::MAX
        &&& 0 <= self.rate() <= u32::MAX
    }

    /// A full bucket of `max_tokens` that gains `refill_rate` tokens per second.
    pub fn new(max_tokens: u32, refill_rate: u32) -> (r: BroadcastRateLimiter)
        ensures
            r.wf(),
            r.level() == max_tokens * TOKEN,
            r.capacity() == max_tokens,
            r.rate() == refill_rate,
            r.asked() == 0,
            r.clock() == 0,
    {
        BroadcastRateLimiter {
            tokens: max_tokens as u64 * TOKEN,
            watch: Stopwatch::start(),
            last_update: 0,
            max_tokens,
            refill_rate,
        }
    }

    /// Attempts to consume one token. Returns true if allowed, false if rate limited.
    pub fn allow(&mut self) -> (r: bool)
        requires
            old(self).wf(),
        ensures
            final(self).wf(),
            final(self).capacity() == old(self).capacity(),
            final(self).rate() == old(self).rate(),
            final(self).started() == old(self).started(),
            final(self).clock() >= old(self).clock(),
            final(self).asked() == final(self).clock(),
            reads_clock(old(self).started(), old(self).clock(), final(self).clock()),
            final(self).level() == level_after(
                old(self).level(),
                old(self).capacity(),
                old(self).rate(),
                gap(old(self).asked(), final(self).asked()),
            ),
            r == granted(
                old(self).level(),
                old(self).capacity(),
                old(self).rate(),
                gap(old(self).asked(), final(self).asked()),
            ),
            old(self).level() >= TOKEN ==> r,
    {
        let now: u128 = self.watch.read();
        self.allow_at(now)
    }

    /// Attempts to consume one token at a time on the clock of the bucket.
    pub fn allow_at(&mut self, now: u128) -> (r: bool)
        requires
            old(self).wf(),
            now < NANOS_LIMIT,
        ensures
            final(self).wf(),
            final(self).capacity() == old(self).capacity(),
            final(self).rate() == old(self).rate(),
            final(self).started() == old(self).started(),
            final(self).clock() == old(self).clock(),
            final(self).asked() == now,
            final(self).level() == level_after(
                old(self).level(),
                old(self).capacity(),
                old(self).rate(),
                gap(old(self).asked(), now as int),
            ),
            r == granted(
                old(self).level(),
                old(self).capacity(),
                old(self).rate(),
                gap(old(self).asked(), now as int),
            ),
            old(self).level() >= TOKEN ==> r,
    {
        let elapsed: u128 = if now >= self.last_update {
            now - self.last_update
        } else {
            0
        };
        self.last_update = now;
        self.allow_after(elapsed)
    }

    /// Attempts to consume one token `elapsed` nanoseconds after the last attempt.
    pub fn allow_after(&mut self, elapsed: u128) -> (r: bool)
        requires
            old(self).wf(),
            elapsed < NANOS_LIMIT,
        ensures
            final(self).wf(),
            final(self).capacity() == old(self).capacity(),
            final(self).rate() == old(self).rate(),
            final(self).started() == old(self).started(),
            final(self).clock() == old(self).clock(),
            final(self).asked() == old(self).asked(),
            final(self).level() == level_after(
                old(self).level(),
                old(self).capacity(),
                old(self).rate(),
                elapsed as int,
            ),
            r == granted(
                old(self).level(),
                old(self).capacity(),
                old(self).rate(),
                elapsed as int,
            ),
            old(self).level() >= TOKEN ==> r,
    {
        proof {
            assert(elapsed * self.refill_rate <= 0x1_0000_0000_0000_0000 * 1_000_000_000
                * 0xFFFF_FFFF) by (nonlinear_arith)
                requires
                    0 <= elapsed < 0x1_0000_0000_0000_0000 * 1_000_000_000,
                    0 <= self.refill_rate <= 0xFFFF_FFFF,
            ;
            assert(elapsed * self.refill_rate >= 0) by (nonlinear_arith)
                requires
                    elapsed >= 0,
                    self.refill_rate >= 0,
            ;
        }
        let full: u64 = self.max_tokens as u64 * TOKEN;
        let filled: u128 = self.tokens as u128 + elapsed * (self.refill_rate as u128);
        let level: u64 = if filled < full as u128 {
            filled as u64
        } else {
            full
        };
        if level >= TOKEN {
            self.tokens = level - TOKEN;
            true
        } else {
            self.tokens = level;
            false
        }
    }
}

/// The level after a run of requests, with the nanoseconds in front of each.
pub open spec fn level_after_all(level: int, max_tokens: int, rate: int, gaps: Seq<nat>) -> int
    decreases gaps.len(),
{
    if gaps.len() == 0 {
        level
    } else {
        level_after(
            level_after_all(level, max_tokens, rate, gaps.drop_last()),
            max_tokens,
            rate,
            gaps.last() as int,
        )
    }
}

/// How many of a run of requests are granted.
pub open spec fn grants(level: int, max_tokens: int, rate: int, gaps: Seq<nat>) -> int
    decreases gaps.len(),
{
    if gaps.len() == 0 {
        0
    } else {
        let before = level_after_all(level, max_tokens, rate, gaps.drop_last());
        grants(level, max_tokens, rate, gaps.drop_last()) + if granted(
            before,
            max_tokens,
            rate,
            gaps.last() as int,
        ) {
            1int
        } else {
            0int
        }
    }
}

/// How many nanoseconds a run of requests takes.
pub open spec fn duration(gaps: Seq<nat>) -> int
    decreases gaps.len(),
{
    if gaps.len() == 0 {
        0
    } else {
        duration(gaps.drop_last()) + gaps.last()
    }
}

/// No storm gets through: over any run of requests, what is granted and what is left is no
/// more than what was in the bucket at the start and what it gained in the time of the run.
pub proof fn law_grants_are_bounded(level: int, max_tokens: u32, rate: u32, gaps: Seq<nat>)
    requires
        0 <= level <= max_tokens * TOKEN,
    ensures
        grants(level, max_tokens as int, rate as int, gaps) * TOKEN + level_after_all(
            level,
            max_tokens as int,
            rate as int,
            gaps,
        ) <= level + duration(gaps) * rate,
        0 <= level_after_all(level, max_tokens as int, rate as int, gaps) <= max_tokens * TOKEN,
    decreases gaps.len(),
{
    if gaps.len() > 0 {
        let front = gaps.drop_last();
        let gap = gaps.last() as int;
        law_grants_are_bounded(level, max_tokens, rate, front);
        assert(gap * rate >= 0) by (nonlinear_arith)
            requires
                gap >= 0,
                rate >= 0,
        ;
        assert((duration(front) + gap) * rate == duration(front) * rate + gap * rate)
            by (nonlinear_arith);
    }
}

/// A full bucket grants as many requests in a row as it holds tokens, however fast they come.
pub proof fn law_burst_is_granted(max_tokens: u32, rate: u32, gaps: Seq<nat>)
    requires
        gaps.len() <= max_tokens,
    ensures
        grants(max_tokens * TOKEN, max_tokens as int, rate as int, gaps) == gaps.len(),
        level_after_all(max_tokens * TOKEN, max_tokens as int, rate as int, gaps) >= (max_tokens
            - gaps.len()) * TOKEN,
    decreases gaps.len(),
{
    if gaps.len() > 0 {
        let gap = gaps.last() as int;
        law_burst_is_granted(max_tokens, rate, gaps.drop_last());
        law_grants_are_bounded(max_tokens * TOKEN, max_tokens, rate, gaps.drop_last());
        assert(gap * rate >= 0) by (nonlinear_arith)
            requires
                gap >= 0,
                rate >= 0,
        ;
    }
}

/// Requests that come all at once get no more than the tokens that a full bucket holds.
pub proof fn law_burst_is_limited(max_tokens: u32, rate: u32, gaps: Seq<nat>)
    requires
        duration(gaps) == 0,
    ensures
        grants(max_tokens * TOKEN, max_tokens as int, rate as int, gaps) <= max_tokens,
{
    law_grants_are_bounded(max_tokens * TOKEN, max_tokens, rate, gaps);
}

/// The times between requests that come at these times, one after the other.
pub open spec fn gaps_between(times: Seq<nat>) -> Seq<nat> {
    Seq::new((times.len() - 1) as nat, |i: int| gap(times[i] as int, times[i + 1] as int) as nat)
}

/// No storm gets through in any time: of the requests that follow one another on the clock of
/// a bucket, from a first time to a last, no more are granted than the bucket had tokens for at
/// the first and gained until the last.
pub proof fn law_grants_in_time_are_bounded(
    level: int,
    max_tokens: u32,
    rate: u32,
    times: Seq<nat>,
)
    requires
        0 <= level <= max_tokens * TOKEN,
        times.len() >= 1,
        forall|i: int, j: int| 0 <= i <= j < times.len() ==> times[i] <= times[j],
    ensures
        grants(level, max_tokens as int, rate as int, gaps_between(times)) * TOKEN <= level + (
        times.last() - times.first()) * rate,
{
    law_grants_are_bounded(level, max_tokens, rate, gaps_between(times));
    lemma_duration_of_times(times);
}

/// The times between requests add up to the time from the first to the last.
proof fn lemma_duration_of_times(times: Seq<nat>)
    requires
        times.len() >= 1,
        forall|i: int, j: int| 0 <= i <= j < times.len() ==> times[i] <= times[j],
    ensures
        duration(gaps_between(times)) == times.last() - times.first(),
    decreases times.len(),
{
    if times.len() > 1 {
        let front = times.drop_last();
        assert forall|i: int, j: int| 0 <= i <= j < front.len() implies front[i] <= front[j] by {
            assert(times[i] <= times[j]);
        }
        lemma_duration_of_times(front);
        assert(gaps_between(times).drop_last() =~= gaps_between(front));
        assert(times[times.len() - 2] <= times[times.len() - 1]);
    }
}

/// A bucket that gains `rate` tokens per second fills by them and no further than its size, and a
/// request takes a whole token exactly if there is one. A token has a billion parts, as a second
/// has nanoseconds.
pub proof fn law_request_takes_a_token(level: int, max_tokens: u32, rate: u32, elapsed: nat)
    requires
        0 <= level <= max_tokens * 1_000_000_000,
    ensures
        ({
            let gained = level + elapsed * rate;
            let full = max_tokens * 1_000_000_000;
            let there = if gained < full { gained } else { full };
            let given = granted(level, max_tokens as int, rate as int, elapsed as int);
            &&& given <==> max_tokens >= 1 && gained >= 1_000_000_000
            &&& level_after(level, max_tokens as int, rate as int, elapsed as int) == there - if given {
                1_000_000_000int
            } else {
                0int
            }
        }),
{
}

/// An empty bucket has its next token after the time that one takes to come in, and not before.
pub proof fn law_tokens_come_at_their_rate(max_tokens: u32, rate: u32, elapsed: nat)
    requires
        max_tokens >= 1,
        rate >= 1,
    ensures
        granted(0, max_tokens as int, rate as int, elapsed as int) <==> elapsed * rate
            >= 1_000_000_000,
        granted(0, max_tokens as int, rate as int, 1_000_000_000),
{
    assert(1_000_000_000 * rate >= 1_000_000_000) by (nonlinear_arith)
        requires
            rate >= 1,
    ;
}

/// The time between two requests is what lies between them on the clock, and nothing if the clock
/// ran back.
pub proof fn law_gap_is_the_time_between(earlier: int, later: int)
    ensures
        later >= earlier ==> gap(earlier, later) == later - earlier,
        later < earlier ==> gap(earlier, later) == 0,
{
}

} // verus!
