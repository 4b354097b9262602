//! Probes that measure round trips, jitter and loss.

use crate::bytes::{
    be_bytes, be_value, law_eight_bytes, law_four_bytes, lemma_be_bytes, lemma_be_value,
    lemma_pow256, put_be, read_be,
};
use crate::clock::{reads_clock, Stopwatch, NANOS_LIMIT};
use std::time::Instant;
use vstd::prelude::*;

verus! {

/// How many parts a nanosecond of jitter is counted in.
pub const JITTER_UNIT: u128 = 0x10_0000;

/// Real-time microsecond-level network quality metrics, in tenths.
#[derive(Debug, Clone, Copy, PartialEq, Eq, Structural)]
pub struct JitterStats {
    /// The round trip in tenths of a millisecond.
    pub rtt_tenths_ms: u64,
    /// The jitter in tenths of a millisecond.
    pub jitter_tenths_ms: u64,
    /// The share of lost packets in tenths of a percent.
    pub packet_loss_tenths_pct: u32,
}

/// In-band hardware timestamp probe engine for sub-millisecond latency and RFC 3550 jitter
/// tracking
pub struct ProbeEngine {
    seq_counter: u32,
    base_time: Stopwatch,
    last_transit: Option<u64>,
    jitter: u128,
    loss_window: u64,
    last_seen: u32,
}

/// A probe begins with these bytes: "ELPR" and its kind.
pub open spec fn probe_head(kind: u8) -> Seq<u8> {
    seq![0x45u8, 0x4C, 0x50, 0x52, kind]
}

/// The kind of a probe that asks.
pub const PROBE_REQ: u8 = 0x01;

/// The kind of a probe that answers.
pub const PROBE_RESP: u8 = 0x02;

/// The bytes are a probe of a kind.
pub open spec fn is_probe(p: Seq<u8>, kind: u8) -> bool {
    p.len() >= 32 && p.take(5) == probe_head(kind)
}

/// A request with a sequence number, sent at a time.
pub open spec fn probe_request(seq_number: u32, sent: u64) -> Seq<u8> {
    probe_head(PROBE_REQ) + seq![0u8, 0, 0] + be_bytes(seq_number as nat, 4) + seq![0u8, 0, 0, 0]
        + be_bytes(sent as nat, 8) + seq![0u8, 0, 0, 0, 0, 0, 0, 0]
}

/// The response to a request, made at a time. The number and the time of the request go back.
pub open spec fn probe_response(request: Seq<u8>, received: u64) -> Seq<u8> {
    probe_head(PROBE_RESP) + seq![0u8, 0, 0] + request.subrange(8, 12) + seq![0u8, 0, 0, 0]
        + request.subrange(16, 24) + be_bytes(received as nat, 8)
}

/// When the request was sent that a probe is about.
pub open spec fn sent_time(p: Seq<u8>) -> nat {
    be_value(p.subrange(16, 24))
}

/// The round trip of a request that was sent at one time and answered at another.
pub open spec fn round_trip(sent: int, answered: int) -> int {
    if answered >= sent {
        answered - sent
    } else {
        0
    }
}

/// The jitter after one more round trip (RFC 3550): a sixteenth of the way from what it was to
/// how far the round trip, in nanoseconds, is from the last one, in whole microseconds.
pub open spec fn smoothed(jitter: int, last_transit: Option<u64>, rtt_ns: int) -> int {
    match last_transit {
        Some(last) => {
            let distance = if rtt_ns >= last * 1000 {
                rtt_ns - last * 1000
            } else {
                last * 1000 - rtt_ns
            };
            (15 * jitter + distance * JITTER_UNIT) / 16
        },
        None => jitter,
    }
}

/// A quotient, rounded to the nearest whole number, up from the middle.
pub open spec fn rounded(n: int, d: int) -> int {
    (n + d / 2) / d
}

/// The number of the request that a probe is about.
pub open spec fn number_of(p: Seq<u8>) -> u32 {
    be_value(p.subrange(8, 12)) as u32
}

/// How far a number is ahead of another. Numbers begin anew after the last one.
pub open spec fn ahead(last: u32, number: u32) -> int {
    (number - last) % 0x1_0000_0000
}

/// The number is a newer one: it comes within the next half of all numbers.
pub open spec fn is_newer(last: u32, number: u32) -> bool {
    0 < ahead(last, number) < 0x8000_0000
}

/// By a window, the request that is `i` behind the newest one answered was answered.
pub open spec fn answered(window: u64, i: u64) -> bool {
    (window >> i) & 1 == 1
}

/// How many of the `n` newest requests were answered, by a window.
pub open spec fn answered_count(window: u64, n: nat) -> nat
    decreases n,
{
    if n == 0 {
        0
    } else {
        answered_count(window, (n - 1) as nat) + if answered(window, (n - 1) as u64) {
            1nat
        } else {
            0nat
        }
    }
}

/// The window after an answer to a number, where `last` was the newest one answered. A newer
/// number moves the window on, and the numbers that it skips count as unanswered. An older one
/// is marked as answered, as long as the window reaches back to it.
pub open spec fn window_after(window: u64, last: u32, number: u32) -> u64 {
    if is_newer(last, number) {
        if ahead(last, number) < 64 {
            (window << (ahead(last, number) as u64)) | 1
        } else {
            1
        }
    } else if ahead(number, last) < 64 {
        window | (1u64 << (ahead(number, last) as u64))
    } else {
        window
    }
}

/// The newest number answered, after an answer to a number.
pub open spec fn last_after(last: u32, number: u32) -> u32 {
    if is_newer(last, number) {
        number
    } else {
        last
    }
}

/// The share of unanswered requests among the last sixty-four, in tenths of a percent.
pub open spec fn loss_tenths(window: u64) -> int {
    rounded((64 - answered_count(window, 64)) * 1000, 64)
}

/// Counts the answered requests of a window.
fn count_answered(window: u64) -> (r: u32)
    ensures
        r == answered_count(window, 64),
        r <= 64,
{
    let mut i: u64 = 0;
    let mut r: u32 = 0;
    while i < 64
        invariant
            i <= 64,
            r == answered_count(window, i as nat),
            r <= i,
        decreases 64 - i,
    {
        if (window >> i) & 1 == 1 {
            r += 1;
        }
        i += 1;
    }
    r
}

/// How far a number is ahead of another.
fn distance(last: u32, number: u32) -> (r: u64)
    ensures
        r == ahead(last, number),
{
    (number as u64 + 0x1_0000_0000 - last as u64) % 0x1_0000_0000
}

/// Moves a window on after an answer to a number.
fn moved_window(window: u64, last: u32, number: u32) -> (r: u64)
    ensures
        r == window_after(window, last, number),
{
    let gap: u64 = distance(last, number);
    if 0 < gap && gap < 0x8000_0000 {
        if gap < 64 {
            (window << gap) | 1
        } else {
            1
        }
    } else {
        let late: u64 = distance(number, last);
        if late < 64 {
            window | (1u64 << late)
        } else {
            window
        }
    }
}

/// Tests bytes for being a probe of a kind.
fn probe_of_kind(p: &[u8], kind: u8) -> (r: bool)
    ensures
        r == is_probe(p@, kind),
{
    let r: bool = p.len() >= 32 && p[0] == 0x45 && p[1] == 0x4C && p[2] == 0x50 && p[3] == 0x52
        && p[4] == kind;
    proof {
        if r {
            assert(p@.take(5) =~= probe_head(kind));
        } else if is_probe(p@, kind) {
            let head = p@.take(5);
            assert(head[0] == 0x45 && head[1] == 0x4C && head[2] == 0x50 && head[3] == 0x52
                && head[4] == kind);
        }
    }
    r
}

/// A probe with nothing but its head.
fn blank_probe(kind: u8) -> (r: [u8; 32])
    ensures
        r@ == probe_head(kind) + Seq::new(27, |i: int| 0u8),
{
    let mut r: [u8; 32] = [0u8; 32];
    r[0] = 0x45;
    r[1] = 0x4C;
    r[2] = 0x50;
    r[3] = 0x52;
    r[4] = kind;
    assert(r@ =~= probe_head(kind) + Seq::new(27, |i: int| 0u8));
    r
}

/// The number of the request that follows one with a number.
pub open spec fn next_number(number: u32) -> u32 {
    if number == u32::MAX {
        0
    } else {
        (number + 1) as u32
    }
}

/// The time that a probe carries at a reading of the clock, in nanoseconds.
pub open spec fn time_at(clock: int) -> u64 {
    (clock % 0x1_0000_0000_0000_0000) as u64
}

/// What building a request does: it bears the next number and the time, and nothing else about
/// the engine changes.
pub open spec fn requested(before: ProbeEngine, after: ProbeEngine, request: Seq<u8>) -> bool {
    &&& request == probe_request(before.next_seq(), time_at(after.clock()))
    &&& after.next_seq() == next_number(before.next_seq())
    &&& after.clock() >= before.clock()
    &&& after.started() == before.started()
    &&& after.last_transit() == before.last_transit()
    &&& after.jitter() == before.jitter()
    &&& after.window() == before.window()
    &&& after.last_seen() == before.last_seen()
}

/// The time that a probe carries: of a count of nanoseconds, what sixty-four bits hold.
pub fn probe_time(nanos: u128) -> (r: u64)
    ensures
        r == nanos % 0x1_0000_0000_0000_0000,
{
    (nanos % 0x1_0000_0000_0000_0000) as u64
}

impl ProbeEngine {
    /// The number of the next request.
    pub closed spec fn next_seq(&self) -> u32 {
        self.seq_counter
    }

    /// The last round trip, in whole microseconds.
    pub closed spec fn last_transit(&self) -> Option<u64> {
        self.last_transit
    }

    /// The jitter, in parts of a nanosecond.
    pub closed spec fn jitter(&self) -> int {
        self.jitter as int
    }

    /// Which of the last sixty-four requests were answered, bit by bit, the newest lowest.
    pub closed spec fn window(&self) -> u64 {
        self.loss_window
    }

    /// The newest number answered.
    pub closed spec fn last_seen(&self) -> u32 {
        self.last_seen
    }

    /// What the clock of the engine read last, in nanoseconds.
    pub closed spec fn clock(&self) -> int {
        self.base_time.reading()
    }

    /// When the clock of the engine was started.
    pub closed spec fn started(&self) -> Instant {
        self.base_time.started()
    }

    /// Nothing but the reading of the clock is another one.
    pub open spec fn same_but_clock(&self, other: &ProbeEngine) -> bool {
        &&& self.next_seq() == other.next_seq()
        &&& self.last_transit() == other.last_transit()
        &&& self.jitter() == other.jitter()
        &&& self.window() == other.window()
        &&& self.last_seen() == other.last_seen()
    }

    /// The jitter is no longer than the longest time that is measured.
    pub open spec fn wf(&self) -> bool {
        &&& 0 <= self.clock() < NANOS_LIMIT
        &&& 0 <= self.jitter() < 0x1_0000_0000_0000_0000 * JITTER_UNIT
        &&& self.last_transit() matches Some(last) ==> last * 1000 < 0x1_0000_0000_0000_0000
    }

    /// An engine that has measured nothing, and takes all probes for received.
    pub fn new() -> (r: ProbeEngine)
        ensures
            r.wf(),
            r.next_seq() == 1,
            r.last_transit() is None,
            r.jitter() == 0,
            r.window() == u64::MAX,
            r.last_seen() == 0,
            r.clock() == 0,
    {
        ProbeEngine {
            seq_counter: 1,
            base_time: Stopwatch::start(),
            last_transit: None,
            jitter: 0,
            loss_window: u64::MAX,
            last_seen: 0,
        }
    }

    /// The nanoseconds since the engine was made, as far as sixty-four bits hold them.
    fn elapsed(&mut self) -> (r: u64)
        requires
            old(self).wf(),
        ensures
            final(self).wf(),
            final(self).clock() >= old(self).clock(),
            final(self).started() == old(self).started(),
            final(self).same_but_clock(old(self)),
            r == time_at(final(self).clock()),
            reads_clock(old(self).started(), old(self).clock(), final(self).clock()),
    {
        probe_time(self.base_time.read())
    }

    /// Build a 32-byte probe request packet
    pub fn build_probe_request(&mut self) -> (r: [u8; 32])
        requires
            old(self).wf(),
        ensures
            final(self).wf(),
            requested(*old(self), *final(self), r@),
            reads_clock(old(self).started(), old(self).clock(), final(self).clock()),
    {
        let sent: u64 = self.elapsed();
        self.request_at(sent)
    }

    /// Builds the next request, as sent at a time.
    pub fn request_at(&mut self, sent: u64) -> (r: [u8; 32])
        ensures
            r@ == probe_request(old(self).next_seq(), sent),
            final(self).next_seq() == next_number(old(self).next_seq()),
            final(self).clock() == old(self).clock(),
            final(self).started() == old(self).started(),
            final(self).last_transit() == old(self).last_transit(),
            final(self).jitter() == old(self).jitter(),
            final(self).window() == old(self).window(),
            final(self).last_seen() == old(self).last_seen(),
    {
        let number: u32 = self.seq_counter;
        self.seq_counter = if number == u32::MAX {
            0
        } else {
            number + 1
        };
        let mut buf: [u8; 32] = blank_probe(PROBE_REQ);
        proof {
            lemma_pow256();
            lemma_be_bytes(number as nat, 4);
            lemma_be_bytes(sent as nat, 8);
        }
        put_be(&mut buf, 8, 4, number as u64);
        put_be(&mut buf, 16, 8, sent);
        assert(buf@ =~= probe_request(number, sent));
        buf
    }

    /// Process an incoming probe request on the receiver side and create an immediate response
    pub fn build_probe_response(&self, req_payload: &[u8]) -> (r: Option<[u8; 32]>)
        requires
            self.wf(),
        ensures
            match r {
                Some(response) => is_probe(req_payload@, PROBE_REQ) && exists|now: int|
                    now >= self.clock() && reads_clock(self.started(), self.clock(), now) && response@
                        == probe_response(
                        req_payload@,
                        #[trigger] time_at(now),
                    ),
                None => !is_probe(req_payload@, PROBE_REQ),
            },
    {
        let now: u128 = self.base_time.peek();
        let received: u64 = probe_time(now);
        assert(received == time_at(now as int));
        ProbeEngine::response_at(req_payload, received)
    }

    /// Builds the response to a request, as received at a time.
    pub fn response_at(req_payload: &[u8], received: u64) -> (r: Option<[u8; 32]>)
        ensures
            match r {
                Some(response) => is_probe(req_payload@, PROBE_REQ) && response@ == probe_response(
                    req_payload@,
                    received,
                ),
                None => !is_probe(req_payload@, PROBE_REQ),
            },
    {
        if !probe_of_kind(req_payload, PROBE_REQ) {
            return None;
        }
        let mut resp: [u8; 32] = blank_probe(PROBE_RESP);
        let mut i: usize = 8;
        while i < 24
            invariant
                8 <= i <= 24,
                req_payload@.len() >= 32,
                resp@.len() == 32,
                forall|j: int| 0 <= j < 5 ==> resp@[j] == probe_head(PROBE_RESP)[j],
                forall|j: int| 5 <= j < 32 ==> #[trigger] resp@[j] == if 8 <= j < i && (j < 12 || j
                    >= 16) {
                    req_payload@[j]
                } else {
                    0
                },
            decreases 24 - i,
        {
            if i < 12 || i >= 16 {
                resp[i] = req_payload[i];
            }
            i += 1;
        }
        proof {
            lemma_pow256();
            lemma_be_bytes(received as nat, 8);
        }
        put_be(&mut resp, 24, 8, received);
        assert(resp@ =~= probe_response(req_payload@, received));
        Some(resp)
    }

    /// Process an incoming probe response on the sender side and update RTT, jitter, and loss
    pub fn handle_probe_response(&mut self, resp_payload: &[u8]) -> (r: Option<JitterStats>)
        requires
            old(self).wf(),
        ensures
            final(self).wf(),
            final(self).clock() >= old(self).clock(),
            final(self).started() == old(self).started(),
            reads_clock(old(self).started(), old(self).clock(), final(self).clock()),
            probe_handled(
                *old(self),
                *final(self),
                resp_payload@,
                time_at(final(self).clock()),
                r,
            ),
    {
        let came: u64 = self.elapsed();
        self.response_handled_at(resp_payload, came)
    }

    /// Takes in a response that came at a time.
    pub fn response_handled_at(&mut self, resp_payload: &[u8], came: u64) -> (r: Option<
        JitterStats,
    >)
        requires
            old(self).wf(),
        ensures
            final(self).wf(),
            final(self).clock() == old(self).clock(),
            final(self).started() == old(self).started(),
            probe_handled(*old(self), *final(self), resp_payload@, came, r),
    {
        if !probe_of_kind(resp_payload, PROBE_RESP) {
            return None;
        }
        proof {
            lemma_be_value(resp_payload@.subrange(8, 12));
            lemma_pow256();
        }
        let number: u32 = read_be(resp_payload, 8, 4) as u32;
        let sent: u64 = read_be(resp_payload, 16, 8);
        // Exact RTT measured entirely on the sender's monotonic clock
        let rtt_ns: u64 = if came >= sent {
            came - sent
        } else {
            0
        };
        if let Some(last) = self.last_transit {
            let last_ns: u64 = last * 1000;
            let distance: u64 = if rtt_ns >= last_ns {
                rtt_ns - last_ns
            } else {
                last_ns - rtt_ns
            };
            self.jitter = (15 * self.jitter + distance as u128 * JITTER_UNIT) / 16;
        }
        self.last_transit = Some(rtt_ns / 1000);
        self.loss_window = moved_window(self.loss_window, self.last_seen, number);
        let gap: u64 = distance(self.last_seen, number);
        if 0 < gap && gap < 0x8000_0000 {
            self.last_seen = number;
        }
        let lost: u32 = 64 - count_answered(self.loss_window);
        let rtt_tenths: u128 = (rtt_ns as u128 + 50_000) / 100_000;
        let jitter_tenths: u128 = (self.jitter + 50_000 * JITTER_UNIT) / (100_000 * JITTER_UNIT);
        Some(
            JitterStats {
                rtt_tenths_ms: rtt_tenths as u64,
                jitter_tenths_ms: jitter_tenths as u64,
                packet_loss_tenths_pct: (lost * 1000 + 32) / 64,
            },
        )
    }
}

/// What a payload that comes at a time does to an engine, and what is told of it.
pub open spec fn probe_handled(
    before: ProbeEngine,
    after: ProbeEngine,
    payload: Seq<u8>,
    came: u64,
    r: Option<JitterStats>,
) -> bool {
    if is_probe(payload, PROBE_RESP) {
        let rtt_ns = round_trip(sent_time(payload) as int, came as int);
        let number = number_of(payload);
        &&& after.next_seq() == before.next_seq()
        &&& after.last_transit() == Some((rtt_ns / 1000) as u64)
        &&& after.jitter() == smoothed(before.jitter(), before.last_transit(), rtt_ns)
        &&& after.window() == window_after(before.window(), before.last_seen(), number)
        &&& after.last_seen() == last_after(before.last_seen(), number)
        &&& r == Some(
            JitterStats {
                rtt_tenths_ms: rounded(rtt_ns, 100_000) as u64,
                jitter_tenths_ms: rounded(after.jitter(), 100_000 * JITTER_UNIT) as u64,
                packet_loss_tenths_pct: loss_tenths(after.window()) as u32,
            },
        )
    } else {
        after.same_but_clock(&before) && r is None
    }
}

/// A request, answered by anybody at any time, comes back as a response that tells its sender
/// when it was sent, so that the round trip is measured on one clock.
pub proof fn law_response_carries_sent_time(seq_number: u32, sent: u64, received: u64)
    ensures
        is_probe(probe_request(seq_number, sent), PROBE_REQ),
        is_probe(
            probe_response(probe_request(seq_number, sent), received),
            PROBE_RESP,
        ),
        sent_time(probe_response(probe_request(seq_number, sent), received)) == sent,
        be_value(
            probe_response(probe_request(seq_number, sent), received).subrange(8, 12),
        ) == seq_number,
{
    lemma_pow256();
    lemma_be_bytes(seq_number as nat, 4);
    lemma_be_bytes(sent as nat, 8);
    lemma_be_bytes(received as nat, 8);
    let request = probe_request(seq_number, sent);
    let response = probe_response(request, received);
    assert(request.take(5) =~= probe_head(PROBE_REQ));
    assert(response.take(5) =~= probe_head(PROBE_RESP));
    assert(request.subrange(16, 24) =~= be_bytes(sent as nat, 8));
    assert(response.subrange(16, 24) =~= be_bytes(sent as nat, 8));
    assert(request.subrange(8, 12) =~= be_bytes(seq_number as nat, 4));
    assert(response.subrange(8, 12) =~= be_bytes(seq_number as nat, 4));
}

/// The jitter stays between what it was and the newest distance between round trips: it never
/// overshoots.
pub proof fn law_jitter_does_not_overshoot(jitter: int, last: u64, rtt_ns: int, bound: int)
    requires
        0 <= jitter <= bound,
        -bound <= (rtt_ns - last * 1000) * JITTER_UNIT <= bound,
    ensures
        0 <= smoothed(jitter, Some(last), rtt_ns) <= bound,
{
}

/// Round trips that do not change let the jitter fade by a sixteenth each.
pub proof fn law_jitter_fades(jitter: int, last: u64)
    requires
        jitter >= 0,
    ensures
        16 * smoothed(jitter, Some(last), last * 1000) <= 15 * jitter,
        jitter > 0 ==> smoothed(jitter, Some(last), last * 1000) < jitter,
{
}

/// An answer to a newer number moves the window on by as many requests as the number is ahead:
/// that request counts as answered, those in between do not, and the others keep what they had.
pub proof fn law_skipped_requests_count_as_lost(window: u64, last: u32, number: u32, i: u64)
    requires
        is_newer(last, number),
        i < 64,
    ensures
        answered(window_after(window, last, number), i) <==> (i == 0 || i >= ahead(last, number)
            && answered(window, (i - ahead(last, number)) as u64)),
{
    let g = ahead(last, number);
    if g < 64 {
        let gap = g as u64;
        assert(((((window << gap) | 1) >> i) & 1 == 1) <==> (i == 0 || i >= gap && (window >> ((i
            - gap) as u64)) & 1 == 1)) by (bit_vector)
            requires
                0 < gap < 64,
                i < 64,
        ;
    } else {
        assert(((1u64 >> i) & 1 == 1) <==> i == 0) by (bit_vector)
            requires
                i < 64,
        ;
    }
}

/// A late answer still counts: the request that it is about is answered from then on, and
/// nothing else changes.
pub proof fn law_late_answers_count(window: u64, last: u32, number: u32, i: u64)
    requires
        !is_newer(last, number),
        ahead(number, last) < 64,
        i < 64,
    ensures
        answered(window_after(window, last, number), i) <==> answered(window, i) || i == ahead(
            number,
            last,
        ),
        last_after(last, number) == last,
{
    let late = ahead(number, last) as u64;
    assert((((window | (1u64 << late)) >> i) & 1 == 1) <==> ((window >> i) & 1 == 1 || i == late))
        by (bit_vector)
        requires
            late < 64,
            i < 64,
    ;
}

/// All requests of a full window were answered.
proof fn lemma_full_window(n: nat)
    requires
        n <= 64,
    ensures
        answered_count(u64::MAX, n) == n,
    decreases n,
{
    if n > 0 {
        lemma_full_window((n - 1) as nat);
        let i = (n - 1) as u64;
        assert((0xFFFF_FFFF_FFFF_FFFFu64 >> i) & 1 == 1) by (bit_vector)
            requires
                i < 64,
        ;
    }
}

/// As long as every request is answered in its turn, no loss is told.
pub proof fn law_answers_in_turn_tell_no_loss(last: u32, number: u32)
    requires
        ahead(last, number) == 1,
    ensures
        window_after(u64::MAX, last, number) == u64::MAX,
        last_after(last, number) == number,
        loss_tenths(u64::MAX) == 0,
{
    lemma_full_window(64);
    assert((0xFFFF_FFFF_FFFF_FFFFu64 << 1u64) | 1 == 0xFFFF_FFFF_FFFF_FFFFu64) by (bit_vector);
}

/// How many requests of a window are answered after an answer that is ahead, where all were
/// before.
proof fn lemma_count_after_gap(last: u32, number: u32, n: nat)
    requires
        is_newer(last, number),
        n <= 64,
    ensures
        answered_count(window_after(u64::MAX, last, number), n) == if n == 0 {
            0
        } else if n <= ahead(last, number) {
            1
        } else {
            1 + n - ahead(last, number)
        },
    decreases n,
{
    if n > 0 {
        lemma_count_after_gap(last, number, (n - 1) as nat);
        let i = (n - 1) as u64;
        let g = ahead(last, number);
        law_skipped_requests_count_as_lost(u64::MAX, last, number, i);
        if i >= g {
            let k = (i - g) as u64;
            assert((0xFFFF_FFFF_FFFF_FFFFu64 >> k) & 1 == 1) by (bit_vector)
                requires
                    k < 64,
            ;
        }
    }
}

/// Where all requests were answered so far, and then some are skipped, the loss that is told is
/// the share of those skipped among the last sixty-four.
pub proof fn law_loss_is_what_was_skipped(last: u32, number: u32)
    requires
        is_newer(last, number),
    ensures
        ({
            let skipped = ahead(last, number) - 1;
            loss_tenths(window_after(u64::MAX, last, number)) == rounded(
                (if skipped < 63 {
                    skipped
                } else {
                    63
                }) * 1000,
                64,
            )
        }),
{
    lemma_count_after_gap(last, number, 64);
}

/// The number of the `n`th request after one with the number `start`.
pub open spec fn number_after(start: u32, n: nat) -> u32
    decreases n,
{
    if n == 0 {
        start
    } else {
        next_number(number_after(start, (n - 1) as nat))
    }
}

/// Numbers count on by one.
proof fn lemma_number_after(n: nat)
    requires
        n < u32::MAX,
    ensures
        number_after(1, n) == n + 1,
    decreases n,
{
    if n > 0 {
        lemma_number_after((n - 1) as nat);
    }
}

/// A run of requests of one engine: each is what a call gave that found the engine as in
/// `befores` and left it as in `afters`. Between two calls no request is made, and the clock
/// does not run back.
pub open spec fn request_run(
    befores: Seq<ProbeEngine>,
    afters: Seq<ProbeEngine>,
    requests: Seq<Seq<u8>>,
) -> bool {
    &&& befores.len() == requests.len()
    &&& afters.len() == requests.len()
    &&& forall|i: int|
        0 <= i < requests.len() ==> requested(befores[i], afters[i], #[trigger] requests[i])
    &&& forall|i: int|
        #![trigger befores[i]]
        0 < i < requests.len() ==> befores[i].next_seq() == afters[i - 1].next_seq()
            && befores[i].clock() >= afters[i - 1].clock()
}

/// The numbers and times of a run, request by request.
proof fn lemma_request_run(
    befores: Seq<ProbeEngine>,
    afters: Seq<ProbeEngine>,
    requests: Seq<Seq<u8>>,
    i: int,
    j: int,
)
    requires
        request_run(befores, afters, requests),
        0 <= i <= j < requests.len(),
        befores[0].next_seq() == 1,
    ensures
        requests[j] == probe_request(number_after(1, j as nat), time_at(afters[j].clock())),
        afters[j].next_seq() == number_after(1, (j + 1) as nat),
        afters[i].clock() <= afters[j].clock(),
        befores[0].clock() <= afters[j].clock(),
    decreases j,
{
    assert(requested(befores[j], afters[j], requests[j]));
    assert(number_after(1, 0) == 1);
    assert(number_after(1, (j + 1) as nat) == next_number(number_after(1, j as nat)));
    if j > 0 {
        assert(befores[j].next_seq() == afters[j - 1].next_seq());
        lemma_request_run(befores, afters, requests, if i < j { i } else { j - 1 }, j - 1);
    }
}

/// The nth request of a new engine bears the number n, up to the last of all numbers, and no
/// request bears an earlier time than one before it, as long as sixty-four bits hold the time.
#[verifier::rlimit(40)]
#[verifier::spinoff_prover]
pub proof fn law_requests_are_numbered_and_timed(
    befores: Seq<ProbeEngine>,
    afters: Seq<ProbeEngine>,
    requests: Seq<Seq<u8>>,
    i: int,
    j: int,
)
    requires
        request_run(befores, afters, requests),
        0 <= i <= j < requests.len(),
        befores[0].next_seq() == 1,
        befores[0].clock() >= 0,
        j + 1 < 0x1_0000_0000,
        afters[j].clock() < 0x1_0000_0000_0000_0000,
    ensures
        is_probe(requests[j], PROBE_REQ),
        requests[j].len() == 32,
        number_of(requests[j]) == j + 1,
        sent_time(requests[j]) == afters[j].clock(),
        sent_time(requests[i]) <= sent_time(requests[j]),
        requests[j].subrange(5, 8) == seq![0u8, 0, 0],
        requests[j].subrange(12, 16) == seq![0u8, 0, 0, 0],
        requests[j].subrange(24, 32) == seq![0u8, 0, 0, 0, 0, 0, 0, 0],
{
    lemma_request_run(befores, afters, requests, i, j);
    lemma_request_run(befores, afters, requests, i, i);
    lemma_number_after(j as nat);
    lemma_number_after(i as nat);
    let (s, t) = (time_at(afters[i].clock()), time_at(afters[j].clock()));
    lemma_request_fields((j + 1) as u32, t);
    lemma_request_fields((i + 1) as u32, s);
    assert(s == afters[i].clock() && t == afters[j].clock());
}

/// What the fields of a request hold.
proof fn lemma_request_fields(number: u32, sent: u64)
    ensures
        is_probe(probe_request(number, sent), PROBE_REQ),
        probe_request(number, sent).len() == 32,
        number_of(probe_request(number, sent)) == number,
        sent_time(probe_request(number, sent)) == sent,
        probe_request(number, sent).subrange(5, 8) == seq![0u8, 0, 0],
        probe_request(number, sent).subrange(12, 16) == seq![0u8, 0, 0, 0],
        probe_request(number, sent).subrange(24, 32) == seq![0u8, 0, 0, 0, 0, 0, 0, 0],
{
    lemma_pow256();
    lemma_be_bytes(number as nat, 4);
    lemma_be_bytes(sent as nat, 8);
    let p = probe_request(number, sent);
    assert(p.take(5) =~= probe_head(PROBE_REQ));
    assert(p.subrange(8, 12) =~= be_bytes(number as nat, 4));
    assert(p.subrange(16, 24) =~= be_bytes(sent as nat, 8));
    assert(p.subrange(5, 8) =~= seq![0u8, 0, 0]);
    assert(p.subrange(12, 16) =~= seq![0u8, 0, 0, 0]);
    assert(p.subrange(24, 32) =~= seq![0u8, 0, 0, 0, 0, 0, 0, 0]);
}

/// The jitter goes by how far two round trips are apart, whichever is the longer: it moves by a
/// sixteenth from what it was towards that, and what it loses to rounding is less than a part.
pub proof fn law_jitter_goes_by_the_difference(jitter: int, last: u64, d: int)
    requires
        jitter >= 0,
        d >= 0,
    ensures
        d <= last * 1000 ==> smoothed(jitter, Some(last), last * 1000 - d) == smoothed(
            jitter,
            Some(last),
            last * 1000 + d,
        ),
        16 * smoothed(jitter, Some(last), last * 1000 + d) <= 15 * jitter + d * JITTER_UNIT,
        16 * smoothed(jitter, Some(last), last * 1000 + d) >= 15 * jitter + d * JITTER_UNIT - 15,
        d <= last * 1000 ==> 16 * smoothed(jitter, Some(last), last * 1000 - d) >= 15 * jitter + d
            * JITTER_UNIT - 15,
        smoothed(jitter, None, d) == jitter,
{
    assert(d * JITTER_UNIT >= 0) by (nonlinear_arith)
        requires
            d >= 0,
    ;
}

/// A probe is known by its first bytes, "ELPR", and the kind behind them, and has thirty-two bytes
/// or more.
pub proof fn law_what_is_a_probe(p: Seq<u8>, kind: u8)
    ensures
        is_probe(p, kind) <==> p.len() >= 32 && p[0] == 0x45 && p[1] == 0x4C && p[2] == 0x50 && p[3]
            == 0x52 && p[4] == kind,
        PROBE_REQ == 1,
        PROBE_RESP == 2,
{
    if p.len() >= 32 {
        let head = p.take(5);
        assert(head[0] == p[0] && head[1] == p[1] && head[2] == p[2] && head[3] == p[3] && head[4]
            == p[4]);
        if p[0] == 0x45 && p[1] == 0x4C && p[2] == 0x50 && p[3] == 0x52 && p[4] == kind {
            assert(head =~= probe_head(kind));
        }
    }
}

/// A request has thirty-two bytes: the head, its number in bytes 8 to 11, the time when it was sent
/// in bytes 16 to 23, the highest first, and zeros elsewhere.
#[verifier::rlimit(40)]
#[verifier::spinoff_prover]
pub proof fn law_request_layout(number: u32, sent: u64)
    ensures
        ({
            let p = probe_request(number, sent);
            &&& p.len() == 32
            &&& p[0] == 0x45 && p[1] == 0x4C && p[2] == 0x50 && p[3] == 0x52 && p[4] == 1
            &&& number == p[8] * 0x100_0000 + p[9] * 0x1_0000 + p[10] * 0x100 + p[11]
            &&& sent == (p[16] * 0x100_0000 + p[17] * 0x1_0000 + p[18] * 0x100 + p[19])
                * 0x1_0000_0000 + p[20] * 0x100_0000 + p[21] * 0x1_0000 + p[22] * 0x100 + p[23]
            &&& forall|i: int|
                5 <= i < 8 || 12 <= i < 16 || 24 <= i < 32 ==> #[trigger] p[i] == 0
        }),
{
    let p = probe_request(number, sent);
    lemma_pow256();
    lemma_be_bytes(number as nat, 4);
    lemma_be_bytes(sent as nat, 8);
    assert(p.subrange(8, 12) =~= be_bytes(number as nat, 4));
    assert(p.subrange(16, 24) =~= be_bytes(sent as nat, 8));
    law_four_bytes(p.subrange(8, 12));
    law_eight_bytes(p.subrange(16, 24));
}

/// A response has thirty-two bytes: the head, the number and the time of the request where they
/// stood in it, the time when the request came in bytes 24 to 31, and zeros elsewhere.
#[verifier::rlimit(40)]
#[verifier::spinoff_prover]
pub proof fn law_response_layout(request: Seq<u8>, received: u64)
    requires
        request.len() >= 32,
    ensures
        ({
            let p = probe_response(request, received);
            &&& p.len() == 32
            &&& p[0] == 0x45 && p[1] == 0x4C && p[2] == 0x50 && p[3] == 0x52 && p[4] == 2
            &&& forall|i: int| 8 <= i < 12 || 16 <= i < 24 ==> #[trigger] p[i] == request[i]
            &&& received == (p[24] * 0x100_0000 + p[25] * 0x1_0000 + p[26] * 0x100 + p[27])
                * 0x1_0000_0000 + p[28] * 0x100_0000 + p[29] * 0x1_0000 + p[30] * 0x100 + p[31]
            &&& forall|i: int| 5 <= i < 8 || 12 <= i < 16 ==> #[trigger] p[i] == 0
        }),
{
    let p = probe_response(request, received);
    lemma_pow256();
    lemma_be_bytes(received as nat, 8);
    assert(p.subrange(24, 32) =~= be_bytes(received as nat, 8));
    law_eight_bytes(p.subrange(24, 32));
}

/// A response measures the round trip: from the time in its bytes 16 to 23 to the time when it
/// came. It is told in tenths of a millisecond, to the nearest, and kept in whole microseconds; the
/// jitter moves by a sixteenth towards how far it is from the last one kept.
#[verifier::rlimit(40)]
#[verifier::spinoff_prover]
pub proof fn law_round_trip_is_measured(
    before: ProbeEngine,
    after: ProbeEngine,
    p: Seq<u8>,
    came: u64,
    r: Option<JitterStats>,
)
    requires
        before.wf(),
        probe_handled(before, after, p, came, r),
        p.len() >= 32,
        p[0] == 0x45 && p[1] == 0x4C && p[2] == 0x50 && p[3] == 0x52 && p[4] == 2,
    ensures
        ({
            let sent = (p[16] * 0x100_0000 + p[17] * 0x1_0000 + p[18] * 0x100 + p[19])
                * 0x1_0000_0000 + p[20] * 0x100_0000 + p[21] * 0x1_0000 + p[22] * 0x100 + p[23];
            let rtt = if came >= sent { came - sent } else { 0 };
            &&& r matches Some(stats) && {
                &&& -50_000 <= rtt - stats.rtt_tenths_ms * 100_000 < 50_000
                &&& -50_000 * 0x10_0000 <= after.jitter() - stats.jitter_tenths_ms * 100_000
                    * 0x10_0000 < 50_000 * 0x10_0000
            }
            &&& after.last_transit() matches Some(kept) && 0 <= rtt - kept * 1000 < 1000
            &&& before.last_transit() matches Some(last) ==> {
                let d = if rtt >= last * 1000 { rtt - last * 1000 } else { last * 1000 - rtt };
                0 <= 15 * before.jitter() + d * 0x10_0000 - 16 * after.jitter() < 16
            }
            &&& before.last_transit() is None ==> after.jitter() == before.jitter()
            &&& after.next_seq() == before.next_seq()
        }),
{
    law_what_is_a_probe(p, PROBE_RESP);
    law_eight_bytes(p.subrange(16, 24));
    lemma_be_value(p.subrange(16, 24));
    lemma_pow256();
    let sent = sent_time(p) as int;
    let rtt = round_trip(sent, came as int);
    assert(0 <= rtt < 0x1_0000_0000_0000_0000);
    let j = after.jitter();
    if let Some(last) = before.last_transit() {
        let d = if rtt >= last * 1000 { rtt - last * 1000 } else { last * 1000 - rtt };
        assert(0 <= d < 0x1_0000_0000_0000_0000);
        assert(j == (15 * before.jitter() + d * JITTER_UNIT) / 16);
    }
    assert(0 <= j < 0x1_0000_0000_0000_0000 * JITTER_UNIT);
    assert(0 <= rounded(j, 100_000 * JITTER_UNIT) < 0x1_0000_0000_0000_0000);
}

/// What is no response changes nothing, and nothing is told of it.
pub proof fn law_only_responses_are_measured(
    before: ProbeEngine,
    after: ProbeEngine,
    p: Seq<u8>,
    came: u64,
    r: Option<JitterStats>,
)
    requires
        probe_handled(before, after, p, came, r),
        p.len() < 32 || p[0] != 0x45 || p[1] != 0x4C || p[2] != 0x50 || p[3] != 0x52 || p[4] != 2,
    ensures
        r is None,
        after.next_seq() == before.next_seq(),
        after.last_transit() == before.last_transit(),
        after.jitter() == before.jitter(),
        after.window() == before.window(),
        after.last_seen() == before.last_seen(),
{
    law_what_is_a_probe(p, PROBE_RESP);
}

/// An answer to the request that is `g` ahead of the newest one answered so far moves the window on by
/// `g`: the request itself was answered, those skipped were not, and the others keep what they had.
/// Numbers begin anew after the last of all.
pub proof fn law_window_moves_on(window: u64, last: u32, number: u32, g: int, i: u64)
    requires
        1 <= g < 0x8000_0000,
        number == (last + g) % 0x1_0000_0000,
        i < 64,
    ensures
        (window_after(window, last, number) >> i) & 1 == 1 <==> (i == 0 || i >= g && (window >> ((i
            - g) as u64)) & 1 == 1),
        last_after(last, number) == number,
{
    assert(ahead(last, number) == g);
    law_skipped_requests_count_as_lost(window, last, number, i);
}

/// An answer to the newest request answered so far, or to one before it, sets its place in the
/// window where the window reaches that far, and changes nothing else.
pub proof fn law_late_answers_fill_the_window(window: u64, last: u32, number: u32, g: int, i: u64)
    requires
        0 <= g <= 0x8000_0000,
        number == (last - g) % 0x1_0000_0000,
        i < 64,
    ensures
        (window_after(window, last, number) >> i) & 1 == 1 <==> ((window >> i) & 1 == 1 || i == g),
        g >= 64 ==> window_after(window, last, number) == window,
        last_after(last, number) == last,
{
    assert(ahead(number, last) == g);
    assert(!is_newer(last, number)) by {
        if g > 0 {
            assert(ahead(last, number) == 0x1_0000_0000 - g);
        }
    }
    if g < 64 {
        law_late_answers_count(window, last, number, i);
    }
}

/// The loss is the share of zeros in the window: none where there is no zero, and each answer that
/// comes in late takes one of sixty-four off.
pub proof fn law_loss_counts_what_is_missing(window: u64, i: u64)
    requires
        i < 64,
        (window >> i) & 1 == 0,
    ensures
        answered_count(window | (1u64 << i), 64) == answered_count(window, 64) + 1,
        answered_count(u64::MAX, 64) == 64,
        ({
            let lost = 64 - answered_count(window, 64);
            &&& 1 <= lost <= 64
            &&& -32 <= lost * 1000 - loss_tenths(window) * 64 < 32
        }),
        loss_tenths(u64::MAX) == 0,
{
    lemma_full_window(64);
    lemma_count_with(window, i, 64);
    lemma_count_bound(window | (1u64 << i), 64);
}

/// No more requests were answered than there are.
proof fn lemma_count_bound(window: u64, n: nat)
    ensures
        answered_count(window, n) <= n,
    decreases n,
{
    if n > 0 {
        lemma_count_bound(window, (n - 1) as nat);
    }
}

/// One more bit is one more answer.
proof fn lemma_count_with(window: u64, i: u64, n: nat)
    requires
        i < 64,
        n <= 64,
        (window >> i) & 1 == 0,
    ensures
        answered_count(window | (1u64 << i), n) == answered_count(window, n) + if i < n {
            1int
        } else {
            0int
        },
    decreases n,
{
    if n > 0 {
        lemma_count_with(window, i, (n - 1) as nat);
        let k = (n - 1) as u64;
        assert((((window | (1u64 << i)) >> k) & 1 == 1) <==> ((window >> k) & 1 == 1 || k == i))
            by (bit_vector)
            requires
                i < 64,
                k < 64,
        ;
        assert(!((window >> i) & 1 == 1));
    }
}

/// The loss that is told after a response is that of the window that the number in its bytes 8 to
/// 11 leads to. After answers in turn, and then a gap, it is the share of the requests skipped.
pub proof fn law_loss_is_told(
    before: ProbeEngine,
    after: ProbeEngine,
    p: Seq<u8>,
    came: u64,
    r: Option<JitterStats>,
    g: int,
)
    requires
        probe_handled(before, after, p, came, r),
        p.len() >= 32,
        p[0] == 0x45 && p[1] == 0x4C && p[2] == 0x50 && p[3] == 0x52 && p[4] == 2,
        before.window() == u64::MAX,
        1 <= g < 0x8000_0000,
        p[8] * 0x100_0000 + p[9] * 0x1_0000 + p[10] * 0x100 + p[11] == (before.last_seen() + g)
            % 0x1_0000_0000,
    ensures
        ({
            let lost = if g <= 64 { g - 1 } else { 63 };
            &&& r matches Some(stats) && -32 <= lost * 1000 - stats.packet_loss_tenths_pct * 64 < 32
            &&& after.last_seen() == (before.last_seen() + g) % 0x1_0000_0000
        }),
{
    law_what_is_a_probe(p, PROBE_RESP);
    law_four_bytes(p.subrange(8, 12));
    lemma_be_value(p.subrange(8, 12));
    lemma_pow256();
    let number = number_of(p);
    assert(ahead(before.last_seen(), number) == g);
    law_loss_is_what_was_skipped(before.last_seen(), number);
}

/// The time that a probe carries is that of the clock, as far as sixty-four bits hold it, and the
/// number of a request is one more than that of the request before.
pub proof fn law_requests_bear_time_and_number(
    before: ProbeEngine,
    after: ProbeEngine,
    p: Seq<u8>,
)
    requires
        requested(before, after, p),
        0 <= after.clock(),
    ensures
        p.len() == 32,
        before.next_seq() == p[8] * 0x100_0000 + p[9] * 0x1_0000 + p[10] * 0x100 + p[11],
        after.next_seq() == (before.next_seq() + 1) % 0x1_0000_0000,
        after.clock() % 0x1_0000_0000_0000_0000 == (p[16] * 0x100_0000 + p[17] * 0x1_0000 + p[18]
            * 0x100 + p[19]) * 0x1_0000_0000 + p[20] * 0x100_0000 + p[21] * 0x1_0000 + p[22] * 0x100
            + p[23],
        after.clock() >= before.clock(),
        after.window() == before.window(),
        after.jitter() == before.jitter(),
        after.last_transit() == before.last_transit(),
{
    law_request_layout(before.next_seq(), time_at(after.clock()));
}

} // verus!
