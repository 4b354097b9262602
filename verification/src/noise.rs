//! The WireGuard protocol engine, as boringtun runs it.

use crate::addr::IpAddr;
use boringtun::noise::errors::WireGuardError;
use boringtun::noise::rate_limiter::RateLimiter;
use boringtun::noise::{Tunn, TunnResult};
use std::sync::Arc;
use vstd::prelude::*;

verus! {

/// One end of a WireGuard tunnel: boringtun's state machine, which nothing here looks into.
#[verifier::external_type_specification]
#[verifier::external_body]
pub struct ExTunn(Tunn);

/// The limiter of handshakes that the tunnels of one node share.
#[verifier::external_type_specification]
#[verifier::external_body]
pub struct ExRateLimiter(RateLimiter);

/// What the protocol engine reports as an error, carried as it is.
#[verifier::external_type_specification]
#[verifier::external_body]
pub struct ExWireGuardError(WireGuardError);

/// What the protocol engine asks for after a step.
#[derive(Debug)]
pub enum TunnelEvent {
    /// Nothing is to be done.
    Done,
    /// The step failed.
    Error(WireGuardError),
    /// These bytes go to the peer.
    Network(Vec<u8>),
    /// This IPv4 packet came out of the tunnel.
    PacketV4(Vec<u8>),
    /// This IPv6 packet came out of the tunnel.
    PacketV6(Vec<u8>),
}

/// The datagram begins with a message type, and with the zeros behind it.
pub open spec fn has_type(d: Seq<u8>, message_type: u8) -> bool {
    d.len() >= 4 && d[0] == message_type && d[1] == 0 && d[2] == 0 && d[3] == 0
}

/// The datagram is the start of a handshake.
pub open spec fn is_initiation(d: Seq<u8>) -> bool {
    has_type(d, 1) && d.len() == 148
}

/// The datagram is the answer in a handshake.
pub open spec fn is_response(d: Seq<u8>) -> bool {
    has_type(d, 2) && d.len() == 92
}

/// The datagram is a cookie, with which a busy node puts off a handshake.
pub open spec fn is_cookie(d: Seq<u8>) -> bool {
    has_type(d, 3) && d.len() == 64
}

/// The datagram carries data, sealed.
pub open spec fn is_data(d: Seq<u8>) -> bool {
    has_type(d, 4) && d.len() >= 32
}

/// A datagram carries data under a counter so high that the window of received counters
/// behind it would end beyond sixty-four bits.
pub open spec fn counter_near_end(data: Seq<u8>) -> bool {
    &&& is_data(data)
    &&& forall|i: int| 10 <= i < 16 ==> #[trigger] data[i] == 255
    &&& data[9] * 256 + data[8] > 65535 - 1024
}

/// Tests a datagram for a counter that is near its end.
pub fn is_counter_near_end(data: &[u8]) -> (r: bool)
    ensures
        r == counter_near_end(data@),
{
    data.len() >= 32 && data[0] == 4 && data[1] == 0 && data[2] == 0 && data[3] == 0 && data[10]
        == 255 && data[11] == 255 && data[12] == 255 && data[13] == 255 && data[14] == 255
        && data[15] == 255 && data[9] as u32 * 256 + data[8] as u32 > 65535 - 1024
}

/// What holds of an IPv4 packet that the engine makes of a datagram of `len` bytes: it is cut
/// to what its own length field says, and begins with the version, as far as the cut left
/// either.
pub open spec fn ipv4_event(packet: Seq<u8>, len: int) -> bool {
    &&& packet.len() <= 65535
    &&& packet.len() + 32 <= len
    &&& packet.len() >= 1 ==> packet[0] / 16 == 4
    &&& packet.len() >= 4 ==> packet[2] * 256 + packet[3] == packet.len()
}

/// What the engine can make of a datagram, by what it is. Only data yields packets, handshakes
/// are answered, and what is none of these is an error. An empty datagram only asks for what
/// waits to be sent.
pub open spec fn can_come_of(d: Seq<u8>, event: TunnelEvent) -> bool {
    match event {
        TunnelEvent::Error(_) => d.len() > 0,
        TunnelEvent::Done => d.len() == 0 || is_cookie(d) || is_data(d),
        TunnelEvent::Network(reply) => {
            ||| d.len() == 0 && (is_data(reply@) || is_initiation(reply@))
            ||| is_initiation(d) && (is_response(reply@) || is_cookie(reply@))
            ||| is_response(d) && (is_data(reply@) && reply@.len() == 32 || is_cookie(reply@))
        },
        TunnelEvent::PacketV4(packet) => is_data(d) && ipv4_event(packet@, d.len() as int),
        TunnelEvent::PacketV6(packet) => is_data(d) && packet@.len() + 32 <= d.len(),
    }
}

/// What the engine can make of a packet that goes out: the packet sealed, the start of a
/// handshake behind which it waits, or nothing while one is under way.
pub open spec fn can_come_of_packet(packet: Seq<u8>, event: TunnelEvent) -> bool {
    match event {
        TunnelEvent::Done => true,
        TunnelEvent::Network(d) => {
            ||| is_data(d@) && d@.len() == packet.len() + 32
            ||| is_initiation(d@)
        },
        _ => false,
    }
}

/// What the engine can make of a look at its timers: data without a packet in it, the start of a
/// handshake, nothing or an error.
pub open spec fn can_come_of_timers(event: TunnelEvent) -> bool {
    match event {
        TunnelEvent::Done | TunnelEvent::Error(_) => true,
        TunnelEvent::Network(d) => is_data(d@) && d@.len() == 32 || is_initiation(d@),
        _ => false,
    }
}

/// What is handed to the engine for a step.
pub ghost enum EngineInput {
    /// A packet that goes out.
    Packet(Seq<u8>),
    /// A datagram that came in, and from where.
    Datagram { source: Option<IpAddr>, datagram: Seq<u8> },
    /// A look at the timers.
    Timers,
}

/// A step of the engine: what it was handed, and what it made of it.
pub ghost struct EngineStep {
    pub input: EngineInput,
    pub event: TunnelEvent,
}

/// The steps that lead from one history of an engine to another are one, on this input.
pub open spec fn stepped(
    before: Seq<EngineStep>,
    after: Seq<EngineStep>,
    input: EngineInput,
) -> bool {
    &&& after.len() == before.len() + 1
    &&& after.take(before.len() as int) == before
    &&& after.last().input == input
}

/// The limiter of handshakes that the tunnels of a node share, with what it was made of.
pub struct HandshakeLimiter {
    limiter: Arc<RateLimiter>,
    public_key: [u8; 32],
    limit: u64,
}

impl HandshakeLimiter {
    /// The public key whose handshakes it limits.
    pub closed spec fn public_key(&self) -> Seq<u8> {
        self.public_key@
    }

    /// The limit of handshakes that it was made with.
    pub closed spec fn limit(&self) -> u64 {
        self.limit
    }

    /// The same limiter, for one more to share.
    pub fn share(&self) -> (r: HandshakeLimiter)
        ensures
            r == *self,
    {
        HandshakeLimiter {
            limiter: self.limiter.clone(),
            public_key: self.public_key,
            limit: self.limit,
        }
    }
}

/// What an engine is opened with: the own private key, the public key of the peer, the seconds
/// between two signs of life, and the local index.
#[derive(Clone, Copy)]
pub struct EngineKeys {
    pub secret: [u8; 32],
    pub peer: [u8; 32],
    pub keepalive: u16,
    pub index: u32,
}

/// A protocol engine: boringtun's state machine, with what it was opened with. Proofs see its
/// history too: what it was handed step by step, and what it made of it.
pub struct Engine {
    tunn: Tunn,
    keys: EngineKeys,
    limiter: HandshakeLimiter,
    steps: Ghost<Seq<EngineStep>>,
}

impl Engine {
    /// What the engine was opened with.
    pub closed spec fn keys(&self) -> EngineKeys {
        self.keys
    }

    /// The limiter that the engine shares.
    pub closed spec fn limiter(&self) -> HandshakeLimiter {
        self.limiter
    }

    /// The steps of the engine so far.
    pub closed spec fn steps(&self) -> Seq<EngineStep> {
        self.steps@
    }

    /// The state machine itself.
    pub closed spec fn tunn(&self) -> Tunn {
        self.tunn
    }

    /// The state machine itself, to be worked on directly, or to be put in the place of another.
    /// What is done there is no step of the history: of the engine that comes back from it nothing
    /// else is known any more.
    pub fn tunn_mut(&mut self) -> (r: &mut Tunn)
        ensures
            *r == old(self).tunn(),
            final(self).tunn() == *final(r),
    {
        &mut self.tunn
    }
}

/// Every packet that was handed to an engine, and may wait in it, fits sealed into a buffer.
pub open spec fn packets_fit(steps: Seq<EngineStep>, buffer_len: int) -> bool {
    forall|i: int|
        0 <= i < steps.len() ==> ((#[trigger] steps[i]).input matches EngineInput::Packet(p)
            ==> p.len() + 32 <= buffer_len)
}

/// In this step the engine answered a datagram that came in. Only handshakes are answered.
pub open spec fn answered_handshake(step: EngineStep) -> bool {
    &&& step.input matches EngineInput::Datagram { datagram, .. } && datagram.len() > 0
    &&& step.event is Network
}

/// In one of the steps the engine answered a handshake. Before that it has no session.
pub open spec fn had_handshake(steps: Seq<EngineStep>) -> bool {
    exists|i: int| 0 <= i < steps.len() && answered_handshake(#[trigger] steps[i])
}

/// What one more step means for the packets that may wait, and for the handshakes.
pub proof fn lemma_stepped(
    before: Seq<EngineStep>,
    after: Seq<EngineStep>,
    input: EngineInput,
    buffer_len: int,
)
    requires
        stepped(before, after, input),
    ensures
        packets_fit(after, buffer_len) <==> packets_fit(before, buffer_len) && (input matches
            EngineInput::Packet(p) ==> p.len() + 32 <= buffer_len),
        had_handshake(after) <==> had_handshake(before) || answered_handshake(after.last()),
{
    let step = after.last();
    assert(after =~= before.push(step));
    assert forall|i: int| 0 <= i < before.len() implies #[trigger] before[i] == after[i] by {}
    if packets_fit(after, buffer_len) {
        assert forall|i: int| 0 <= i < before.len() implies ((#[trigger] before[i]).input matches
            EngineInput::Packet(p) ==> p.len() + 32 <= buffer_len) by {
            assert(after[i] == before[i]);
        }
        assert(after[after.len() - 1] == step);
    }
    if had_handshake(before) {
        let i = choose|i: int|
            0 <= i < before.len() && answered_handshake(#[trigger] before[i]);
        assert(answered_handshake(after[i]));
    }
    if answered_handshake(step) {
        assert(answered_handshake(after[after.len() - 1]));
    }
}

/// Calls `RateLimiter::new` with a public key and a limit of handshakes, and notes
/// the two beside it. Nothing more is claimed of the limiter, whose secret is drawn at random.
#[verifier::external_body]
pub(crate) fn new_rate_limiter(public_key: &[u8; 32], limit: u64) -> (r: HandshakeLimiter)
    ensures
        r.public_key() == public_key@,
        r.limit() == limit,
{
    let key = boringtun::x25519::PublicKey::from(*public_key);
    let limiter = Arc::new(RateLimiter::new(&key, limit));
    HandshakeLimiter { limiter, public_key: *public_key, limit }
}

/// Calls `Tunn::new` without a preshared key, with the keys, keepalive and index given and the
/// limiter shared, and notes these beside it. The engine has made no step.
#[verifier::external_body]
pub(crate) fn new_engine(keys: EngineKeys, limiter: HandshakeLimiter) -> (r: Engine)
    ensures
        r.keys() == keys,
        r.limiter() == limiter,
        r.steps() == Seq::<EngineStep>::empty(),
{
    let secret = boringtun::x25519::StaticSecret::from(keys.secret);
    let peer = boringtun::x25519::PublicKey::from(keys.peer);
    let shared = Some(limiter.limiter.clone());
    let tunn = Tunn::new(secret, peer, None, Some(keys.keepalive), keys.index, shared);
    Engine { tunn, keys, limiter, steps: Ghost(Seq::empty()) }
}

/// Calls `Tunn::encapsulate`. What can come of a packet is in [`can_come_of_packet`]. Which of
/// it does, and the bytes, rest on the state of the engine, on the clock and on chance. The
/// packet may stay in a queue of the engine, to be sent by [`decapsulate`].
#[verifier::external_body]
pub(crate) fn encapsulate(engine: &mut Engine, packet: &[u8], buffer: &mut Vec<u8>) -> (r:
    TunnelEvent)
    requires
        old(buffer)@.len() >= packet@.len() + 32,
        old(buffer)@.len() >= 148,
    ensures
        final(buffer)@.len() == old(buffer)@.len(),
        final(engine).keys() == old(engine).keys(),
        final(engine).limiter() == old(engine).limiter(),
        stepped(old(engine).steps(), final(engine).steps(), EngineInput::Packet(packet@)),
        final(engine).steps().last().event == r,
        can_come_of_packet(packet@, r),
{
    match engine.tunn.encapsulate(packet, buffer.as_mut_slice()) {
        TunnResult::Done => TunnelEvent::Done,
        TunnResult::Err(e) => TunnelEvent::Error(e),
        TunnResult::WriteToNetwork(bytes) => TunnelEvent::Network(bytes.to_vec()),
        TunnResult::WriteToTunnelV4(bytes, _) => TunnelEvent::PacketV4(bytes.to_vec()),
        TunnResult::WriteToTunnelV6(bytes, _) => TunnelEvent::PacketV6(bytes.to_vec()),
    }
}

/// Calls `Tunn::decapsulate`. What can come of a datagram is in [`can_come_of`]. Which of it
/// does, and the bytes, rest on the state of the engine, on the clock and on chance. The buffer
/// takes what data holds, and any packet that waits in the engine. Sessions come of handshakes
/// alone, so that data before the first one is an error, whatever its counter.
#[verifier::external_body]
pub(crate) fn decapsulate(
    engine: &mut Engine,
    source: Option<IpAddr>,
    datagram: &[u8],
    buffer: &mut Vec<u8>,
) -> (r: TunnelEvent)
    requires
        old(buffer)@.len() >= 148,
        is_data(datagram@) ==> datagram@.len() <= old(buffer)@.len() + 16,
        packets_fit(old(engine).steps(), old(buffer)@.len() as int),
        counter_near_end(datagram@) ==> !had_handshake(old(engine).steps()),
    ensures
        final(buffer)@.len() == old(buffer)@.len(),
        final(engine).keys() == old(engine).keys(),
        final(engine).limiter() == old(engine).limiter(),
        stepped(
            old(engine).steps(),
            final(engine).steps(),
            (EngineInput::Datagram { source, datagram: datagram@ }),
        ),
        final(engine).steps().last().event == r,
        can_come_of(datagram@, r),
        is_data(datagram@) && !had_handshake(old(engine).steps()) ==> r is Error,
{
    let source = source.map(|ip| match ip {
        IpAddr::V4(ip) => [ip.a, ip.b, ip.c, ip.d].into(),
        IpAddr::V6(segments) => segments.into(),
    });
    match engine.tunn.decapsulate(source, datagram, buffer.as_mut_slice()) {
        TunnResult::Done => TunnelEvent::Done,
        TunnResult::Err(e) => TunnelEvent::Error(e),
        TunnResult::WriteToNetwork(bytes) => TunnelEvent::Network(bytes.to_vec()),
        TunnResult::WriteToTunnelV4(bytes, _) => TunnelEvent::PacketV4(bytes.to_vec()),
        TunnResult::WriteToTunnelV6(bytes, _) => TunnelEvent::PacketV6(bytes.to_vec()),
    }
}

/// Calls `Tunn::update_timers`. What can come of it is in [`can_come_of_timers`]. Which of it
/// does rests on the state of the engine and on the clock.
#[verifier::external_body]
pub(crate) fn update_timers(engine: &mut Engine, buffer: &mut Vec<u8>) -> (r: TunnelEvent)
    requires
        old(buffer)@.len() >= 148,
    ensures
        final(buffer)@.len() == old(buffer)@.len(),
        final(engine).keys() == old(engine).keys(),
        final(engine).limiter() == old(engine).limiter(),
        stepped(old(engine).steps(), final(engine).steps(), EngineInput::Timers),
        final(engine).steps().last().event == r,
        can_come_of_timers(r),
{
    match engine.tunn.update_timers(buffer.as_mut_slice()) {
        TunnResult::Done => TunnelEvent::Done,
        TunnResult::Err(e) => TunnelEvent::Error(e),
        TunnResult::WriteToNetwork(bytes) => TunnelEvent::Network(bytes.to_vec()),
        TunnResult::WriteToTunnelV4(bytes, _) => TunnelEvent::PacketV4(bytes.to_vec()),
        TunnResult::WriteToTunnelV6(bytes, _) => TunnelEvent::PacketV6(bytes.to_vec()),
    }
}

/// A datagram has a counter near its end if it is data, and the number in its bytes 8 to 15, the
/// lowest first, is one of the last 1024 numbers but one.
pub proof fn law_counters_near_their_end(d: Seq<u8>)
    requires
        d.len() >= 32,
        d[0] == 4 && d[1] == 0 && d[2] == 0 && d[3] == 0,
    ensures
        counter_near_end(d) <==> (d[8] + d[9] * 0x100 + d[10] * 0x1_0000 + d[11] * 0x100_0000) + (d[12]
            + d[13] * 0x100 + d[14] * 0x1_0000 + d[15] * 0x100_0000) * 0x1_0000_0000
            > 0xFFFF_FFFF_FFFF_FFFF - 1024,
{
    let low = d[8] + d[9] * 0x100 + d[10] * 0x1_0000 + d[11] * 0x100_0000;
    let high = d[12] + d[13] * 0x100 + d[14] * 0x1_0000 + d[15] * 0x100_0000;
    if counter_near_end(d) {
        assert(d[10] == 255 && d[11] == 255 && d[12] == 255 && d[13] == 255 && d[14] == 255 && d[15]
            == 255);
    }
    if low + high * 0x1_0000_0000 > 0xFFFF_FFFF_FFFF_FFFF - 1024 {
        assert(high == 0xFFFF_FFFF);
        assert(d[15] == 255 && d[14] == 255 && d[13] == 255 && d[12] == 255);
        assert(d[11] == 255 && d[10] == 255);
        assert forall|i: int| 10 <= i < 16 implies #[trigger] d[i] == 255 by {}
    }
}

/// A step adds itself to the history, with what the engine was handed, and leaves the rest.
pub proof fn law_steps_are_added(
    before: Seq<EngineStep>,
    after: Seq<EngineStep>,
    input: EngineInput,
)
    requires
        stepped(before, after, input),
    ensures
        after == before.push(after.last()),
        after.last().input == input,
{
    assert(after =~= before.push(after.last()));
}

} // verus!
