//! Tunnels to the peers, and what they let through.

use crate::addr::{IpAddr, Ipv4Addr, SocketAddr};
use crate::clock::reads_clock;
use crate::keys::{PublicKey, StaticSecret};
use crate::limiter::{gap, granted, level_after, BroadcastRateLimiter, TOKEN};
use crate::noise::{
    can_come_of, can_come_of_packet, can_come_of_timers, counter_near_end, decapsulate,
    encapsulate, had_handshake, is_cookie, is_counter_near_end, is_data, is_initiation,
    is_response, lemma_stepped, new_engine, packets_fit, stepped, update_timers, Engine, EngineInput, EngineKeys, EngineStep,
    HandshakeLimiter, TunnelEvent,
};
use crate::packet::{
    be16, clamp_tcp_mss, clamped, header_len, is_sensitive_host_port, law_clamp_bounds_mss,
    law_clamp_is_local, mss_option, options_end, options_start, targets_sensitive_port,
};
use crate::subnet::{in_subnet, law_virtual_lan_addresses, subnet_contains};
use boringtun::noise::errors::WireGuardError;
use boringtun::noise::Tunn;
use vstd::prelude::*;

verus! {

/// The largest TCP segment that a packet out of the tunnel may announce.
pub const MAX_SEGMENT: u16 = 1340;

/// Result of decapsulating a packet
#[derive(Debug)]
pub enum DecapsulateOutput {
    /// Plaintext IP packet to be injected into the TUN virtual adapter
    TunnelPacket(Vec<u8>),
    /// Handshake or keepalive packet to be sent to peer over UDP
    NetworkPacket(Vec<u8>),
    /// Decapsulation succeeded with no output required
    Done,
}

/// What a [`DecapsulateOutput`] holds.
pub ghost enum OutputView {
    TunnelPacket(Seq<u8>),
    NetworkPacket(Seq<u8>),
    Done,
}

impl View for DecapsulateOutput {
    type V = OutputView;

    open spec fn view(&self) -> OutputView {
        match self {
            DecapsulateOutput::TunnelPacket(p) => OutputView::TunnelPacket(p@),
            DecapsulateOutput::NetworkPacket(p) => OutputView::NetworkPacket(p@),
            DecapsulateOutput::Done => OutputView::Done,
        }
    }
}

/// The source address that an IPv4 packet claims.
pub open spec fn source_of(p: Seq<u8>) -> Ipv4Addr {
    Ipv4Addr { a: p[12], b: p[13], c: p[14], d: p[15] }
}

/// The destination address of an IPv4 packet.
pub open spec fn destination_of(p: Seq<u8>) -> Ipv4Addr {
    Ipv4Addr { a: p[16], b: p[17], c: p[18], d: p[19] }
}

/// An address that all of the virtual LAN listens to: 255.255.255.255 or 10.7.0.255.
pub open spec fn is_lan_broadcast(ip: Ipv4Addr) -> bool {
    ip.limited_broadcast() || ip == (Ipv4Addr { a: 10, b: 7, c: 0, d: 255 })
}

/// Tests an address for being one that all of the virtual LAN listens to.
pub fn lan_broadcast(ip: Ipv4Addr) -> (r: bool)
    ensures
        r == is_lan_broadcast(ip),
{
    ip.is_broadcast() || ip == Ipv4Addr::new(10, 7, 0, 255)
}

/// The source address that a packet with a whole IPv4 header claims.
fn source(packet: &[u8]) -> (r: Ipv4Addr)
    requires
        packet@.len() >= 20,
    ensures
        r == source_of(packet@),
{
    Ipv4Addr::new(packet[12], packet[13], packet[14], packet[15])
}

/// The destination address of a packet that has a whole IPv4 header.
pub fn destination(packet: &[u8]) -> (r: Ipv4Addr)
    requires
        packet@.len() >= 20,
    ensures
        r == destination_of(packet@),
{
    Ipv4Addr::new(packet[16], packet[17], packet[18], packet[19])
}

/// What a tunnel lets through: the peer behind it, whether the peer relays for others, and the
/// virtual subnet.
#[derive(Debug, Clone, Copy)]
pub struct InboundPolicy {
    pub is_gateway: bool,
    pub peer_ip: Ipv4Addr,
    pub network: u32,
    pub netmask: u32,
}

/// What becomes of an IPv4 packet that came out of a tunnel.
#[derive(Debug, Clone, Copy, PartialEq, Eq, Structural)]
pub enum Verdict {
    /// It is shorter than an IPv4 header.
    Runt,
    /// Its source is none that the peer may speak for.
    Spoofed,
    /// Its destination lies outside the virtual subnet.
    External,
    /// It is a broadcast above the allowance of the peer.
    Throttled,
    /// It targets a port of the host's own services.
    Sensitive,
    /// It is let through.
    Deliver,
}

impl InboundPolicy {
    /// The peer may send packets that claim this source. A gateway may relay for all of the
    /// virtual subnet, any other peer speaks for itself alone.
    pub open spec fn source_allowed(self, source: Ipv4Addr) -> bool {
        if self.is_gateway {
            in_subnet(source, self.network, self.netmask) && !source.limited_broadcast()
        } else {
            source == self.peer_ip
        }
    }

    /// Packets from the peer may go to this destination.
    pub open spec fn destination_allowed(self, destination: Ipv4Addr) -> bool {
        is_lan_broadcast(destination) || in_subnet(destination, self.network, self.netmask)
    }

    /// The packet is a broadcast that nothing but the allowance of the peer can stop so far.
    pub open spec fn costs_token(self, p: Seq<u8>) -> bool {
        p.len() >= 20 && self.source_allowed(source_of(p)) && is_lan_broadcast(destination_of(p))
    }

    /// What becomes of a packet, given whether a broadcast is within the allowance.
    pub open spec fn verdict(self, p: Seq<u8>, token: bool) -> Verdict {
        if p.len() < 20 {
            Verdict::Runt
        } else if !self.source_allowed(source_of(p)) {
            Verdict::Spoofed
        } else if !self.destination_allowed(destination_of(p)) {
            Verdict::External
        } else if is_lan_broadcast(destination_of(p)) && !token {
            Verdict::Throttled
        } else if targets_sensitive_port(p) {
            Verdict::Sensitive
        } else {
            Verdict::Deliver
        }
    }

    /// Tests whether a packet is a broadcast that nothing but the allowance can stop so far.
    pub fn needs_token(&self, packet: &[u8]) -> (r: bool)
        ensures
            r == self.costs_token(packet@),
    {
        packet.len() >= 20 && self.admits_source(source(packet)) && lan_broadcast(
            destination(packet),
        )
    }

    /// Tests whether the peer may send packets that claim this source.
    pub fn admits_source(&self, source: Ipv4Addr) -> (r: bool)
        ensures
            r == self.source_allowed(source),
    {
        if self.is_gateway {
            subnet_contains(source, self.network, self.netmask) && !source.is_broadcast()
        } else {
            source == self.peer_ip
        }
    }

    /// Decides what becomes of a packet, given whether a broadcast is within the allowance.
    pub fn judge(&self, packet: &[u8], token: bool) -> (r: Verdict)
        ensures
            r == self.verdict(packet@, token),
    {
        if packet.len() < 20 {
            return Verdict::Runt;
        }
        if !self.admits_source(source(packet)) {
            return Verdict::Spoofed;
        }
        let to: Ipv4Addr = destination(packet);
        let broadcast: bool = lan_broadcast(to);
        if !broadcast && !subnet_contains(to, self.network, self.netmask) {
            Verdict::External
        } else if broadcast && !token {
            Verdict::Throttled
        } else if is_sensitive_host_port(packet) {
            Verdict::Sensitive
        } else {
            Verdict::Deliver
        }
    }
}

/// What goes on from a tunnel after one step of its engine.
pub open spec fn outputs_of(policy: InboundPolicy, event: TunnelEvent, token: bool) -> Seq<
    OutputView,
> {
    match event {
        TunnelEvent::Network(datagram) => seq![OutputView::NetworkPacket(datagram@)],
        TunnelEvent::PacketV4(packet) => if policy.verdict(packet@, token) is Deliver {
            seq![OutputView::TunnelPacket(clamped(packet@, MAX_SEGMENT as int))]
        } else {
            seq![]
        },
        _ => seq![],
    }
}

/// What a list of outputs holds.
pub open spec fn output_views(outputs: Seq<DecapsulateOutput>) -> Seq<OutputView> {
    outputs.map_values(|o: DecapsulateOutput| o@)
}

/// Datagrams that go to the peer, as outputs.
pub open spec fn to_network(datagrams: Seq<Vec<u8>>) -> Seq<OutputView> {
    datagrams.map_values(|d: Vec<u8>| OutputView::NetworkPacket(d@))
}

/// Why a packet did not pass a tunnel.
#[derive(Debug)]
pub enum TunnelFault {
    /// The engine refused to encapsulate.
    Encapsulation(WireGuardError),
    /// The engine took the packet and gave nothing to send.
    NotEncapsulated,
    /// The engine refused to decapsulate.
    Decapsulation(WireGuardError),
    /// The counter of a datagram is so near its end that the engine cannot take it.
    CounterNearEnd,
}

/// What a datagram comes to, given the first step of the engine on it, whether a broadcast is
/// within the allowance, and the datagrams that the engine had waiting behind it.
pub open spec fn settled(
    policy: InboundPolicy,
    event: TunnelEvent,
    token: bool,
    waiting: Seq<Vec<u8>>,
    r: Result<Vec<DecapsulateOutput>, TunnelFault>,
) -> bool {
    match event {
        TunnelEvent::Error(e) => r == Err::<Vec<DecapsulateOutput>, TunnelFault>(
            TunnelFault::Decapsulation(e),
        ),
        _ => r is Ok && output_views(r->Ok_0@) == outputs_of(policy, event, token) + to_network(
            waiting,
        ),
    }
}

/// Turns what the engine gave into what goes on.
pub fn settle(
    policy: &InboundPolicy,
    event: TunnelEvent,
    token: bool,
    waiting: Vec<Vec<u8>>,
) -> (r: Result<Vec<DecapsulateOutput>, TunnelFault>)
    ensures
        settled(*policy, event, token, waiting@, r),
{
    let mut outputs: Vec<DecapsulateOutput> = Vec::new();
    let ghost first = outputs_of(*policy, event, token);
    match event {
        TunnelEvent::Error(e) => {
            return Err(TunnelFault::Decapsulation(e));
        },
        TunnelEvent::Network(datagram) => {
            outputs.push(DecapsulateOutput::NetworkPacket(datagram));
        },
        TunnelEvent::PacketV4(packet) => {
            let mut packet: Vec<u8> = packet;
            if policy.judge(&packet, token) == Verdict::Deliver {
                clamp_tcp_mss(packet.as_mut_slice(), MAX_SEGMENT);
                outputs.push(DecapsulateOutput::TunnelPacket(packet));
            }
        },
        TunnelEvent::PacketV6(_) | TunnelEvent::Done => {},
    }
    assert(output_views(outputs@) =~= first);
    let ghost all = waiting@;
    assert(to_network(all.take(0)) =~= Seq::<OutputView>::empty());
    for datagram in it: waiting
        invariant
            it.seq() == all,
            output_views(outputs@) == first + to_network(all.take(it.index() as int)),
    {
        let ghost before = outputs@;
        let ghost done = all.take(it.index() as int);
        assert(all.take(it.index() + 1) == done.push(datagram));
        outputs.push(DecapsulateOutput::NetworkPacket(datagram));
        let ghost view = OutputView::NetworkPacket(datagram@);
        assert(output_views(outputs@) =~= output_views(before).push(view));
        assert(to_network(done.push(datagram)) =~= to_network(done).push(view));
    }
    assert(all.take(all.len() as int) == all);
    Ok(outputs)
}

/// How the allowance for broadcasts changes when it is asked for a token: its clock moves on,
/// and it fills and is drawn on by the time since it was asked last.
pub open spec fn asked_once(before: BroadcastRateLimiter, after: BroadcastRateLimiter) -> bool {
    &&& after.capacity() == before.capacity()
    &&& after.rate() == before.rate()
    &&& after.started() == before.started()
    &&& after.clock() >= before.clock()
    &&& after.asked() == after.clock()
    &&& reads_clock(before.started(), before.clock(), after.clock())
    &&& after.level() == level_after(
        before.level(),
        before.capacity(),
        before.rate(),
        gap(before.asked(), after.asked()),
    )
}

/// What the allowance says when it is asked.
pub open spec fn token_given(before: BroadcastRateLimiter, after: BroadcastRateLimiter) -> bool {
    granted(
        before.level(),
        before.capacity(),
        before.rate(),
        gap(before.asked(), after.asked()),
    )
}

/// The allowance is asked for a token: the engine made a packet of the datagram that is a
/// broadcast which the allowance alone can stop.
pub open spec fn asks_token(policy: InboundPolicy, event: TunnelEvent) -> bool {
    event matches TunnelEvent::PacketV4(packet) && policy.costs_token(packet@)
}

/// Nothing waits behind the event: it asks for nothing, or is an error.
pub open spec fn is_over(event: TunnelEvent) -> bool {
    event is Done || event is Error
}

/// What the engine is handed when it is asked for what waits: nothing, from nowhere.
pub open spec fn ask() -> EngineInput {
    EngineInput::Datagram { source: None, datagram: seq![] }
}

/// The steps of the engine are those of asking for what waits, again and again until there is
/// no more, or as often as can be counted.
pub open spec fn asked_for_waiting(steps: Seq<EngineStep>) -> bool {
    &&& steps.len() >= 1
    &&& forall|i: int| 0 <= i < steps.len() ==> (#[trigger] steps[i]).input == ask()
    &&& forall|i: int| 0 <= i < steps.len() - 1 ==> (#[trigger] steps[i]).event is Network
    &&& steps.last().event !is Network || steps.len() == u64::MAX
}

/// The datagrams that the engine gave in some steps.
pub open spec fn waiting_of(steps: Seq<EngineStep>) -> Seq<Vec<u8>>
    decreases steps.len(),
{
    if steps.len() == 0 {
        seq![]
    } else {
        match steps.last().event {
            TunnelEvent::Network(datagram) => waiting_of(steps.drop_last()).push(datagram),
            _ => waiting_of(steps.drop_last()),
        }
    }
}

/// From where a datagram came, as the engine is told: an empty one comes from nowhere.
pub open spec fn source_told(src_addr: SocketAddr, data: Seq<u8>) -> Option<IpAddr> {
    if data.len() > 0 {
        Some(src_addr.address())
    } else {
        None
    }
}

/// Finds out what the engine is told of where a datagram came from.
pub fn datagram_source(src_addr: SocketAddr, data: &[u8]) -> (r: Option<IpAddr>)
    ensures
        r == source_told(src_addr, data@),
{
    if data.len() > 0 {
        Some(src_addr.ip())
    } else {
        None
    }
}

/// What a datagram comes to. The engine is handed the datagram, and then asked for what waits
/// unless the first event is over; these are its `steps`. The allowance is asked for a token
/// exactly where the event is a broadcast that it alone can stop. [`settled`] says what follows.
pub open spec fn decrypted(
    policy: InboundPolicy,
    source: Option<IpAddr>,
    data: Seq<u8>,
    steps: Seq<EngineStep>,
    before: BroadcastRateLimiter,
    after: BroadcastRateLimiter,
    r: Result<Vec<DecapsulateOutput>, TunnelFault>,
) -> bool {
    let event = steps[0].event;
    let rest = steps.skip(1);
    &&& steps.len() >= 1
    &&& steps[0].input == EngineInput::Datagram { source, datagram: data }
    &&& can_come_of(data, event)
    &&& if is_over(event) {
        rest.len() == 0
    } else {
        asked_for_waiting(rest)
    }
    &&& forall|i: int| 0 <= i < rest.len() ==> can_come_of(seq![], (#[trigger] rest[i]).event)
    &&& if asks_token(policy, event) {
        asked_once(before, after)
    } else {
        after == before
    }
    &&& settled(
        policy,
        event,
        !asks_token(policy, event) || token_given(before, after),
        waiting_of(rest),
        r,
    )
}

/// Adds what the engine had waiting to what was gathered so far. Tells whether there may be
/// more: the engine is asked again after a datagram, and after nothing else.
pub fn gather(waiting: &mut Vec<Vec<u8>>, event: TunnelEvent) -> (r: bool)
    ensures
        r == (event is Network),
        final(waiting)@ == match event {
            TunnelEvent::Network(datagram) => old(waiting)@.push(datagram),
            _ => old(waiting)@,
        },
{
    match event {
        TunnelEvent::Network(datagram) => {
            waiting.push(datagram);
            true
        },
        _ => false,
    }
}

/// The buffers of a tunnel, used again and again.
pub struct Buffers {
    decrypt: Vec<u8>,
    encrypt: Vec<u8>,
}

impl Buffers {
    /// How much the buffer for what comes in takes.
    pub closed spec fn decrypt_len(&self) -> int {
        self.decrypt@.len() as int
    }

    /// How much the buffer for what goes out takes.
    pub closed spec fn encrypt_len(&self) -> int {
        self.encrypt@.len() as int
    }

    /// Buffers that take any packet of the virtual LAN.
    fn new() -> (r: Buffers)
        ensures
            r.decrypt_len() == 65536,
            r.encrypt_len() == 2048,
    {
        Buffers { decrypt: vec![0u8; 65536], encrypt: vec![0u8; 2048] }
    }

    /// Makes the buffer for what comes in large enough for `len` bytes.
    fn grow_decrypt(&mut self, len: usize)
        ensures
            final(self).decrypt_len() == if old(self).decrypt_len() < len {
                len as int
            } else {
                old(self).decrypt_len()
            },
            final(self).encrypt_len() == old(self).encrypt_len(),
    {
        if self.decrypt.len() < len {
            self.decrypt.resize(len, 0);
        }
    }

    /// Makes the buffer for what goes out large enough for `len` bytes.
    fn grow_encrypt(&mut self, len: usize)
        ensures
            final(self).encrypt_len() == if old(self).encrypt_len() < len {
                len as int
            } else {
                old(self).encrypt_len()
            },
            final(self).decrypt_len() == old(self).decrypt_len(),
    {
        if self.encrypt.len() < len {
            self.encrypt.resize(len, 0);
        }
    }
}

/// Per-peer tunnel state with reusable buffers.
pub struct PeerTunnel {
    pub engine: Engine,
    pub buffers: Buffers,
    pub is_gateway: bool,
    pub broadcast_limiter: BroadcastRateLimiter,
    /// A handshake of the peer may have been answered.
    pub handshaken: bool,
}

impl PeerTunnel {
    /// The buffers are large enough for what the engine may put into them.
    pub open spec fn wf(&self) -> bool {
        &&& self.buffers.decrypt_len() >= 65536
        &&& self.buffers.encrypt_len() >= 2048
        &&& packets_fit(self.engine.steps(), self.buffers.decrypt_len())
        &&& had_handshake(self.engine.steps()) ==> self.handshaken
        &&& self.broadcast_limiter.wf()
    }

    /// What the tunnel was opened with: the own key, the key of the peer, the keepalive and the
    /// local index.
    pub open spec fn keys(&self) -> EngineKeys {
        self.engine.keys()
    }

    /// The steps of the protocol engine so far.
    pub open spec fn steps(&self) -> Seq<EngineStep> {
        self.engine.steps()
    }

    /// The tunnel is still the same one: it was opened with the same keys, shares the same limiter
    /// and stands with the peer as it did.
    pub open spec fn same_tunnel(&self, other: &PeerTunnel) -> bool {
        &&& self.keys() == other.keys()
        &&& self.engine.limiter() == other.engine.limiter()
        &&& self.is_gateway == other.is_gateway
    }

    /// What the tunnel lets through from the peer at an address.
    pub open spec fn policy(&self, peer_ip: Ipv4Addr, network: u32, netmask: u32) -> InboundPolicy {
        InboundPolicy { is_gateway: self.is_gateway, peer_ip, network, netmask }
    }

    /// Opens a tunnel to a peer, kept alive every 25 seconds, with an allowance of 150
    /// broadcasts at once and 100 per second.
    pub fn open(
        own_private_key: &StaticSecret,
        peer_public_key: &PublicKey,
        index: u32,
        rate_limiter: HandshakeLimiter,
        is_gateway: bool,
    ) -> (r: PeerTunnel)
        ensures
            r.wf(),
            fresh_tunnel(r, *own_private_key, *peer_public_key, index, is_gateway),
            r.engine.limiter() == rate_limiter,
    {
        let keys: EngineKeys = EngineKeys {
            secret: own_private_key.bytes,
            peer: peer_public_key.bytes,
            keepalive: 25,
            index,
        };
        PeerTunnel {
            engine: new_engine(keys, rate_limiter),
            buffers: Buffers::new(),
            is_gateway,
            broadcast_limiter: BroadcastRateLimiter::new(150, 100),
            handshaken: false,
        }
    }

    /// Encrypt an outgoing IP packet, returns WireGuard UDP payload.
    /// Uses the per-peer reusable encrypt buffer.
    ///
    /// The payload is either the packet, sealed, or the start of a handshake, behind which the
    /// packet waits. While a handshake is under way there is no payload.
    pub fn encrypt_packet(&mut self, _peer_ip: Ipv4Addr, packet: &[u8]) -> (r: Result<
        Vec<u8>,
        TunnelFault,
    >)
        requires
            old(self).wf(),
            packet@.len() + 48 <= usize::MAX,
        ensures
            final(self).wf(),
            final(self).same_tunnel(old(self)),
            final(self).broadcast_limiter == old(self).broadcast_limiter,
            final(self).handshaken == old(self).handshaken,
            stepped(old(self).steps(), final(self).steps(), EngineInput::Packet(packet@)),
            can_come_of_packet(packet@, final(self).steps().last().event),
            r == payload(final(self).steps().last().event),
            match r {
                Ok(payload) => {
                    ||| is_data(payload@) && payload@.len() == packet@.len() + 32
                    ||| is_initiation(payload@)
                },
                Err(fault) => fault is NotEncapsulated,
            },
    {
        // WG header + MACs
        self.buffers.grow_encrypt(packet.len() + 32 + 16);
        // The packet may have to wait, and leaves through the other buffer then.
        self.buffers.grow_decrypt(packet.len() + 32);
        let event: TunnelEvent = encapsulate(&mut self.engine, packet, &mut self.buffers.encrypt);
        proof {
            lemma_stepped(
                old(self).steps(),
                self.steps(),
                EngineInput::Packet(packet@),
                self.buffers.decrypt_len(),
            );
        }
        payload_of(event)
    }

    /// The datagrams that the engine has waiting for the peer.
    fn waiting(&mut self) -> (r: Vec<Vec<u8>>)
        requires
            old(self).wf(),
        ensures
            final(self).wf(),
            final(self).same_tunnel(old(self)),
            final(self).broadcast_limiter == old(self).broadcast_limiter,
            final(self).handshaken == old(self).handshaken,
            final(self).steps().len() > old(self).steps().len(),
            final(self).steps().take(old(self).steps().len() as int) == old(self).steps(),
            ({
                let new = final(self).steps().skip(old(self).steps().len() as int);
                &&& asked_for_waiting(new)
                &&& r@ == waiting_of(new)
                &&& forall|i: int|
                    0 <= i < new.len() ==> can_come_of(seq![], (#[trigger] new[i]).event)
            }),
    {
        let mut r: Vec<Vec<u8>> = Vec::new();
        let ghost first = self.steps();
        let ghost mut new: Seq<EngineStep> = seq![];
        // The engine holds a few hundred packets at most: the bound is never reached.
        let mut left: u64 = u64::MAX;
        assert(first.take(first.len() as int) =~= first);
        assert(first.skip(first.len() as int) =~= new);
        while left > 0
            invariant
                self.wf(),
                self.same_tunnel(old(self)),
                self.broadcast_limiter == old(self).broadcast_limiter,
                self.handshaken == old(self).handshaken,
                first == old(self).steps(),
                self.steps() == first + new,
                new.len() == u64::MAX - left,
                forall|i: int| 0 <= i < new.len() ==> (#[trigger] new[i]).input == ask(),
                forall|i: int| 0 <= i < new.len() ==> (#[trigger] new[i]).event is Network,
                forall|i: int|
                    0 <= i < new.len() ==> can_come_of(seq![], (#[trigger] new[i]).event),
                r@ == waiting_of(new),
            decreases left,
        {
            left -= 1;
            let ghost before = self.steps();
            let nothing: Vec<u8> = Vec::new();
            assert(nothing@ =~= seq![]);
            let event: TunnelEvent = decapsulate(
                &mut self.engine,
                None,
                &nothing,
                &mut self.buffers.decrypt,
            );
            let ghost step = self.steps().last();
            proof {
                let after = self.steps();
                lemma_stepped(before, after, ask(), self.buffers.decrypt_len());
                assert(after =~= before.push(step));
                assert(new.push(step).drop_last() =~= new);
                new = new.push(step);
                assert(after =~= first + new);
                assert(after.take(first.len() as int) =~= first);
                assert(after.skip(first.len() as int) =~= new);
            }
            if !gather(&mut r, event) {
                return r;
            }
        }
        proof {
            assert(self.steps().take(first.len() as int) =~= first);
            assert(self.steps().skip(first.len() as int) =~= new);
        }
        r
    }

    /// Decrypt incoming WireGuard UDP data with strict Cryptokey Routing verification.
    /// Uses the per-peer reusable decrypt buffer.
    ///
    /// A datagram with a counter near its end is refused before the engine sees it, once there may
    /// be a session that it belongs to.
    pub fn decrypt_packet(
        &mut self,
        peer_ip: Ipv4Addr,
        src_addr: SocketAddr,
        data: &[u8],
        network: u32,
        netmask: u32,
    ) -> (r: Result<Vec<DecapsulateOutput>, TunnelFault>)
        requires
            old(self).wf(),
        ensures
            final(self).wf(),
            final(self).same_tunnel(old(self)),
            if counter_near_end(data@) && old(self).handshaken {
                &&& r matches Err(fault) && fault is CounterNearEnd
                &&& final(self).steps() == old(self).steps()
                &&& final(self).broadcast_limiter == old(self).broadcast_limiter
            } else {
                let n = old(self).steps().len() as int;
                &&& final(self).steps().len() > n
                &&& final(self).steps().take(n) == old(self).steps()
                &&& decrypted(
                    old(self).policy(peer_ip, network, netmask),
                    source_told(src_addr, data@),
                    data@,
                    final(self).steps().skip(n),
                    old(self).broadcast_limiter,
                    final(self).broadcast_limiter,
                    r,
                )
            },
            final(self).handshaken == (old(self).handshaken || answers(
                data@,
                final(self).steps(),
                old(self).steps().len() as int,
            )),
            data@.len() == 0 ==> r is Ok,
            is_data(data@) && !old(self).handshaken ==> (r matches Err(fault)
                && fault is Decapsulation),
            data@.len() > 0 && !is_initiation(data@) && !is_response(data@) && !is_cookie(data@)
                && !is_data(data@) ==> r is Err,
    {
        if self.handshaken && is_counter_near_end(data) {
            return Err(TunnelFault::CounterNearEnd);
        }
        let policy: InboundPolicy = InboundPolicy {
            is_gateway: self.is_gateway,
            peer_ip,
            network,
            netmask,
        };
        let ghost first = self.steps();
        let ghost n = first.len() as int;
        self.buffers.grow_decrypt(data.len());
        let event: TunnelEvent = decapsulate(
            &mut self.engine,
            datagram_source(src_addr, data),
            data,
            &mut self.buffers.decrypt,
        );
        let ghost second = self.steps();
        let ghost step = second.last();
        proof {
            assert(second =~= first.push(step));
            lemma_stepped(first, second, step.input, self.buffers.decrypt_len());
        }
        if data.len() > 0 && is_reply(&event) {
            self.handshaken = true;
        }
        let asked: bool = match &event {
            TunnelEvent::PacketV4(packet) => policy.needs_token(packet),
            _ => false,
        };
        let token: bool = if asked {
            self.broadcast_limiter.allow()
        } else {
            true
        };
        let over: bool = match &event {
            TunnelEvent::Done | TunnelEvent::Error(_) => true,
            _ => false,
        };
        let waiting: Vec<Vec<u8>> = if over {
            Vec::new()
        } else {
            self.waiting()
        };
        proof {
            let last = self.steps();
            let new = last.skip(n);
            if over {
                assert(new.skip(1) =~= seq![]);
                assert(waiting@ =~= waiting_of(new.skip(1)));
                assert(last.take(n) =~= first);
            } else {
                assert(last.take(n) =~= last.take(second.len() as int).take(n));
                assert(second.take(n) =~= first);
                assert(new.skip(1) =~= last.skip(second.len() as int));
                assert(last[n] == last.take(second.len() as int)[n]);
            }
            assert(new[0] == last[n]);
            assert(last[n] == step);
        }
        settle(&policy, event, token, waiting)
    }

    /// Handle WireGuard timer for this peer. Returns an optional packet to send.
    pub fn update_timers(&mut self) -> (r: Option<Vec<u8>>)
        requires
            old(self).wf(),
        ensures
            final(self).wf(),
            final(self).same_tunnel(old(self)),
            final(self).broadcast_limiter == old(self).broadcast_limiter,
            final(self).handshaken == old(self).handshaken,
            stepped(old(self).steps(), final(self).steps(), EngineInput::Timers),
            can_come_of_timers(final(self).steps().last().event),
            r == timer_packet(final(self).steps().last().event),
            r matches Some(packet) ==> is_data(packet@) && packet@.len() == 32 || is_initiation(
                packet@,
            ),
    {
        let mut buf: Vec<u8> = vec![0u8; 1024];
        let event: TunnelEvent = update_timers(&mut self.engine, &mut buf);
        proof {
            lemma_stepped(
                old(self).steps(),
                self.steps(),
                EngineInput::Timers,
                self.buffers.decrypt_len(),
            );
        }
        timer_packet_of(event)
    }

    /// Direct access to the underlying Tunn for handshake operations. What is done there the tunnel
    /// does not see: its role, its allowance and its buffers stay, and of its engine nothing else is
    /// known any more.
    pub fn tunn_mut(&mut self) -> (r: &mut Tunn)
        ensures
            *r == old(self).engine.tunn(),
            final(self).engine.tunn() == *final(r),
            final(self).buffers == old(self).buffers,
            final(self).is_gateway == old(self).is_gateway,
            final(self).broadcast_limiter == old(self).broadcast_limiter,
            final(self).handshaken == old(self).handshaken,
    {
        self.engine.tunn_mut()
    }
}

/// Where a datagram came in, the step at a place of the history answered it.
pub open spec fn answers(data: Seq<u8>, steps: Seq<EngineStep>, at: int) -> bool {
    data.len() > 0 && at < steps.len() && steps[at].event is Network
}

/// The engine asks for something to be sent to the peer.
fn is_reply(event: &TunnelEvent) -> (r: bool)
    ensures
        r == (event is Network),
{
    match event {
        TunnelEvent::Network(_) => true,
        _ => false,
    }
}

/// A tunnel as it is opened: with the own key, the key of the peer and a local index, kept alive
/// every 25 seconds, before any step, and with a full allowance.
pub open spec fn fresh_tunnel(
    tunnel: PeerTunnel,
    own: StaticSecret,
    peer: PublicKey,
    index: u32,
    is_gateway: bool,
) -> bool {
    &&& tunnel.keys() == EngineKeys { secret: own.bytes, peer: peer.bytes, keepalive: 25, index }
    &&& tunnel.steps() == Seq::<EngineStep>::empty()
    &&& tunnel.is_gateway == is_gateway
    &&& !tunnel.handshaken
    &&& tunnel.broadcast_limiter.level() == 150 * TOKEN
    &&& tunnel.broadcast_limiter.capacity() == 150
    &&& tunnel.broadcast_limiter.rate() == 100
    &&& tunnel.broadcast_limiter.asked() == 0
}

/// What is sent after a step of the engine that was to encapsulate.
pub open spec fn payload(event: TunnelEvent) -> Result<Vec<u8>, TunnelFault> {
    match event {
        TunnelEvent::Network(payload) => Ok(payload),
        TunnelEvent::Error(e) => Err(TunnelFault::Encapsulation(e)),
        _ => Err(TunnelFault::NotEncapsulated),
    }
}

/// What is sent after a step of the engine that looked at its timers.
pub open spec fn timer_packet(event: TunnelEvent) -> Option<Vec<u8>> {
    match event {
        TunnelEvent::Network(packet) => Some(packet),
        _ => None,
    }
}

/// What is sent after a step of the engine that was to encapsulate.
pub fn payload_of(event: TunnelEvent) -> (r: Result<Vec<u8>, TunnelFault>)
    ensures
        r == payload(event),
{
    match event {
        TunnelEvent::Network(payload) => Ok(payload),
        TunnelEvent::Error(e) => Err(TunnelFault::Encapsulation(e)),
        _ => Err(TunnelFault::NotEncapsulated),
    }
}

/// What is sent after a step of the engine that looked at its timers.
pub fn timer_packet_of(event: TunnelEvent) -> (r: Option<Vec<u8>>)
    ensures
        r == timer_packet(event),
{
    match event {
        TunnelEvent::Network(packet) => Some(packet),
        _ => None,
    }
}

/// What a tunnel delivers keeps to its policy: of all that a datagram comes to, at most the
/// first output is a packet for the virtual adapter. It claims a source that the peer may speak
/// for, goes nowhere but into the virtual LAN, targets no sensitive port and announces no
/// segment above the limit; and where it is a broadcast, the allowance had a token for it.
///
/// The destination is that of the packet before its segment size was lowered. The two are the
/// same unless the packet announces an empty IPv4 header and its source begins with 96 or more,
/// so that what stands for the TCP header would have options.
pub proof fn law_delivered_keeps_policy(
    policy: InboundPolicy,
    event: TunnelEvent,
    token: bool,
    waiting: Seq<Vec<u8>>,
    outputs: Vec<DecapsulateOutput>,
    i: int,
)
    requires
        settled(policy, event, token, waiting, Ok(outputs)),
        0 <= i < outputs@.len(),
        outputs@[i] is TunnelPacket,
    ensures
        i == 0,
        event is PacketV4,
        ({
            let q = event->PacketV4_0@;
            let p = outputs@[i]->TunnelPacket_0@;
            &&& p == clamped(q, MAX_SEGMENT as int)
            &&& p.len() == q.len() >= 20
            &&& source_of(p) == source_of(q)
            &&& policy.source_allowed(source_of(p))
            &&& policy.destination_allowed(destination_of(q))
            &&& header_len(q) > 0 || source_of(q).a < 96 ==> destination_of(p) == destination_of(q)
            &&& is_lan_broadcast(destination_of(q)) ==> token
            &&& !targets_sensitive_port(p)
            &&& mss_option(p) matches Some(at) ==> be16(p[at + 2], p[at + 3]) <= MAX_SEGMENT
        }),
{
    let views = output_views(outputs@);
    let first = outputs_of(policy, event, token);
    assert(event !is Error);
    assert(views == first + to_network(waiting));
    assert(views[i] == outputs@[i]@);
    if i >= first.len() {
        assert(views[i] == to_network(waiting)[i - first.len()]);
    } else {
        assert(views[i] == first[i]);
        let q = event->PacketV4_0@;
        law_clamp_is_local(q, MAX_SEGMENT);
        law_clamp_bounds_mss(q, MAX_SEGMENT);
        let p = clamped(q, MAX_SEGMENT as int);
        assert(p[0] == q[0] && p[9] == q[9] && p[12] == q[12] && p[13] == q[13] && p[14] == q[14]
            && p[15] == q[15]);
        let h = header_len(q);
        if q.len() >= h + 4 {
            assert(p[h + 2] == q[h + 2] && p[h + 3] == q[h + 3]);
        }
        if h > 0 {
            assert(h >= 4);
            assert(p[16] == q[16] && p[17] == q[17] && p[18] == q[18] && p[19] == q[19]);
        } else if source_of(q).a < 96 && q.len() >= 40 {
            assert(options_end(q) <= options_start(q));
            assert(mss_option(q) is None);
        }
    }
}

/// Nothing but sealed data reaches the virtual adapter: where a datagram comes to a packet for
/// it, the datagram is data, and longer than the packet by what seals it.
pub proof fn law_only_data_is_delivered(
    policy: InboundPolicy,
    source: Option<IpAddr>,
    data: Seq<u8>,
    steps: Seq<EngineStep>,
    before: BroadcastRateLimiter,
    after: BroadcastRateLimiter,
    outputs: Vec<DecapsulateOutput>,
    i: int,
)
    requires
        decrypted(policy, source, data, steps, before, after, Ok(outputs)),
        0 <= i < outputs@.len(),
        outputs@[i] is TunnelPacket,
    ensures
        is_data(data),
        outputs@[i]->TunnelPacket_0@.len() + 32 <= data.len(),
{
    let event = steps[0].event;
    law_delivered_keeps_policy(
        policy,
        event,
        !asks_token(policy, event) || token_given(before, after),
        waiting_of(steps.skip(1)),
        outputs,
        i,
    );
}

/// A direct peer speaks for itself alone: whatever its datagrams come to, no packet reaches the
/// virtual adapter that claims another source than the address assigned to the peer.
pub proof fn law_direct_peer_cannot_spoof(policy: InboundPolicy, packet: Vec<u8>, token: bool)
    requires
        !policy.is_gateway,
        packet@.len() >= 20,
        source_of(packet@) != policy.peer_ip,
    ensures
        outputs_of(policy, TunnelEvent::PacketV4(packet), token).len() == 0,
{
}

/// No IPv6 packet reaches the virtual adapter.
pub proof fn law_ipv6_is_dropped(policy: InboundPolicy, packet: Vec<u8>, token: bool)
    ensures
        outputs_of(policy, TunnelEvent::PacketV6(packet), token).len() == 0,
{
}

/// A datagram that came in through a tunnel, with what [`PeerTunnel::decrypt_packet`] made of it:
/// what the engine was told of its source, the steps of the engine, the allowance before and
/// after, and the result.
pub ghost struct Receipt {
    pub source: Option<IpAddr>,
    pub data: Seq<u8>,
    pub steps: Seq<EngineStep>,
    pub before: BroadcastRateLimiter,
    pub after: BroadcastRateLimiter,
    pub r: Result<Vec<DecapsulateOutput>, TunnelFault>,
}

impl Receipt {
    /// What the engine made of the datagram.
    pub open spec fn event(self) -> TunnelEvent {
        self.steps[0].event
    }
}

/// The datagrams came in one after the other, the first with this allowance, and from the first
/// broadcast on no time passed for the allowance.
pub open spec fn received_at_once(
    policy: InboundPolicy,
    allowance: BroadcastRateLimiter,
    receipts: Seq<Receipt>,
) -> bool {
    &&& forall|i: int|
        0 <= i < receipts.len() ==> {
            let c = #[trigger] receipts[i];
            &&& decrypted(policy, c.source, c.data, c.steps, c.before, c.after, c.r)
            &&& c.before == if i == 0 {
                allowance
            } else {
                receipts[i - 1].after
            }
            &&& broadcasts(policy, receipts.take(i)) > 0 ==> gap(
                c.before.asked(),
                c.after.asked(),
            ) == 0
        }
}

/// How many of the datagrams were broadcasts that the allowance was asked for.
pub open spec fn broadcasts(policy: InboundPolicy, receipts: Seq<Receipt>) -> nat
    decreases receipts.len(),
{
    if receipts.len() == 0 {
        0
    } else {
        broadcasts(policy, receipts.drop_last()) + if asks_token(policy, receipts.last().event()) {
            1nat
        } else {
            0nat
        }
    }
}

/// While no time passes, each broadcast takes one of the tokens that the allowance began with,
/// until none is left. Nothing else takes any.
proof fn lemma_allowance_at_once(
    policy: InboundPolicy,
    allowance: BroadcastRateLimiter,
    receipts: Seq<Receipt>,
    i: int,
)
    requires
        allowance.level() == allowance.capacity() * TOKEN,
        allowance.capacity() >= 1,
        allowance.rate() >= 0,
        received_at_once(policy, allowance, receipts),
        0 <= i < receipts.len(),
    ensures
        ({
            let n = broadcasts(policy, receipts.take(i));
            let before = receipts[i].before;
            &&& before.capacity() == allowance.capacity()
            &&& before.rate() == allowance.rate()
            &&& before.level() == if n < allowance.capacity() {
                (allowance.capacity() - n) * TOKEN
            } else {
                0
            }
            &&& asks_token(policy, receipts[i].event()) ==> (token_given(
                before,
                receipts[i].after,
            ) <==> n < allowance.capacity())
        }),
    decreases i,
{
    let c = receipts[i];
    let time = gap(c.before.asked(), c.after.asked());
    assert(time * allowance.rate() >= 0) by (nonlinear_arith)
        requires
            time >= 0,
            allowance.rate() >= 0,
    ;
    if i > 0 {
        lemma_allowance_at_once(policy, allowance, receipts, i - 1);
        assert(receipts.take(i).drop_last() =~= receipts.take(i - 1));
        assert(receipts.take(i).last() == receipts[i - 1]);
        let last = receipts[i - 1];
        assert(c.before == last.after);
        let gone = gap(last.before.asked(), last.after.asked());
        assert(gone * allowance.rate() >= 0) by (nonlinear_arith)
            requires
                gone >= 0,
                allowance.rate() >= 0,
        ;
    }
}

/// A fresh tunnel passes a burst of 150 broadcasts and no more: while no time passes from the first
/// one on, a broadcast is delivered if and only if fewer than 150 came before it, unless it targets
/// a sensitive port.
/// What is no broadcast leaves the allowance as it was, and what is for a single address of the
/// virtual subnet is delivered however many broadcasts came before.
#[verifier::rlimit(40)]
#[verifier::spinoff_prover]
pub proof fn law_fresh_tunnel_passes_a_burst(
    tunnel: PeerTunnel,
    own: StaticSecret,
    peer: PublicKey,
    index: u32,
    peer_ip: Ipv4Addr,
    network: u32,
    netmask: u32,
    receipts: Seq<Receipt>,
    i: int,
)
    requires
        fresh_tunnel(tunnel, own, peer, index, tunnel.is_gateway),
        received_at_once(
            tunnel.policy(peer_ip, network, netmask),
            tunnel.broadcast_limiter,
            receipts,
        ),
        0 <= i < receipts.len(),
    ensures
        ({
            let policy = tunnel.policy(peer_ip, network, netmask);
            let c = receipts[i];
            let waiting = to_network(waiting_of(c.steps.skip(1)));
            c.event() matches TunnelEvent::PacketV4(packet) ==> {
                let p = packet@;
                let whole = seq![OutputView::TunnelPacket(clamped(p, MAX_SEGMENT as int))];
                &&& c.r is Ok
                &&& policy.costs_token(p) && !targets_sensitive_port(p) ==> output_views(
                    c.r->Ok_0@,
                ) == if broadcasts(policy, receipts.take(i)) < 150 {
                    whole + waiting
                } else {
                    waiting
                }
                &&& !policy.costs_token(p) ==> c.after == c.before
                &&& p.len() >= 20 && policy.source_allowed(source_of(p)) && in_subnet(
                    destination_of(p),
                    network,
                    netmask,
                ) && !is_lan_broadcast(destination_of(p)) && !targets_sensitive_port(p)
                    ==> output_views(c.r->Ok_0@) == whole + waiting
            }
        }),
        !asks_token(tunnel.policy(peer_ip, network, netmask), receipts[i].event())
            ==> receipts[i].after == receipts[i].before,
{
    let policy = tunnel.policy(peer_ip, network, netmask);
    let c = receipts[i];
    lemma_allowance_at_once(policy, tunnel.broadcast_limiter, receipts, i);
    let waiting = to_network(waiting_of(c.steps.skip(1)));
    assert(Seq::<OutputView>::empty() + waiting =~= waiting);
}

/// An address given by its octets is in a subnet if its number agrees with that of the network
/// under the mask.
proof fn lemma_number(p: Seq<u8>, at: int)
    requires
        0 <= at,
        at + 4 <= p.len(),
    ensures
        (Ipv4Addr { a: p[at], b: p[at + 1], c: p[at + 2], d: p[at + 3] }).number() == p[at]
            * 0x100_0000 + p[at + 1] * 0x1_0000 + p[at + 2] * 0x100 + p[at + 3],
{
}

/// Which packets a tunnel delivers, by their bytes. A packet has a whole IPv4 header. From a
/// gateway its source, bytes 12 to 15, is any address of the subnet but 255.255.255.255, the
/// gateway's own among them; from any other peer it is the address of that peer. Its destination,
/// bytes 16 to 19, is of the subnet, or 255.255.255.255 or 10.7.0.255; for these two the allowance
/// must have a token. It does not go to a port of the host's services by TCP or UDP. All such packets
/// are delivered and no others, as they are but for the MSS of a SYN.
#[verifier::rlimit(40)]
#[verifier::spinoff_prover]
pub proof fn law_what_a_tunnel_delivers(
    policy: InboundPolicy,
    source: Option<IpAddr>,
    data: Seq<u8>,
    steps: Seq<EngineStep>,
    before: BroadcastRateLimiter,
    after: BroadcastRateLimiter,
    r: Result<Vec<DecapsulateOutput>, TunnelFault>,
    packet: Vec<u8>,
)
    requires
        before.wf(),
        decrypted(policy, source, data, steps, before, after, r),
        steps[0].event == TunnelEvent::PacketV4(packet),
    ensures
        r is Ok,
        ({
            let p = packet@;
            let outputs = r->Ok_0@;
            let delivered = outputs.len() >= 1 && outputs[0] is TunnelPacket;
            let from = (p[12] * 0x100_0000 + p[13] * 0x1_0000 + p[14] * 0x100 + p[15]) as u32;
            let to = (p[16] * 0x100_0000 + p[17] * 0x1_0000 + p[18] * 0x100 + p[19]) as u32;
            let from_ok = if policy.is_gateway {
                from & policy.netmask == policy.network && from != 0xFFFF_FFFF
            } else {
                p[12] == policy.peer_ip.a && p[13] == policy.peer_ip.b && p[14] == policy.peer_ip.c
                    && p[15] == policy.peer_ip.d
            };
            let everybody = to == 0xFFFF_FFFF || to == 0x0A07_00FF;
            let time = if after.asked() >= before.asked() {
                after.asked() - before.asked()
            } else {
                0
            };
            let token = before.capacity() >= 1 && before.level() + time * before.rate()
                >= 1_000_000_000;
            let h = (p[0] % 16) * 4;
            let port = p[h + 2] * 256 + p[h + 3];
            let closed_port = p.len() >= h + 4 && (p[9] == 6 || p[9] == 17) && (port == 135 || port
                == 137 || port == 138 || port == 139 || port == 445 || port == 3389 || port == 5353
                || port == 5355 || port == 5985 || port == 5986);
            &&& delivered <==> {
                &&& p.len() >= 20
                &&& from_ok
                &&& everybody || to & policy.netmask == policy.network
                &&& everybody ==> token
                &&& !closed_port
            }
            &&& delivered ==> {
                let q = outputs[0]->TunnelPacket_0@;
                &&& q == clamped(p, 1340)
                &&& q.len() == p.len()
                &&& p[9] != 6 ==> q == p
            }
            &&& p.len() >= 20 && from_ok && everybody ==> after.level() == {
                let full = before.capacity() * 1_000_000_000;
                let gained = before.level() + time * before.rate();
                (if gained < full { gained } else { full }) - if token {
                    1_000_000_000int
                } else {
                    0int
                }
            }
            &&& !(p.len() >= 20 && from_ok && everybody) ==> after == before
            &&& forall|i: int|
                0 <= i < outputs.len() && (i > 0 || !delivered) ==> #[trigger] outputs[i] is NetworkPacket
        }),
{
    let p = packet@;
    let event = steps[0].event;
    let waiting = to_network(waiting_of(steps.skip(1)));
    let token = !asks_token(policy, event) || token_given(before, after);
    let outputs = r->Ok_0@;
    let views = output_views(outputs);
    let first = outputs_of(policy, event, token);
    assert(views == first + waiting);
    assert forall|i: int| 0 <= i < outputs.len() && i >= first.len() implies #[trigger] outputs[i] is
        NetworkPacket by {
        assert(views[i] == outputs[i]@);
        assert(views[i] == waiting[i - first.len()]);
    }
    if first.len() > 0 {
        assert(views[0] == outputs[0]@);
        assert(views[0] == first[0]);
    }
    law_clamp_is_local(p, 1340);
    if p.len() >= 20 {
        lemma_number(p, 12);
        lemma_number(p, 16);
        if p[9] != 6 {
            assert(mss_option(p) is None);
        }
        let time = gap(before.asked(), after.asked());
        assert(time * before.rate() >= 0) by (nonlinear_arith)
            requires
                time >= 0,
                before.rate() >= 0,
        ;
    }
}

/// In the virtual LAN a gateway speaks for every address 10.7.0.x, its own among them: what it sends
/// from there to a single address 10.7.0.y is delivered, whoever the gateway is, unless it goes to a
/// port of the host's services.
pub proof fn law_gateway_speaks_for_the_lan(
    peer_ip: Ipv4Addr,
    source: Option<IpAddr>,
    data: Seq<u8>,
    steps: Seq<EngineStep>,
    before: BroadcastRateLimiter,
    after: BroadcastRateLimiter,
    r: Result<Vec<DecapsulateOutput>, TunnelFault>,
    packet: Vec<u8>,
)
    requires
        before.wf(),
        decrypted(
            (InboundPolicy { is_gateway: true, peer_ip, network: 0x0A07_0000, netmask: 0xFFFF_FF00 }),
            source,
            data,
            steps,
            before,
            after,
            r,
        ),
        steps[0].event == TunnelEvent::PacketV4(packet),
        packet@.len() >= 20,
        packet@[12] == 10 && packet@[13] == 7 && packet@[14] == 0,
        packet@[16] == 10 && packet@[17] == 7 && packet@[18] == 0 && packet@[19] != 255,
        !targets_sensitive_port(packet@),
    ensures
        r is Ok,
        r->Ok_0@.len() >= 1,
        r->Ok_0@[0] matches DecapsulateOutput::TunnelPacket(q) && q@ == clamped(packet@, 1340),
        after == before,
{
    let policy = InboundPolicy {
        is_gateway: true,
        peer_ip,
        network: 0x0A07_0000,
        netmask: 0xFFFF_FF00,
    };
    let p = packet@;
    law_what_a_tunnel_delivers(policy, source, data, steps, before, after, r, packet);
    lemma_lan_number(p[12], p[13], p[14], p[15]);
    lemma_lan_number(p[16], p[17], p[18], p[19]);
}

/// In the virtual LAN any other peer speaks for its own address and no other: what it sends from
/// there to a single address 10.7.0.y is delivered, unless it goes to a port of the host's services.
/// From any other address, and to any other network, nothing is.
pub proof fn law_peer_speaks_for_itself(
    peer_ip: Ipv4Addr,
    source: Option<IpAddr>,
    data: Seq<u8>,
    steps: Seq<EngineStep>,
    before: BroadcastRateLimiter,
    after: BroadcastRateLimiter,
    r: Result<Vec<DecapsulateOutput>, TunnelFault>,
    packet: Vec<u8>,
)
    requires
        before.wf(),
        decrypted(
            (InboundPolicy { is_gateway: false, peer_ip, network: 0x0A07_0000, netmask: 0xFFFF_FF00 }),
            source,
            data,
            steps,
            before,
            after,
            r,
        ),
        steps[0].event == TunnelEvent::PacketV4(packet),
        packet@.len() >= 20,
        !(packet@[16] == 255 && packet@[17] == 255 && packet@[18] == 255 && packet@[19] == 255),
        !(packet@[16] == 10 && packet@[17] == 7 && packet@[18] == 0 && packet@[19] == 255),
        !targets_sensitive_port(packet@),
    ensures
        ({
            let p = packet@;
            let own = p[12] == peer_ip.a && p[13] == peer_ip.b && p[14] == peer_ip.c && p[15]
                == peer_ip.d;
            let lan = p[16] == 10 && p[17] == 7 && p[18] == 0;
            &&& r is Ok
            &&& own && lan <==> r->Ok_0@.len() >= 1 && r->Ok_0@[0] is TunnelPacket
            &&& after == before
        }),
{
    let policy = InboundPolicy {
        is_gateway: false,
        peer_ip,
        network: 0x0A07_0000,
        netmask: 0xFFFF_FF00,
    };
    let p = packet@;
    law_what_a_tunnel_delivers(policy, source, data, steps, before, after, r, packet);
    lemma_lan_number(p[16], p[17], p[18], p[19]);
}

/// The addresses of the virtual LAN, as numbers.
proof fn lemma_lan_number(a: u8, b: u8, c: u8, d: u8)
    ensures
        ({
            let n = (a * 0x100_0000 + b * 0x1_0000 + c * 0x100 + d) as u32;
            &&& n & 0xFFFF_FF00 == 0x0A07_0000 <==> a == 10 && b == 7 && c == 0
            &&& n == 0xFFFF_FFFF <==> a == 255 && b == 255 && c == 255 && d == 255
            &&& n == 0x0A07_00FF <==> a == 10 && b == 7 && c == 0 && d == 255
        }),
{
    law_virtual_lan_addresses(Ipv4Addr { a, b, c, d });
}

/// What waits in an engine goes to the peer: each datagram that the engine gives when it is asked
/// comes out behind what the datagram itself came to, in order, and nothing else comes out. It is
/// asked until it gives none, unless there was nothing to ask for.
pub proof fn law_what_waits_is_sent(
    policy: InboundPolicy,
    source: Option<IpAddr>,
    data: Seq<u8>,
    steps: Seq<EngineStep>,
    before: BroadcastRateLimiter,
    after: BroadcastRateLimiter,
    outputs: Vec<DecapsulateOutput>,
)
    requires
        decrypted(policy, source, data, steps, before, after, Ok(outputs)),
    ensures
        ({
            let n = if steps.last().event is Network { steps.len() as int } else {
                steps.len() - 1
            };
            let more = if steps.len() > 1 { n - 1 } else { 0 };
            let own = outputs@.len() - more;
            &&& 0 <= own <= 1
            &&& steps.len() == 1 <==> steps[0].event is Done || steps[0].event is Error
            &&& steps.len() > 1 && steps.last().event is Network ==> steps.len() > u64::MAX
            &&& forall|i: int|
                1 <= i <= more ==> {
                    &&& (#[trigger] steps[i]).event matches TunnelEvent::Network(d)
                    &&& outputs@[own + i - 1] matches DecapsulateOutput::NetworkPacket(sent) && sent@
                        == steps[i].event->Network_0@
                }
        }),
{
    let rest = steps.skip(1);
    let event = steps[0].event;
    let first = outputs_of(policy, event, !asks_token(policy, event) || token_given(before, after));
    let views = output_views(outputs@);
    assert(views == first + to_network(waiting_of(rest)));
    assert(views.len() == outputs@.len());
    if steps.len() > 1 {
        assert(rest.last() == steps.last());
        assert forall|i: int| 0 <= i < rest.len() - 1 implies (#[trigger] rest[i]).event is Network by {
        }
        lemma_waiting_of(rest);
        let more = waiting_of(rest).len();
        assert forall|i: int| 1 <= i <= more implies {
            &&& (#[trigger] steps[i]).event matches TunnelEvent::Network(d)
            &&& outputs@[first.len() + i - 1] matches DecapsulateOutput::NetworkPacket(sent) && sent@
                == steps[i].event->Network_0@
        } by {
            assert(rest[i - 1] == steps[i]);
            assert(waiting_of(rest)[i - 1] == rest[i - 1].event->Network_0);
            assert(views[first.len() + i - 1] == to_network(waiting_of(rest))[i - 1]);
            assert(views[first.len() + i - 1] == outputs@[first.len() + i - 1]@);
        }
    } else {
        assert(rest =~= seq![]);
    }
}

/// Where all steps but the last gave a datagram, these are the datagrams that they gave.
proof fn lemma_waiting_of(steps: Seq<EngineStep>)
    requires
        steps.len() >= 1,
        forall|i: int| 0 <= i < steps.len() - 1 ==> (#[trigger] steps[i]).event is Network,
    ensures
        waiting_of(steps).len() == if steps.last().event is Network {
            steps.len() as int
        } else {
            steps.len() - 1
        },
        forall|i: int|
            0 <= i < waiting_of(steps).len() ==> #[trigger] waiting_of(steps)[i]
                == steps[i].event->Network_0 && steps[i].event is Network,
    decreases steps.len(),
{
    let front = steps.drop_last();
    if front.len() > 0 {
        assert forall|i: int| 0 <= i < front.len() - 1 implies (#[trigger] front[i]).event is
            Network by {
            assert(front[i] == steps[i]);
        }
        assert(front.last() == steps[steps.len() - 2]);
        lemma_waiting_of(front);
        assert forall|i: int| 0 <= i < waiting_of(steps).len() implies #[trigger] waiting_of(
            steps,
        )[i] == steps[i].event->Network_0 && steps[i].event is Network by {
            if i < waiting_of(front).len() {
                assert(waiting_of(steps)[i] == waiting_of(front)[i]);
                assert(front[i] == steps[i]);
            }
        }
    } else {
        assert(waiting_of(front).len() == 0);
    }
}

/// What the engine is handed for a datagram: the datagram itself, with the address that it came
/// from, and then nothing, from nowhere, until it has no more for the peer.
pub proof fn law_what_the_engine_is_handed(
    policy: InboundPolicy,
    src_addr: SocketAddr,
    data: Seq<u8>,
    steps: Seq<EngineStep>,
    before: BroadcastRateLimiter,
    after: BroadcastRateLimiter,
    r: Result<Vec<DecapsulateOutput>, TunnelFault>,
    i: int,
)
    requires
        decrypted(policy, source_told(src_addr, data), data, steps, before, after, r),
        1 <= i < steps.len(),
    ensures
        steps[0].input matches EngineInput::Datagram { source, datagram } && datagram == data && (
        data.len() == 0 ==> source is None) && (data.len() > 0 ==> source == Some(
            match src_addr {
                SocketAddr::V4 { ip, port } => IpAddr::V4(ip),
                SocketAddr::V6 { segments, port, flowinfo, scope_id } => IpAddr::V6(segments),
            },
        )),
        steps[i].input matches EngineInput::Datagram { source, datagram } && source is None
            && datagram.len() == 0,
        i < steps.len() - 1 ==> steps[i].event is Network,
        !(steps[0].event is Done) && !(steps[0].event is Error),
{
    assert(steps.skip(1)[i - 1] == steps[i]);
}

/// An answer of the engine goes to the peer first of all, an error is handed on as it is, and what
/// is neither an IPv4 packet nor an answer leaves nothing.
pub proof fn law_what_other_events_come_to(
    policy: InboundPolicy,
    source: Option<IpAddr>,
    data: Seq<u8>,
    steps: Seq<EngineStep>,
    before: BroadcastRateLimiter,
    after: BroadcastRateLimiter,
    r: Result<Vec<DecapsulateOutput>, TunnelFault>,
)
    requires
        decrypted(policy, source, data, steps, before, after, r),
        steps[0].event !is PacketV4,
    ensures
        after == before,
        match steps[0].event {
            TunnelEvent::Error(e) => r matches Err(TunnelFault::Decapsulation(f)) && f == e
                && steps.len() == 1,
            TunnelEvent::Done => r matches Ok(outputs) && outputs@.len() == 0 && steps.len() == 1,
            TunnelEvent::Network(d) => r matches Ok(outputs) && outputs@.len() >= 1 && (outputs@[0]
                matches DecapsulateOutput::NetworkPacket(sent) && sent@ == d@),
            _ => r matches Ok(outputs) && forall|i: int|
                0 <= i < outputs@.len() ==> #[trigger] outputs@[i] is NetworkPacket,
        },
{
    let event = steps[0].event;
    let rest = steps.skip(1);
    if event !is Error {
        let outputs = r->Ok_0@;
        let views = output_views(outputs);
        let waiting = to_network(waiting_of(rest));
        let first = outputs_of(policy, event, true);
        assert(views == first + waiting);
        if event is Done {
            assert(waiting_of(rest).len() == 0);
        }
        if event is Network {
            assert(views[0] == first[0]);
            assert(views[0] == outputs[0]@);
        } else {
            assert forall|i: int| 0 <= i < outputs.len() implies #[trigger] outputs[i] is
                NetworkPacket by {
                assert(views[i] == outputs[i]@);
                assert(views[i] == waiting[i]);
            }
        }
    }
}

/// What is sent after a step that was to encapsulate, or that looked at the timers, is the datagram
/// that the engine gave, as it is.
pub proof fn law_datagrams_are_sent_as_they_are(datagram: Vec<u8>, error: WireGuardError)
    ensures
        payload(TunnelEvent::Network(datagram)) == Ok::<Vec<u8>, TunnelFault>(datagram),
        payload(TunnelEvent::Error(error)) == Err::<Vec<u8>, TunnelFault>(
            TunnelFault::Encapsulation(error),
        ),
        payload(TunnelEvent::Done) == Err::<Vec<u8>, TunnelFault>(TunnelFault::NotEncapsulated),
        timer_packet(TunnelEvent::Network(datagram)) == Some(datagram),
        timer_packet(TunnelEvent::Error(error)) is None,
        timer_packet(TunnelEvent::Done) is None,
{
}

/// A tunnel is opened with the own secret and the key of the peer, as they are, is kept alive every
/// 25 seconds, and lets 150 broadcasts through at once and 100 in a second.
pub proof fn law_fresh_tunnel(
    tunnel: PeerTunnel,
    own: StaticSecret,
    peer: PublicKey,
    index: u32,
    is_gateway: bool,
)
    requires
        fresh_tunnel(tunnel, own, peer, index, is_gateway),
    ensures
        tunnel.engine.keys().secret == own.bytes,
        tunnel.engine.keys().peer == peer.bytes,
        tunnel.engine.keys().keepalive == 25,
        tunnel.engine.keys().index == index,
        tunnel.engine.steps().len() == 0,
        tunnel.is_gateway == is_gateway,
        tunnel.broadcast_limiter.level() == 150_000_000_000,
        tunnel.broadcast_limiter.capacity() == 150,
        tunnel.broadcast_limiter.rate() == 100,
{
}

/// The policy of a tunnel is that of its peer: the role is the tunnel's own, and the address and the
/// subnet are those given.
pub proof fn law_policy_is_that_of_the_peer(
    tunnel: PeerTunnel,
    peer_ip: Ipv4Addr,
    network: u32,
    netmask: u32,
)
    ensures
        tunnel.policy(peer_ip, network, netmask).is_gateway == tunnel.is_gateway,
        tunnel.policy(peer_ip, network, netmask).peer_ip == peer_ip,
        tunnel.policy(peer_ip, network, netmask).network == network,
        tunnel.policy(peer_ip, network, netmask).netmask == netmask,
{
}

/// A handshake has come through once the engine has answered a datagram of the peer.
pub proof fn law_handshakes_are_answered(
    data: Seq<u8>,
    before: Seq<EngineStep>,
    after: Seq<EngineStep>,
    input: EngineInput,
)
    requires
        stepped(before, after, input),
        input matches EngineInput::Datagram { datagram, .. } && datagram == data,
    ensures
        answers(data, after, before.len() as int) <==> data.len() > 0 && after.last().event is Network,
        had_handshake(after) <==> had_handshake(before) || answers(
            data,
            after,
            before.len() as int,
        ),
        !had_handshake(seq![]),
{
    lemma_stepped(before, after, input, 0);
}

} // verus!
