//! The tunnels of a node, peer by peer.

use crate::addr::Ipv4Addr;
use crate::addrmap::{without, AddressMap};
use crate::keys::{x25519_public, PublicKey, StaticSecret};
use crate::noise::{
    can_come_of_timers, is_data, is_initiation, new_rate_limiter, stepped, EngineInput,
    HandshakeLimiter, TunnelEvent,
};
use crate::subnet::{cidr, parse_cidr, CidrError};
use crate::wireguard::{fresh_tunnel, timer_packet, PeerTunnel, TunnelFault};
use vstd::prelude::*;

verus! {

/// How many handshakes per second the tunnels of a node answer together.
pub const HANDSHAKES_PER_SECOND: u64 = 100;

/// The index that follows a tunnel's local index. After the last one they begin anew.
pub open spec fn next_tunnel_index(index: u32) -> u32 {
    if index == u32::MAX {
        0
    } else {
        (index + 1) as u32
    }
}

/// The index of the `n`th tunnel after one with the index `start`.
pub open spec fn tunnel_index(start: u32, n: nat) -> u32
    decreases n,
{
    if n == 0 {
        start
    } else {
        next_tunnel_index(tunnel_index(start, (n - 1) as nat))
    }
}

/// Manages WireGuard tunnels for peers.
///
/// The handle `H` is what stands for a peer's tunnel: the tunnel itself, or something shared
/// that holds it.
pub struct WireGuardManager<H> {
    pub peers: AddressMap<H>,
    pub network: u32,
    pub netmask: u32,
    pub rate_limiter: Option<HandshakeLimiter>,
    pub next_index: u32,
}

impl<H> WireGuardManager<H> {
    /// The handles, by the virtual address of the peer.
    pub open spec fn peers(&self) -> Map<Ipv4Addr, H> {
        self.peers@
    }

    /// The addresses of the peers, in the order in which they came.
    pub open spec fn order(&self) -> Seq<Ipv4Addr> {
        self.peers.keys()
    }

    /// The network address and the mask of the virtual subnet.
    pub open spec fn subnet(&self) -> (u32, u32) {
        (self.network, self.netmask)
    }

    /// The local index of the tunnel that is opened next.
    pub open spec fn next_index(&self) -> u32 {
        self.next_index
    }

    /// The limiter that the tunnels share, once there is a tunnel.
    pub open spec fn limiter(&self) -> Option<HandshakeLimiter> {
        self.rate_limiter
    }

    /// The order names each peer once, and nobody else.
    pub open spec fn wf(&self) -> bool {
        self.peers.wf()
    }

    /// Create a new WireGuardManager
    pub fn new(subnet: &str) -> (r: Result<WireGuardManager<H>, CidrError>)
        ensures
            match r {
                Ok(m) => {
                    &&& cidr(subnet@) == Ok::<(u32, u32), CidrError>(m.subnet())
                    &&& m.wf()
                    &&& m.peers() == Map::<Ipv4Addr, H>::empty()
                    &&& m.order() == Seq::<Ipv4Addr>::empty()
                    &&& m.next_index() == 1
                    &&& m.limiter() is None
                },
                Err(e) => cidr(subnet@) == Err::<(u32, u32), CidrError>(e),
            },
    {
        WireGuardManager::continued(subnet, 1)
    }

    /// A manager whose tunnels are numbered from `next_index` on, where an earlier one stopped.
    pub fn continued(subnet: &str, next_index: u32) -> (r: Result<WireGuardManager<H>, CidrError>)
        ensures
            match r {
                Ok(m) => {
                    &&& cidr(subnet@) == Ok::<(u32, u32), CidrError>(m.subnet())
                    &&& m.wf()
                    &&& m.peers() == Map::<Ipv4Addr, H>::empty()
                    &&& m.order() == Seq::<Ipv4Addr>::empty()
                    &&& m.next_index() == next_index
                    &&& m.limiter() is None
                },
                Err(e) => cidr(subnet@) == Err::<(u32, u32), CidrError>(e),
            },
    {
        match parse_cidr(subnet) {
            Ok((network, netmask)) => Ok(
                WireGuardManager {
                    peers: AddressMap::new(),
                    network,
                    netmask,
                    rate_limiter: None,
                    next_index,
                },
            ),
            Err(e) => Err(e),
        }
    }

    /// Reads the local index of the tunnel that is opened next.
    pub fn upcoming_index(&self) -> (r: u32)
        ensures
            r == self.next_index(),
    {
        self.next_index
    }

    /// Opens a tunnel under the next index, without putting it anywhere. The limiter of
    /// handshakes is made for the first tunnel and shared by all that follow.
    pub fn open_tunnel(
        &mut self,
        own_private_key: &StaticSecret,
        peer_public_key: &PublicKey,
        is_gateway: bool,
    ) -> (r: PeerTunnel)
        requires
            old(self).wf(),
        ensures
            r.wf(),
            fresh_tunnel(
                r,
                *own_private_key,
                *peer_public_key,
                old(self).next_index(),
                is_gateway,
            ),
            final(self).limiter() == Some(r.engine.limiter()),
            limiter_after(old(self).limiter(), *own_private_key, r.engine.limiter()),
            final(self).wf(),
            final(self).peers() == old(self).peers(),
            final(self).order() == old(self).order(),
            final(self).subnet() == old(self).subnet(),
            final(self).next_index() == next_tunnel_index(old(self).next_index()),
    {
        let limiter: HandshakeLimiter = match &self.rate_limiter {
            Some(limiter) => limiter.share(),
            None => new_rate_limiter(&own_private_key.public_key().bytes, HANDSHAKES_PER_SECOND),
        };
        let tunnel: PeerTunnel = PeerTunnel::open(
            own_private_key,
            peer_public_key,
            self.next_index,
            limiter.share(),
            is_gateway,
        );
        self.rate_limiter = Some(limiter);
        self.next_index = if self.next_index == u32::MAX {
            0
        } else {
            self.next_index + 1
        };
        tunnel
    }

    /// Puts a handle under an address, in place of one that may stand there.
    pub fn insert_peer(&mut self, peer_ip: Ipv4Addr, handle: H)
        requires
            old(self).wf(),
        ensures
            final(self).wf(),
            final(self).peers() == old(self).peers().insert(peer_ip, handle),
            final(self).order() == if old(self).peers().contains_key(peer_ip) {
                old(self).order()
            } else {
                old(self).order().push(peer_ip)
            },
            final(self).subnet() == old(self).subnet(),
            final(self).next_index() == old(self).next_index(),
            final(self).limiter() == old(self).limiter(),
    {
        self.peers.insert(peer_ip, handle);
    }

    /// Get a handle to a peer's tunnel.
    pub fn get_peer(&self, peer_ip: Ipv4Addr) -> (r: Option<&H>)
        requires
            self.wf(),
        ensures
            match r {
                Some(h) => self.peers().contains_key(peer_ip) && self.peers()[peer_ip] == *h,
                None => !self.peers().contains_key(peer_ip),
            },
    {
        self.peers.get(peer_ip)
    }

    /// Get a handle to a peer's tunnel, to be changed in place.
    pub fn get_peer_mut(&mut self, peer_ip: Ipv4Addr) -> (r: Option<&mut H>)
        requires
            old(self).wf(),
        ensures
            final(self).wf(),
            final(self).order() == old(self).order(),
            final(self).subnet() == old(self).subnet(),
            final(self).next_index() == old(self).next_index(),
            final(self).limiter() == old(self).limiter(),
            match r {
                Some(h) => old(self).peers().contains_key(peer_ip) && *h == old(
                    self,
                ).peers()[peer_ip] && final(self).peers() == old(self).peers().insert(
                    peer_ip,
                    *final(h),
                ),
                None => !old(self).peers().contains_key(peer_ip) && final(self).peers() == old(
                    self,
                ).peers(),
            },
    {
        self.peers.get_mut(peer_ip)
    }

    /// Removes a peer from the WireGuard manager.
    pub fn remove_peer(&mut self, peer_ip: Ipv4Addr)
        requires
            old(self).wf(),
        ensures
            final(self).wf(),
            final(self).peers() == old(self).peers().remove(peer_ip),
            final(self).order() == without(old(self).order(), peer_ip),
            final(self).subnet() == old(self).subnet(),
            final(self).next_index() == old(self).next_index(),
            final(self).limiter() == old(self).limiter(),
    {
        self.peers.remove(peer_ip);
    }

    /// The addresses of the peers, in the order in which they came.
    pub fn addresses(&self) -> (r: Vec<Ipv4Addr>)
        ensures
            r@ == self.order(),
    {
        let mut r: Vec<Ipv4Addr> = Vec::new();
        let mut i: usize = 0;
        while i < self.peers.len()
            invariant
                i <= self.order().len(),
                r@ == self.order().take(i as int),
            decreases self.order().len() - i,
        {
            r.push(self.peers.key_at(i));
            i += 1;
        }
        r
    }
}

/// Which limiter the tunnels share after one more was opened: the one that was there, or else one
/// for the own public key with a limit of a hundred handshakes.
pub open spec fn limiter_after(
    before: Option<HandshakeLimiter>,
    own: StaticSecret,
    after: HandshakeLimiter,
) -> bool {
    match before {
        Some(limiter) => after == limiter,
        None => {
            &&& after.public_key() == x25519_public(own.bytes@)
            &&& after.limit() == HANDSHAKES_PER_SECOND
        },
    }
}

/// Every tunnel of the map is well-formed.
pub open spec fn tunnels_wf(peers: Map<Ipv4Addr, PeerTunnel>) -> bool {
    forall|ip: Ipv4Addr| #[trigger] peers.contains_key(ip) ==> peers[ip].wf()
}

/// All tunnels of the map share one limiter of handshakes, this one.
pub open spec fn share_limiter(
    peers: Map<Ipv4Addr, PeerTunnel>,
    limiter: Option<HandshakeLimiter>,
) -> bool {
    forall|ip: Ipv4Addr| #[trigger]
        peers.contains_key(ip) ==> Some(peers[ip].engine.limiter()) == limiter
}

/// What a round over the timers sends: for each peer that has something to send, in their
/// order, its address and the packet.
pub open spec fn timer_packets(
    order: Seq<Ipv4Addr>,
    replies: Seq<Option<Seq<u8>>>,
) -> Seq<(Ipv4Addr, Seq<u8>)>
    decreases order.len(),
{
    if order.len() == 0 {
        seq![]
    } else {
        let front = timer_packets(order.drop_last(), replies.drop_last());
        match replies.last() {
            Some(packet) => front.push((order.last(), packet)),
            None => front,
        }
    }
}

/// What each peer of an order has to send after the latest look at its timers.
pub open spec fn timer_replies(
    order: Seq<Ipv4Addr>,
    peers: Map<Ipv4Addr, PeerTunnel>,
) -> Seq<Option<Seq<u8>>> {
    Seq::new(
        order.len(),
        |i: int| reply_view(timer_packet(peers[order[i]].steps().last().event)),
    )
}

/// The timers of a tunnel were looked at, and nothing else of it changed.
pub open spec fn timers_seen(before: PeerTunnel, after: PeerTunnel) -> bool {
    &&& after.same_tunnel(&before)
    &&& after.broadcast_limiter == before.broadcast_limiter
    &&& after.handshaken == before.handshaken
    &&& stepped(before.steps(), after.steps(), EngineInput::Timers)
    &&& can_come_of_timers(after.steps().last().event)
}

/// What a packet, if there is one, holds.
pub open spec fn reply_view(reply: Option<Vec<u8>>) -> Option<Seq<u8>> {
    match reply {
        Some(packet) => Some(packet@),
        None => None,
    }
}

/// What a list of addressed packets holds.
pub open spec fn packet_views(packets: Seq<(Ipv4Addr, Vec<u8>)>) -> Seq<(Ipv4Addr, Seq<u8>)> {
    packets.map_values(|p: (Ipv4Addr, Vec<u8>)| (p.0, p.1@))
}

/// A round over the timers addresses only peers, none of them twice.
pub proof fn law_timer_round_addresses_peers(
    order: Seq<Ipv4Addr>,
    replies: Seq<Option<Seq<u8>>>,
    i: int,
    j: int,
)
    requires
        order.no_duplicates(),
        order.len() == replies.len(),
        0 <= i < j < timer_packets(order, replies).len(),
    ensures
        order.contains(timer_packets(order, replies)[i].0),
        order.contains(timer_packets(order, replies)[j].0),
        timer_packets(order, replies)[i].0 != timer_packets(order, replies)[j].0,
{
    lemma_timer_packets(order, replies);
}

/// The addresses of a round are those of peers, and come once each.
proof fn lemma_timer_packets(order: Seq<Ipv4Addr>, replies: Seq<Option<Seq<u8>>>)
    requires
        order.no_duplicates(),
        order.len() == replies.len(),
    ensures
        forall|i: int|
            0 <= i < timer_packets(order, replies).len() ==> order.contains(
                (#[trigger] timer_packets(order, replies)[i]).0,
            ),
        forall|i: int, j: int|
            0 <= i < j < timer_packets(order, replies).len() ==> (#[trigger] timer_packets(
                order,
                replies,
            )[i]).0 != (#[trigger] timer_packets(order, replies)[j]).0,
    decreases order.len(),
{
    if order.len() > 0 {
        let o = order.drop_last();
        let front = timer_packets(o, replies.drop_last());
        assert forall|a: int, b: int| 0 <= a < o.len() && 0 <= b < o.len() && a != b implies o[a]
            != o[b] by {
            assert(order[a] != order[b]);
        }
        lemma_timer_packets(o, replies.drop_last());
        let all = timer_packets(order, replies);
        assert forall|i: int| 0 <= i < all.len() implies order.contains((#[trigger] all[i]).0) by {
            if i < front.len() {
                assert(all[i] == front[i]);
                let k = choose|k: int| 0 <= k < o.len() && o[k] == front[i].0;
                assert(order[k] == all[i].0);
            } else {
                assert(order[order.len() - 1] == all[i].0);
            }
        }
        assert forall|i: int, j: int| 0 <= i < j < all.len() implies (#[trigger] all[i]).0 != (
        #[trigger] all[j]).0 by {
            assert(all[i] == front[i]);
            let k = choose|k: int| 0 <= k < o.len() && o[k] == front[i].0;
            if j < front.len() {
                assert(all[j] == front[j]);
            } else {
                assert(order[k] != order[order.len() - 1]);
            }
        }
    }
}

/// No packet of a round is lost, and none is made up: what a peer has to send is sent to it, at the
/// place that its turn gives, and whatever is sent is what a peer has to send.
pub proof fn law_no_timer_packet_is_lost(
    order: Seq<Ipv4Addr>,
    replies: Seq<Option<Seq<u8>>>,
    i: int,
)
    requires
        order.len() == replies.len(),
        0 <= i < order.len(),
    ensures
        replies[i] matches Some(packet) ==> {
            let before = timer_packets(order.take(i), replies.take(i)).len() as int;
            &&& before < timer_packets(order, replies).len()
            &&& timer_packets(order, replies)[before] == (order[i], packet)
            &&& timer_packets(order, replies).contains((order[i], packet))
        },
        forall|k: int|
            0 <= k < timer_packets(order, replies).len() ==> exists|j: int|
                0 <= j < order.len() && #[trigger] order[j] == (#[trigger] timer_packets(
                    order,
                    replies,
                )[k]).0 && replies[j] == Some(timer_packets(order, replies)[k].1),
    decreases order.len(),
{
    let all = timer_packets(order, replies);
    let (o, r) = (order.drop_last(), replies.drop_last());
    let front = timer_packets(o, r);
    let last = order.len() - 1;
    if i < last {
        law_no_timer_packet_is_lost(o, r, i);
        assert(o.take(i) =~= order.take(i));
        assert(r.take(i) =~= replies.take(i));
        if let Some(packet) = replies[i] {
            let before = timer_packets(order.take(i), replies.take(i)).len() as int;
            assert(all[before] == front[before]);
        }
    } else {
        assert(order.take(i) =~= o);
        assert(replies.take(i) =~= r);
        if o.len() > 0 {
            law_no_timer_packet_is_lost(o, r, 0);
        }
        if let Some(packet) = replies[i] {
            assert(all == front.push((order[i], packet)));
            assert(all[front.len() as int] == (order[i], packet));
        }
    }
    assert forall|k: int| 0 <= k < all.len() implies exists|j: int|
        0 <= j < order.len() && #[trigger] order[j] == (#[trigger] all[k]).0 && replies[j] == Some(
            all[k].1,
        ) by {
        if k < front.len() {
            assert(all[k] == front[k]);
            let j = choose|j: int|
                0 <= j < o.len() && #[trigger] o[j] == front[k].0 && r[j] == Some(front[k].1);
            assert(order[j] == all[k].0);
        } else {
            assert(order[last] == all[k].0);
        }
    }
}

/// A node with a single peer sends what that peer has to send.
pub proof fn law_single_peer_gets_its_timer_packet(ip: Ipv4Addr, packet: Seq<u8>)
    ensures
        timer_packets(seq![ip], seq![Some(packet)]) == seq![(ip, packet)],
        timer_packets(seq![ip], seq![None]).len() == 0,
{
    let (o, r) = (seq![ip], seq![Some(packet)]);
    let none = seq![None::<Seq<u8>>];
    assert(o.drop_last() =~= Seq::<Ipv4Addr>::empty());
    assert(timer_packets(o.drop_last(), r.drop_last()).len() == 0);
    assert(timer_packets(o.drop_last(), none.drop_last()).len() == 0);
    assert(timer_packets(o, r) =~= seq![(ip, packet)]);
}

/// What the engine of a peer made of the latest look at its timers is sent to that peer, if it is
/// for the network, and only then.
pub proof fn law_due_packets_are_sent(
    order: Seq<Ipv4Addr>,
    peers: Map<Ipv4Addr, PeerTunnel>,
    i: int,
)
    requires
        order.no_duplicates(),
        0 <= i < order.len(),
    ensures
        ({
            let sent = timer_packets(order, timer_replies(order, peers));
            let event = peers[order[i]].engine.steps().last().event;
            &&& event matches TunnelEvent::Network(d) ==> sent.contains((order[i], d@))
            &&& event !is Network ==> forall|k: int|
                0 <= k < sent.len() ==> (#[trigger] sent[k]).0 != order[i]
        }),
{
    let replies = timer_replies(order, peers);
    let sent = timer_packets(order, replies);
    law_no_timer_packet_is_lost(order, replies, i);
    let event = peers[order[i]].engine.steps().last().event;
    if event !is Network {
        assert forall|k: int| 0 <= k < sent.len() implies (#[trigger] sent[k]).0 != order[i] by {
            let j = choose|j: int|
                0 <= j < order.len() && #[trigger] order[j] == sent[k].0 && replies[j] == Some(
                    sent[k].1,
                );
            assert(replies[i] is None);
        }
    }
}

/// Adds a packet that a peer's timer asked for to those of its round.
pub fn note_timer_packet(
    packets: &mut Vec<(Ipv4Addr, Vec<u8>)>,
    ip: Ipv4Addr,
    reply: Option<Vec<u8>>,
)
    ensures
        packet_views(final(packets)@) == match reply {
            Some(packet) => packet_views(old(packets)@).push((ip, packet@)),
            None => packet_views(old(packets)@),
        },
        final(packets)@ == match reply {
            Some(packet) => old(packets)@.push((ip, packet)),
            None => old(packets)@,
        },
{
    let ghost before = packets@;
    if let Some(packet) = reply {
        packets.push((ip, packet));
        assert(packet_views(packets@) =~= packet_views(before).push((ip, packet@)));
    }
}

impl WireGuardManager<PeerTunnel> {
    /// Creates a Tunn for a peer with a unique incremental local index
    pub fn create_tunnel(
        &mut self,
        own_private_key: &StaticSecret,
        peer_public_key: &PublicKey,
        peer_ip: Ipv4Addr,
        is_gateway: bool,
    ) -> (r: Result<(), TunnelFault>)
        requires
            old(self).wf(),
        ensures
            r is Ok,
            final(self).wf(),
            final(self).peers() == old(self).peers().insert(peer_ip, final(self).peers()[peer_ip]),
            final(self).peers()[peer_ip].wf(),
            fresh_tunnel(
                final(self).peers()[peer_ip],
                *own_private_key,
                *peer_public_key,
                old(self).next_index(),
                is_gateway,
            ),
            final(self).limiter() == Some(final(self).peers()[peer_ip].engine.limiter()),
            limiter_after(
                old(self).limiter(),
                *own_private_key,
                final(self).peers()[peer_ip].engine.limiter(),
            ),
            final(self).order() == if old(self).peers().contains_key(peer_ip) {
                old(self).order()
            } else {
                old(self).order().push(peer_ip)
            },
            final(self).subnet() == old(self).subnet(),
            final(self).next_index() == next_tunnel_index(old(self).next_index()),
            tunnels_wf(old(self).peers()) ==> tunnels_wf(final(self).peers()),
            share_limiter(old(self).peers(), old(self).limiter()) ==> share_limiter(
                final(self).peers(),
                final(self).limiter(),
            ),
    {
        let tunnel: PeerTunnel = self.open_tunnel(own_private_key, peer_public_key, is_gateway);
        self.insert_peer(peer_ip, tunnel);
        Ok(())
    }

    /// Called periodically to handle WireGuard timers for all peers.
    pub fn handle_timer(&mut self) -> (r: Vec<(Ipv4Addr, Vec<u8>)>)
        requires
            old(self).wf(),
            tunnels_wf(old(self).peers()),
        ensures
            final(self).wf(),
            tunnels_wf(final(self).peers()),
            final(self).peers().dom() == old(self).peers().dom(),
            final(self).order() == old(self).order(),
            final(self).subnet() == old(self).subnet(),
            final(self).next_index() == old(self).next_index(),
            final(self).limiter() == old(self).limiter(),
            forall|ip: Ipv4Addr| #[trigger]
                old(self).peers().contains_key(ip) ==> timers_seen(
                    old(self).peers()[ip],
                    final(self).peers()[ip],
                ),
            share_limiter(old(self).peers(), old(self).limiter()) ==> share_limiter(
                final(self).peers(),
                final(self).limiter(),
            ),
            packet_views(r@) == timer_packets(
                old(self).order(),
                timer_replies(old(self).order(), final(self).peers()),
            ),
            forall|i: int|
                0 <= i < r@.len() ==> is_data((#[trigger] r@[i]).1@) && r@[i].1@.len() == 32
                    || is_initiation(r@[i].1@),
    {
        let mut r: Vec<(Ipv4Addr, Vec<u8>)> = Vec::new();
        let ghost mut replies: Seq<Option<Seq<u8>>> = seq![];
        let mut i: usize = 0;
        proof {
            self.peers.lemma_keys();
            assert(self.order().take(0) =~= seq![]);
            assert(packet_views(r@) =~= seq![]);
        }
        while i < self.peers.len()
            invariant
                self.wf(),
                tunnels_wf(self.peers()),
                self.peers().dom() == old(self).peers().dom(),
                self.order() == old(self).order(),
                self.order().no_duplicates(),
                self.subnet() == old(self).subnet(),
                self.next_index() == old(self).next_index(),
                self.limiter() == old(self).limiter(),
                i <= self.order().len(),
                forall|k: int|
                    0 <= k < self.order().len() ==> old(self).peers().contains_key(
                        #[trigger] self.order()[k],
                    ),
                forall|k: int|
                    i <= k < self.order().len() ==> self.peers()[#[trigger] self.order()[k]]
                        == old(self).peers()[self.order()[k]],
                forall|k: int|
                    0 <= k < i ==> timers_seen(
                        old(self).peers()[#[trigger] self.order()[k]],
                        self.peers()[self.order()[k]],
                    ),
                replies.len() == i,
                forall|k: int|
                    0 <= k < i ==> #[trigger] replies[k] == reply_view(
                        timer_packet(self.peers()[self.order()[k]].steps().last().event),
                    ),
                packet_views(r@) == timer_packets(self.order().take(i as int), replies),
                forall|k: int|
                    0 <= k < r@.len() ==> is_data((#[trigger] r@[k]).1@) && r@[k].1@.len() == 32
                        || is_initiation(r@[k].1@),
            decreases self.order().len() - i,
        {
            let ip: Ipv4Addr = self.peers.key_at(i);
            let ghost before = self.peers();
            let ghost order = self.order();
            let reply: Option<Vec<u8>> = match self.peers.get_mut(ip) {
                Some(tunnel) => tunnel.update_timers(),
                None => None,
            };
            proof {
                assert(before.contains_key(ip));
                assert(self.peers().dom() =~= before.dom());
                assert(self.peers() == before.insert(ip, self.peers()[ip]));
                assert(timers_seen(before[ip], self.peers()[ip]));
                assert forall|k: int| 0 <= k < order.len() && k != i implies self.peers()[
                #[trigger] order[k]] == before[order[k]] by {
                    assert(order[k] != order[i as int]);
                }
                let view = reply_view(reply);
                assert(replies.push(view).drop_last() == replies);
                replies = replies.push(view);
                assert(self.order().take(i + 1).drop_last() == self.order().take(i as int));
            }
            note_timer_packet(&mut r, ip, reply);
            i += 1;
        }
        proof {
            let order = self.order();
            assert(order.take(order.len() as int) == order);
            assert(replies =~= timer_replies(order, self.peers()));
            old(self).peers.lemma_keys();
            assert forall|ip: Ipv4Addr| #[trigger]
                old(self).peers().contains_key(ip) implies timers_seen(
                old(self).peers()[ip],
                self.peers()[ip],
            ) by {
                let k = choose|k: int| 0 <= k < order.len() && order[k] == ip;
                assert(order.contains(ip));
                assert(order[k] == ip);
            }
        }
        r
    }
}

/// The index of the `n`th tunnel, as a number.
proof fn lemma_tunnel_index(start: u32, n: nat)
    ensures
        tunnel_index(start, n) == (start + n) % 0x1_0000_0000,
    decreases n,
{
    if n > 0 {
        lemma_tunnel_index(start, (n - 1) as nat);
    }
}

/// No two tunnels of a node have the same local index, as long as it has opened no more than
/// there are indices.
pub proof fn law_tunnel_indices_are_unique(start: u32, m: nat, n: nat)
    requires
        m < n < m + 0x1_0000_0000,
    ensures
        tunnel_index(start, m) != tunnel_index(start, n),
{
    lemma_tunnel_index(start, m);
    lemma_tunnel_index(start, n);
}

/// Tunnels are numbered one after the other, from any number on: each has the number that follows
/// that of the one before, and zero follows the last of all numbers.
pub proof fn law_tunnels_are_numbered_in_turn(start: u32, n: nat)
    ensures
        next_tunnel_index(start) == (start + 1) % 0x1_0000_0000,
        tunnel_index(start, n) == (start + n) % 0x1_0000_0000,
        tunnel_index(start, n + 1) == next_tunnel_index(tunnel_index(start, n)),
{
    lemma_tunnel_index(start, n);
}

/// The first tunnel of a node makes the limiter for its key and a hundred handshakes, and all that
/// follow share it.
pub proof fn law_one_limiter_for_all(
    own: StaticSecret,
    first: HandshakeLimiter,
    second: HandshakeLimiter,
)
    requires
        limiter_after(None, own, first),
        limiter_after(Some(first), own, second),
    ensures
        second == first,
        first.limit() == 100,
        first.public_key() == x25519_public(own.bytes@),
{
}

/// A look at the timers of a tunnel is one step of its engine, and leaves its keys, its limiter, its
/// role and its allowance as they were.
pub proof fn law_timers_are_one_step(before: PeerTunnel, after: PeerTunnel)
    requires
        timers_seen(before, after),
    ensures
        after.engine.keys() == before.engine.keys(),
        after.engine.limiter() == before.engine.limiter(),
        after.is_gateway == before.is_gateway,
        after.broadcast_limiter == before.broadcast_limiter,
        after.engine.steps().len() == before.engine.steps().len() + 1,
        after.engine.steps().last().input == EngineInput::Timers,
        after.engine.steps().drop_last() == before.engine.steps(),
{
    let (a, b) = (after.engine.steps(), before.engine.steps());
    assert(a.drop_last() =~= a.take(b.len() as int));
}

/// A list of addressed packets shows each packet whole, with its address, at its place.
pub proof fn law_packets_are_shown_whole(packets: Seq<(Ipv4Addr, Vec<u8>)>, i: int)
    requires
        0 <= i < packets.len(),
    ensures
        packet_views(packets).len() == packets.len(),
        packet_views(packets)[i].0 == packets[i].0,
        packet_views(packets)[i].1 == packets[i].1@,
{
}

} // verus!
