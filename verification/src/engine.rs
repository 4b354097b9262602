//! The virtual switch: where packets go.

use crate::addr::Ipv4Addr;
use crate::addrmap::{without, AddressMap};
use crate::manager::WireGuardManager;
use crate::noise::TunnelEvent;
use crate::packet::law_clamp_is_local;
use crate::room::{forgotten, RoomManager};
use crate::subnet::{in_subnet, law_virtual_lan_addresses};
use crate::wireguard::{
    destination, destination_of, is_lan_broadcast, lan_broadcast, law_delivered_keeps_policy,
    settled, source_of, DecapsulateOutput, InboundPolicy, MAX_SEGMENT,
};
use vstd::prelude::*;

verus! {

/// How many packets wait for being sent at most.
pub const PACKET_QUEUE_LEN: usize = 1024;

/// How often the timers of the tunnels are looked at, in milliseconds.
pub const TIMER_INTERVAL_MS: u64 = 500;

/// Main network engine orchestrating the virtual LAN
pub struct NetworkEngine;

/// To whom a packet from the virtual adapter goes, of those that are connected: to all of them
/// if it is a broadcast, and else to the one that it is addressed to.
pub open spec fn outbound_targets(
    packet: Seq<u8>,
    connected: Set<Ipv4Addr>,
    order: Seq<Ipv4Addr>,
) -> Seq<Ipv4Addr> {
    if packet.len() < 20 {
        seq![]
    } else if is_lan_broadcast(destination_of(packet)) {
        order
    } else if connected.contains(destination_of(packet)) {
        seq![destination_of(packet)]
    } else {
        seq![]
    }
}

/// What is to be done with what came out of a tunnel.
#[derive(Debug)]
pub enum InboundAction {
    /// It goes to the virtual adapter.
    WriteToAdapter(Vec<u8>),
    /// It goes on to another peer, the one at this address.
    Relay(Ipv4Addr, Vec<u8>),
    /// It goes back to the peer that it came from.
    Reply(Vec<u8>),
    /// Nothing.
    Nothing,
}

/// The address of the host in the virtual LAN.
pub open spec fn is_host(ip: Ipv4Addr) -> bool {
    ip == (Ipv4Addr { a: 10, b: 7, c: 0, d: 1 })
}

/// What is to be done with an output of a tunnel.
pub open spec fn action_for(output: DecapsulateOutput) -> InboundAction {
    match output {
        DecapsulateOutput::TunnelPacket(packet) => if packet@.len() < 20 {
            InboundAction::Nothing
        } else if is_lan_broadcast(destination_of(packet@)) || is_host(destination_of(packet@)) {
            InboundAction::WriteToAdapter(packet)
        } else {
            InboundAction::Relay(destination_of(packet@), packet)
        },
        DecapsulateOutput::NetworkPacket(response) => InboundAction::Reply(response),
        DecapsulateOutput::Done => InboundAction::Nothing,
    }
}

impl NetworkEngine {
    /// Decides to whom a packet from the virtual adapter goes.
    pub fn outbound_targets<C>(packet: &[u8], connections: &AddressMap<C>) -> (r: Vec<Ipv4Addr>)
        requires
            connections.wf(),
        ensures
            r@ == outbound_targets(packet@, connections@.dom(), connections.keys()),
    {
        let mut r: Vec<Ipv4Addr> = Vec::new();
        if packet.len() < 20 {
            return r;
        }
        let to: Ipv4Addr = destination(packet);
        if lan_broadcast(to) {
            let mut i: usize = 0;
            while i < connections.len()
                invariant
                    i <= connections.keys().len(),
                    r@ == connections.keys().take(i as int),
                decreases connections.keys().len() - i,
            {
                r.push(connections.key_at(i));
                i += 1;
            }
        } else if connections.contains_key(to) {
            r.push(to);
        }
        r
    }

    /// Decides what is to be done with what came out of a tunnel.
    pub fn inbound_action(output: DecapsulateOutput) -> (r: InboundAction)
        ensures
            r == action_for(output),
    {
        match output {
            DecapsulateOutput::TunnelPacket(packet) => {
                if packet.len() < 20 {
                    return InboundAction::Nothing;
                }
                let to: Ipv4Addr = destination(&packet);
                if lan_broadcast(to) || to == Ipv4Addr::new(10, 7, 0, 1) {
                    InboundAction::WriteToAdapter(packet)
                } else {
                    InboundAction::Relay(to, packet)
                }
            },
            DecapsulateOutput::NetworkPacket(response) => InboundAction::Reply(response),
            DecapsulateOutput::Done => InboundAction::Nothing,
        }
    }

    /// Takes a peer whose connection is gone out of the connections, of the tunnels and of the
    /// active room.
    pub fn forget_peer<C, H>(
        connections: &mut AddressMap<C>,
        tunnels: &mut WireGuardManager<H>,
        rooms: &mut RoomManager,
        peer_ip: Ipv4Addr,
    )
        requires
            old(connections).wf(),
            old(tunnels).wf(),
        ensures
            final(connections).wf(),
            final(connections)@ == old(connections)@.remove(peer_ip),
            final(connections).keys() == without(old(connections).keys(), peer_ip),
            final(tunnels).wf(),
            final(tunnels).peers() == old(tunnels).peers().remove(peer_ip),
            final(tunnels).order() == without(old(tunnels).order(), peer_ip),
            final(tunnels).subnet() == old(tunnels).subnet(),
            final(tunnels).next_index() == old(tunnels).next_index(),
            final(tunnels).limiter() == old(tunnels).limiter(),
            match old(rooms).active_room {
                Some(before) => final(rooms).active_room matches Some(after) && {
                    &&& forgotten(before.peers@, after.peers@, peer_ip)
                    &&& after.room_code == before.room_code
                    &&& after.host_public_key == before.host_public_key
                    &&& after.subnet == before.subnet
                    &&& after.created_at == before.created_at
                },
                None => final(rooms).active_room is None,
            },
    {
        connections.remove(peer_ip);
        tunnels.remove_peer(peer_ip);
        if let Some(room) = rooms.get_active_room_mut() {
            room.drop_peer_at(&peer_ip);
        }
    }
}

/// A broadcast reaches every connected peer, each once.
pub proof fn law_broadcast_reaches_everybody(
    packet: Seq<u8>,
    connected: Set<Ipv4Addr>,
    order: Seq<Ipv4Addr>,
    ip: Ipv4Addr,
)
    requires
        packet.len() >= 20,
        is_lan_broadcast(destination_of(packet)),
        order.no_duplicates(),
        forall|k: Ipv4Addr| #[trigger] connected.contains(k) <==> order.contains(k),
        connected.contains(ip),
    ensures
        outbound_targets(packet, connected, order).contains(ip),
        outbound_targets(packet, connected, order).no_duplicates(),
{
}

/// A packet goes to nobody who is not connected.
pub proof fn law_packets_go_to_the_connected(
    packet: Seq<u8>,
    connected: Set<Ipv4Addr>,
    order: Seq<Ipv4Addr>,
    ip: Ipv4Addr,
)
    requires
        forall|k: Ipv4Addr| #[trigger] connected.contains(k) <==> order.contains(k),
        outbound_targets(packet, connected, order).contains(ip),
    ensures
        connected.contains(ip),
        !is_lan_broadcast(destination_of(packet)) ==> ip == destination_of(packet),
{
}

/// What goes on to another peer stays in the virtual LAN: where a tunnel of the LAN, to a gateway
/// or to a peer with an address of the LAN, delivers a packet that is to be relayed, it is
/// addressed to a single peer of 10.7.0.0/24 other than the host.
pub proof fn law_relay_stays_in_lan(
    policy: InboundPolicy,
    event: TunnelEvent,
    token: bool,
    waiting: Seq<Vec<u8>>,
    outputs: Vec<DecapsulateOutput>,
    i: int,
)
    requires
        policy.network == 0x0A07_0000,
        policy.netmask == 0xFFFF_FF00,
        settled(policy, event, token, waiting, Ok(outputs)),
        0 <= i < outputs@.len(),
        action_for(outputs@[i]) is Relay,
        !policy.is_gateway ==> in_subnet(policy.peer_ip, policy.network, policy.netmask),
    ensures
        ({
            let ip = action_for(outputs@[i])->Relay_0;
            ip.a == 10 && ip.b == 7 && ip.c == 0 && ip.d != 1 && ip.d != 255
        }),
{
    law_delivered_keeps_policy(policy, event, token, waiting, outputs, i);
    let q = event->PacketV4_0@;
    let p = outputs@[i]->TunnelPacket_0@;
    law_clamp_is_local(q, MAX_SEGMENT);
    law_virtual_lan_addresses(source_of(q));
    law_virtual_lan_addresses(destination_of(p));
}

/// A packet that is addressed to a single connected peer, any of them, goes to that peer and to
/// nobody else.
pub proof fn law_unicast_goes_to_its_destination(
    packet: Seq<u8>,
    connected: Set<Ipv4Addr>,
    order: Seq<Ipv4Addr>,
    to: Ipv4Addr,
)
    requires
        packet.len() >= 20,
        packet.subrange(16, 20) == seq![to.a, to.b, to.c, to.d],
        !(to.a == 255 && to.b == 255 && to.c == 255 && to.d == 255),
        !(to.a == 10 && to.b == 7 && to.c == 0 && to.d == 255),
    ensures
        connected.contains(to) ==> outbound_targets(packet, connected, order) == seq![to],
        !connected.contains(to) ==> outbound_targets(packet, connected, order).len() == 0,
{
    let bytes = packet.subrange(16, 20);
    assert(bytes[0] == to.a && bytes[1] == to.b && bytes[2] == to.c && bytes[3] == to.d);
    assert(destination_of(packet) == to);
}

/// A packet to 255.255.255.255 or to 10.7.0.255 goes to all that are connected, each once and in
/// their order.
pub proof fn law_broadcast_goes_to_all(
    packet: Seq<u8>,
    connected: Set<Ipv4Addr>,
    order: Seq<Ipv4Addr>,
)
    requires
        packet.len() >= 20,
        packet.subrange(16, 20) == seq![255u8, 255, 255, 255] || packet.subrange(16, 20) == seq![
            10u8,
            7,
            0,
            255,
        ],
    ensures
        outbound_targets(packet, connected, order) == order,
{
    let bytes = packet.subrange(16, 20);
    assert(bytes[0] == packet[16] && bytes[1] == packet[17] && bytes[2] == packet[18] && bytes[3]
        == packet[19]);
}

/// What is too short for an IPv4 header goes nowhere.
pub proof fn law_runts_go_nowhere(
    packet: Seq<u8>,
    connected: Set<Ipv4Addr>,
    order: Seq<Ipv4Addr>,
    output: DecapsulateOutput,
)
    requires
        packet.len() < 20,
        output matches DecapsulateOutput::TunnelPacket(p) && p@ == packet,
    ensures
        outbound_targets(packet, connected, order).len() == 0,
        action_for(output) is Nothing,
{
}

/// A packet out of a tunnel stays whole and goes one way: to the virtual adapter if it is for the
/// host at 10.7.0.1 or for everybody, and else on to the peer that it is addressed to.
pub proof fn law_inbound_goes_one_way(packet: Vec<u8>, to: Ipv4Addr)
    requires
        packet@.len() >= 20,
        packet@.subrange(16, 20) == seq![to.a, to.b, to.c, to.d],
    ensures
        ({
            let action = action_for(DecapsulateOutput::TunnelPacket(packet));
            let everybody = to.a == 255 && to.b == 255 && to.c == 255 && to.d == 255 || to.a == 10
                && to.b == 7 && to.c == 0 && to.d == 255;
            let host = to.a == 10 && to.b == 7 && to.c == 0 && to.d == 1;
            &&& everybody || host ==> action == InboundAction::WriteToAdapter(packet)
            &&& !everybody && !host ==> action == InboundAction::Relay(to, packet)
        }),
{
    let bytes = packet@.subrange(16, 20);
    assert(bytes[0] == to.a && bytes[1] == to.b && bytes[2] == to.c && bytes[3] == to.d);
    assert(destination_of(packet@) == to);
}

/// What the engine of a tunnel has for its peer goes back to the peer, as it is.
pub proof fn law_replies_go_back(datagram: Vec<u8>)
    ensures
        action_for(DecapsulateOutput::NetworkPacket(datagram)) == InboundAction::Reply(datagram),
        action_for(DecapsulateOutput::Done) is Nothing,
{
}

} // verus!
