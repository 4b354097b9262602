use boringtun::noise::errors::WireGuardError;
use elysium::addr::{IpAddr, Ipv4Addr, SocketAddr};
use elysium::keys::{PublicKey, StaticSecret};
use elysium::limiter::BroadcastRateLimiter;
use elysium::manager::{note_timer_packet, WireGuardManager};
use elysium::noise::{is_counter_near_end, TunnelEvent};
use elysium::packet::is_sensitive_host_port;
use elysium::subnet::CidrError;
use elysium::wireguard::{
    datagram_source, gather, payload_of, settle, timer_packet_of, DecapsulateOutput, InboundPolicy, PeerTunnel, TunnelFault,
    Verdict,
};

const NETWORK: u32 = 0x0A07_0000;
const NETMASK: u32 = 0xFFFF_FF00;

fn ip(d: u8) -> Ipv4Addr {
    Ipv4Addr::new(10, 7, 0, d)
}

fn here() -> SocketAddr {
    SocketAddr::V4 { ip: Ipv4Addr::new(127, 0, 0, 1), port: 0 }
}

/// A UDP packet from one address to another, to a port.
fn udp(source: Ipv4Addr, destination: Ipv4Addr, port: u16) -> Vec<u8> {
    let mut p = vec![0x45, 0, 0, 28, 0, 0, 0, 0, 64, 17, 0, 0];
    p.extend_from_slice(&source.octets());
    p.extend_from_slice(&destination.octets());
    p.extend_from_slice(&[0x1F, 0x90]);
    p.extend_from_slice(&port.to_be_bytes());
    p.extend_from_slice(&[0, 8, 0, 0]);
    p
}

fn direct(peer: u8) -> InboundPolicy {
    InboundPolicy { is_gateway: false, peer_ip: ip(peer), network: NETWORK, netmask: NETMASK }
}

fn gateway() -> InboundPolicy {
    InboundPolicy { is_gateway: true, peer_ip: ip(1), network: NETWORK, netmask: NETMASK }
}

fn tunnel_packet(output: &DecapsulateOutput) -> Option<Vec<u8>> {
    match output {
        DecapsulateOutput::TunnelPacket(p) => Some(p.clone()),
        _ => None,
    }
}

fn network_packet(output: &DecapsulateOutput) -> Option<Vec<u8>> {
    match output {
        DecapsulateOutput::NetworkPacket(p) => Some(p.clone()),
        _ => None,
    }
}

/// A host and a client, each with a tunnel to the other.
fn pair(host_sees_gateway: bool) -> (PeerTunnel, PeerTunnel) {
    let host_secret = StaticSecret::from_bytes([1u8; 32]);
    let client_secret = StaticSecret::from_bytes([2u8; 32]);
    let mut host: WireGuardManager<PeerTunnel> = WireGuardManager::new("10.7.0.0/24").unwrap();
    let mut client: WireGuardManager<PeerTunnel> = WireGuardManager::new("10.7.0.0/24").unwrap();
    let to_client = host.open_tunnel(&host_secret, &client_secret.public_key(), host_sees_gateway);
    let to_host = client.open_tunnel(&client_secret, &host_secret.public_key(), true);
    (to_client, to_host)
}

/// Shakes hands, with a packet from the client waiting. Returns what reaches the host of it.
fn shake(to_client: &mut PeerTunnel, to_host: &mut PeerTunnel, packet: &[u8]) -> Vec<DecapsulateOutput> {
    let init = to_host.encrypt_packet(ip(1), packet).unwrap();
    assert_eq!(init.len(), 148);
    // While the handshake is under way, there is nothing to send.
    assert!(matches!(to_host.encrypt_packet(ip(1), &[]), Err(TunnelFault::NotEncapsulated)));
    let answer = to_client.decrypt_packet(ip(2), here(), &init, NETWORK, NETMASK).unwrap();
    assert_eq!(answer.len(), 1);
    let answer = network_packet(&answer[0]).unwrap();
    let follow = to_host.decrypt_packet(ip(1), here(), &answer, NETWORK, NETMASK).unwrap();
    let mut outputs = Vec::new();
    for f in follow.iter() {
        let datagram = network_packet(f).unwrap();
        outputs.extend(to_client.decrypt_packet(ip(2), here(), &datagram, NETWORK, NETMASK).unwrap());
    }
    outputs
}

#[test]
fn test_broadcast_rate_limiter_burst_and_throttle() {
    let mut limiter = BroadcastRateLimiter::new(10, 5);
    // Can burst 10 times immediately
    for _ in 0..10 {
        assert!(limiter.allow());
    }
    // 11th should be denied
    assert!(!limiter.allow());
}

#[test]
fn limiter_refills_with_time() {
    let mut limiter = BroadcastRateLimiter::new(2, 5);
    assert!(limiter.allow_after(0));
    assert!(limiter.allow_after(0));
    assert!(!limiter.allow_after(0));
    // A fifth of a second makes one token, a nanosecond less does not.
    assert!(!limiter.allow_after(199_999_999));
    assert!(limiter.allow_after(1));
    assert!(!limiter.allow_after(0));
    // A long while fills the bucket, and no more.
    assert!(limiter.allow_after(1_000_000_000_000));
    assert!(limiter.allow_after(0));
    assert!(!limiter.allow_after(0));
}

#[test]
fn limiter_goes_by_the_clock() {
    let mut limiter = BroadcastRateLimiter::new(2, 5);
    assert!(limiter.allow_at(1_000_000_000));
    assert!(limiter.allow_at(1_000_000_000));
    assert!(!limiter.allow_at(1_000_000_000));
    assert!(!limiter.allow_at(1_199_999_999));
    assert!(limiter.allow_at(1_200_000_000));
    // A clock that stands still, or runs back, fills nothing.
    assert!(!limiter.allow_at(1_200_000_000));
    assert!(!limiter.allow_at(0));
    assert!(limiter.allow_at(200_000_000));
}

#[test]
fn test_create_tunnel_gateway_and_direct() {
    let mut wg_mgr: WireGuardManager<PeerTunnel> = WireGuardManager::new("10.7.0.0/24").unwrap();
    let peer_ip = Ipv4Addr::new(10, 7, 0, 2);

    let secret = StaticSecret::from_bytes([1u8; 32]);
    let pub_key = secret.public_key();

    // Direct peer (Host side)
    wg_mgr.create_tunnel(&secret, &pub_key, peer_ip, false).unwrap();
    assert!(wg_mgr.get_peer(peer_ip).is_some());

    // Gateway peer (Client side)
    let host_ip = Ipv4Addr::new(10, 7, 0, 1);
    wg_mgr.create_tunnel(&secret, &pub_key, host_ip, true).unwrap();
    assert!(wg_mgr.get_peer(host_ip).is_some());

    assert!(!wg_mgr.get_peer(peer_ip).unwrap().is_gateway);
    assert!(wg_mgr.get_peer(host_ip).unwrap().is_gateway);
}

#[test]
fn test_is_sensitive_host_port() {
    // Construct dummy IPv4 TCP packet targeting port 445 (SMB)
    let mut smb_pkt = vec![0x45, 0x00, 0x00, 0x28, 0, 0, 0, 0, 64, 6, 0, 0, 10, 7, 0, 2, 10, 7, 0, 1];
    smb_pkt.extend_from_slice(&[0x1F, 0x90, 0x01, 0xBD]); // Src port 8080, Dst port 445
    smb_pkt.extend_from_slice(&[0; 16]); // Rest of TCP header
    assert!(is_sensitive_host_port(&smb_pkt));

    // Construct dummy IPv4 UDP packet targeting game port 27015
    let mut game_pkt = vec![0x45, 0x00, 0x00, 0x20, 0, 0, 0, 0, 64, 17, 0, 0, 10, 7, 0, 2, 10, 7, 0, 1];
    game_pkt.extend_from_slice(&[0x1F, 0x90, 0x69, 0x87]); // Src port 8080, Dst port 27015
    assert!(!is_sensitive_host_port(&game_pkt));
}

#[test]
fn test_runt_packet_rejection() {
    let mut wg_mgr: WireGuardManager<PeerTunnel> = WireGuardManager::new("10.7.0.0/24").unwrap();
    let peer_ip = Ipv4Addr::new(10, 7, 0, 2);
    let secret = StaticSecret::from_bytes([1u8; 32]);
    let pub_key = secret.public_key();
    wg_mgr.create_tunnel(&secret, &pub_key, peer_ip, false).unwrap();

    for len in 0..20 {
        let runt = vec![0x45; len];
        assert_eq!(direct(2).judge(&runt, true), Verdict::Runt);
        let outputs = settle(&direct(2), TunnelEvent::PacketV4(runt), true, vec![]).unwrap();
        assert!(outputs.is_empty());
    }
}

#[test]
fn verdicts_of_a_direct_peer() {
    let policy = direct(2);
    assert_eq!(policy.judge(&udp(ip(2), ip(1), 27015), false), Verdict::Deliver);
    assert_eq!(policy.judge(&udp(ip(3), ip(1), 27015), true), Verdict::Spoofed);
    let outside = Ipv4Addr::new(192, 168, 1, 5);
    assert_eq!(policy.judge(&udp(ip(2), outside, 27015), true), Verdict::External);
    assert_eq!(policy.judge(&udp(ip(2), ip(1), 445), true), Verdict::Sensitive);
    let all = Ipv4Addr::new(255, 255, 255, 255);
    assert_eq!(policy.judge(&udp(ip(2), all, 27015), true), Verdict::Deliver);
    assert_eq!(policy.judge(&udp(ip(2), all, 27015), false), Verdict::Throttled);
    assert_eq!(policy.judge(&udp(ip(2), ip(255), 27015), true), Verdict::Deliver);
    assert_eq!(policy.judge(&udp(ip(2), ip(255), 27015), false), Verdict::Throttled);
}

#[test]
fn verdicts_of_a_gateway() {
    let policy = gateway();
    assert_eq!(policy.judge(&udp(ip(9), ip(3), 27015), false), Verdict::Deliver);
    let outside = Ipv4Addr::new(10, 8, 0, 2);
    assert_eq!(policy.judge(&udp(outside, ip(3), 27015), true), Verdict::Spoofed);
    let all = Ipv4Addr::new(255, 255, 255, 255);
    assert_eq!(policy.judge(&udp(all, ip(3), 27015), true), Verdict::Spoofed);
    // With a mask that takes in everything, the broadcast address is still no source.
    let open = InboundPolicy { is_gateway: true, peer_ip: ip(1), network: 0, netmask: 0 };
    assert_eq!(open.judge(&udp(all, ip(3), 27015), true), Verdict::Spoofed);
    assert_eq!(open.judge(&udp(outside, ip(3), 27015), true), Verdict::Deliver);
}

#[test]
fn tokens_are_asked_for_broadcasts_only() {
    assert!(direct(2).needs_token(&udp(ip(2), ip(255), 1)));
    assert!(!direct(2).needs_token(&udp(ip(3), ip(255), 1)));
    assert!(!direct(2).needs_token(&udp(ip(2), ip(1), 1)));
    assert!(!direct(2).needs_token(&[0x45; 19]));
}

#[test]
fn settling_events() {
    let packet = udp(ip(2), ip(1), 27015);
    let outputs = settle(
        &direct(2),
        TunnelEvent::PacketV4(packet.clone()),
        true,
        vec![vec![1, 2], vec![3]],
    )
    .unwrap();
    assert_eq!(outputs.len(), 3);
    assert_eq!(tunnel_packet(&outputs[0]), Some(packet));
    assert_eq!(network_packet(&outputs[1]), Some(vec![1, 2]));
    assert_eq!(network_packet(&outputs[2]), Some(vec![3]));

    let outputs = settle(&direct(2), TunnelEvent::Network(vec![7]), true, vec![]).unwrap();
    assert_eq!(outputs.len(), 1);
    assert_eq!(network_packet(&outputs[0]), Some(vec![7]));

    assert!(settle(&direct(2), TunnelEvent::Done, true, vec![]).unwrap().is_empty());
    assert!(settle(&direct(2), TunnelEvent::PacketV6(vec![0x60; 60]), true, vec![]).unwrap().is_empty());

    let failed = settle(&direct(2), TunnelEvent::Error(WireGuardError::InvalidMac), true, vec![]);
    match failed {
        Err(TunnelFault::Decapsulation(e)) => assert_eq!(format!("{:?}", e), "InvalidMac"),
        _ => panic!("an error was to come"),
    }
}

#[test]
fn payloads_and_timer_packets() {
    assert_eq!(payload_of(TunnelEvent::Network(vec![1])).unwrap(), vec![1]);
    assert!(matches!(payload_of(TunnelEvent::Done), Err(TunnelFault::NotEncapsulated)));
    assert!(matches!(
        payload_of(TunnelEvent::Error(WireGuardError::LockFailed)),
        Err(TunnelFault::Encapsulation(WireGuardError::LockFailed))
    ));
    assert_eq!(timer_packet_of(TunnelEvent::Network(vec![9])), Some(vec![9]));
    assert_eq!(timer_packet_of(TunnelEvent::Done), None);
    assert_eq!(timer_packet_of(TunnelEvent::Error(WireGuardError::ConnectionExpired)), None);
}

#[test]
fn gathering_what_waits() {
    let mut waiting = vec![vec![1]];
    assert!(gather(&mut waiting, TunnelEvent::Network(vec![2, 3])));
    assert_eq!(waiting, vec![vec![1], vec![2, 3]]);
    assert!(!gather(&mut waiting, TunnelEvent::Done));
    assert!(!gather(&mut waiting, TunnelEvent::PacketV4(vec![4])));
    assert_eq!(waiting, vec![vec![1], vec![2, 3]]);
}

#[test]
fn a_packet_passes_a_tunnel() {
    let (mut to_client, mut to_host) = pair(false);
    let packet = udp(ip(2), ip(1), 27015);
    let outputs = shake(&mut to_client, &mut to_host, &packet);
    // The packet that waited for the handshake comes out, and the empty ones leave nothing.
    assert_eq!(outputs.len(), 1);
    assert_eq!(tunnel_packet(&outputs[0]), Some(packet));

    // With a session, a packet takes one datagram.
    let second = udp(ip(2), ip(1), 27016);
    let datagram = to_host.encrypt_packet(ip(1), &second).unwrap();
    assert_eq!(datagram.len(), second.len() + 32);
    let outputs = to_client.decrypt_packet(ip(2), here(), &datagram, NETWORK, NETMASK).unwrap();
    assert_eq!(outputs.len(), 1);
    assert_eq!(tunnel_packet(&outputs[0]), Some(second));
    // A replay is refused.
    assert!(matches!(
        to_client.decrypt_packet(ip(2), here(), &datagram, NETWORK, NETMASK),
        Err(TunnelFault::Decapsulation(WireGuardError::DuplicateCounter))
    ));
}

#[test]
fn a_tunnel_drops_what_it_must() {
    let (mut to_client, mut to_host) = pair(false);
    shake(&mut to_client, &mut to_host, &udp(ip(2), ip(1), 27015));
    let mut v6 = vec![0u8; 60];
    v6[0] = 0x60;
    v6[5] = 20;
    let dropped = [
        udp(ip(3), ip(1), 27015),
        udp(ip(2), Ipv4Addr::new(8, 8, 8, 8), 27015),
        udp(ip(2), ip(1), 3389),
        v6,
    ];
    for packet in dropped.iter() {
        let datagram = to_host.encrypt_packet(ip(1), packet).unwrap();
        let outputs = to_client.decrypt_packet(ip(2), here(), &datagram, NETWORK, NETMASK).unwrap();
        assert!(outputs.is_empty());
    }
    // A length field that leaves less than a header makes a runt.
    let mut runt = udp(ip(2), ip(1), 27015);
    runt[3] = 19;
    let datagram = to_host.encrypt_packet(ip(1), &runt).unwrap();
    let outputs = to_client.decrypt_packet(ip(2), here(), &datagram, NETWORK, NETMASK).unwrap();
    assert!(outputs.is_empty());
}

#[test]
fn a_gateway_relays_for_others() {
    let (mut to_client, mut to_host) = pair(true);
    let packet = udp(ip(7), ip(1), 27015);
    let outputs = shake(&mut to_client, &mut to_host, &packet);
    assert_eq!(outputs.len(), 1);
    assert_eq!(tunnel_packet(&outputs[0]), Some(packet));
}

#[test]
fn broadcasts_are_throttled() {
    let (mut to_client, mut to_host) = pair(false);
    shake(&mut to_client, &mut to_host, &udp(ip(2), ip(1), 27015));
    to_client.broadcast_limiter = BroadcastRateLimiter::new(3, 0);
    let mut passed = 0;
    for _ in 0..5 {
        let datagram = to_host.encrypt_packet(ip(1), &udp(ip(2), ip(255), 27015)).unwrap();
        passed += to_client.decrypt_packet(ip(2), here(), &datagram, NETWORK, NETMASK).unwrap().len();
    }
    assert_eq!(passed, 3);
    // What is no broadcast still passes.
    let datagram = to_host.encrypt_packet(ip(1), &udp(ip(2), ip(1), 27015)).unwrap();
    assert_eq!(to_client.decrypt_packet(ip(2), here(), &datagram, NETWORK, NETMASK).unwrap().len(), 1);
}

#[test]
fn a_syn_is_clamped_on_its_way() {
    let (mut to_client, mut to_host) = pair(false);
    let mut syn = vec![0x45, 0, 0, 44, 0, 0, 0, 0, 64, 6, 0, 0, 10, 7, 0, 2, 10, 7, 0, 1];
    syn.extend_from_slice(&[0x1F, 0x90, 0x69, 0x87, 0, 0, 0, 0, 0, 0, 0, 0, 0x60, 0x02, 0xFF, 0xFF]);
    syn.extend_from_slice(&[0x12, 0x34, 0, 0, 2, 4, 0x05, 0xB4]);
    let outputs = shake(&mut to_client, &mut to_host, &syn);
    let passed = tunnel_packet(&outputs[0]).unwrap();
    assert_eq!(&passed[42..44], &1340u16.to_be_bytes());
    assert_eq!(passed.len(), 44);
    assert_eq!(&passed[..36], &syn[..36]);
}

#[test]
fn garbage_is_an_error() {
    let (mut to_client, _) = pair(false);
    assert!(matches!(
        to_client.decrypt_packet(ip(2), here(), &[1, 2, 3], NETWORK, NETMASK),
        Err(TunnelFault::Decapsulation(_))
    ));
    assert!(to_client.decrypt_packet(ip(2), here(), &[], NETWORK, NETMASK).unwrap().is_empty());
}

#[test]
fn an_ipv6_source_is_taken_too() {
    let (mut to_client, mut to_host) = pair(false);
    let init = to_host.encrypt_packet(ip(1), &udp(ip(2), ip(1), 1)).unwrap();
    let source = SocketAddr::V6 { segments: [0, 0, 0, 0, 0, 0, 0, 1], port: 9, flowinfo: 0, scope_id: 0 };
    assert_eq!(to_client.decrypt_packet(ip(2), source, &init, NETWORK, NETMASK).unwrap().len(), 1);
}

#[test]
fn counters_near_their_end() {
    let mut datagram = vec![0u8; 40];
    datagram[0] = 4;
    for b in datagram[8..16].iter_mut() {
        *b = 255;
    }
    assert!(is_counter_near_end(&datagram));
    assert!(!is_counter_near_end(&datagram[..31]));
    // u64::MAX - 1024 is the last counter that has its window before it.
    datagram[8..16].copy_from_slice(&(u64::MAX - 1024).to_le_bytes());
    assert!(!is_counter_near_end(&datagram));
    datagram[8..16].copy_from_slice(&(u64::MAX - 1023).to_le_bytes());
    assert!(is_counter_near_end(&datagram));
    let (mut to_client, mut to_host) = pair(false);
    // Without a session, its counter is not what is wrong with it.
    assert!(matches!(
        to_client.decrypt_packet(ip(2), here(), &datagram, NETWORK, NETMASK),
        Err(TunnelFault::Decapsulation(WireGuardError::NoCurrentSession))
    ));
    shake(&mut to_client, &mut to_host, &udp(ip(2), ip(1), 27015));
    assert!(matches!(
        to_client.decrypt_packet(ip(2), here(), &datagram, NETWORK, NETMASK),
        Err(TunnelFault::CounterNearEnd)
    ));
    datagram[0] = 1;
    assert!(!is_counter_near_end(&datagram));
    assert!(matches!(
        to_client.decrypt_packet(ip(2), here(), &datagram, NETWORK, NETMASK),
        Err(TunnelFault::Decapsulation(_))
    ));
}

#[test]
fn sources_of_datagrams() {
    assert_eq!(datagram_source(here(), &[1]), Some(IpAddr::V4(Ipv4Addr::new(127, 0, 0, 1))));
    assert_eq!(datagram_source(here(), &[]), None);
    let segments = [0, 0, 0, 0, 0, 0, 0, 1];
    let source = SocketAddr::V6 { segments, port: 9, flowinfo: 0, scope_id: 0 };
    assert_eq!(datagram_source(source, &[1]), Some(IpAddr::V6(segments)));
}

#[test]
fn buffers_grow_with_what_passes() {
    let (mut to_client, mut to_host) = pair(false);
    // The packet waits for the handshake. What stands behind its end is cut off.
    let mut long = udp(ip(2), ip(1), 27015);
    long.resize(70_000, 7);
    let outputs = shake(&mut to_client, &mut to_host, &long);
    assert_eq!(outputs.len(), 1);
    assert_eq!(tunnel_packet(&outputs[0]), Some(udp(ip(2), ip(1), 27015)));
    let datagram = to_host.encrypt_packet(ip(1), &long).unwrap();
    assert_eq!(datagram.len(), 70_032);
    let outputs = to_client.decrypt_packet(ip(2), here(), &datagram, NETWORK, NETMASK).unwrap();
    assert_eq!(tunnel_packet(&outputs[0]), Some(udp(ip(2), ip(1), 27015)));
    // Long garbage is garbage.
    assert!(to_client.decrypt_packet(ip(2), here(), &vec![9; 80_000], NETWORK, NETMASK).is_err());
}

#[test]
fn tunnels_share_the_limit_of_handshakes() {
    let secret = StaticSecret::from_bytes([1u8; 32]);
    let mut host: WireGuardManager<PeerTunnel> = WireGuardManager::new("10.7.0.0/24").unwrap();
    let mut clients = Vec::new();
    for n in 2..4u8 {
        let client_secret = StaticSecret::from_bytes([n; 32]);
        host.create_tunnel(&secret, &client_secret.public_key(), ip(n), false).unwrap();
        let mut client: WireGuardManager<PeerTunnel> = WireGuardManager::new("10.7.0.0/24").unwrap();
        clients.push((n, client.open_tunnel(&client_secret, &secret.public_key(), true)));
    }
    let mut answered = 0;
    let mut put_off = 0;
    for _ in 0..60 {
        for (n, client) in clients.iter_mut() {
            let mut buffer = [0u8; 148];
            assert!(!matches!(
                client.tunn_mut().format_handshake_initiation(&mut buffer, true),
                boringtun::noise::TunnResult::Err(_)
            ));
            let tunnel = host.get_peer_mut(ip(*n)).unwrap();
            let outputs =
                tunnel.decrypt_packet(ip(*n), here(), &buffer, NETWORK, NETMASK).unwrap();
            match network_packet(&outputs[0]).unwrap().len() {
                92 => answered += 1,
                64 => put_off += 1,
                len => panic!("no datagram of a handshake is {} bytes long", len),
            }
        }
    }
    assert_eq!((answered, put_off), (100, 20));
}

#[test]
fn datagrams_bear_the_local_index() {
    let secret = StaticSecret::from_bytes([5u8; 32]);
    let key = StaticSecret::from_bytes([6u8; 32]).public_key();
    let mut m: WireGuardManager<PeerTunnel> = WireGuardManager::new("10.7.0.0/24").unwrap();
    for n in 1..4u32 {
        let mut tunnel = m.open_tunnel(&secret, &key, false);
        let init = tunnel.encrypt_packet(ip(1), &udp(ip(2), ip(1), 1)).unwrap();
        // The lowest byte counts the handshakes of the tunnel.
        let sender = u32::from_le_bytes([init[4], init[5], init[6], init[7]]);
        assert_eq!(sender, n * 256 + 1);
    }
}

#[test]
fn the_engine_is_at_hand() {
    let (mut to_client, _) = pair(false);
    let tunn = to_client.tunn_mut();
    assert!(tunn.time_since_last_handshake().is_none());
}

#[test]
fn managers_and_their_peers() {
    let secret = StaticSecret::from_bytes([5u8; 32]);
    let key = PublicKey { bytes: [6u8; 32] };
    let mut m: WireGuardManager<PeerTunnel> = WireGuardManager::new("10.7.0.0/24").unwrap();
    assert_eq!((m.network, m.netmask), (NETWORK, NETMASK));
    assert_eq!(m.upcoming_index(), 1);
    m.create_tunnel(&secret, &key, ip(2), false).unwrap();
    m.create_tunnel(&secret, &key, ip(3), false).unwrap();
    m.create_tunnel(&secret, &key, ip(2), true).unwrap();
    assert_eq!(m.upcoming_index(), 4);
    assert_eq!(m.addresses(), vec![ip(2), ip(3)]);
    assert!(m.get_peer(ip(2)).unwrap().is_gateway);
    m.get_peer_mut(ip(3)).unwrap().is_gateway = true;
    assert!(m.get_peer(ip(3)).unwrap().is_gateway);
    assert!(m.get_peer_mut(ip(4)).is_none());
    m.remove_peer(ip(2));
    assert!(m.get_peer(ip(2)).is_none());
    assert_eq!(m.addresses(), vec![ip(3)]);
    m.remove_peer(ip(2));
    assert_eq!(m.addresses(), vec![ip(3)]);

    let next: WireGuardManager<PeerTunnel> =
        WireGuardManager::continued("10.7.0.0/24", m.upcoming_index()).unwrap();
    assert_eq!(next.upcoming_index(), 4);
    assert!(next.addresses().is_empty());
    let mut last: WireGuardManager<u8> = WireGuardManager::continued("10.7.0.0/24", u32::MAX).unwrap();
    last.open_tunnel(&secret, &key, false);
    assert_eq!(last.upcoming_index(), 0);
    last.insert_peer(ip(9), 77);
    assert_eq!(last.get_peer(ip(9)), Some(&77));

    let refused: Result<WireGuardManager<PeerTunnel>, CidrError> = WireGuardManager::new("10.7.0.0");
    assert!(matches!(refused, Err(CidrError::Format)));
}

#[test]
fn timers_of_fresh_tunnels_are_silent() {
    let secret = StaticSecret::from_bytes([5u8; 32]);
    let key = PublicKey { bytes: [6u8; 32] };
    let mut m: WireGuardManager<PeerTunnel> = WireGuardManager::new("10.7.0.0/24").unwrap();
    m.create_tunnel(&secret, &key, ip(2), false).unwrap();
    assert!(m.handle_timer().is_empty());
    assert_eq!(m.get_peer_mut(ip(2)).unwrap().update_timers(), None);
    let mut round = Vec::new();
    note_timer_packet(&mut round, ip(2), None);
    note_timer_packet(&mut round, ip(3), Some(vec![1]));
    assert_eq!(round, vec![(ip(3), vec![1])]);
}

#[test]
fn a_fresh_tunnel_passes_a_burst() {
    let (mut to_client, mut to_host) = pair(false);
    shake(&mut to_client, &mut to_host, &udp(ip(2), ip(1), 27015));
    // A bucket as that of a fresh tunnel, which gains nothing while the test runs.
    to_client.broadcast_limiter = BroadcastRateLimiter::new(150, 0);
    let mut pass = |packet: Vec<u8>| {
        let datagram = to_host.encrypt_packet(ip(1), &packet).unwrap();
        let outputs = to_client.decrypt_packet(ip(2), here(), &datagram, NETWORK, NETMASK).unwrap();
        outputs.iter().filter_map(tunnel_packet).collect::<Vec<Vec<u8>>>()
    };
    let broadcast = udp(ip(2), ip(255), 27015);
    let unicast = udp(ip(2), ip(1), 27015);
    for _ in 0..150 {
        assert_eq!(pass(unicast.clone()), vec![unicast.clone()]);
        assert_eq!(pass(broadcast.clone()), vec![broadcast.clone()]);
    }
    assert!(pass(broadcast.clone()).is_empty());
    assert_eq!(pass(unicast.clone()), vec![unicast.clone()]);
    assert!(pass(broadcast).is_empty());
}

#[test]
fn nothing_passes_before_a_handshake() {
    let (mut to_client, mut to_host) = pair(false);
    let mut stranger = pair(false);
    shake(&mut stranger.0, &mut stranger.1, &udp(ip(2), ip(1), 27015));
    let datagram = stranger.1.encrypt_packet(ip(1), &udp(ip(2), ip(1), 27015)).unwrap();
    assert!(matches!(
        to_client.decrypt_packet(ip(2), here(), &datagram, NETWORK, NETMASK),
        Err(TunnelFault::Decapsulation(WireGuardError::NoCurrentSession))
    ));
    assert!(!to_client.handshaken);
    shake(&mut to_client, &mut to_host, &udp(ip(2), ip(1), 27015));
    assert!(to_client.handshaken && to_host.handshaken);
}
