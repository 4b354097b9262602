use base64::engine::general_purpose::STANDARD;
use base64::Engine;
use elysium::addr::{parse_ipv4, IpAddr, Ipv4Addr, SocketAddr};
use elysium::addrmap::AddressMap;
use elysium::config::{ElysiumConfig, KeypairError};
use elysium::discovery::{
    ControlMessage, DiscoveryError, DiscoveryService, PeerExchangeInfo, MAX_MESSAGE_LEN,
};
use elysium::engine::{InboundAction, NetworkEngine};
use elysium::manager::WireGuardManager;
use elysium::packet::clamp_tcp_mss;
use elysium::room::{Room, RoomCodeError, RoomError, RoomManager};
use elysium::session::{
    admit_peer, begin_create, begin_join, check_code, enter_room, host_key, host_of, host_read, identity,
    open_room, ticket_of, SessionError,
};
use elysium::status::get_status;
use elysium::stun::{NatTraversal, NatType, StunError};
use elysium::subnet::{parse_cidr, subnet_contains, CidrError};
use elysium::text::{
    chars_of, decimal_text, read_u32, spells, split_chars, takes_bytes, trim, NumeralError,
};
use elysium::wireguard::DecapsulateOutput;

fn ip(d: u8) -> Ipv4Addr {
    Ipv4Addr::new(10, 7, 0, d)
}

fn packet_to(destination: Ipv4Addr) -> Vec<u8> {
    let mut p = vec![0x45; 16];
    p.extend_from_slice(&destination.octets());
    p
}

fn info(key: String, name: &str) -> PeerExchangeInfo {
    DiscoveryService::introduction(key, name.to_string())
}

#[test]
fn subnets() {
    assert_eq!(parse_cidr("10.7.0.0/24"), Ok((0x0A07_0000, 0xFFFF_FF00)));
    assert_eq!(parse_cidr("10.7.3.9/16"), Ok((0x0A07_0000, 0xFFFF_0000)));
    assert_eq!(parse_cidr("1.2.3.4/0"), Ok((0, 0)));
    assert_eq!(parse_cidr("1.2.3.4/32"), Ok((0x0102_0304, 0xFFFF_FFFF)));
    assert_eq!(parse_cidr("1.2.3.4/+8"), Ok((0x0100_0000, 0xFF00_0000)));
    assert_eq!(parse_cidr("10.7.0.0"), Err(CidrError::Format));
    assert_eq!(parse_cidr("10.7.0.0/24/1"), Err(CidrError::Format));
    assert_eq!(parse_cidr("10.7.0/24"), Err(CidrError::Address));
    assert_eq!(parse_cidr("10.7.0.01/24"), Err(CidrError::Address));
    assert_eq!(parse_cidr("10.7.0.256/24"), Err(CidrError::Address));
    assert_eq!(parse_cidr("10.7.0.0/"), Err(CidrError::PrefixNumber(NumeralError::Empty)));
    assert_eq!(parse_cidr("10.7.0.0/x"), Err(CidrError::PrefixNumber(NumeralError::InvalidDigit)));
    assert_eq!(
        parse_cidr("10.7.0.0/99999999999"),
        Err(CidrError::PrefixNumber(NumeralError::Overflow))
    );
    assert_eq!(parse_cidr("10.7.0.0/33"), Err(CidrError::PrefixRange));
    assert_eq!(CidrError::Format.message(), "Invalid CIDR format");
    assert_eq!(CidrError::PrefixRange.message(), "Invalid CIDR prefix");
    assert!(subnet_contains(ip(77), 0x0A07_0000, 0xFFFF_FF00));
    assert!(!subnet_contains(Ipv4Addr::new(10, 7, 1, 1), 0x0A07_0000, 0xFFFF_FF00));
}

#[test]
fn addresses() {
    let a = Ipv4Addr::new(1, 20, 0, 255);
    assert_eq!(a.to_text(), "1.20.0.255");
    assert_eq!(a.to_u32(), 0x0114_00FF);
    assert_eq!(Ipv4Addr::from_u32(0x0114_00FF), a);
    assert_eq!(parse_ipv4(&chars_of("1.20.0.255")), Some(a));
    for bad in ["", "1.2.3", "1.2.3.4.5", "1.2.3.", "01.2.3.4", "1.2.3.1000", "1.2.3.a", " 1.2.3.4"] {
        assert_eq!(parse_ipv4(&chars_of(bad)), None);
    }
    assert!(Ipv4Addr::new(255, 255, 255, 255).is_broadcast());
    assert!(!ip(255).is_broadcast());
    let six = SocketAddr::V6 { segments: [1, 2, 3, 4, 5, 6, 7, 8], port: 1, flowinfo: 0, scope_id: 0 };
    assert_eq!(six.ip(), IpAddr::V6([1, 2, 3, 4, 5, 6, 7, 8]));
    assert_eq!(SocketAddr::V4 { ip: a, port: 1 }.ip(), IpAddr::V4(a));
}

#[test]
fn numbers_and_texts() {
    assert_eq!(decimal_text(0), "0");
    assert_eq!(decimal_text(18_446_744_073_709_551_615), "18446744073709551615");
    let chars = chars_of("4294967295");
    assert_eq!(read_u32(&chars, 0, 10), Ok(u32::MAX));
    assert_eq!(read_u32(&chars_of("4294967296"), 0, 10), Err(NumeralError::Overflow));
    assert_eq!(read_u32(&chars_of("+"), 0, 1), Err(NumeralError::InvalidDigit));
    assert_eq!(trim("\t a b \u{2028}"), "a b");
    assert_eq!(trim(" \n"), "");
    let parts = split_chars(&chars_of("-a--b"), '-');
    assert_eq!(parts, vec![vec![], vec!['a'], vec![], vec!['b']]);
    assert!(takes_bytes(&chars_of("aä€😀"), 10));
    assert!(!takes_bytes(&chars_of("aä€😀"), 4));
    assert!(spells(&chars_of("abc"), "abc"));
    assert!(!spells(&chars_of("abd"), "abc"));
}

#[test]
fn maps_by_address() {
    let mut m: AddressMap<u8> = AddressMap::new();
    m.insert(ip(3), 30);
    m.insert(ip(2), 20);
    m.insert(ip(3), 31);
    assert_eq!(m.len(), 2);
    assert_eq!((m.key_at(0), m.key_at(1)), (ip(3), ip(2)));
    assert_eq!(m.get(ip(3)), Some(&31));
    *m.get_mut(ip(2)).unwrap() += 1;
    assert_eq!(m.get(ip(2)), Some(&21));
    assert!(m.contains_key(ip(2)));
    assert_eq!(m.remove(ip(3)), Some(31));
    assert_eq!(m.remove(ip(3)), None);
    assert_eq!(m.len(), 1);
}

#[test]
fn clamping_segments() {
    // A SYN with an MSS of 1460 and a checksum of 0x1234.
    let mut syn = vec![0x45, 0, 0, 44, 0, 0, 0, 0, 64, 6, 0, 0, 10, 7, 0, 2, 10, 7, 0, 1];
    syn.extend_from_slice(&[0x1F, 0x90, 0x69, 0x87, 0, 0, 0, 0, 0, 0, 0, 0, 0x60, 0x02, 0xFF, 0xFF]);
    syn.extend_from_slice(&[0x12, 0x34, 0, 0, 2, 4, 0x05, 0xB4]);
    let mut clamped = syn.clone();
    clamp_tcp_mss(&mut clamped, 1340);
    assert_eq!(&clamped[42..44], &1340u16.to_be_bytes());
    // 1460 - 1340 comes on top of the checksum.
    assert_eq!(&clamped[36..38], &(0x1234u16 + 120).to_be_bytes());
    let mut again = clamped.clone();
    clamp_tcp_mss(&mut again, 1340);
    assert_eq!(again, clamped);
    // No SYN, no TCP, too short, small enough: nothing changes.
    for (at, byte) in [(33, 0x10), (9, 17), (42, 0x01)] {
        let mut other = syn.clone();
        other[at] = byte;
        let before = other.clone();
        clamp_tcp_mss(&mut other, 1340);
        assert_eq!(other, before);
    }
    let mut short = syn[..39].to_vec();
    clamp_tcp_mss(&mut short, 1340);
    assert_eq!(short, syn[..39].to_vec());
}

#[test]
fn outbound_packets() {
    let mut connections: AddressMap<&str> = AddressMap::new();
    connections.insert(ip(2), "two");
    connections.insert(ip(3), "three");
    let to = |d: Ipv4Addr| NetworkEngine::outbound_targets(&packet_to(d), &connections);
    assert_eq!(to(ip(3)), vec![ip(3)]);
    assert_eq!(to(ip(4)), vec![]);
    assert_eq!(to(ip(255)), vec![ip(2), ip(3)]);
    assert_eq!(to(Ipv4Addr::new(255, 255, 255, 255)), vec![ip(2), ip(3)]);
    assert_eq!(NetworkEngine::outbound_targets(&[0x45; 19], &connections), vec![]);
}

#[test]
fn inbound_packets() {
    let act = |d: Ipv4Addr| NetworkEngine::inbound_action(DecapsulateOutput::TunnelPacket(packet_to(d)));
    assert!(matches!(act(ip(1)), InboundAction::WriteToAdapter(p) if p == packet_to(ip(1))));
    assert!(matches!(act(ip(255)), InboundAction::WriteToAdapter(_)));
    assert!(matches!(act(Ipv4Addr::new(255, 255, 255, 255)), InboundAction::WriteToAdapter(_)));
    assert!(matches!(act(ip(9)), InboundAction::Relay(to, p) if to == ip(9) && p == packet_to(ip(9))));
    let reply = NetworkEngine::inbound_action(DecapsulateOutput::NetworkPacket(vec![5]));
    assert!(matches!(reply, InboundAction::Reply(p) if p == vec![5]));
    let done = NetworkEngine::inbound_action(DecapsulateOutput::Done);
    assert!(matches!(done, InboundAction::Nothing));
    let runt = NetworkEngine::inbound_action(DecapsulateOutput::TunnelPacket(vec![0x45; 19]));
    assert!(matches!(runt, InboundAction::Nothing));
}

#[test]
fn forgetting_a_peer() {
    let mut connections: AddressMap<u8> = AddressMap::new();
    let mut tunnels: WireGuardManager<u8> = WireGuardManager::new("10.7.0.0/24").unwrap();
    let mut rooms = RoomManager::new();
    let mut room = Room::create_room(STANDARD.encode([1u8; 32]), "H".to_string()).unwrap();
    for n in [2u8, 3] {
        let at = room.join_room(STANDARD.encode([n; 32]), "P".to_string()).unwrap();
        connections.insert(at, n);
        tunnels.insert_peer(at, n);
    }
    rooms.set_active_room(room);
    NetworkEngine::forget_peer(&mut connections, &mut tunnels, &mut rooms, ip(2));
    assert_eq!(connections.len(), 1);
    assert_eq!(tunnels.addresses(), vec![ip(3)]);
    let left = rooms.get_active_room().unwrap();
    assert!(left.get_peer_by_ip(&ip(2)).is_none());
    assert_eq!(left.peers.len(), 2);
    rooms.clear_active_room();
    NetworkEngine::forget_peer(&mut connections, &mut tunnels, &mut rooms, ip(3));
    assert!(tunnels.addresses().is_empty());
}

#[test]
fn stun_requests() {
    let request = NatTraversal::binding_request([7; 12]);
    let mut expected = vec![0, 1, 0, 0, 0x21, 0x12, 0xA4, 0x42];
    expected.extend_from_slice(&[7; 12]);
    assert_eq!(request.to_vec(), expected);
    let drawn = NatTraversal::new_binding_request();
    assert_eq!(&drawn[..8], &request[..8]);
    assert_ne!(drawn, NatTraversal::new_binding_request());
}

#[test]
fn stun_answers() {
    let request = NatTraversal::binding_request([7; 12]);
    let mut reply = vec![1, 1, 0, 20, 0x21, 0x12, 0xA4, 0x42];
    reply.extend_from_slice(&[7; 12]);
    // Something else first, with four bytes.
    reply.extend_from_slice(&[0x80, 0x22, 0, 4, 1, 2, 3, 4]);
    // 203.0.113.5:51820, masked with the cookie.
    reply.extend_from_slice(&[0, 0x20, 0, 8, 0, 1]);
    reply.extend_from_slice(&(51820u16 ^ 0x2112).to_be_bytes());
    reply.extend_from_slice(&(0xCB00_7105u32 ^ 0x2112_A442).to_be_bytes());
    let seen = SocketAddr::V4 { ip: Ipv4Addr::new(203, 0, 113, 5), port: 51820 };
    assert_eq!(NatTraversal::parse_binding_response(&request, &reply), Ok(seen));
    // Cut short, for another request, an error response, an IPv6 address: nothing.
    assert_eq!(NatTraversal::parse_binding_response(&request, &reply[..reply.len() - 1]), Err(StunError));
    assert_eq!(NatTraversal::parse_binding_response(&request, &reply[..19]), Err(StunError));
    let other = NatTraversal::binding_request([8; 12]);
    assert_eq!(NatTraversal::parse_binding_response(&other, &reply), Err(StunError));
    let mut wrong = reply.clone();
    wrong[1] = 0x11;
    assert_eq!(NatTraversal::parse_binding_response(&request, &wrong), Err(StunError));
    let mut six = reply.clone();
    six[33] = 2;
    assert_eq!(NatTraversal::parse_binding_response(&request, &six), Err(StunError));
    // An attribute that says it is longer than the answer.
    let mut long = reply.clone();
    long[22] = 0xFF;
    assert_eq!(NatTraversal::parse_binding_response(&request, &long), Err(StunError));
    assert_eq!(StunError.message(), "Failed to parse STUN response");

    let info = NatTraversal::nat_info(Ok(seen));
    assert_eq!(info.local_addrs, vec![Ipv4Addr::new(127, 0, 0, 1)]);
    assert_eq!(info.external_addr, Some(seen));
    assert_eq!(info.nat_type, NatType::Unknown);
    assert_eq!(NatTraversal::nat_info(Err(StunError)).external_addr, None);
    assert_eq!(NatTraversal::attempt_upnp_mapping(1), None);
}

#[test]
fn introductions() {
    let us = info("key".to_string(), "me");
    assert_eq!(us.virtual_ip, Ipv4Addr::new(0, 0, 0, 0));
    assert!(us.udp_endpoints.is_empty());
    let long = info("key".to_string(), &"x".repeat(65));
    let just = info("key".to_string(), &"é".repeat(64));
    assert_eq!(
        DiscoveryService::exchange_peer_info_client(long.clone()).unwrap_err(),
        DiscoveryError::HostName
    );
    assert_eq!(
        DiscoveryService::exchange_peer_info_host(long).unwrap_err(),
        DiscoveryError::ClientName
    );
    assert_eq!(
        DiscoveryService::exchange_peer_info_client(just.clone()).unwrap().node_name,
        just.node_name
    );
    assert_eq!(
        DiscoveryService::exchange_peer_info_host(just.clone()).unwrap().node_name,
        just.node_name
    );
    assert_eq!(DiscoveryError::HostName.message(), "Host provided an excessively long node name");
    assert_eq!(
        DiscoveryError::ClientName.message(),
        "Client provided an excessively long node name"
    );
    assert_eq!(MAX_MESSAGE_LEN, 4096);
}

#[test]
fn rosters() {
    let room = Room::create_room(STANDARD.encode([1u8; 32]), "H".to_string()).unwrap();
    match DiscoveryService::send_roster_update(&room.peers) {
        ControlMessage::RosterUpdate { peers } => {
            assert_eq!(peers.len(), 1);
            assert_eq!(peers[0].node_name, "H");
            assert_eq!(peers[0].public_key, room.peers[0].public_key);
        }
        _ => panic!("a roster was to come"),
    }
}

#[test]
fn a_room_from_end_to_end() {
    let host_config = ElysiumConfig::with_key([1u8; 32], Some("Host".to_string()));
    let client_config = ElysiumConfig::with_key([2u8; 32], Some("Client".to_string()));
    let mut host_rooms = RoomManager::new();
    let mut client_rooms = RoomManager::new();

    let host = begin_create(&host_config, &host_rooms).ok().unwrap();
    assert_eq!(host.public_key, host_config.get_public_key_base64().unwrap());
    let (code, host_ip) = open_room(&mut host_rooms, &host).unwrap();
    assert_eq!(host_ip, ip(1));
    assert_eq!(check_code(&code), Ok(()));
    assert_eq!(begin_create(&host_config, &host_rooms).err(), Some(SessionError::LeaveBeforeCreating));

    let client = begin_join(&client_config, &client_rooms).ok().unwrap();
    let us = info(client.public_key.clone(), &client.node_name);
    let admission = admit_peer(&mut host_rooms, &host, &us).ok().unwrap();
    assert_eq!(admission.ip, ip(2));
    assert_eq!(admission.peer_key.bytes, client.secret_key.public_key().bytes);
    assert_eq!(admission.response.wg_public_key, host.public_key);
    assert_eq!(admission.response.virtual_ip, ip(2));
    assert_eq!(admission.response.node_name, "Host");
    assert_eq!(
        admit_peer(&mut host_rooms, &host, &us).err(),
        Some(Some(RoomError::AlreadyPresent))
    );
    assert_eq!(admit_peer(&mut client_rooms, &host, &us).err(), Some(None));

    assert_eq!(enter_room(&mut client_rooms, code.clone(), &client, &admission.response), ip(1));
    assert_eq!(
        begin_join(&client_config, &client_rooms).err(),
        Some(SessionError::LeaveBeforeJoining)
    );

    let shown = get_status(&client_config, &client_rooms);
    assert!(shown.connected);
    assert_eq!(shown.room_code, Some(code.clone()));
    assert_eq!(shown.virtual_ip, Some("10.7.0.2".to_string()));
    assert_eq!(shown.peers.len(), 2);
    assert_eq!(shown.peers[0].virtual_ip, "10.7.0.1");
    assert_eq!(shown.node_name, "Client");

    let shown = get_status(&host_config, &host_rooms);
    assert_eq!(shown.virtual_ip, Some("10.7.0.1".to_string()));
    assert_eq!(shown.peers[1].node_name, "Client");
}

#[test]
fn status_without_a_room() {
    let mut config = ElysiumConfig::with_key([1u8; 32], None);
    let shown = get_status(&config, &RoomManager::new());
    assert!(!shown.connected);
    assert_eq!(shown.room_code, None);
    assert_eq!(shown.virtual_ip, None);
    assert!(shown.peers.is_empty());
    config.private_key_base64 = "?".to_string();
    assert_eq!(get_status(&config, &RoomManager::new()).public_key, "unknown");
}

#[test]
fn sessions_that_do_not_begin() {
    let mut config = ElysiumConfig::with_key([1u8; 32], Some("x".repeat(65)));
    let id = identity(&config).ok().unwrap();
    let mut rooms = RoomManager::new();
    assert_eq!(
        open_room(&mut rooms, &id).err(),
        Some(SessionError::CreateRoom(RoomError::HostNameTooLong))
    );
    assert!(rooms.get_active_room().is_none());
    config.private_key_base64 = STANDARD.encode([0u8; 32]);
    let e = begin_create(&config, &rooms).err().unwrap();
    assert_eq!(e, SessionError::PublicKey(KeypairError::AllZero));
    assert_eq!(
        e.message(),
        "Failed to get public key: Invalid private key: all bytes are zero"
    );
    let e = begin_join(&config, &rooms).err().unwrap();
    assert_eq!(e.message(), "Invalid private key: all bytes are zero");
    assert_eq!(
        check_code("x").unwrap_err().message(),
        "Invalid room code: Invalid room code format. Expected ELYSIUM-XXXX-XXXX"
    );
    assert_eq!(
        check_code("ELYSIUM-A.CD-1234"),
        Err(SessionError::RoomCode(RoomCodeError::InvalidCharacters))
    );
    assert_eq!(
        SessionError::CreateRoom(RoomError::HostNameTooLong).message(),
        "Failed to create room: Host node name exceeds maximum allowed length of 64 characters"
    );
    assert_eq!(
        SessionError::LeaveBeforeCreating.message(),
        "You must leave your current room before creating a new one"
    );
    assert_eq!(
        SessionError::LeaveBeforeJoining.message(),
        "You must leave your current room before joining another"
    );
}

#[test]
fn tickets() {
    assert_eq!(ticket_of(" AQID\n"), Ok(vec![1, 2, 3]));
    assert_eq!(ticket_of("ELYSIUM-ABCD-1234"), Err(SessionError::NoTicket));
    assert_eq!(ticket_of(""), Ok(vec![]));
    assert_eq!(SessionError::NoTicket.message(), "The room code carries no ticket");
}

#[test]
fn keys_of_hosts() {
    let key = host_key(&info(STANDARD.encode([9u8; 32]), "Host")).ok().unwrap();
    assert_eq!(key.bytes, [9u8; 32]);
    assert_eq!(host_key(&info("?".to_string(), "Host")).err(), Some(SessionError::HostKey));
    let short = info(STANDARD.encode([9u8; 31]), "Host");
    assert_eq!(host_key(&short).err(), Some(SessionError::HostKey));
    assert_eq!(SessionError::HostKey.message(), "The host sent no usable public key");
}

#[test]
fn hosts_that_codes_lead_to() {
    let id = iroh::SecretKey::from_bytes(&[7u8; 32]).public();
    let address = iroh::EndpointAddr::new(id);
    let code = STANDARD.encode(serde_json::to_vec(&address).unwrap());
    let host = host_of(&format!("  {}\n", code)).ok().unwrap();
    assert_eq!(host.into_address(), address);
    // No base64, and base64 of what names no endpoint.
    assert_eq!(host_of("ELYSIUM-ABCD-1234").err(), Some(SessionError::NoTicket));
    assert_eq!(host_of("").err(), Some(SessionError::NoTicket));
    assert_eq!(host_of(&STANDARD.encode("{}")).err(), Some(SessionError::NoTicket));
    let no_json = serde_json::from_slice::<u8>(b"x").unwrap_err();
    assert_eq!(host_read(Err(no_json)).err(), Some(SessionError::NoTicket));
    let host = host_of(&code).ok().unwrap();
    assert_eq!(host_read(Ok(host)).ok().unwrap().into_address(), address);
}
