use base64::engine::general_purpose::STANDARD;
use base64::Engine;
use elysium::addr::Ipv4Addr;
use elysium::room::{check_normal_code, room_code_of, Room, RoomCodeError, RoomError, RoomManager};

fn key(n: u8) -> String {
    STANDARD.encode([n; 32])
}

fn room() -> Room {
    Room::create_room(key(1), "HostNode".to_string()).unwrap()
}

#[test]
fn test_room_code_validation() {
    assert!(Room::validate_room_code("ELYSIUM-ABCD-1234").is_ok());
    assert!(Room::validate_room_code("elysium-abcd-1234").is_ok());
    assert!(Room::validate_room_code("ELYSIUM-ABC-1234").is_err());
    assert!(Room::validate_room_code("INVALID-ABCD-1234").is_err());
    assert!(Room::validate_room_code("ELYSIUM-ABCD-1234-EXTRA").is_err());
    assert!(Room::validate_room_code("").is_err());
}

#[test]
fn test_generated_room_code_validity() {
    for _ in 0..50 {
        let code = Room::generate_room_code();
        assert!(Room::validate_room_code(&code).is_ok());
        assert_eq!(code.len(), 17);
        assert!(code.starts_with("ELYSIUM-"));
    }
}

#[test]
fn test_ip_allocation() {
    let host_key = STANDARD.encode([1u8; 32]);
    let mut room = Room::create_room(host_key, "HostNode".to_string()).unwrap();
    assert_eq!(room.peers.len(), 1);
    assert_eq!(room.peers[0].virtual_ip, Ipv4Addr::new(10, 7, 0, 1));

    let peer1_key = STANDARD.encode([2u8; 32]);
    let peer1_ip = room.join_room(peer1_key, "Peer1".to_string()).unwrap();
    assert_eq!(peer1_ip, Ipv4Addr::new(10, 7, 0, 2));

    let peer2_key = STANDARD.encode([3u8; 32]);
    let peer2_ip = room.join_room(peer2_key, "Peer2".to_string()).unwrap();
    assert_eq!(peer2_ip, Ipv4Addr::new(10, 7, 0, 3));
}

#[test]
fn codes_with_space_around_and_in_any_case() {
    assert_eq!(Room::validate_room_code("  elysium-Abcd-12z4\n"), Ok(()));
    assert_eq!(Room::validate_room_code("\u{3000}ELYSIUM-ABCD-1234\u{a0}"), Ok(()));
    assert_eq!(Room::validate_room_code("ELYSIUM- ABC-1234"), Err(RoomCodeError::InvalidCharacters));
}

#[test]
fn codes_and_what_is_wrong_with_them() {
    let format = Err(RoomCodeError::Format);
    let characters = Err(RoomCodeError::InvalidCharacters);
    assert_eq!(Room::validate_room_code("ELYSIUM-AB!D-1234"), characters);
    assert_eq!(Room::validate_room_code("ELYSIUM-ABCD-12_4"), characters);
    assert_eq!(Room::validate_room_code("ELYSIUMABCD1234"), format);
    assert_eq!(Room::validate_room_code("ELYSIUM--ABCD-1234"), format);
    assert_eq!(Room::validate_room_code("ELYSIUM-ABCDE-1234"), format);
    // Groups are counted in bytes: two characters of two bytes make four.
    assert_eq!(Room::validate_room_code("ELYSIUM-ÄÖ-1234"), characters);
    assert_eq!(Room::validate_room_code("ELYSIUM-ÄÖÜX-1234"), format);
    // In upper case, one letter becomes two.
    assert_eq!(Room::validate_room_code("ELYSIUM-ßß-1234"), Ok(()));
    assert_eq!(check_normal_code("ELYSIUM-SSSS-1234"), Ok(()));
    assert_eq!(check_normal_code("elysium-SSSS-1234"), format);
    assert_eq!(
        RoomCodeError::Format.message(),
        "Invalid room code format. Expected ELYSIUM-XXXX-XXXX"
    );
    assert_eq!(
        RoomCodeError::InvalidCharacters.message(),
        "Room code contains invalid characters"
    );
}

#[test]
fn codes_of_given_bytes() {
    assert_eq!(room_code_of(&[0, 1, 2, 3, 4, 5, 6, 7]), "ELYSIUM-ABCD-EFGH");
    assert_eq!(room_code_of(&[8, 13, 23, 24, 31, 32, 255, 63]), "ELYSIUM-JPZ2-9A99");
    for b in 0..=255u8 {
        let code = room_code_of(&[b; 8]);
        assert!(Room::validate_room_code(&code).is_ok());
        for c in ['0', 'O', '1', 'I'] {
            assert!(!code[8..].contains(c));
        }
    }
}

#[test]
fn a_new_room() {
    let room = room();
    assert_eq!(room.host_public_key, key(1));
    assert_eq!(room.peers[0].public_key, key(1));
    assert_eq!(room.peers[0].node_name, "HostNode");
    assert_eq!(room.peers[0].latency_ms_bits.map(f64::from_bits), Some(0.0));
    assert!(room.peers[0].connected);
    assert_eq!(room.subnet, "10.7.0.0/24");
    // Some time after 2020.
    assert!(room.created_at > 1_577_836_800);
    assert!(Room::validate_room_code(&room.room_code).is_ok());
}

#[test]
fn names_are_counted_in_characters() {
    let long = "x".repeat(65);
    let just = "ä".repeat(64);
    assert_eq!(Room::create_room(key(1), long.clone()).unwrap_err(), RoomError::HostNameTooLong);
    assert!(Room::create_room(key(1), just.clone()).is_ok());
    let mut room = room();
    assert_eq!(room.join_room(key(2), long), Err(RoomError::NodeNameTooLong));
    assert_eq!(room.join_room(key(2), just), Ok(Ipv4Addr::new(10, 7, 0, 2)));
}

#[test]
fn who_may_not_join() {
    let mut room = room();
    let name = || "Peer".to_string();
    assert_eq!(room.join_room("no base64!".to_string(), name()), Err(RoomError::KeyNotBase64));
    assert_eq!(room.join_room(STANDARD.encode([2u8; 31]), name()), Err(RoomError::KeyLength));
    assert_eq!(room.join_room(STANDARD.encode([2u8; 33]), name()), Err(RoomError::KeyLength));
    assert_eq!(room.join_room(key(1), name()), Err(RoomError::AlreadyPresent));
    assert_eq!(room.peers.len(), 1);
    // The name is looked at first, then the key.
    assert_eq!(
        room.join_room("no base64!".to_string(), "x".repeat(65)),
        Err(RoomError::NodeNameTooLong)
    );
    // An all-zero key is as good as any other here.
    assert!(room.join_room(key(0), name()).is_ok());
}

#[test]
fn a_room_fills_up() {
    let mut room = room();
    for n in 2..=254u8 {
        let ip = room.join_room(key(n), format!("Peer{}", n)).unwrap();
        assert_eq!(ip, Ipv4Addr::new(10, 7, 0, n));
    }
    assert_eq!(room.peers.len(), 254);
    assert_eq!(room.allocate_ip(), Err(RoomError::NoAddress));
    assert_eq!(room.join_room(key(255), "Late".to_string()), Err(RoomError::NoAddress));
    // Whoever leaves makes room.
    room.remove_peer(&key(77)).unwrap();
    assert_eq!(room.join_room(key(255), "Late".to_string()), Ok(Ipv4Addr::new(10, 7, 0, 77)));
}

#[test]
fn leaving() {
    let mut room = room();
    room.join_room(key(2), "A".to_string()).unwrap();
    room.join_room(key(3), "B".to_string()).unwrap();
    assert_eq!(room.remove_peer(&key(9)), Err(RoomError::NotFound));
    assert_eq!(room.peers.len(), 3);
    assert_eq!(room.remove_peer(&key(2)), Ok(()));
    let names: Vec<String> = room.peers.iter().map(|p| p.node_name.clone()).collect();
    assert_eq!(names, vec!["HostNode", "B"]);
    assert!(room.get_peer_by_key(&key(2)).is_none());
    assert_eq!(room.allocate_ip(), Ok(Ipv4Addr::new(10, 7, 0, 2)));
}

#[test]
fn removing_takes_all_with_the_key() {
    let mut room = room();
    let mut twin = room.peers[0].clone();
    twin.virtual_ip = Ipv4Addr::new(10, 7, 0, 9);
    room.peers.push(twin);
    assert_eq!(room.remove_peer(&key(1)), Ok(()));
    assert!(room.peers.is_empty());
}

#[test]
fn looking_for_peers() {
    let mut room = room();
    room.join_room(key(2), "A".to_string()).unwrap();
    assert_eq!(room.get_peer_by_ip(&Ipv4Addr::new(10, 7, 0, 2)).unwrap().node_name, "A");
    assert!(room.get_peer_by_ip(&Ipv4Addr::new(10, 7, 0, 3)).is_none());
    assert_eq!(room.get_peer_by_key(&key(1)).unwrap().node_name, "HostNode");
    assert!(room.get_peer_by_key("").is_none());
}

#[test]
fn a_lost_connection() {
    let mut room = room();
    room.join_room(key(2), "A".to_string()).unwrap();
    room.drop_peer_at(&Ipv4Addr::new(10, 7, 0, 9));
    assert_eq!(room.peers.len(), 2);
    room.drop_peer_at(&Ipv4Addr::new(10, 7, 0, 2));
    assert_eq!(room.peers.len(), 1);
    assert_eq!(room.peers[0].node_name, "HostNode");
}

#[test]
fn the_room_of_a_client() {
    let ip = Ipv4Addr::new(10, 7, 0, 5);
    let room = Room::joined("CODE".to_string(), key(4), ip, "Me".to_string());
    assert_eq!(room.room_code, "CODE");
    assert_eq!(room.host_public_key, "host-placeholder");
    assert_eq!(room.peers.len(), 2);
    assert_eq!(room.peers[0].public_key, "host-placeholder");
    assert_eq!(room.peers[0].node_name, "Host");
    assert_eq!(room.peers[1].virtual_ip, ip);
    assert_eq!(room.peers[1].latency_ms_bits, None);
}

#[test]
fn what_room_errors_say() {
    assert_eq!(
        RoomError::HostNameTooLong.message(),
        "Host node name exceeds maximum allowed length of 64 characters"
    );
    assert_eq!(
        RoomError::NodeNameTooLong.message(),
        "Node name exceeds maximum allowed length of 64 characters"
    );
    assert_eq!(RoomError::KeyNotBase64.message(), "Invalid base64 public key");
    assert_eq!(RoomError::KeyLength.message(), "Invalid public key length: expected 32 bytes");
    assert_eq!(RoomError::AlreadyPresent.message(), "Peer is already in the room");
    assert_eq!(RoomError::NoAddress.message(), "No available IP addresses in the subnet");
    assert_eq!(RoomError::NotFound.message(), "Peer not found in room");
}

#[test]
fn the_active_room() {
    let mut rooms = RoomManager::new();
    assert!(rooms.get_active_room().is_none());
    assert!(rooms.get_active_room_mut().is_none());
    rooms.set_active_room(room());
    assert_eq!(rooms.get_active_room().unwrap().peers.len(), 1);
    rooms.get_active_room_mut().unwrap().peers.clear();
    assert_eq!(rooms.get_active_room().unwrap().peers.len(), 0);
    rooms.clear_active_room();
    assert!(rooms.get_active_room().is_none());
    assert!(RoomManager::default().active_room.is_none());
}
