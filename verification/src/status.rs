//! What a node shows of itself.

use crate::config::{private_key, ElysiumConfig, KnownRoom};
use crate::keys::{base64_text, x25519_public};
use crate::room::{peers_distinct, PeerInfo, RoomManager};
use vstd::prelude::*;

verus! {

/// Status info returned to the frontend
#[derive(Debug)]
pub struct StatusInfo {
    pub connected: bool,
    pub node_name: String,
    pub public_key: String,
    pub room_code: Option<String>,
    pub virtual_ip: Option<String>,
    pub peers: Vec<PeerStatus>,
}

/// Peer status for the frontend
#[derive(Debug)]
pub struct PeerStatus {
    pub node_name: String,
    pub virtual_ip: String,
    /// Latency in milliseconds, as the bits of a 64-bit floating-point number.
    pub latency_ms_bits: Option<u64>,
    pub connected: bool,
}

/// The key that is shown for a configuration.
pub open spec fn shown_key(config: ElysiumConfig) -> Seq<char> {
    match private_key(config.private_key_base64@) {
        Ok(secret) => base64_text(x25519_public(secret)),
        Err(_) => "unknown"@,
    }
}

/// What is shown of a peer.
pub open spec fn shows(peer: PeerInfo, status: PeerStatus) -> bool {
    &&& status.node_name == peer.node_name
    &&& status.virtual_ip@ == peer.virtual_ip.dotted()
    &&& status.latency_ms_bits == peer.latency_ms_bits
    &&& status.connected == peer.connected
}

/// The address that is shown for a key: that of the first peer of the room who has it.
pub open spec fn shows_address(peers: Seq<PeerInfo>, key: Seq<char>, shown: Option<String>) -> bool {
    match shown {
        Some(text) => exists|i: int|
            {
                &&& 0 <= i < peers.len()
                &&& (#[trigger] peers[i]).public_key@ == key
                &&& text@ == peers[i].virtual_ip.dotted()
                &&& forall|j: int| 0 <= j < i ==> (#[trigger] peers[j]).public_key@ != key
            },
        None => forall|j: int| 0 <= j < peers.len() ==> (#[trigger] peers[j]).public_key@ != key,
    }
}

/// What is shown of the peers of a room, one by one.
fn peer_statuses(peers: &Vec<PeerInfo>) -> (r: Vec<PeerStatus>)
    ensures
        r@.len() == peers@.len(),
        forall|i: int| 0 <= i < peers@.len() ==> shows(peers@[i], #[trigger] r@[i]),
{
    let mut r: Vec<PeerStatus> = Vec::new();
    let mut i: usize = 0;
    while i < peers.len()
        invariant
            i <= peers@.len(),
            r@.len() == i,
            forall|j: int| 0 <= j < i ==> shows(peers@[j], #[trigger] r@[j]),
        decreases peers@.len() - i,
    {
        let p: &PeerInfo = &peers[i];
        r.push(
            PeerStatus {
                node_name: p.node_name.clone(),
                virtual_ip: p.virtual_ip.to_text(),
                latency_ms_bits: p.latency_ms_bits,
                connected: p.connected,
            },
        );
        i += 1;
    }
    r
}

/// Get current status
pub fn get_status(config: &ElysiumConfig, rooms: &RoomManager) -> (r: StatusInfo)
    ensures
        r.node_name == config.node_name,
        r.public_key@ == shown_key(*config),
        match rooms.active_room {
            Some(room) => {
                &&& r.connected
                &&& r.room_code == Some(room.room_code)
                &&& shows_address(room.peers@, shown_key(*config), r.virtual_ip)
                &&& r.peers@.len() == room.peers@.len()
                &&& forall|i: int|
                    0 <= i < room.peers@.len() ==> shows(room.peers@[i], #[trigger] r.peers@[i])
            },
            None => !r.connected && r.room_code is None && r.virtual_ip is None && r.peers@.len()
                == 0,
        },
{
    let public_key: String = match config.get_public_key_base64() {
        Ok(key) => key,
        Err(_) => "unknown".to_owned(),
    };
    let node_name: String = config.node_name.clone();
    match rooms.get_active_room() {
        Some(room) => {
            let virtual_ip: Option<String> = match room.get_peer_by_key(public_key.as_str()) {
                Some(peer) => Some(peer.virtual_ip.to_text()),
                None => None,
            };
            StatusInfo {
                connected: true,
                node_name,
                public_key,
                room_code: Some(room.room_code.clone()),
                virtual_ip,
                peers: peer_statuses(&room.peers),
            }
        },
        None => StatusInfo {
            connected: false,
            node_name,
            public_key,
            room_code: None,
            virtual_ip: None,
            peers: Vec::new(),
        },
    }
}

/// Get the list of known rooms from config
pub fn get_known_rooms(config: &ElysiumConfig) -> (r: Vec<String>)
    ensures
        r@ == config.known_rooms@.map_values(|e: (String, KnownRoom)| e.0),
        config.wf() ==> forall|i: int, j: int|
            0 <= i < j < r@.len() ==> (#[trigger] r@[i])@ != (#[trigger] r@[j])@,
{
    let rooms: &Vec<(String, KnownRoom)> = &config.known_rooms;
    let mut r: Vec<String> = Vec::new();
    let mut i: usize = 0;
    while i < rooms.len()
        invariant
            i <= rooms@.len(),
            r@.len() == i,
            forall|j: int| 0 <= j < i ==> #[trigger] r@[j] == rooms@[j].0,
        decreases rooms@.len() - i,
    {
        r.push(rooms[i].0.clone());
        i += 1;
    }
    assert(r@ =~= config.known_rooms@.map_values(|e: (String, KnownRoom)| e.0));
    r
}

/// A node that is in a room is shown its own address there: where no two peers share a key, it
/// is the address of the one with the node's key.
pub proof fn law_own_address_is_shown(
    peers: Seq<PeerInfo>,
    i: int,
    key: Seq<char>,
    shown: Option<String>,
)
    requires
        peers_distinct(peers),
        0 <= i < peers.len(),
        peers[i].public_key@ == key,
        shows_address(peers, key, shown),
    ensures
        shown matches Some(text) && text@ == peers[i].virtual_ip.dotted(),
{
    assert(shown is Some);
    let k = choose|k: int|
        {
            &&& 0 <= k < peers.len()
            &&& (#[trigger] peers[k]).public_key@ == key
            &&& shown->Some_0@ == peers[k].virtual_ip.dotted()
            &&& forall|j: int| 0 <= j < k ==> (#[trigger] peers[j]).public_key@ != key
        };
    if k < i {
        assert(peers[k].public_key@ != peers[i].public_key@);
    } else if i < k {
        assert(peers[i].public_key@ != key);
    }
}

/// What is shown of a peer is what the room knows of it.
pub proof fn law_peers_are_shown_as_they_are(peer: PeerInfo, status: PeerStatus)
    requires
        shows(peer, status),
    ensures
        status.node_name == peer.node_name,
        status.virtual_ip@ == peer.virtual_ip.dotted(),
        status.latency_ms_bits == peer.latency_ms_bits,
        status.connected == peer.connected,
{
}

/// The key that is shown is the public key that belongs to the private key of the configuration, and
/// "unknown" where that is unusable. An address is shown exactly if some peer has the key.
pub proof fn law_shown_key_and_address(
    config: ElysiumConfig,
    peers: Seq<PeerInfo>,
    key: Seq<char>,
    shown: Option<String>,
    i: int,
)
    ensures
        private_key(config.private_key_base64@) matches Ok(secret) ==> shown_key(config)
            == base64_text(x25519_public(secret)),
        private_key(config.private_key_base64@) is Err ==> shown_key(config) == "unknown"@,
        shows_address(peers, key, shown) && 0 <= i < peers.len() && peers[i].public_key@ == key
            ==> shown is Some,
        shows_address(peers, key, shown) && (forall|j: int|
            0 <= j < peers.len() ==> (#[trigger] peers[j]).public_key@ != key) ==> shown is None,
{
}

/// Where several peers have the key of the node, the address of the first is shown.
pub proof fn law_the_first_address_is_shown(
    peers: Seq<PeerInfo>,
    i: int,
    key: Seq<char>,
    shown: Option<String>,
)
    requires
        0 <= i < peers.len(),
        peers[i].public_key@ == key,
        forall|j: int| 0 <= j < i ==> (#[trigger] peers[j]).public_key@ != key,
        shows_address(peers, key, shown),
    ensures
        shown matches Some(text) && text@ == peers[i].virtual_ip.dotted(),
{
    assert(shown is Some);
    let k = choose|k: int|
        {
            &&& 0 <= k < peers.len()
            &&& (#[trigger] peers[k]).public_key@ == key
            &&& shown->Some_0@ == peers[k].virtual_ip.dotted()
            &&& forall|j: int| 0 <= j < k ==> (#[trigger] peers[j]).public_key@ != key
        };
    if k < i {
        assert(peers[k].public_key@ != key);
    } else if i < k {
        assert(peers[i].public_key@ != key);
    }
}

} // verus!
