//! Opening, joining and leaving rooms: what is decided before the network comes in, and after.

use crate::addr::Ipv4Addr;
use crate::clock::is_unix_time;
use crate::config::{private_key, ElysiumConfig, KeypairError};
use crate::discovery::PeerExchangeInfo;
use crate::keys::{
    base64_bytes, base64_text, decode_base64, key_of_text, x25519_public, KeyError, PublicKey,
    StaticSecret,
};
use crate::room::{
    code_verdict, host_address, is_drawn_code, is_next_octet, join_error, normal_code, room_code, PeerInfo, Room,
    RoomCodeError, RoomError, RoomManager, MAX_NODE_NAME,
};
use crate::text::{trim, trimmed};
use crate::ticket::{names_endpoint, read_endpoint, HostEndpoint};
use vstd::prelude::*;

verus! {

/// Who this node is, as its configuration says.
pub struct Identity {
    pub public_key: String,
    pub secret_key: StaticSecret,
    pub node_name: String,
    pub subnet: String,
}

/// The identity is the one of a configuration.
pub open spec fn identity_of(config: ElysiumConfig, id: Identity) -> bool {
    let key = private_key(config.private_key_base64@);
    &&& key == Ok::<Seq<u8>, KeypairError>(id.secret_key.bytes@)
    &&& id.public_key@ == base64_text(x25519_public(id.secret_key.bytes@))
    &&& id.node_name == config.node_name
    &&& id.subnet == config.virtual_subnet
}

/// Why a room cannot be opened or joined.
#[derive(Debug, Clone, Copy, PartialEq, Eq, Structural)]
pub enum SessionError {
    /// The key of this node is unusable, as found out when a room was to be opened.
    PublicKey(KeypairError),
    /// The key of this node is unusable, as found out when a room was to be joined.
    Keypair(KeypairError),
    /// A room is active when another one is to be opened.
    LeaveBeforeCreating,
    /// A room is active when another one is to be joined.
    LeaveBeforeJoining,
    /// The room cannot be made.
    CreateRoom(RoomError),
    /// The code is no room code.
    RoomCode(RoomCodeError),
    /// The code is a room code, but carries no ticket to a host.
    NoTicket,
    /// The host sent no key for the tunnel.
    HostKey,
}

impl SessionError {
    /// What the error says.
    pub open spec fn text(self) -> Seq<char> {
        match self {
            SessionError::PublicKey(e) => "Failed to get public key: "@ + e.text(),
            SessionError::Keypair(e) => e.text(),
            SessionError::LeaveBeforeCreating => {
                "You must leave your current room before creating a new one"@
            },
            SessionError::LeaveBeforeJoining => {
                "You must leave your current room before joining another"@
            },
            SessionError::CreateRoom(e) => "Failed to create room: "@ + e.text(),
            SessionError::RoomCode(e) => "Invalid room code: "@ + e.text(),
            SessionError::NoTicket => "The room code carries no ticket"@,
            SessionError::HostKey => "The host sent no usable public key"@,
        }
    }

    /// The error as a message.
    pub fn message(&self) -> (r: String)
        ensures
            r@ == self.text(),
    {
        match self {
            SessionError::PublicKey(e) => {
                let mut r: String = "Failed to get public key: ".to_owned();
                r.append(e.message().as_str());
                r
            },
            SessionError::Keypair(e) => e.message(),
            SessionError::LeaveBeforeCreating => {
                "You must leave your current room before creating a new one".to_owned()
            },
            SessionError::LeaveBeforeJoining => {
                "You must leave your current room before joining another".to_owned()
            },
            SessionError::CreateRoom(e) => {
                let mut r: String = "Failed to create room: ".to_owned();
                r.append(e.message().as_str());
                r
            },
            SessionError::RoomCode(e) => {
                let mut r: String = "Invalid room code: ".to_owned();
                r.append(e.message().as_str());
                r
            },
            SessionError::NoTicket => "The room code carries no ticket".to_owned(),
            SessionError::HostKey => "The host sent no usable public key".to_owned(),
        }
    }
}

/// Reads from a configuration who this node is.
pub fn identity(config: &ElysiumConfig) -> (r: Result<Identity, KeypairError>)
    ensures
        match r {
            Ok(id) => identity_of(*config, id),
            Err(e) => private_key(config.private_key_base64@) == Err::<Seq<u8>, KeypairError>(e),
        },
{
    match config.get_keypair() {
        Ok(secret_key) => Ok(
            Identity {
                public_key: secret_key.public_key().to_text(),
                secret_key,
                node_name: config.node_name.clone(),
                subnet: config.virtual_subnet.clone(),
            },
        ),
        Err(e) => Err(e),
    }
}

/// Decides whether this node may open a room: its key must be usable, and no room be active.
pub fn begin_create(config: &ElysiumConfig, rooms: &RoomManager) -> (r: Result<
    Identity,
    SessionError,
>)
    ensures
        match private_key(config.private_key_base64@) {
            Err(e) => r == Err::<Identity, SessionError>(SessionError::PublicKey(e)),
            Ok(_) => if rooms.active_room is Some {
                r == Err::<Identity, SessionError>(SessionError::LeaveBeforeCreating)
            } else {
                r matches Ok(id) && identity_of(*config, id)
            },
        },
{
    match identity(config) {
        Err(e) => Err(SessionError::PublicKey(e)),
        Ok(id) => if rooms.get_active_room().is_some() {
            Err(SessionError::LeaveBeforeCreating)
        } else {
            Ok(id)
        },
    }
}

/// Opens a room with this node as its host, and makes it the active one. Returns its code and
/// the address of the host.
pub fn open_room(rooms: &mut RoomManager, id: &Identity) -> (r: Result<
    (String, Ipv4Addr),
    SessionError,
>)
    ensures
        match r {
            Ok((code, ip)) => {
                &&& id.node_name@.len() <= MAX_NODE_NAME
                &&& ip == host_address()
                &&& final(rooms).active_room matches Some(room) && {
                    &&& room.room_code == code
                    &&& exists|bytes: Seq<u8>|
                        bytes.len() == 8 && code@ == #[trigger] room_code(bytes)
                    &&& is_drawn_code(code@)
                    &&& is_unix_time(room.created_at)
                    &&& room.host_public_key == id.public_key
                    &&& room.peers@ == seq![
                        PeerInfo {
                            public_key: id.public_key,
                            virtual_ip: host_address(),
                            node_name: id.node_name,
                            latency_ms_bits: Some(0),
                            connected: true,
                        },
                    ]
                    &&& room.subnet@ == "10.7.0.0/24"@
                }
            },
            Err(e) => {
                &&& id.node_name@.len() > MAX_NODE_NAME
                &&& e == SessionError::CreateRoom(RoomError::HostNameTooLong)
                &&& final(rooms).active_room == old(rooms).active_room
            },
        },
{
    match Room::create_room(id.public_key.clone(), id.node_name.clone()) {
        Ok(room) => {
            let code: String = room.room_code.clone();
            let ip: Ipv4Addr = room.peers[0].virtual_ip;
            rooms.set_active_room(room);
            Ok((code, ip))
        },
        Err(e) => Err(SessionError::CreateRoom(e)),
    }
}

/// What comes of letting somebody in.
pub struct Admission {
    /// The address that was given.
    pub ip: Ipv4Addr,
    /// What is answered.
    pub response: PeerExchangeInfo,
    /// The key for the tunnel.
    pub peer_key: PublicKey,
}

/// Lets a client into the active room, as its host: it gets an address, and is told the
/// host's key.
///
/// Without a room nobody is let in, and nothing is answered.
pub fn admit_peer(rooms: &mut RoomManager, host: &Identity, info: &PeerExchangeInfo) -> (r: Result<
    Admission,
    Option<RoomError>,
>)
    ensures
        match old(rooms).active_room {
            None => r == Err::<Admission, Option<RoomError>>(None) && final(rooms).active_room
                is None,
            Some(before) => final(rooms).active_room matches Some(after) && {
                &&& after.room_code == before.room_code
                &&& after.host_public_key == before.host_public_key
                &&& after.subnet == before.subnet
                &&& after.created_at == before.created_at
                &&& match r {
                    Err(e) => {
                        &&& e == join_error(before.peers@, info.wg_public_key@, info.node_name@)
                        &&& e is Some
                        &&& after.peers@ == before.peers@
                    },
                    Ok(a) => {
                        &&& join_error(before.peers@, info.wg_public_key@, info.node_name@) is None
                        &&& a.ip.a == 10 && a.ip.b == 7 && a.ip.c == 0
                        &&& is_next_octet(before.peers@, a.ip.d)
                        &&& after.peers@ == before.peers@.push(
                            PeerInfo {
                                public_key: info.wg_public_key,
                                virtual_ip: a.ip,
                                node_name: info.node_name,
                                latency_ms_bits: None,
                                connected: true,
                            },
                        )
                        &&& a.response.wg_public_key == host.public_key
                        &&& a.response.virtual_ip == a.ip
                        &&& a.response.udp_endpoints@.len() == 0
                        &&& a.response.node_name == host.node_name
                        &&& key_of_text(info.wg_public_key@) == Ok::<Seq<u8>, KeyError>(
                            a.peer_key.bytes@,
                        )
                    },
                }
            },
        },
{
    let peer_key: Result<PublicKey, KeyError> = PublicKey::from_text(info.wg_public_key.as_str());
    match rooms.get_active_room_mut() {
        None => Err(None),
        Some(room) => match room.join_room(info.wg_public_key.clone(), info.node_name.clone()) {
            Err(e) => Err(Some(e)),
            Ok(ip) => {
                let response: PeerExchangeInfo = PeerExchangeInfo {
                    wg_public_key: host.public_key.clone(),
                    virtual_ip: ip,
                    udp_endpoints: Vec::new(),
                    node_name: host.node_name.clone(),
                };
                match peer_key {
                    Ok(peer_key) => Ok(Admission { ip, response, peer_key }),
                    Err(_) => Err(None),
                }
            },
        },
    }
}

/// Decides whether a code is one under which a room can be joined.
pub fn check_code(code: &str) -> (r: Result<(), SessionError>)
    ensures
        r == match code_verdict(normal_code(code@)) {
            Ok(_) => Ok::<(), SessionError>(()),
            Err(e) => Err(SessionError::RoomCode(e)),
        },
{
    match Room::validate_room_code(code) {
        Ok(_) => Ok(()),
        Err(e) => Err(SessionError::RoomCode(e)),
    }
}

/// The ticket that a code carries: what the code, as base64, stands for.
pub fn ticket_of(code: &str) -> (r: Result<Vec<u8>, SessionError>)
    ensures
        match r {
            Ok(ticket) => base64_bytes(trimmed(code@)) == Some(ticket@),
            Err(e) => base64_bytes(trimmed(code@)) is None && e == SessionError::NoTicket,
        },
{
    match decode_base64(trim(code).as_str()) {
        Ok(ticket) => Ok(ticket),
        Err(_) => Err(SessionError::NoTicket),
    }
}

/// Whom a code leads to, given what was read from its ticket.
pub fn host_read(read: Result<HostEndpoint, serde_json::Error>) -> (r: Result<
    HostEndpoint,
    SessionError,
>)
    ensures
        r == match read {
            Ok(host) => Ok::<HostEndpoint, SessionError>(host),
            Err(_) => Err(SessionError::NoTicket),
        },
{
    match read {
        Ok(host) => Ok(host),
        Err(_) => Err(SessionError::NoTicket),
    }
}

/// Finds the host that a code leads to: the endpoint that the ticket in the code names.
pub fn host_of(code: &str) -> (r: Result<HostEndpoint, SessionError>)
    ensures
        match base64_bytes(trimmed(code@)) {
            Some(ticket) if names_endpoint(ticket) => r matches Ok(host) && host.ticket() == ticket,
            _ => r == Err::<HostEndpoint, SessionError>(SessionError::NoTicket),
        },
{
    match ticket_of(code) {
        Ok(ticket) => host_read(read_endpoint(&ticket)),
        Err(e) => Err(e),
    }
}

/// Takes the key of a host from its answer.
pub fn host_key(response: &PeerExchangeInfo) -> (r: Result<PublicKey, SessionError>)
    ensures
        match r {
            Ok(key) => key_of_text(response.wg_public_key@) == Ok::<Seq<u8>, KeyError>(key.bytes@),
            Err(e) => key_of_text(response.wg_public_key@) is Err && e == SessionError::HostKey,
        },
{
    match PublicKey::from_text(response.wg_public_key.as_str()) {
        Ok(key) => Ok(key),
        Err(_) => Err(SessionError::HostKey),
    }
}

/// Decides whether this node may join a room: its key must be usable, and no room be active.
pub fn begin_join(config: &ElysiumConfig, rooms: &RoomManager) -> (r: Result<
    Identity,
    SessionError,
>)
    ensures
        match private_key(config.private_key_base64@) {
            Err(e) => r == Err::<Identity, SessionError>(SessionError::Keypair(e)),
            Ok(_) => if rooms.active_room is Some {
                r == Err::<Identity, SessionError>(SessionError::LeaveBeforeJoining)
            } else {
                r matches Ok(id) && identity_of(*config, id)
            },
        },
{
    match identity(config) {
        Err(e) => Err(SessionError::Keypair(e)),
        Ok(id) => if rooms.get_active_room().is_some() {
            Err(SessionError::LeaveBeforeJoining)
        } else {
            Ok(id)
        },
    }
}

/// Takes the room that a host let this node into for the active one. Returns the address of
/// the host.
pub fn enter_room(
    rooms: &mut RoomManager,
    code: String,
    id: &Identity,
    response: &PeerExchangeInfo,
) -> (r: Ipv4Addr)
    ensures
        r == host_address(),
        final(rooms).active_room matches Some(room) && {
            &&& room.room_code == code
            &&& room.peers@.len() == 2
            &&& room.peers@[0].public_key@ == "host-placeholder"@
            &&& room.peers@[0].virtual_ip == host_address()
            &&& room.peers@[0].node_name@ == "Host"@
            &&& room.peers@[0].latency_ms_bits == Some(0u64)
            &&& room.peers@[0].connected
            &&& room.peers@[1] == (PeerInfo {
                public_key: id.public_key,
                virtual_ip: response.virtual_ip,
                node_name: id.node_name,
                latency_ms_bits: None,
                connected: true,
            })
            &&& is_unix_time(room.created_at)
            &&& room.host_public_key@ == "host-placeholder"@
            &&& room.subnet@ == "10.7.0.0/24"@
        },
{
    let room: Room = Room::joined(
        code,
        id.public_key.clone(),
        response.virtual_ip,
        id.node_name.clone(),
    );
    let ip: Ipv4Addr = room.peers[0].virtual_ip;
    rooms.set_active_room(room);
    ip
}

/// A node is who its configuration says: its secret is the key there, its public key belongs to the
/// secret, and its name and network are those of the configuration.
pub proof fn law_identity_is_the_configured_one(config: ElysiumConfig, id: Identity)
    requires
        identity_of(config, id),
    ensures
        base64_bytes(config.private_key_base64@) == Some(id.secret_key.bytes@),
        id.secret_key.bytes@.len() == 32,
        id.public_key@ == base64_text(x25519_public(id.secret_key.bytes@)),
        id.node_name == config.node_name,
        id.subnet == config.virtual_subnet,
{
}

} // verus!
