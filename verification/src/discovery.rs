//! What peers tell each other when they meet.

use crate::addr::{Ipv4Addr, SocketAddr};
use crate::room::{PeerInfo, MAX_NODE_NAME};
use vstd::prelude::*;

verus! {

/// The longest message that is read from a peer, in bytes.
pub const MAX_MESSAGE_LEN: usize = 4096;

/// WireGuard keys and network info to exchange
#[derive(Debug, Clone)]
pub struct PeerExchangeInfo {
    pub wg_public_key: String,
    pub virtual_ip: Ipv4Addr,
    pub udp_endpoints: Vec<SocketAddr>,
    pub node_name: String,
}

/// Dynamic control messages exchanged over QUIC streams
#[derive(Debug, Clone)]
pub enum ControlMessage {
    PeerInfo(PeerExchangeInfo),
    PeerInfoResponse(PeerExchangeInfo),
    RosterUpdate { peers: Vec<PeerInfo> },
}

/// Service for room discovery and signaling
pub struct DiscoveryService;

/// Why what a peer says about itself is refused.
#[derive(Debug, Clone, Copy, PartialEq, Eq, Structural)]
pub enum DiscoveryError {
    /// The host has too long a name.
    HostName,
    /// The client has too long a name.
    ClientName,
}

impl DiscoveryError {
    /// What the error says.
    pub open spec fn text(self) -> Seq<char> {
        match self {
            DiscoveryError::HostName => "Host provided an excessively long node name"@,
            DiscoveryError::ClientName => "Client provided an excessively long node name"@,
        }
    }

    /// The error as a message.
    pub fn message(&self) -> (r: String)
        ensures
            r@ == self.text(),
    {
        match self {
            DiscoveryError::HostName => "Host provided an excessively long node name".to_owned(),
            DiscoveryError::ClientName => {
                "Client provided an excessively long node name".to_owned()
            },
        }
    }
}

impl DiscoveryService {
    /// What a client says of itself before the host has given it an address.
    pub fn introduction(wg_public_key: String, node_name: String) -> (r: PeerExchangeInfo)
        ensures
            r.wg_public_key == wg_public_key,
            r.virtual_ip == (Ipv4Addr { a: 0, b: 0, c: 0, d: 0 }),
            r.udp_endpoints@.len() == 0,
            r.node_name == node_name,
    {
        PeerExchangeInfo {
            wg_public_key,
            virtual_ip: Ipv4Addr::new(0, 0, 0, 0),
            udp_endpoints: Vec::new(),
            node_name,
        }
    }

    /// As a client, take the host's response, unless its name is too long.
    pub fn exchange_peer_info_client(response: PeerExchangeInfo) -> (r: Result<
        PeerExchangeInfo,
        DiscoveryError,
    >)
        ensures
            r == if response.node_name@.len() > MAX_NODE_NAME {
                Err::<PeerExchangeInfo, DiscoveryError>(DiscoveryError::HostName)
            } else {
                Ok(response)
            },
    {
        if response.node_name.as_str().unicode_len() > MAX_NODE_NAME {
            Err(DiscoveryError::HostName)
        } else {
            Ok(response)
        }
    }

    /// As a host, take a client's info, unless its name is too long.
    pub fn exchange_peer_info_host(info: PeerExchangeInfo) -> (r: Result<
        PeerExchangeInfo,
        DiscoveryError,
    >)
        ensures
            r == if info.node_name@.len() > MAX_NODE_NAME {
                Err::<PeerExchangeInfo, DiscoveryError>(DiscoveryError::ClientName)
            } else {
                Ok(info)
            },
    {
        if info.node_name.as_str().unicode_len() > MAX_NODE_NAME {
            Err(DiscoveryError::ClientName)
        } else {
            Ok(info)
        }
    }

    /// Broadcast or send updated room roster to a peer: the message.
    pub fn send_roster_update(peers: &Vec<PeerInfo>) -> (r: ControlMessage)
        ensures
            r matches ControlMessage::RosterUpdate { peers: sent } && sent@ == peers@,
    {
        let mut sent: Vec<PeerInfo> = Vec::new();
        let mut i: usize = 0;
        while i < peers.len()
            invariant
                i <= peers@.len(),
                sent@ == peers@.take(i as int),
            decreases peers@.len() - i,
        {
            sent.push(peers[i].clone());
            i += 1;
        }
        ControlMessage::RosterUpdate { peers: sent }
    }
}

} // verus!
