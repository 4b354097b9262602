//! Tickets: how a room code leads to its host.

use iroh::EndpointAddr;
use vstd::prelude::*;

verus! {

/// Where an endpoint of iroh is to be found. It is carried through unread.
#[verifier::external_type_specification]
#[verifier::external_body]
pub struct ExEndpointAddr(EndpointAddr);

/// The error type of `serde_json::from_slice`, carried as it is.
#[verifier::external_type_specification]
#[verifier::external_body]
pub struct ExJsonError(serde_json::Error);

/// A ticket is the JSON text of an endpoint's address.
pub uninterp spec fn names_endpoint(ticket: Seq<u8>) -> bool;

/// The endpoint of a host, with the ticket that names it.
pub struct HostEndpoint {
    address: EndpointAddr,
    ticket: Vec<u8>,
}

impl HostEndpoint {
    /// Where the host is to be found.
    pub closed spec fn address(&self) -> EndpointAddr {
        self.address
    }

    /// The ticket that the address was read from.
    pub closed spec fn ticket(&self) -> Seq<u8> {
        self.ticket@
    }

    /// Takes the address, for a connection to the host.
    pub fn into_address(self) -> (r: EndpointAddr)
        ensures
            r == self.address(),
    {
        self.address
    }
}

/// Calls `serde_json::from_slice` for the `EndpointAddr` of iroh, and notes the ticket beside it.
/// Whether there is an address in the ticket depends on its bytes alone. What the address holds is
/// left unsaid, but for the ticket that it was read from.
#[verifier::external_body]
pub(crate) fn read_endpoint(ticket: &[u8]) -> (r: Result<HostEndpoint, serde_json::Error>)
    ensures
        r is Ok == names_endpoint(ticket@),
        r matches Ok(host) ==> host.ticket() == ticket@,
{
    let address: EndpointAddr = serde_json::from_slice(ticket)?;
    Ok(HostEndpoint { address, ticket: ticket.to_vec() })
}

} // verus!
