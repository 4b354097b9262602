//! What a STUN server is asked, and what its answer says about this node.

use crate::addr::{law_number_identifies_address, Ipv4Addr, SocketAddr};
use crate::packet::{be16, be_u16};
use crate::random::{draw, drawn};
use vstd::prelude::*;

verus! {

/// Nat types
#[derive(Debug, Clone, Copy, PartialEq, Eq, Structural)]
pub enum NatType {
    Unknown,
    FullCone,
    Restricted,
    Symmetric,
}

/// NAT information result
#[derive(Debug, Clone)]
pub struct NatInfo {
    pub local_addrs: Vec<Ipv4Addr>,
    pub external_addr: Option<SocketAddr>,
    pub nat_type: NatType,
}

/// Simple NAT traversal utility
pub struct NatTraversal;

/// A binding request under a transaction id: type, length, magic cookie and the id.
pub open spec fn binding_request(transaction_id: Seq<u8>) -> Seq<u8> {
    seq![0x00u8, 0x01, 0x00, 0x00, 0x21, 0x12, 0xA4, 0x42] + transaction_id
}

/// The answer is a success response to a binding request under a transaction id.
pub open spec fn is_binding_success(reply: Seq<u8>, transaction_id: Seq<u8>) -> bool {
    &&& reply.len() >= 20
    &&& reply[0] == 0x01
    &&& reply[1] == 0x01
    &&& reply.subrange(8, 20) == transaction_id
}

/// The four bytes from `at` on as a number in network order.
pub open spec fn be32(p: Seq<u8>, at: int) -> u32 {
    (be16(p[at], p[at + 1]) * 0x1_0000 + be16(p[at + 2], p[at + 3])) as u32
}

/// The IPv4 address with a number.
#[verifier::opaque]
pub open spec fn address_of_number(n: u32) -> Ipv4Addr {
    Ipv4Addr {
        a: (n / 0x100_0000) as u8,
        b: (n / 0x1_0000 % 256) as u8,
        c: (n / 0x100 % 256) as u8,
        d: (n % 256) as u8,
    }
}

/// An address is the one with its number.
proof fn lemma_address_of_number(ip: Ipv4Addr, n: u32)
    requires
        ip.number() == n,
    ensures
        address_of_number(n) == ip,
{
    lemma_number_of_address(n);
    law_number_identifies_address(ip, address_of_number(n));
}

/// There is an address with every number.
proof fn lemma_number_of_address(n: u32)
    ensures
        address_of_number(n).number() == n,
{
    reveal(address_of_number);
    let a = n / 0x100_0000;
    let b = n / 0x1_0000 % 256;
    let c = n / 0x100 % 256;
    let d = n % 256;
    assert(a < 256);
    assert(n == a * 0x100_0000 + b * 0x1_0000 + c * 0x100 + d);
}

/// An XOR-MAPPED-ADDRESS attribute for IPv4 begins at `at` and fits.
pub open spec fn is_mapped_address(p: Seq<u8>, at: int) -> bool {
    let len = be16(p[at + 2], p[at + 3]);
    &&& be16(p[at], p[at + 1]) == 0x0020
    &&& len >= 8
    &&& at + 4 + len <= p.len()
    &&& p[at + 5] == 0x01
}

/// The address and port that the attribute at `at` holds, which are masked with the cookie.
pub open spec fn unmasked(p: Seq<u8>, at: int) -> SocketAddr {
    SocketAddr::V4 {
        ip: address_of_number(be32(p, at + 8) ^ 0x2112_A442),
        port: (be16(p[at + 6], p[at + 7]) as u16) ^ 0x2112,
    }
}

/// The first mapped IPv4 address among the attributes from `at` on. The walk goes from
/// attribute to attribute by their lengths.
pub open spec fn mapped_address_from(p: Seq<u8>, at: int) -> Option<SocketAddr>
    decreases p.len() - at,
{
    if at + 4 > p.len() {
        None
    } else if is_mapped_address(p, at) {
        Some(unmasked(p, at))
    } else if at + 4 + be16(p[at + 2], p[at + 3]) > p.len() {
        None
    } else {
        mapped_address_from(p, at + 4 + be16(p[at + 2], p[at + 3]))
    }
}

/// The address under which this node is seen, by an answer to a request under a transaction id.
pub open spec fn mapped_address(reply: Seq<u8>, transaction_id: Seq<u8>) -> Option<SocketAddr> {
    if is_binding_success(reply, transaction_id) {
        mapped_address_from(reply, 20)
    } else {
        None
    }
}

/// A STUN server's answer says no address.
#[derive(Debug, Clone, Copy, PartialEq, Eq, Structural)]
pub struct StunError;

impl StunError {
    /// The error as a message.
    pub fn message(&self) -> (r: String)
        ensures
            r@ == "Failed to parse STUN response"@,
    {
        "Failed to parse STUN response".to_owned()
    }
}

/// Reads the attribute at `at`, if it is a mapped IPv4 address.
fn read_mapped_address(reply: &[u8], at: usize) -> (r: Option<SocketAddr>)
    requires
        at + 4 <= reply@.len(),
    ensures
        r == if is_mapped_address(reply@, at as int) {
            Some(unmasked(reply@, at as int))
        } else {
            None
        },
{
    let attr_type: u16 = be_u16(reply[at], reply[at + 1]);
    let attr_len: usize = be_u16(reply[at + 2], reply[at + 3]) as usize;
    if attr_type == 0x0020 && attr_len >= 8 && attr_len <= reply.len() - at - 4 {
        if reply[at + 5] == 0x01 {
            let port: u16 = be_u16(reply[at + 6], reply[at + 7]) ^ 0x2112;
            let high: u32 = be_u16(reply[at + 8], reply[at + 9]) as u32;
            let low: u32 = be_u16(reply[at + 10], reply[at + 11]) as u32;
            let masked: u32 = high * 0x1_0000 + low;
            let ip: Ipv4Addr = Ipv4Addr::from_u32(masked ^ 0x2112_A442);
            proof {
                lemma_address_of_number(ip, masked ^ 0x2112_A442);
            }
            return Some(SocketAddr::V4 { ip, port });
        }
    }
    None
}

impl NatTraversal {
    /// A binding request under a transaction id.
    pub fn binding_request(transaction_id: [u8; 12]) -> (r: [u8; 20])
        ensures
            r@ == binding_request(transaction_id@),
    {
        let t: [u8; 12] = transaction_id;
        let r: [u8; 20] = [
            0x00, 0x01, 0x00, 0x00, 0x21, 0x12, 0xA4, 0x42, t[0], t[1], t[2], t[3], t[4], t[5],
            t[6], t[7], t[8], t[9], t[10], t[11],
        ];
        assert(r@ =~= binding_request(transaction_id@));
        r
    }

    /// A binding request under a transaction id drawn at random.
    pub fn new_binding_request() -> (r: [u8; 20])
        ensures
            exists|id: Seq<u8>| id.len() == 12 && r@ == #[trigger] binding_request(id),
            exists|id: [u8; 12]| #[trigger] drawn(id) && r@ == binding_request(id@),
    {
        let id: [u8; 12] = draw::<12>();
        NatTraversal::binding_request(id)
    }

    /// Reads the answer to a request: the address under which this node is seen.
    pub fn parse_binding_response(request: &[u8; 20], reply: &[u8]) -> (r: Result<
        SocketAddr,
        StunError,
    >)
        ensures
            match r {
                Ok(addr) => mapped_address(reply@, request@.subrange(8, 20)) == Some(addr),
                Err(_) => mapped_address(reply@, request@.subrange(8, 20)) is None,
            },
    {
        let ghost id = request@.subrange(8, 20);
        if reply.len() < 20 || reply[0] != 0x01 || reply[1] != 0x01 {
            return Err(StunError);
        }
        let mut i: usize = 8;
        while i < 20
            invariant
                8 <= i <= 20 <= reply@.len(),
                id == request@.subrange(8, 20),
                forall|j: int| 8 <= j < i ==> reply@[j] == request@[j],
            decreases 20 - i,
        {
            if reply[i] != request[i] {
                assert(reply@.subrange(8, 20)[i - 8] != id[i - 8]);
                return Err(StunError);
            }
            i += 1;
        }
        assert(reply@.subrange(8, 20) =~= id);
        let mut at: usize = 20;
        while reply.len() - at >= 4
            invariant
                20 <= at <= reply@.len(),
                is_binding_success(reply@, id),
                id == request@.subrange(8, 20),
                mapped_address_from(reply@, 20) == mapped_address_from(reply@, at as int),
            decreases reply@.len() - at,
        {
            if let Some(addr) = read_mapped_address(reply, at) {
                return Ok(addr);
            }
            let attr_len: usize = be_u16(reply[at + 2], reply[at + 3]) as usize;
            if attr_len > reply.len() - at - 4 {
                return Err(StunError);
            }
            at += 4 + attr_len;
        }
        Err(StunError)
    }

    /// Placeholder that tries UPnP mapping
    pub fn attempt_upnp_mapping(_internal_port: u16) -> (r: Option<(Ipv4Addr, u16)>)
        ensures
            r is None,
    {
        None
    }

    /// Lists local network interface IPs
    pub fn get_local_addrs() -> (r: Vec<Ipv4Addr>)
        ensures
            r@ == seq![Ipv4Addr { a: 127, b: 0, c: 0, d: 1 }],
    {
        let mut r: Vec<Ipv4Addr> = Vec::new();
        r.push(Ipv4Addr::new(127, 0, 0, 1));
        r
    }

    /// All that is known about the NAT, given what a STUN server answered.
    pub fn nat_info(external: Result<SocketAddr, StunError>) -> (r: NatInfo)
        ensures
            r.local_addrs@ == seq![Ipv4Addr { a: 127, b: 0, c: 0, d: 1 }],
            r.external_addr == match external {
                Ok(addr) => Some(addr),
                Err(_) => None,
            },
            r.nat_type is Unknown,
    {
        let external_addr: Option<SocketAddr> = match external {
            Ok(addr) => Some(addr),
            Err(_) => None,
        };
        NatInfo {
            local_addrs: NatTraversal::get_local_addrs(),
            external_addr,
            nat_type: NatType::Unknown,
        }
    }
}

/// The answer of a server that sees a node at an address and a port, with nothing else in it.
pub open spec fn binding_success(transaction_id: Seq<u8>, ip: Ipv4Addr, port: u16) -> Seq<u8> {
    let p = port ^ 0x2112;
    let n = (ip.number() as u32) ^ 0x2112_A442;
    let a = address_of_number(n);
    seq![0x01u8, 0x01, 0x00, 0x0C, 0x21, 0x12, 0xA4, 0x42] + transaction_id + seq![
        0x00u8,
        0x20,
        0x00,
        0x08,
        0x00,
        0x01,
        (p / 256) as u8,
        (p % 256) as u8,
        a.a,
        a.b,
        a.c,
        a.d,
    ]
}

/// What a server says is what is read from its answer: the mask that it puts on the address
/// and the port comes off again.
pub proof fn law_mapped_address_is_read_back(transaction_id: Seq<u8>, ip: Ipv4Addr, port: u16)
    requires
        transaction_id.len() == 12,
    ensures
        mapped_address(binding_success(transaction_id, ip, port), transaction_id) == Some(
            SocketAddr::V4 { ip, port },
        ),
{
    let reply = binding_success(transaction_id, ip, port);
    let p = port ^ 0x2112;
    let number = ip.number() as u32;
    let n = number ^ 0x2112_A442;
    let a = address_of_number(n);
    assert(reply.len() == 32);
    assert(reply.subrange(8, 20) =~= transaction_id);
    assert(be16(reply[26], reply[27]) == p);
    assert(p ^ 0x2112 == port) by (bit_vector)
        requires
            p == port ^ 0x2112,
    ;
    lemma_number_of_address(n);
    assert(reply[28] == a.a && reply[29] == a.b && reply[30] == a.c && reply[31] == a.d);
    assert(be32(reply, 28) == n);
    assert(n ^ 0x2112_A442 == number) by (bit_vector)
        requires
            n == number ^ 0x2112_A442,
    ;
    lemma_address_of_number(ip, number);
    assert(is_mapped_address(reply, 20));
    assert(mapped_address_from(reply, 20) == Some(unmasked(reply, 20)));
}

/// An answer under another transaction id says nothing.
pub proof fn law_foreign_answer_is_ignored(reply: Seq<u8>, transaction_id: Seq<u8>)
    requires
        reply.len() < 20 || reply.subrange(8, 20) != transaction_id,
    ensures
        mapped_address(reply, transaction_id) is None,
{
}

/// A binding request byte by byte: its type, no attributes, the magic cookie, and the transaction id.
pub proof fn law_request_byte_by_byte(transaction_id: Seq<u8>)
    requires
        transaction_id.len() == 12,
    ensures
        ({
            let p = binding_request(transaction_id);
            &&& p.len() == 20
            &&& p[0] == 0 && p[1] == 1 && p[2] == 0 && p[3] == 0
            &&& p[4] == 0x21 && p[5] == 0x12 && p[6] == 0xA4 && p[7] == 0x42
            &&& p.subrange(8, 20) == transaction_id
        }),
{
    let p = binding_request(transaction_id);
    assert(p.subrange(8, 20) =~= transaction_id);
}

/// Bits taken off octet by octet are those taken off the number.
proof fn lemma_unmasked_octets(a: u8, b: u8, c: u8, d: u8)
    ensures
        ({
            let n = (a * 0x100_0000 + b * 0x1_0000 + c * 0x100 + d) as u32;
            address_of_number(n ^ 0x2112_A442) == (Ipv4Addr {
                a: a ^ 0x21,
                b: b ^ 0x12,
                c: c ^ 0xA4,
                d: d ^ 0x42,
            })
        }),
{
    let n = (a * 0x100_0000 + b * 0x1_0000 + c * 0x100 + d) as u32;
    let (x, y, z, w) = (a as u32, b as u32, c as u32, d as u32);
    assert(n == x * 0x100_0000 + y * 0x1_0000 + z * 0x100 + w);
    let m = n ^ 0x2112_A442;
    let (a1, b1, c1, d1) = (a ^ 0x21, b ^ 0x12, c ^ 0xA4, d ^ 0x42);
    assert(m == a1 as u32 * 0x100_0000 + b1 as u32 * 0x1_0000 + c1 as u32 * 0x100 + d1 as u32)
        by (bit_vector)
        requires
            a1 == a ^ 0x21,
            b1 == b ^ 0x12,
            c1 == c ^ 0xA4,
            d1 == d ^ 0x42,
            m == n ^ 0x2112_A442,
            n == a as u32 * 0x100_0000 + b as u32 * 0x1_0000 + c as u32 * 0x100 + d as u32,
    ;
    let ip = Ipv4Addr { a: a1, b: b1, c: c1, d: d1 };
    lemma_address_of_number(ip, m);
}

/// The walk goes along a chain of attributes to its last one.
proof fn lemma_walk_along(p: Seq<u8>, chain: Seq<int>, k: int)
    requires
        0 <= k < chain.len(),
        chain[0] == 20,
        p.len() >= 20,
        forall|j: int|
            #![trigger chain[j]]
            0 <= j < chain.len() - 1 ==> {
                &&& 20 <= chain[j]
                &&& chain[j] + 4 <= p.len()
                &&& p[chain[j]] * 256 + p[chain[j] + 1] != 0x0020 || p[chain[j] + 2] * 256 + p[chain[j]
                    + 3] < 8 || p[chain[j] + 5] != 1
                &&& chain[j + 1] == chain[j] + 4 + p[chain[j] + 2] * 256 + p[chain[j] + 3]
                &&& chain[j + 1] <= p.len()
            },
    ensures
        mapped_address_from(p, chain[k]) == mapped_address_from(p, chain.last()),
    decreases chain.len() - k,
{
    if k < chain.len() - 1 {
        lemma_walk_along(p, chain, k + 1);
        assert(20 <= chain[k]);
        assert(mapped_address_from(p, chain[k]) == mapped_address_from(p, chain[k + 1]));
    }
}

/// The address of a node is read from the first mapped IPv4 address in an answer to its request,
/// whatever attributes stand in front: each byte of the address and of the port with the bits of the
/// magic cookie taken off. The attributes in front are given by where they begin.
pub proof fn law_mapped_address_byte_by_byte(
    p: Seq<u8>,
    transaction_id: Seq<u8>,
    chain: Seq<int>,
)
    requires
        p.len() >= 20,
        p[0] == 1,
        p[1] == 1,
        p.subrange(8, 20) == transaction_id,
        chain.len() >= 1,
        chain[0] == 20,
        forall|j: int|
            #![trigger chain[j]]
            0 <= j < chain.len() - 1 ==> {
                &&& 20 <= chain[j]
                &&& chain[j] + 4 <= p.len()
                &&& p[chain[j]] * 256 + p[chain[j] + 1] != 0x0020 || p[chain[j] + 2] * 256 + p[chain[j]
                    + 3] < 8 || p[chain[j] + 5] != 1
                &&& chain[j + 1] == chain[j] + 4 + p[chain[j] + 2] * 256 + p[chain[j] + 3]
                &&& chain[j + 1] <= p.len()
            },
        ({
            let at = chain.last();
            let len = p[at + 2] * 256 + p[at + 3];
            &&& 20 <= at
            &&& p[at] == 0 && p[at + 1] == 0x20
            &&& len >= 8
            &&& at + 4 + len <= p.len()
            &&& p[at + 5] == 1
        }),
    ensures
        ({
            let at = chain.last();
            mapped_address(p, transaction_id) matches Some(SocketAddr::V4 { ip, port }) && {
                &&& ip.a == p[at + 8] ^ 0x21
                &&& ip.b == p[at + 9] ^ 0x12
                &&& ip.c == p[at + 10] ^ 0xA4
                &&& ip.d == p[at + 11] ^ 0x42
                &&& port == ((p[at + 6] * 256 + p[at + 7]) as u16) ^ 0x2112
            }
        }),
{
    let at = chain.last();
    lemma_walk_along(p, chain, 0);
    lemma_unmasked_octets(p[at + 8], p[at + 9], p[at + 10], p[at + 11]);
    assert(be32(p, at + 8) == (p[at + 8] * 0x100_0000 + p[at + 9] * 0x1_0000 + p[at + 10] * 0x100
        + p[at + 11]) as u32);
    assert(mapped_address_from(p, at) == Some(unmasked(p, at)));
}

/// An answer says no address that is short, is no success response, comes under another
/// transaction id, or whose attributes end or break off before a mapped IPv4 address.
pub proof fn law_other_answers_say_nothing(p: Seq<u8>, transaction_id: Seq<u8>, chain: Seq<int>)
    requires
        p.len() < 20 || p[0] != 1 || p[1] != 1 || p.subrange(8, 20) != transaction_id || {
            let at = chain.last();
            &&& chain.len() >= 1
            &&& chain[0] == 20
            &&& forall|j: int|
                #![trigger chain[j]]
                0 <= j < chain.len() - 1 ==> {
                    &&& 20 <= chain[j]
                    &&& chain[j] + 4 <= p.len()
                    &&& p[chain[j]] * 256 + p[chain[j] + 1] != 0x0020 || p[chain[j] + 2] * 256
                        + p[chain[j] + 3] < 8 || p[chain[j] + 5] != 1
                    &&& chain[j + 1] == chain[j] + 4 + p[chain[j] + 2] * 256 + p[chain[j] + 3]
                    &&& chain[j + 1] <= p.len()
                }
            &&& at + 4 > p.len() || at + 4 + p[at + 2] * 256 + p[at + 3] > p.len()
        },
    ensures
        mapped_address(p, transaction_id) is None,
{
    if p.len() >= 20 && p[0] == 1 && p[1] == 1 && p.subrange(8, 20) == transaction_id {
        lemma_walk_along(p, chain, 0);
    }
}

} // verus!
