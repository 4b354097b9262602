//! Network addresses as plain values.

use crate::text::{
    all_digits, decimal, decimal_text, decimal_value, is_digit, lemma_decimal,
    lemma_digits_are_decimal,
};
use vstd::prelude::*;

verus! {

/// An IPv4 address, octet by octet.
#[derive(Debug, Clone, Copy, PartialEq, Eq, Structural)]
pub struct Ipv4Addr {
    pub a: u8,
    pub b: u8,
    pub c: u8,
    pub d: u8,
}

/// An IP address of either version.
#[derive(Debug, Clone, Copy, PartialEq, Eq)]
pub enum IpAddr {
    V4(Ipv4Addr),
    V6([u16; 8]),
}

/// An address and a port. The scope of an IPv6 address stands beside it.
#[derive(Debug, Clone, Copy, PartialEq, Eq)]
pub enum SocketAddr {
    V4 { ip: Ipv4Addr, port: u16 },
    V6 { segments: [u16; 8], port: u16, flowinfo: u32, scope_id: u32 },
}

impl SocketAddr {
    /// The address without the port.
    pub open spec fn address(self) -> IpAddr {
        match self {
            SocketAddr::V4 { ip, .. } => IpAddr::V4(ip),
            SocketAddr::V6 { segments, .. } => IpAddr::V6(segments),
        }
    }

    /// Takes the address without the port.
    pub fn ip(&self) -> (r: IpAddr)
        ensures
            r == self.address(),
    {
        match *self {
            SocketAddr::V4 { ip, .. } => IpAddr::V4(ip),
            SocketAddr::V6 { segments, .. } => IpAddr::V6(segments),
        }
    }
}

impl Ipv4Addr {
    /// The address as a number, the first octet highest.
    pub open spec fn number(self) -> int {
        self.a * 0x100_0000 + self.b * 0x1_0000 + self.c * 0x100 + self.d
    }

    /// The address in dot-decimal notation.
    pub open spec fn dotted(self) -> Seq<char> {
        decimal(self.a as nat) + seq!['.'] + decimal(self.b as nat) + seq!['.'] + decimal(
            self.c as nat,
        ) + seq!['.'] + decimal(self.d as nat)
    }

    /// The address 255.255.255.255.
    pub open spec fn limited_broadcast(self) -> bool {
        self == Ipv4Addr { a: 255, b: 255, c: 255, d: 255 }
    }

    /// Puts an address together.
    pub fn new(a: u8, b: u8, c: u8, d: u8) -> (r: Ipv4Addr)
        ensures
            r == (Ipv4Addr { a, b, c, d }),
    {
        Ipv4Addr { a, b, c, d }
    }

    /// The four octets.
    pub fn octets(&self) -> (r: [u8; 4])
        ensures
            r@ == seq![self.a, self.b, self.c, self.d],
    {
        [self.a, self.b, self.c, self.d]
    }

    /// The address as a number in network order.
    pub fn to_u32(&self) -> (r: u32)
        ensures
            r == self.number(),
    {
        (self.a as u32) * 0x100_0000 + (self.b as u32) * 0x1_0000 + (self.c as u32) * 0x100
            + self.d as u32
    }

    /// The address that a number in network order stands for.
    pub fn from_u32(n: u32) -> (r: Ipv4Addr)
        ensures
            r.number() == n,
    {
        Ipv4Addr {
            a: (n / 0x100_0000) as u8,
            b: (n / 0x1_0000 % 0x100) as u8,
            c: (n / 0x100 % 0x100) as u8,
            d: (n % 0x100) as u8,
        }
    }

    /// Tests for 255.255.255.255.
    pub fn is_broadcast(&self) -> (r: bool)
        ensures
            r == self.limited_broadcast(),
    {
        self.a == 255 && self.b == 255 && self.c == 255 && self.d == 255
    }

    /// Writes the address in dot-decimal notation.
    pub fn to_text(&self) -> (r: String)
        ensures
            r@ == self.dotted(),
    {
        proof {
            reveal_strlit(".");
        }
        let mut r: String = decimal_text(self.a as u64);
        r.push('.');
        r.append(decimal_text(self.b as u64).as_str());
        r.push('.');
        r.append(decimal_text(self.c as u64).as_str());
        r.push('.');
        r.append(decimal_text(self.d as u64).as_str());
        assert(r@ =~= self.dotted());
        r
    }
}

/// Two addresses with the same number are the same.
pub proof fn law_number_identifies_address(x: Ipv4Addr, y: Ipv4Addr)
    requires
        x.number() == y.number(),
    ensures
        x == y,
{
    assert(x.a == y.a);
    assert(x.b == y.b);
    assert(x.c == y.c);
}

/// The characters from `i` up to `j` are the decimal notation of `v`, and no digit follows.
pub open spec fn octet_at(s: Seq<char>, i: int, j: int, v: u8) -> bool {
    &&& 0 <= i <= j <= s.len()
    &&& s.subrange(i, j) == decimal(v as nat)
    &&& j < s.len() ==> !is_digit(s[j])
}

/// At one place there is at most one octet.
proof fn lemma_octet_unique(s: Seq<char>, i: int, j: int, v: u8, k: int, w: u8)
    requires
        octet_at(s, i, j, v),
        octet_at(s, i, k, w),
    ensures
        j == k,
        v == w,
{
    lemma_decimal(v as nat);
    lemma_decimal(w as nat);
    if j < k {
        assert(is_digit(s.subrange(i, k)[j - i]));
    } else if k < j {
        assert(is_digit(s.subrange(i, j)[k - i]));
    }
}

/// Reads an octet that begins at `i`.
fn read_octet(chars: &Vec<char>, i: usize) -> (r: Option<(u8, usize)>)
    requires
        i <= chars@.len(),
    ensures
        match r {
            Some((v, j)) => octet_at(chars@, i as int, j as int, v),
            None => forall|j: int, v: u8| !octet_at(chars@, i as int, j, v),
        },
{
    let ghost s = chars@;
    let mut j: usize = i;
    let mut value: u32 = 0;
    while j < chars.len() && j - i < 3 && chars[j] as u32 >= 48 && chars[j] as u32 <= 57
        invariant
            chars@ == s,
            i <= j <= s.len(),
            j - i <= 3,
            all_digits(s.subrange(i as int, j as int)),
            value == decimal_value(s.subrange(i as int, j as int)),
            j - i == 0 ==> value == 0,
            j - i == 1 ==> value <= 9,
            j - i == 2 ==> value <= 99,
            j - i == 3 ==> value <= 999,
        decreases s.len() - j,
    {
        assert(s.subrange(i as int, j + 1).drop_last() == s.subrange(i as int, j as int));
        value = value * 10 + (chars[j] as u32 - 48);
        j += 1;
    }
    let ghost run = s.subrange(i as int, j as int);
    if j == i {
        proof {
            assert forall|k: int, v: u8| !octet_at(s, i as int, k, v) by {
                if octet_at(s, i as int, k, v) {
                    lemma_decimal(v as nat);
                    assert(is_digit(s.subrange(i as int, k)[0]));
                }
            }
        }
        return None;
    }
    if j < chars.len() && chars[j] as u32 >= 48 && chars[j] as u32 <= 57 {
        proof {
            assert forall|k: int, v: u8| !octet_at(s, i as int, k, v) by {
                if octet_at(s, i as int, k, v) {
                    lemma_decimal(v as nat);
                    if k < j {
                        assert(is_digit(run[k - i]));
                    }
                }
            }
        }
        return None;
    }
    if (j - i > 1 && chars[i] == '0') || value > 255 {
        proof {
            assert forall|k: int, v: u8| !octet_at(s, i as int, k, v) by {
                if octet_at(s, i as int, k, v) {
                    lemma_decimal(v as nat);
                    let t = s.subrange(i as int, k);
                    if k < j {
                        assert(is_digit(run[k - i]));
                    } else if k > j {
                        assert(is_digit(t[j - i]));
                    }
                    assert(t == run);
                }
            }
        }
        return None;
    }
    proof {
        lemma_digits_are_decimal(run);
    }
    Some((value as u8, j))
}

/// Where the octets of an address in dot-decimal notation stand.
proof fn lemma_dotted_parts(ip: Ipv4Addr)
    ensures
        dotted_parts(ip.dotted(), ip),
{
    let s = ip.dotted();
    let i = decimal(ip.a as nat).len() as int;
    let j = i + 1 + decimal(ip.b as nat).len();
    let k = j + 1 + decimal(ip.c as nat).len();
    assert(s.subrange(0, i) =~= decimal(ip.a as nat));
    assert(s.subrange(i + 1, j) =~= decimal(ip.b as nat));
    assert(s.subrange(j + 1, k) =~= decimal(ip.c as nat));
    assert(s.subrange(k + 1, s.len() as int) =~= decimal(ip.d as nat));
    assert(s[i] == '.' && s[j] == '.' && s[k] == '.');
}

/// Reads an octet and the dot behind it.
fn read_octet_and_dot(chars: &Vec<char>, i: usize) -> (r: Option<(u8, usize)>)
    requires
        i <= chars@.len(),
    ensures
        match r {
            Some((v, j)) => {
                &&& octet_at(chars@, i as int, j - 1, v)
                &&& 1 <= j <= chars@.len()
                &&& chars@[j - 1] == '.'
            },
            None => forall|j: int, v: u8|
                octet_at(chars@, i as int, j, v) ==> j >= chars@.len() || chars@[j] != '.',
        },
{
    match read_octet(chars, i) {
        Some((v, j)) => {
            if j < chars.len() && chars[j] == '.' {
                Some((v, j + 1))
            } else {
                proof {
                    assert forall|k: int, w: u8| octet_at(chars@, i as int, k, w) implies k
                        >= chars@.len() || chars@[k] != '.' by {
                        lemma_octet_unique(chars@, i as int, j as int, v, k, w);
                    }
                }
                None
            }
        },
        None => None,
    }
}

/// Two addresses with the same dot-decimal notation are the same.
pub proof fn law_notation_identifies_address(x: Ipv4Addr, y: Ipv4Addr)
    requires
        x.dotted() == y.dotted(),
    ensures
        x == y,
{
    let s = x.dotted();
    let i = decimal(x.a as nat).len() as int;
    let j = i + 1 + decimal(x.b as nat).len();
    let k = j + 1 + decimal(x.c as nat).len();
    lemma_dotted_parts(x);
    lemma_dotted_parts(y);
    lemma_octet_unique(s, 0, i, x.a, decimal(y.a as nat).len() as int, y.a);
    lemma_octet_unique(s, i + 1, j, x.b, i + 1 + decimal(y.b as nat).len(), y.b);
    lemma_octet_unique(s, j + 1, k, x.c, j + 1 + decimal(y.c as nat).len(), y.c);
    lemma_octet_unique(s, k + 1, s.len() as int, x.d, s.len() as int, y.d);
}

/// The address that a text in dot-decimal notation stands for.
pub open spec fn dotted_address(s: Seq<char>) -> Option<Ipv4Addr> {
    if exists|ip: Ipv4Addr| s == #[trigger] ip.dotted() {
        Some(choose|ip: Ipv4Addr| s == #[trigger] ip.dotted())
    } else {
        None
    }
}

/// Reads the characters as an IPv4 address in dot-decimal notation: four numbers up to 255
/// without leading zeros.
pub fn parse_ipv4(chars: &Vec<char>) -> (r: Option<Ipv4Addr>)
    ensures
        r == dotted_address(chars@),
        r matches Some(ip) ==> chars@ == ip.dotted(),
{
    let ghost s = chars@;
    proof {
        assert forall|ip: Ipv4Addr| s == #[trigger] ip.dotted() implies dotted_parts(s, ip) by {
            lemma_dotted_parts(ip);
        }
    }
    let (a, i): (u8, usize) = match read_octet_and_dot(chars, 0) {
        Some(x) => x,
        None => {
            return None;
        },
    };
    proof {
        assert forall|ip: Ipv4Addr| s == #[trigger] ip.dotted() implies ip.a == a && decimal(
            ip.a as nat,
        ).len() + 1 == i by {
            lemma_octet_unique(s, 0, i - 1, a, decimal(ip.a as nat).len() as int, ip.a);
        }
    }
    let (b, j): (u8, usize) = match read_octet_and_dot(chars, i) {
        Some(x) => x,
        None => {
            return None;
        },
    };
    proof {
        assert forall|ip: Ipv4Addr| s == #[trigger] ip.dotted() implies ip.b == b && i + decimal(
            ip.b as nat,
        ).len() + 1 == j by {
            lemma_octet_unique(s, i as int, j - 1, b, i + decimal(ip.b as nat).len(), ip.b);
        }
    }
    let (c, k): (u8, usize) = match read_octet_and_dot(chars, j) {
        Some(x) => x,
        None => {
            return None;
        },
    };
    proof {
        assert forall|ip: Ipv4Addr| s == #[trigger] ip.dotted() implies ip.c == c && j + decimal(
            ip.c as nat,
        ).len() + 1 == k by {
            lemma_octet_unique(s, j as int, k - 1, c, j + decimal(ip.c as nat).len(), ip.c);
        }
    }
    match read_octet(chars, k) {
        Some((d, l)) => {
            if l == chars.len() {
                let ip: Ipv4Addr = Ipv4Addr { a, b, c, d };
                assert(s =~= s.subrange(0, i - 1) + seq!['.'] + s.subrange(i as int, j - 1)
                    + seq!['.'] + s.subrange(j as int, k - 1) + seq!['.'] + s.subrange(
                    k as int,
                    l as int,
                ));
                proof {
                    law_notation_identifies_address(ip, dotted_address(s)->0);
                }
                Some(ip)
            } else {
                proof {
                    assert forall|ip: Ipv4Addr| s != #[trigger] ip.dotted() by {
                        if s == ip.dotted() {
                            lemma_octet_unique(s, k as int, l as int, d, s.len() as int, ip.d);
                        }
                    }
                }
                None
            }
        },
        None => None,
    }
}

/// The octets of `ip` stand in `s`, with dots between them.
spec fn dotted_parts(s: Seq<char>, ip: Ipv4Addr) -> bool {
    let i = decimal(ip.a as nat).len() as int;
    let j = i + 1 + decimal(ip.b as nat).len();
    let k = j + 1 + decimal(ip.c as nat).len();
    &&& octet_at(s, 0, i, ip.a)
    &&& i < s.len() && s[i] == '.'
    &&& octet_at(s, i + 1, j, ip.b)
    &&& j < s.len() && s[j] == '.'
    &&& octet_at(s, j + 1, k, ip.c)
    &&& k < s.len() && s[k] == '.'
    &&& octet_at(s, k + 1, s.len() as int, ip.d)
}

/// An address is read back from its dotted notation, and nothing is read that is not the dotted
/// notation of what is read.
pub proof fn law_dotted_is_read_back(ip: Ipv4Addr, s: Seq<char>)
    ensures
        dotted_address(ip.dotted()) == Some(ip),
        dotted_address(s) matches Some(read) ==> read.dotted() == s,
{
    law_notation_identifies_address(ip, dotted_address(ip.dotted())->0);
}

/// The dotted notation is four decimal numbers, the octets in their order, with dots between them.
pub proof fn law_dotted_parts(ip: Ipv4Addr)
    ensures
        ({
            let (a, b, c, d) = (
                decimal(ip.a as nat),
                decimal(ip.b as nat),
                decimal(ip.c as nat),
                decimal(ip.d as nat),
            );
            let s = ip.dotted();
            let i = a.len() as int;
            let j = i + 1 + b.len();
            let k = j + 1 + c.len();
            &&& s.len() == k + 1 + d.len()
            &&& s.take(i) == a && s.subrange(i + 1, j) == b && s.subrange(j + 1, k) == c && s.skip(
                k + 1,
            ) == d
            &&& s[i] == '.' && s[j] == '.' && s[k] == '.'
        }),
{
    let s = ip.dotted();
    let i = decimal(ip.a as nat).len() as int;
    let j = i + 1 + decimal(ip.b as nat).len();
    let k = j + 1 + decimal(ip.c as nat).len();
    assert(s.take(i) =~= decimal(ip.a as nat));
    assert(s.subrange(i + 1, j) =~= decimal(ip.b as nat));
    assert(s.subrange(j + 1, k) =~= decimal(ip.c as nat));
    assert(s.skip(k + 1) =~= decimal(ip.d as nat));
}

} // verus!
