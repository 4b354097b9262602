//! IPv4 subnets in CIDR notation.

use crate::addr::{dotted_address, law_notation_identifies_address, parse_ipv4, Ipv4Addr};
use crate::text::{
    chars_of, decimal, decimal_value, digit_run, is_digit, law_numerals_are_read, lemma_decimal,
    numeral_u32, read_u32, NumeralError,
};
use vstd::prelude::*;

verus! {

/// Why a text is no subnet.
#[derive(Debug, Clone, Copy, PartialEq, Eq, Structural)]
pub enum CidrError {
    /// Not two parts with a slash between them.
    Format,
    /// The part in front of the slash is no IPv4 address.
    Address,
    /// The part behind the slash is no number.
    PrefixNumber(NumeralError),
    /// The prefix is longer than an address.
    PrefixRange,
}

/// The mask of a prefix: `prefix` ones, then zeros.
pub open spec fn prefix_mask(prefix: u32) -> u32 {
    if prefix == 0 {
        0
    } else {
        !0u32 << ((32 - prefix) as u32)
    }
}

/// The text has a slash at `k` and no other.
pub open spec fn only_slash(s: Seq<char>, k: int) -> bool {
    &&& 0 <= k < s.len()
    &&& s[k] == '/'
    &&& forall|i: int| 0 <= i < s.len() && i != k ==> #[trigger] s[i] != '/'
}

/// The network number and the mask that a text in CIDR notation stands for.
pub open spec fn cidr(s: Seq<char>) -> Result<(u32, u32), CidrError> {
    if exists|k: int| only_slash(s, k) {
        let k = choose|k: int| only_slash(s, k);
        match dotted_address(s.take(k)) {
            None => Err(CidrError::Address),
            Some(ip) => match numeral_u32(s.skip(k + 1)) {
                Err(e) => Err(CidrError::PrefixNumber(e)),
                Ok(prefix) => if prefix > 32 {
                    Err(CidrError::PrefixRange)
                } else {
                    Ok(((ip.number() as u32) & prefix_mask(prefix), prefix_mask(prefix)))
                },
            },
        }
    } else {
        Err(CidrError::Format)
    }
}

/// The address belongs to the subnet.
pub open spec fn in_subnet(ip: Ipv4Addr, network: u32, netmask: u32) -> bool {
    (ip.number() as u32) & netmask == network
}

/// Tests whether an address belongs to a subnet.
pub fn subnet_contains(ip: Ipv4Addr, network: u32, netmask: u32) -> (r: bool)
    ensures
        r == in_subnet(ip, network, netmask),
{
    ip.to_u32() & netmask == network
}

/// Where the only slash of a text stands.
fn find_only_slash(chars: &Vec<char>) -> (r: Option<usize>)
    ensures
        match r {
            Some(k) => only_slash(chars@, k as int),
            None => forall|k: int| !only_slash(chars@, k),
        },
{
    let mut found: Option<usize> = None;
    let mut i: usize = 0;
    while i < chars.len()
        invariant
            i <= chars@.len(),
            match found {
                Some(k) => {
                    &&& k < i
                    &&& chars@[k as int] == '/'
                    &&& forall|j: int| 0 <= j < i && j != k ==> #[trigger] chars@[j] != '/'
                },
                None => forall|j: int| 0 <= j < i ==> #[trigger] chars@[j] != '/',
            },
        decreases chars@.len() - i,
    {
        if chars[i] == '/' {
            if let Some(k) = found {
                assert(chars@[k as int] == '/' && chars@[i as int] == '/');
                return None;
            }
            found = Some(i);
        }
        i += 1;
    }
    found
}

/// Reads a subnet in CIDR notation, as its network number and its mask.
pub fn parse_cidr(text: &str) -> (r: Result<(u32, u32), CidrError>)
    ensures
        r == cidr(text@),
{
    let chars: Vec<char> = chars_of(text);
    let ghost s = text@;
    match find_only_slash(&chars) {
        None => Err(CidrError::Format),
        Some(k) => {
            let mut front: Vec<char> = Vec::new();
            let mut i: usize = 0;
            while i < k
                invariant
                    i <= k < chars@.len(),
                    front@ == chars@.take(i as int),
                decreases k - i,
            {
                front.push(chars[i]);
                i += 1;
            }
            assert(only_slash(s, k as int));
            proof {
                let m = choose|m: int| only_slash(s, m);
                assert(s[m] == '/' && s[k as int] == '/');
                assert(m == k);
            }
            match parse_ipv4(&front) {
                None => Err(CidrError::Address),
                Some(ip) => {
                    assert(chars@.subrange(k + 1, s.len() as int) == s.skip(k + 1));
                    match read_u32(&chars, k + 1, chars.len()) {
                        Err(e) => Err(CidrError::PrefixNumber(e)),
                        Ok(prefix) => {
                            if prefix > 32 {
                                return Err(CidrError::PrefixRange);
                            }
                            let mask: u32 = if prefix == 0 {
                                0
                            } else {
                                (!0u32) << (32 - prefix)
                            };
                            Ok((ip.to_u32() & mask, mask))
                        },
                    }
                },
            }
        },
    }
}

impl CidrError {
    /// The message of the error.
    pub open spec fn text(self) -> Seq<char> {
        match self {
            CidrError::Format => "Invalid CIDR format"@,
            CidrError::Address => "invalid IPv4 address syntax"@,
            CidrError::PrefixNumber(NumeralError::Empty) => {
                "cannot parse integer from empty string"@
            },
            CidrError::PrefixNumber(NumeralError::InvalidDigit) => "invalid digit found in string"@,
            CidrError::PrefixNumber(NumeralError::Overflow) => {
                "number too large to fit in target type"@
            },
            CidrError::PrefixRange => "Invalid CIDR prefix"@,
        }
    }

    /// Says what is wrong.
    pub fn message(&self) -> (r: String)
        ensures
            r@ == self.text(),
    {
        match self {
            CidrError::Format => "Invalid CIDR format".to_owned(),
            CidrError::Address => "invalid IPv4 address syntax".to_owned(),
            CidrError::PrefixNumber(NumeralError::Empty) => {
                "cannot parse integer from empty string".to_owned()
            },
            CidrError::PrefixNumber(NumeralError::InvalidDigit) => {
                "invalid digit found in string".to_owned()
            },
            CidrError::PrefixNumber(NumeralError::Overflow) => {
                "number too large to fit in target type".to_owned()
            },
            CidrError::PrefixRange => "Invalid CIDR prefix".to_owned(),
        }
    }
}

/// Two addresses agree under the mask of a prefix exactly if their leading bits agree.
pub proof fn law_mask_selects_leading_bits(x: u32, y: u32, prefix: u32)
    requires
        1 <= prefix <= 32,
    ensures
        x & prefix_mask(prefix) == y & prefix_mask(prefix) <==> x >> ((32 - prefix) as u32) == y >> (
        (32 - prefix) as u32),
{
    let s = (32 - prefix) as u32;
    assert(x & (!0u32 << s) == y & (!0u32 << s) <==> x >> s == y >> s) by (bit_vector)
        requires
            s <= 31,
    ;
}

/// A subnet that the notation gives has a network number within its mask, so the network
/// number belongs to it.
pub proof fn law_network_is_in_subnet(s: Seq<char>, ip: Ipv4Addr)
    requires
        cidr(s) matches Ok((network, _)) && ip.number() == network,
    ensures
        in_subnet(ip, cidr(s)->Ok_0.0, cidr(s)->Ok_0.1),
{
    let k = choose|k: int| only_slash(s, k);
    let n = dotted_address(s.take(k))->0.number() as u32;
    let mask = prefix_mask(numeral_u32(s.skip(k + 1))->Ok_0);
    assert((n & mask) & mask == n & mask) by (bit_vector);
}

/// The subnet of the virtual LAN, `10.7.0.0/24`, holds exactly the addresses 10.7.0.0 to
/// 10.7.0.255.
pub proof fn law_virtual_lan_addresses(ip: Ipv4Addr)
    ensures
        cidr("10.7.0.0/24"@) == Ok::<(u32, u32), CidrError>((0x0A07_0000, 0xFFFF_FF00)),
        in_subnet(ip, 0x0A07_0000, 0xFFFF_FF00) <==> ip.a == 10 && ip.b == 7 && ip.c == 0,
{
    reveal_strlit("10.7.0.0/24");
    let s = "10.7.0.0/24"@;
    assert(only_slash(s, 8));
    let k = choose|k: int| only_slash(s, k);
    assert(s[k] == '/' && s[8] == '/');
    assert(k == 8);
    let net = Ipv4Addr { a: 10, b: 7, c: 0, d: 0 };
    reveal_with_fuel(decimal, 3);
    assert(net.dotted() =~= s.take(8));
    law_notation_identifies_address(net, dotted_address(s.take(8))->0);
    let digits = s.skip(9);
    assert(digits =~= seq!['2', '4']);
    assert(digits.drop_first() =~= seq!['4']);
    assert(digits.drop_first().drop_first() =~= Seq::<char>::empty());
    assert(digits.take(2) =~= digits);
    assert(digits.drop_last() =~= seq!['2']);
    assert(digits.drop_last().drop_last() =~= Seq::<char>::empty());
    reveal_with_fuel(digit_run, 3);
    reveal_with_fuel(decimal_value, 3);
    assert(numeral_u32(digits) == Ok::<u32, NumeralError>(24));
    assert(!0u32 << 8u32 == 0xFFFF_FF00u32) by (bit_vector);
    assert(0x0A07_0000u32 & 0xFFFF_FF00u32 == 0x0A07_0000u32) by (bit_vector);
    let n = ip.number() as u32;
    assert(n & 0xFFFF_FF00u32 == n - n % 256) by (bit_vector);
    assert(n % 256 == ip.d);
    assert(n - ip.d == 0x0A07_0000 <==> ip.a == 10 && ip.b == 7 && ip.c == 0);
}

/// A subnet is read from the dotted notation of any address, a slash and the decimal notation of a
/// prefix of at most thirty-two bits: an address is in it exactly if its leading bits, as many as the
/// prefix says, are those of the address given.
pub proof fn law_cidr_is_read(base: Ipv4Addr, prefix: nat, ip: Ipv4Addr)
    requires
        prefix <= 32,
    ensures
        ({
            let text = base.dotted() + seq!['/'] + decimal(prefix);
            let r = cidr(text);
            &&& r is Ok
            &&& prefix > 0 ==> (in_subnet(ip, r->Ok_0.0, r->Ok_0.1) <==> (ip.number() as u32) >> ((32
                - prefix) as u32) == (base.number() as u32) >> ((32 - prefix) as u32))
            &&& prefix == 0 ==> in_subnet(ip, r->Ok_0.0, r->Ok_0.1)
            &&& prefix == 32 ==> r->Ok_0 == (base.number() as u32, 0xFFFF_FFFFu32)
        }),
{
    let text = base.dotted() + seq!['/'] + decimal(prefix);
    lemma_cidr_parts(base, prefix);
    let (x, y) = (ip.number() as u32, base.number() as u32);
    let p = prefix as u32;
    if prefix > 0 {
        law_mask_selects_leading_bits(x, y, p);
    } else {
        assert(x & 0 == 0 && y & 0 == 0) by (bit_vector);
    }
    if prefix == 32 {
        assert(!0u32 << 0u32 == 0xFFFF_FFFFu32) by (bit_vector);
        assert(y & 0xFFFF_FFFFu32 == y) by (bit_vector);
    }
}

/// How the parts of a subnet in CIDR notation are read.
proof fn lemma_cidr_parts(base: Ipv4Addr, prefix: nat)
    requires
        prefix <= u32::MAX,
    ensures
        cidr(base.dotted() + seq!['/'] + decimal(prefix)) == if prefix > 32 {
            Err::<(u32, u32), CidrError>(CidrError::PrefixRange)
        } else {
            Ok(
                (
                    (base.number() as u32) & prefix_mask(prefix as u32),
                    prefix_mask(prefix as u32),
                ),
            )
        },
{
    let d = base.dotted();
    let digits = decimal(prefix);
    let s = d + seq!['/'] + digits;
    let k = d.len() as int;
    lemma_dotted_has_no_slash(base);
    lemma_decimal(prefix);
    assert forall|i: int| 0 <= i < s.len() && i != k implies #[trigger] s[i] != '/' by {
        if i < k {
            assert(s[i] == d[i]);
        } else {
            assert(s[i] == digits[i - k - 1]);
            assert(is_digit(digits[i - k - 1]));
        }
    }
    assert(only_slash(s, k));
    let m = choose|m: int| only_slash(s, m);
    assert(s[m] == '/' && s[k] == '/');
    assert(m == k);
    assert(s.take(k) =~= d);
    assert(s.skip(k + 1) =~= digits);
    law_notation_identifies_address(base, dotted_address(d)->0);
    law_numerals_are_read(prefix);
}

/// The dotted notation of an address is made of digits and dots.
proof fn lemma_dotted_has_no_slash(ip: Ipv4Addr)
    ensures
        forall|i: int| 0 <= i < ip.dotted().len() ==> #[trigger] ip.dotted()[i] != '/',
{
    lemma_decimal(ip.a as nat);
    lemma_decimal(ip.b as nat);
    lemma_decimal(ip.c as nat);
    lemma_decimal(ip.d as nat);
    let s = ip.dotted();
    let (a, b, c, d) = (
        decimal(ip.a as nat),
        decimal(ip.b as nat),
        decimal(ip.c as nat),
        decimal(ip.d as nat),
    );
    let i1 = a.len() as int;
    let i2 = i1 + 1 + b.len();
    let i3 = i2 + 1 + c.len();
    assert forall|i: int| 0 <= i < s.len() implies #[trigger] s[i] != '/' by {
        if i < i1 {
            assert(s[i] == a[i] && is_digit(a[i]));
        } else if i == i1 || i == i2 || i == i3 {
            assert(s[i] == '.');
        } else if i < i2 {
            assert(s[i] == b[i - i1 - 1] && is_digit(b[i - i1 - 1]));
        } else if i < i3 {
            assert(s[i] == c[i - i2 - 1] && is_digit(c[i - i2 - 1]));
        } else {
            assert(s[i] == d[i - i3 - 1] && is_digit(d[i - i3 - 1]));
        }
    }
}

/// What is no subnet is refused for what is wrong with it: no slash or two of them, no address in
/// front of the slash, or a prefix of more than thirty-two bits.
pub proof fn law_other_texts_are_no_subnet(s: Seq<char>, i: int, j: int, base: Ipv4Addr, prefix: nat)
    requires
        prefix <= u32::MAX,
    ensures
        (forall|k: int| 0 <= k < s.len() ==> #[trigger] s[k] != '/') ==> cidr(s) == Err::<
            (u32, u32),
            CidrError,
        >(CidrError::Format),
        0 <= i < j < s.len() && s[i] == '/' && s[j] == '/' ==> cidr(s) == Err::<
            (u32, u32),
            CidrError,
        >(CidrError::Format),
        prefix > 32 ==> cidr(base.dotted() + seq!['/'] + decimal(prefix)) == Err::<
            (u32, u32),
            CidrError,
        >(CidrError::PrefixRange),
{
    lemma_cidr_parts(base, prefix);
    if 0 <= i < j < s.len() && s[i] == '/' && s[j] == '/' {
        assert forall|k: int| !only_slash(s, k) by {
            if only_slash(s, k) {
                assert(s[i] == '/' && s[j] == '/');
            }
        }
    }
}

/// An address is in a subnet exactly if its number, made of its octets with the first highest,
/// agrees with the network under the mask.
pub proof fn law_in_subnet_by_octets(ip: Ipv4Addr, network: u32, netmask: u32)
    ensures
        in_subnet(ip, network, netmask) <==> ((ip.a * 0x100_0000 + ip.b * 0x1_0000 + ip.c * 0x100
            + ip.d) as u32) & netmask == network,
{
}

/// Where exactly one slash stands in a text, what is in front of it has to be an address, and what is
/// behind it a number: else it is told which of them is wrong, the address first.
pub proof fn law_what_is_wrong_with_a_subnet(front: Seq<char>, back: Seq<char>)
    requires
        forall|i: int| 0 <= i < front.len() ==> #[trigger] front[i] != '/',
        forall|i: int| 0 <= i < back.len() ==> #[trigger] back[i] != '/',
    ensures
        ({
            let r = cidr(front + seq!['/'] + back);
            &&& dotted_address(front) is None ==> r == Err::<(u32, u32), CidrError>(
                CidrError::Address,
            )
            &&& dotted_address(front) is Some ==> match numeral_u32(back) {
                Err(e) => r == Err::<(u32, u32), CidrError>(CidrError::PrefixNumber(e)),
                Ok(prefix) => (r is Ok <==> prefix <= 32),
            }
        }),
{
    let s = front + seq!['/'] + back;
    let k = front.len() as int;
    assert forall|i: int| 0 <= i < s.len() && i != k implies #[trigger] s[i] != '/' by {
        if i < k {
            assert(s[i] == front[i]);
        } else {
            assert(s[i] == back[i - k - 1]);
        }
    }
    assert(only_slash(s, k));
    let m = choose|m: int| only_slash(s, m);
    assert(s[m] == '/' && s[k] == '/');
    assert(m == k);
    assert(s.take(k) =~= front);
    assert(s.skip(k + 1) =~= back);
}

} // verus!
