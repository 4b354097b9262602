//! What the virtual switch reads from, and rewrites in, an IPv4 packet.

use vstd::prelude::*;

verus! {

/// The number that two bytes in network order stand for.
pub open spec fn be16(hi: u8, lo: u8) -> int {
    hi * 256 + lo
}

/// The header length in bytes that the first byte of an IPv4 packet announces.
pub open spec fn header_len(p: Seq<u8>) -> int {
    (p[0] % 16) * 4
}

/// The ports of Windows services that no peer may reach: RPC, NetBIOS, SMB, RDP, mDNS, LLMNR
/// and WinRM.
pub open spec fn sensitive_port(port: int) -> bool {
    ||| port == 135
    ||| port == 137
    ||| port == 138
    ||| port == 139
    ||| port == 445
    ||| port == 3389
    ||| port == 5353
    ||| port == 5355
    ||| port == 5985
    ||| port == 5986
}

/// The packet carries TCP or UDP, and its destination port is a sensitive one.
pub open spec fn targets_sensitive_port(p: Seq<u8>) -> bool {
    let h = header_len(p);
    &&& p.len() >= 20
    &&& p.len() >= h + 4
    &&& p[9] == 6 || p[9] == 17
    &&& sensitive_port(be16(p[h + 2], p[h + 3]))
}

/// Reads two bytes in network order.
pub fn be_u16(hi: u8, lo: u8) -> (r: u16)
    ensures
        r == be16(hi, lo),
{
    (hi as u16) * 256 + (lo as u16)
}

/// Reads the header length of a packet.
fn read_header_len(packet: &[u8]) -> (r: usize)
    requires
        packet@.len() > 0,
    ensures
        r == header_len(packet@),
        r <= 60,
{
    ((packet[0] % 16) * 4) as usize
}

/// Check if an IPv4 packet targets sensitive Windows system services (SMB, RPC, RDP, NetBIOS,
/// WinRM).
pub fn is_sensitive_host_port(packet: &[u8]) -> (r: bool)
    ensures
        r == targets_sensitive_port(packet@),
{
    if packet.len() < 20 {
        return false;
    }
    let ihl: usize = read_header_len(packet);
    if packet.len() < ihl + 4 {
        return false;
    }
    let proto: u8 = packet[9];
    if proto != 6 && proto != 17 {
        return false;
    }
    let dst_port: u16 = be_u16(packet[ihl + 2], packet[ihl + 3]);
    matches!(dst_port, 135 | 137 | 138 | 139 | 445 | 3389 | 5353 | 5355 | 5985 | 5986)
}


/// The packet is a TCP SYN whose TCP header, options included, lies within it.
pub open spec fn is_clampable(p: Seq<u8>) -> bool {
    let h = header_len(p);
    &&& p.len() >= 40
    &&& p[9] == 6
    &&& p.len() >= h + 20
    &&& (p[h + 13] / 2) % 2 == 1
    &&& p.len() >= options_end(p)
}

/// Where the TCP options of a packet begin.
pub open spec fn options_start(p: Seq<u8>) -> int {
    header_len(p) + 20
}

/// Where the TCP options of a packet end, as the TCP data offset says.
pub open spec fn options_end(p: Seq<u8>) -> int {
    header_len(p) + (p[header_len(p) + 12] / 16) * 4
}

/// Where the first well-formed MSS option between `idx` and `end` begins. The walk goes from
/// option to option, and gives up at the end-of-list mark and at an option that does not fit.
pub open spec fn mss_option_from(p: Seq<u8>, idx: int, end: int) -> Option<int>
    decreases end - idx,
{
    if idx + 1 >= end || p[idx] == 0 {
        None
    } else if p[idx] == 1 {
        mss_option_from(p, idx + 1, end)
    } else if p[idx + 1] < 2 || idx + p[idx + 1] > end {
        None
    } else if p[idx] == 2 && p[idx + 1] == 4 {
        Some(idx)
    } else {
        mss_option_from(p, idx + p[idx + 1], end)
    }
}

/// Where the MSS option of a TCP SYN packet begins.
pub open spec fn mss_option(p: Seq<u8>) -> Option<int> {
    if is_clampable(p) {
        mss_option_from(p, options_start(p), options_end(p))
    } else {
        None
    }
}

/// Adds the carries of a sum back in until sixteen bits hold it.
pub open spec fn fold16(sum: int) -> int
    decreases sum,
{
    if sum < 65536 {
        sum
    } else {
        fold16(sum % 65536 + sum / 65536)
    }
}

/// The checksum after one word under it went from `before` to `after` (RFC 1624):
/// the complement of `~checksum + ~before + after` in ones' complement arithmetic.
pub open spec fn updated_checksum(checksum: int, before: int, after: int) -> int {
    65535 - fold16((65535 - checksum) + (65535 - before) + after)
}

/// `p` with the two bytes at `at` set to `word` in network order.
pub open spec fn with_word(p: Seq<u8>, at: int, word: int) -> Seq<u8> {
    p.update(at, (word / 256) as u8).update(at + 1, (word % 256) as u8)
}

/// What a packet becomes when no MSS above `max_mss` may pass: the MSS option of a TCP SYN is
/// lowered to `max_mss` and the TCP checksum follows; anything else is left as it is.
pub open spec fn clamped(p: Seq<u8>, max_mss: int) -> Seq<u8> {
    match mss_option(p) {
        Some(at) => {
            let old_mss = be16(p[at + 2], p[at + 3]);
            let csum_at = header_len(p) + 16;
            if old_mss > max_mss {
                with_word(
                    with_word(p, at + 2, max_mss),
                    csum_at,
                    updated_checksum(be16(p[csum_at], p[csum_at + 1]), old_mss, max_mss),
                )
            } else {
                p
            }
        },
        None => p,
    }
}

/// Folding changes nothing modulo 65535, and ends within sixteen bits.
proof fn lemma_fold16(sum: int)
    requires
        sum >= 0,
    ensures
        0 <= fold16(sum) < 65536,
        fold16(sum) % 65535 == sum % 65535,
    decreases sum,
{
    if sum >= 65536 {
        let next = sum % 65536 + sum / 65536;
        lemma_fold16(next);
        assert(next == sum - 65535 * (sum / 65536));
        assert((sum - 65535 * (sum / 65536)) % 65535 == sum % 65535) by (nonlinear_arith);
    }
}

/// An MSS option that the walk finds lies between its ends.
proof fn lemma_mss_option_within(p: Seq<u8>, idx: int, end: int)
    ensures
        mss_option_from(p, idx, end) matches Some(at) ==> {
            &&& idx <= at
            &&& at + 4 <= end
            &&& p[at] == 2
            &&& p[at + 1] == 4
        },
    decreases end - idx,
{
    if idx + 1 >= end || p[idx] == 0 {
    } else if p[idx] == 1 {
        lemma_mss_option_within(p, idx + 1, end);
    } else if p[idx + 1] < 2 || idx + p[idx + 1] > end {
    } else if p[idx] == 2 && p[idx + 1] == 4 {
    } else {
        lemma_mss_option_within(p, idx + p[idx + 1], end);
    }
}

/// The sum of the words, in network order, of the bytes of `p` from `from` up to `to`; a last
/// odd byte is the high half of a word. A checksum over those bytes holds exactly if this sum,
/// with that of the pseudo header, is a multiple of 65535.
pub open spec fn word_sum(p: Seq<u8>, from: int, to: int) -> int
    decreases to - from,
{
    if from >= to {
        0
    } else if from + 1 == to {
        p[from] * 256
    } else {
        be16(p[from], p[from + 1]) + word_sum(p, from + 2, to)
    }
}

/// The walk does not look behind the option that it finds.
proof fn lemma_walk_agrees(p: Seq<u8>, q: Seq<u8>, idx: int, end: int, at: int)
    requires
        mss_option_from(p, idx, end) == Some(at),
        forall|i: int| idx <= i < at + 2 ==> p[i] == q[i],
    ensures
        mss_option_from(q, idx, end) == Some(at),
    decreases end - idx,
{
    lemma_mss_option_within(p, idx, end);
    if p[idx] == 1 {
        lemma_mss_option_within(p, idx + 1, end);
        lemma_walk_agrees(p, q, idx + 1, end, at);
    } else if p[idx] == 2 && p[idx + 1] == 4 {
    } else {
        lemma_mss_option_within(p, idx + p[idx + 1], end);
        lemma_walk_agrees(p, q, idx + p[idx + 1], end, at);
    }
}

/// Writing one aligned word changes a word sum by the difference of the words.
proof fn lemma_word_sum_update(p: Seq<u8>, from: int, to: int, at: int, word: int)
    requires
        0 <= from <= at,
        at + 2 <= to <= p.len(),
        (at - from) % 2 == 0,
        0 <= word < 65536,
    ensures
        word_sum(with_word(p, at, word), from, to) == word_sum(p, from, to) - be16(
            p[at],
            p[at + 1],
        ) + word,
    decreases to - from,
{
    let q = with_word(p, at, word);
    if at == from {
        lemma_word_sum_same(p, q, from + 2, to);
    } else {
        lemma_word_sum_update(p, from + 2, to, at, word);
    }
}

/// A word sum looks only at the bytes in its range.
proof fn lemma_word_sum_same(p: Seq<u8>, q: Seq<u8>, from: int, to: int)
    requires
        forall|i: int| from <= i < to ==> p[i] == q[i],
    ensures
        word_sum(p, from, to) == word_sum(q, from, to),
    decreases to - from,
{
    if from + 1 < to {
        lemma_word_sum_same(p, q, from + 2, to);
    }
}

/// Clamping touches at most four bytes: the MSS and the TCP checksum. The length, and with it
/// everything in front of the TCP checksum, stays.
pub proof fn law_clamp_is_local(p: Seq<u8>, max_mss: u16)
    ensures
        clamped(p, max_mss as int).len() == p.len(),
        forall|i: int|
            #![trigger clamped(p, max_mss as int)[i]]
            0 <= i < p.len() && clamped(p, max_mss as int)[i] != p[i] ==> {
                &&& mss_option(p) is Some
                &&& {
                    ||| i == mss_option(p)->0 + 2
                    ||| i == mss_option(p)->0 + 3
                    ||| i == header_len(p) + 16
                    ||| i == header_len(p) + 17
                }
            },
        forall|i: int|
            #![trigger clamped(p, max_mss as int)[i]]
            0 <= i < header_len(p) + 16 && i < p.len() ==> clamped(p, max_mss as int)[i] == p[i],
{
    if mss_option(p) is Some {
        lemma_mss_option_within(p, options_start(p), options_end(p));
    }
}

/// After clamping the MSS option is where it was, and says no more than `max_mss`.
pub proof fn law_clamp_bounds_mss(p: Seq<u8>, max_mss: u16)
    ensures
        mss_option(clamped(p, max_mss as int)) == mss_option(p),
        mss_option(p) matches Some(at) ==> be16(
            clamped(p, max_mss as int)[at + 2],
            clamped(p, max_mss as int)[at + 3],
        ) <= max_mss,
{
    let q = clamped(p, max_mss as int);
    if let Some(at) = mss_option(p) {
        lemma_mss_option_within(p, options_start(p), options_end(p));
        law_clamp_is_local(p, max_mss);
        lemma_walk_agrees(p, q, options_start(p), options_end(p), at);
    }
}

/// Clamping twice is clamping once.
pub proof fn law_clamp_is_idempotent(p: Seq<u8>, max_mss: u16)
    ensures
        clamped(clamped(p, max_mss as int), max_mss as int) == clamped(p, max_mss as int),
{
    law_clamp_bounds_mss(p, max_mss);
}

/// Where the MSS stands on a word boundary of the TCP header, clamping keeps the checksum of
/// the TCP segment as right or as wrong as it was: the sum that the checksum is about does not
/// change modulo 65535.
pub proof fn law_clamp_keeps_checksum(p: Seq<u8>, max_mss: u16)
    requires
        mss_option(p) matches Some(at) ==> (at - header_len(p)) % 2 == 0,
    ensures
        word_sum(clamped(p, max_mss as int), header_len(p), p.len() as int) % 65535 == word_sum(
            p,
            header_len(p),
            p.len() as int,
        ) % 65535,
{
    if let Some(at) = mss_option(p) {
        lemma_mss_option_within(p, options_start(p), options_end(p));
        let h = header_len(p);
        let end = p.len() as int;
        let mss = be16(p[at + 2], p[at + 3]);
        let csum = be16(p[h + 16], p[h + 17]);
        if mss > max_mss {
            let x = (65535 - csum) + (65535 - mss) + max_mss;
            lemma_fold16(x);
            let q = with_word(p, at + 2, max_mss as int);
            let new_csum = updated_checksum(csum, mss, max_mss as int);
            lemma_word_sum_update(p, h, end, at + 2, max_mss as int);
            lemma_word_sum_update(q, h, end, h + 16, new_csum);
            let before = word_sum(p, h, end);
            let after = word_sum(clamped(p, max_mss as int), h, end);
            assert(after == before - mss + max_mss - csum + new_csum);
            assert(after == before + x - fold16(x) - 65535);
            assert((before + x - fold16(x) - 65535) % 65535 == before % 65535) by (nonlinear_arith)
                requires
                    fold16(x) % 65535 == x % 65535,
            {
                let k = x / 65535 - fold16(x) / 65535 - 1;
                assert(x - fold16(x) - 65535 == 65535 * k);
                assert((before + 65535 * k) % 65535 == before % 65535);
            }
        }
    }
}

/// The bit of a SYN, as the parity of half the flags.
proof fn lemma_syn_bit(flags: u8)
    ensures
        flags & 2 != 0 <==> (flags / 2) % 2 == 1,
{
    assert(flags & 2 != 0 <==> (flags / 2) % 2 == 1) by (bit_vector);
}

/// Every TCP packet with the SYN bit, whatever its other flags and whatever options stand in front,
/// has its MSS lowered to the limit where it is above. The options in front are given by where they
/// begin: a byte of one is an option of one byte, and any other has its length behind its kind.
/// Nothing but the MSS and the checksum changes, and the sum of the two words stays the same in
/// ones' complement arithmetic.
pub proof fn law_syn_is_clamped(p: Seq<u8>, max_mss: u16, chain: Seq<int>)
    requires
        p.len() >= 40,
        p[9] == 6,
        ({
            let h = (p[0] % 16) * 4;
            let end = h + (p[h + 12] / 16) * 4;
            let at = chain.last();
            &&& p.len() >= h + 20
            &&& p[h + 13] & 2 != 0
            &&& end <= p.len()
            &&& chain.len() >= 1
            &&& chain[0] == h + 20
            &&& forall|j: int|
                #![trigger chain[j]]
                0 <= j < chain.len() - 1 ==> {
                    &&& chain[j] + 1 < end
                    &&& p[chain[j]] == 1 && chain[j + 1] == chain[j] + 1 || p[chain[j]] >= 2
                        && p[chain[j] + 1] >= 2 && !(p[chain[j]] == 2 && p[chain[j] + 1] == 4)
                        && chain[j + 1] == chain[j] + p[chain[j] + 1] && chain[j + 1] <= end
                }
            &&& at + 4 <= end
            &&& p[at] == 2
            &&& p[at + 1] == 4
            &&& p[at + 2] * 256 + p[at + 3] > max_mss
        }),
    ensures
        ({
            let h = (p[0] % 16) * 4;
            let at = chain.last();
            let q = clamped(p, max_mss as int);
            let (sum, sum_after) = (p[h + 16] * 256 + p[h + 17], q[h + 16] * 256 + q[h + 17]);
            let mss = p[at + 2] * 256 + p[at + 3];
            &&& q.len() == p.len()
            &&& q[at + 2] * 256 + q[at + 3] == max_mss
            &&& (sum_after + max_mss) % 65535 == (sum + mss) % 65535
            &&& sum < 65535 ==> sum_after < 65535
            &&& forall|i: int|
                0 <= i < p.len() && i != at + 2 && i != at + 3 && i != h + 16 && i != h + 17
                    ==> #[trigger] q[i] == p[i]
        }),
{
    let h = (p[0] % 16) * 4;
    let end = h + (p[h + 12] / 16) * 4;
    let at = chain.last();
    lemma_syn_bit(p[h + 13]);
    lemma_chain_grows(chain, p, end, 0);
    lemma_walk_along(p, chain, end, 0);
    assert(mss_option(p) == Some(at));
    let mss = p[at + 2] * 256 + p[at + 3];
    let sum = p[h + 16] * 256 + p[h + 17];
    let x = (65535 - sum) + (65535 - mss) + max_mss;
    lemma_fold16(x);
    let q = clamped(p, max_mss as int);
    let sum_after = q[h + 16] * 256 + q[h + 17];
    assert(sum_after == 65535 - fold16(x));
    assert((sum_after + max_mss) % 65535 == (sum + mss) % 65535) by {
        let f = fold16(x);
        let k = x / 65535 - f / 65535;
        assert(x - f == 65535 * k);
        assert(sum_after + max_mss == sum + mss + 65535 * (k - 1));
        vstd::arithmetic::div_mod::lemma_mod_multiples_vanish(k - 1, sum + mss, 65535);
    }
    if sum < 65535 {
        lemma_fold16_positive(x);
    }
}

/// Folding a positive sum leaves something.
proof fn lemma_fold16_positive(sum: int)
    requires
        sum > 0,
    ensures
        fold16(sum) > 0,
    decreases sum,
{
    if sum >= 65536 {
        lemma_fold16_positive(sum % 65536 + sum / 65536);
    }
}

/// The positions of a chain of options do not go back.
proof fn lemma_chain_grows(chain: Seq<int>, p: Seq<u8>, end: int, k: int)
    requires
        0 <= k < chain.len(),
        forall|j: int|
            #![trigger chain[j]]
            0 <= j < chain.len() - 1 ==> {
                &&& chain[j] + 1 < end
                &&& p[chain[j]] == 1 && chain[j + 1] == chain[j] + 1 || p[chain[j]] >= 2 && p[chain[j]
                    + 1] >= 2 && !(p[chain[j]] == 2 && p[chain[j] + 1] == 4) && chain[j + 1]
                    == chain[j] + p[chain[j] + 1] && chain[j + 1] <= end
            },
    ensures
        chain[k] <= chain.last(),
    decreases chain.len() - k,
{
    if k < chain.len() - 1 {
        lemma_chain_grows(chain, p, end, k + 1);
        assert(chain[k] + 1 < end);
    }
}

/// A SYN whose first and only option is an MSS has it lowered, and an MSS within the limit stays:
/// whatever the other flags, the header length and the checksum.
pub proof fn law_first_mss_is_clamped(p: Seq<u8>, max_mss: u16)
    requires
        p.len() >= 44,
        p[9] == 6,
        ({
            let h = (p[0] % 16) * 4;
            &&& p.len() >= h + 24
            &&& p[h + 12] / 16 == 6
            &&& p[h + 13] & 2 != 0
            &&& p[h + 20] == 2
            &&& p[h + 21] == 4
        }),
    ensures
        ({
            let h = (p[0] % 16) * 4;
            let q = clamped(p, max_mss as int);
            let mss = p[h + 22] * 256 + p[h + 23];
            &&& mss > max_mss ==> q[h + 22] * 256 + q[h + 23] == max_mss
            &&& mss <= max_mss ==> q == p
        }),
{
    let h = (p[0] % 16) * 4;
    lemma_syn_bit(p[h + 13]);
    if p[h + 22] * 256 + p[h + 23] > max_mss {
        law_syn_is_clamped(p, max_mss, seq![h + 20]);
    }
}

/// What is no SYN of TCP passes as it is: another protocol, no SYN bit, or headers that do not fit.
pub proof fn law_only_syns_are_clamped(p: Seq<u8>, max_mss: u16)
    requires
        p.len() < 40 || p[9] != 6 || p.len() < (p[0] % 16) * 4 + 20 || p[(p[0] % 16) * 4 + 13] & 2
            == 0 || p.len() < (p[0] % 16) * 4 + (p[(p[0] % 16) * 4 + 12] / 16) * 4,
    ensures
        clamped(p, max_mss as int) == p,
{
    if p.len() >= 40 && p[9] == 6 && p.len() >= (p[0] % 16) * 4 + 20 {
        lemma_syn_bit(p[(p[0] % 16) * 4 + 13]);
    }
}

/// A SYN whose options end, or break off, before any MSS passes as it is, and so does one whose
/// MSS is within the limit. The options in front are given by where they begin.
pub proof fn law_other_syns_are_kept(p: Seq<u8>, max_mss: u16, chain: Seq<int>)
    requires
        p.len() >= 40,
        ({
            let h = (p[0] % 16) * 4;
            let end = h + (p[h + 12] / 16) * 4;
            let at = chain.last();
            &&& p.len() >= h + 20
            &&& end <= p.len()
            &&& chain.len() >= 1
            &&& chain[0] == h + 20
            &&& forall|j: int|
                #![trigger chain[j]]
                0 <= j < chain.len() - 1 ==> {
                    &&& chain[j] + 1 < end
                    &&& p[chain[j]] == 1 && chain[j + 1] == chain[j] + 1 || p[chain[j]] >= 2
                        && p[chain[j] + 1] >= 2 && !(p[chain[j]] == 2 && p[chain[j] + 1] == 4)
                        && chain[j + 1] == chain[j] + p[chain[j] + 1] && chain[j + 1] <= end
                }
            &&& at + 1 >= end || p[at] == 0 || p[at] >= 2 && (p[at + 1] < 2 || at + p[at + 1] > end)
                || p[at] == 2 && p[at + 1] == 4 && p[at + 2] * 256 + p[at + 3] <= max_mss
        }),
    ensures
        clamped(p, max_mss as int) == p,
{
    let h = (p[0] % 16) * 4;
    let end = h + (p[h + 12] / 16) * 4;
    lemma_walk_along(p, chain, end, 0);
}

/// A chain of option positions leads the walk to its last position.
proof fn lemma_walk_along(p: Seq<u8>, chain: Seq<int>, end: int, k: int)
    requires
        0 <= k < chain.len(),
        end <= p.len(),
        chain[0] >= 0,
        forall|j: int|
            #![trigger chain[j]]
            0 <= j < chain.len() - 1 ==> {
                &&& chain[j] + 1 < end
                &&& p[chain[j]] == 1 && chain[j + 1] == chain[j] + 1 || p[chain[j]] >= 2 && p[chain[j]
                    + 1] >= 2 && !(p[chain[j]] == 2 && p[chain[j] + 1] == 4) && chain[j + 1]
                    == chain[j] + p[chain[j] + 1] && chain[j + 1] <= end
            },
    ensures
        mss_option_from(p, chain[k], end) == mss_option_from(p, chain.last(), end),
    decreases chain.len() - k,
{
    if k < chain.len() - 1 {
        lemma_walk_along(p, chain, end, k + 1);
        assert(chain[k] + 1 < end);
        assert(mss_option_from(p, chain[k], end) == mss_option_from(p, chain[k + 1], end));
    }
}

/// The ports of a host's own services are closed to TCP and UDP alike, whatever the length of the
/// IPv4 header; any other port is open, and so is any other protocol.
pub proof fn law_sensitive_ports(p: Seq<u8>, port: u16)
    requires
        p.len() >= 20,
        p.len() >= (p[0] % 16) * 4 + 4,
        p[(p[0] % 16) * 4 + 2] * 256 + p[(p[0] % 16) * 4 + 3] == port,
    ensures
        (p[9] == 6 || p[9] == 17) && (port == 135 || port == 137 || port == 138 || port == 139
            || port == 445 || port == 3389 || port == 5353 || port == 5355 || port == 5985 || port
            == 5986) ==> targets_sensitive_port(p),
        targets_sensitive_port(p) ==> p[9] == 6 || p[9] == 17,
        targets_sensitive_port(p) ==> port == 135 || port == 137 || port == 138 || port == 139
            || port == 445 || port == 3389 || port == 5353 || port == 5355 || port == 5985 || port
            == 5986,
{
}

/// A packet without a port, because it is too short for one, targets none.
pub proof fn law_no_port_is_not_sensitive(p: Seq<u8>)
    requires
        p.len() < 20 || p.len() < (p[0] % 16) * 4 + 4,
    ensures
        !targets_sensitive_port(p),
{
}

/// Computes the checksum update of RFC 1624.
fn update_checksum(checksum: u16, before: u16, after: u16) -> (r: u16)
    ensures
        r == updated_checksum(checksum as int, before as int, after as int),
{
    let mut sum: u32 = (65535 - checksum) as u32 + (65535 - before) as u32 + after as u32;
    let ghost start = sum as int;
    while sum >= 65536
        invariant
            fold16(sum as int) == fold16(start),
        decreases sum,
    {
        sum = sum % 65536 + sum / 65536;
    }
    65535 - sum as u16
}

/// Writes a word in network order.
fn put_u16(packet: &mut [u8], at: usize, word: u16)
    requires
        at + 1 < old(packet)@.len(),
    ensures
        final(packet)@ == with_word(old(packet)@, at as int, word as int),
{
    packet[at] = (word / 256) as u8;
    packet[at + 1] = (word % 256) as u8;
}

/// Clamps TCP MSS option to max_mss (e.g. 1340 bytes) on TCP SYN packets and updates checksum
/// via RFC 1624.
pub fn clamp_tcp_mss(packet: &mut [u8], max_mss: u16)
    ensures
        final(packet)@ == clamped(old(packet)@, max_mss as int),
{
    if packet.len() < 40 {
        return;
    }
    let ihl: usize = read_header_len(packet);
    let proto: u8 = packet[9];
    if proto != 6 || packet.len() < ihl + 20 {
        return;
    }
    let tcp_data_offset: usize = ((packet[ihl + 12] / 16) * 4) as usize;
    let flags: u8 = packet[ihl + 13];
    // Only process SYN packets (SYN=1)
    if (flags / 2) % 2 == 0 {
        return;
    }
    if packet.len() < ihl + tcp_data_offset {
        return;
    }
    let mut opt_idx: usize = ihl + 20;
    let opt_end: usize = ihl + tcp_data_offset;
    let ghost p = packet@;
    while opt_idx + 1 < opt_end
        invariant
            packet@ == p,
            opt_end <= p.len(),
            opt_idx <= opt_end + 255,
            opt_end <= 120,
            ihl + 20 <= opt_idx,
            ihl == header_len(p),
            is_clampable(p),
            mss_option(p) == mss_option_from(p, opt_idx as int, opt_end as int),
            p == old(packet)@,
        decreases opt_end + 255 - opt_idx,
    {
        let kind: u8 = packet[opt_idx];
        if kind == 0 {
            return;
        }
        if kind == 1 {
            opt_idx += 1;
            continue;
        }
        let len: usize = packet[opt_idx + 1] as usize;
        if len < 2 || opt_idx + len > opt_end {
            return;
        }
        if kind == 2 && len == 4 {
            let old_mss: u16 = be_u16(packet[opt_idx + 2], packet[opt_idx + 3]);
            if old_mss > max_mss {
                put_u16(packet, opt_idx + 2, max_mss);
                let old_csum: u16 = be_u16(packet[ihl + 16], packet[ihl + 17]);
                put_u16(packet, ihl + 16, update_checksum(old_csum, old_mss, max_mss));
            }
            return;
        }
        opt_idx += len;
    }
}

} // verus!
