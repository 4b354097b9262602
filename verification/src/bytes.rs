//! Numbers as bytes in network order.

use vstd::prelude::*;

verus! {

/// The last `len` bytes of a number, the highest first.
pub open spec fn be_bytes(n: nat, len: nat) -> Seq<u8>
    decreases len,
{
    if len == 0 {
        seq![]
    } else {
        be_bytes(n / 256, (len - 1) as nat).push((n % 256) as u8)
    }
}

/// The number that bytes stand for, the highest first.
pub open spec fn be_value(s: Seq<u8>) -> nat
    decreases s.len(),
{
    if s.len() == 0 {
        0
    } else {
        be_value(s.drop_last()) * 256 + s.last() as nat
    }
}

/// How many numbers `len` bytes can stand for.
pub open spec fn pow256(len: nat) -> nat
    decreases len,
{
    if len == 0 {
        1
    } else {
        256 * pow256((len - 1) as nat)
    }
}

/// The bytes of a number that fits stand for the number.
pub proof fn lemma_be_bytes(n: nat, len: nat)
    requires
        n < pow256(len),
    ensures
        be_bytes(n, len).len() == len,
        be_value(be_bytes(n, len)) == n,
    decreases len,
{
    if len > 0 {
        lemma_be_bytes(n / 256, (len - 1) as nat);
        assert(be_bytes(n, len).drop_last() =~= be_bytes(n / 256, (len - 1) as nat));
    }
}

/// Bytes stand for a number that they can hold.
pub proof fn lemma_be_value(s: Seq<u8>)
    ensures
        be_value(s) < pow256(s.len()),
    decreases s.len(),
{
    if s.len() > 0 {
        lemma_be_value(s.drop_last());
    }
}

/// More bytes hold more.
proof fn lemma_pow256_grows(a: nat, b: nat)
    requires
        a <= b,
    ensures
        1 <= pow256(a) <= pow256(b),
    decreases b,
{
    if a < b {
        lemma_pow256_grows(a, (b - 1) as nat);
    } else if a > 0 {
        lemma_pow256_grows((a - 1) as nat, (a - 1) as nat);
    }
}

/// What eight bytes and four bytes can hold.
pub proof fn lemma_pow256()
    ensures
        pow256(8) == 0x1_0000_0000_0000_0000,
        pow256(4) == 0x1_0000_0000,
{
    reveal_with_fuel(pow256, 9);
}

/// Sets `width` bytes from `at` on to the last bytes of a number.
pub fn put_be(buf: &mut [u8], at: usize, width: usize, n: u64)
    requires
        at + width <= old(buf)@.len(),
    ensures
        final(buf)@ == old(buf)@.take(at as int) + be_bytes(n as nat, width as nat) + old(
            buf,
        )@.skip(at + width),
{
    let ghost start = buf@;
    let ghost all = be_bytes(n as nat, width as nat);
    let end: usize = buf.len();
    let mut i: usize = width;
    let mut m: u64 = n;
    let ghost mut done: Seq<u8> = seq![];
    assert(all =~= be_bytes(m as nat, i as nat) + done);
    assert(buf@ =~= start.take(at + i) + done + start.skip(at + width));
    while i > 0
        invariant
            i <= width,
            at + width <= end == start.len(),
            all == be_bytes(m as nat, i as nat) + done,
            done.len() == width - i,
            buf@ == start.take(at + i) + done + start.skip(at + width),
        decreases i,
    {
        let byte: u8 = (m % 256) as u8;
        let ghost rest = done;
        i -= 1;
        buf[at + i] = byte;
        m = m / 256;
        proof {
            done = seq![byte] + rest;
            assert(be_bytes(m as nat, i as nat).push(byte) + rest =~= be_bytes(m as nat, i as nat)
                + done);
            assert(buf@ =~= start.take(at + i) + done + start.skip(at + width));
        }
    }
    assert(all =~= done);
}

/// Reads the number that `width` bytes from `at` on stand for.
pub fn read_be(buf: &[u8], at: usize, width: usize) -> (r: u64)
    requires
        at + width <= buf@.len(),
        width <= 8,
    ensures
        r == be_value(buf@.subrange(at as int, at + width)),
{
    let end: usize = buf.len();
    let mut r: u64 = 0;
    let mut i: usize = 0;
    assert(buf@.subrange(at as int, at + 0) =~= seq![]);
    while i < width
        invariant
            i <= width <= 8,
            at + width <= end == buf@.len(),
            r == be_value(buf@.subrange(at as int, at + i)),
        decreases width - i,
    {
        let ghost next = buf@.subrange(at as int, at + i + 1);
        proof {
            assert(next.drop_last() =~= buf@.subrange(at as int, at + i));
            lemma_be_value(next);
            lemma_pow256_grows((i + 1) as nat, 8);
            lemma_pow256();
        }
        r = r * 256 + buf[at + i] as u64;
        i += 1;
    }
    r
}

/// Four bytes in network order stand for the number that they make up, the first highest.
pub proof fn law_four_bytes(s: Seq<u8>)
    requires
        s.len() == 4,
    ensures
        be_value(s) == s[0] * 0x100_0000 + s[1] * 0x1_0000 + s[2] * 0x100 + s[3],
{
    reveal_with_fuel(be_value, 5);
    assert(s.drop_last().drop_last().drop_last().drop_last() =~= seq![]);
}

/// Eight bytes in network order stand for the number that they make up, the first highest.
pub proof fn law_eight_bytes(s: Seq<u8>)
    requires
        s.len() == 8,
    ensures
        be_value(s) == (s[0] * 0x100_0000 + s[1] * 0x1_0000 + s[2] * 0x100 + s[3]) * 0x1_0000_0000
            + s[4] * 0x100_0000 + s[5] * 0x1_0000 + s[6] * 0x100 + s[7],
{
    let t = s.take(4);
    law_four_bytes(t);
    assert(s.drop_last().drop_last().drop_last().drop_last() =~= t);
    assert(be_value(s.drop_last().drop_last().drop_last()) == be_value(t) * 256 + s[4]);
    assert(be_value(s.drop_last().drop_last()) == be_value(s.drop_last().drop_last().drop_last())
        * 256 + s[5]);
    assert(be_value(s.drop_last()) == be_value(s.drop_last().drop_last()) * 256 + s[6]);
}

} // verus!
