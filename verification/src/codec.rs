//! The byte-order codec: what integer a byte sequence denotes in a chosen
//! byte order, which bytes lay an integer out in that order, and the proof
//! that the two directions invert each other.

use vstd::prelude::*;

verus! {

/// The convention for mapping a multi-byte integer to and from a byte
/// sequence.  Chosen per call, so one cursor may mix byte orders.
#[derive(Clone, Copy, Debug)]
pub enum ByteOrder {
    /// Most significant byte first.
    BigEndian,
    /// Least significant byte first.
    LittleEndian,
}

/// 256 raised to the n-th power: how many distinct values n bytes can hold.
pub open spec fn pow256(n: nat) -> nat
    decreases n,
{
    if n == 0 {
        1
    } else {
        256 * pow256((n - 1) as nat)
    }
}

/// The value of a little-endian byte sequence: the first byte is the least
/// significant.
pub open spec fn le_value(s: Seq<u8>) -> nat
    decreases s.len(),
{
    if s.len() == 0 {
        0
    } else {
        s[0] as nat + 256 * le_value(s.drop_first())
    }
}

/// The value of a big-endian byte sequence: the last byte is the least
/// significant.
pub open spec fn be_value(s: Seq<u8>) -> nat
    decreases s.len(),
{
    if s.len() == 0 {
        0
    } else {
        256 * be_value(s.drop_last()) + s.last() as nat
    }
}

/// The integer a byte sequence denotes in the given byte order.
pub open spec fn value_of(order: ByteOrder, s: Seq<u8>) -> nat {
    match order {
        ByteOrder::BigEndian => be_value(s),
        ByteOrder::LittleEndian => le_value(s),
    }
}

/// The n bytes of v, least significant first.
pub open spec fn le_bytes(v: nat, n: nat) -> Seq<u8>
    decreases n,
{
    if n == 0 {
        Seq::empty()
    } else {
        seq![(v % 256) as u8] + le_bytes(v / 256, (n - 1) as nat)
    }
}

/// The n bytes of v, most significant first.
pub open spec fn be_bytes(v: nat, n: nat) -> Seq<u8>
    decreases n,
{
    if n == 0 {
        Seq::empty()
    } else {
        be_bytes(v / 256, (n - 1) as nat) + seq![(v % 256) as u8]
    }
}

/// The n bytes that lay v out in the given byte order.
pub open spec fn bytes_of(order: ByteOrder, v: nat, n: nat) -> Seq<u8> {
    match order {
        ByteOrder::BigEndian => be_bytes(v, n),
        ByteOrder::LittleEndian => le_bytes(v, n),
    }
}

/// Powers of 256 are at least one.
pub proof fn lemma_pow256_pos(n: nat)
    ensures
        pow256(n) >= 1,
    decreases n,
{
    if n > 0 {
        lemma_pow256_pos((n - 1) as nat);
    }
}

/// Powers of 256 grow with the exponent.
pub proof fn lemma_pow256_monotone(a: nat, b: nat)
    requires
        a <= b,
    ensures
        pow256(a) <= pow256(b),
    decreases b,
{
    if a < b {
        lemma_pow256_monotone(a, (b - 1) as nat);
        lemma_pow256_pos((b - 1) as nat);
    }
}

/// The powers of 256 up to eight bytes, as numbers.
pub proof fn lemma_pow256_values()
    ensures
        pow256(0) == 1,
        pow256(1) == 0x100,
        pow256(2) == 0x10000,
        pow256(3) == 0x1000000,
        pow256(4) == 0x100000000,
        pow256(5) == 0x10000000000,
        pow256(6) == 0x1000000000000,
        pow256(7) == 0x100000000000000,
        pow256(8) == 0x10000000000000000,
{
    assert(pow256(0) == 1);
    assert(pow256(1) == 0x100);
    assert(pow256(2) == 0x10000);
    assert(pow256(3) == 0x1000000);
    assert(pow256(4) == 0x100000000);
    assert(pow256(5) == 0x10000000000);
    assert(pow256(6) == 0x1000000000000);
    assert(pow256(7) == 0x100000000000000);
    assert(pow256(8) == 0x10000000000000000);
}

/// Laying a value out in n little-endian bytes yields exactly n bytes.
pub proof fn lemma_le_bytes_len(v: nat, n: nat)
    ensures
        le_bytes(v, n).len() == n,
    decreases n,
{
    if n > 0 {
        lemma_le_bytes_len(v / 256, (n - 1) as nat);
    }
}

/// Laying a value out in n big-endian bytes yields exactly n bytes.
pub proof fn lemma_be_bytes_len(v: nat, n: nat)
    ensures
        be_bytes(v, n).len() == n,
    decreases n,
{
    if n > 0 {
        lemma_be_bytes_len(v / 256, (n - 1) as nat);
    }
}

/// Laying a value out in n bytes yields exactly n bytes, in either order.
pub proof fn lemma_bytes_of_len(order: ByteOrder, v: nat, n: nat)
    ensures
        bytes_of(order, v, n).len() == n,
{
    match order {
        ByteOrder::BigEndian => lemma_be_bytes_len(v, n),
        ByteOrder::LittleEndian => lemma_le_bytes_len(v, n),
    }
}

/// Law: a value below 256^n, laid out in n bytes in either byte order,
/// decodes back to itself.
pub proof fn lemma_codec_round_trip(order: ByteOrder, v: nat, n: nat)
    requires
        v < pow256(n),
    ensures
        bytes_of(order, v, n).len() == n,
        value_of(order, bytes_of(order, v, n)) == v,
    decreases n,
{
    lemma_bytes_of_len(order, v, n);
    if n == 0 {
        lemma_pow256_pos(n);
    } else {
        vstd::arithmetic::div_mod::lemma_fundamental_div_mod(v as int, 256);
        assert(v / 256 < pow256((n - 1) as nat));
        lemma_codec_round_trip(order, v / 256, (n - 1) as nat);
        match order {
            ByteOrder::BigEndian => {
                let s = be_bytes(v, n);
                assert(s.drop_last() =~= be_bytes(v / 256, (n - 1) as nat));
                assert(s.last() == (v % 256) as u8);
            },
            ByteOrder::LittleEndian => {
                let s = le_bytes(v, n);
                assert(s.drop_first() =~= le_bytes(v / 256, (n - 1) as nat));
                assert(s[0] == (v % 256) as u8);
            },
        }
    }
}

} // verus!
