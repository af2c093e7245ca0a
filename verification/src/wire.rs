//! Big-endian integer encoding, as every scrcpy stream uses it.
//!
//! The conversions themselves are done by the `byteorder` crate; this module
//! states what they compute and offers verified helpers to append encoded
//! values to an output buffer.
use byteorder::{BigEndian, ByteOrder};
use vstd::prelude::*;

verus! {

/// The unsigned integer whose big-endian encoding is `b`.
pub open spec fn be_value(b: Seq<u8>) -> nat
    decreases b.len(),
{
    if b.len() == 0 {
        0
    } else {
        be_value(b.drop_last()) * 256 + b.last() as nat
    }
}

/// The `n`-byte big-endian encoding of `v` (the low `8 * n` bits of `v`).
pub open spec fn be_bytes(v: nat, n: nat) -> Seq<u8>
    decreases n,
{
    if n == 0 {
        Seq::empty()
    } else {
        be_bytes(v / 256, (n - 1) as nat).push((v % 256) as u8)
    }
}

/// Reading back an `n`-byte encoding gives the value, when it fits in `n`
/// bytes.
pub proof fn lemma_be_roundtrip(v: nat, n: nat)
    requires
        v < vstd::arithmetic::power::pow(256, n),
    ensures
        be_value(be_bytes(v, n)) == v,
        be_bytes(v, n).len() == n,
    decreases n,
{
    if n == 0 {
        vstd::arithmetic::power::lemma_pow0(256);
    } else {
        let m = (n - 1) as nat;
        vstd::arithmetic::power::lemma_pow_adds(256, m, 1);
        vstd::arithmetic::power::lemma_pow1(256);
        let p = vstd::arithmetic::power::pow(256, m);
        assert(v / 256 < p) by (nonlinear_arith)
            requires
                v < p * 256,
        ;
        lemma_be_roundtrip(v / 256, m);
        let s = be_bytes(v / 256, m);
        assert(s.push((v % 256) as u8).drop_last() == s);
    }
}

/// The value of `b.len()` bytes is below `256^b.len()`; eight bytes hold
/// less than `2^64`.
pub proof fn lemma_be_bound(b: Seq<u8>)
    ensures
        be_value(b) < vstd::arithmetic::power::pow(256, b.len()),
        b.len() == 8 ==> be_value(b) < 0x1_0000_0000_0000_0000,
    decreases b.len(),
{
    if b.len() == 0 {
        vstd::arithmetic::power::lemma_pow0(256);
    } else {
        let m = (b.len() - 1) as nat;
        lemma_be_bound(b.drop_last());
        vstd::arithmetic::power::lemma_pow_adds(256, m, 1);
        vstd::arithmetic::power::lemma_pow1(256);
        let p = vstd::arithmetic::power::pow(256, m);
        let v = be_value(b.drop_last());
        assert(v * 256 + b.last() < p * 256) by (nonlinear_arith)
            requires
                v < p,
                b.last() < 256,
        ;
    }
    if b.len() == 8 {
        reveal_with_fuel(vstd::arithmetic::power::pow, 9);
        assert(vstd::arithmetic::power::pow(256, 8) == 0x1_0000_0000_0000_0000);
    }
}

/// The 16-bit big-endian number in bytes `i` and `i + 1` of `b`.
pub open spec fn be16_at(b: Seq<u8>, i: int) -> int {
    b[i] * 0x100 + b[i + 1]
}

/// The 32-bit big-endian number in bytes `i` to `i + 3` of `b`.
pub open spec fn be32_at(b: Seq<u8>, i: int) -> int {
    b[i] * 0x100_0000 + b[i + 1] * 0x1_0000 + b[i + 2] * 0x100 + b[i + 3]
}

/// The 64-bit big-endian number in bytes `i` to `i + 7` of `b`.
pub open spec fn be64_at(b: Seq<u8>, i: int) -> int {
    be32_at(b, i) * 0x1_0000_0000 + be32_at(b, i + 4)
}

/// One more byte shifts the value up by a byte.
pub proof fn lemma_be_value_step(s: Seq<u8>, k: int)
    requires
        0 <= k < s.len(),
    ensures
        be_value(s.take(k + 1)) == be_value(s.take(k)) * 256 + s[k],
{
    assert(s.take(k + 1).drop_last() == s.take(k));
}

/// The value of two, four and eight bytes, written out.
pub proof fn lemma_be_value_small(b: Seq<u8>)
    ensures
        b.len() == 2 ==> be_value(b) == be16_at(b, 0),
        b.len() == 4 ==> be_value(b) == be32_at(b, 0),
        b.len() == 8 ==> be_value(b) == be64_at(b, 0),
{
    if b.len() == 2 || b.len() == 4 || b.len() == 8 {
        assert(b.take(0) == Seq::<u8>::empty());
        lemma_be_value_step(b, 0);
        lemma_be_value_step(b, 1);
        if b.len() >= 4 {
            lemma_be_value_step(b, 2);
            lemma_be_value_step(b, 3);
        }
        if b.len() == 8 {
            lemma_be_value_step(b, 4);
            lemma_be_value_step(b, 5);
            lemma_be_value_step(b, 6);
            lemma_be_value_step(b, 7);
        }
        assert(b.take(b.len() as int) == b);
    }
}

/// The `n`-byte encoding of a value that fits reads back as that value,
/// for `n` of 2, 4 and 8.
pub proof fn lemma_be_bytes_small(v: nat, n: nat)
    requires
        n == 2 && v < 0x1_0000 || n == 4 && v < 0x1_0000_0000 || n == 8 && v
            < 0x1_0000_0000_0000_0000,
    ensures
        be_bytes(v, n).len() == n,
        n == 2 ==> be16_at(be_bytes(v, n), 0) == v,
        n == 4 ==> be32_at(be_bytes(v, n), 0) == v,
        n == 8 ==> be64_at(be_bytes(v, n), 0) == v,
{
    reveal_with_fuel(vstd::arithmetic::power::pow, 9);
    assert(vstd::arithmetic::power::pow(256, 2) == 0x1_0000);
    assert(vstd::arithmetic::power::pow(256, 4) == 0x1_0000_0000);
    assert(vstd::arithmetic::power::pow(256, 8) == 0x1_0000_0000_0000_0000);
    lemma_be_roundtrip(v, n);
    lemma_be_value_small(be_bytes(v, n));
}

/// Bytes `i..i + n` of `b` hold the `n`-byte encoding of `v`: reading them
/// gives `v` back.
pub proof fn lemma_be_bytes_at(b: Seq<u8>, i: int, v: nat, n: nat)
    requires
        n == 2 && v < 0x1_0000 || n == 4 && v < 0x1_0000_0000 || n == 8 && v
            < 0x1_0000_0000_0000_0000,
        0 <= i,
        i + n <= b.len(),
        b.subrange(i, i + n) == be_bytes(v, n),
    ensures
        n == 2 ==> be16_at(b, i) == v,
        n == 4 ==> be32_at(b, i) == v,
        n == 8 ==> be64_at(b, i) == v,
{
    lemma_be_bytes_small(v, n);
    let x = b.subrange(i, i + n);
    assert(forall|j: int| 0 <= j < n ==> #[trigger] x[j] == b[i + j]);
}

/// Big-endian value of the first four bytes of `buf`, read by
/// `byteorder::BigEndian::read_u32`, which converts `buf[..4]` with
/// `u32::from_be_bytes` and panics on a shorter buffer.
#[verifier::external_body]
pub(crate) fn read_be_u32(buf: &[u8]) -> (r: u32)
    requires
        buf@.len() >= 4,
    ensures
        r as nat == be_value(buf@.take(4)),
{
    BigEndian::read_u32(buf)
}

/// Big-endian value of the first eight bytes of `buf`, read by
/// `byteorder::BigEndian::read_u64`, which converts `buf[..8]` with
/// `u64::from_be_bytes` and panics on a shorter buffer.
#[verifier::external_body]
pub(crate) fn read_be_u64(buf: &[u8]) -> (r: u64)
    requires
        buf@.len() >= 8,
    ensures
        r as nat == be_value(buf@.take(8)),
{
    BigEndian::read_u64(buf)
}

/// Encoding of `n` written by `byteorder::BigEndian::write_u16` into a
/// two-byte buffer (`u16::to_be_bytes`).
#[verifier::external_body]
pub(crate) fn write_be_u16(n: u16) -> (r: [u8; 2])
    ensures
        r@ == be_bytes(n as nat, 2),
{
    let mut buf = [0u8; 2];
    BigEndian::write_u16(&mut buf, n);
    buf
}

/// Encoding of `n` written by `byteorder::BigEndian::write_i16` into a
/// two-byte buffer: the two's-complement bits of `n`, as `n as u16`.
#[verifier::external_body]
pub(crate) fn write_be_i16(n: i16) -> (r: [u8; 2])
    ensures
        r@ == be_bytes((n as u16) as nat, 2),
{
    let mut buf = [0u8; 2];
    BigEndian::write_i16(&mut buf, n);
    buf
}

/// Encoding of `n` written by `byteorder::BigEndian::write_u32` into a
/// four-byte buffer (`u32::to_be_bytes`).
#[verifier::external_body]
pub(crate) fn write_be_u32(n: u32) -> (r: [u8; 4])
    ensures
        r@ == be_bytes(n as nat, 4),
{
    let mut buf = [0u8; 4];
    BigEndian::write_u32(&mut buf, n);
    buf
}

/// Encoding of `n` written by `byteorder::BigEndian::write_u64` into an
/// eight-byte buffer (`u64::to_be_bytes`).
#[verifier::external_body]
pub(crate) fn write_be_u64(n: u64) -> (r: [u8; 8])
    ensures
        r@ == be_bytes(n as nat, 8),
{
    let mut buf = [0u8; 8];
    BigEndian::write_u64(&mut buf, n);
    buf
}

/// Appends every byte of `bytes` to `buf`, in order.
pub(crate) fn append_bytes(buf: &mut Vec<u8>, bytes: &[u8])
    ensures
        final(buf)@ == old(buf)@ + bytes@,
{
    let ghost start = buf@;
    let mut i: usize = 0;
    while i < bytes.len()
        invariant
            i <= bytes@.len(),
            buf@ == start + bytes@.take(i as int),
        decreases bytes@.len() - i,
    {
        buf.push(bytes[i]);
        assert(bytes@.take(i + 1) == bytes@.take(i as int).push(bytes@[i as int]));
        i = i + 1;
    }
    assert(bytes@.take(bytes@.len() as int) == bytes@);
}

} // verus!
