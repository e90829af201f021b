//! Fixed-width little-endian encoding of `u128` counters.

use vstd::prelude::*;

verus! {

/// Number of bytes a stored counter occupies.
pub const VALUE_LEN: usize = 16;

/// 256 raised to the power `n`.
pub open spec fn pow256(n: nat) -> nat
    decreases n,
{
    if n == 0 {
        1
    } else {
        256 * pow256((n - 1) as nat)
    }
}

/// The number that `bytes` denotes when read least significant byte first.
pub open spec fn le_value(bytes: Seq<u8>) -> nat
    decreases bytes.len(),
{
    if bytes.len() == 0 {
        0
    } else {
        bytes[0] as nat + 256 * le_value(bytes.skip(1))
    }
}

/// The `len` low-order base-256 digits of `n`, least significant first.
pub open spec fn le_bytes(n: nat, len: nat) -> Seq<u8>
    decreases len,
{
    if len == 0 {
        Seq::empty()
    } else {
        seq![(n % 256) as u8] + le_bytes(n / 256, (len - 1) as nat)
    }
}

/// The stored form of a counter: exactly sixteen bytes, little-endian.
pub open spec fn encode_u128(value: u128) -> Seq<u8> {
    le_bytes(value as nat, 16)
}

/// The counter that a stored value denotes. A value of fewer than sixteen
/// bytes reads as zero; of a longer one only the first sixteen bytes count.
pub open spec fn decode_u128(bytes: Seq<u8>) -> u128 {
    if bytes.len() >= 16 {
        le_value(bytes.subrange(0, 16)) as u128
    } else {
        0
    }
}

pub proof fn lemma_pow256_monotonic(a: nat, b: nat)
    requires
        a <= b,
    ensures
        pow256(a) <= pow256(b),
        pow256(a) >= 1,
    decreases b,
{
    if a == 0 {
        if b > 0 {
            lemma_pow256_monotonic(0, (b - 1) as nat);
        }
    } else {
        lemma_pow256_monotonic((a - 1) as nat, (b - 1) as nat);
    }
}

pub proof fn lemma_pow256_16()
    ensures
        pow256(16) == 0x1_0000_0000_0000_0000_0000_0000_0000_0000,
{
    reveal_with_fuel(pow256, 17);
}

/// A little-endian number of `n` bytes is below `256^n`.
pub proof fn lemma_le_value_bound(bytes: Seq<u8>)
    ensures
        le_value(bytes) < pow256(bytes.len()),
    decreases bytes.len(),
{
    if bytes.len() > 0 {
        lemma_le_value_bound(bytes.skip(1));
    }
}

pub proof fn lemma_le_bytes_len(n: nat, len: nat)
    ensures
        le_bytes(n, len).len() == len,
    decreases len,
{
    if len > 0 {
        lemma_le_bytes_len(n / 256, (len - 1) as nat);
    }
}

/// Reading back the `len` digits of a number below `256^len` gives the number.
pub proof fn lemma_le_value_of_le_bytes(n: nat, len: nat)
    requires
        n < pow256(len),
    ensures
        le_value(le_bytes(n, len)) == n,
    decreases len,
{
    if len > 0 {
        let rest = le_bytes(n / 256, (len - 1) as nat);
        lemma_le_value_of_le_bytes(n / 256, (len - 1) as nat);
        lemma_le_bytes_len(n / 256, (len - 1) as nat);
        assert(le_bytes(n, len).skip(1) =~= rest);
    }
}

/// Writing out the digits of a little-endian number gives its bytes back.
pub proof fn lemma_le_bytes_of_le_value(bytes: Seq<u8>)
    ensures
        le_bytes(le_value(bytes), bytes.len()) == bytes,
    decreases bytes.len(),
{
    if bytes.len() > 0 {
        let tail = bytes.skip(1);
        lemma_le_bytes_of_le_value(tail);
        let n = le_value(bytes);
        assert(n % 256 == bytes[0] as nat);
        assert(n / 256 == le_value(tail));
        assert(le_bytes(n, bytes.len()) =~= bytes);
    }
}

/// Law: a counter survives being stored and read back.
pub proof fn lemma_decode_encode(value: u128)
    ensures
        encode_u128(value).len() == 16,
        decode_u128(encode_u128(value)) == value,
{
    lemma_pow256_16();
    lemma_le_bytes_len(value as nat, 16);
    lemma_le_value_of_le_bytes(value as nat, 16);
    assert(encode_u128(value).subrange(0, 16) =~= encode_u128(value));
}

/// Law: a stored value of exactly sixteen bytes is the encoding of the
/// counter it denotes, so no two such values denote the same counter.
pub proof fn lemma_encode_decode(bytes: Seq<u8>)
    requires
        bytes.len() == 16,
    ensures
        encode_u128(decode_u128(bytes)) == bytes,
{
    lemma_pow256_16();
    lemma_le_value_bound(bytes);
    lemma_le_bytes_of_le_value(bytes);
    assert(bytes.subrange(0, 16) =~= bytes);
}

/// Encodes `value` as sixteen little-endian bytes.
pub fn u128_to_le_bytes(value: u128) -> (bytes: Vec<u8>)
    ensures
        bytes@ == encode_u128(value),
        bytes@.len() == 16,
{
    let mut bytes: Vec<u8> = Vec::new();
    let mut rest: u128 = value;
    let mut i: usize = 0;
    while i < VALUE_LEN
        invariant
            i <= 16,
            bytes@.len() == i,
            bytes@ + le_bytes(rest as nat, (16 - i) as nat) == le_bytes(value as nat, 16),
        decreases 16 - i,
    {
        let ghost before = bytes@;
        let digit: u8 = (rest % 256) as u8;
        bytes.push(digit);
        proof {
            let tail = le_bytes((rest / 256) as nat, (16 - i - 1) as nat);
            assert(le_bytes(rest as nat, (16 - i) as nat) == seq![digit] + tail);
            assert(bytes@ + tail =~= before + (seq![digit] + tail));
        }
        rest = rest / 256;
        i += 1;
    }
    assert(bytes@ + Seq::<u8>::empty() =~= bytes@);
    bytes
}

/// Decodes a stored value: the first sixteen bytes read little-endian, or
/// zero where fewer than sixteen bytes are stored.
pub fn u128_from_le_bytes(bytes: &Vec<u8>) -> (value: u128)
    ensures
        value == decode_u128(bytes@),
{
    if bytes.len() < VALUE_LEN {
        return 0;
    }
    let mut value: u128 = 0;
    let mut i: usize = VALUE_LEN;
    while i > 0
        invariant
            i <= 16,
            bytes@.len() >= 16,
            value == le_value(bytes@.subrange(i as int, 16)),
        decreases i,
    {
        i -= 1;
        proof {
            let suffix = bytes@.subrange(i as int, 16);
            assert(suffix.skip(1) =~= bytes@.subrange(i + 1, 16));
            assert(le_value(suffix) == bytes@[i as int] as nat + 256 * value as nat);
            lemma_le_value_bound(suffix);
            lemma_pow256_monotonic(suffix.len(), 16);
            lemma_pow256_16();
        }
        value = value * 256 + bytes[i] as u128;
    }
    value
}

} // verus!
