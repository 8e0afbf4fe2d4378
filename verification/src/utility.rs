//! Fixed-width little-endian integer encoding and decoding.

use vstd::prelude::*;

verus! {

/// The little-endian encoding of `x` in exactly `width` bytes: the lowest
/// base-256 digit comes first. Digits beyond `width` are dropped.
pub open spec fn le_bytes(x: nat, width: nat) -> Seq<u8>
    decreases width,
{
    if width == 0 {
        Seq::empty()
    } else {
        seq![(x % 256) as u8] + le_bytes(x / 256, (width - 1) as nat)
    }
}

/// The number that `bytes` encodes in little-endian order.
pub open spec fn le_value(bytes: Seq<u8>) -> nat
    decreases bytes.len(),
{
    if bytes.len() == 0 {
        0
    } else {
        bytes[0] as nat + 256 * le_value(bytes.drop_first())
    }
}

/// `256` raised to the power `k`.
pub open spec fn radix_power(k: nat) -> nat
    decreases k,
{
    if k == 0 {
        1
    } else {
        256 * radix_power((k - 1) as nat)
    }
}

/// An encoding always has the width that was asked for.
pub proof fn lemma_le_bytes_len(x: nat, width: nat)
    ensures
        le_bytes(x, width).len() == width,
    decreases width,
{
    if width > 0 {
        lemma_le_bytes_len(x / 256, (width - 1) as nat);
    }
}

/// A little-endian value of `n` bytes is below `256^n`.
pub proof fn lemma_le_value_bound(bytes: Seq<u8>)
    ensures
        le_value(bytes) < radix_power(bytes.len()),
    decreases bytes.len(),
{
    if bytes.len() > 0 {
        lemma_le_value_bound(bytes.drop_first());
    }
}

/// Sixteen base-256 digits span exactly the range of a `u128`.
pub proof fn lemma_radix_power_16()
    ensures
        radix_power(16) == 0x1_0000_0000_0000_0000_0000_0000_0000_0000nat,
{
    reveal_with_fuel(radix_power, 17);
}

/// Decoding undoes encoding for every number that fits in `width` bytes.
pub proof fn lemma_le_round_trip(x: nat, width: nat)
    requires
        x < radix_power(width),
    ensures
        le_value(le_bytes(x, width)) == x,
    decreases width,
{
    if width > 0 {
        lemma_le_round_trip(x / 256, (width - 1) as nat);
        assert(le_bytes(x, width).drop_first() =~= le_bytes(x / 256, (width - 1) as nat));
    }
}

/// `256^k` grows with `k`.
pub proof fn lemma_radix_power_monotonic(a: nat, b: nat)
    requires
        a <= b,
    ensures
        radix_power(a) <= radix_power(b),
    decreases b,
{
    if a < b {
        lemma_radix_power_monotonic(a, (b - 1) as nat);
    }
}

/// Encodes `x` in `width` little-endian bytes.
fn le_encode(x: u128, width: usize) -> (out: Vec<u8>)
    ensures
        out@ == le_bytes(x as nat, width as nat),
{
    let mut out: Vec<u8> = Vec::new();
    let mut rest: u128 = x;
    let mut i: usize = 0;
    while i < width
        invariant
            i <= width,
            out@ + le_bytes(rest as nat, (width - i) as nat) == le_bytes(x as nat, width as nat),
        decreases width - i,
    {
        let low: u128 = rest & 0xff;
        let next: u128 = rest >> 8;
        proof {
            assert(low == rest % 256 && next == rest / 256) by (bit_vector)
                requires
                    low == rest & 0xff,
                    next == rest >> 8,
            ;
        }
        out.push(low as u8);
        rest = next;
        i = i + 1;
    }
    out
}

/// Appends a copy of `src` to `dst`.
pub fn append_bytes(dst: &mut Vec<u8>, src: &[u8])
    ensures
        final(dst)@ == old(dst)@ + src@,
{
    let mut i: usize = 0;
    while i < src.len()
        invariant
            i <= src@.len(),
            dst@ == old(dst)@ + src@.take(i as int),
        decreases src@.len() - i,
    {
        dst.push(src[i]);
        i = i + 1;
    }
}

/// Whether the two byte strings are equal.
pub fn same_bytes(a: &Vec<u8>, b: &Vec<u8>) -> (same: bool)
    ensures
        same == (a@ == b@),
{
    if a.len() != b.len() {
        return false;
    }
    let mut i: usize = 0;
    while i < a.len()
        invariant
            i <= a@.len(),
            a@.len() == b@.len(),
            forall|k: int| 0 <= k < i ==> a@[k] == b@[k],
        decreases a@.len() - i,
    {
        if a[i] != b[i] {
            return false;
        }
        i = i + 1;
    }
    assert(a@ =~= b@);
    true
}

/// The four little-endian bytes of a `u32`.
pub fn u32_bytes(u: &u32) -> (out: Vec<u8>)
    ensures
        out@ == le_bytes(*u as nat, 4),
        out@.len() == 4,
{
    proof {
        lemma_le_bytes_len(*u as nat, 4);
    }
    le_encode(*u as u128, 4)
}

/// The eight little-endian bytes of a `u64`.
pub fn u64_bytes(u: &u64) -> (out: Vec<u8>)
    ensures
        out@ == le_bytes(*u as nat, 8),
        out@.len() == 8,
{
    proof {
        lemma_le_bytes_len(*u as nat, 8);
    }
    le_encode(*u as u128, 8)
}

/// The sixteen little-endian bytes of a `u128`.
pub fn u128_bytes(u: &u128) -> (out: Vec<u8>)
    ensures
        out@ == le_bytes(*u as nat, 16),
        out@.len() == 16,
{
    proof {
        lemma_le_bytes_len(*u as nat, 16);
    }
    le_encode(*u, 16)
}

/// The part of a 32-byte digest that is compared with a difficulty
/// threshold: its last sixteen bytes.
pub open spec fn difficulty_window(hash: Seq<u8>) -> Seq<u8> {
    hash.subrange(16, 32)
}

/// Reads the last sixteen bytes of a 32-byte digest as one little-endian
/// number; byte 16 is the least significant, byte 31 the most.
pub fn difficulty_bytes_as_u128(v: &Vec<u8>) -> (value: u128)
    requires
        v@.len() == 32,
    ensures
        value as nat == le_value(difficulty_window(v@)),
{
    let mut value: u128 = 0;
    let mut i: usize = 32;
    while i > 16
        invariant
            16 <= i <= 32,
            v@.len() == 32,
            value as nat == le_value(v@.subrange(i as int, 32)),
        decreases i,
    {
        i = i - 1;
        proof {
            let upper = v@.subrange(i + 1, 32);
            assert(v@.subrange(i as int, 32).drop_first() =~= upper);
            lemma_le_value_bound(upper);
            lemma_radix_power_monotonic(upper.len(), 15);
            lemma_radix_power_16();
        }
        value = value * 256 + v[i] as u128;
    }
    value
}

} // verus!
