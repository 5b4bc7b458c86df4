//! Invertible 64-bit integer hash used for k-mer sketching.

use vstd::prelude::*;

verus! {

/// The mixing function of minimap2, step by step over wrapping 64-bit
/// arithmetic.
pub open spec fn mm_hash_spec(kmer: u64) -> u64 {
    let k1 = !kmer.wrapping_add(kmer << 21u64);
    let k2 = k1 ^ (k1 >> 24u64);
    let k3 = k2.wrapping_add(k2 << 3u64).wrapping_add(k2 << 8u64);
    let k4 = k3 ^ (k3 >> 14u64);
    let k5 = k4.wrapping_add(k4 << 2u64).wrapping_add(k4 << 4u64);
    let k6 = k5 ^ (k5 >> 28u64);
    k6.wrapping_add(k6 << 31u64)
}

/// Hashes a 64-bit encoded k-mer with the minimap2 integer hash.
///
/// The function is a fixed bijection on `u64` with strong bit diffusion;
/// it keeps no state and does not allocate.
pub fn mm_hash64(kmer: u64) -> (r: u64)
    ensures
        r == mm_hash_spec(kmer),
{
    let mut key: u64 = kmer;
    key = !key.wrapping_add(key << 21u64);
    key = key ^ (key >> 24u64);
    key = key.wrapping_add(key << 3u64).wrapping_add(key << 8u64);
    key = key ^ (key >> 14u64);
    key = key.wrapping_add(key << 2u64).wrapping_add(key << 4u64);
    key = key ^ (key >> 28u64);
    key = key.wrapping_add(key << 31u64);
    key
}

proof fn lemma_step1_injective(a: u64, b: u64)
    requires
        !a.wrapping_add(a << 21u64) == !b.wrapping_add(b << 21u64),
    ensures
        a == b,
{
    assert(!a.wrapping_add(a << 21u64) == !b.wrapping_add(b << 21u64) ==> a == b) by (bit_vector);
}

proof fn lemma_xorshift_injective(a: u64, b: u64, shift: u64)
    requires
        shift == 14 || shift == 24 || shift == 28,
        a ^ (a >> shift) == b ^ (b >> shift),
    ensures
        a == b,
{
    assert(a ^ (a >> shift) == b ^ (b >> shift) && (shift == 14 || shift == 24 || shift == 28)
        ==> a == b) by (bit_vector);
}

proof fn lemma_step3_injective(a: u64, b: u64)
    requires
        a.wrapping_add(a << 3u64).wrapping_add(a << 8u64) == b.wrapping_add(b << 3u64).wrapping_add(
            b << 8u64,
        ),
    ensures
        a == b,
{
    assert(a.wrapping_add(a << 3u64).wrapping_add(a << 8u64) == b.wrapping_add(
        b << 3u64,
    ).wrapping_add(b << 8u64) ==> a == b) by (bit_vector);
}

proof fn lemma_step5_injective(a: u64, b: u64)
    requires
        a.wrapping_add(a << 2u64).wrapping_add(a << 4u64) == b.wrapping_add(b << 2u64).wrapping_add(
            b << 4u64,
        ),
    ensures
        a == b,
{
    assert(a.wrapping_add(a << 2u64).wrapping_add(a << 4u64) == b.wrapping_add(
        b << 2u64,
    ).wrapping_add(b << 4u64) ==> a == b) by (bit_vector);
}

proof fn lemma_step7_injective(a: u64, b: u64)
    requires
        a.wrapping_add(a << 31u64) == b.wrapping_add(b << 31u64),
    ensures
        a == b,
{
    assert(a.wrapping_add(a << 31u64) == b.wrapping_add(b << 31u64) ==> a == b) by (bit_vector);
}

/// The mixer is invertible: every step is a bijection of `u64`, so distinct
/// k-mers never share a hash.
pub proof fn lemma_mm_hash_injective(a: u64, b: u64)
    requires
        mm_hash_spec(a) == mm_hash_spec(b),
    ensures
        a == b,
{
    let a1 = !a.wrapping_add(a << 21u64);
    let b1 = !b.wrapping_add(b << 21u64);
    let a2 = a1 ^ (a1 >> 24u64);
    let b2 = b1 ^ (b1 >> 24u64);
    let a3 = a2.wrapping_add(a2 << 3u64).wrapping_add(a2 << 8u64);
    let b3 = b2.wrapping_add(b2 << 3u64).wrapping_add(b2 << 8u64);
    let a4 = a3 ^ (a3 >> 14u64);
    let b4 = b3 ^ (b3 >> 14u64);
    let a5 = a4.wrapping_add(a4 << 2u64).wrapping_add(a4 << 4u64);
    let b5 = b4.wrapping_add(b4 << 2u64).wrapping_add(b4 << 4u64);
    let a6 = a5 ^ (a5 >> 28u64);
    let b6 = b5 ^ (b5 >> 28u64);
    lemma_step7_injective(a6, b6);
    lemma_xorshift_injective(a5, b5, 28);
    lemma_step5_injective(a4, b4);
    lemma_xorshift_injective(a3, b3, 14);
    lemma_step3_injective(a2, b2);
    lemma_xorshift_injective(a1, b1, 24);
    lemma_step1_injective(a, b);
}

} // verus!
