//! A seeded 32-bit mixing hash over arbitrary byte strings, together with the
//! little-endian decoder it is built on.
//!
//! All arithmetic on the hash state wraps at 32 bits; the per-word finishing
//! shift is 16 while the trailing-byte finishing shift is 24, and that
//! asymmetry is deliberate.

use vstd::prelude::*;

verus! {

/// Multiplier mixed into the hash state at every step.
pub const HASH_MULTIPLIER: u32 = 0xc6a4a793;

/// Seed reserved for the bloom filter's use of the mixing hash.
pub const BLOOM_HASH_SEED: u32 = 0xbc9f1d34;

/// The unsigned 32-bit integer stored little-endian in the first four bytes
/// of `s` (byte 0 is least significant).
pub open spec fn spec_decode_fixed32(s: Seq<u8>) -> u32
    recommends
        s.len() >= 4,
{
    (s[0] as u32) | ((s[1] as u32) << 8) | ((s[2] as u32) << 16) | ((s[3] as u32) << 24)
}

/// The four little-endian bytes of `v`, least significant first.
pub open spec fn spec_encode_fixed32(v: u32) -> Seq<u8> {
    seq![
        (v & 0xff) as u8,
        ((v >> 8) & 0xff) as u8,
        ((v >> 16) & 0xff) as u8,
        ((v >> 24) & 0xff) as u8,
    ]
}

/// Encoding any 32-bit value as four little-endian bytes and decoding them
/// again recovers that value.
pub proof fn lemma_decode_fixed32_round_trip(v: u32)
    ensures
        spec_decode_fixed32(spec_encode_fixed32(v)) == v,
{
    let s = spec_encode_fixed32(v);
    assert(s[0] == (v & 0xff) as u8);
    assert(s[1] == ((v >> 8) & 0xff) as u8);
    assert(s[2] == ((v >> 16) & 0xff) as u8);
    assert(s[3] == ((v >> 24) & 0xff) as u8);
    assert((((v & 0xff) as u8 as u32) | (((v >> 8) & 0xff) as u8 as u32) << 8 | (((v >> 16)
        & 0xff) as u8 as u32) << 16 | (((v >> 24) & 0xff) as u8 as u32) << 24) == v)
        by (bit_vector);
}

/// The hash state before any input bytes are mixed in: the seed xor-ed with
/// the wrapped product of the multiplier and the input length.
pub open spec fn spec_hash_init(len: nat, seed: u32) -> u32 {
    seed ^ HASH_MULTIPLIER.wrapping_mul(len as u32)
}

/// One round of the mixing hash: absorb one decoded 32-bit word.
pub open spec fn spec_hash_round(h: u32, w: u32) -> u32 {
    let hm = h.wrapping_add(w).wrapping_mul(HASH_MULTIPLIER);
    hm ^ (hm >> 16)
}

/// The hash state after the first `n` full 4-byte words of `data` have been
/// mixed into the initial state derived from `seed`.
pub open spec fn spec_hash_words(data: Seq<u8>, seed: u32, n: int) -> u32
    recommends
        0 <= n,
        4 * n <= data.len(),
    decreases n,
{
    if n <= 0 {
        spec_hash_init(data.len(), seed)
    } else {
        spec_hash_round(
            spec_hash_words(data, seed, n - 1),
            spec_decode_fixed32(data.subrange(4 * (n - 1), 4 * n)),
        )
    }
}

/// The finishing step over the 0 to 3 trailing bytes `rem`: each byte is
/// added at its position, then the state is multiplied and folded with a
/// 24-bit shift. With no trailing bytes the state is left untouched.
pub open spec fn spec_hash_tail(h: u32, rem: Seq<u8>) -> u32
    recommends
        rem.len() < 4,
{
    if rem.len() == 0 {
        h
    } else {
        let acc = if rem.len() == 3 {
            h.wrapping_add((rem[2] as u32) << 16).wrapping_add((rem[1] as u32) << 8).wrapping_add(
                rem[0] as u32,
            )
        } else if rem.len() == 2 {
            h.wrapping_add((rem[1] as u32) << 8).wrapping_add(rem[0] as u32)
        } else {
            h.wrapping_add(rem[0] as u32)
        };
        let hm = acc.wrapping_mul(HASH_MULTIPLIER);
        hm ^ (hm >> 24)
    }
}

/// The mixing hash of `data` under `seed`: the words of `data` absorbed in
/// order, then the trailing bytes folded in.
pub open spec fn spec_hash(data: Seq<u8>, seed: u32) -> u32 {
    let words = data.len() as int / 4;
    spec_hash_tail(spec_hash_words(data, seed, words), data.skip(4 * words))
}

/// The mixing hash under the seed reserved for the bloom filter.
pub open spec fn spec_bloom_hash(data: Seq<u8>) -> u32 {
    spec_hash(data, BLOOM_HASH_SEED)
}

/// Decodes four bytes as an unsigned 32-bit little-endian integer
/// (byte 0 is least significant). At least four bytes must be available.
pub fn decode_fixed32(encoded: &[u8]) -> (value: u32)
    requires
        encoded@.len() >= 4,
    ensures
        value == spec_decode_fixed32(encoded@),
{
    (encoded[0] as u32) | ((encoded[1] as u32) << 8) | ((encoded[2] as u32) << 16) | ((
    encoded[3] as u32) << 24)
}

/// The mixing hash of `data` under `seed`, computed four bytes at a time
/// with 32-bit wraparound arithmetic throughout.
#[verifier::loop_isolation(false)]
#[verifier::rlimit(50)]
fn hash(data: &[u8], seed: u32) -> (h: u32)
    ensures
        h == spec_hash(data@, seed),
{
    let m: u32 = HASH_MULTIPLIER;
    let len: usize = data.len();
    let mut h: u32 = seed ^ m.wrapping_mul(#[verifier::truncate] (len as u32));

    // Pick up four bytes at a time.
    let mut i: usize = 0;
    while len - i >= 4
        invariant
            len == data@.len(),
            i % 4 == 0,
            i <= len,
            h == spec_hash_words(data@, seed, i as int / 4),
        decreases len - i,
    {
        let ghost hprev: u32 = h;
        let ghost n: int = i as int / 4;
        let w: u32 = decode_fixed32(&data[i..i + 4]);
        h = h.wrapping_add(w);
        h = h.wrapping_mul(m);
        h = h ^ (h >> 16);
        proof {
            vstd::arithmetic::div_mod::lemma_fundamental_div_mod(i as int, 4);
            assert(data@.subrange(4 * n, 4 * n + 4) == data@.subrange(i as int, i as int + 4));
            assert(h == spec_hash_words(data@, seed, n + 1));
            vstd::arithmetic::div_mod::lemma_div_multiples_vanish(n + 1, 4);
        }
        i = i + 4;
    }

    proof {
        vstd::arithmetic::div_mod::lemma_round_down(i as int, len - i, 4);
        vstd::arithmetic::div_mod::lemma_div_multiples_vanish(i as int / 4, 4);
    }

    // Pick up the remaining bytes.
    let rem: usize = len - i;
    if rem == 3 {
        h = h.wrapping_add((data[i + 2] as u32) << 16);
        h = h.wrapping_add((data[i + 1] as u32) << 8);
        h = h.wrapping_add(data[i] as u32);
        h = h.wrapping_mul(m);
        h = h ^ (h >> 24);
    } else if rem == 2 {
        h = h.wrapping_add((data[i + 1] as u32) << 8);
        h = h.wrapping_add(data[i] as u32);
        h = h.wrapping_mul(m);
        h = h ^ (h >> 24);
    } else if rem == 1 {
        h = h.wrapping_add(data[i] as u32);
        h = h.wrapping_mul(m);
        h = h ^ (h >> 24);
    }
    h
}

/// The mixing hash of `data` under the fixed bloom filter seed.
pub fn bloom_hash(data: &[u8]) -> (h: u32)
    ensures
        h == spec_bloom_hash(data@),
{
    hash(data, BLOOM_HASH_SEED)
}

} // verus!
