//! A build-once, query-many bloom filter: a compact bit-array summary of a
//! key set that answers "might this key exist?" with no false negatives for
//! keys that were inserted, at the price of a tunable false-positive rate.

use vstd::prelude::*;

pub mod hash;

verus! {

use crate::hash::{bloom_hash, spec_bloom_hash};

/// Bloom filter builder and reader: probe count `k` and the configured
/// bits-per-key ratio.
pub struct BloomFilter {
    k: usize,
    bits_per_key: usize,
}

impl BloomFilter {
    /// The probe count.
    pub closed spec fn spec_k(&self) -> int {
        self.k as int
    }

    /// The configured bits-per-key ratio.
    pub closed spec fn spec_bits_per_key(&self) -> int {
        self.bits_per_key as int
    }

    /// Well-formed: the probe count lies in the supported range.
    pub open spec fn wf(&self) -> bool {
        1 <= self.spec_k() <= 30
    }
}

/// The probe count derived from a bits-per-key ratio: `bits_per_key * 0.69`
/// rounded down (0.69 approximates ln 2, the optimal ratio of probes to
/// bits per key), clamped to the supported range `1..=30`.
pub open spec fn spec_derived_k(bits_per_key: int) -> int {
    let k0 = bits_per_key * 69 / 100;
    if k0 < 1 {
        1
    } else if k0 > 30 {
        30
    } else {
        k0
    }
}

impl BloomFilter {
    /// Creates a filter configuration from a bits-per-key ratio, deriving
    /// the probe count as `spec_derived_k` describes.
    pub fn new(bits_per_key: usize) -> (filter: BloomFilter)
        ensures
            filter.wf(),
            filter.spec_k() == spec_derived_k(bits_per_key as int),
            filter.spec_bits_per_key() == bits_per_key,
    {
        // bits_per_key * 0.69 rounded down, written with integers as
        // bits_per_key * 69 / 100. From 44 upward the ratio reaches the
        // upper clamp of 30, so the product need not be formed at all,
        // which also rules out overflow.
        let mut k: usize = if bits_per_key >= 44 {
            30
        } else {
            bits_per_key * 69 / 100
        };
        proof {
            if bits_per_key >= 44 {
                vstd::arithmetic::mul::lemma_mul_inequality(44, bits_per_key as int, 69);
                vstd::arithmetic::div_mod::lemma_div_is_ordered(
                    44int * 69,
                    bits_per_key as int * 69,
                    100,
                );
            }
        }
        if k < 1 {
            k = 1;
        }
        if k > 30 {
            k = 30;
        }
        BloomFilter { k, bits_per_key }
    }
}

/// The probe offset for a key whose bloom hash is `h`: `h` rotated right by
/// 17 bits (a rotation, not a shift: the low 17 bits wrap to the top).
pub open spec fn spec_probe_delta(h: u32) -> u32 {
    (h >> 17) | (h << 15)
}

/// The hash value used by probe number `j` of a key whose bloom hash is
/// `h0`: the bloom hash advanced `j` times by the probe offset, wrapping.
pub open spec fn spec_probe_hash(h0: u32, j: int) -> u32
    recommends
        0 <= j,
    decreases j,
{
    if j <= 0 {
        h0
    } else {
        spec_probe_hash(h0, j - 1).wrapping_add(spec_probe_delta(h0))
    }
}

/// The bit index that probe number `j` of `key` touches in a bit array of
/// `bits` bits.
pub open spec fn spec_probe_bit(key: Seq<u8>, bits: int, j: int) -> int {
    spec_probe_hash(spec_bloom_hash(key), j) as int % bits
}

/// Whether bit number `i` of the bit array `f` is set: bit `i` lives in byte
/// `i / 8` at position `i % 8`, least significant bit first.
pub open spec fn spec_bit_set(f: Seq<u8>, i: int) -> bool
    recommends
        0 <= i < 8 * f.len(),
{
    f[i / 8] & (1u8 << ((i % 8) as u32)) != 0
}

/// The number of bit-array bytes allotted to `n` keys at `bits_per_key`
/// bits each: `max(64, n * bits_per_key)` bits, rounded up to whole bytes.
pub open spec fn spec_filter_bytes(bits_per_key: int, n: int) -> int {
    let bits = if n * bits_per_key < 64 {
        64int
    } else {
        n * bits_per_key
    };
    (bits + 7) / 8
}

/// Some probe among `0..k` of one of the first `upto` keys lands on bit `i`
/// of a `bits`-bit array.
pub open spec fn spec_keys_hit_before(
    keys: Seq<Vec<u8>>,
    upto: int,
    k: int,
    bits: int,
    i: int,
) -> bool {
    exists|t: int, j: int|
        0 <= t < upto && 0 <= j < k && spec_probe_bit(keys[t]@, bits, j) == i
}

/// Some probe among `0..k` of some key in `keys` lands on bit `i` of a
/// `bits`-bit array.
pub open spec fn spec_keys_hit(keys: Seq<Vec<u8>>, k: int, bits: int, i: int) -> bool {
    spec_keys_hit_before(keys, keys.len() as int, k, bits, i)
}

/// `f` is the filter this system builds over `keys` with probe count `k`
/// and ratio `bits_per_key`: a bit array of `spec_filter_bytes` bytes in
/// which exactly the probed bits are set, then one trailing byte holding
/// `k`.
pub open spec fn spec_is_filter_for(
    k: int,
    bits_per_key: int,
    keys: Seq<Vec<u8>>,
    f: Seq<u8>,
) -> bool {
    let bytes = spec_filter_bytes(bits_per_key, keys.len() as int);
    &&& f.len() == bytes + 1
    &&& f[bytes] == k
    &&& forall|i: int|
        0 <= i < 8 * bytes ==> (#[trigger] spec_bit_set(f, i) <==> spec_keys_hit(
            keys,
            k,
            8 * bytes,
            i,
        ))
}

/// Probe number `j` of `key` finds its bit set in the raw filter bytes `f`
/// (whose final byte is the stored probe count, not part of the bit array).
pub open spec fn spec_probe_finds_bit(key: Seq<u8>, f: Seq<u8>, j: int) -> bool {
    spec_bit_set(f, spec_probe_bit(key, 8 * (f.len() - 1), j))
}

/// What a query for `key` against the raw filter bytes `f` reports: a
/// filter shorter than two bytes matches nothing; a stored probe count
/// above 30 marks an unrecognised format and matches everything; otherwise
/// the key may be present exactly when every probe finds its bit set.
pub open spec fn spec_key_may_match(key: Seq<u8>, f: Seq<u8>) -> bool {
    if f.len() < 2 {
        false
    } else if f.last() > 30 {
        true
    } else {
        forall|j: int| 0 <= j < f.last() ==> #[trigger] spec_probe_finds_bit(key, f, j)
    }
}

/// Some probe among `0..jn` of `key` lands on bit `i` of a `bits`-bit
/// array.
spec fn spec_key_probe_before(key: Seq<u8>, jn: int, bits: int, i: int) -> bool {
    exists|j: int| 0 <= j < jn && spec_probe_bit(key, bits, j) == i
}

impl BloomFilter {
    /// Builds the filter over `keys`: a zero-initialised bit array of
    /// `spec_filter_bytes` bytes in which each key sets its `k` probed bits
    /// by double hashing, followed by one trailing byte holding the probe
    /// count `k`. Keys set bits independently, so the outcome does not
    /// depend on their order. The bound on `keys@.len() * bits_per_key`
    /// keeps the bit count well inside a 32-bit index, which the probe
    /// arithmetic needs.
    #[verifier::loop_isolation(false)]
    #[verifier::rlimit(50)]
    pub fn create_filter(&self, keys: &[Vec<u8>]) -> (filter: Vec<u8>)
        requires
            self.wf(),
            keys@.len() * self.spec_bits_per_key() <= 0x4000_0000,
        ensures
            spec_is_filter_for(self.spec_k(), self.spec_bits_per_key(), keys@, filter@),
            filter@.len() == spec_filter_bytes(self.spec_bits_per_key(), keys@.len() as int) + 1,
    {
        let mut bits: usize = keys.len() * self.bits_per_key;
        if bits < 64 {
            bits = 64;
        }
        let bytes: usize = (bits + 7) / 8;
        proof {
            vstd::arithmetic::div_mod::lemma_div_is_ordered(71, bits as int + 7, 8);
            vstd::arithmetic::div_mod::lemma_div_is_ordered(bits as int + 7, 0x4000_0007, 8);
        }
        let bits: usize = bytes * 8;
        assert(bytes == spec_filter_bytes(self.spec_bits_per_key(), keys@.len() as int));
        assert(8 <= bytes && bits == 8 * bytes && bits <= 0x4000_0008);

        let mut filter: Vec<u8> = Vec::new();
        let mut zi: usize = 0;
        while zi < bytes
            invariant
                filter@.len() == zi,
                zi <= bytes,
                forall|b: int| 0 <= b < zi ==> filter@[b] == 0,
            decreases bytes - zi,
        {
            filter.push(0);
            zi = zi + 1;
        }
        filter.push(self.k as u8);

        let ghost gkeys: Seq<Vec<u8>> = keys@;
        let ghost gk: int = self.spec_k();
        let ghost gbits: int = bits as int;

        proof {
            assert forall|i: int| 0 <= i < gbits implies !spec_bit_set(filter@, i) by {
                lemma_bit_index(i, bytes as int);
                lemma_zero_byte_bit((i % 8) as u32);
            }
        }

        let mut t: usize = 0;
        while t < keys.len()
            invariant
                t <= gkeys.len(),
                filter@.len() == bytes + 1,
                filter@[bytes as int] == gk,
                forall|i: int|
                    0 <= i < gbits ==> (#[trigger] spec_bit_set(filter@, i)
                        <==> spec_keys_hit_before(gkeys, t as int, gk, gbits, i)),
            decreases gkeys.len() - t,
        {
            let key: &Vec<u8> = &keys[t];
            let mut h: u32 = bloom_hash(key.as_slice());
            // The hash rotated right by 17 bits.
            let delta: u32 = (h >> 17) | (h << 15);
            let ghost h0: u32 = h;
            let mut j: usize = 0;
            while j < self.k
                invariant
                    j <= self.k,
                    h == spec_probe_hash(h0, j as int),
                    filter@.len() == bytes + 1,
                    filter@[bytes as int] == gk,
                    forall|i: int|
                        0 <= i < gbits ==> (#[trigger] spec_bit_set(filter@, i)
                            <==> (spec_keys_hit_before(gkeys, t as int, gk, gbits, i)
                                || spec_key_probe_before(gkeys[t as int]@, j as int, gbits, i))),
                decreases self.k - j,
            {
                let bitpos: usize = (h % (bits as u32)) as usize;
                proof {
                    vstd::arithmetic::div_mod::lemma_mod_division_less_than_divisor(
                        h as int,
                        gbits,
                    );
                    lemma_bit_index(bitpos as int, bytes as int);
                    assert(bitpos as int == spec_probe_bit(gkeys[t as int]@, gbits, j as int));
                }
                let ghost fprev: Seq<u8> = filter@;
                let mask: u8 = 1u8 << ((bitpos % 8) as u32);
                let b: u8 = filter[bitpos / 8];
                filter[bitpos / 8] = b | mask;
                proof {
                    lemma_set_bit(fprev, filter@, bitpos as int, gbits);
                    let gkey = gkeys[t as int]@;
                    assert forall|i: int|
                        0 <= i < gbits implies (#[trigger] spec_bit_set(filter@, i)
                        <==> (spec_keys_hit_before(gkeys, t as int, gk, gbits, i)
                            || spec_key_probe_before(gkey, j as int + 1, gbits, i))) by {
                        if spec_bit_set(filter@, i) {
                            if spec_bit_set(fprev, i) {
                                if spec_key_probe_before(gkey, j as int, gbits, i) {
                                    let j2 = choose|j2: int|
                                        0 <= j2 < j as int && spec_probe_bit(gkey, gbits, j2)
                                            == i;
                                    assert(0 <= j2 < j as int + 1 && spec_probe_bit(
                                        gkey,
                                        gbits,
                                        j2,
                                    ) == i);
                                }
                            } else {
                                assert(i == bitpos as int);
                                assert(0 <= (j as int) < j as int + 1 && spec_probe_bit(
                                    gkey,
                                    gbits,
                                    j as int,
                                ) == i);
                            }
                        }
                        if spec_key_probe_before(gkey, j as int + 1, gbits, i) {
                            let j2 = choose|j2: int|
                                0 <= j2 < j as int + 1 && spec_probe_bit(gkey, gbits, j2) == i;
                            if j2 < j as int {
                                assert(spec_key_probe_before(gkey, j as int, gbits, i));
                            } else {
                                assert(i == bitpos as int);
                            }
                        }
                    }
                }
                h = h.wrapping_add(delta);
                j = j + 1;
            }
            proof {
                let gkey = gkeys[t as int]@;
                assert forall|i: int|
                    0 <= i < gbits implies (#[trigger] spec_bit_set(filter@, i)
                    <==> spec_keys_hit_before(gkeys, t as int + 1, gk, gbits, i)) by {
                    if spec_bit_set(filter@, i) {
                        if spec_keys_hit_before(gkeys, t as int, gk, gbits, i) {
                            let (t2, j2) = choose|t2: int, j2: int|
                                0 <= t2 < t as int && 0 <= j2 < gk && spec_probe_bit(
                                    gkeys[t2]@,
                                    gbits,
                                    j2,
                                ) == i;
                            assert(0 <= t2 < t as int + 1 && 0 <= j2 < gk && spec_probe_bit(
                                gkeys[t2]@,
                                gbits,
                                j2,
                            ) == i);
                        } else {
                            let j2 = choose|j2: int|
                                0 <= j2 < gk && spec_probe_bit(gkey, gbits, j2) == i;
                            assert(0 <= (t as int) < t as int + 1 && 0 <= j2 < gk
                                && spec_probe_bit(gkeys[t as int]@, gbits, j2) == i);
                        }
                    }
                    if spec_keys_hit_before(gkeys, t as int + 1, gk, gbits, i) {
                        let (t2, j2) = choose|t2: int, j2: int|
                            0 <= t2 < t as int + 1 && 0 <= j2 < gk && spec_probe_bit(
                                gkeys[t2]@,
                                gbits,
                                j2,
                            ) == i;
                        if t2 == t as int {
                            assert(spec_key_probe_before(gkey, gk, gbits, i));
                        } else {
                            assert(spec_keys_hit_before(gkeys, t as int, gk, gbits, i));
                        }
                    }
                }
            }
            t = t + 1;
        }
        filter
    }

    /// Queries the raw filter bytes `bloom_filter` for `key`. `false` means
    /// the key is definitely absent; `true` means it may be present. A
    /// filter shorter than two bytes matches nothing, and a stored probe
    /// count above 30 is treated as an unrecognised format that may match
    /// anything. The bound on the filter length keeps the bit count inside
    /// a 32-bit index, which the probe arithmetic needs.
    #[verifier::loop_isolation(false)]
    pub fn key_may_match(&self, key: &[u8], bloom_filter: &[u8]) -> (may_match: bool)
        requires
            bloom_filter@.len() <= 0x1000_0000,
        ensures
            may_match == spec_key_may_match(key@, bloom_filter@),
            bloom_filter@.len() < 2 ==> !may_match,
    {
        let len: usize = bloom_filter.len();

        if len < 2 {
            return false;
        }
        let bits: usize = (len - 1) * 8;

        let k: u8 = bloom_filter[len - 1];
        if k > 30 {
            // Reserved for a potential new encoding: treat it as a match.
            return true;
        }
        let mut h: u32 = bloom_hash(key);
        // The hash rotated right by 17 bits, exactly as in construction.
        let delta: u32 = (h >> 17) | (h << 15);
        let ghost h0: u32 = h;
        let mut j: usize = 0;
        while j < k as usize
            invariant
                j <= k as usize,
                h == spec_probe_hash(h0, j as int),
                forall|p: int| 0 <= p < j ==> #[trigger] spec_probe_finds_bit(key@, bloom_filter@, p),
            decreases k as usize - j,
        {
            let bitpos: usize = (h % (bits as u32)) as usize;
            proof {
                vstd::arithmetic::div_mod::lemma_mod_division_less_than_divisor(
                    h as int,
                    bits as int,
                );
                lemma_bit_index(bitpos as int, (len - 1) as int);
                assert(bitpos as int == spec_probe_bit(key@, bits as int, j as int));
            }
            if bloom_filter[bitpos / 8] & (1u8 << ((bitpos % 8) as u32)) == 0 {
                proof {
                    assert(!spec_probe_finds_bit(key@, bloom_filter@, j as int));
                }
                return false;
            }
            h = h.wrapping_add(delta);
            j = j + 1;
        }
        true
    }
}

/// No false negatives: a query against a filter built over `keys`, for any
/// key among them, always reports a possible match.
pub proof fn lemma_no_false_negatives(
    k: int,
    bits_per_key: int,
    keys: Seq<Vec<u8>>,
    f: Seq<u8>,
    t: int,
)
    requires
        1 <= k <= 30,
        spec_is_filter_for(k, bits_per_key, keys, f),
        0 <= t < keys.len(),
    ensures
        spec_key_may_match(keys[t]@, f),
{
    let bytes = spec_filter_bytes(bits_per_key, keys.len() as int);
    let bits = 8 * bytes;
    assert(bytes >= 8) by {
        vstd::arithmetic::div_mod::lemma_div_is_ordered(
            71,
            (if keys.len() * bits_per_key < 64 {
                64int
            } else {
                keys.len() * bits_per_key
            }) + 7,
            8,
        );
    };
    assert(f.last() == k);
    assert forall|j: int| 0 <= j < f.last() implies #[trigger] spec_probe_finds_bit(
        keys[t]@,
        f,
        j,
    ) by {
        let pos = spec_probe_bit(keys[t]@, bits, j);
        vstd::arithmetic::div_mod::lemma_mod_division_less_than_divisor(
            spec_probe_hash(spec_bloom_hash(keys[t]@), j) as int,
            bits,
        );
        assert(spec_keys_hit(keys, k, bits, pos));
        assert(spec_bit_set(f, pos));
    }
}

/// Determinism: the filter contract pins every byte, so any two filters
/// built from the same probe count, ratio and key sequence are
/// byte-identical.
pub proof fn lemma_create_filter_deterministic(
    k: int,
    bits_per_key: int,
    keys: Seq<Vec<u8>>,
    f1: Seq<u8>,
    f2: Seq<u8>,
)
    requires
        spec_is_filter_for(k, bits_per_key, keys, f1),
        spec_is_filter_for(k, bits_per_key, keys, f2),
    ensures
        f1 == f2,
{
    let bytes = spec_filter_bytes(bits_per_key, keys.len() as int);
    assert forall|b: int| 0 <= b < f1.len() implies f1[b] == f2[b] by {
        if b < bytes {
            assert forall|s: u32|
                s < 8 implies ((#[trigger] (f1[b] & (1u8 << s)) != 0) <==> (f2[b] & (1u8 << s)
                != 0)) by {
                let i = 8 * b + s;
                lemma_bit_index_of(b, s as int);
                assert(spec_bit_set(f1, i) <==> spec_keys_hit(keys, k, 8 * bytes, i));
                assert(spec_bit_set(f2, i) <==> spec_keys_hit(keys, k, 8 * bytes, i));
            }
            lemma_byte_eq_by_bits(f1[b], f2[b]);
        }
    }
    assert(f1 =~= f2);
}

/// A bit index `i` within a `len`-byte bit array splits into byte `i / 8`
/// and bit position `i % 8`.
proof fn lemma_bit_index(i: int, len: int)
    requires
        0 <= i < 8 * len,
    ensures
        0 <= i / 8 < len,
        0 <= i % 8 < 8,
        i == 8 * (i / 8) + (i % 8),
{
    vstd::arithmetic::div_mod::lemma_fundamental_div_mod(i, 8);
    vstd::arithmetic::div_mod::lemma_mod_division_less_than_divisor(i, 8);
}

/// Conversely, byte `b` and bit position `t` correspond to bit index
/// `8 * b + t` and to no other.
proof fn lemma_bit_index_of(b: int, t: int)
    requires
        0 <= b,
        0 <= t < 8,
    ensures
        (8 * b + t) / 8 == b,
        (8 * b + t) % 8 == t,
{
    vstd::arithmetic::div_mod::lemma_fundamental_div_mod(8 * b + t, 8);
    vstd::arithmetic::div_mod::lemma_mod_division_less_than_divisor(8 * b + t, 8);
}

/// A zero byte has no bit set.
proof fn lemma_zero_byte_bit(t: u32)
    by (bit_vector)
    requires
        t < 8,
    ensures
        0u8 & (1u8 << t) == 0,
{
}

/// Or-ing a single-bit mask into a byte sets that bit and leaves every
/// other bit as it was.
proof fn lemma_or_mask_bit(b: u8, s: u32, t: u32)
    by (bit_vector)
    requires
        s < 8,
        t < 8,
    ensures
        (b | (1u8 << s)) & (1u8 << s) != 0,
        s != t ==> ((b | (1u8 << s)) & (1u8 << t)) == (b & (1u8 << t)),
{
}

/// Two bytes that agree on all eight bits are equal.
proof fn lemma_byte_eq_by_bits(x: u8, y: u8)
    requires
        forall|t: u32| t < 8 ==> ((#[trigger] (x & (1u8 << t)) != 0) <==> (y & (1u8 << t) != 0)),
    ensures
        x == y,
{
    assert((x & (1u8 << 0u32) != 0) == (y & (1u8 << 0u32) != 0));
    assert((x & (1u8 << 1u32) != 0) == (y & (1u8 << 1u32) != 0));
    assert((x & (1u8 << 2u32) != 0) == (y & (1u8 << 2u32) != 0));
    assert((x & (1u8 << 3u32) != 0) == (y & (1u8 << 3u32) != 0));
    assert((x & (1u8 << 4u32) != 0) == (y & (1u8 << 4u32) != 0));
    assert((x & (1u8 << 5u32) != 0) == (y & (1u8 << 5u32) != 0));
    assert((x & (1u8 << 6u32) != 0) == (y & (1u8 << 6u32) != 0));
    assert((x & (1u8 << 7u32) != 0) == (y & (1u8 << 7u32) != 0));
    assert(x == y) by (bit_vector)
        requires
            (x & (1u8 << 0u32) != 0) == (y & (1u8 << 0u32) != 0),
            (x & (1u8 << 1u32) != 0) == (y & (1u8 << 1u32) != 0),
            (x & (1u8 << 2u32) != 0) == (y & (1u8 << 2u32) != 0),
            (x & (1u8 << 3u32) != 0) == (y & (1u8 << 3u32) != 0),
            (x & (1u8 << 4u32) != 0) == (y & (1u8 << 4u32) != 0),
            (x & (1u8 << 5u32) != 0) == (y & (1u8 << 5u32) != 0),
            (x & (1u8 << 6u32) != 0) == (y & (1u8 << 6u32) != 0),
            (x & (1u8 << 7u32) != 0) == (y & (1u8 << 7u32) != 0),
    ;
}

/// Or-ing the mask for bit `pos` into byte `pos / 8` of `f0` sets exactly
/// bit `pos` of the array and leaves all other bits and all other bytes
/// unchanged.
proof fn lemma_set_bit(f0: Seq<u8>, f1: Seq<u8>, pos: int, nbits: int)
    requires
        0 <= pos < nbits,
        nbits <= 8 * f0.len(),
        f1 == f0.update(pos / 8, f0[pos / 8] | (1u8 << ((pos % 8) as u32))),
    ensures
        f1.len() == f0.len(),
        forall|i: int|
            0 <= i < nbits ==> (#[trigger] spec_bit_set(f1, i) <==> (spec_bit_set(f0, i) || i
                == pos)),
        forall|b: int| 0 <= b < f0.len() && b != pos / 8 ==> f1[b] == f0[b],
{
    lemma_bit_index(pos, f0.len() as int);
    assert forall|i: int|
        0 <= i < nbits implies (#[trigger] spec_bit_set(f1, i) <==> (spec_bit_set(f0, i) || i
        == pos)) by {
        lemma_bit_index(i, f0.len() as int);
        if i / 8 == pos / 8 {
            lemma_or_mask_bit(f0[pos / 8], (pos % 8) as u32, (i % 8) as u32);
        }
    }
}

} // verus!
