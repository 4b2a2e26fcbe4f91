use bloom_filter::hash::{bloom_hash, decode_fixed32};
use bloom_filter::BloomFilter;

// Writes a value directly into a little-endian 4-byte buffer.
fn encode_fixed32(value: u32) -> [u8; 4] {
    value.to_le_bytes()
}

#[test]
fn test_empty_filter() {
    let filter = BloomFilter::new(10);
    assert!(!filter.key_may_match(b"hello", &[]));
    assert!(!filter.key_may_match(b"hello", &[]));
    assert!(!filter.key_may_match(b"x", &[]));
    assert!(!filter.key_may_match(b"foo", &[]));
}

#[test]
fn test_small() {
    let bloom_filter = BloomFilter::new(10);
    let mut v = Vec::new();
    v.push(b"hello".to_vec());
    v.push(b"world".to_vec());
    let filter = bloom_filter.create_filter(v.as_slice());
    assert!(bloom_filter.key_may_match(b"hello", &filter));
    assert!(bloom_filter.key_may_match(b"world", &filter));
    assert!(!bloom_filter.key_may_match(b"x", &filter));
    assert!(!bloom_filter.key_may_match(b"foo", &filter));
}

fn next_length(length: usize) -> usize {
    if length < 10 {
        return length + 1;
    } else if length < 100 {
        return length + 10;
    } else if length < 1000 {
        return length + 100;
    }
    length + 1000
}

fn false_positive_rate(bloom_filter: &BloomFilter, filter: &[u8]) -> f64 {
    let mut result = 0;
    for i in 0..10000 {
        if bloom_filter.key_may_match(&encode_fixed32(i + 1000000000), filter) {
            result += 1;
        }
    }
    result as f64 / 10000.0
}

#[test]
fn test_varing_length() {
    let bloom_filter = BloomFilter::new(10);
    let mut mediocre_filters = 0;
    let mut good_filters = 0;

    let mut length = 1;

    loop {
        if length > 10000 {
            break;
        }

        let mut keys = Vec::with_capacity(length);
        for i in 0..length {
            keys.push(encode_fixed32(i as u32).to_vec());
        }
        let filter = bloom_filter.create_filter(keys.as_slice());

        assert!(filter.len() <= ((length * 10 / 8) + 40));

        for i in 0..length {
            assert!(bloom_filter.key_may_match(&encode_fixed32(i as u32), &filter));
        }

        let rate = false_positive_rate(&bloom_filter, &filter);

        println!(
            "False positives: {:5.2}% @ length = {:6} ; bytes = {:6}",
            rate * 100.0,
            length,
            filter.len() as i32
        );

        assert!(rate <= 0.02);
        if rate > 0.0125 {
            mediocre_filters += 1;
        } else {
            good_filters += 1;
        }

        length = next_length(length);
    }

    println!(
        "Filters: {} good, {} mediocre",
        good_filters, mediocre_filters
    );

    assert!(mediocre_filters <= good_filters / 5);
}

#[test]
fn test_decode_fixed32_value() {
    assert_eq!(decode_fixed32(&[1, 2, 3, 4]), 0x04030201);
    assert_eq!(decode_fixed32(&[0xff, 0, 0, 0]), 0xff);
    assert_eq!(decode_fixed32(&[0, 0, 0, 0x80]), 0x8000_0000);
}

#[test]
fn test_decode_fixed32_round_trip() {
    for v in [0u32, 1, 0xff, 0x0102_0304, 0xdead_beef, u32::MAX] {
        assert_eq!(decode_fixed32(&v.to_le_bytes()), v);
    }
}

#[test]
fn test_bloom_hash_is_deterministic() {
    assert_eq!(bloom_hash(b"hello"), bloom_hash(b"hello"));
    assert_eq!(bloom_hash(b""), bloom_hash(b""));
    // Different seeds of the probe sequence come from different inputs.
    assert_ne!(bloom_hash(b"hello"), bloom_hash(b"world"));
}

#[test]
fn test_filter_size_formula() {
    let expected_len = |n: usize, bits_per_key: usize| -> usize {
        let bits = (n * bits_per_key).max(64);
        (bits + 7) / 8 + 1
    };
    for (n, bits_per_key) in [(0, 10), (2, 10), (6, 10), (7, 10), (10, 10), (100, 10), (5, 1), (3, 25)] {
        let bloom_filter = BloomFilter::new(bits_per_key);
        let keys: Vec<Vec<u8>> = (0..n).map(|i| encode_fixed32(i as u32).to_vec()).collect();
        let filter = bloom_filter.create_filter(keys.as_slice());
        assert_eq!(filter.len(), expected_len(n, bits_per_key));
    }
}

#[test]
fn test_create_filter_deterministic() {
    let bloom_filter = BloomFilter::new(10);
    let keys: Vec<Vec<u8>> = vec![b"hello".to_vec(), b"world".to_vec(), b"".to_vec()];
    let first = bloom_filter.create_filter(keys.as_slice());
    let second = bloom_filter.create_filter(keys.as_slice());
    assert_eq!(first, second);
}

#[test]
fn test_probe_count_derivation() {
    // The trailing filter byte holds the derived probe count:
    // bits_per_key * 0.69 rounded down, clamped to 1..=30.
    for (bits_per_key, expected_k) in
        [(0, 1), (1, 1), (2, 1), (3, 2), (10, 6), (43, 29), (44, 30), (100, 30), (100000, 30)]
    {
        let bloom_filter = BloomFilter::new(bits_per_key);
        let filter = bloom_filter.create_filter(&[]);
        assert_eq!(*filter.last().unwrap(), expected_k as u8);
    }
}

#[test]
fn test_short_filter_matches_nothing() {
    let bloom_filter = BloomFilter::new(10);
    assert!(!bloom_filter.key_may_match(b"hello", &[6]));
}

#[test]
fn test_unrecognized_probe_count_matches_everything() {
    let bloom_filter = BloomFilter::new(10);
    // Eight zero bytes of bit array, then a probe count above 30: the
    // format is treated as unknown and every key may match.
    let mut unknown = vec![0u8; 8];
    unknown.push(31);
    assert!(bloom_filter.key_may_match(b"hello", &unknown));
    // The same bit array with a recognised probe count matches nothing:
    // every probe finds its bit clear.
    let mut empty = vec![0u8; 8];
    empty.push(6);
    assert!(!bloom_filter.key_may_match(b"hello", &empty));
}

#[test]
fn test_no_false_negatives() {
    for bits_per_key in [1usize, 5, 10, 20] {
        let bloom_filter = BloomFilter::new(bits_per_key);
        let keys: Vec<Vec<u8>> = (0..200u32).map(|i| encode_fixed32(i * 7 + 3).to_vec()).collect();
        let filter = bloom_filter.create_filter(keys.as_slice());
        for key in &keys {
            assert!(bloom_filter.key_may_match(key, &filter));
        }
    }
}
