use lsm_storage::bloom::{calculate_bits_per_key, edge_key_hash, Bloom};
use lsm_storage::bucket::builder::BucketBuilder;
use lsm_storage::bucket::Bucket;

#[test]
fn test_bloom_holds_every_key() {
    let keys: Vec<u32> = (0..1000u32).map(|i| i.wrapping_mul(2654435761)).collect();
    let bloom = Bloom::build_from_key_hashes(&keys, 10);
    assert!(bloom.filter.len() >= 8);
    assert_eq!(bloom.k, 6);
    for k in &keys {
        assert!(bloom.may_contain(*k));
    }
    let misses = (0..1000u32).map(|i| i.wrapping_mul(2654435761).wrapping_add(17)).filter(|h| bloom.may_contain(*h)).count();
    assert!(misses < 100);
}

#[test]
fn test_bloom_encode_decode() {
    let bloom = Bloom::build_from_key_hashes(&[1, 2, 3], 10);
    let mut bytes = vec![7u8];
    bloom.encode(&mut bytes);
    assert_eq!(bytes.len(), 1 + bloom.filter.len() + 1);
    let back = Bloom::decode(&bytes[1..]).unwrap();
    assert_eq!(back.filter, bloom.filter);
    assert_eq!(back.k, bloom.k);
    assert!(Bloom::decode(&[1]).is_none());
}

#[test]
fn test_bits_per_key_by_edge_count() {
    assert_eq!(calculate_bits_per_key(0), 10);
    assert_eq!(calculate_bits_per_key(9_999_999), 10);
    assert_eq!(calculate_bits_per_key(10_000_000), 8);
    assert_eq!(calculate_bits_per_key(100_000_000), 7);
}

#[test]
fn test_edge_key_hash_is_farmhash() {
    let key: u64 = (1u64 << 32) | 2;
    assert_eq!(edge_key_hash(1, 2), farmhash::hash64(&key.to_le_bytes()) as u32);
    assert_ne!(edge_key_hash(1, 2), edge_key_hash(2, 1));
}

#[test]
fn test_bucket_bloom_knows_its_edges() {
    let mut builder = BucketBuilder::new(4096);
    builder.add(0, &[1, 2]).unwrap();
    builder.add(1, &[2]).unwrap();
    builder.add(5, &[]).unwrap();
    let bucket = Bucket::open(0, builder.build(0).unwrap()).unwrap();
    assert!(bucket.edge_bloom.is_some());
    assert!(bucket.contains_edge_maybe(0, 1));
    assert!(bucket.contains_edge_maybe(0, 2));
    assert!(bucket.contains_edge_maybe(1, 2));
}
