use gateway_core::controller::derive_request_hash;
use gateway_core::hashing::{murmur3_x64_128_low, murmur3_x86_32};
use gateway_core::random::random_below;

#[test]
fn test_murmur3_is_a_real_hash() {
    // deterministic in the input and the seed, and sensitive to both
    assert_eq!(murmur3_x86_32(b"abc", 0), murmur3_x86_32(b"abc", 0));
    assert_ne!(murmur3_x86_32(b"abc", 0), murmur3_x86_32(b"abd", 0));
    assert_ne!(murmur3_x86_32(b"abc", 0), murmur3_x86_32(b"abc", 1));
    assert_eq!(murmur3_x64_128_low(b"abc", 0), murmur3_x64_128_low(b"abc", 0));
    assert_ne!(murmur3_x64_128_low(b"abc", 0), murmur3_x64_128_low(b"abd", 0));
    // the 32- and 128-bit variants disagree, so neither echoes its input
    assert_ne!(
        murmur3_x86_32(b"abc", 0) as u64,
        murmur3_x64_128_low(b"abc", 0)
    );
}

#[test]
fn test_request_hash_depends_on_routing_value() {
    assert_eq!(derive_request_hash(5), derive_request_hash(5));
    assert_ne!(derive_request_hash(5), derive_request_hash(6));
}

#[test]
fn test_random_below_stays_below() {
    assert_eq!(random_below(1), 0);
    for _ in 0..1000 {
        assert!(random_below(7) < 7);
    }
}
