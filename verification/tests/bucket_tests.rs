use gateway_core::memory_rate_limiter::{MemoryRateLimiter, RateLimiter, SharedTokenBucket};

#[test]
fn test_new() {
    // test bad param
    let rate_limiter = SharedTokenBucket::new(0, 0, Some(0));
    assert_eq!(rate_limiter.capacity, 1);
    assert_eq!(rate_limiter.fill_rate, 1);
    assert_ne!(rate_limiter.shards.len(), 0);

    // test bad param
    let rate_limiter = SharedTokenBucket::new(1, 1, Some(16));
    assert_eq!(rate_limiter.capacity, 16);
    assert_eq!(rate_limiter.fill_rate, 1);
    assert_eq!(rate_limiter.shards.len(), 16);

    // test adepter cpu core
    let rate_limiter = SharedTokenBucket::new(1, 1, None);
    let cpu = num_cpus::get() as u64;
    assert_eq!(rate_limiter.capacity, cpu * 2);
    assert_eq!(rate_limiter.fill_rate, 1);
    assert_eq!(rate_limiter.shards.len() as u64, cpu * 2);
}

#[test]
fn test_try_acquire_at_fixed_times() {
    // the timed acquire sequence of a 30-token, 1-per-second, single-shard
    // bucket, driven by explicit timestamps
    let t0: u64 = 1_000_000;
    let mut bucket = SharedTokenBucket::new_with(30, 1, 1, t0);
    assert!(bucket.try_acquire_at(0, 1, t0));
    assert!(bucket.try_acquire_at(0, 1, t0));
    assert!(bucket.try_acquire_at(0, 28, t0));
    assert!(!bucket.try_acquire_at(0, 1, t0));
    // one second later one token has been refilled
    assert!(bucket.try_acquire_at(0, 1, t0 + 1000));
    assert!(!bucket.try_acquire_at(0, 1, t0 + 1000));
}

#[test]
fn test_refill_rounds_to_nearest() {
    let t0: u64 = 50_000;
    // capacity 1, 2 tokens per second, one shard
    let mut bucket = SharedTokenBucket::new_with(1, 2, 1, t0);
    assert!(bucket.try_acquire_at(0, 1, t0));
    assert!(!bucket.try_acquire_at(0, 1, t0));
    // 200 ms * 2/s = 0.4 tokens, rounds to zero
    assert!(!bucket.try_acquire_at(0, 1, t0 + 200));
    // 250 ms * 2/s = 0.5 tokens, rounds up to one
    assert!(bucket.try_acquire_at(0, 1, t0 + 250));
}

#[test]
fn test_denied_acquire_keeps_tokens() {
    let t0: u64 = 7_000;
    let mut bucket = SharedTokenBucket::new_with(5, 1, 1, t0);
    assert_eq!(bucket.shards[0].tokens, 5);
    // asking for more than is there is denied and takes nothing
    assert!(!bucket.try_acquire_at(0, 6, t0));
    assert_eq!(bucket.shards[0].tokens, 5);
    assert!(bucket.try_acquire_at(0, 5, t0));
    assert_eq!(bucket.shards[0].tokens, 0);
    assert!(!bucket.try_acquire_at(0, 1, t0));
    assert_eq!(bucket.shards[0].tokens, 0);
}

#[test]
fn test_idle_bucket_accumulates_past_capacity() {
    // the counter is not clamped to the capacity: a long idle gap banks
    // far more tokens than the bucket nominally holds
    let t0: u64 = 0;
    let mut bucket = SharedTokenBucket::new_with(2, 10, 1, t0);
    // ten seconds idle at 10 tokens per second
    assert!(bucket.try_acquire_at(0, 50, t0 + 10_000));
    assert!(bucket.try_acquire_at(0, 52, t0 + 10_000));
    assert!(!bucket.try_acquire_at(0, 1, t0 + 10_000));
}

#[test]
fn test_keyed_limiter_creates_then_charges() {
    let t0: u64 = 3_000;
    let mut limiter = MemoryRateLimiter::new(1, 5, Some(1));
    // first sight of a key stores a fresh bucket and admits without charge
    assert!(limiter.try_acquire_at("k".to_string(), 1, t0));
    // the stored bucket holds one token
    assert!(limiter.try_acquire_at("k".to_string(), 1, t0));
    assert!(!limiter.try_acquire_at("k".to_string(), 1, t0));
    // five tokens per second refill
    assert!(limiter.try_acquire_at("k".to_string(), 1, t0 + 1000));
    // an unrelated key starts fresh
    assert!(limiter.try_acquire_at("other".to_string(), 1, t0));
}

#[test]
fn test_get_config_reports_construction() {
    let limiter = MemoryRateLimiter::new(7, 9, None);
    assert_eq!(limiter.get_config(), (7, 9, Some(1)));
    let limiter = MemoryRateLimiter::new(1, 2, Some(16));
    assert_eq!(limiter.get_config(), (1, 2, Some(16)));
}

#[test]
fn test_try_acquire_wall_clock() {
    let mut limiter = MemoryRateLimiter::new(1, 1000, Some(1));
    // through the RateLimiter trait, against the real clock
    assert!(RateLimiter::try_acquire(&mut limiter, "k1".to_string(), 1));
    assert!(RateLimiter::try_acquire(&mut limiter, "k1".to_string(), 1));
}

#[test]
fn test_approximate_rate_over_time() {
    // a capacity-one bucket at four tokens per second, polled every 250 ms
    // for three seconds: the successes stay within the coarse band the
    // rounded refill promises, |success - rate * seconds| <= 10% + 2
    let t0: u64 = 500_000;
    let mut bucket = SharedTokenBucket::new_with(1, 4, 1, t0);
    let mut success: u64 = 0;
    let mut t = t0;
    while t <= t0 + 3_000 {
        if bucket.try_acquire_at(0, 1, t) {
            success += 1;
        }
        t += 250;
    }
    let expected: i64 = 4 * 3;
    let diff = (success as i64 - expected).abs();
    assert!(diff <= expected / 10 + 2, "successes {} vs expected {}", success, expected);
}
