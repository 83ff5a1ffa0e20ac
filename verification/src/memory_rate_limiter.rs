//! A sharded token bucket for in-memory rate limiting.
//!
//! A bucket splits its capacity over `shard_count` independent shards; a key
//! is routed to one shard by hashing, the shard is refilled according to the
//! time elapsed since its last refill, and tokens are then taken from that
//! shard alone.
//!
//! The refill arithmetic rounds `elapsed_ms * fill_rate / (1000 * shards)` to
//! the nearest integer (halves away from zero), computed exactly over the
//! integers. The token counter is not clamped to the per-shard capacity, so
//! an idle shard accumulates tokens without bound (saturating only at
//! `u64::MAX`); this mirrors the intended coarse, approximate shaping.

use vstd::prelude::*;
use crate::hashing::{murmur3_x86_32, murmur3_x86_32_of};
use vstd::utf8::encode_utf8;

verus! {

/// One shard of a token bucket: a token counter and the timestamp
/// (milliseconds) of the last accepted refill.
#[derive(Clone, Copy, PartialEq, Eq, Structural, Debug)]
pub struct TokenBucket {
    pub tokens: u64,
    pub last_refill: u64,
}

/// A token bucket whose state is split over several independent shards.
pub struct SharedTokenBucket {
    pub shards: Vec<TokenBucket>,
    pub fill_rate: u64,
    pub capacity: u64,
}

/// The mathematical state of a [`SharedTokenBucket`].
#[verifier::ext_equal]
pub struct BucketModel {
    pub shards: Seq<TokenBucket>,
    pub fill_rate: u64,
    pub capacity: u64,
}

impl View for SharedTokenBucket {
    type V = BucketModel;

    open spec fn view(&self) -> BucketModel {
        BucketModel { shards: self.shards@, fill_rate: self.fill_rate, capacity: self.capacity }
    }
}

/// A well-formed bucket has at least one shard (and not absurdly many), a
/// positive fill rate, and a capacity no smaller than its shard count.
pub open spec fn bucket_wf(b: BucketModel) -> bool {
    &&& 1 <= b.shards.len() <= u32::MAX
    &&& b.fill_rate >= 1
    &&& b.capacity >= b.shards.len()
}

/// `a / b` rounded to the nearest integer, halves away from zero.
pub open spec fn spec_round_div(a: int, b: int) -> int
    recommends
        a >= 0,
        b >= 1,
{
    (2 * a + b) / (2 * b)
}

/// The capacity each shard starts from: `capacity / shards` rounded to the
/// nearest integer, with a floor of one token.
pub open spec fn spec_per_shard_capacity(capacity: u64, shards_len: u64) -> u64
    recommends
        1 <= shards_len,
{
    let c = spec_round_div(capacity as int, shards_len as int);
    if c <= 0 {
        1u64
    } else if c > u64::MAX {
        u64::MAX
    } else {
        c as u64
    }
}

/// How many tokens a refill at `now_ms` adds to a shard last refilled at
/// `last`: `elapsed_ms * fill_rate / (1000 * shards_len)` rounded to the
/// nearest integer, and zero when the clock has not advanced.
pub open spec fn spec_refill_added(last: u64, now_ms: u64, fill_rate: u64, shards_len: u64) -> int
    recommends
        1 <= shards_len,
{
    if now_ms > last {
        ((now_ms - last) * fill_rate + 500 * (shards_len as int)) / (1000 * (shards_len as int))
    } else {
        0
    }
}

/// Addition on a token counter, saturating at `u64::MAX`.
pub open spec fn spec_sat_add(tokens: u64, add: int) -> u64
    recommends
        add >= 0,
{
    if tokens + add > u64::MAX {
        u64::MAX
    } else {
        (tokens + add) as u64
    }
}

/// The state of one shard after a refill at `now_ms`. A refill that would
/// add no token leaves the shard untouched, its timestamp included.
pub open spec fn spec_refill_shard(s: TokenBucket, now_ms: u64, fill_rate: u64, shards_len: u64) -> TokenBucket
    recommends
        1 <= shards_len,
{
    let add = spec_refill_added(s.last_refill, now_ms, fill_rate, shards_len);
    if add > 0 {
        TokenBucket { tokens: spec_sat_add(s.tokens, add), last_refill: now_ms }
    } else {
        s
    }
}

/// The result and the new bucket state of an acquire of `n` tokens on shard
/// `idx` at time `now_ms`: the shard is refilled first, then `n` tokens are
/// taken if and only if the shard holds at least `n`.
pub open spec fn spec_acquire(b: BucketModel, idx: int, n: u64, now_ms: u64) -> (bool, BucketModel)
    recommends
        0 <= idx < b.shards.len(),
{
    let s1 = spec_refill_shard(b.shards[idx], now_ms, b.fill_rate, b.shards.len() as u64);
    if s1.tokens >= n {
        let s2 = TokenBucket { tokens: (s1.tokens - n) as u64, last_refill: s1.last_refill };
        (true, BucketModel { shards: b.shards.update(idx, s2), fill_rate: b.fill_rate, capacity: b.capacity })
    } else {
        (false, BucketModel { shards: b.shards.update(idx, s1), fill_rate: b.fill_rate, capacity: b.capacity })
    }
}

/// Which shard a seed is routed to: shard zero when there is only one shard,
/// otherwise the 32-bit MurmurHash3 of the seed's UTF-8 bytes modulo the
/// shard count.
pub open spec fn spec_shard_index(b: BucketModel, seed: Seq<char>) -> int
    recommends
        b.shards.len() >= 1,
{
    if b.shards.len() == 1 {
        0
    } else {
        murmur3_x86_32_of(encode_utf8(seed), 0) as int % (b.shards.len() as int)
    }
}

/// The state of a bucket freshly built at `now_ms` with `shards_len` shards:
/// a zero fill rate is raised to one, the capacity is raised to the shard
/// count if smaller, and every shard starts full at the per-shard capacity.
pub open spec fn spec_new_bucket(capacity: u64, fill_rate: u64, shards_len: u64, now_ms: u64) -> BucketModel
    recommends
        1 <= shards_len <= u32::MAX,
{
    let rate = if fill_rate == 0 { 1u64 } else { fill_rate };
    let cap = if capacity < shards_len { shards_len } else { capacity };
    let per = spec_per_shard_capacity(cap, shards_len);
    BucketModel {
        shards: Seq::new(shards_len as nat, |i: int| TokenBucket { tokens: per, last_refill: now_ms }),
        fill_rate: rate,
        capacity: cap,
    }
}

/// How an optional shard count is resolved: an explicit zero is raised to
/// one, any other explicit count is taken as given.
pub open spec fn spec_resolved_shards(n: u32) -> u64 {
    if n == 0 {
        1u64
    } else {
        n as u64
    }
}

/// Relies on `chrono::Utc::now().timestamp_millis()` for the current wall
/// clock in milliseconds. The result depends on the clock, so nothing is
/// promised of it.
#[verifier::external_body]
pub(crate) fn now_millis() -> u64 {
    chrono::Utc::now().timestamp_millis() as u64
}

/// Relies on `num_cpus::get`, which is documented to always return at
/// least 1.
#[verifier::external_body]
fn cpu_count() -> (r: usize)
    ensures
        r >= 1,
{
    num_cpus::get()
}

/// `a / b` rounded to the nearest integer, halves away from zero.
fn round_div_u64(a: u64, b: u64) -> (r: u64)
    requires
        b >= 1,
    ensures
        r == spec_round_div(a as int, b as int),
        r <= a || r == 1,
{
    let wide = (2u128 * (a as u128) + (b as u128)) / (2u128 * (b as u128));
    proof {
        assert(2 * (a as int) + b < (2 * (b as int)) * ((a as int) + 1)) by (nonlinear_arith)
            requires
                b >= 1,
                a >= 0,
        ;
        assert((2 * (a as int) + b) / (2 * (b as int)) < (a as int) + 1) by {
            vstd::arithmetic::div_mod::lemma_multiply_divide_lt(
                2 * (a as int) + b,
                2 * (b as int),
                (a as int) + 1,
            );
        }
        assert((2 * (a as int) + b) / (2 * (b as int)) >= 0) by {
            vstd::arithmetic::div_mod::lemma_div_pos_is_pos(2 * (a as int) + b, 2 * (b as int));
        }
    }
    wide as u64
}

impl SharedTokenBucket {
    /// Whether the bucket is well formed; see [`bucket_wf`].
    pub open spec fn wf(&self) -> bool {
        bucket_wf(self@)
    }

    /// Build a bucket with an explicit shard count and start time.
    pub fn new_with(capacity: u64, fill_rate: u64, shards_len: u64, now_ms: u64) -> (r: Self)
        requires
            1 <= shards_len <= u32::MAX,
        ensures
            r@ == spec_new_bucket(capacity, fill_rate, shards_len, now_ms),
            r.wf(),
    {
        let rate = if fill_rate == 0 { 1u64 } else { fill_rate };
        let cap = if capacity < shards_len { shards_len } else { capacity };
        let mut per = round_div_u64(cap, shards_len);
        if per == 0 {
            per = 1;
        }
        let mut shards: Vec<TokenBucket> = Vec::new();
        let mut i: u64 = 0;
        while i < shards_len
            invariant
                i <= shards_len,
                shards@.len() == i,
                forall|j: int| 0 <= j < i ==> shards@[j] == (TokenBucket { tokens: per, last_refill: now_ms }),
            decreases shards_len - i,
        {
            shards.push(TokenBucket { tokens: per, last_refill: now_ms });
            i = i + 1;
        }
        let r = SharedTokenBucket { shards, fill_rate: rate, capacity: cap };
        proof {
            assert(r@.shards =~= spec_new_bucket(capacity, fill_rate, shards_len, now_ms).shards);
        }
        r
    }

    /// Build a bucket holding `capacity` tokens refilled at `fill_rate`
    /// tokens per second, split over `shard_num` shards (or twice the CPU
    /// count when none is given), with every shard starting full now.
    pub fn new(capacity: u64, fill_rate: u64, shard_num: Option<u32>) -> (r: Self)
        ensures
            exists|now_ms: u64, len: u64|
                {
                    &&& #[trigger] r@ == spec_new_bucket(capacity, fill_rate, len, now_ms)
                    &&& match shard_num {
                        Some(n) => len == spec_resolved_shards(n),
                        None => 2 <= len <= u32::MAX,
                    }
                },
            shard_num matches Some(n) ==> r@.shards.len() == spec_resolved_shards(n),
            r.wf(),
    {
        let shards_len: u64 = match shard_num {
            Some(n) => {
                if n == 0 {
                    1
                } else {
                    n as u64
                }
            },
            None => {
                let cpus = cpu_count() as u64;
                if cpus <= 0x7FFF_FFFF {
                    cpus * 2
                } else {
                    0xFFFF_FFFF
                }
            },
        };
        let now = now_millis();
        let r = Self::new_with(capacity, fill_rate, shards_len, now);
        proof {
            assert(r@ == spec_new_bucket(capacity, fill_rate, shards_len, now));
        }
        r
    }

    /// Refill the shard at `idx` for the time elapsed up to `now_ms`, then
    /// take `tokens` tokens from it if it holds that many. A denied acquire
    /// never decreases the shard's counter.
    pub fn try_acquire_at(&mut self, idx: usize, tokens: u64, now_ms: u64) -> (r: bool)
        requires
            old(self).wf(),
            idx < old(self).shards@.len(),
        ensures
            r == spec_acquire(old(self)@, idx as int, tokens, now_ms).0,
            final(self)@ == spec_acquire(old(self)@, idx as int, tokens, now_ms).1,
            final(self).wf(),
            !r ==> final(self).shards@[idx as int].tokens >= old(self).shards@[idx as int].tokens,
    {
        let shards_len = self.shards.len() as u64;
        let mut s = self.shards[idx];
        refill_shard_at(&mut s, now_ms, self.fill_rate, shards_len);
        let granted = s.tokens >= tokens;
        if granted {
            s = TokenBucket { tokens: s.tokens - tokens, last_refill: s.last_refill };
        }
        self.shards.set(idx, s);
        granted
    }

    /// Route `seed` to a shard, refill it for the time elapsed up to
    /// `now_ms`, and take `tokens` tokens from it if it holds that many.
    pub fn try_acquire_seeded_at(&mut self, seed: &String, tokens: u64, now_ms: u64) -> (r: bool)
        requires
            old(self).wf(),
        ensures
            r == spec_acquire(old(self)@, spec_shard_index(old(self)@, seed@), tokens, now_ms).0,
            final(self)@ == spec_acquire(old(self)@, spec_shard_index(old(self)@, seed@), tokens, now_ms).1,
            final(self).wf(),
    {
        let ghost pre = self@;
        let idx: usize = if self.shards.len() == 1 {
            0
        } else {
            let h = murmur3_x86_32(seed.as_str().as_bytes(), 0);
            (h as usize) % self.shards.len()
        };
        proof {
            assert(idx as int == spec_shard_index(pre, seed@));
        }
        self.try_acquire_at(idx, tokens, now_ms)
    }

    /// Route `seed` to a shard, refill it for the time elapsed until now,
    /// and take `tokens` tokens from it if it holds that many.
    pub fn try_acquire(&mut self, seed: String, tokens: u64) -> (r: bool)
        requires
            old(self).wf(),
        ensures
            exists|now_ms: u64|
                {
                    &&& r == #[trigger] spec_acquire(old(self)@, spec_shard_index(old(self)@, seed@), tokens, now_ms).0
                    &&& final(self)@ == spec_acquire(old(self)@, spec_shard_index(old(self)@, seed@), tokens, now_ms).1
                },
            final(self).wf(),
    {
        let now = now_millis();
        self.try_acquire_seeded_at(&seed, tokens, now)
    }
}

/// The interface every rate limiter of this library offers: take `tokens`
/// tokens for `key` if the limiter allows it, and report the configuration
/// the limiter was built with.
pub trait RateLimiter {
    /// Whether the limiter's internal state is well formed.
    spec fn rl_wf(&self) -> bool;

    fn try_acquire(&mut self, key: String, tokens: u64) -> (granted: bool)
        requires
            old(self).rl_wf(),
        ensures
            final(self).rl_wf(),
    ;

    fn get_config(&self) -> (u64, u64, Option<u32>);
}

/// A rate limiter that lazily keeps one [`SharedTokenBucket`] per key.
pub struct MemoryRateLimiter {
    pub key_bucket: Vec<(String, SharedTokenBucket)>,
    pub init_capacity: u64,
    pub fill_rate: u64,
    pub shard_num: Option<u32>,
}

/// The mathematical state of a [`MemoryRateLimiter`].
#[verifier::ext_equal]
pub struct KeyedLimiterModel {
    pub buckets: Seq<(Seq<char>, BucketModel)>,
    pub init_capacity: u64,
    pub fill_rate: u64,
    pub shard_num: Option<u32>,
}

impl View for MemoryRateLimiter {
    type V = KeyedLimiterModel;

    open spec fn view(&self) -> KeyedLimiterModel {
        KeyedLimiterModel {
            buckets: self.key_bucket@.map_values(|p: (String, SharedTokenBucket)| (p.0@, p.1@)),
            init_capacity: self.init_capacity,
            fill_rate: self.fill_rate,
            shard_num: self.shard_num,
        }
    }
}

/// A well-formed keyed limiter has an explicit shard count, well-formed
/// buckets, and no two buckets under the same key.
pub open spec fn keyed_wf(m: KeyedLimiterModel) -> bool {
    &&& m.shard_num is Some
    &&& forall|i: int| 0 <= i < m.buckets.len() ==> bucket_wf(#[trigger] m.buckets[i].1)
    &&& forall|i: int, j: int| 0 <= i < j < m.buckets.len() ==> m.buckets[i].0 != m.buckets[j].0
}

/// The index of the first bucket stored under `key`, or `-1` if there is
/// none.
pub open spec fn spec_find_key(bs: Seq<(Seq<char>, BucketModel)>, key: Seq<char>) -> int
    decreases bs.len(),
{
    if bs.len() == 0 {
        -1
    } else if bs[0].0 == key {
        0
    } else {
        let r = spec_find_key(bs.drop_first(), key);
        if r < 0 {
            -1
        } else {
            r + 1
        }
    }
}

pub proof fn lemma_find_key_props(bs: Seq<(Seq<char>, BucketModel)>, key: Seq<char>)
    ensures
        -1 <= spec_find_key(bs, key) < bs.len(),
        spec_find_key(bs, key) >= 0 ==> bs[spec_find_key(bs, key)].0 == key,
        forall|i: int|
            0 <= i < bs.len() && (spec_find_key(bs, key) < 0 || i < spec_find_key(bs, key))
                ==> (#[trigger] bs[i]).0 != key,
    decreases bs.len(),
{
    if bs.len() > 0 && bs[0].0 != key {
        lemma_find_key_props(bs.drop_first(), key);
        assert(forall|i: int| 1 <= i < bs.len() ==> (#[trigger] bs[i]) == bs.drop_first()[i - 1]);
    }
}

/// The result and the new limiter state of an acquire of `n` tokens for
/// `key` at time `now_ms`: an existing bucket for `key` is charged with
/// `key` as the routing seed; when none exists yet, a fresh full bucket is
/// stored for `key` and the acquire is granted without charge.
pub open spec fn spec_keyed_acquire(m: KeyedLimiterModel, key: Seq<char>, n: u64, now_ms: u64) -> (bool, KeyedLimiterModel)
    recommends
        m.shard_num is Some,
{
    let i = spec_find_key(m.buckets, key);
    if i >= 0 {
        let b = m.buckets[i].1;
        let res = spec_acquire(b, spec_shard_index(b, key), n, now_ms);
        (
            res.0,
            KeyedLimiterModel {
                buckets: m.buckets.update(i, (key, res.1)),
                init_capacity: m.init_capacity,
                fill_rate: m.fill_rate,
                shard_num: m.shard_num,
            },
        )
    } else {
        let fresh = spec_new_bucket(
            m.init_capacity,
            m.fill_rate,
            spec_resolved_shards(m.shard_num->0),
            now_ms,
        );
        (
            true,
            KeyedLimiterModel {
                buckets: m.buckets.push((key, fresh)),
                init_capacity: m.init_capacity,
                fill_rate: m.fill_rate,
                shard_num: m.shard_num,
            },
        )
    }
}

impl MemoryRateLimiter {
    /// Whether the limiter is well formed; see [`keyed_wf`].
    pub open spec fn wf(&self) -> bool {
        keyed_wf(self@)
    }

    /// Build a keyed limiter whose buckets start with `init_capacity`
    /// tokens and refill at `fill_rate` tokens per second over
    /// `shard_num` shards (one shard when none is given).
    pub fn new(init_capacity: u64, fill_rate: u64, shard_num: Option<u32>) -> (r: Self)
        ensures
            r@.buckets.len() == 0,
            r@.init_capacity == init_capacity,
            r@.fill_rate == fill_rate,
            r@.shard_num == Some(match shard_num {
                Some(n) => n,
                None => 1u32,
            }),
            r.wf(),
    {
        let resolved: u32 = match shard_num {
            Some(n) => n,
            None => 1,
        };
        let r = MemoryRateLimiter {
            key_bucket: Vec::new(),
            init_capacity,
            fill_rate,
            shard_num: Some(resolved),
        };
        proof {
            assert(r@.buckets =~= Seq::<(Seq<char>, BucketModel)>::empty());
        }
        r
    }

    /// Take `tokens` tokens for `key` at time `now_ms`, creating the
    /// bucket for `key` on first use.
    pub fn try_acquire_at(&mut self, key: String, tokens: u64, now_ms: u64) -> (r: bool)
        requires
            old(self).wf(),
        ensures
            r == spec_keyed_acquire(old(self)@, key@, tokens, now_ms).0,
            final(self)@ == spec_keyed_acquire(old(self)@, key@, tokens, now_ms).1,
            final(self).wf(),
    {
        let ghost pre = self@;
        proof {
            lemma_find_key_props(pre.buckets, key@);
        }
        let mut found: Option<usize> = None;
        let mut i: usize = 0;
        let len = self.key_bucket.len();
        while i < len
            invariant
                len == self.key_bucket@.len(),
                i <= len,
                self@ == pre,
                match found {
                    None => forall|j: int| 0 <= j < i ==> (#[trigger] pre.buckets[j]).0 != key@,
                    Some(k) => k < i && pre.buckets[k as int].0 == key@
                        && forall|j: int| 0 <= j < k ==> (#[trigger] pre.buckets[j]).0 != key@,
                },
            decreases len - i,
        {
            if found.is_none() && self.key_bucket[i].0 == key {
                found = Some(i);
            }
            i = i + 1;
        }
        match found {
            Some(at) => {
                proof {
                    assert(spec_find_key(pre.buckets, key@) == at);
                }
                let (stored_key, mut bucket) = self.key_bucket.remove(at);
                let r = bucket.try_acquire_seeded_at(&key, tokens, now_ms);
                self.key_bucket.insert(at, (key, bucket));
                proof {
                    assert(self@.buckets =~= spec_keyed_acquire(pre, key@, tokens, now_ms).1.buckets);
                }
                r
            },
            None => {
                proof {
                    assert(spec_find_key(pre.buckets, key@) == -1);
                }
                let resolved: u64 = match self.shard_num {
                    Some(n) => {
                        if n == 0 {
                            1
                        } else {
                            n as u64
                        }
                    },
                    None => 1,
                };
                let bucket = SharedTokenBucket::new_with(self.init_capacity, self.fill_rate, resolved, now_ms);
                self.key_bucket.push((key, bucket));
                proof {
                    assert(self@.buckets =~= spec_keyed_acquire(pre, key@, tokens, now_ms).1.buckets);
                }
                true
            },
        }
    }
}

impl RateLimiter for MemoryRateLimiter {
    open spec fn rl_wf(&self) -> bool {
        self.wf()
    }

    /// Take `tokens` tokens for `key` now, creating the bucket for `key`
    /// on first use.
    fn try_acquire(&mut self, key: String, tokens: u64) -> (r: bool)
        ensures
            exists|now_ms: u64|
                {
                    &&& r == #[trigger] spec_keyed_acquire(old(self)@, key@, tokens, now_ms).0
                    &&& final(self)@ == spec_keyed_acquire(old(self)@, key@, tokens, now_ms).1
                },
    {
        let now = now_millis();
        self.try_acquire_at(key, tokens, now)
    }

    /// Report `(init_capacity, fill_rate, shard_num)` as given at
    /// construction.
    fn get_config(&self) -> (r: (u64, u64, Option<u32>))
        ensures
            r.0 == self.init_capacity,
            r.1 == self.fill_rate,
            r.2 == self.shard_num,
    {
        (self.init_capacity, self.fill_rate, self.shard_num)
    }
}

/// Refill one shard for the time elapsed up to `now_ms`. The added amount is
/// `elapsed_ms * fill_rate / (1000 * shards_len)` rounded to the nearest
/// integer; when it is zero the shard (timestamp included) is left alone, so
/// short gaps accumulate until they are worth a whole token.
fn refill_shard_at(shard: &mut TokenBucket, now_ms: u64, fill_rate: u64, shards_len: u64)
    requires
        1 <= shards_len <= u32::MAX,
    ensures
        *final(shard) == spec_refill_shard(*old(shard), now_ms, fill_rate, shards_len),
{
    let last = shard.last_refill;
    if now_ms > last {
        let diff = (now_ms - last) as u128;
        proof {
            assert((diff as int) * (fill_rate as int) <= 0xFFFF_FFFF_FFFF_FFFFint * 0xFFFF_FFFF_FFFF_FFFFint) by {
                vstd::arithmetic::mul::lemma_mul_upper_bound(
                    diff as int,
                    0xFFFF_FFFF_FFFF_FFFFint,
                    fill_rate as int,
                    0xFFFF_FFFF_FFFF_FFFFint,
                );
            }
            assert(0xFFFF_FFFF_FFFF_FFFFint * 0xFFFF_FFFF_FFFF_FFFFint
                == 0xFFFF_FFFF_FFFF_FFFE_0000_0000_0000_0001int) by (nonlinear_arith);
        }
        let num = diff * (fill_rate as u128);
        let den = 1000u128 * (shards_len as u128);
        let added = (num + den / 2) / den;
        proof {
            assert(added <= num + den / 2) by {
                vstd::arithmetic::div_mod::lemma_div_nonincreasing((num + den / 2) as int, den as int);
            }
            assert(added >= 0) by {
                vstd::arithmetic::div_mod::lemma_div_pos_is_pos((num + den / 2) as int, den as int);
            }
        }
        if added > 0 {
            shard.last_refill = now_ms;
            let t = (shard.tokens as u128) + added;
            shard.tokens = if t > 0xFFFF_FFFF_FFFF_FFFFu128 {
                u64::MAX
            } else {
                t as u64
            };
        }
    }
}

} // verus!
