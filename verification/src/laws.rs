//! Laws the rate limiter obeys.
//!
//! Two stand here. Resetting the limiter table twice from the same
//! configuration is the same as resetting it once, so a repeated push of
//! an unchanged configuration is not observable — in particular, buckets
//! whose rule did not change keep their token counters. And a token bucket
//! cannot overspend: over any sequence of acquires, the requests it grants
//! never outnumber the tokens it started with plus those the elapsed time
//! refilled.

use vstd::prelude::*;
use crate::app_config::UrlRateConfig;
use crate::memory_rate_limiter::{
    bucket_wf, spec_acquire, spec_refill_added, BucketModel,
};
use crate::rate_limiter::{
    entries_key_distinct, expand_rules, key_in_rules, lemma_find_entry_props, lemma_retain_props,
    spec_apply_from, spec_apply_key, spec_find_entry, spec_fresh_entry, spec_reset, spec_retain,
    EntryModel, RuleKey,
};
use crate::route_pattern::regex_valid;

verus! {

/// The grant count and final state of a one-shard bucket after the
/// acquires `reqs`, each a `(time, tokens)` pair, in order.
pub open spec fn spec_run_acquires(b: BucketModel, reqs: Seq<(u64, u64)>) -> (int, BucketModel)
    decreases reqs.len(),
{
    if reqs.len() == 0 {
        (0, b)
    } else {
        let prior = spec_run_acquires(b, reqs.drop_last());
        let step = spec_acquire(prior.1, 0, reqs.last().1, reqs.last().0);
        ((prior.0 + if step.0 { 1int } else { 0int }), step.1)
    }
}

/// The tokens the refills before each acquire in `reqs` add in total.
pub open spec fn spec_total_refill(b: BucketModel, reqs: Seq<(u64, u64)>) -> int
    decreases reqs.len(),
{
    if reqs.len() == 0 {
        0
    } else {
        let prior = spec_run_acquires(b, reqs.drop_last());
        spec_total_refill(b, reqs.drop_last()) + spec_refill_added(
            prior.1.shards[0].last_refill,
            reqs.last().0,
            prior.1.fill_rate,
            1,
        )
    }
}

/// A one-shard token bucket cannot overspend: over any sequence of
/// acquires asking at least one token each, the granted requests never
/// outnumber the tokens the bucket started with plus everything the
/// elapsed time refilled. This is the safety half of approximate rate
/// shaping: the admitted volume is bounded by the configured rate, up to
/// the initial burst and the rounding of each refill.
pub proof fn lemma_bucket_cannot_overspend(b: BucketModel, reqs: Seq<(u64, u64)>)
    requires
        bucket_wf(b),
        b.shards.len() == 1,
        forall|i: int| 0 <= i < reqs.len() ==> (#[trigger] reqs[i]).1 >= 1,
    ensures
        spec_run_acquires(b, reqs).0 <= b.shards[0].tokens + spec_total_refill(b, reqs),
        spec_run_acquires(b, reqs).0 + spec_run_acquires(b, reqs).1.shards[0].tokens
            <= b.shards[0].tokens + spec_total_refill(b, reqs),
        spec_run_acquires(b, reqs).1.shards.len() == 1,
        spec_run_acquires(b, reqs).1.fill_rate == b.fill_rate,
    decreases reqs.len(),
{
    if reqs.len() > 0 {
        let dl = reqs.drop_last();
        assert(forall|i: int| 0 <= i < dl.len() ==> (#[trigger] dl[i]) == reqs[i]);
        lemma_bucket_cannot_overspend(b, dl);
        let prior = spec_run_acquires(b, dl);
        let now = reqs.last().0;
        let n = reqs.last().1;
        let s = prior.1.shards[0];
        let add = spec_refill_added(s.last_refill, now, prior.1.fill_rate, 1);
        assert(add >= 0) by {
            if now > s.last_refill {
                vstd::arithmetic::div_mod::lemma_div_pos_is_pos(
                    (now - s.last_refill) * prior.1.fill_rate + 500,
                    1000,
                );
            }
        }
    }
}

/// Whether every two keys for the same `(url, method)` agree on the rate.
pub open spec fn rate_consistent(ks: Seq<RuleKey>) -> bool {
    forall|i: int, j: int|
        0 <= i < ks.len() && 0 <= j < ks.len() && (#[trigger] ks[i]).url == (#[trigger] ks[j]).url
            && ks[i].method == ks[j].method ==> ks[i].rate == ks[j].rate
}

/// Whether some entry holds `k`'s key with exactly the configuration `k`
/// asks for.
pub open spec fn has_conf_entry(es: Seq<EntryModel>, k: RuleKey) -> bool {
    exists|i: int|
        0 <= i < es.len() && (#[trigger] es[i]).url == k.url && es[i].method == k.method
            && es[i].limiter.init_capacity == 1 && es[i].limiter.fill_rate == k.rate
            && es[i].limiter.shard_num == Some(1u32)
}

/// Applying one key keeps the table's keys pairwise distinct.
proof fn lemma_apply_key_distinct(es: Seq<EntryModel>, k: RuleKey)
    requires
        entries_key_distinct(es),
    ensures
        entries_key_distinct(spec_apply_key(es, k)),
{
    if regex_valid(k.url) {
        lemma_find_entry_props(es, k.url, k.method);
        let i = spec_find_entry(es, k.url, k.method);
        let r = spec_apply_key(es, k);
        if i >= 0 {
            assert forall|a: int, b: int| 0 <= a < b < r.len() implies !((#[trigger] r[a]).url
                == (#[trigger] r[b]).url && r[a].method == r[b].method) by {
                assert(r[a] == es[a] || (a == i && r[a] == spec_fresh_entry(k)));
                assert(r[b] == es[b] || (b == i && r[b] == spec_fresh_entry(k)));
            }
        } else {
            assert forall|a: int, b: int| 0 <= a < b < r.len() implies !((#[trigger] r[a]).url
                == (#[trigger] r[b]).url && r[a].method == r[b].method) by {
                if b == es.len() {
                    assert(r[a] == es[a]);
                    assert(r[b] == spec_fresh_entry(k));
                }
            }
        }
    }
}

/// Applying keys from `t` on keeps the table's keys pairwise distinct.
proof fn lemma_apply_from_distinct(es: Seq<EntryModel>, ks: Seq<RuleKey>, t: int)
    requires
        entries_key_distinct(es),
    ensures
        entries_key_distinct(spec_apply_from(es, ks, t)),
    decreases ks.len() - t,
{
    if 0 <= t < ks.len() {
        lemma_apply_key_distinct(es, ks[t]);
        lemma_apply_from_distinct(spec_apply_key(es, ks[t]), ks, t + 1);
    }
}

/// Applying a key whose rate agrees with `k` on `k`'s key cannot remove
/// `k`'s configured entry.
proof fn lemma_apply_key_preserves(es: Seq<EntryModel>, k: RuleKey, k2: RuleKey)
    requires
        has_conf_entry(es, k),
        k2.url == k.url && k2.method == k.method ==> k2.rate == k.rate,
    ensures
        has_conf_entry(spec_apply_key(es, k2), k),
{
    let w = choose|i: int|
        0 <= i < es.len() && (#[trigger] es[i]).url == k.url && es[i].method == k.method
            && es[i].limiter.init_capacity == 1 && es[i].limiter.fill_rate == k.rate
            && es[i].limiter.shard_num == Some(1u32);
    let r = spec_apply_key(es, k2);
    if regex_valid(k2.url) {
        lemma_find_entry_props(es, k2.url, k2.method);
        let i = spec_find_entry(es, k2.url, k2.method);
        if i >= 0 {
            if es[i].limiter.init_capacity == 1 && es[i].limiter.fill_rate == k2.rate
                && es[i].limiter.shard_num == Some(1u32) {
                assert(r == es);
            } else {
                if i == w {
                    // the found entry is k's witness, so k2 shares k's key
                    // and thus k's rate; the replacement carries it too
                    assert(r[i].url == k.url && r[i].method == k.method);
                    assert(r[i].limiter.fill_rate == k2.rate && k2.rate == k.rate);
                } else {
                    assert(r[w] == es[w]);
                }
            }
        } else {
            assert(r[w] == es[w]);
        }
    }
}

/// Applying keys that are rate-consistent with `k` cannot remove `k`'s
/// configured entry.
proof fn lemma_apply_from_preserves(es: Seq<EntryModel>, ks: Seq<RuleKey>, t: int, k: RuleKey)
    requires
        has_conf_entry(es, k),
        forall|j: int|
            0 <= j < ks.len() && (#[trigger] ks[j]).url == k.url && ks[j].method == k.method
                ==> ks[j].rate == k.rate,
    ensures
        has_conf_entry(spec_apply_from(es, ks, t), k),
    decreases ks.len() - t,
{
    if 0 <= t < ks.len() {
        lemma_apply_key_preserves(es, k, ks[t]);
        lemma_apply_from_preserves(spec_apply_key(es, ks[t]), ks, t + 1, k);
    }
}

/// Applying a valid key leaves an entry configured as the key asks.
proof fn lemma_apply_key_establishes(es: Seq<EntryModel>, k: RuleKey)
    requires
        regex_valid(k.url),
    ensures
        has_conf_entry(spec_apply_key(es, k), k),
{
    lemma_find_entry_props(es, k.url, k.method);
    let i = spec_find_entry(es, k.url, k.method);
    let r = spec_apply_key(es, k);
    if i >= 0 {
        if es[i].limiter.init_capacity == 1 && es[i].limiter.fill_rate == k.rate
            && es[i].limiter.shard_num == Some(1u32) {
            assert(r[i] == es[i]);
        } else {
            assert(r[i] == spec_fresh_entry(k));
        }
    } else {
        assert(r[es.len() as int] == spec_fresh_entry(k));
    }
}

/// After the whole rate-consistent key list is applied, every valid key has
/// its configured entry.
proof fn lemma_apply_from_ensures(es: Seq<EntryModel>, ks: Seq<RuleKey>, t: int)
    requires
        0 <= t,
        rate_consistent(ks),
    ensures
        forall|j: int|
            t <= j < ks.len() && regex_valid((#[trigger] ks[j]).url) ==> has_conf_entry(
                spec_apply_from(es, ks, t),
                ks[j],
            ),
    decreases ks.len() - t,
{
    if 0 <= t < ks.len() {
        let es2 = spec_apply_key(es, ks[t]);
        lemma_apply_from_ensures(es2, ks, t + 1);
        if regex_valid(ks[t].url) {
            lemma_apply_key_establishes(es, ks[t]);
            lemma_apply_from_preserves(es2, ks, t + 1, ks[t]);
        }
        assert(spec_apply_from(es, ks, t) == spec_apply_from(es2, ks, t + 1));
    }
}

/// Every entry kept by `spec_retain` has its key in the rule set, and every
/// entry with its key in the rule set is kept.
proof fn lemma_retain_membership(es: Seq<EntryModel>, ks: Seq<RuleKey>)
    ensures
        forall|i: int|
            0 <= i < spec_retain(es, ks).len() ==> key_in_rules(
                ks,
                (#[trigger] spec_retain(es, ks)[i]).url,
                spec_retain(es, ks)[i].method,
            ),
        forall|i: int|
            0 <= i < es.len() && key_in_rules(ks, (#[trigger] es[i]).url, es[i].method)
                ==> spec_retain(es, ks).contains(es[i]),
    decreases es.len(),
{
    if es.len() > 0 {
        let dl = es.drop_last();
        lemma_retain_membership(dl, ks);
        let r = spec_retain(es, ks);
        let rdl = spec_retain(dl, ks);
        assert(forall|i: int| 0 <= i < dl.len() ==> (#[trigger] dl[i]) == es[i]);
        assert forall|i: int|
            0 <= i < es.len() && key_in_rules(ks, (#[trigger] es[i]).url, es[i].method) implies
            r.contains(es[i]) by {
            if i < es.len() - 1 {
                assert(rdl.contains(dl[i]));
                let n = choose|n: int| 0 <= n < rdl.len() && rdl[n] == dl[i];
                assert(r[n] == es[i]);
            } else {
                assert(r[r.len() - 1] == es[i]);
            }
        }
    }
}

/// Retaining a table whose every entry the rule set asks for changes
/// nothing.
proof fn lemma_retain_identity(es: Seq<EntryModel>, ks: Seq<RuleKey>)
    requires
        forall|i: int|
            0 <= i < es.len() ==> key_in_rules(ks, (#[trigger] es[i]).url, es[i].method),
    ensures
        spec_retain(es, ks) == es,
    decreases es.len(),
{
    if es.len() > 0 {
        let dl = es.drop_last();
        assert(forall|i: int| 0 <= i < dl.len() ==> (#[trigger] dl[i]) == es[i]);
        lemma_retain_identity(dl, ks);
        assert(key_in_rules(ks, es.last().url, es.last().method));
        assert(spec_retain(es, ks) =~= es);
    }
}

/// Applying a key list to a distinct table that already holds a configured
/// entry for every valid key changes nothing.
proof fn lemma_apply_from_identity(es: Seq<EntryModel>, ks: Seq<RuleKey>, t: int)
    requires
        entries_key_distinct(es),
        forall|j: int|
            0 <= j < ks.len() && regex_valid((#[trigger] ks[j]).url) ==> has_conf_entry(es, ks[j]),
    ensures
        spec_apply_from(es, ks, t) == es,
    decreases ks.len() - t,
{
    if 0 <= t < ks.len() {
        let k = ks[t];
        if regex_valid(k.url) {
            lemma_find_entry_props(es, k.url, k.method);
            let i = spec_find_entry(es, k.url, k.method);
            let w = choose|w: int|
                0 <= w < es.len() && (#[trigger] es[w]).url == k.url && es[w].method == k.method
                    && es[w].limiter.init_capacity == 1 && es[w].limiter.fill_rate == k.rate
                    && es[w].limiter.shard_num == Some(1u32);
            assert(i >= 0);
            // keys are distinct, so the first entry under the key is the witness
            if i != w {
                assert(!(es[i].url == es[w].url && es[i].method == es[w].method));
            }
            assert(spec_apply_key(es, k) == es);
        }
        lemma_apply_from_identity(es, ks, t + 1);
    }
}

/// Resetting the limiter table twice from the same configuration is the
/// same as resetting it once: the second reset finds, for every key the
/// configuration asks for, an entry already configured that way, keeps it —
/// token counters included — and removes nothing the first reset kept.
/// This holds for every configuration whose rules do not ask two different
/// rates of one `(url, method)` key.
pub proof fn lemma_reset_idempotent(es: Seq<EntryModel>, rules: Seq<UrlRateConfig>)
    requires
        entries_key_distinct(es),
        rate_consistent(expand_rules(rules)),
    ensures
        spec_reset(spec_reset(es, rules), rules) == spec_reset(es, rules),
{
    let ks = expand_rules(rules);
    let a1 = spec_apply_from(es, ks, 0);
    let r1 = spec_retain(a1, ks);
    lemma_apply_from_distinct(es, ks, 0);
    lemma_retain_props(a1, ks);
    lemma_apply_from_ensures(es, ks, 0);
    lemma_retain_membership(a1, ks);
    // every valid key's configured entry survives the first retain
    assert forall|j: int|
        0 <= j < ks.len() && regex_valid((#[trigger] ks[j]).url) implies has_conf_entry(
        r1,
        ks[j],
    ) by {
        let w = choose|w: int|
            0 <= w < a1.len() && (#[trigger] a1[w]).url == ks[j].url && a1[w].method
                == ks[j].method && a1[w].limiter.init_capacity == 1 && a1[w].limiter.fill_rate
                == ks[j].rate && a1[w].limiter.shard_num == Some(1u32);
        assert(key_in_rules(ks, a1[w].url, a1[w].method));
        assert(r1.contains(a1[w]));
        let n = choose|n: int| 0 <= n < r1.len() && r1[n] == a1[w];
        assert(r1[n].url == ks[j].url);
    }
    lemma_apply_from_identity(r1, ks, 0);
    lemma_retain_identity(r1, ks);
}

} // verus!
