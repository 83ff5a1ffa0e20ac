//! The per-route rate-limit table.
//!
//! The table maps a `(url pattern, lowercase method)` key to an entry that
//! carries the compiled pattern and a keyed token-bucket limiter. It is
//! rebuilt from each accepted [`DynamicConfig`]; a rule whose pattern is
//! not a valid regular expression or whose rate is zero is rejected, and
//! an entry whose rule is unchanged keeps its bucket, so in-flight token
//! counters survive a no-op reload. Checking a request charges one token on every entry whose
//! pattern matches the path and whose method equals the request's
//! lowercase method; the first exhausted bucket denies the request.

use vstd::prelude::*;
use crate::app_config::{DynamicConfig, UrlRateConfig};
use crate::memory_rate_limiter::{
    keyed_wf, spec_keyed_acquire, KeyedLimiterModel, MemoryRateLimiter,
};
use crate::route_pattern::{regex_match, regex_valid, RoutePattern};
use crate::text::{ascii_lowercase, lower_chars};

verus! {

/// The group every configuration key of the gateway lives under.
pub const DEFAULT_GROUP: &'static str = "DEFAULT_GROUP";

/// One rate-limit entry: a URL pattern, the lowercase method it covers, and
/// the limiter charged for requests it matches.
pub struct ReteLimiterData {
    pub url: String,
    pub url_regex: RoutePattern,
    pub method: String,
    pub memory_rate_limiter: MemoryRateLimiter,
}

/// The mathematical state of a [`ReteLimiterData`].
#[verifier::ext_equal]
pub struct EntryModel {
    pub url: Seq<char>,
    pub method: Seq<char>,
    pub limiter: KeyedLimiterModel,
}

impl View for ReteLimiterData {
    type V = EntryModel;

    open spec fn view(&self) -> EntryModel {
        EntryModel { url: self.url@, method: self.method@, limiter: self.memory_rate_limiter@ }
    }
}

impl ReteLimiterData {
    /// A well-formed entry holds a valid pattern, compiled from exactly its
    /// `url` text, and a well-formed limiter.
    pub open spec fn wf(&self) -> bool {
        &&& regex_valid(self.url@)
        &&& self.url_regex.spec_pattern() == self.url@
        &&& keyed_wf(self.memory_rate_limiter@)
    }
}

/// The table of rate-limit entries, keyed by `(url, method)`.
pub struct LimiterTable {
    pub entries: Vec<ReteLimiterData>,
}

impl View for LimiterTable {
    type V = Seq<EntryModel>;

    open spec fn view(&self) -> Seq<EntryModel> {
        self.entries@.map_values(|e: ReteLimiterData| e@)
    }
}

/// No two entries share a `(url, method)` key.
pub open spec fn entries_key_distinct(es: Seq<EntryModel>) -> bool {
    forall|i: int, j: int|
        0 <= i < j < es.len()
            ==> !((#[trigger] es[i]).url == (#[trigger] es[j]).url && es[i].method
            == es[j].method)
}

impl LimiterTable {
    /// A well-formed table holds well-formed entries and no two entries
    /// under the same `(url, method)` key.
    pub open spec fn wf(&self) -> bool {
        &&& forall|i: int| 0 <= i < self.entries@.len() ==> (#[trigger] self.entries@[i]).wf()
        &&& entries_key_distinct(self@)
    }

    /// An empty table: every request passes.
    pub fn new() -> (t: Self)
        ensures
            t@.len() == 0,
            t.wf(),
    {
        let t = LimiterTable { entries: Vec::new() };
        proof {
            assert(t@ =~= Seq::<EntryModel>::empty());
        }
        t
    }
}

/// One `(url, lowercase method, rate)` key a configuration asks a limiter
/// for.
#[verifier::ext_equal]
pub struct RuleKey {
    pub url: Seq<char>,
    pub method: Seq<char>,
    pub rate: u64,
}

/// The keys one rule expands to: one per method, in the rule's order, with
/// the method folded to lowercase.
pub open spec fn expand_rule(r: UrlRateConfig) -> Seq<RuleKey> {
    Seq::new(
        r.method@.len(),
        |j: int| RuleKey { url: r.url@, method: lower_chars(r.method@[j]@), rate: r.rate },
    )
}

/// The keys a whole configuration expands to, rule by rule. Validation
/// rejects a rule whose rate is zero: such a rule contributes no keys, so
/// it neither creates an entry nor keeps an existing one alive.
pub open spec fn expand_rules(rules: Seq<UrlRateConfig>) -> Seq<RuleKey>
    decreases rules.len(),
{
    if rules.len() == 0 {
        Seq::empty()
    } else {
        expand_rules(rules.drop_last()) + if rules.last().rate == 0 {
            Seq::empty()
        } else {
            expand_rule(rules.last())
        }
    }
}

/// Whether some key in `ks` is for `(url, method)`.
pub open spec fn key_in_rules(ks: Seq<RuleKey>, url: Seq<char>, method: Seq<char>) -> bool {
    exists|i: int| 0 <= i < ks.len() && (#[trigger] ks[i]).url == url && ks[i].method == method
}

/// The index of the first entry for `(url, method)`, or `-1` if there is
/// none.
pub open spec fn spec_find_entry(es: Seq<EntryModel>, url: Seq<char>, method: Seq<char>) -> int
    decreases es.len(),
{
    if es.len() == 0 {
        -1
    } else if es[0].url == url && es[0].method == method {
        0
    } else {
        let r = spec_find_entry(es.drop_first(), url, method);
        if r < 0 {
            -1
        } else {
            r + 1
        }
    }
}

pub proof fn lemma_find_entry_props(es: Seq<EntryModel>, url: Seq<char>, method: Seq<char>)
    ensures
        -1 <= spec_find_entry(es, url, method) < es.len(),
        spec_find_entry(es, url, method) >= 0 ==> es[spec_find_entry(es, url, method)].url == url
            && es[spec_find_entry(es, url, method)].method == method,
        forall|i: int|
            0 <= i < es.len() && (spec_find_entry(es, url, method) < 0 || i < spec_find_entry(
                es,
                url,
                method,
            )) ==> !((#[trigger] es[i]).url == url && es[i].method == method),
    decreases es.len(),
{
    if es.len() > 0 && !(es[0].url == url && es[0].method == method) {
        lemma_find_entry_props(es.drop_first(), url, method);
        assert(forall|i: int| 1 <= i < es.len() ==> (#[trigger] es[i]) == es.drop_first()[i - 1]);
    }
}

/// The entry a key is (re)built to: its pattern text and method, and a
/// fresh single-shard limiter granting `rate` tokens per second with a
/// bucket capacity of one.
pub open spec fn spec_fresh_entry(k: RuleKey) -> EntryModel {
    EntryModel {
        url: k.url,
        method: k.method,
        limiter: KeyedLimiterModel {
            buckets: Seq::empty(),
            init_capacity: 1u64,
            fill_rate: k.rate,
            shard_num: Some(1u32),
        },
    }
}

/// How one key changes the table: an invalid pattern is skipped; an entry
/// already configured as the key asks (capacity one, the key's rate, one
/// shard) is kept, token counters and all; any other entry under the key is
/// replaced, and a missing one is appended.
pub open spec fn spec_apply_key(es: Seq<EntryModel>, k: RuleKey) -> Seq<EntryModel> {
    if !regex_valid(k.url) {
        es
    } else {
        let i = spec_find_entry(es, k.url, k.method);
        if i >= 0 {
            let e = es[i];
            if e.limiter.init_capacity == 1 && e.limiter.fill_rate == k.rate
                && e.limiter.shard_num == Some(1u32) {
                es
            } else {
                es.update(i, spec_fresh_entry(k))
            }
        } else {
            es.push(spec_fresh_entry(k))
        }
    }
}

/// The table after the keys from index `t` on have been applied in order.
pub open spec fn spec_apply_from(es: Seq<EntryModel>, ks: Seq<RuleKey>, t: int) -> Seq<EntryModel>
    decreases ks.len() - t,
{
    if t < 0 || t >= ks.len() {
        es
    } else {
        spec_apply_from(spec_apply_key(es, ks[t]), ks, t + 1)
    }
}

/// The entries of `es`, in order, whose `(url, method)` key some key in
/// `ks` asks for.
pub open spec fn spec_retain(es: Seq<EntryModel>, ks: Seq<RuleKey>) -> Seq<EntryModel>
    decreases es.len(),
{
    if es.len() == 0 {
        es
    } else {
        spec_retain(es.drop_last(), ks) + if key_in_rules(ks, es.last().url, es.last().method) {
            seq![es.last()]
        } else {
            Seq::empty()
        }
    }
}

/// The table a configuration resets an existing table to: every key of the
/// configuration (zero-rate rules rejected) applied in order, then every
/// entry whose key the configuration no longer asks for removed.
pub open spec fn spec_reset(es: Seq<EntryModel>, rules: Seq<UrlRateConfig>) -> Seq<EntryModel> {
    let ks = expand_rules(rules);
    spec_retain(spec_apply_from(es, ks, 0), ks)
}

/// Listens for configuration pushes and rebuilds the limiter table from
/// those addressed to its data id.
pub struct RateLimiterConfigListener {
    pub data_id: String,
}

impl RateLimiterConfigListener {
    /// Whether a pushed configuration event is for this listener.
    pub fn applies_to(&self, data_id: &String) -> (r: bool)
        ensures
            r == (self.data_id@ == data_id@),
    {
        self.data_id == *data_id
    }

    /// Handle one configuration push: a push for another data id, or one
    /// whose payload did not parse, changes nothing; otherwise the table
    /// is rebuilt from the parsed configuration.
    pub fn notify(&self, table: &mut LimiterTable, data_id: &String, parsed: Option<&DynamicConfig>)
        requires
            old(table).wf(),
        ensures
            self.data_id@ != data_id@ || parsed is None ==> final(table)@ == old(table)@,
            self.data_id@ == data_id@ ==> (parsed matches Some(c) ==> ((c.url_rate is None
                ==> final(table)@ == old(table)@) && (c.url_rate matches Some(rules)
                ==> final(table)@ == spec_reset(old(table)@, rules@)))),
            final(table).wf(),
    {
        if self.applies_to(data_id) {
            match parsed {
                Some(config) => reset_limiter(table, config),
                None => {},
            }
        }
    }
}

/// The [`RuleKey`]s a vector of `(url, lowercase method, rate)` triples
/// stands for.
pub open spec fn triples_view(ts: Seq<(String, String, u64)>) -> Seq<RuleKey> {
    ts.map_values(|t: (String, String, u64)| RuleKey { url: t.0@, method: t.1@, rate: t.2 })
}

/// Every entry `spec_retain` keeps comes from the table it was given, and
/// keeping entries cannot make two of them share a key.
pub proof fn lemma_retain_props(es: Seq<EntryModel>, ks: Seq<RuleKey>)
    ensures
        forall|x: EntryModel| #[trigger] spec_retain(es, ks).contains(x) ==> es.contains(x),
        entries_key_distinct(es) ==> entries_key_distinct(spec_retain(es, ks)),
    decreases es.len(),
{
    if es.len() > 0 {
        let dl = es.drop_last();
        lemma_retain_props(dl, ks);
        assert(forall|i: int| 0 <= i < dl.len() ==> (#[trigger] dl[i]) == es[i]);
        assert forall|x: EntryModel| #[trigger] dl.contains(x) implies es.contains(x) by {
            let i = choose|i: int| 0 <= i < dl.len() && dl[i] == x;
            assert(es[i] == x);
        }
        let r = spec_retain(es, ks);
        let rdl = spec_retain(dl, ks);
        assert forall|x: EntryModel| #[trigger] r.contains(x) implies es.contains(x) by {
            let i = choose|i: int| 0 <= i < r.len() && r[i] == x;
            if i < rdl.len() {
                assert(rdl.contains(x));
            } else {
                assert(x == es.last());
                assert(es[es.len() - 1] == x);
            }
        }
        if entries_key_distinct(es) {
            assert(entries_key_distinct(dl));
            assert forall|i: int, j: int| 0 <= i < j < r.len() implies !((#[trigger] r[i]).url
                == (#[trigger] r[j]).url && r[i].method == r[j].method) by {
                if j < rdl.len() {
                    assert(rdl[i] == r[i] && rdl[j] == r[j]);
                } else {
                    assert(r[j] == es.last());
                    assert(rdl.contains(r[i]));
                    let n = choose|n: int| 0 <= n < dl.len() && dl[n] == r[i];
                    assert(es[n] == r[i]);
                    assert(es[es.len() - 1] == r[j]);
                }
            }
        }
    }
}

/// Keeping one more entry extends the kept sequence by that entry exactly
/// when the rule set still asks for its key.
pub proof fn lemma_retain_take_step(es: Seq<EntryModel>, ks: Seq<RuleKey>, k: int)
    requires
        0 <= k < es.len(),
    ensures
        spec_retain(es.take(k + 1), ks) == spec_retain(es.take(k), ks) + if key_in_rules(
            ks,
            es[k].url,
            es[k].method,
        ) {
            seq![es[k]]
        } else {
            Seq::<EntryModel>::empty()
        },
{
    assert(es.take(k + 1).drop_last() =~= es.take(k));
    assert(es.take(k + 1).last() == es[k]);
}

/// Whether some key in `keys` is for `(url, method)`.
fn key_in_exec(keys: &Vec<(String, String, u64)>, url: &String, method: &String) -> (r: bool)
    ensures
        r == key_in_rules(triples_view(keys@), url@, method@),
{
    let len = keys.len();
    let mut i: usize = 0;
    while i < len
        invariant
            len == keys@.len(),
            i <= len,
            forall|j: int|
                0 <= j < i ==> !((#[trigger] triples_view(keys@)[j]).url == url@
                && triples_view(keys@)[j].method == method@),
        decreases len - i,
    {
        if keys[i].0 == *url && keys[i].1 == *method {
            proof {
                assert((triples_view(keys@)[i as int]).url == url@
                    && triples_view(keys@)[i as int].method == method@);
            }
            return true;
        }
        i = i + 1;
    }
    false
}

/// The index of the first entry for `(url, method)`, if any.
fn find_entry_idx(table: &LimiterTable, url: &String, method: &String) -> (r: Option<usize>)
    ensures
        match r {
            Some(i) => i < table@.len() && spec_find_entry(table@, url@, method@) == i,
            None => spec_find_entry(table@, url@, method@) == -1,
        },
{
    proof {
        lemma_find_entry_props(table@, url@, method@);
    }
    let len = table.entries.len();
    let mut i: usize = 0;
    while i < len
        invariant
            len == table.entries@.len(),
            i <= len,
            forall|j: int|
                0 <= j < i ==> !((#[trigger] table@[j]).url == url@ && table@[j].method
                == method@),
        decreases len - i,
    {
        if table.entries[i].url == *url && table.entries[i].method == *method {
            proof {
                lemma_find_entry_props(table@, url@, method@);
                assert(table@[i as int].url == url@ && table@[i as int].method == method@);
            }
            return Some(i);
        }
        i = i + 1;
    }
    proof {
        lemma_find_entry_props(table@, url@, method@);
    }
    None
}

/// Expand a configuration into its `(url, lowercase method, rate)` keys,
/// rule by rule and method by method.
fn expand_config(rules: &Vec<UrlRateConfig>) -> (keys: Vec<(String, String, u64)>)
    ensures
        triples_view(keys@) == expand_rules(rules@),
{
    let mut keys: Vec<(String, String, u64)> = Vec::new();
    proof {
        assert(triples_view(keys@) =~= Seq::<RuleKey>::empty());
        assert(expand_rules(rules@.take(0)) =~= Seq::<RuleKey>::empty());
    }
    let rlen = rules.len();
    let mut ri: usize = 0;
    while ri < rlen
        invariant
            rlen == rules@.len(),
            ri <= rlen,
            triples_view(keys@) == expand_rules(rules@.take(ri as int)),
        decreases rlen - ri,
    {
        if rules[ri].rate == 0 {
            // validation rejects a zero-rate rule: it contributes no keys
            proof {
                assert(rules@.take(ri as int + 1).drop_last() =~= rules@.take(ri as int));
                assert(rules@.take(ri as int + 1).last() == rules@[ri as int]);
                assert(triples_view(keys@) =~= expand_rules(rules@.take(ri as int + 1)));
            }
            ri = ri + 1;
            continue;
        }
        let mlen = rules[ri].method.len();
        proof {
            assert(expand_rule(rules@[ri as int]).take(0) =~= Seq::<RuleKey>::empty());
            assert(triples_view(keys@) =~= expand_rules(rules@.take(ri as int)) + expand_rule(
                rules@[ri as int],
            ).take(0));
        }
        let mut mi: usize = 0;
        while mi < mlen
            invariant
                rlen == rules@.len(),
                ri < rlen,
                mlen == rules@[ri as int].method@.len(),
                mi <= mlen,
                triples_view(keys@) == expand_rules(rules@.take(ri as int)) + expand_rule(
                    rules@[ri as int],
                ).take(mi as int),
            decreases mlen - mi,
        {
            let ghost k0 = keys@;
            let lm = ascii_lowercase(rules[ri].method[mi].as_str());
            let u = rules[ri].url.clone();
            let rt = rules[ri].rate;
            let ghost newkey = RuleKey { url: u@, method: lm@, rate: rt };
            keys.push((u, lm, rt));
            proof {
                assert(triples_view(keys@) =~= triples_view(k0).push(newkey));
                assert(newkey == expand_rule(rules@[ri as int])[mi as int]);
                assert(expand_rule(rules@[ri as int]).take(mi as int + 1) =~= expand_rule(
                    rules@[ri as int],
                ).take(mi as int).push(newkey));
                assert(triples_view(keys@) =~= expand_rules(rules@.take(ri as int)) + expand_rule(
                    rules@[ri as int],
                ).take(mi as int + 1));
            }
            mi = mi + 1;
        }
        proof {
            assert(expand_rule(rules@[ri as int]).take(mlen as int) =~= expand_rule(
                rules@[ri as int],
            ));
            assert(rules@.take(ri as int + 1).drop_last() =~= rules@.take(ri as int));
            assert(rules@.take(ri as int + 1).last() == rules@[ri as int]);
            assert(triples_view(keys@) =~= expand_rules(rules@.take(ri as int + 1)));
        }
        ri = ri + 1;
    }
    proof {
        assert(rules@.take(rlen as int) =~= rules@);
    }
    keys
}

/// Apply every key to the table in order; see [`spec_apply_key`].
fn apply_keys(table: &mut LimiterTable, keys: &Vec<(String, String, u64)>)
    requires
        old(table).wf(),
    ensures
        final(table)@ == spec_apply_from(old(table)@, triples_view(keys@), 0),
        final(table).wf(),
{
    let ghost pre = table@;
    let ghost ks = triples_view(keys@);
    let klen = keys.len();
    let mut t: usize = 0;
    while t < klen
        invariant
            klen == keys@.len(),
            ks == triples_view(keys@),
            t <= klen,
            spec_apply_from(pre, ks, 0) == spec_apply_from(table@, ks, t as int),
            forall|j: int| 0 <= j < table.entries@.len() ==> (#[trigger] table.entries@[j]).wf(),
            entries_key_distinct(table@),
        decreases klen - t,
    {
        let ghost cur = table@;
        let ghost cur_entries = table.entries@;
        let url = &keys[t].0;
        let m = &keys[t].1;
        let rate = keys[t].2;
        proof {
            assert(ks[t as int] == (RuleKey { url: url@, method: m@, rate }));
            lemma_find_entry_props(cur, url@, m@);
        }
        let found = find_entry_idx(table, url, m);
        match found {
            Some(at) => {
                let unchanged = {
                    let lim = &table.entries[at].memory_rate_limiter;
                    lim.init_capacity == 1 && lim.fill_rate == rate && (match lim.shard_num {
                        Some(s) => s == 1,
                        None => false,
                    })
                };
                proof {
                    // the stored entry compiled, so the key's pattern is valid
                    assert(table.entries@[at as int].wf());
                    assert(regex_valid(url@));
                }
                if unchanged {
                    proof {
                        assert(spec_apply_key(cur, ks[t as int]) == cur);
                    }
                } else {
                    match RoutePattern::compile(url) {
                        Some(pat) => {
                            let fresh = ReteLimiterData {
                                url: url.clone(),
                                url_regex: pat,
                                method: m.clone(),
                                memory_rate_limiter: MemoryRateLimiter::new(1, rate, Some(1)),
                            };
                            proof {
                                assert(fresh@ =~= spec_fresh_entry(ks[t as int]));
                            }
                            table.entries.set(at, fresh);
                            proof {
                                assert(table@ =~= cur.update(at as int, spec_fresh_entry(
                                    ks[t as int],
                                )));
                                assert(table@ == spec_apply_key(cur, ks[t as int]));
                                assert forall|j: int| 0 <= j < table.entries@.len() implies
                                    (#[trigger] table.entries@[j]).wf() by {
                                    if j != at as int {
                                        assert(table.entries@[j] == cur_entries[j]);
                                    }
                                }
                            }
                        },
                        None => {
                            proof {
                                assert(false);
                            }
                        },
                    }
                }
            },
            None => {
                match RoutePattern::compile(url) {
                    Some(pat) => {
                        let fresh = ReteLimiterData {
                            url: url.clone(),
                            url_regex: pat,
                            method: m.clone(),
                            memory_rate_limiter: MemoryRateLimiter::new(1, rate, Some(1)),
                        };
                        proof {
                            assert(fresh@ =~= spec_fresh_entry(ks[t as int]));
                        }
                        table.entries.push(fresh);
                        proof {
                            assert(table@ =~= cur.push(spec_fresh_entry(ks[t as int])));
                            assert(table@ == spec_apply_key(cur, ks[t as int]));
                            assert forall|j: int| 0 <= j < table.entries@.len() implies
                                (#[trigger] table.entries@[j]).wf() by {
                                if j < cur_entries.len() {
                                    assert(table.entries@[j] == cur_entries[j]);
                                }
                            }
                        }
                    },
                    None => {
                        proof {
                            assert(!regex_valid(url@));
                            assert(spec_apply_key(cur, ks[t as int]) == cur);
                        }
                    },
                }
            },
        }
        t = t + 1;
    }
}

/// Drop every entry whose key the rule set no longer asks for; see
/// [`spec_retain`].
fn retain_keys(table: &mut LimiterTable, keys: &Vec<(String, String, u64)>)
    requires
        old(table).wf(),
    ensures
        final(table)@ == spec_retain(old(table)@, triples_view(keys@)),
        final(table).wf(),
{
    let ghost orig_view = table@;
    let ghost orig_entries = table.entries@;
    let ghost ks = triples_view(keys@);
    let orig_len = table.entries.len();
    let mut kept: Vec<ReteLimiterData> = Vec::new();
    let mut done: usize = 0;
    proof {
        assert(kept@.map_values(|e: ReteLimiterData| e@) =~= Seq::<EntryModel>::empty());
        assert(spec_retain(orig_view.take(0), ks) =~= Seq::<EntryModel>::empty());
    }
    while done < orig_len
        invariant
            orig_len == orig_entries.len(),
            orig_view == orig_entries.map_values(|e: ReteLimiterData| e@),
            done <= orig_len,
            done + table.entries@.len() == orig_len,
            table.entries@ == orig_entries.skip(done as int),
            kept@.map_values(|e: ReteLimiterData| e@) == spec_retain(orig_view.take(done as int), ks),
            ks == triples_view(keys@),
            forall|j: int| 0 <= j < kept@.len() ==> (#[trigger] kept@[j]).wf(),
            forall|j: int| 0 <= j < orig_entries.len() ==> (#[trigger] orig_entries[j]).wf(),
        decreases orig_len - done,
    {
        let ghost kept_pre = kept@;
        let e = table.entries.remove(0);
        proof {
            assert(e == orig_entries.skip(done as int)[0]);
            assert(e == orig_entries[done as int]);
            assert(e@ == orig_view[done as int]);
            assert(table.entries@ =~= orig_entries.skip(done as int + 1));
            lemma_retain_take_step(orig_view, ks, done as int);
        }
        let keep = key_in_exec(keys, &e.url, &e.method);
        if keep {
            kept.push(e);
            proof {
                assert(kept@.map_values(|x: ReteLimiterData| x@) =~= spec_retain(
                    orig_view.take(done as int + 1),
                    ks,
                ));
            }
        } else {
            proof {
                assert(kept@.map_values(|x: ReteLimiterData| x@) =~= spec_retain(
                    orig_view.take(done as int + 1),
                    ks,
                ));
            }
        }
        done = done + 1;
    }
    proof {
        assert(orig_view.take(orig_len as int) =~= orig_view);
    }
    table.entries = kept;
    proof {
        lemma_retain_props(orig_view, ks);
    }
}

/// Rebuild the table from a configuration: every key of the configuration
/// is applied in order (entries whose rule is unchanged keep their buckets)
/// and entries the configuration no longer asks for are removed. A rule
/// whose pattern is not a valid regular expression or whose rate is zero
/// is rejected: it creates no entry and keeps none alive. A configuration
/// without rules leaves the table untouched.
pub fn reset_limiter(table: &mut LimiterTable, dynamic_config: &DynamicConfig)
    requires
        old(table).wf(),
    ensures
        dynamic_config.url_rate is None ==> final(table)@ == old(table)@,
        dynamic_config.url_rate matches Some(rules) ==> final(table)@ == spec_reset(
            old(table)@,
            rules@,
        ),
        final(table).wf(),
{
    match &dynamic_config.url_rate {
        None => {},
        Some(rules) => {
            let keys = expand_config(rules);
            apply_keys(table, &keys);
            retain_keys(table, &keys);
        },
    }
}

/// What the rate limiter says about one request.
#[derive(Clone, Copy, PartialEq, Eq, Structural, Debug)]
pub enum Decision {
    Allow,
    Deny,
}

/// The decision and the new table state of a check walking the entries from
/// index `i` on: every matching entry is charged one token with the path as
/// the bucket key; the walk stops at the first denied charge.
pub open spec fn spec_check_from(
    es: Seq<EntryModel>,
    path: Seq<char>,
    lmethod: Seq<char>,
    now_ms: u64,
    i: int,
) -> (Decision, Seq<EntryModel>)
    decreases es.len() - i,
{
    if i < 0 || i >= es.len() {
        (Decision::Allow, es)
    } else {
        let e = es[i];
        if regex_match(e.url, path) && e.method == lmethod {
            let res = spec_keyed_acquire(e.limiter, path, 1u64, now_ms);
            let es2 = es.update(i, EntryModel { url: e.url, method: e.method, limiter: res.1 });
            if res.0 {
                spec_check_from(es2, path, lmethod, now_ms, i + 1)
            } else {
                (Decision::Deny, es2)
            }
        } else {
            spec_check_from(es, path, lmethod, now_ms, i + 1)
        }
    }
}

/// The decision and the new table state of a full check of `path` under the
/// (already lowercase) `lmethod` at time `now_ms`.
pub open spec fn spec_check(
    es: Seq<EntryModel>,
    path: Seq<char>,
    lmethod: Seq<char>,
    now_ms: u64,
) -> (Decision, Seq<EntryModel>) {
    spec_check_from(es, path, lmethod, now_ms, 0)
}

impl LimiterTable {
    /// Charge every entry matching `(path, method)` one token at time
    /// `now_ms` and report the decision. The method is folded to lowercase
    /// before it is compared.
    pub fn check_at(&mut self, path: &String, method: &str, now_ms: u64) -> (d: Decision)
        requires
            old(self).wf(),
        ensures
            d == spec_check(old(self)@, path@, lower_chars(method@), now_ms).0,
            final(self)@ == spec_check(old(self)@, path@, lower_chars(method@), now_ms).1,
            final(self).wf(),
    {
        let ghost pre = self@;
        let lmethod = ascii_lowercase(method);
        let len = self.entries.len();
        let mut i: usize = 0;
        while i < len
            invariant
                len == self.entries@.len(),
                i <= len,
                pre == old(self)@,
                lmethod@ == lower_chars(method@),
                spec_check_from(pre, path@, lmethod@, now_ms, 0) == spec_check_from(
                    self@,
                    path@,
                    lmethod@,
                    now_ms,
                    i as int,
                ),
                forall|j: int| 0 <= j < self.entries@.len() ==> (#[trigger] self.entries@[j]).wf(),
                entries_key_distinct(self@),
            decreases len - i,
        {
            let ghost at_view = self@;
            let ghost at_entries = self.entries@;
            let matched = self.entries[i].url_regex.is_match(path.as_str())
                && self.entries[i].method == lmethod;
            proof {
                assert(matched == (regex_match(at_view[i as int].url, path@)
                    && at_view[i as int].method == lmethod@));
            }
            if matched {
                let mut entry = self.entries.remove(i);
                let granted = entry.memory_rate_limiter.try_acquire_at(path.clone(), 1, now_ms);
                self.entries.insert(i, entry);
                proof {
                    let e = at_view[i as int];
                    let res = spec_keyed_acquire(e.limiter, path@, 1u64, now_ms);
                    assert(granted == res.0);
                    assert(self.entries@ =~= at_entries.update(i as int, self.entries@[i as int]));
                    assert(self@ =~= at_view.update(
                        i as int,
                        EntryModel { url: e.url, method: e.method, limiter: res.1 },
                    ));
                    assert forall|j: int| 0 <= j < self.entries@.len() implies
                        (#[trigger] self.entries@[j]).wf() by {
                        if j != i as int {
                            assert(self.entries@[j] == at_entries[j]);
                        }
                    }
                }
                if !granted {
                    proof {
                        let stepped = spec_check_from(at_view, path@, lmethod@, now_ms, i as int);
                        assert(stepped.0 == Decision::Deny);
                        assert(stepped.1 =~= self@);
                        assert(spec_check_from(pre, path@, lmethod@, now_ms, 0)
                            == (Decision::Deny, self@));
                    }
                    return Decision::Deny;
                }
            }
            i = i + 1;
        }
        Decision::Allow
    }

    /// Charge every entry matching `(path, method)` one token now and
    /// report the decision.
    pub fn do_rate_limiter(&mut self, path: &String, method: &str) -> (d: Decision)
        requires
            old(self).wf(),
        ensures
            exists|now_ms: u64|
                {
                    &&& d == #[trigger] spec_check(old(self)@, path@, lower_chars(method@), now_ms).0
                    &&& final(self)@ == spec_check(old(self)@, path@, lower_chars(method@), now_ms).1
                },
            final(self).wf(),
    {
        let now = crate::memory_rate_limiter::now_millis();
        self.check_at(path, method, now)
    }
}

} // verus!
