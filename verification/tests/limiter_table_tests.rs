use gateway_core::app_config::{DynamicConfig, UrlRateConfig};
use gateway_core::rate_limiter::{
    reset_limiter, Decision, LimiterTable, RateLimiterConfigListener,
};
use gateway_core::route_pattern::RoutePattern;

fn rule(url: &str, methods: &[&str], rate: u64) -> UrlRateConfig {
    UrlRateConfig {
        url: url.to_string(),
        method: methods.iter().map(|m| m.to_string()).collect(),
        rate,
    }
}

fn config(rules: Vec<UrlRateConfig>) -> DynamicConfig {
    DynamicConfig { url_rate: Some(rules) }
}

#[test]
fn regex_test() {
    let re = RoutePattern::compile(&"/user.*".to_string()).unwrap();
    assert_eq!(re.is_match("/user/query-one"), true);
}

#[test]
fn test_scenario_burst_then_deny() {
    // one rule at two tokens per second; three requests within 100 ms:
    // the first stores the bucket, the second drains it, the third is denied
    let mut table = LimiterTable::new();
    reset_limiter(&mut table, &config(vec![rule("/u.*", &["GET"], 2)]));
    let t0: u64 = 10_000;
    let path = "/user".to_string();
    assert_eq!(table.check_at(&path, "GET", t0), Decision::Allow);
    assert_eq!(table.check_at(&path, "GET", t0 + 50), Decision::Allow);
    assert_eq!(table.check_at(&path, "GET", t0 + 100), Decision::Deny);
    // after 1100 ms the bucket has refilled
    assert_eq!(table.check_at(&path, "GET", t0 + 100 + 1100), Decision::Allow);
}

#[test]
fn test_scenario_distinct_keys_per_method() {
    // a rule covering GET and POST keeps one bucket per method: draining
    // the GET bucket leaves POST admissible
    let mut table = LimiterTable::new();
    reset_limiter(&mut table, &config(vec![rule("/u.*", &["GET", "POST"], 1)]));
    let t0: u64 = 42_000;
    let path = "/user".to_string();
    assert_eq!(table.check_at(&path, "GET", t0), Decision::Allow);
    assert_eq!(table.check_at(&path, "GET", t0), Decision::Allow);
    assert_eq!(table.check_at(&path, "GET", t0), Decision::Deny);
    assert_eq!(table.check_at(&path, "POST", t0), Decision::Allow);
}

#[test]
fn test_method_is_case_insensitive() {
    let mut table = LimiterTable::new();
    reset_limiter(&mut table, &config(vec![rule("/a", &["GeT"], 1)]));
    let t0: u64 = 1_000;
    let path = "/a".to_string();
    // the rule method and the request method are both folded to lowercase
    assert_eq!(table.check_at(&path, "get", t0), Decision::Allow);
    assert_eq!(table.check_at(&path, "GET", t0), Decision::Allow);
    assert_eq!(table.check_at(&path, "gEt", t0), Decision::Deny);
}

#[test]
fn test_unmatched_path_passes() {
    let mut table = LimiterTable::new();
    reset_limiter(&mut table, &config(vec![rule("/u.*", &["GET"], 1)]));
    let t0: u64 = 5_000;
    // no entry matches, so nothing is charged and everything passes
    for _ in 0..10 {
        assert_eq!(table.check_at(&"/orders".to_string(), "GET", t0), Decision::Allow);
    }
}

#[test]
fn test_reset_idempotent_keeps_counters() {
    // resetting with an unchanged configuration keeps the drained bucket
    let c = config(vec![rule("/u.*", &["GET"], 1)]);
    let mut table = LimiterTable::new();
    reset_limiter(&mut table, &c);
    let t0: u64 = 77_000;
    let path = "/user".to_string();
    assert_eq!(table.check_at(&path, "GET", t0), Decision::Allow);
    assert_eq!(table.check_at(&path, "GET", t0), Decision::Allow);
    assert_eq!(table.check_at(&path, "GET", t0), Decision::Deny);
    reset_limiter(&mut table, &c);
    // still denied: the bucket survived the reset
    assert_eq!(table.check_at(&path, "GET", t0), Decision::Deny);
}

#[test]
fn test_reset_with_new_rate_replaces_bucket() {
    let mut table = LimiterTable::new();
    reset_limiter(&mut table, &config(vec![rule("/u.*", &["GET"], 1)]));
    let t0: u64 = 88_000;
    let path = "/user".to_string();
    assert_eq!(table.check_at(&path, "GET", t0), Decision::Allow);
    assert_eq!(table.check_at(&path, "GET", t0), Decision::Allow);
    assert_eq!(table.check_at(&path, "GET", t0), Decision::Deny);
    // a different rate replaces the entry, buckets and all
    reset_limiter(&mut table, &config(vec![rule("/u.*", &["GET"], 9)]));
    assert_eq!(table.check_at(&path, "GET", t0), Decision::Allow);
}

#[test]
fn test_reset_removes_stale_entries() {
    let mut table = LimiterTable::new();
    reset_limiter(&mut table, &config(vec![rule("/u.*", &["GET"], 1)]));
    let t0: u64 = 99_000;
    let path = "/user".to_string();
    assert_eq!(table.check_at(&path, "GET", t0), Decision::Allow);
    assert_eq!(table.check_at(&path, "GET", t0), Decision::Allow);
    assert_eq!(table.check_at(&path, "GET", t0), Decision::Deny);
    // the new configuration no longer covers the key, so the entry goes
    reset_limiter(&mut table, &config(vec![rule("/orders", &["GET"], 1)]));
    assert_eq!(table.check_at(&path, "GET", t0), Decision::Allow);
    assert_eq!(table.entries.len(), 1);
}

#[test]
fn test_invalid_pattern_is_skipped() {
    let mut table = LimiterTable::new();
    reset_limiter(
        &mut table,
        &config(vec![rule("(", &["GET"], 1), rule("/ok", &["GET"], 1)]),
    );
    // only the valid rule produced an entry
    assert_eq!(table.entries.len(), 1);
    assert_eq!(table.entries[0].url, "/ok");
}

#[test]
fn test_zero_rate_rule_is_rejected() {
    // a zero-rate rule fails validation: it creates no entry
    let mut table = LimiterTable::new();
    reset_limiter(
        &mut table,
        &config(vec![rule("/u.*", &["GET"], 0), rule("/ok", &["GET"], 1)]),
    );
    assert_eq!(table.entries.len(), 1);
    assert_eq!(table.entries[0].url, "/ok");
    // and it keeps no existing entry alive: pushing the same key again
    // with rate zero removes the old entry
    reset_limiter(&mut table, &config(vec![rule("/ok", &["GET"], 0)]));
    assert_eq!(table.entries.len(), 0);
}

#[test]
fn test_empty_config_leaves_table_alone() {
    let mut table = LimiterTable::new();
    reset_limiter(&mut table, &config(vec![rule("/u.*", &["GET"], 1)]));
    assert_eq!(table.entries.len(), 1);
    reset_limiter(&mut table, &DynamicConfig { url_rate: None });
    assert_eq!(table.entries.len(), 1);
}

#[test]
fn test_listener_filters_by_data_id() {
    let listener = RateLimiterConfigListener { data_id: "gateway".to_string() };
    let mut table = LimiterTable::new();
    let c = config(vec![rule("/u.*", &["GET"], 1)]);
    listener.notify(&mut table, &"other".to_string(), Some(&c));
    assert_eq!(table.entries.len(), 0);
    listener.notify(&mut table, &"gateway".to_string(), None);
    assert_eq!(table.entries.len(), 0);
    listener.notify(&mut table, &"gateway".to_string(), Some(&c));
    assert_eq!(table.entries.len(), 1);
}
