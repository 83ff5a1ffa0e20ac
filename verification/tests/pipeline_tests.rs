use gateway_core::app_config::{DynamicConfig, UrlRateConfig};
use gateway_core::controller::{
    balance_policy_for, cors_headers, get_random, pipeline_admit, rpc_response, timeout_handler,
    user_plan_rejection, PipelineOutcome, ServiceContext, UserQueryPlan, R,
    STATUS_BAD_REQUEST, STATUS_GONE, STATUS_INTERNAL_SERVER_ERROR, STATUS_OK,
    STATUS_REQUEST_TIMEOUT, STATUS_TOO_MANY_REQUESTS,
};
use gateway_core::controller::{derive_request_hash, get_user_plan};
use gateway_core::load_balance::BalancePolicy;
use gateway_core::rate_limiter::{reset_limiter, Decision, LimiterTable};
use gateway_core::svc_discover::{DiscoveryView, RawInstance};

fn denying_table(t0: u64) -> LimiterTable {
    let mut table = LimiterTable::new();
    let config = DynamicConfig {
        url_rate: Some(vec![UrlRateConfig {
            url: "/x".to_string(),
            method: vec!["GET".to_string()],
            rate: 1,
        }]),
    };
    reset_limiter(&mut table, &config);
    // drain the bucket at `t0` so the next checks there deny
    let path = "/x".to_string();
    assert_eq!(table.check_at(&path, "GET", t0), Decision::Allow);
    assert_eq!(table.check_at(&path, "GET", t0), Decision::Allow);
    assert_eq!(table.check_at(&path, "GET", t0), Decision::Deny);
    table
}

fn wall_clock_ms() -> u64 {
    std::time::SystemTime::now()
        .duration_since(std::time::UNIX_EPOCH)
        .unwrap()
        .as_millis() as u64
}

#[test]
fn test_denied_request_never_reaches_handler() {
    // a mock handler behind the admission step: it only runs on Dispatch,
    // and a denied request never produces a Dispatch
    let t: u64 = 1_000;
    let mut table = denying_table(t);
    let mut handler_calls: u32 = 0;
    let path = "/x".to_string();
    for _ in 0..50 {
        let d = table.check_at(&path, "GET", t);
        if d == Decision::Allow {
            handler_calls += 1;
        }
    }
    assert_eq!(handler_calls, 0);
}

#[test]
fn test_pipeline_admit_maps_deny_to_429() {
    // drain against the real clock: the bucket refills at one token per
    // second, so an admission right after draining is denied
    let mut table = denying_table(wall_clock_ms());
    let path = "/x".to_string();
    match pipeline_admit(&mut table, &path, "GET") {
        PipelineOutcome::Rejected(code) => assert_eq!(code, STATUS_TOO_MANY_REQUESTS),
        PipelineOutcome::Dispatch => {
            // only reachable if more than half a second passed since the
            // drain above; admit once more immediately, which must deny
            match pipeline_admit(&mut table, &path, "GET") {
                PipelineOutcome::Rejected(code) => assert_eq!(code, STATUS_TOO_MANY_REQUESTS),
                PipelineOutcome::Dispatch => panic!("two dispatches within one refill window"),
            }
        },
    }
}

#[test]
fn test_pipeline_admit_passes_unlimited_routes() {
    let mut table = LimiterTable::new();
    assert_eq!(
        pipeline_admit(&mut table, &"/anything".to_string(), "GET"),
        PipelineOutcome::Dispatch
    );
}

#[test]
fn test_user_plan_rejections() {
    let no_client = ServiceContext { rpc_cli_user: false, rpc_cli_order: false };
    let with_client = ServiceContext { rpc_cli_user: true, rpc_cli_order: false };
    assert_eq!(get_user_plan(&no_client, None), UserQueryPlan::Gone);
    assert_eq!(get_user_plan(&with_client, None), UserQueryPlan::MissingParam);
    assert_eq!(
        get_user_plan(&with_client, Some(&"12x".to_string())),
        UserQueryPlan::BadParam
    );
    assert_eq!(
        get_user_plan(&with_client, Some(&"".to_string())),
        UserQueryPlan::BadParam
    );
    match get_user_plan(&with_client, Some(&"42".to_string())) {
        UserQueryPlan::Call(id, hash) => {
            assert_eq!(id, 42);
            // the routing hash derives from the parsed id
            assert_eq!(hash, derive_request_hash(42));
        },
        other => panic!("expected a call plan, got {:?}", other),
    }
}

#[test]
fn test_user_plan_response_mentions_id() {
    let r: Option<R<u32>> = user_plan_rejection(&UserQueryPlan::MissingParam);
    let r = r.unwrap();
    assert_eq!(r.code, STATUS_BAD_REQUEST);
    assert!(r.msg.contains("id"));
    let r: Option<R<u32>> = user_plan_rejection(&UserQueryPlan::BadParam);
    let r = r.unwrap();
    assert_eq!(r.code, STATUS_BAD_REQUEST);
    assert!(r.msg.contains("id"));
    let r: Option<R<u32>> = user_plan_rejection(&UserQueryPlan::Gone);
    assert_eq!(r.unwrap().code, STATUS_GONE);
    let r: Option<R<u32>> = user_plan_rejection(&UserQueryPlan::Call(1, 2));
    assert!(r.is_none());
}

#[test]
fn test_rpc_response_envelope() {
    let ok = rpc_response::<u32>(Ok(5));
    assert_eq!(ok.code, STATUS_OK);
    assert_eq!(ok.data, Some(5));
    assert_eq!(ok.msg, "");
    let err = rpc_response::<u32>(Err("boom".to_string()));
    assert_eq!(err.code, STATUS_INTERNAL_SERVER_ERROR);
    assert_eq!(err.msg, "boom");
    assert!(err.data.is_none());
}

#[test]
fn test_timeout_and_cors() {
    let (code, body) = timeout_handler();
    assert_eq!(code, STATUS_REQUEST_TIMEOUT);
    assert_eq!(body, "Timeout!\n");
    let headers = cors_headers();
    assert_eq!(headers.len(), 3);
    assert_eq!(headers[0], ("Access-Control-Allow-Origin", "*"));
    assert_eq!(headers[1], ("Access-Control-Allow-Headers", "*"));
    assert_eq!(headers[2], ("Access-Control-Allow-Method", "*"));
}

#[test]
fn test_balance_policy_choice() {
    assert_eq!(
        balance_policy_for(&"user".to_string()),
        Some(BalancePolicy::ConsistentHash)
    );
    assert_eq!(
        balance_policy_for(&"order".to_string()),
        Some(BalancePolicy::WeightedRandom)
    );
    assert_eq!(balance_policy_for(&"billing".to_string()), None);
}

#[test]
fn test_get_random_wraps_ok() {
    let r = get_random();
    assert_eq!(r.code, STATUS_OK);
    assert!(r.data.is_some());
}

#[test]
fn test_user_query_during_and_after_outage() {
    // while discovery has never delivered the service, every user query is
    // Gone; once an instance event lands, the call goes through
    let mut view = DiscoveryView::new();
    let user = "user".to_string();
    let ctx = ServiceContext {
        rpc_cli_user: view.lookup(&user).is_some(),
        rpc_cli_order: false,
    };
    let plan = get_user_plan(&ctx, Some(&"1".to_string()));
    assert_eq!(plan, UserQueryPlan::Gone);
    assert_eq!(user_plan_rejection::<u32>(&plan).unwrap().code, STATUS_GONE);

    view.apply_event(&user, &vec![RawInstance { ip: "1.1.1.1".to_string(), port: 80, weight: 1 }]);
    let ctx = ServiceContext {
        rpc_cli_user: view.lookup(&user).is_some(),
        rpc_cli_order: false,
    };
    match get_user_plan(&ctx, Some(&"1".to_string())) {
        UserQueryPlan::Call(id, _hash) => assert_eq!(id, 1),
        other => panic!("expected a call plan after recovery, got {:?}", other),
    }
}
