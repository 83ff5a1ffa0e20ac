//! The request pipeline's decisions: admission through the rate limiter,
//! per-handler parameter checking and routing-key derivation, and the
//! response envelope every handler answers with.

use vstd::prelude::*;
use crate::hashing::{bincode_encode_u64, bincode_u64_of, murmur3_x64_128_low, murmur3_x64_128_low_of};
use crate::load_balance::BalancePolicy;
use crate::random::random_i32;
use crate::rate_limiter::{spec_check, Decision, LimiterTable};
use crate::text::{digits_val, is_u64_digits, lower_chars, parse_u64};

verus! {

pub const STATUS_OK: u16 = 200;

pub const STATUS_BAD_REQUEST: u16 = 400;

pub const STATUS_REQUEST_TIMEOUT: u16 = 408;

pub const STATUS_GONE: u16 = 410;

pub const STATUS_TOO_MANY_REQUESTS: u16 = 429;

pub const STATUS_INTERNAL_SERVER_ERROR: u16 = 500;

/// The response envelope: a status code, a message, and the payload when
/// there is one.
#[derive(Debug)]
pub struct R<T> {
    pub code: u16,
    pub msg: String,
    pub data: Option<T>,
}

impl<T> R<T> {
    /// A successful response carrying `data`.
    pub fn ok(data: T) -> (r: Self)
        ensures
            r.code == STATUS_OK,
            r.msg@.len() == 0,
            r.data == Some(data),
    {
        R { code: STATUS_OK, msg: String::new(), data: Some(data) }
    }

    /// A failed response with the given status code and message.
    pub fn error_status_code(code: u16, msg: &str) -> (r: Self)
        ensures
            r.code == code,
            r.msg@ == msg@,
            r.data is None,
    {
        R { code, msg: msg.to_owned(), data: None }
    }

    /// A failed response with status 500 and the given message.
    pub fn server_error(msg: &str) -> (r: Self)
        ensures
            r.code == STATUS_INTERNAL_SERVER_ERROR,
            r.msg@ == msg@,
            r.data is None,
    {
        Self::error_status_code(STATUS_INTERNAL_SERVER_ERROR, msg)
    }
}

/// What the timeout layer answers when a handler overruns its budget.
pub fn timeout_handler() -> (r: (u16, &'static str))
    ensures
        r.0 == STATUS_REQUEST_TIMEOUT,
        r.1@ == "Timeout!\n"@,
{
    (STATUS_REQUEST_TIMEOUT, "Timeout!\n")
}

/// The headers every response carries: wide-open CORS.
pub fn cors_headers() -> (r: Vec<(&'static str, &'static str)>)
    ensures
        r@.len() == 3,
        r@[0].0@ == "Access-Control-Allow-Origin"@ && r@[0].1@ == "*"@,
        r@[1].0@ == "Access-Control-Allow-Headers"@ && r@[1].1@ == "*"@,
        r@[2].0@ == "Access-Control-Allow-Method"@ && r@[2].1@ == "*"@,
{
    let mut v: Vec<(&'static str, &'static str)> = Vec::new();
    v.push(("Access-Control-Allow-Origin", "*"));
    v.push(("Access-Control-Allow-Headers", "*"));
    v.push(("Access-Control-Allow-Method", "*"));
    v
}

/// Which RPC clients were built at startup. A handler whose client is
/// absent answers 410 Gone.
#[derive(Clone, Copy, PartialEq, Eq, Structural, Debug)]
pub struct ServiceContext {
    pub rpc_cli_user: bool,
    pub rpc_cli_order: bool,
}

/// The service this gateway fronts for user queries.
pub const RPC_USER_KEY: &'static str = "user";

/// The service this gateway fronts for order queries.
pub const RPC_ORDER_KEY: &'static str = "order";

/// The load-balancing policy a subscribed service is given: user queries
/// are routed by consistent hashing, order queries by weighted random;
/// any other service gets no client.
pub fn balance_policy_for(service: &String) -> (r: Option<BalancePolicy>)
    ensures
        service@ == "user"@ ==> r == Some(BalancePolicy::ConsistentHash),
        service@ == "order"@ ==> r == Some(BalancePolicy::WeightedRandom),
        service@ != "user"@ && service@ != "order"@ ==> r is None,
{
    proof {
        reveal_strlit("user");
        reveal_strlit("order");
        assert("user"@.len() == 4);
        assert("order"@.len() == 5);
        assert("user"@ != "order"@);
    }
    let user_key = String::from_str(RPC_USER_KEY);
    let order_key = String::from_str(RPC_ORDER_KEY);
    if *service == user_key {
        Some(BalancePolicy::ConsistentHash)
    } else if *service == order_key {
        Some(BalancePolicy::WeightedRandom)
    } else {
        None
    }
}

/// What the rate limiter decides for one request before any handler runs.
#[derive(Clone, Copy, PartialEq, Eq, Structural, Debug)]
pub enum PipelineOutcome {
    /// The request is answered with this status without reaching a
    /// handler.
    Rejected(u16),
    /// The request goes on to its handler.
    Dispatch,
}

/// Admit or reject one request: a request denied by the rate limiter is
/// rejected with 429 and never reaches a handler.
pub fn pipeline_admit(table: &mut LimiterTable, path: &String, method: &str) -> (o: PipelineOutcome)
    requires
        old(table).wf(),
    ensures
        exists|now_ms: u64|
            {
                &&& final(table)@ == #[trigger] spec_check(
                    old(table)@,
                    path@,
                    lower_chars(method@),
                    now_ms,
                ).1
                &&& o == (if spec_check(old(table)@, path@, lower_chars(method@), now_ms).0
                    == Decision::Deny {
                    PipelineOutcome::Rejected(429u16)
                } else {
                    PipelineOutcome::Dispatch
                })
            },
        o is Rejected ==> o == PipelineOutcome::Rejected(STATUS_TOO_MANY_REQUESTS),
        final(table).wf(),
{
    let ghost pre = table@;
    let d = table.do_rate_limiter(path, method);
    let o = match d {
        Decision::Deny => PipelineOutcome::Rejected(STATUS_TOO_MANY_REQUESTS),
        Decision::Allow => PipelineOutcome::Dispatch,
    };
    proof {
        let now_ms = choose|now_ms: u64|
            {
                &&& d == #[trigger] spec_check(pre, path@, lower_chars(method@), now_ms).0
                &&& table@ == spec_check(pre, path@, lower_chars(method@), now_ms).1
            };
        assert(table@ == spec_check(pre, path@, lower_chars(method@), now_ms).1);
    }
    o
}

/// What the user-query handler decides before calling out.
#[derive(Clone, Copy, PartialEq, Eq, Structural, Debug)]
pub enum UserQueryPlan {
    /// No RPC client for the user service: 410 Gone.
    Gone,
    /// The `id` query parameter is absent: 400 Bad Request.
    MissingParam,
    /// The `id` query parameter is not an integer: 400 Bad Request.
    BadParam,
    /// Call the user service with this id, routed by this request hash.
    Call(u64, u64),
}

/// The hash a request's routing key is turned into, for the
/// consistent-hash balancer to read: the low 64 bits of the 128-bit
/// MurmurHash3 of the bincode encoding of the key.
pub fn derive_request_hash(routing: u64) -> (h: u64)
    ensures
        h == murmur3_x64_128_low_of(bincode_u64_of(routing), 0),
{
    let b = bincode_encode_u64(routing);
    murmur3_x64_128_low(b.as_slice(), 0)
}

/// Decide a user query: absent client, then absent parameter, then an
/// unparseable parameter are rejected in that order; otherwise the call is
/// placed with the parsed id, routed by that id's request hash.
pub fn get_user_plan(ctx: &ServiceContext, id_param: Option<&String>) -> (p: UserQueryPlan)
    ensures
        !ctx.rpc_cli_user ==> p == UserQueryPlan::Gone,
        ctx.rpc_cli_user && id_param is None ==> p == UserQueryPlan::MissingParam,
        ctx.rpc_cli_user && id_param is Some && !is_u64_digits(id_param->0@) ==> p
            == UserQueryPlan::BadParam,
        ctx.rpc_cli_user && id_param is Some && is_u64_digits(id_param->0@) ==> (p matches
        UserQueryPlan::Call(id, h) && id == digits_val(id_param->0@) && h
            == murmur3_x64_128_low_of(bincode_u64_of(id), 0)),
{
    if !ctx.rpc_cli_user {
        return UserQueryPlan::Gone;
    }
    match id_param {
        None => UserQueryPlan::MissingParam,
        Some(s) => {
            match parse_u64(s.as_str()) {
                None => UserQueryPlan::BadParam,
                Some(id) => {
                    let h = derive_request_hash(id);
                    UserQueryPlan::Call(id, h)
                },
            }
        },
    }
}

/// The envelope a rejected user query is answered with, or nothing when
/// the plan is to place the call.
pub fn user_plan_rejection<T>(p: &UserQueryPlan) -> (r: Option<R<T>>)
    ensures
        *p == UserQueryPlan::Gone ==> r is Some && r->0.code == STATUS_GONE,
        *p == UserQueryPlan::MissingParam ==> r is Some && r->0.code == STATUS_BAD_REQUEST
            && r->0.msg@ == "id must not be empty"@,
        *p == UserQueryPlan::BadParam ==> r is Some && r->0.code == STATUS_BAD_REQUEST
            && r->0.msg@ == "id could not be parsed"@,
        (p matches UserQueryPlan::Call(_id, _h)) ==> r is None,
{
    match p {
        UserQueryPlan::Gone => Some(R::error_status_code(STATUS_GONE, "Gone")),
        UserQueryPlan::MissingParam => Some(
            R::error_status_code(STATUS_BAD_REQUEST, "id must not be empty"),
        ),
        UserQueryPlan::BadParam => Some(
            R::error_status_code(STATUS_BAD_REQUEST, "id could not be parsed"),
        ),
        UserQueryPlan::Call(_, _) => None,
    }
}

/// Wrap an RPC outcome in the response envelope: a success is answered
/// with 200 and the payload, a failure with 500 and the error's message.
pub fn rpc_response<T>(result: Result<T, String>) -> (r: R<T>)
    ensures
        result matches Ok(v) ==> r.code == STATUS_OK && r.data == Some(v) && r.msg@.len() == 0,
        result matches Err(m) ==> r.code == STATUS_INTERNAL_SERVER_ERROR && r.msg@ == m@
            && r.data is None,
{
    match result {
        Ok(v) => R::ok(v),
        Err(m) => R::server_error(m.as_str()),
    }
}

/// Answer a random number; the payload is whatever the generator drew.
pub fn get_random() -> (r: R<i32>)
    ensures
        r.code == STATUS_OK,
        r.data is Some,
{
    R::ok(random_i32())
}

} // verus!
