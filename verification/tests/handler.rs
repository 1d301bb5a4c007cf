use rpcproxy::cache::RpcCache;
use rpcproxy::handler::RequestPlan;
use rpcproxy::handler::begin_request;
use rpcproxy::handler::finish_request;
use rpcproxy::handler::resolve_waited;
use rpcproxy::handler::token_matches;
use rpcproxy::json::JsonValue;
use rpcproxy::jsonrpc::JsonRpcRequest;
use rpcproxy::jsonrpc::JsonRpcResponse;

fn request(method: &str, id: u64) -> JsonRpcRequest {
    JsonRpcRequest {
        jsonrpc: "2.0".to_string(),
        method: method.to_string(),
        params: JsonValue::Array(vec![]),
        id: JsonValue::Number(id.to_string()),
    }
}

fn upstream_answer(result: &str) -> JsonRpcResponse {
    JsonRpcResponse {
        jsonrpc: "2.0".to_string(),
        result: Some(JsonValue::Text(result.to_string())),
        error: None,
        id: JsonValue::Number("1".to_string()),
    }
}

#[test]
fn invalid_request_returns_error() {
    let mut cache = RpcCache::new(100, 2000);
    let req = request("", 1);
    match begin_request(&mut cache, &req, 0) {
        RequestPlan::Reply(resp) => {
            assert_eq!(resp.error.unwrap().code, -32600);
            assert_eq!(resp.id, JsonValue::Number("1".to_string()));
        }
        _ => panic!("an invalid request is answered at once"),
    }
}

#[test]
fn handler_invalid_json_returns_parse_error() {
    assert!(rpcproxy::jsonrpc::parse_body("not valid json").is_none());
    let resp = JsonRpcResponse::parse_error();
    assert_eq!(resp.error.unwrap().code, -32700);
    assert_eq!(resp.id, JsonValue::Null);
}

#[test]
fn batch_request_returns_array() {
    let body = rpcproxy::jsonrpc::parse_body(
        r#"[
            {"jsonrpc":"2.0","method":"eth_blockNumber","params":[],"id":1},
            {"jsonrpc":"2.0","method":"eth_chainId","params":[],"id":2}
        ]"#,
    )
    .unwrap();
    match body {
        rpcproxy::jsonrpc::JsonRpcBody::Batch(reqs) => {
            assert_eq!(reqs.len(), 2);
            assert_eq!(reqs[0].id, JsonValue::Number("1".to_string()));
            assert_eq!(reqs[1].id, JsonValue::Number("2".to_string()));
        }
        _ => panic!("expected batch"),
    }
}

#[test]
fn cache_hit_returns_callers_own_id() {
    let mut cache = RpcCache::new(100, 2000);

    let first = request("eth_blockNumber", 1);
    match begin_request(&mut cache, &first, 0) {
        RequestPlan::Fetch { registered } => assert!(registered),
        _ => panic!("a miss goes upstream"),
    }
    let (resp, _publish) = finish_request(&mut cache, &first, true, Some(upstream_answer("0xabc")), 0);
    assert_eq!(resp.id, JsonValue::Number("1".to_string()));

    let second = request("eth_blockNumber", 999);
    match begin_request(&mut cache, &second, 100) {
        RequestPlan::Reply(hit) => {
            assert_eq!(hit.result, Some(JsonValue::Text("0xabc".to_string())));
            assert_eq!(hit.id, JsonValue::Number("999".to_string()));
        }
        _ => panic!("the second identical request is served from the store"),
    }
}

#[test]
fn two_sequential_requests_make_one_upstream_call() {
    let mut cache = RpcCache::new(100, 2000);
    let mut upstream_calls: u32 = 0;

    for id in [1u64, 2u64] {
        let req = request("eth_blockNumber", id);
        match begin_request(&mut cache, &req, 10) {
            RequestPlan::Reply(resp) => {
                assert_eq!(resp.result, Some(JsonValue::Text("0x1".to_string())));
            }
            RequestPlan::Fetch { registered } => {
                upstream_calls += 1;
                let (_resp, _publish) =
                    finish_request(&mut cache, &req, registered, Some(upstream_answer("0x1")), 10);
            }
            RequestPlan::AwaitInflight => panic!("nothing is in flight here"),
        }
    }
    assert_eq!(upstream_calls, 1, "the second request must hit the store");
}

#[test]
fn concurrent_identical_requests_coalesce() {
    let mut cache = RpcCache::new(100, 2000);

    let first = request("eth_getBalance", 1);
    match begin_request(&mut cache, &first, 0) {
        RequestPlan::Fetch { registered } => assert!(registered),
        _ => panic!("the first arrival claims the flight"),
    }

    // A second identical request arrives before the first completes.
    let second = request("eth_getBalance", 2);
    match begin_request(&mut cache, &second, 1) {
        RequestPlan::AwaitInflight => {}
        _ => panic!("the second arrival must wait, not call upstream"),
    }

    // The first completes; what it publishes reaches the waiter, which takes
    // the value under its own id.
    let (resp1, publish) = finish_request(&mut cache, &first, true, Some(upstream_answer("0x5")), 2);
    assert_eq!(resp1.id, JsonValue::Number("1".to_string()));
    let shared = publish.expect("a cacheable success is published");
    let resp2 = resolve_waited(&second, Some(&shared)).unwrap();
    assert_eq!(resp2.result, Some(JsonValue::Text("0x5".to_string())));
    assert_eq!(resp2.id, JsonValue::Number("2".to_string()));

    // The slot is gone afterwards.
    assert!(!cache.subscribe_inflight(&first.cache_key()));
}

#[test]
fn closed_flight_lets_the_waiter_proceed() {
    let req = request("eth_blockNumber", 3);
    assert!(resolve_waited(&req, None).is_none());
}

#[test]
fn uncacheable_methods_never_enter_the_store() {
    let mut cache = RpcCache::new(100, 2000);
    let req = request("eth_sendRawTransaction", 1);

    match begin_request(&mut cache, &req, 0) {
        RequestPlan::Fetch { registered } => assert!(!registered, "no slot for uncacheable work"),
        _ => panic!("an uncacheable request always goes upstream"),
    }
    let (resp, publish) = finish_request(&mut cache, &req, false, Some(upstream_answer("0xdead")), 0);
    assert_eq!(resp.result, Some(JsonValue::Text("0xdead".to_string())));
    assert!(publish.is_none());
    assert_eq!(cache.entry_count(), 0, "nothing may be stored");

    // A second identical request goes upstream again.
    match begin_request(&mut cache, &req, 1) {
        RequestPlan::Fetch { registered } => assert!(!registered),
        _ => panic!("uncacheable answers are never served from the store"),
    }
}

#[test]
fn upstream_error_responses_are_returned_but_not_cached() {
    let mut cache = RpcCache::new(100, 2000);
    let req = request("eth_blockNumber", 1);
    match begin_request(&mut cache, &req, 0) {
        RequestPlan::Fetch { registered } => assert!(registered),
        _ => panic!("a miss goes upstream"),
    }
    let failed = JsonRpcResponse::error(JsonValue::Number("1".to_string()), -32000, "backend says no");
    let (resp, publish) = finish_request(&mut cache, &req, true, Some(failed), 0);
    assert_eq!(resp.error.unwrap().code, -32000);
    assert!(publish.is_none());
    assert_eq!(cache.entry_count(), 0, "error answers are not cached");
    assert!(!cache.subscribe_inflight(&req.cache_key()), "the slot is released");
}

#[test]
fn failed_upstream_becomes_internal_error() {
    let mut cache = RpcCache::new(100, 2000);
    let req = request("eth_blockNumber", 42);
    match begin_request(&mut cache, &req, 0) {
        RequestPlan::Fetch { registered } => assert!(registered),
        _ => panic!("a miss goes upstream"),
    }
    let (resp, publish) = finish_request(&mut cache, &req, true, None, 0);
    assert_eq!(resp.error.unwrap().code, -32603);
    assert_eq!(resp.id, JsonValue::Number("42".to_string()));
    assert!(publish.is_none());
    assert!(!cache.subscribe_inflight(&req.cache_key()), "the slot is released");
}

#[test]
fn cached_entry_respects_policy_ttl() {
    let mut cache = RpcCache::new(100, 2000);
    let req = JsonRpcRequest {
        jsonrpc: "2.0".to_string(),
        method: "eth_getBlockByNumber".to_string(),
        params: JsonValue::Array(vec![
            JsonValue::Text("0x123".to_string()),
            JsonValue::Bool(true),
        ]),
        id: JsonValue::Number("1".to_string()),
    };
    match begin_request(&mut cache, &req, 0) {
        RequestPlan::Fetch { registered } => assert!(registered),
        _ => panic!("a miss goes upstream"),
    }
    let _ = finish_request(&mut cache, &req, true, Some(upstream_answer("0xblock")), 0);

    // An immutable answer outlives the two-second default by a long way.
    assert!(cache.get(&req.cache_key(), 3_599_999).is_some());
    assert!(cache.get(&req.cache_key(), 3_600_000).is_none());
}

#[test]
fn bearer_token_gate() {
    let secret = Some("secret".to_string());
    let open: Option<String> = None;
    let presented = "secret".to_string();
    let wrong = "wrong".to_string();

    assert!(token_matches(&open, None));
    assert!(token_matches(&open, Some(&presented)));
    assert!(token_matches(&secret, Some(&presented)));
    assert!(!token_matches(&secret, Some(&wrong)));
    assert!(!token_matches(&secret, None));
}
