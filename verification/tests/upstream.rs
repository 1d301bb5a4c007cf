use rpcproxy::json::JsonValue;
use rpcproxy::jsonrpc::JsonRpcResponse;
use rpcproxy::upstream::BackendState;
use rpcproxy::upstream::SendStep;
use rpcproxy::upstream::UpstreamManager;
use rpcproxy::upstream::decode_upstream_reply;

fn ok_body(result: &str) -> String {
    format!(
        "{{\"jsonrpc\":\"2.0\",\"result\":\"{}\",\"id\":1}}",
        result
    )
}

/// Plays out one dispatch pass as the manager plans it: each backend either
/// answers 200 with a body, or fails with a 500.
fn send_scripted(mgr: &mut UpstreamManager, bodies: &[Option<&str>]) -> Option<JsonRpcResponse> {
    let mut start: usize = 0;
    loop {
        match mgr.next_attempt(start) {
            SendStep::Try(i) => {
                let outcome = match bodies[i] {
                    Some(body) => decode_upstream_reply(200, Some(&ok_body(body))),
                    None => decode_upstream_reply(500, None),
                };
                match outcome {
                    Ok(resp) => {
                        mgr.note_success(i, 5_000);
                        return Some(resp);
                    }
                    Err(_) => {
                        mgr.note_failure(i);
                    }
                }
                start = i + 1;
            }
            SendStep::LastResort(i) => {
                if let Some(body) = bodies[i] {
                    if let Ok(resp) = decode_upstream_reply(200, Some(&ok_body(body))) {
                        mgr.note_success(i, 5_000);
                        return Some(resp);
                    }
                }
                return None;
            }
            SendStep::Fail => return None,
        }
    }
}

fn two_backends() -> UpstreamManager {
    UpstreamManager::new(vec!["http://p".to_string(), "http://s".to_string()])
}

#[test]
fn failover_to_secondary_on_primary_failure() {
    let mut mgr = two_backends();
    let resp = send_scripted(&mut mgr, &[None, Some("0xabc")]).unwrap();
    assert_eq!(resp.result, Some(JsonValue::Text("0xabc".to_string())));

    let statuses = mgr.backend_statuses();
    assert_eq!(statuses[0].state, BackendState::Degraded);
    assert_eq!(mgr.backends[0].consecutive_errors, 1);
    assert_eq!(statuses[1].state, BackendState::Healthy);
    assert_eq!(statuses[1].total_requests, 1);
    assert_eq!(statuses[1].total_errors, 0);
}

#[test]
fn all_backends_fail_returns_error() {
    let mut mgr = two_backends();
    let result = send_scripted(&mut mgr, &[None, None]);
    assert!(result.is_none(), "should return error when all backends fail");
    assert!(mgr.backends[0].total_errors >= 1);
    assert!(mgr.backends[1].total_errors >= 1);
}

#[test]
fn down_backend_is_skipped() {
    let mut mgr = two_backends();
    for _ in 0..3 {
        let resp = send_scripted(&mut mgr, &[None, Some("0x1")]).unwrap();
        assert_eq!(resp.result, Some(JsonValue::Text("0x1".to_string())));
    }
    let statuses = mgr.backend_statuses();
    assert_eq!(statuses[0].state, BackendState::Down, "primary should be Down");
    assert_eq!(statuses[1].state, BackendState::Healthy, "secondary should be Healthy");

    let primary_requests = mgr.backends[0].total_requests;
    let resp = send_scripted(&mut mgr, &[None, Some("0x1")]).unwrap();
    assert_eq!(resp.result, Some(JsonValue::Text("0x1".to_string())));
    assert_eq!(
        mgr.backends[0].total_requests, primary_requests,
        "a Down primary must not be tried"
    );
    assert_eq!(mgr.backends[1].total_requests, 4);
}

#[test]
fn recovered_primary_gets_priority_again() {
    let mut mgr = two_backends();
    for _ in 0..3 {
        let _ = send_scripted(&mut mgr, &[None, Some("0xsec")]);
    }
    assert_eq!(mgr.backends[0].state, BackendState::Down);

    // The primary recovers; a health sweep sees both heads.
    mgr.apply_sweep(&vec![Some(0xaaa), Some(0xaaa)]);
    assert_eq!(mgr.backends[0].state, BackendState::Healthy);

    // The next request goes to the primary again.
    let resp = send_scripted(&mut mgr, &[Some("0xaaa"), Some("0xsec")]).unwrap();
    assert_eq!(resp.result, Some(JsonValue::Text("0xaaa".to_string())));
    assert_eq!(mgr.first_candidate_from(0), Some(0));
}

#[test]
fn last_resort_primary_retry_succeeds() {
    let mut mgr = UpstreamManager::new(vec!["http://p".to_string()]);
    // The only backend fails its first call, then answers the last-resort
    // retry.
    match mgr.next_attempt(0) {
        SendStep::Try(i) => assert_eq!(i, 0),
        _ => panic!("the pass starts at the primary"),
    }
    assert!(decode_upstream_reply(500, None).is_err());
    mgr.note_failure(0);
    match mgr.next_attempt(1) {
        SendStep::LastResort(i) => assert_eq!(i, 0),
        _ => panic!("an exhausted pass retries the primary once"),
    }
    let resp = decode_upstream_reply(200, Some(&ok_body("0xrescued"))).unwrap();
    mgr.note_success(0, 5_000);
    assert_eq!(resp.result, Some(JsonValue::Text("0xrescued".to_string())));
}

#[test]
fn unreachable_backend_handled_gracefully() {
    let mut mgr = UpstreamManager::new(vec!["http://127.0.0.1:1".to_string()]);
    let result = send_scripted(&mut mgr, &[None]);
    assert!(result.is_none(), "should return error for unreachable backend");
}

#[test]
fn down_transition_fires_signal_exactly_once() {
    let mut mgr = UpstreamManager::new(vec!["http://p".to_string()]);
    assert!(!mgr.note_failure(0));
    assert!(!mgr.note_failure(0));
    assert!(mgr.note_failure(0), "third error takes the backend Down");
    assert!(!mgr.note_failure(0), "an already-Down backend fires no signal");
}

#[test]
fn decode_rejects_http_and_body_failures() {
    match decode_upstream_reply(500, Some(&ok_body("0x1"))) {
        Err(rpcproxy::error::RpcProxyError::UpstreamHttp(code)) => assert_eq!(code, 500),
        _ => panic!("expected an HTTP error"),
    }
    match decode_upstream_reply(200, None) {
        Err(rpcproxy::error::RpcProxyError::BodyRead(_)) => {}
        _ => panic!("expected a body read error"),
    }
    match decode_upstream_reply(200, Some(&"not json".to_string())) {
        Err(rpcproxy::error::RpcProxyError::Json(_)) => {}
        _ => panic!("expected a decode error"),
    }
    match decode_upstream_reply(200, Some(&"{\"x\":1}".to_string())) {
        Err(rpcproxy::error::RpcProxyError::Json(_)) => {}
        _ => panic!("expected a decode error"),
    }
}

#[test]
fn upstream_error_body_is_forwarded_not_dropped() {
    let body = "{\"jsonrpc\":\"2.0\",\"error\":{\"code\":-32000,\"message\":\"nope\"},\"id\":1}"
        .to_string();
    let resp = decode_upstream_reply(200, Some(&body)).unwrap();
    let err = resp.error.unwrap();
    assert_eq!(err.code, -32000);
    assert_eq!(err.message, "nope");
}

#[test]
fn readiness_needs_a_healthy_backend_with_block() {
    let mut mgr = two_backends();
    assert!(!mgr.has_healthy_backend_with_block());
    mgr.apply_sweep(&vec![Some(100), None]);
    assert!(mgr.has_healthy_backend_with_block());
}

#[test]
fn stale_backend_is_demoted_after_sweep() {
    let mut mgr = two_backends();
    mgr.apply_sweep(&vec![Some(100), Some(89)]);
    assert_eq!(mgr.backends[0].state, BackendState::Healthy);
    assert_eq!(
        mgr.backends[1].state,
        BackendState::Degraded,
        "a head more than ten blocks behind is stale"
    );
    assert_eq!(mgr.backends[1].total_errors, 0, "demotion keeps counters");

    let mut close = two_backends();
    close.apply_sweep(&vec![Some(100), Some(90)]);
    assert_eq!(close.backends[1].state, BackendState::Healthy, "ten behind is not stale");
}
