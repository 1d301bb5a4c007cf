use rpcproxy::json::JsonValue;
use rpcproxy::json::parse_json;
use rpcproxy::jsonrpc::JsonRpcBody;
use rpcproxy::jsonrpc::JsonRpcRequest;
use rpcproxy::jsonrpc::JsonRpcResponse;

fn parse_request(text: &str) -> Option<JsonRpcRequest> {
    let v = parse_json(text)?;
    JsonRpcRequest::from_json(&v)
}

fn parse_body_text(text: &str) -> Option<JsonRpcBody> {
    rpcproxy::jsonrpc::parse_body(text)
}

#[test]
fn parse_single_request() {
    let json = r#"{"jsonrpc":"2.0","method":"eth_blockNumber","params":[],"id":1}"#;
    let req = parse_request(json).unwrap();
    assert_eq!(req.method, "eth_blockNumber");
    assert_eq!(req.jsonrpc, "2.0");
    assert!(req.is_valid());
}

#[test]
fn parse_batch_request() {
    let json = r#"[
        {"jsonrpc":"2.0","method":"eth_blockNumber","params":[],"id":1},
        {"jsonrpc":"2.0","method":"eth_chainId","params":[],"id":2}
    ]"#;
    let body = parse_body_text(json).unwrap();
    match body {
        JsonRpcBody::Batch(reqs) => assert_eq!(reqs.len(), 2),
        _ => panic!("expected batch"),
    }
}

#[test]
fn invalid_json_returns_parse_error() {
    let result = parse_body_text("not json");
    assert!(result.is_none());
}

#[test]
fn invalid_request_missing_method() {
    let json = r#"{"jsonrpc":"2.0","method":"","params":[],"id":1}"#;
    let req = parse_request(json).unwrap();
    assert!(!req.is_valid());
}

#[test]
fn cache_key_ignores_id() {
    let req1 =
        parse_request(r#"{"jsonrpc":"2.0","method":"eth_blockNumber","params":[],"id":1}"#)
            .unwrap();
    let req2 =
        parse_request(r#"{"jsonrpc":"2.0","method":"eth_blockNumber","params":[],"id":999}"#)
            .unwrap();
    assert_eq!(req1.cache_key(), req2.cache_key());
}

#[test]
fn cache_key_different_params() {
    let req1 = parse_request(
        r#"{"jsonrpc":"2.0","method":"eth_getBlockByNumber","params":["0x1",true],"id":1}"#,
    )
    .unwrap();
    let req2 = parse_request(
        r#"{"jsonrpc":"2.0","method":"eth_getBlockByNumber","params":["0x2",true],"id":1}"#,
    )
    .unwrap();
    assert_ne!(req1.cache_key(), req2.cache_key());
}

#[test]
fn error_response_serialization() {
    let resp = JsonRpcResponse::parse_error();
    let json = resp.to_json_text();
    assert!(json.contains("-32700"));
    assert!(json.contains("Parse error"));
}

#[test]
fn test_parse_single_request() {
    let json = r#"{"jsonrpc":"2.0","method":"eth_blockNumber","params":[],"id":1}"#;
    let req = parse_request(json).unwrap();
    assert_eq!(req.method, "eth_blockNumber");
    assert_eq!(req.jsonrpc, "2.0");
    assert!(req.is_valid());
}

#[test]
fn test_parse_batch_request() {
    let json = r#"[
        {"jsonrpc":"2.0","method":"eth_blockNumber","params":[],"id":1},
        {"jsonrpc":"2.0","method":"eth_chainId","params":[],"id":2}
    ]"#;
    let body = parse_body_text(json).unwrap();
    match body {
        JsonRpcBody::Batch(reqs) => assert_eq!(reqs.len(), 2),
        _ => panic!("expected batch"),
    }
}

#[test]
fn test_invalid_json_returns_parse_error() {
    let result = parse_body_text("not json");
    assert!(result.is_none());
}

#[test]
fn test_invalid_request_missing_method() {
    let json = r#"{"jsonrpc":"2.0","method":"","params":[],"id":1}"#;
    let req = parse_request(json).unwrap();
    assert!(!req.is_valid());
}

#[test]
fn test_cache_key_ignores_id() {
    let req1 =
        parse_request(r#"{"jsonrpc":"2.0","method":"eth_blockNumber","params":[],"id":1}"#)
            .unwrap();
    let req2 =
        parse_request(r#"{"jsonrpc":"2.0","method":"eth_blockNumber","params":[],"id":999}"#)
            .unwrap();
    assert_eq!(req1.cache_key(), req2.cache_key());
}

#[test]
fn test_cache_key_different_params() {
    let req1 = parse_request(
        r#"{"jsonrpc":"2.0","method":"eth_getBlockByNumber","params":["0x1",true],"id":1}"#,
    )
    .unwrap();
    let req2 = parse_request(
        r#"{"jsonrpc":"2.0","method":"eth_getBlockByNumber","params":["0x2",true],"id":1}"#,
    )
    .unwrap();
    assert_ne!(req1.cache_key(), req2.cache_key());
}

#[test]
fn test_error_response_serialization() {
    let resp = JsonRpcResponse::parse_error();
    let json = resp.to_json_text();
    assert!(json.contains("-32700"));
    assert!(json.contains("Parse error"));
}

#[test]
fn response_round_trip_preserves_fields() {
    let resp = JsonRpcResponse {
        jsonrpc: "2.0".to_string(),
        result: Some(JsonValue::Text("0xabc".to_string())),
        error: None,
        id: JsonValue::Number("7".to_string()),
    };
    let text = resp.to_json_text();
    let value = parse_json(&text).unwrap();
    let back = JsonRpcResponse::from_json(&value).unwrap();
    assert_eq!(back.jsonrpc, "2.0");
    assert_eq!(back.result, Some(JsonValue::Text("0xabc".to_string())));
    assert!(back.error.is_none());
    assert_eq!(back.id, JsonValue::Number("7".to_string()));
}

#[test]
fn error_round_trip_preserves_fields() {
    let resp = JsonRpcResponse::error(JsonValue::Null, -32010, "no luck");
    let text = resp.to_json_text();
    let value = parse_json(&text).unwrap();
    let back = JsonRpcResponse::from_json(&value).unwrap();
    let err = back.error.unwrap();
    assert_eq!(err.code, -32010);
    assert_eq!(err.message, "no luck");
    assert!(back.result.is_none());
    assert_eq!(back.id, JsonValue::Null);
}

#[test]
fn request_serialization_carries_all_fields() {
    let req = JsonRpcRequest {
        jsonrpc: "2.0".to_string(),
        method: "eth_blockNumber".to_string(),
        params: JsonValue::Array(vec![]),
        id: JsonValue::Number("1".to_string()),
    };
    let text = req.to_json_text();
    assert_eq!(
        text,
        r#"{"jsonrpc":"2.0","method":"eth_blockNumber","params":[],"id":1}"#
    );
}

#[test]
fn canonical_text_escapes_strings() {
    let v = JsonValue::Object(vec![(
        "note".to_string(),
        JsonValue::Text("a\"b\\c\nd".to_string()),
    )]);
    assert_eq!(v.to_text(), "{\"note\":\"a\\\"b\\\\c\\nd\"}");
}

#[test]
fn parse_json_reads_nested_structures() {
    let v = parse_json(r#"{"a":[1,true,null,"x"],"b":{"c":-2.5}}"#).unwrap();
    match &v {
        JsonValue::Object(members) => {
            assert_eq!(members.len(), 2);
            assert_eq!(members[0].0, "a");
        }
        _ => panic!("expected object"),
    }
    assert_eq!(v.to_text(), r#"{"a":[1,true,null,"x"],"b":{"c":-2.5}}"#);
}
