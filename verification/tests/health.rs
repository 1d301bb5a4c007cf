use rpcproxy::health::parse_probe_result;
use rpcproxy::json::JsonValue;
use rpcproxy::json::parse_json;

fn probe_body(text: &str) -> JsonValue {
    parse_json(text).unwrap()
}

#[test]
fn probe_reads_hex_head_block() {
    let v = probe_body(r#"{"jsonrpc":"2.0","result":"0x1a2b","id":1}"#);
    assert_eq!(parse_probe_result(&v), Some(0x1a2b));
}

#[test]
fn probe_accepts_upper_case_digits() {
    let v = probe_body(r#"{"jsonrpc":"2.0","result":"0xFF","id":1}"#);
    assert_eq!(parse_probe_result(&v), Some(255));
}

#[test]
fn probe_strips_repeated_hex_tags() {
    let v = probe_body(r#"{"jsonrpc":"2.0","result":"0x0x1","id":1}"#);
    assert_eq!(parse_probe_result(&v), Some(1));
}

#[test]
fn probe_rejects_missing_result() {
    let v = probe_body(r#"{"jsonrpc":"2.0","error":{"code":1,"message":"x"},"id":1}"#);
    assert_eq!(parse_probe_result(&v), None);
}

#[test]
fn probe_rejects_non_hex_result() {
    let v = probe_body(r#"{"jsonrpc":"2.0","result":"latest","id":1}"#);
    assert_eq!(parse_probe_result(&v), None);
    let empty = probe_body(r#"{"jsonrpc":"2.0","result":"0x","id":1}"#);
    assert_eq!(parse_probe_result(&empty), None);
    let number = probe_body(r#"{"jsonrpc":"2.0","result":26,"id":1}"#);
    assert_eq!(parse_probe_result(&number), None);
}

#[test]
fn probe_rejects_overflowing_head() {
    let v = probe_body(r#"{"jsonrpc":"2.0","result":"0xffffffffffffffff","id":1}"#);
    assert_eq!(parse_probe_result(&v), Some(u64::MAX));
    let too_big = probe_body(r#"{"jsonrpc":"2.0","result":"0x10000000000000000","id":1}"#);
    assert_eq!(parse_probe_result(&too_big), None);
}
