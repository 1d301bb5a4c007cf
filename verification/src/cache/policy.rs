//! The cache policy: which methods may be cached at all, and for how long.
//!
//! Write, signing, admin and tracing methods are never cached. Answers that
//! can never change once produced are kept for a long fixed span; everything
//! else lives for the caller's default span.

use vstd::prelude::*;
use crate::json::JsonView;
use crate::json::lookup;
use crate::json::lookup_member;
use crate::json::str_eqs;
use crate::jsonrpc::JsonRpcRequest;

verus! {

/// Seconds an immutable answer stays cached.
pub const IMMUTABLE_TTL_SECS: u64 = 3600;

/// Milliseconds an immutable answer stays cached.
pub const IMMUTABLE_TTL_MS: u64 = IMMUTABLE_TTL_SECS * 1000;

/// Whether answers to this method may be cached: writes, signing, admin and
/// tracing methods may not.
pub open spec fn spec_should_cache(m: Seq<char>) -> bool {
    !(m == "eth_sendRawTransaction"@ || m == "eth_sendTransaction"@ || m == "personal_sign"@
        || m == "personal_unlockAccount"@ || m == "personal_sendTransaction"@
        || m == "admin_addPeer"@ || m == "admin_removePeer"@ || m == "miner_start"@
        || m == "miner_stop"@ || m == "debug_traceTransaction"@)
}

/// Whether this method's answer can never change once produced.
pub open spec fn spec_immutable_method(m: Seq<char>) -> bool {
    m == "eth_getBlockByHash"@ || m == "eth_getTransactionByHash"@
        || m == "eth_getTransactionReceipt"@ || m == "eth_getTransactionByBlockHashAndIndex"@
        || m == "eth_getTransactionByBlockNumberAndIndex"@
        || m == "eth_getUncleByBlockHashAndIndex"@ || m == "eth_getBlockTransactionCountByHash"@
        || m == "eth_getUncleCountByBlockHash"@ || m == "net_version"@ || m == "eth_chainId"@
        || m == "web3_clientVersion"@
}

/// The first parameter, when the parameters are a non-empty array.
pub open spec fn spec_first_param(params: JsonView) -> Option<JsonView> {
    match params {
        JsonView::Array(items) => if items.len() > 0 {
            Some(items[0])
        } else {
            None
        },
        _ => None,
    }
}

/// Whether a value is a string starting with "0x": a pinned block number
/// rather than a moving tag such as "latest".
pub open spec fn spec_hex_tagged_text(v: JsonView) -> bool {
    match v {
        JsonView::Text(s) => s.len() >= 2 && s[0] == '0' && s[1] == 'x',
        _ => false,
    }
}

/// Whether a block-by-number request names a specific hex block.
pub open spec fn spec_pinned_block_number(params: JsonView) -> bool {
    match spec_first_param(params) {
        Some(p) => spec_hex_tagged_text(p),
        None => false,
    }
}

/// Whether a log filter names a specific block hash.
pub open spec fn spec_pinned_log_filter(params: JsonView) -> bool {
    match spec_first_param(params) {
        Some(JsonView::Object(members)) => lookup(members, "blockHash"@) is Some,
        _ => false,
    }
}

/// The span, in milliseconds, an answer to this request stays cached.
pub open spec fn spec_ttl_for(method: Seq<char>, params: JsonView, default_ttl_ms: u64) -> u64 {
    if spec_immutable_method(method) {
        IMMUTABLE_TTL_MS
    } else if method == "eth_getBlockByNumber"@ && spec_pinned_block_number(params) {
        IMMUTABLE_TTL_MS
    } else if method == "eth_getLogs"@ && spec_pinned_log_filter(params) {
        IMMUTABLE_TTL_MS
    } else {
        default_ttl_ms
    }
}

/// Whether answers to this method may enter the store at all.
pub fn should_cache(method: &str) -> (r: bool)
    ensures
        r == spec_should_cache(method@),
{
    !(str_eqs(method, "eth_sendRawTransaction") || str_eqs(method, "eth_sendTransaction")
        || str_eqs(method, "personal_sign") || str_eqs(method, "personal_unlockAccount")
        || str_eqs(method, "personal_sendTransaction") || str_eqs(method, "admin_addPeer")
        || str_eqs(method, "admin_removePeer") || str_eqs(method, "miner_start") || str_eqs(
        method,
        "miner_stop",
    ) || str_eqs(method, "debug_traceTransaction"))
}

/// Whether this method's answer can never change once produced.
fn is_immutable_method(method: &str) -> (r: bool)
    ensures
        r == spec_immutable_method(method@),
{
    str_eqs(method, "eth_getBlockByHash") || str_eqs(method, "eth_getTransactionByHash")
        || str_eqs(method, "eth_getTransactionReceipt") || str_eqs(
        method,
        "eth_getTransactionByBlockHashAndIndex",
    ) || str_eqs(method, "eth_getTransactionByBlockNumberAndIndex") || str_eqs(
        method,
        "eth_getUncleByBlockHashAndIndex",
    ) || str_eqs(method, "eth_getBlockTransactionCountByHash") || str_eqs(
        method,
        "eth_getUncleCountByBlockHash",
    ) || str_eqs(method, "net_version") || str_eqs(method, "eth_chainId") || str_eqs(
        method,
        "web3_clientVersion",
    )
}

/// The span, in milliseconds, an answer to this request stays cached.
pub fn ttl_for_request(request: &JsonRpcRequest, default_ttl_ms: u64) -> (r: u64)
    ensures
        r == spec_ttl_for(request@.method, request@.params, default_ttl_ms),
{
    let method = request.method.as_str();
    if is_immutable_method(method) {
        return IMMUTABLE_TTL_MS;
    }
    if str_eqs(method, "eth_getBlockByNumber") {
        proof {
            reveal_strlit("eth_getBlockByNumber");
            reveal_strlit("eth_getLogs");
            assert(("eth_getBlockByNumber")@.len() != ("eth_getLogs")@.len());
        }
        match &request.params {
            crate::json::JsonValue::Array(items) => {
                proof {
                    crate::json::lemma_jview_seq(items@);
                }
                if items.len() > 0 {
                    match &items[0] {
                        crate::json::JsonValue::Text(s) => {
                            let text = s.as_str();
                            if text.unicode_len() >= 2 && text.get_char(0) == '0'
                                && text.get_char(1) == 'x' {
                                return IMMUTABLE_TTL_MS;
                            }
                        },
                        _ => {},
                    }
                }
            },
            _ => {},
        }
        return default_ttl_ms;
    }
    if str_eqs(method, "eth_getLogs") {
        match &request.params {
            crate::json::JsonValue::Array(items) => {
                proof {
                    crate::json::lemma_jview_seq(items@);
                }
                if items.len() > 0 {
                    match &items[0] {
                        crate::json::JsonValue::Object(members) => {
                            if lookup_member(members, "blockHash").is_some() {
                                return IMMUTABLE_TTL_MS;
                            }
                        },
                        _ => {},
                    }
                }
            },
            _ => {},
        }
        return default_ttl_ms;
    }
    default_ttl_ms
}

} // verus!
