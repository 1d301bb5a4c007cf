//! The JSON-RPC request and response model.
//!
//! Requests carry a protocol tag, a method, parameters and an id; responses
//! carry exactly one of a result or an error envelope. Both convert to and
//! from the JSON model, and a request yields the canonical fingerprint that
//! keys the cache and the single-flight registry.

use vstd::prelude::*;
use crate::json::JsonValue;
use crate::json::JsonView;
use crate::json::canonical_text;
use crate::json::jview_members;
use crate::json::jview_seq;
use crate::json::lemma_jview_members;
use crate::json::lemma_jview_seq;
use crate::json::parse_json;
use crate::json::json_of;
use crate::json::str_eqs;
use crate::json::lookup;
use crate::json::lookup_member;
use crate::json::lemma_lookup_found;
use crate::json::lemma_lookup_absent;
use crate::num::int_text;
use crate::num::parse_int;
use crate::num::i64_to_dec;
use crate::num::parse_i64_dec;
use crate::num::lemma_int_text_round_trip;

verus! {

/// One JSON-RPC request.
#[derive(Debug)]
pub struct JsonRpcRequest {
    pub jsonrpc: String,
    pub method: String,
    pub params: JsonValue,
    pub id: JsonValue,
}

/// The mathematical shape of a request.
#[verifier::ext_equal]
pub struct RequestView {
    pub jsonrpc: Seq<char>,
    pub method: Seq<char>,
    pub params: JsonView,
    pub id: JsonView,
}

impl View for JsonRpcRequest {
    type V = RequestView;

    open spec fn view(&self) -> RequestView {
        RequestView {
            jsonrpc: self.jsonrpc@,
            method: self.method@,
            params: self.params@,
            id: self.id@,
        }
    }
}

/// The error envelope of a JSON-RPC response.
#[derive(Debug)]
pub struct JsonRpcError {
    pub code: i64,
    pub message: String,
    pub data: Option<JsonValue>,
}

/// The mathematical shape of an error envelope.
#[verifier::ext_equal]
pub struct ErrorView {
    pub code: int,
    pub message: Seq<char>,
    pub data: Option<JsonView>,
}

impl View for JsonRpcError {
    type V = ErrorView;

    open spec fn view(&self) -> ErrorView {
        ErrorView {
            code: self.code as int,
            message: self.message@,
            data: match self.data {
                Some(d) => Some(d@),
                None => None,
            },
        }
    }
}

/// One JSON-RPC response: exactly one of `result` or `error` is present in a
/// well-formed answer, and serialization omits the absent one entirely.
#[derive(Debug)]
pub struct JsonRpcResponse {
    pub jsonrpc: String,
    pub result: Option<JsonValue>,
    pub error: Option<JsonRpcError>,
    pub id: JsonValue,
}

/// The mathematical shape of a response.
#[verifier::ext_equal]
pub struct ResponseView {
    pub jsonrpc: Seq<char>,
    pub result: Option<JsonView>,
    pub error: Option<ErrorView>,
    pub id: JsonView,
}

impl View for JsonRpcResponse {
    type V = ResponseView;

    open spec fn view(&self) -> ResponseView {
        ResponseView {
            jsonrpc: self.jsonrpc@,
            result: match self.result {
                Some(v) => Some(v@),
                None => None,
            },
            error: match self.error {
                Some(e) => Some(e@),
                None => None,
            },
            id: self.id@,
        }
    }
}

/// A request body: one request, or an ordered batch of them.
#[derive(Debug)]
pub enum JsonRpcBody {
    Single(JsonRpcRequest),
    Batch(Vec<JsonRpcRequest>),
}

/// The mathematical shape of a body.
pub enum BodyView {
    Single(RequestView),
    Batch(Seq<RequestView>),
}

impl View for JsonRpcBody {
    type V = BodyView;

    open spec fn view(&self) -> BodyView {
        match self {
            JsonRpcBody::Single(r) => BodyView::Single(r@),
            JsonRpcBody::Batch(rs) => BodyView::Batch(
                Seq::new(rs@.len(), |i: int| rs@[i]@),
            ),
        }
    }
}

/// A request is valid when its protocol tag is exactly "2.0" and its method
/// is non-empty; invalid requests never reach an upstream.
pub open spec fn spec_valid_request(r: RequestView) -> bool {
    r.jsonrpc == "2.0"@ && r.method.len() > 0
}

/// The cache fingerprint of a request: the method, a colon, and the canonical
/// text of the parameters. The id plays no part, so semantically identical
/// requests share a slot.
pub open spec fn spec_fingerprint(method: Seq<char>, params: JsonView) -> Seq<char> {
    method + seq![':'] + canonical_text(params)
}

/// Requests with equal methods and equal canonical parameter text share a
/// fingerprint, whatever their ids.
pub proof fn lemma_fingerprint_ignores_id(r1: RequestView, r2: RequestView)
    requires
        r1.method == r2.method,
        canonical_text(r1.params) == canonical_text(r2.params),
    ensures
        spec_fingerprint(r1.method, r1.params) == spec_fingerprint(r2.method, r2.params),
{
}

impl JsonRpcRequest {
    /// Whether the request may be forwarded at all.
    pub fn is_valid(&self) -> (r: bool)
        ensures
            r == spec_valid_request(self@),
    {
        str_eqs(self.jsonrpc.as_str(), "2.0") && !self.method.as_str().is_empty()
    }

    /// The canonical cache fingerprint of this request.
    pub fn cache_key(&self) -> (r: String)
        ensures
            r@ == spec_fingerprint(self@.method, self@.params),
    {
        let mut out = String::new();
        out.append(self.method.as_str());
        out.append(":");
        self.params.write_text(&mut out);
        proof {
            reveal_strlit(":");
            assert(out@ =~= spec_fingerprint(self@.method, self@.params));
        }
        out
    }
}

/// The response that reports an error with the given id, code and message.
pub open spec fn spec_error_response(id: JsonView, code: int, message: Seq<char>) -> ResponseView {
    ResponseView {
        jsonrpc: "2.0"@,
        result: None,
        error: Some(ErrorView { code, message, data: None }),
        id,
    }
}

impl JsonRpcResponse {
    /// An error response with the given id, code and message.
    pub fn error(id: JsonValue, code: i64, message: &str) -> (r: Self)
        ensures
            r@ == spec_error_response(id@, code as int, message@),
    {
        JsonRpcResponse {
            jsonrpc: "2.0".to_owned(),
            result: None,
            error: Some(JsonRpcError { code, message: message.to_owned(), data: None }),
            id,
        }
    }

    /// The answer to a body that was not JSON at all.
    pub fn parse_error() -> (r: Self)
        ensures
            r@ == spec_error_response(JsonView::Null, -32700, "Parse error"@),
    {
        Self::error(JsonValue::Null, -32700, "Parse error")
    }

    /// The answer to a request that fails validation.
    pub fn invalid_request(id: JsonValue) -> (r: Self)
        ensures
            r@ == spec_error_response(id@, -32600, "Invalid request"@),
    {
        Self::error(id, -32600, "Invalid request")
    }

    /// The answer when every upstream has failed.
    pub fn internal_error(id: JsonValue) -> (r: Self)
        ensures
            r@ == spec_error_response(id@, -32603, "Internal error"@),
    {
        Self::error(id, -32603, "Internal error")
    }

    /// A structurally equal copy of this response.
    pub fn deep_clone(&self) -> (r: Self)
        ensures
            r@ == self@,
    {
        JsonRpcResponse {
            jsonrpc: self.jsonrpc.clone(),
            result: match &self.result {
                Some(v) => Some(v.deep_clone()),
                None => None,
            },
            error: match &self.error {
                Some(e) => Some(JsonRpcError {
                    code: e.code,
                    message: e.message.clone(),
                    data: match &e.data {
                        Some(d) => Some(d.deep_clone()),
                        None => None,
                    },
                }),
                None => None,
            },
            id: self.id.deep_clone(),
        }
    }
}

/// What a request object means: "jsonrpc" and "method" must be strings and
/// "id" must be present; missing "params" defaults to null.
pub open spec fn spec_request_from_json(v: JsonView) -> Option<RequestView> {
    match v {
        JsonView::Object(members) => match (
            lookup(members, "jsonrpc"@),
            lookup(members, "method"@),
            lookup(members, "id"@),
        ) {
            (Some(JsonView::Text(j)), Some(JsonView::Text(m)), Some(id)) => Some(
                RequestView {
                    jsonrpc: j,
                    method: m,
                    params: match lookup(members, "params"@) {
                        Some(p) => p,
                        None => JsonView::Null,
                    },
                    id,
                },
            ),
            _ => None,
        },
        _ => None,
    }
}

/// What an error envelope means: an integral "code" that fits a signed
/// sixty-four bit value and a string "message"; "data" is optional.
pub open spec fn spec_error_from_json(v: JsonView) -> Option<ErrorView> {
    match v {
        JsonView::Object(members) => match (
            lookup(members, "code"@),
            lookup(members, "message"@),
        ) {
            (Some(JsonView::Number(ctext)), Some(JsonView::Text(msg))) => match parse_int(
                ctext,
            ) {
                Some(c) => if i64::MIN <= c <= i64::MAX {
                    Some(ErrorView { code: c, message: msg, data: lookup(members, "data"@) })
                } else {
                    None
                },
                None => None,
            },
            _ => None,
        },
        _ => None,
    }
}

/// What a response object means: a string "jsonrpc" and an "id" must be
/// present; "result" and "error" are optional, and "error" must be a
/// well-formed envelope when present.
pub open spec fn spec_response_from_json(v: JsonView) -> Option<ResponseView> {
    match v {
        JsonView::Object(members) => match (
            lookup(members, "jsonrpc"@),
            lookup(members, "id"@),
        ) {
            (Some(JsonView::Text(j)), Some(id)) => match lookup(members, "error"@) {
                Some(ev) => match spec_error_from_json(ev) {
                    Some(e) => Some(
                        ResponseView {
                            jsonrpc: j,
                            result: lookup(members, "result"@),
                            error: Some(e),
                            id,
                        },
                    ),
                    None => None,
                },
                None => Some(
                    ResponseView {
                        jsonrpc: j,
                        result: lookup(members, "result"@),
                        error: None,
                        id,
                    },
                ),
            },
            _ => None,
        },
        _ => None,
    }
}

impl JsonRpcRequest {
    /// Reads a request out of a JSON value.
    pub fn from_json(v: &JsonValue) -> (r: Option<JsonRpcRequest>)
        ensures
            match r {
                Some(req) => spec_request_from_json(v@) == Some(req@),
                None => spec_request_from_json(v@) is None,
            },
    {
        match v {
            JsonValue::Object(members) => {
                let found_jsonrpc = lookup_member(members, "jsonrpc");
                let found_method = lookup_member(members, "method");
                let found_id = lookup_member(members, "id");
                match (found_jsonrpc, found_method, found_id) {
                    (Some(JsonValue::Text(j)), Some(JsonValue::Text(m)), Some(id)) => {
                        let params = match lookup_member(members, "params") {
                            Some(p) => p.deep_clone(),
                            None => JsonValue::Null,
                        };
                        Some(JsonRpcRequest {
                            jsonrpc: j.clone(),
                            method: m.clone(),
                            params,
                            id: id.deep_clone(),
                        })
                    },
                    _ => None,
                }
            },
            _ => None,
        }
    }
}

impl JsonRpcError {
    /// Reads an error envelope out of a JSON value.
    pub fn from_json(v: &JsonValue) -> (r: Option<JsonRpcError>)
        ensures
            match r {
                Some(e) => spec_error_from_json(v@) == Some(e@),
                None => spec_error_from_json(v@) is None,
            },
    {
        match v {
            JsonValue::Object(members) => {
                let found_code = lookup_member(members, "code");
                let found_message = lookup_member(members, "message");
                match (found_code, found_message) {
                    (Some(JsonValue::Number(ctext)), Some(JsonValue::Text(msg))) => {
                        match parse_i64_dec(ctext.as_str()) {
                            Some(code) => {
                                let data = match lookup_member(members, "data") {
                                    Some(d) => Some(d.deep_clone()),
                                    None => None,
                                };
                                Some(JsonRpcError { code, message: msg.clone(), data })
                            },
                            None => None,
                        }
                    },
                    _ => None,
                }
            },
            _ => None,
        }
    }

    /// Writes this envelope as a JSON object.
    pub fn to_json(&self) -> (r: JsonValue)
        ensures
            r@ == spec_error_json(self@),
    {
        let mut members: Vec<(String, JsonValue)> = Vec::new();
        members.push(("code".to_owned(), JsonValue::Number(i64_to_dec(self.code))));
        members.push(("message".to_owned(), JsonValue::Text(self.message.clone())));
        match &self.data {
            Some(d) => {
                members.push(("data".to_owned(), d.deep_clone()));
            },
            None => {},
        }
        proof {
            lemma_jview_members(members@);
            assert(jview_members(members@) =~= spec_error_members(self@));
        }
        JsonValue::Object(members)
    }
}

/// The members of a serialized error envelope, in order.
pub open spec fn spec_error_members(e: ErrorView) -> Seq<(Seq<char>, JsonView)> {
    seq![("code"@, JsonView::Number(int_text(e.code))), ("message"@, JsonView::Text(e.message))]
        + match e.data {
        Some(d) => seq![("data"@, d)],
        None => Seq::<(Seq<char>, JsonView)>::empty(),
    }
}

/// How an error envelope is serialized.
pub open spec fn spec_error_json(e: ErrorView) -> JsonView {
    JsonView::Object(spec_error_members(e))
}

/// The members of a serialized response, in order: the protocol tag, then
/// "result" and "error" only when present, then the id.
pub open spec fn spec_response_members(r: ResponseView) -> Seq<(Seq<char>, JsonView)> {
    seq![("jsonrpc"@, JsonView::Text(r.jsonrpc))] + (match r.result {
        Some(v) => seq![("result"@, v)],
        None => Seq::<(Seq<char>, JsonView)>::empty(),
    }) + (match r.error {
        Some(e) => seq![("error"@, spec_error_json(e))],
        None => Seq::<(Seq<char>, JsonView)>::empty(),
    }) + seq![("id"@, r.id)]
}

/// How a response is serialized.
pub open spec fn spec_response_json(r: ResponseView) -> JsonView {
    JsonView::Object(spec_response_members(r))
}

impl JsonRpcResponse {
    /// Reads a response out of a JSON value.
    pub fn from_json(v: &JsonValue) -> (r: Option<JsonRpcResponse>)
        ensures
            match r {
                Some(resp) => spec_response_from_json(v@) == Some(resp@),
                None => spec_response_from_json(v@) is None,
            },
    {
        match v {
            JsonValue::Object(members) => {
                let found_jsonrpc = lookup_member(members, "jsonrpc");
                let found_id = lookup_member(members, "id");
                match (found_jsonrpc, found_id) {
                    (Some(JsonValue::Text(j)), Some(id)) => {
                        let error = match lookup_member(members, "error") {
                            Some(ev) => match JsonRpcError::from_json(ev) {
                                Some(e) => Some(e),
                                None => {
                                    return None;
                                },
                            },
                            None => None,
                        };
                        let result = match lookup_member(members, "result") {
                            Some(res) => Some(res.deep_clone()),
                            None => None,
                        };
                        Some(JsonRpcResponse {
                            jsonrpc: j.clone(),
                            result,
                            error,
                            id: id.deep_clone(),
                        })
                    },
                    _ => None,
                }
            },
            _ => None,
        }
    }

    /// Writes this response as a JSON object, omitting absent fields.
    pub fn to_json(&self) -> (r: JsonValue)
        ensures
            r@ == spec_response_json(self@),
    {
        let mut members: Vec<(String, JsonValue)> = Vec::new();
        members.push(("jsonrpc".to_owned(), JsonValue::Text(self.jsonrpc.clone())));
        match &self.result {
            Some(v) => {
                members.push(("result".to_owned(), v.deep_clone()));
            },
            None => {},
        }
        match &self.error {
            Some(e) => {
                members.push(("error".to_owned(), e.to_json()));
            },
            None => {},
        }
        members.push(("id".to_owned(), self.id.deep_clone()));
        proof {
            lemma_jview_members(members@);
            assert(jview_members(members@) =~= spec_response_members(self@));
        }
        JsonValue::Object(members)
    }

    /// The canonical wire text of this response.
    pub fn to_json_text(&self) -> (r: String)
        ensures
            r@ == canonical_text(spec_response_json(self@)),
    {
        let v = self.to_json();
        v.to_text()
    }
}

/// What a whole body means: an object is a single request, an array is a
/// batch whose every element must be a well-formed request.
pub open spec fn spec_body_from_json(v: JsonView) -> Option<BodyView> {
    match v {
        JsonView::Object(_) => match spec_request_from_json(v) {
            Some(r) => Some(BodyView::Single(r)),
            None => None,
        },
        JsonView::Array(items) => match spec_batch_from_json(items) {
            Some(rs) => Some(BodyView::Batch(rs)),
            None => None,
        },
        _ => None,
    }
}

/// The requests of a batch, in order; any ill-formed element spoils the batch.
pub open spec fn spec_batch_from_json(items: Seq<JsonView>) -> Option<Seq<RequestView>>
    decreases items.len(),
{
    if items.len() == 0 {
        Some(Seq::empty())
    } else {
        match (spec_batch_from_json(items.drop_last()), spec_request_from_json(items.last())) {
            (Some(rs), Some(r)) => Some(rs.push(r)),
            _ => None,
        }
    }
}

/// One ill-formed element spoils the whole batch.
proof fn lemma_batch_element_fails(items: Seq<JsonView>, i: int)
    requires
        0 <= i < items.len(),
        spec_request_from_json(items[i]) is None,
    ensures
        spec_batch_from_json(items) is None,
    decreases items.len(),
{
    if i == items.len() - 1 {
        assert(items.last() == items[i]);
    } else {
        assert(items.drop_last()[i] == items[i]);
        lemma_batch_element_fails(items.drop_last(), i);
    }
}

impl JsonRpcBody {
    /// Reads a body out of a JSON value by structural discrimination.
    #[verifier::loop_isolation(false)]
    pub fn from_json(v: &JsonValue) -> (r: Option<JsonRpcBody>)
        ensures
            match r {
                Some(b) => spec_body_from_json(v@) == Some(b@),
                None => spec_body_from_json(v@) is None,
            },
    {
        match v {
            JsonValue::Object(_) => match JsonRpcRequest::from_json(v) {
                Some(req) => Some(JsonRpcBody::Single(req)),
                None => None,
            },
            JsonValue::Array(items) => {
                let ghost ivs = jview_seq(items@);
                proof {
                    lemma_jview_seq(items@);
                    assert(ivs.take(0) =~= Seq::<JsonView>::empty());
                }
                let n = items.len();
                let mut reqs: Vec<JsonRpcRequest> = Vec::new();
                let mut i: usize = 0;
                while i < n
                    invariant
                        i <= n,
                        reqs@.len() == i,
                        match spec_batch_from_json(ivs.take(i as int)) {
                            Some(rs) => rs.len() == i && forall|j: int|
                                0 <= j < i ==> rs[j] == #[trigger] reqs@[j]@,
                            None => false,
                        },
                    decreases n - i,
                {
                    proof {
                        let t = ivs.take(i as int + 1);
                        assert(t.drop_last() =~= ivs.take(i as int));
                        assert(t.last() == ivs[i as int]);
                    }
                    match JsonRpcRequest::from_json(&items[i]) {
                        Some(req) => {
                            reqs.push(req);
                        },
                        None => {
                            proof {
                                lemma_batch_element_fails(ivs, i as int);
                            }
                            return None;
                        },
                    }
                    i += 1;
                }
                proof {
                    assert(ivs.take(n as int) =~= ivs);
                }
                let out = JsonRpcBody::Batch(reqs);
                proof {
                    match spec_batch_from_json(ivs) {
                        Some(rs) => {
                            assert(rs =~= out@->Batch_0);
                        },
                        None => {},
                    }
                }
                Some(out)
            },
            _ => None,
        }
    }
}

/// Parses a request body: text that is not JSON, or JSON of the wrong shape,
/// is rejected. The parse itself goes through serde_json; what the parsed
/// document must look like is stated exactly.
pub fn parse_body(s: &str) -> (r: Option<JsonRpcBody>)
    ensures
        match json_of(s@) {
            Some(v) => match r {
                Some(b) => spec_body_from_json(v) == Some(b@),
                None => spec_body_from_json(v) is None,
            },
            None => r is None,
        },
{
    match parse_json(s) {
        Some(v) => JsonRpcBody::from_json(&v),
        None => None,
    }
}

/// The members of a serialized request, in order.
pub open spec fn spec_request_members(r: RequestView) -> Seq<(Seq<char>, JsonView)> {
    seq![
        ("jsonrpc"@, JsonView::Text(r.jsonrpc)),
        ("method"@, JsonView::Text(r.method)),
        ("params"@, r.params),
        ("id"@, r.id),
    ]
}

/// How a request is serialized; every field is written.
pub open spec fn spec_request_json(r: RequestView) -> JsonView {
    JsonView::Object(spec_request_members(r))
}

impl JsonRpcRequest {
    /// Writes this request as a JSON object.
    pub fn to_json(&self) -> (r: JsonValue)
        ensures
            r@ == spec_request_json(self@),
    {
        let mut members: Vec<(String, JsonValue)> = Vec::new();
        members.push(("jsonrpc".to_owned(), JsonValue::Text(self.jsonrpc.clone())));
        members.push(("method".to_owned(), JsonValue::Text(self.method.clone())));
        members.push(("params".to_owned(), self.params.deep_clone()));
        members.push(("id".to_owned(), self.id.deep_clone()));
        proof {
            lemma_jview_members(members@);
            assert(jview_members(members@) =~= spec_request_members(self@));
        }
        JsonValue::Object(members)
    }

    /// The canonical wire text of this request, forwarded verbatim upstream.
    pub fn to_json_text(&self) -> (r: String)
        ensures
            r@ == canonical_text(spec_request_json(self@)),
    {
        let v = self.to_json();
        v.to_text()
    }
}

/// Reading back a serialized error envelope gives the envelope.
pub proof fn lemma_error_round_trip(e: ErrorView)
    requires
        i64::MIN <= e.code <= i64::MAX,
    ensures
        spec_error_from_json(spec_error_json(e)) == Some(e),
{
    let ms = spec_error_members(e);
    reveal_strlit("code");
    reveal_strlit("message");
    reveal_strlit("data");
    lemma_int_text_round_trip(e.code);
    assert(("data")@[0] == 'd' && ("code")@[0] == 'c');
    assert(("data")@ != ("code")@);
    assert(("code")@.len() == 4 && ("message")@.len() == 7 && ("data")@.len() == 4);
    match e.data {
        Some(d) => {
            assert(ms.len() == 3 && ms[0].0 == "code"@ && ms[1].0 == "message"@ && ms[2].0
                == "data"@);
            lemma_lookup_found(ms, "code"@, 0);
            lemma_lookup_found(ms, "message"@, 1);
            lemma_lookup_found(ms, "data"@, 2);
            assert(spec_error_from_json(spec_error_json(e)) == Some(
                ErrorView { code: e.code, message: e.message, data: Some(d) },
            ));
        },
        None => {
            assert(ms.len() == 2 && ms[0].0 == "code"@ && ms[1].0 == "message"@);
            lemma_lookup_found(ms, "code"@, 0);
            lemma_lookup_found(ms, "message"@, 1);
            lemma_lookup_absent(ms, "data"@);
            assert(spec_error_from_json(spec_error_json(e)) == Some(
                ErrorView { code: e.code, message: e.message, data: None },
            ));
        },
    }
}

/// Reading back a serialized response gives the response: its protocol tag,
/// result, error and id all survive the round trip.
pub proof fn lemma_response_round_trip(r: ResponseView)
    requires
        match r.error {
            Some(e) => i64::MIN <= e.code <= i64::MAX,
            None => true,
        },
    ensures
        spec_response_from_json(spec_response_json(r)) == Some(r),
{
    let ms = spec_response_members(r);
    reveal_strlit("jsonrpc");
    reveal_strlit("result");
    reveal_strlit("error");
    reveal_strlit("id");
    assert(("jsonrpc")@.len() == 7 && ("result")@.len() == 6 && ("error")@.len() == 5 && (
    "id")@.len() == 2);
    match (r.result, r.error) {
        (Some(res), Some(e)) => {
            assert(ms.len() == 4 && ms[0].0 == "jsonrpc"@ && ms[1].0 == "result"@ && ms[2].0
                == "error"@ && ms[3].0 == "id"@);
            lemma_lookup_found(ms, "jsonrpc"@, 0);
            lemma_lookup_found(ms, "result"@, 1);
            lemma_lookup_found(ms, "error"@, 2);
            lemma_lookup_found(ms, "id"@, 3);
            lemma_error_round_trip(e);
        },
        (Some(res), None) => {
            assert(ms.len() == 3 && ms[0].0 == "jsonrpc"@ && ms[1].0 == "result"@ && ms[2].0
                == "id"@);
            lemma_lookup_found(ms, "jsonrpc"@, 0);
            lemma_lookup_found(ms, "result"@, 1);
            lemma_lookup_found(ms, "id"@, 2);
            lemma_lookup_absent(ms, "error"@);
        },
        (None, Some(e)) => {
            assert(ms.len() == 3 && ms[0].0 == "jsonrpc"@ && ms[1].0 == "error"@ && ms[2].0
                == "id"@);
            lemma_lookup_found(ms, "jsonrpc"@, 0);
            lemma_lookup_found(ms, "error"@, 1);
            lemma_lookup_found(ms, "id"@, 2);
            lemma_lookup_absent(ms, "result"@);
            lemma_error_round_trip(e);
        },
        (None, None) => {
            assert(ms.len() == 2 && ms[0].0 == "jsonrpc"@ && ms[1].0 == "id"@);
            lemma_lookup_found(ms, "jsonrpc"@, 0);
            lemma_lookup_found(ms, "id"@, 1);
            lemma_lookup_absent(ms, "result"@);
            lemma_lookup_absent(ms, "error"@);
        },
    }
}

} // verus!
