//! The request dispatcher's decisions, and the bearer-token gate.
//!
//! One request is handled in two steps around the upstream call. First
//! `begin_request` answers invalid requests, serves live cached answers with
//! the caller's own id, points late arrivals at an existing single-flight
//! slot, and otherwise claims the slot. Then, once the upstream outcome is
//! known, `finish_request` restores the caller's id, stores cacheable
//! error-free answers under the policy's lifetime, hands back what to publish
//! to waiters, and releases the slot. A waiter that received a broadcast
//! value turns it into its own answer with `resolve_waited`.
//!
//! The single-flight guarantee lives in these contracts: while a fingerprint
//! is registered, `begin_request` never answers `Fetch` for it, so at most
//! one caller is on its way upstream per fingerprint; and a method the policy
//! refuses to cache never touches the store at all.

use vstd::prelude::*;
use crate::cache::RpcCache;
use crate::cache::policy::spec_should_cache;
use crate::cache::policy::spec_ttl_for;
use crate::cache::store::sat_add64;
use crate::json::JsonView;
use crate::json::str_eqs;
use crate::jsonrpc::JsonRpcRequest;
use crate::jsonrpc::JsonRpcResponse;
use crate::jsonrpc::RequestView;
use crate::jsonrpc::ResponseView;
use crate::jsonrpc::spec_error_response;
use crate::jsonrpc::spec_fingerprint;
use crate::jsonrpc::spec_valid_request;
use crate::jsonrpc::lemma_fingerprint_ignores_id;
use crate::json::canonical_text;

verus! {

/// A response as one caller sees it: the shared answer with the caller's own
/// id in place.
pub open spec fn spec_with_id(r: ResponseView, id: JsonView) -> ResponseView {
    ResponseView { id, ..r }
}

/// The dispatcher's first decision, as a mathematical value.
pub enum PlanView {
    /// The request is invalid and is answered at once.
    ReplyInvalid,
    /// The store holds a live answer and serves it.
    ReplyHit,
    /// Someone else's identical request is in flight: wait for it.
    Wait,
    /// Go upstream, holding the fingerprint's single-flight slot.
    FetchRegistered,
    /// Go upstream without a slot: the method must not be cached.
    FetchDirect,
}

/// What the dispatcher's first step decides, over the cache model: invalid
/// requests are answered, live answers served, in-flight fingerprints
/// awaited, and everything else fetched — with a slot exactly when the
/// method is cacheable.
pub open spec fn spec_plan(cache: RpcCache, req: RequestView, now_ms: u64) -> PlanView {
    let key = spec_fingerprint(req.method, req.params);
    if !spec_valid_request(req) {
        PlanView::ReplyInvalid
    } else if !spec_should_cache(req.method) {
        PlanView::FetchDirect
    } else if cache.store.spec_live(key, now_ms) is Some {
        PlanView::ReplyHit
    } else if cache.spec_inflight(key) {
        PlanView::Wait
    } else {
        PlanView::FetchRegistered
    }
}

/// What the dispatcher decides to do first with one request.
#[derive(Debug)]
pub enum RequestPlan {
    /// Answer at once: the request was invalid, or the store had a live
    /// answer.
    Reply(JsonRpcResponse),
    /// A single-flight slot exists: subscribe to its outcome and wait.
    AwaitInflight,
    /// Call upstream; `registered` says whether a single-flight slot was
    /// claimed and must be released on every exit path.
    Fetch { registered: bool },
}

/// The dispatcher's first step for one request.
pub fn begin_request(cache: &mut RpcCache, request: &JsonRpcRequest, now_ms: u64) -> (r:
    RequestPlan)
    requires
        old(cache).wf(),
    ensures
        final(cache).wf(),
        final(cache).store == old(cache).store,
        final(cache).default_ttl_ms == old(cache).default_ttl_ms,
        ({
            let key = spec_fingerprint(request@.method, request@.params);
            let cacheable = spec_should_cache(request@.method);
            let live = old(cache).store.spec_live(key, now_ms);
            &&& (!spec_valid_request(request@) ==> (match r {
                RequestPlan::Reply(resp) => resp@ == spec_error_response(
                    request@.id,
                    -32600,
                    "Invalid request"@,
                ),
                _ => false,
            }) && *final(cache) == *old(cache))
            &&& (spec_valid_request(request@) && cacheable && live is Some ==> (match r {
                RequestPlan::Reply(resp) => resp@ == spec_with_id(live->0, request@.id),
                _ => false,
            }) && *final(cache) == *old(cache))
            &&& (spec_valid_request(request@) && cacheable && live is None && old(cache).spec_inflight(key) ==> r == RequestPlan::AwaitInflight && *final(cache) == *old(cache))
            &&& (spec_valid_request(request@) && cacheable && live is None && !old(cache).spec_inflight(key) ==> r == (RequestPlan::Fetch { registered: true }) && (forall|
                k: Seq<char>,
            |
                #[trigger] final(cache).spec_inflight(k) <==> (old(cache).spec_inflight(k) || k
                    == key)))
            &&& (spec_valid_request(request@) && !cacheable ==> r == (RequestPlan::Fetch {
                registered: false,
            }) && *final(cache) == *old(cache))
            &&& (r == RequestPlan::AwaitInflight <==> spec_plan(*old(cache), request@, now_ms)
                == PlanView::Wait)
            &&& ((r matches RequestPlan::Fetch { registered: true }) <==> spec_plan(
                *old(cache),
                request@,
                now_ms,
            ) == PlanView::FetchRegistered)
            &&& ((r matches RequestPlan::Fetch { registered: false }) <==> spec_plan(
                *old(cache),
                request@,
                now_ms,
            ) == PlanView::FetchDirect)
        }),
{
    if !request.is_valid() {
        return RequestPlan::Reply(JsonRpcResponse::invalid_request(request.id.deep_clone()));
    }
    let key = request.cache_key();
    let cacheable = RpcCache::should_cache(request.method.as_str());
    if cacheable {
        match cache.get(&key, now_ms) {
            Some(found) => {
                let mut resp = found;
                resp.id = request.id.deep_clone();
                proof {
                    assert(resp@ =~= spec_with_id(
                        old(cache).store.spec_live(key@, now_ms)->0,
                        request@.id,
                    ));
                }
                return RequestPlan::Reply(resp);
            },
            None => {},
        }
        if cache.subscribe_inflight(&key) {
            return RequestPlan::AwaitInflight;
        }
        cache.register_inflight(&key);
        RequestPlan::Fetch { registered: true }
    } else {
        RequestPlan::Fetch { registered: false }
    }
}

/// What a waiter does with the broadcast outcome: a value becomes the
/// waiter's answer under its own id; a closed slot yields nothing and the
/// waiter starts over on its own.
pub fn resolve_waited(request: &JsonRpcRequest, got: Option<&JsonRpcResponse>) -> (r: Option<
    JsonRpcResponse,
>)
    ensures
        match got {
            Some(shared) => match r {
                Some(resp) => resp@ == spec_with_id(shared@, request@.id),
                None => false,
            },
            None => r is None,
        },
{
    match got {
        Some(shared) => {
            let mut resp = shared.deep_clone();
            resp.id = request.id.deep_clone();
            proof {
                assert(resp@ =~= spec_with_id(shared@, request@.id));
            }
            Some(resp)
        },
        None => None,
    }
}

/// The dispatcher's second step, once the upstream outcome is known. Returns
/// the caller's answer and, when a fresh cacheable answer was stored, the
/// copy to publish to waiters.
pub fn finish_request(
    cache: &mut RpcCache,
    request: &JsonRpcRequest,
    registered: bool,
    outcome: Option<JsonRpcResponse>,
    now_ms: u64,
) -> (r: (JsonRpcResponse, Option<JsonRpcResponse>))
    requires
        old(cache).wf(),
    ensures
        final(cache).wf(),
        final(cache).default_ttl_ms == old(cache).default_ttl_ms,
        final(cache).store.max_size == old(cache).store.max_size,
        ({
            let key = spec_fingerprint(request@.method, request@.params);
            let cacheable = spec_should_cache(request@.method);
            &&& (forall|k: Seq<char>|
                #[trigger] final(cache).spec_inflight(k) <==> (old(cache).spec_inflight(k) && !(
                registered && k == key)))
            &&& match outcome {
                Some(resp) => {
                    &&& r.0@ == spec_with_id(resp@, request@.id)
                    &&& (cacheable && resp@.error is None ==> ({
                        let ttl = spec_ttl_for(
                            request@.method,
                            request@.params,
                            old(cache).default_ttl_ms,
                        );
                        &&& (old(cache).store.max_size > 0 ==> match final(cache).store.spec_entry(key) {
                            Some(e) => e.response@ == spec_with_id(resp@, request@.id)
                                && e.expires_at_ms == sat_add64(now_ms, ttl),
                            None => false,
                        })
                        &&& (forall|k: Seq<char>|
                            k != key ==> (#[trigger] final(cache).store.spec_entry(k) == old(cache).store.spec_entry(k) || final(cache).store.spec_entry(k) is None))
                        &&& (forall|k: Seq<char>|
                            #[trigger] final(cache).store.spec_entry(k) is Some ==> (k == key
                                || old(cache).store.spec_entry(k) is Some))
                        &&& match r.1 {
                            Some(p) => p@ == spec_with_id(resp@, request@.id),
                            None => false,
                        }
                    }))
                    &&& (!(cacheable && resp@.error is None) ==> final(cache).store == old(cache).store && r.1 is None)
                },
                None => {
                    &&& r.0@ == spec_error_response(request@.id, -32603, "Internal error"@)
                    &&& final(cache).store == old(cache).store
                    &&& r.1 is None
                },
            }
        }),
{
    let key = request.cache_key();
    match outcome {
        Some(response) => {
            let mut resp = response;
            resp.id = request.id.deep_clone();
            let cacheable = RpcCache::should_cache(request.method.as_str());
            let publish: Option<JsonRpcResponse> = if cacheable && resp.error.is_none() {
                let ttl = RpcCache::ttl_for_request(request, cache.default_ttl());
                let stored = resp.deep_clone();
                cache.insert(key.clone(), stored, ttl, now_ms);
                Some(resp.deep_clone())
            } else {
                None
            };
            if registered {
                cache.remove_inflight(&key);
            }
            proof {
                assert(resp@ =~= spec_with_id(outcome->0@, request@.id));
            }
            (resp, publish)
        },
        None => {
            if registered {
                cache.remove_inflight(&key);
            }
            (JsonRpcResponse::internal_error(request.id.deep_clone()), None)
        },
    }
}

/// Single-flight coalescing: while the first of two identical cacheable
/// requests is still in flight — its slot claimed, nothing stored yet — the
/// second arrival waits for the broadcast instead of calling upstream, so at
/// most one upstream call is in progress per fingerprint.
pub proof fn lemma_single_flight_coalesces(
    c0: RpcCache,
    c1: RpcCache,
    r1: RequestView,
    r2: RequestView,
    now1: u64,
    now2: u64,
)
    requires
        r1.method == r2.method,
        canonical_text(r1.params) == canonical_text(r2.params),
        spec_valid_request(r2),
        spec_plan(c0, r1, now1) == PlanView::FetchRegistered,
        c1.store == c0.store,
        now1 <= now2,
        forall|k: Seq<char>|
            #[trigger] c1.spec_inflight(k) <==> (c0.spec_inflight(k) || k == spec_fingerprint(
                r1.method,
                r1.params,
            )),
    ensures
        spec_plan(c1, r2, now2) == PlanView::Wait,
{
    let key = spec_fingerprint(r1.method, r1.params);
    lemma_fingerprint_ignores_id(r1, r2);
    assert(c1.spec_inflight(key));
    assert(c0.store.spec_live(key, now1) is None);
    match c0.store.spec_entry(key) {
        Some(e) => {
            assert(now1 >= e.expires_at_ms);
        },
        None => {},
    }
}

/// A freshly stored answer serves the next identical request: once a
/// cacheable answer sits live in the store, the dispatcher's first step
/// replies from the store and makes no further upstream call.
pub proof fn lemma_fresh_answer_serves_next(cache: RpcCache, r: RequestView, now_ms: u64)
    requires
        spec_valid_request(r),
        spec_should_cache(r.method),
        match cache.store.spec_entry(spec_fingerprint(r.method, r.params)) {
            Some(e) => now_ms < e.expires_at_ms,
            None => false,
        },
    ensures
        spec_plan(cache, r, now_ms) == PlanView::ReplyHit,
{
}

/// Whether a presented bearer token grants access: with no token configured
/// everything is open, else the presented token must match exactly.
pub fn token_matches(expected: &Option<String>, presented: Option<&String>) -> (r: bool)
    ensures
        r == match *expected {
            None => true,
            Some(e) => match presented {
                Some(p) => e@ == p@,
                None => false,
            },
        },
{
    match expected {
        None => true,
        Some(e) => match presented {
            Some(p) => str_eqs(e.as_str(), p.as_str()),
            None => false,
        },
    }
}

} // verus!
