//! The cache layer: policy, bounded TTL store, and the single-flight
//! registry that collapses concurrent identical requests into one upstream
//! call.

pub mod policy;
pub mod store;

use vstd::prelude::*;
use crate::cache::store::CacheStore;
use crate::cache::store::sat_add64;
use crate::json::str_eqs;
use crate::jsonrpc::JsonRpcRequest;
use crate::jsonrpc::JsonRpcResponse;

verus! {

/// The bounded store and the single-flight registry, with the default
/// lifetime for answers the policy gives no longer span.
#[derive(Debug)]
pub struct RpcCache {
    pub store: CacheStore,
    pub inflight: Vec<String>,
    pub default_ttl_ms: u64,
}

impl RpcCache {
    /// What always holds: the store is well formed and no fingerprint has two
    /// single-flight slots.
    pub open spec fn wf(self) -> bool {
        &&& self.store.wf()
        &&& forall|a: int, b: int|
            0 <= a < b < self.inflight@.len() ==> (#[trigger] self.inflight@[a])@ != (
            #[trigger] self.inflight@[b])@
    }

    /// Whether a single-flight slot is registered for this fingerprint.
    pub open spec fn spec_inflight(self, key: Seq<char>) -> bool {
        exists|i: int| 0 <= i < self.inflight@.len() && (#[trigger] self.inflight@[i])@ == key
    }

    /// An empty cache with the given capacity and default lifetime in
    /// milliseconds.
    pub fn new(max_size: u64, default_ttl_ms: u64) -> (r: Self)
        ensures
            r.wf(),
            r.default_ttl_ms == default_ttl_ms,
            r.store.max_size == (if max_size > usize::MAX as u64 {
                usize::MAX as usize
            } else {
                max_size as usize
            }),
            r.store.entries@.len() == 0,
            forall|k: Seq<char>| !(#[trigger] r.spec_inflight(k)),
            forall|k: Seq<char>| (#[trigger] r.store.spec_entry(k)) is None,
    {
        let capacity: usize = if max_size > usize::MAX as u64 {
            usize::MAX
        } else {
            max_size as usize
        };
        RpcCache { store: CacheStore::new(capacity), inflight: Vec::new(), default_ttl_ms }
    }

    /// Whether answers to this method may enter the store at all.
    pub fn should_cache(method: &str) -> (r: bool)
        ensures
            r == crate::cache::policy::spec_should_cache(method@),
    {
        crate::cache::policy::should_cache(method)
    }

    /// The span, in milliseconds, an answer to this request stays cached.
    pub fn ttl_for_request(request: &JsonRpcRequest, default_ttl_ms: u64) -> (r: u64)
        ensures
            r == crate::cache::policy::spec_ttl_for(request@.method, request@.params, default_ttl_ms),
    {
        crate::cache::policy::ttl_for_request(request, default_ttl_ms)
    }

    /// A live answer for the fingerprint, or nothing.
    pub fn get(&self, key: &String, now_ms: u64) -> (r: Option<JsonRpcResponse>)
        requires
            self.wf(),
        ensures
            match r {
                Some(resp) => self.store.spec_live(key@, now_ms) == Some(resp@),
                None => self.store.spec_live(key@, now_ms) is None,
            },
    {
        self.store.get(key, now_ms)
    }

    /// Stores an answer under a fingerprint with its own lifetime.
    pub fn insert(&mut self, key: String, response: JsonRpcResponse, ttl_ms: u64, now_ms: u64)
        requires
            old(self).wf(),
        ensures
            final(self).wf(),
            final(self).inflight == old(self).inflight,
            final(self).default_ttl_ms == old(self).default_ttl_ms,
            final(self).store.max_size == old(self).store.max_size,
            old(self).store.max_size > 0 ==> match final(self).store.spec_entry(key@) {
                Some(e) => e.response@ == response@ && e.expires_at_ms == sat_add64(
                    now_ms,
                    ttl_ms,
                ),
                None => false,
            },
            forall|k: Seq<char>|
                k != key@ ==> (#[trigger] final(self).store.spec_entry(k) == old(
                    self,
                ).store.spec_entry(k) || final(self).store.spec_entry(k) is None),
            forall|k: Seq<char>|
                #[trigger] final(self).store.spec_entry(k) is Some ==> (k == key@ || old(
                    self,
                ).store.spec_entry(k) is Some),
    {
        self.store.insert(key, response, ttl_ms, now_ms);
    }

    /// Whether a single-flight slot for this fingerprint exists, so a late
    /// arrival can subscribe to its outcome instead of calling upstream.
    #[verifier::loop_isolation(false)]
    pub fn subscribe_inflight(&self, key: &String) -> (r: bool)
        ensures
            r == self.spec_inflight(key@),
    {
        let n = self.inflight.len();
        let mut i: usize = 0;
        while i < n
            invariant
                i <= n,
                forall|j: int| 0 <= j < i ==> (#[trigger] self.inflight@[j])@ != key@,
            decreases n - i,
        {
            if str_eqs(self.inflight[i].as_str(), key.as_str()) {
                return true;
            }
            i += 1;
        }
        false
    }

    /// Registers a single-flight slot for this fingerprint; every other
    /// fingerprint's slot is untouched.
    pub fn register_inflight(&mut self, key: &String)
        requires
            old(self).wf(),
        ensures
            final(self).wf(),
            final(self).store == old(self).store,
            final(self).default_ttl_ms == old(self).default_ttl_ms,
            forall|k: Seq<char>|
                #[trigger] final(self).spec_inflight(k) <==> (old(self).spec_inflight(k) || k
                    == key@),
    {
        if self.subscribe_inflight(key) {
            return ;
        }
        let ghost before = *self;
        self.inflight.push(key.clone());
        proof {
            assert forall|k: Seq<char>| #[trigger] self.spec_inflight(k) <==> (
            before.spec_inflight(k) || k == key@) by {
                let m = before.inflight@.len() as int;
                assert(self.inflight@[m]@ == key@);
                if self.spec_inflight(k) {
                    let i = choose|i: int|
                        0 <= i < self.inflight@.len() && (#[trigger] self.inflight@[i])@ == k;
                    if i < m {
                        assert(before.inflight@[i]@ == k);
                    }
                } else {
                }
                if before.spec_inflight(k) {
                    let i = choose|i: int|
                        0 <= i < before.inflight@.len() && (#[trigger] before.inflight@[i])@ == k;
                    assert(self.inflight@[i]@ == k);
                }
            }
        }
    }

    /// Drops the single-flight slot for this fingerprint; every other
    /// fingerprint's slot is untouched.
    #[verifier::loop_isolation(false)]
    pub fn remove_inflight(&mut self, key: &String)
        requires
            old(self).wf(),
        ensures
            final(self).wf(),
            final(self).store == old(self).store,
            final(self).default_ttl_ms == old(self).default_ttl_ms,
            forall|k: Seq<char>|
                #[trigger] final(self).spec_inflight(k) <==> (old(self).spec_inflight(k) && k
                    != key@),
    {
        let n = self.inflight.len();
        let mut i: usize = 0;
        while i < n
            invariant
                i <= n,
                *self == *old(self),
                forall|j: int| 0 <= j < i ==> (#[trigger] self.inflight@[j])@ != key@,
            decreases n - i,
        {
            if str_eqs(self.inflight[i].as_str(), key.as_str()) {
                let ghost before = *self;
                self.inflight.remove(i);
                proof {
                    let m = before.inflight@.len() as int;
                    assert forall|k: Seq<char>| #[trigger] self.spec_inflight(k) <==> (
                    before.spec_inflight(k) && k != key@) by {
                        if self.spec_inflight(k) {
                            let a = choose|a: int|
                                0 <= a < self.inflight@.len() && (#[trigger] self.inflight@[a])@
                                    == k;
                            if a < i {
                                assert(before.inflight@[a]@ == k);
                            } else {
                                assert(before.inflight@[a + 1]@ == k);
                            }
                        }
                        if before.spec_inflight(k) && k != key@ {
                            let a = choose|a: int|
                                0 <= a < before.inflight@.len() && (
                                #[trigger] before.inflight@[a])@ == k;
                            if a < i {
                                assert(self.inflight@[a]@ == k);
                            } else {
                                assert(a != i);
                                assert(self.inflight@[a - 1]@ == k);
                            }
                        }
                    }
                    assert forall|a: int, b: int|
                        0 <= a < b < self.inflight@.len() implies (#[trigger] self.inflight@[a])@
                        != (#[trigger] self.inflight@[b])@ by {
                        let a0 = if a < i { a } else { a + 1 };
                        let b0 = if b < i { b } else { b + 1 };
                        assert(self.inflight@[a] == before.inflight@[a0] && self.inflight@[b]
                            == before.inflight@[b0]);
                    }
                }
                return ;
            }
            i += 1;
        }
    }

    /// The default lifetime, in milliseconds.
    pub fn default_ttl(&self) -> (r: u64)
        ensures
            r == self.default_ttl_ms,
    {
        self.default_ttl_ms
    }

    /// How many answers the store holds.
    pub fn entry_count(&self) -> (r: u64)
        ensures
            r == self.store.entries@.len(),
    {
        self.store.len() as u64
    }
}

} // verus!
