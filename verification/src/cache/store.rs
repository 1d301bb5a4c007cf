//! The bounded store: one entry per fingerprint, each with its own
//! expiration, and eviction under capacity pressure. Immutable answers must
//! outlive head-tracking ones, so the expiration is per entry, never global.
//!
//! The store takes the clock as an argument: callers pass the current time in
//! milliseconds.

use vstd::prelude::*;
use crate::jsonrpc::JsonRpcResponse;
use crate::jsonrpc::ResponseView;
use crate::json::str_eqs;

verus! {

/// One stored answer.
#[derive(Debug)]
pub struct StoreEntry {
    pub key: String,
    pub response: JsonRpcResponse,
    pub expires_at_ms: u64,
    pub inserted_at_ms: u64,
}

/// A sum that stops at the ceiling rather than wrapping.
pub open spec fn sat_add64(a: u64, b: u64) -> u64 {
    if a + b > u64::MAX {
        u64::MAX
    } else {
        (a + b) as u64
    }
}

/// The entry stored under a key, if any.
pub open spec fn spec_entry_in(entries: Seq<StoreEntry>, key: Seq<char>) -> Option<StoreEntry>
    decreases entries.len(),
{
    if entries.len() == 0 {
        None
    } else if entries.last().key@ == key {
        Some(entries.last())
    } else {
        spec_entry_in(entries.drop_last(), key)
    }
}

/// A key that occurs nowhere is not stored.
proof fn lemma_entry_absent(entries: Seq<StoreEntry>, key: Seq<char>)
    requires
        forall|i: int| 0 <= i < entries.len() ==> (#[trigger] entries[i]).key@ != key,
    ensures
        spec_entry_in(entries, key) is None,
    decreases entries.len(),
{
    if entries.len() > 0 {
        lemma_entry_absent(entries.drop_last(), key);
    }
}

/// A key stored at one index, and nowhere else, is what the store holds.
proof fn lemma_entry_at(entries: Seq<StoreEntry>, j: int)
    requires
        0 <= j < entries.len(),
        forall|a: int, b: int|
            0 <= a < b < entries.len() ==> (#[trigger] entries[a]).key@ != (
            #[trigger] entries[b]).key@,
    ensures
        spec_entry_in(entries, entries[j].key@) == Some(entries[j]),
    decreases entries.len(),
{
    if j == entries.len() - 1 {
    } else {
        assert(entries.last().key@ != entries[j].key@);
        assert(entries.drop_last()[j] == entries[j]);
        lemma_entry_at(entries.drop_last(), j);
    }
}

/// Removing one entry leaves every other key's entry as it was, and leaves
/// the removed entry's key unstored when keys are unique.
proof fn lemma_entry_after_remove(entries: Seq<StoreEntry>, j: int, key: Seq<char>)
    requires
        0 <= j < entries.len(),
        forall|a: int, b: int|
            0 <= a < b < entries.len() ==> (#[trigger] entries[a]).key@ != (
            #[trigger] entries[b]).key@,
    ensures
        entries[j].key@ != key ==> spec_entry_in(entries.remove(j), key) == spec_entry_in(
            entries,
            key,
        ),
        entries[j].key@ == key ==> spec_entry_in(entries.remove(j), key) is None,
    decreases entries.len(),
{
    let r = entries.remove(j);
    if entries[j].key@ == key {
        assert forall|i: int| 0 <= i < r.len() implies (#[trigger] r[i]).key@ != key by {
            if i < j {
                assert(r[i] == entries[i]);
            } else {
                assert(r[i] == entries[i + 1]);
            }
        }
        lemma_entry_absent(r, key);
    } else {
        if j == entries.len() - 1 {
            assert(r =~= entries.drop_last());
        } else {
            assert(r.last() == entries[entries.len() - 1]);
            if entries.last().key@ == key {
            } else {
                assert(r.drop_last() =~= entries.drop_last().remove(j));
                assert(entries.drop_last()[j] == entries[j]);
                lemma_entry_after_remove(entries.drop_last(), j, key);
            }
        }
    }
}

/// The bounded store itself.
#[derive(Debug)]
pub struct CacheStore {
    pub entries: Vec<StoreEntry>,
    pub max_size: usize,
}

impl CacheStore {
    /// What always holds: no two entries share a key, and the store never
    /// outgrows its capacity.
    pub open spec fn wf(self) -> bool {
        &&& self.entries@.len() <= self.max_size
        &&& forall|a: int, b: int|
            0 <= a < b < self.entries@.len() ==> (#[trigger] self.entries@[a]).key@ != (
            #[trigger] self.entries@[b]).key@
    }

    /// The entry stored under a key, if any.
    pub open spec fn spec_entry(self, key: Seq<char>) -> Option<StoreEntry> {
        spec_entry_in(self.entries@, key)
    }

    /// The response a lookup at the given time returns: the stored one, while
    /// it has not expired.
    pub open spec fn spec_live(self, key: Seq<char>, now_ms: u64) -> Option<ResponseView> {
        match self.spec_entry(key) {
            Some(e) => if now_ms < e.expires_at_ms {
                Some(e.response@)
            } else {
                None
            },
            None => None,
        }
    }

    /// An empty store with the given capacity.
    pub fn new(max_size: usize) -> (r: Self)
        ensures
            r.wf(),
            r.entries@.len() == 0,
            r.max_size == max_size,
            forall|k: Seq<char>| r.spec_entry(k) is None,
    {
        let store = CacheStore { entries: Vec::new(), max_size };
        proof {
            assert forall|k: Seq<char>| store.spec_entry(k) is None by {
                lemma_entry_absent(store.entries@, k);
            }
        }
        store
    }

    /// How many entries the store holds.
    pub fn len(&self) -> (r: usize)
        ensures
            r == self.entries@.len(),
    {
        self.entries.len()
    }

    /// The index holding a key, if any.
    #[verifier::loop_isolation(false)]
    fn find_index(&self, key: &String) -> (r: Option<usize>)
        requires
            self.wf(),
        ensures
            match r {
                Some(j) => j < self.entries@.len() && self.entries@[j as int].key@ == key@,
                None => forall|i: int|
                    0 <= i < self.entries@.len() ==> (#[trigger] self.entries@[i]).key@ != key@,
            },
    {
        let n = self.entries.len();
        let mut i: usize = 0;
        while i < n
            invariant
                i <= n,
                forall|j: int| 0 <= j < i ==> (#[trigger] self.entries@[j]).key@ != key@,
            decreases n - i,
        {
            if str_eqs(self.entries[i].key.as_str(), key.as_str()) {
                return Some(i);
            }
            i += 1;
        }
        None
    }

    /// A live answer for the key, with the store unchanged.
    pub fn get(&self, key: &String, now_ms: u64) -> (r: Option<JsonRpcResponse>)
        requires
            self.wf(),
        ensures
            match r {
                Some(resp) => self.spec_live(key@, now_ms) == Some(resp@),
                None => self.spec_live(key@, now_ms) is None,
            },
    {
        match self.find_index(key) {
            Some(j) => {
                proof {
                    lemma_entry_at(self.entries@, j as int);
                }
                let entry = &self.entries[j];
                if now_ms < entry.expires_at_ms {
                    Some(entry.response.deep_clone())
                } else {
                    None
                }
            },
            None => {
                proof {
                    lemma_entry_absent(self.entries@, key@);
                }
                None
            },
        }
    }

    /// The index of the entry to evict: an expired one if any, else the
    /// oldest by insertion.
    #[verifier::loop_isolation(false)]
    fn victim_index(&self, now_ms: u64) -> (r: usize)
        requires
            self.entries@.len() > 0,
        ensures
            r < self.entries@.len(),
    {
        let n = self.entries.len();
        let mut oldest: usize = 0;
        let mut i: usize = 0;
        while i < n
            invariant
                i <= n,
                oldest < n,
            decreases n - i,
        {
            if self.entries[i].expires_at_ms <= now_ms {
                return i;
            }
            if self.entries[i].inserted_at_ms < self.entries[oldest].inserted_at_ms {
                oldest = i;
            }
            i += 1;
        }
        oldest
    }

    /// Removes the entry at an index, keeping every other key's entry.
    fn remove_at(&mut self, j: usize)
        requires
            old(self).wf(),
            j < old(self).entries@.len(),
        ensures
            final(self).wf(),
            final(self).max_size == old(self).max_size,
            final(self).entries@.len() == old(self).entries@.len() - 1,
            final(self).spec_entry(old(self).entries@[j as int].key@) is None,
            forall|k: Seq<char>|
                k != old(self).entries@[j as int].key@ ==> #[trigger] final(self).spec_entry(k)
                    == old(self).spec_entry(k),
    {
        proof {
            let entries = self.entries@;
            let r = entries.remove(j as int);
            assert forall|a: int, b: int| 0 <= a < b < r.len() implies (#[trigger] r[a]).key@ != (
            #[trigger] r[b]).key@ by {
                let a0 = if a < j { a } else { a + 1 };
                let b0 = if b < j { b } else { b + 1 };
                assert(r[a] == entries[a0] && r[b] == entries[b0]);
            }
            assert forall|k: Seq<char>| k != entries[j as int].key@ implies #[trigger] spec_entry_in(
                r,
                k,
            ) == spec_entry_in(entries, k) by {
                lemma_entry_after_remove(entries, j as int, k);
            }
            lemma_entry_after_remove(entries, j as int, entries[j as int].key@);
        }
        self.entries.remove(j);
    }

    /// Stores an answer under a key with its own expiration. The key's old
    /// entry, if any, is replaced; under capacity pressure some other entry
    /// may leave; every key the store ends up holding was either just
    /// inserted or already there.
    pub fn insert(&mut self, key: String, response: JsonRpcResponse, ttl_ms: u64, now_ms: u64)
        requires
            old(self).wf(),
        ensures
            final(self).wf(),
            final(self).max_size == old(self).max_size,
            old(self).max_size > 0 ==> match final(self).spec_entry(key@) {
                Some(e) => e.response@ == response@ && e.expires_at_ms == sat_add64(
                    now_ms,
                    ttl_ms,
                ),
                None => false,
            },
            forall|k: Seq<char>|
                k != key@ ==> (#[trigger] final(self).spec_entry(k) == old(self).spec_entry(k)
                    || final(self).spec_entry(k) is None),
            forall|k: Seq<char>|
                #[trigger] final(self).spec_entry(k) is Some ==> (k == key@ || old(
                    self,
                ).spec_entry(k) is Some),
    {
        if self.max_size == 0 {
            proof {
                assert(self.entries@.len() == 0);
                assert forall|k: Seq<char>| #[trigger] self.spec_entry(k) is None by {
                    lemma_entry_absent(self.entries@, k);
                }
            }
            return ;
        }
        match self.find_index(&key) {
            Some(j) => {
                self.remove_at(j);
            },
            None => {
                proof {
                    lemma_entry_absent(self.entries@, key@);
                }
                if self.entries.len() >= self.max_size {
                    let victim = self.victim_index(now_ms);
                    self.remove_at(victim);
                }
            },
        }
        let ghost before_push = *self;
        let expires_at_ms = if ttl_ms > u64::MAX - now_ms {
            u64::MAX
        } else {
            now_ms + ttl_ms
        };
        proof {
            assert(self.spec_entry(key@) is None);
        }
        self.entries.push(StoreEntry { key, response, expires_at_ms, inserted_at_ms: now_ms });
        proof {
            let entries = self.entries@;
            assert(entries.last().key@ == key@);
            assert forall|a: int, b: int| 0 <= a < b < entries.len() implies (
            #[trigger] entries[a]).key@ != (#[trigger] entries[b]).key@ by {
                if b < entries.len() - 1 {
                    assert(entries[a] == before_push.entries@[a] && entries[b]
                        == before_push.entries@[b]);
                } else {
                    assert(entries[a] == before_push.entries@[a]);
                    if before_push.spec_entry(key@) is Some {
                    } else {
                        lemma_entry_at(before_push.entries@, a);
                    }
                }
            }
            assert forall|k: Seq<char>| k != key@ implies #[trigger] self.spec_entry(k)
                == before_push.spec_entry(k) by {
                assert(entries.drop_last() =~= before_push.entries@);
                assert(spec_entry_in(entries, k) == spec_entry_in(before_push.entries@, k));
            }
            assert forall|k: Seq<char>|
                k != key@ implies (#[trigger] self.spec_entry(k) == old(self).spec_entry(k)
                    || self.spec_entry(k) is None) by {
                assert(self.spec_entry(k) == before_push.spec_entry(k));
                assert(before_push.spec_entry(k) == old(self).spec_entry(k)
                    || before_push.spec_entry(k) is None);
            }
            assert forall|k: Seq<char>| #[trigger] self.spec_entry(k) is Some implies (k == key@
                || old(self).spec_entry(k) is Some) by {
                if k != key@ {
                    assert(self.spec_entry(k) == before_push.spec_entry(k));
                }
            }
        }
    }
}

} // verus!
