//! Backends and the upstream manager's decisions.
//!
//! Each backend carries a three-state health record driven by successes and
//! errors; the manager picks backends in configured priority order, skipping
//! the ones that are Down, and applies the results of health sweeps. The
//! HTTP calls themselves happen outside the library: callers report each
//! call's outcome here.

use vstd::prelude::*;
use crate::error::RpcProxyError;
use crate::json::json_of;
use crate::json::parse_json;
use crate::jsonrpc::spec_response_from_json;
use crate::jsonrpc::JsonRpcResponse;

verus! {

/// The health of one backend.
#[derive(Debug, Clone, Copy, PartialEq, Eq, Structural)]
pub enum BackendState {
    Healthy,
    Degraded,
    Down,
}

/// The record kept for one backend. Latencies are microseconds; the smoothed
/// latency is an exponentially weighted moving average that the first ever
/// success seeds, and that is absent until then.
#[derive(Debug)]
#[verifier::ext_equal]
pub struct BackendStatus {
    pub url: String,
    pub state: BackendState,
    pub consecutive_errors: u32,
    pub consecutive_successes: u32,
    pub latest_block: Option<u64>,
    pub avg_latency_us: Option<u64>,
    pub total_requests: u64,
    pub total_errors: u64,
}

/// A counter bumped by one, stopping at its ceiling rather than wrapping.
pub open spec fn sat_inc64(x: u64) -> u64 {
    if x == u64::MAX {
        x
    } else {
        (x + 1) as u64
    }
}

/// A counter bumped by one, stopping at its ceiling rather than wrapping.
pub open spec fn sat_inc32(x: u32) -> u32 {
    if x == u32::MAX {
        x
    } else {
        (x + 1) as u32
    }
}

/// The smoothed latency after one more sample: the first ever success seeds
/// the average with its sample; every later one blends in with weight one
/// fifth.
pub open spec fn spec_ewma(avg: Option<u64>, sample: u64) -> Option<u64> {
    match avg {
        None => Some(sample),
        Some(a) => Some(((8 * (a as int) + 2 * (sample as int)) / 10) as u64),
    }
}

impl BackendStatus {
    /// What always holds of a backend record: errors never outnumber
    /// requests, three consecutive errors mean Down, a Healthy backend has no
    /// consecutive errors, and a Down backend got there by three of them.
    pub open spec fn wf(self) -> bool {
        &&& self.total_errors <= self.total_requests
        &&& (self.consecutive_errors >= 3 ==> self.state == BackendState::Down)
        &&& (self.state == BackendState::Healthy ==> self.consecutive_errors == 0)
        &&& (self.state == BackendState::Down ==> self.consecutive_errors >= 3)
    }

    /// The record a success turns this one into.
    pub open spec fn spec_record_success(self, latency_us: u64) -> BackendStatus {
        BackendStatus {
            state: BackendState::Healthy,
            consecutive_errors: 0,
            consecutive_successes: sat_inc32(self.consecutive_successes),
            avg_latency_us: spec_ewma(self.avg_latency_us, latency_us),
            total_requests: sat_inc64(self.total_requests),
            ..self
        }
    }

    /// The record an error turns this one into.
    pub open spec fn spec_record_error(self) -> BackendStatus {
        BackendStatus {
            state: if sat_inc32(self.consecutive_errors) >= 3 {
                BackendState::Down
            } else {
                BackendState::Degraded
            },
            consecutive_errors: sat_inc32(self.consecutive_errors),
            consecutive_successes: 0,
            total_requests: sat_inc64(self.total_requests),
            total_errors: sat_inc64(self.total_errors),
            ..self
        }
    }

    /// A fresh record: Healthy, with nothing counted yet.
    pub fn new(url: String) -> (r: Self)
        ensures
            r.wf(),
            r.url == url,
            r.state == BackendState::Healthy,
            r.consecutive_errors == 0,
            r.consecutive_successes == 0,
            r.latest_block is None,
            r.avg_latency_us is None,
            r.total_requests == 0,
            r.total_errors == 0,
    {
        BackendStatus {
            url,
            state: BackendState::Healthy,
            consecutive_errors: 0,
            consecutive_successes: 0,
            latest_block: None,
            avg_latency_us: None,
            total_requests: 0,
            total_errors: 0,
        }
    }

    /// Counts a successful call: the backend turns Healthy, its consecutive
    /// errors reset, and the latency sample joins the average.
    pub fn record_success(&mut self, latency_us: u64)
        requires
            old(self).wf(),
        ensures
            *final(self) == old(self).spec_record_success(latency_us),
            final(self).wf(),
            final(self).total_errors <= final(self).total_requests,
            old(self).total_requests < u64::MAX ==> final(self).total_requests == old(
                self,
            ).total_requests + 1,
            old(self).consecutive_successes < u32::MAX ==> final(self).consecutive_successes
                == old(self).consecutive_successes + 1,
    {
        self.total_requests = if self.total_requests == u64::MAX {
            self.total_requests
        } else {
            self.total_requests + 1
        };
        self.consecutive_errors = 0;
        self.consecutive_successes = if self.consecutive_successes == u32::MAX {
            self.consecutive_successes
        } else {
            self.consecutive_successes + 1
        };
        self.state = BackendState::Healthy;
        self.avg_latency_us = match self.avg_latency_us {
            None => Some(latency_us),
            Some(a) => {
                let blended: u128 = (8 * (a as u128) + 2 * (latency_us as u128)) / 10;
                Some(blended as u64)
            },
        };
        proof {
            assert(*self =~= old(self).spec_record_success(latency_us));
        }
    }

    /// Counts a failed call: Degraded at first, Down from the third
    /// consecutive error on, and Down it stays until a success.
    pub fn record_error(&mut self)
        requires
            old(self).wf(),
        ensures
            *final(self) == old(self).spec_record_error(),
            final(self).wf(),
            final(self).total_errors <= final(self).total_requests,
            old(self).total_requests < u64::MAX ==> final(self).total_requests == old(
                self,
            ).total_requests + 1,
            old(self).total_errors < u64::MAX ==> final(self).total_errors == old(
                self,
            ).total_errors + 1,
            old(self).consecutive_errors < u32::MAX ==> final(self).consecutive_errors == old(
                self,
            ).consecutive_errors + 1,
            final(self).state == BackendState::Down <==> final(self).consecutive_errors >= 3,
            old(self).state == BackendState::Down ==> final(self).state == BackendState::Down,
    {
        self.total_requests = if self.total_requests == u64::MAX {
            self.total_requests
        } else {
            self.total_requests + 1
        };
        self.total_errors = if self.total_errors == u64::MAX {
            self.total_errors
        } else {
            self.total_errors + 1
        };
        self.consecutive_successes = 0;
        self.consecutive_errors = if self.consecutive_errors == u32::MAX {
            self.consecutive_errors
        } else {
            self.consecutive_errors + 1
        };
        if self.consecutive_errors >= 3 {
            self.state = BackendState::Down;
        } else {
            self.state = BackendState::Degraded;
        }
        proof {
            assert(*self =~= old(self).spec_record_error());
        }
    }
}

/// The record after a run of consecutive errors.
pub open spec fn spec_errors(b: BackendStatus, n: nat) -> BackendStatus
    decreases n,
{
    if n == 0 {
        b
    } else {
        spec_errors(b, (n - 1) as nat).spec_record_error()
    }
}

/// Any run of three or more consecutive errors leaves a backend Down, and it
/// stays Down under further errors; only a success lifts it.
pub proof fn lemma_errors_drive_down(b: BackendStatus, n: nat)
    requires
        b.wf(),
        n >= 3,
    ensures
        spec_errors(b, n).wf(),
        spec_errors(b, n).state == BackendState::Down,
    decreases n,
{
    lemma_errors_count(b, n);
}

/// After a run of errors the consecutive-error counter has reached the run's
/// length or its ceiling, and the record is still well formed.
proof fn lemma_errors_count(b: BackendStatus, n: nat)
    requires
        b.wf(),
    ensures
        spec_errors(b, n).wf(),
        spec_errors(b, n).consecutive_errors >= n || spec_errors(b, n).consecutive_errors
            == u32::MAX,
        n > 0 && spec_errors(b, n).consecutive_errors >= 3 ==> spec_errors(b, n).state
            == BackendState::Down,
    decreases n,
{
    if n > 0 {
        lemma_errors_count(b, (n - 1) as nat);
    }
}

/// What a status endpoint reports of one backend.
#[derive(Debug)]
pub struct BackendHealthInfo {
    pub url: String,
    pub priority: usize,
    pub state: BackendState,
    pub latency_us: u64,
    pub latest_block: Option<u64>,
    pub total_requests: u64,
    pub total_errors: u64,
}

/// How many of these backends are Healthy.
pub open spec fn spec_healthy_count(backends: Seq<BackendStatus>) -> nat
    decreases backends.len(),
{
    if backends.len() == 0 {
        0
    } else {
        spec_healthy_count(backends.drop_last()) + (if backends.last().state
            == BackendState::Healthy {
            1nat
        } else {
            0nat
        })
    }
}

/// The ordered backends the proxy dispatches over.
#[derive(Debug)]
pub struct UpstreamManager {
    pub backends: Vec<BackendStatus>,
}

/// The outcome of one probe applied to one backend: a head block and a
/// zero-latency success, or an error.
pub open spec fn spec_apply_probe(b: BackendStatus, result: Option<u64>) -> BackendStatus {
    match result {
        Some(block) => BackendStatus {
            latest_block: Some(block),
            ..b
        }.spec_record_success(0),
        None => b.spec_record_error(),
    }
}

/// The best head block any probe of the sweep reported.
pub open spec fn spec_best_block(results: Seq<Option<u64>>) -> Option<u64>
    decreases results.len(),
{
    if results.len() == 0 {
        None
    } else {
        match (spec_best_block(results.drop_last()), results.last()) {
            (Some(best), Some(block)) => if block > best {
                Some(block)
            } else {
                Some(best)
            },
            (None, Some(block)) => Some(block),
            (best, None) => best,
        }
    }
}

/// How staleness demotion treats one backend once the sweep's best head is
/// known: a Healthy backend more than ten blocks behind turns Degraded, with
/// its counters untouched.
pub open spec fn spec_demote(b: BackendStatus, best: Option<u64>) -> BackendStatus {
    match (best, b.latest_block) {
        (Some(best_block), Some(block)) => if b.state == BackendState::Healthy && block + 10
            < best_block {
            BackendStatus { state: BackendState::Degraded, ..b }
        } else {
            b
        },
        _ => b,
    }
}

impl UpstreamManager {
    /// Every backend's record is well formed.
    pub open spec fn wf(self) -> bool {
        forall|i: int| 0 <= i < self.backends@.len() ==> (#[trigger] self.backends@[i]).wf()
    }

    /// A manager over the given URLs, in priority order, each Healthy.
    #[verifier::loop_isolation(false)]
    pub fn new(urls: Vec<String>) -> (r: Self)
        ensures
            r.wf(),
            r.backends@.len() == urls@.len(),
            forall|i: int|
                0 <= i < urls@.len() ==> (#[trigger] r.backends@[i]).url@ == urls@[i]@
                    && r.backends@[i].state == BackendState::Healthy
                    && r.backends@[i].consecutive_errors == 0
                    && r.backends@[i].consecutive_successes == 0
                    && r.backends@[i].latest_block is None
                    && r.backends@[i].avg_latency_us is None
                    && r.backends@[i].total_requests == 0 && r.backends@[i].total_errors == 0,
    {
        let mut backends: Vec<BackendStatus> = Vec::new();
        let n = urls.len();
        let mut i: usize = 0;
        while i < n
            invariant
                i <= n,
                backends@.len() == i,
                forall|j: int|
                    0 <= j < i ==> (#[trigger] backends@[j]).wf() && backends@[j].url@
                        == urls@[j]@ && backends@[j].state == BackendState::Healthy
                        && backends@[j].consecutive_errors == 0
                        && backends@[j].consecutive_successes == 0
                        && backends@[j].latest_block is None
                        && backends@[j].avg_latency_us is None
                        && backends@[j].total_requests == 0 && backends@[j].total_errors == 0,
            decreases n - i,
        {
            let url = urls[i].clone();
            backends.push(BackendStatus::new(url));
            i += 1;
        }
        UpstreamManager { backends }
    }

    /// The first backend at or after `start` that is not Down: the next one
    /// dispatch may try.
    #[verifier::loop_isolation(false)]
    pub fn first_candidate_from(&self, start: usize) -> (r: Option<usize>)
        ensures
            match r {
                Some(i) => start <= i < self.backends@.len() && self.backends@[i as int].state
                    != BackendState::Down && forall|j: int|
                    start <= j < i ==> (#[trigger] self.backends@[j]).state == BackendState::Down,
                None => forall|j: int|
                    start <= j < self.backends@.len() ==> (#[trigger] self.backends@[j]).state
                        == BackendState::Down,
            },
    {
        let n = self.backends.len();
        let mut i: usize = start;
        while i < n
            invariant
                start <= i,
                forall|j: int|
                    start <= j < i && j < n ==> (#[trigger] self.backends@[j]).state
                        == BackendState::Down,
            decreases n - i,
        {
            if !matches!(self.backends[i].state, BackendState::Down) {
                return Some(i);
            }
            i += 1;
        }
        None
    }

    /// Counts a successful call on one backend.
    pub fn note_success(&mut self, i: usize, latency_us: u64)
        requires
            old(self).wf(),
            i < old(self).backends@.len(),
        ensures
            final(self).wf(),
            final(self).backends@.len() == old(self).backends@.len(),
            final(self).backends@[i as int]
                == old(self).backends@[i as int].spec_record_success(latency_us),
            forall|j: int|
                0 <= j < old(self).backends@.len() && j != i
                    ==> final(self).backends@[j] == old(self).backends@[j],
    {
        let backend = &mut self.backends[i];
        backend.record_success(latency_us);
    }

    /// Counts a failed call on one backend, and says whether this call is the
    /// one that took it Down — the moment the reactive health signal fires.
    pub fn note_failure(&mut self, i: usize) -> (went_down: bool)
        requires
            old(self).wf(),
            i < old(self).backends@.len(),
        ensures
            final(self).wf(),
            final(self).backends@.len() == old(self).backends@.len(),
            final(self).backends@[i as int] == old(self).backends@[i as int].spec_record_error(),
            forall|j: int|
                0 <= j < old(self).backends@.len() && j != i
                    ==> final(self).backends@[j] == old(self).backends@[j],
            went_down == (old(self).backends@[i as int].state != BackendState::Down
                && final(self).backends@[i as int].state == BackendState::Down),
    {
        let was_down = matches!(self.backends[i].state, BackendState::Down);
        let backend = &mut self.backends[i];
        backend.record_error();
        let is_down = matches!(self.backends[i].state, BackendState::Down);
        !was_down && is_down
    }

    /// Whether at least one backend is Healthy and has reported a head block:
    /// the readiness condition.
    #[verifier::loop_isolation(false)]
    pub fn has_healthy_backend_with_block(&self) -> (r: bool)
        ensures
            r == exists|i: int|
                0 <= i < self.backends@.len() && (#[trigger] self.backends@[i]).state
                    == BackendState::Healthy && self.backends@[i].latest_block is Some,
    {
        let n = self.backends.len();
        let mut i: usize = 0;
        while i < n
            invariant
                i <= n,
                forall|j: int|
                    0 <= j < i ==> !((#[trigger] self.backends@[j]).state == BackendState::Healthy
                        && self.backends@[j].latest_block is Some),
            decreases n - i,
        {
            if matches!(self.backends[i].state, BackendState::Healthy) && self.backends[
                i
            ].latest_block.is_some() {
                return true;
            }
            i += 1;
        }
        false
    }

    /// A snapshot of every backend for the status endpoints, in priority
    /// order.
    #[verifier::loop_isolation(false)]
    pub fn backend_statuses(&self) -> (r: Vec<BackendHealthInfo>)
        ensures
            r@.len() == self.backends@.len(),
            forall|i: int|
                0 <= i < r@.len() ==> {
                    let info = #[trigger] r@[i];
                    let b = self.backends@[i];
                    info.url@ == b.url@ && info.priority == i && info.state == b.state
                        && info.latency_us == (match b.avg_latency_us {
                        Some(v) => v,
                        None => 0u64,
                    }) && info.latest_block == b.latest_block && info.total_requests
                        == b.total_requests && info.total_errors == b.total_errors
                },
    {
        let n = self.backends.len();
        let mut statuses: Vec<BackendHealthInfo> = Vec::new();
        let mut i: usize = 0;
        while i < n
            invariant
                i <= n,
                statuses@.len() == i,
                forall|j: int|
                    0 <= j < i ==> {
                        let info = #[trigger] statuses@[j];
                        let b = self.backends@[j];
                        info.url@ == b.url@ && info.priority == j && info.state == b.state
                            && info.latency_us == (match b.avg_latency_us {
                            Some(v) => v,
                            None => 0u64,
                        }) && info.latest_block == b.latest_block && info.total_requests
                            == b.total_requests && info.total_errors == b.total_errors
                    },
            decreases n - i,
        {
            let b = &self.backends[i];
            statuses.push(BackendHealthInfo {
                url: b.url.clone(),
                priority: i,
                state: b.state,
                latency_us: match b.avg_latency_us {
                    Some(v) => v,
                    None => 0,
                },
                latest_block: b.latest_block,
                total_requests: b.total_requests,
                total_errors: b.total_errors,
            });
            i += 1;
        }
        statuses
    }

    /// How many backends are currently Healthy.
    #[verifier::loop_isolation(false)]
    pub fn healthy_count(&self) -> (r: usize)
        ensures
            r == spec_healthy_count(self.backends@),
            r <= self.backends@.len(),
    {
        let n = self.backends.len();
        let mut count: usize = 0;
        let mut i: usize = 0;
        while i < n
            invariant
                i <= n,
                count <= i,
                count == spec_healthy_count(self.backends@.take(i as int)),
            decreases n - i,
        {
            proof {
                let t = self.backends@.take(i as int + 1);
                assert(t.drop_last() =~= self.backends@.take(i as int));
                assert(t.last() == self.backends@[i as int]);
            }
            if matches!(self.backends[i].state, BackendState::Healthy) {
                count += 1;
            }
            i += 1;
        }
        proof {
            assert(self.backends@.take(n as int) =~= self.backends@);
        }
        count
    }

    /// Applies one probe's outcome to one backend: a success stores the head
    /// block and counts a zero-latency success, a failure counts an error.
    pub fn apply_probe(&mut self, i: usize, result: Option<u64>)
        requires
            old(self).wf(),
            i < old(self).backends@.len(),
        ensures
            final(self).wf(),
            final(self).backends@.len() == old(self).backends@.len(),
            final(self).backends@[i as int] == spec_apply_probe(
                old(self).backends@[i as int],
                result,
            ),
            forall|j: int|
                0 <= j < old(self).backends@.len() && j != i
                    ==> final(self).backends@[j] == old(self).backends@[j],
    {
        match result {
            Some(block) => {
                let backend = &mut self.backends[i];
                backend.latest_block = Some(block);
                backend.record_success(0);
            },
            None => {
                let backend = &mut self.backends[i];
                backend.record_error();
            },
        }
    }

    /// Demotes every Healthy backend whose head lags more than ten blocks
    /// behind the sweep's best head. Counters stay untouched.
    #[verifier::loop_isolation(false)]
    pub fn demote_stale(&mut self, best: Option<u64>)
        requires
            old(self).wf(),
        ensures
            final(self).wf(),
            final(self).backends@.len() == old(self).backends@.len(),
            forall|i: int|
                0 <= i < old(self).backends@.len() ==> #[trigger] final(self).backends@[i]
                    == spec_demote(old(self).backends@[i], best),
    {
        let best_block = match best {
            Some(b) => b,
            None => {
                return ;
            },
        };
        let n = self.backends.len();
        let mut i: usize = 0;
        while i < n
            invariant
                i <= n,
                self.backends@.len() == n,
                forall|j: int|
                    0 <= j < i ==> #[trigger] self.backends@[j] == spec_demote(
                        old(self).backends@[j],
                        best,
                    ),
                forall|j: int| i <= j < n ==> #[trigger] self.backends@[j] == old(self).backends@[j],
            decreases n - i,
        {
            let stale = match self.backends[i].latest_block {
                Some(block) => matches!(self.backends[i].state, BackendState::Healthy)
                    && best_block > block && best_block - block > 10,
                None => false,
            };
            if stale {
                let backend = &mut self.backends[i];
                backend.state = BackendState::Degraded;
                proof {
                    assert(self.backends@[i as int] =~= spec_demote(
                        old(self).backends@[i as int],
                        best,
                    ));
                }
            }
            i += 1;
        }
    }

    /// One complete health sweep: applies every probe's outcome in order,
    /// takes the best head block any probe reported, and demotes Healthy
    /// backends that lag it by more than ten blocks. No backend leaves the
    /// sweep Healthy while more than ten blocks behind the best head.
    #[verifier::loop_isolation(false)]
    pub fn apply_sweep(&mut self, results: &Vec<Option<u64>>)
        requires
            old(self).wf(),
            results@.len() == old(self).backends@.len(),
        ensures
            final(self).wf(),
            final(self).backends@.len() == old(self).backends@.len(),
            forall|i: int|
                0 <= i < results@.len() ==> #[trigger] final(self).backends@[i] == spec_demote(
                    spec_apply_probe(old(self).backends@[i], results@[i]),
                    spec_best_block(results@),
                ),
            forall|i: int|
                0 <= i < results@.len() ==> (((#[trigger] final(self).backends@[i]).state
                    == BackendState::Healthy && final(self).backends@[i].latest_block is Some
                    && spec_best_block(results@) is Some)
                    ==> final(self).backends@[i].latest_block->0 + 10
                    >= spec_best_block(results@)->0),
    {
        let n = self.backends.len();
        let mut best: Option<u64> = None;
        proof {
            assert(results@.take(0) =~= Seq::<Option<u64>>::empty());
        }
        let mut i: usize = 0;
        while i < n
            invariant
                i <= n,
                self.backends@.len() == n,
                self.wf(),
                best == spec_best_block(results@.take(i as int)),
                forall|j: int|
                    0 <= j < i ==> #[trigger] self.backends@[j] == spec_apply_probe(
                        old(self).backends@[j],
                        results@[j],
                    ),
                forall|j: int| i <= j < n ==> #[trigger] self.backends@[j] == old(self).backends@[j],
            decreases n - i,
        {
            let result = results[i];
            self.apply_probe(i, result);
            match result {
                Some(block) => {
                    best = match best {
                        Some(b) => if block > b {
                            Some(block)
                        } else {
                            Some(b)
                        },
                        None => Some(block),
                    };
                },
                None => {},
            }
            proof {
                let t = results@.take(i as int + 1);
                assert(t.drop_last() =~= results@.take(i as int));
                assert(t.last() == results@[i as int]);
            }
            i += 1;
        }
        proof {
            assert(results@.take(n as int) =~= results@);
        }
        self.demote_stale(best);
    }
}

/// One move of a dispatch pass over the backends.
#[derive(Debug)]
pub enum SendStep {
    /// Try this backend next.
    Try(usize),
    /// Every remaining backend is Down: make the one last-resort attempt on
    /// this backend, the configured primary.
    LastResort(usize),
    /// No backend is configured at all: every upstream has failed.
    Fail,
}

impl UpstreamManager {
    /// What a dispatch pass does next once every backend before `start` has
    /// been tried and failed: try the first non-Down backend from `start` on;
    /// when none remains, the single last-resort attempt on the primary,
    /// whatever its state; with no backends, the pass fails. A pass thus ends
    /// in the all-upstreams-failed error exactly when every non-Down backend
    /// and then the last-resort attempt have failed.
    pub fn next_attempt(&self, start: usize) -> (r: SendStep)
        ensures
            match r {
                SendStep::Try(i) => start <= i < self.backends@.len()
                    && self.backends@[i as int].state != BackendState::Down && forall|j: int|
                    start <= j < i ==> (#[trigger] self.backends@[j]).state == BackendState::Down,
                SendStep::LastResort(i) => i == 0 && self.backends@.len() > 0 && forall|j: int|
                    start <= j < self.backends@.len() ==> (#[trigger] self.backends@[j]).state
                        == BackendState::Down,
                SendStep::Fail => self.backends@.len() == 0,
            },
    {
        match self.first_candidate_from(start) {
            Some(i) => SendStep::Try(i),
            None => {
                if self.backends.len() > 0 {
                    SendStep::LastResort(0)
                } else {
                    SendStep::Fail
                }
            },
        }
    }
}

/// Decodes what one backend sent back: a non-success status is an HTTP
/// error, an unreadable body a read error, and a body that does not parse as
/// a JSON-RPC response a decode error. Success is owed exactly when the
/// status is a success, the body was read, and its text denotes a well-formed
/// JSON-RPC response — which the result then is.
pub fn decode_upstream_reply(status: u16, body: Option<&String>) -> (r: Result<
    JsonRpcResponse,
    RpcProxyError,
>)
    ensures
        match r {
            Ok(resp) => 200 <= status < 300 && (match body {
                Some(text) => match json_of(text@) {
                    Some(v) => spec_response_from_json(v) == Some(resp@),
                    None => false,
                },
                None => false,
            }),
            Err(e) => match e {
                RpcProxyError::UpstreamHttp(c) => c == status && !(200 <= status < 300),
                RpcProxyError::BodyRead(_) => 200 <= status < 300 && body is None,
                RpcProxyError::Json(_) => 200 <= status < 300 && (match body {
                    Some(text) => match json_of(text@) {
                        Some(v) => spec_response_from_json(v) is None,
                        None => true,
                    },
                    None => false,
                }),
                _ => false,
            },
        },
{
    if !(status >= 200 && status < 300) {
        return Err(RpcProxyError::UpstreamHttp(status));
    }
    match body {
        Some(text) => match parse_json(text.as_str()) {
            Some(v) => match JsonRpcResponse::from_json(&v) {
                Some(resp) => Ok(resp),
                None => Err(RpcProxyError::Json("not a JSON-RPC response".to_owned())),
            },
            None => Err(RpcProxyError::Json("body is not JSON".to_owned())),
        },
        None => Err(RpcProxyError::BodyRead("response body could not be read".to_owned())),
    }
}

} // verus!
