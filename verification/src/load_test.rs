//! The decisions of the load-test engine: how a configuration is read, which
//! worker gets which request, how an outcome is recorded, when the
//! collector stops, the latency window, and the detail kept in the report.
use vstd::prelude::*;
use std::collections::VecDeque;

use crate::model::{headers_view, pairs_view, Header, LoadTestConfig, PerRequest};
use crate::text::{to_uppercase, uppercase_of};

verus! {

// ---------------------------------------------------------------------------
// Settings
// ---------------------------------------------------------------------------

/// The most workers a load test runs.
pub const MAX_WORKERS: u64 = 256;

/// The shortest request timeout, in milliseconds.
pub const MIN_TIMEOUT_MS: u64 = 100;

/// The number of per-request outcomes that a report keeps at most.
pub const MAX_DETAIL: usize = 10000;

/// The number of latencies that the window holds at most.
pub const LATENCY_WINDOW: usize = 50000;

/// What the engine runs with, read from a configuration.
pub struct EngineSettings {
    /// Requests per second, at least 1.
    pub rps: u64,
    /// Requests to send.
    pub total: u64,
    /// Workers, between 1 and 256.
    pub workers: u64,
    /// Timeout of one request, at least 100 ms.
    pub timeout_ms: u64,
    /// The method, uppercased.
    pub method: String,
    /// The headers with a non-empty key.
    pub headers: Vec<(String, String)>,
}

/// The headers with a non-empty key, as pairs.
pub open spec fn keyed_headers(hs: Seq<(Seq<char>, Seq<char>)>) -> Seq<(Seq<char>, Seq<char>)>
    decreases hs.len(),
{
    if hs.len() == 0 {
        seq![]
    } else {
        let rest = keyed_headers(hs.drop_last());
        if hs.last().0.len() == 0 {
            rest
        } else {
            rest.push(hs.last())
        }
    }
}

/// `n` kept between `lo` and `hi`.
pub open spec fn clamp(n: u64, lo: u64, hi: u64) -> u64 {
    if n < lo {
        lo
    } else if n > hi {
        hi
    } else {
        n
    }
}

/// Reads the settings of a load test: at least one request per second,
/// between 1 and 256 workers, a timeout of at least 100 ms, the method
/// uppercased, the headers with an empty key left out.
pub fn engine_settings(cfg: &LoadTestConfig) -> (s: EngineSettings)
    ensures
        s.rps == if cfg.rps < 1 {
            1u64
        } else {
            cfg.rps
        },
        s.total == cfg.total_requests,
        s.workers == clamp(cfg.concurrency, 1, MAX_WORKERS),
        s.timeout_ms == if cfg.timeout_ms < MIN_TIMEOUT_MS {
            MIN_TIMEOUT_MS
        } else {
            cfg.timeout_ms
        },
        s.method@ == uppercase_of(cfg.method@),
        pairs_view(s.headers@) == keyed_headers(headers_view(cfg.headers@)),
{
    let rps = if cfg.rps < 1 {
        1
    } else {
        cfg.rps
    };
    let workers = if cfg.concurrency < 1 {
        1
    } else if cfg.concurrency > MAX_WORKERS {
        MAX_WORKERS
    } else {
        cfg.concurrency
    };
    let timeout_ms = if cfg.timeout_ms < MIN_TIMEOUT_MS {
        MIN_TIMEOUT_MS
    } else {
        cfg.timeout_ms
    };
    let mut headers: Vec<(String, String)> = Vec::new();
    let ghost hv = headers_view(cfg.headers@);
    let mut i: usize = 0;
    while i < cfg.headers.len()
        invariant
            i <= cfg.headers.len(),
            hv == headers_view(cfg.headers@),
            pairs_view(headers@) == keyed_headers(hv.take(i as int)),
        decreases cfg.headers.len() - i,
    {
        assert(hv.take(i + 1).drop_last() == hv.take(i as int));
        assert(hv.take(i + 1).last() == cfg.headers@[i as int]@);
        let h: &Header = &cfg.headers[i];
        if !h.key.as_str().is_empty() {
            let ghost prev = headers@;
            let pair = (h.key.clone(), h.value.clone());
            proof {
                crate::model::lemma_pairs_view_push(prev, pair);
            }
            headers.push(pair);
        }
        i += 1;
    }
    assert(hv.take(cfg.headers.len() as int) == hv);
    EngineSettings {
        rps,
        total: cfg.total_requests,
        workers,
        timeout_ms,
        method: to_uppercase(cfg.method.as_str()),
        headers,
    }
}

/// `fastrand::u64(0..u64::MAX)`: some number below `u64::MAX`.
#[verifier::external_body]
fn random_id_part() -> (r: u64)
    ensures
        r < u64::MAX,
{
    fastrand::u64(0..u64::MAX)
}

/// A fresh load-test id: the current time in nanoseconds since the epoch
/// (given by the caller, 0 when the clock is before the epoch) and a random
/// number, both in lowercase hexadecimal, joined by `-`.
pub fn load_test_id(nanos: u128) -> (id: String)
    ensures
        exists|r: u64|
            r < u64::MAX && id@ == crate::numbers::hex_digits(nanos as nat) + seq!['-']
                + #[trigger] crate::numbers::hex_digits(r as nat),
{
    let t = crate::numbers::hex_of_u128(nanos);
    let r = random_id_part();
    let h = crate::numbers::hex_of_u128(r as u128);
    let ts = crate::text::string_of(t.as_slice());
    let hs = crate::text::string_of(h.as_slice());
    let id = crate::text::concat3(ts.as_str(), "-", hs.as_str());
    proof {
        reveal_strlit("-");
    }
    assert(id@ == crate::numbers::hex_digits(nanos as nat) + seq!['-'] + crate::numbers::hex_digits(
        r as nat,
    ));
    id
}

// ---------------------------------------------------------------------------
// Pacer, workers, collector
// ---------------------------------------------------------------------------

/// What the pacer does next.
#[derive(Clone, Copy, Debug, PartialEq, Eq, Structural)]
pub enum PacerAction {
    /// Hand request `seq` to worker `worker`.
    Dispatch { seq: u64, worker: u64 },
    /// Dispatch nothing more.
    Finish,
}

/// The pacer's decision for the request numbered `seq`: stop when the test
/// was cancelled or every request was handed out, else hand it round-robin
/// to worker `seq % workers`.
pub fn pacer_step(seq: u64, total: u64, cancelled: bool, workers: u64) -> (a: PacerAction)
    requires
        workers > 0,
    ensures
        a == if cancelled || seq >= total {
            PacerAction::Finish
        } else {
            PacerAction::Dispatch { seq, worker: seq % workers }
        },
{
    if cancelled || seq >= total {
        PacerAction::Finish
    } else {
        PacerAction::Dispatch { seq, worker: seq % workers }
    }
}

/// A status code in the success class `2xx`.
pub open spec fn is_success_status(status: u16) -> bool {
    200 <= status <= 299
}

/// The outcome of request `seq`: its status and whether it succeeded (a
/// `2xx` status), or status 0 and failure when it got no response.
pub fn record_outcome(seq: u64, status: Option<u16>, latency_ms: u64) -> (p: PerRequest)
    ensures
        p.seq == seq,
        p.latency_ms == latency_ms,
        p.status == match status {
            Some(s) => s,
            None => 0,
        },
        p.success == match status {
            Some(s) => is_success_status(s),
            None => false,
        },
{
    match status {
        Some(s) => PerRequest { seq, status: s, latency_ms, success: 200 <= s && s <= 299 },
        None => PerRequest { seq, status: 0, latency_ms, success: false },
    }
}

/// How long the collector waits between two stats updates: 50 ms while
/// the test is being cancelled, 500 ms otherwise.
pub fn tick_interval_ms(cancelled: bool) -> (ms: u64)
    ensures
        ms == if cancelled {
            50u64
        } else {
            500u64
        },
{
    if cancelled {
        50
    } else {
        500
    }
}

/// Whether the collector stops after a stats update: every request has
/// completed, or the test was cancelled.
pub fn collector_done(completed: u64, total: u64, cancelled: bool) -> (b: bool)
    ensures
        b == (completed >= total || cancelled),
{
    completed >= total || cancelled
}

/// The running counts of a load test: every completed request is either a
/// success or a failure.
pub struct Tally {
    completed: u64,
    successes: u64,
    failures: u64,
}

impl Tally {
    /// Completed requests.
    pub closed spec fn completed(&self) -> nat {
        self.completed as nat
    }

    /// Successful requests.
    pub closed spec fn successes(&self) -> nat {
        self.successes as nat
    }

    /// Failed requests.
    pub closed spec fn failures(&self) -> nat {
        self.failures as nat
    }

    #[verifier::type_invariant]
    closed spec fn counts_agree(&self) -> bool {
        self.completed == self.successes + self.failures
    }

    /// No request completed yet.
    pub fn new() -> (t: Tally)
        ensures
            t.completed() == 0,
            t.successes() == 0,
            t.failures() == 0,
    {
        Tally { completed: 0, successes: 0, failures: 0 }
    }

    /// The number of completed requests, which is the number of successes
    /// plus the number of failures.
    pub fn completed_count(&self) -> (n: u64)
        ensures
            n == self.completed(),
            self.completed() == self.successes() + self.failures(),
    {
        proof {
            use_type_invariant(self);
        }
        self.completed
    }

    /// The number of successful requests.
    pub fn success_count(&self) -> (n: u64)
        ensures
            n == self.successes(),
    {
        self.successes
    }

    /// The number of failed requests.
    pub fn failure_count(&self) -> (n: u64)
        ensures
            n == self.failures(),
    {
        self.failures
    }

    /// Counts one more completed request, a success or a failure.
    pub fn record(&mut self, success: bool)
        requires
            old(self).completed() < u64::MAX,
        ensures
            final(self).completed() == old(self).completed() + 1,
            final(self).successes() == old(self).successes() + if success {
                1int
            } else {
                0int
            },
            final(self).failures() == old(self).failures() + if success {
                0int
            } else {
                1int
            },
    {
        proof {
            use_type_invariant(&*self);
        }
        let c = self.completed + 1;
        let (sc, fc) = if success {
            (self.successes + 1, self.failures)
        } else {
            (self.successes, self.failures + 1)
        };
        *self = Tally { completed: c, successes: sc, failures: fc };
    }
}

/// What the application keeps of a running load test: whether it was asked
/// to stop, how many requests it sends, and its running counts.
pub struct LoadTestHandle {
    /// Set once the test is asked to stop.
    pub cancel: bool,
    /// The number of requests the test sends.
    pub total: u64,
    /// Completed, successful and failed requests so far.
    pub counts: Tally,
}

impl LoadTestHandle {
    /// The handle of a test of `total` requests that has just started.
    pub fn new(total: u64) -> (h: LoadTestHandle)
        ensures
            !h.cancel,
            h.total == total,
            h.counts.completed() == 0,
            h.counts.successes() == 0,
            h.counts.failures() == 0,
    {
        LoadTestHandle { cancel: false, total, counts: Tally::new() }
    }

    /// Asks the test to stop; the counts stay as they are.
    pub fn stop(&mut self)
        ensures
            final(self).cancel,
            final(self).total == old(self).total,
            final(self).counts == old(self).counts,
    {
        self.cancel = true;
    }

    /// Counts one more completed request of the test.
    pub fn record(&mut self, success: bool)
        requires
            old(self).counts.completed() < u64::MAX,
        ensures
            final(self).cancel == old(self).cancel,
            final(self).total == old(self).total,
            final(self).counts.completed() == old(self).counts.completed() + 1,
            final(self).counts.successes() == old(self).counts.successes() + if success {
                1int
            } else {
                0int
            },
            final(self).counts.failures() == old(self).counts.failures() + if success {
                0int
            } else {
                1int
            },
    {
        self.counts.record(success);
    }
}

// ---------------------------------------------------------------------------
// Latency window
// ---------------------------------------------------------------------------

/// The sum of `s`.
pub open spec fn seq_sum(s: Seq<u64>) -> int
    decreases s.len(),
{
    if s.len() == 0 {
        0
    } else {
        seq_sum(s.drop_last()) + s.last()
    }
}

/// `s` is in ascending order.
pub open spec fn ascending(s: Seq<u64>) -> bool {
    forall|i: int, j: int| 0 <= i <= j < s.len() ==> s[i] <= s[j]
}

/// The index of the 95th percentile in a sorted window of `len` values:
/// `floor(0.95 * len)`, at most the last index.
pub open spec fn p95_index(len: nat) -> int {
    let i: int = ((len * 95) / 100) as int;
    if i > len - 1 {
        len - 1
    } else {
        i
    }
}

/// The latencies of a load test: the most recent 50 000 of them, their sum,
/// and how many were recorded in all.
pub struct LatencyTracker {
    window: VecDeque<u64>,
    total: u64,
    sum: u128,
}

/// What a snapshot of the tracker reports.
pub struct LatencySnapshot {
    /// The sum of the latencies in the window.
    pub sum: u128,
    /// The number of latencies recorded in all.
    pub total: u64,
    /// The 95th-percentile latency of the window.
    pub p95: u64,
}

/// The window after recording `ms`: the oldest latency leaves a full
/// window, `ms` joins it.
pub open spec fn window_step(w: Seq<u64>, ms: u64) -> Seq<u64> {
    if w.len() >= LATENCY_WINDOW {
        w.drop_first().push(ms)
    } else {
        w.push(ms)
    }
}

/// The window of a tracker that recorded `all`, oldest first, from new.
pub open spec fn window_of(all: Seq<u64>) -> Seq<u64>
    decreases all.len(),
{
    if all.len() == 0 {
        seq![]
    } else {
        window_step(window_of(all.drop_last()), all.last())
    }
}

/// The window always holds the most recent latencies: all of them up to
/// 50 000, else the last 50 000, in the order they were recorded.
pub proof fn law_window_keeps_latest(all: Seq<u64>)
    ensures
        window_of(all) == if all.len() <= LATENCY_WINDOW {
            all
        } else {
            all.skip(all.len() - LATENCY_WINDOW)
        },
    decreases all.len(),
{
    if all.len() > 0 {
        let prev = all.drop_last();
        law_window_keeps_latest(prev);
        if prev.len() < LATENCY_WINDOW {
            assert(prev.push(all.last()) =~= all);
        } else {
            let w = prev.skip(prev.len() - LATENCY_WINDOW);
            assert(w.drop_first().push(all.last()) =~= all.skip(all.len() - LATENCY_WINDOW));
        }
    }
}

/// A tracker that recorded at most 50 000 latencies reports on all of
/// them: its window is the whole run, so a snapshot's sum is the sum of the
/// run and its 95th percentile is taken from the run in ascending order.
pub proof fn law_short_run_window(all: Seq<u64>)
    requires
        all.len() <= LATENCY_WINDOW,
    ensures
        window_of(all) == all,
        seq_sum(window_of(all)) == seq_sum(all),
        forall|v: Seq<u64>| #[trigger] sorted_window(window_of(all), v) <==> sorted_window(all, v),
{
    law_window_keeps_latest(all);
}

/// `v` is the window in ascending order.
pub open spec fn sorted_window(w: Seq<u64>, v: Seq<u64>) -> bool {
    ascending(v) && v.to_multiset() == w.to_multiset()
}

impl LatencyTracker {
    /// The latencies in the window, oldest first.
    pub closed spec fn window(&self) -> Seq<u64> {
        self.window@
    }

    /// The number of latencies recorded in all.
    pub closed spec fn total(&self) -> nat {
        self.total as nat
    }

    /// The sum kept for the window.
    pub closed spec fn sum(&self) -> int {
        self.sum as int
    }

    /// At most 50 000 latencies in the window, the sum their sum, and a
    /// non-empty window once anything was recorded.
    #[verifier::type_invariant]
    closed spec fn wf(&self) -> bool {
        &&& self.window@.len() <= LATENCY_WINDOW
        &&& self.sum as int == seq_sum(self.window@)
        &&& self.window@.len() <= self.total
        &&& (self.total > 0 ==> self.window@.len() > 0)
    }

    /// An empty tracker.
    pub fn new() -> (t: LatencyTracker)
        ensures
            t.window() == Seq::<u64>::empty(),
            t.total() == 0,
            t.sum() == 0,
    {
        LatencyTracker { window: VecDeque::new(), total: 0, sum: 0 }
    }

    /// The number of latencies recorded in all. The window never holds
    /// more than 50 000 of them, nor more than were recorded, and the kept
    /// sum is their sum.
    pub fn count(&self) -> (n: u64)
        ensures
            n == self.total(),
            self.window().len() <= LATENCY_WINDOW,
            self.window().len() <= self.total(),
            self.sum() == seq_sum(self.window()),
    {
        proof {
            use_type_invariant(self);
        }
        self.total
    }

    /// Records one latency: the oldest one leaves a full window, the new one
    /// joins it, and the total grows by one.
    pub fn push(&mut self, ms: u64)
        requires
            old(self).total() < u64::MAX,
        ensures
            final(self).total() == old(self).total() + 1,
            final(self).window() == window_step(old(self).window(), ms),
            final(self).sum() == seq_sum(final(self).window()),
    {
        proof {
            use_type_invariant(&*self);
        }
        let mut t = LatencyTracker::new();
        std::mem::swap(self, &mut t);
        let LatencyTracker { mut window, total, mut sum } = t;
        proof {
            lemma_seq_sum_bound(window@);
        }
        if window.len() >= LATENCY_WINDOW {
            let ghost w = window@;
            proof {
                lemma_seq_sum_drop_first(w);
                lemma_seq_sum_bound(w.drop_first());
            }
            let old_front = match window.pop_front() {
                Some(x) => x,
                None => 0,
            };
            proof {
                assert(window@ == w.drop_first());
            }
            sum = sum - old_front as u128;
        }
        let ghost w2 = window@;
        proof {
            lemma_seq_sum_bound(w2);
            assert(w2.push(ms).drop_last() == w2);
        }
        window.push_back(ms);
        *self = LatencyTracker { window, total: total + 1, sum: sum + ms as u128 };
    }

    /// The sum of the window, the total count, and the 95th-percentile
    /// latency of the window; `None` when nothing was recorded.
    pub fn snapshot(&self) -> (r: Option<LatencySnapshot>)
        ensures
            self.total() == 0 <==> r is None,
            r matches Some(s) ==> {
                &&& s.sum == self.sum()
                &&& s.total == self.total()
                &&& exists|v: Seq<u64>|
                    #[trigger] sorted_window(self.window(), v) && s.p95 == v[p95_index(
                        v.len(),
                    )]
            },
    {
        proof {
            use_type_invariant(self);
        }
        if self.total == 0 {
            return None;
        }
        let mut v: Vec<u64> = Vec::new();
        for x in it: self.window.iter()
            invariant
                v@ == it.seq().take(it.index() as int).map_values(|y: &u64| *y),
        {
            v.push(*x);
        }
        assert(v@ =~= self.window@);
        sort_ascending(&mut v);
        proof {
            lemma_len_from_multiset_u64(v@, self.window@);
        }
        let n = v.len();
        assert(0 < n <= LATENCY_WINDOW);
        let i = (n * 95) / 100;
        let idx = if i > n - 1 {
            n - 1
        } else {
            i
        };
        assert(sorted_window(self.window(), v@));
        Some(LatencySnapshot { sum: self.sum, total: self.total, p95: v[idx] })
    }
}

proof fn lemma_seq_sum_bound(s: Seq<u64>)
    ensures
        0 <= seq_sum(s) <= s.len() * 0xffff_ffff_ffff_ffff,
    decreases s.len(),
{
    if s.len() > 0 {
        lemma_seq_sum_bound(s.drop_last());
    }
}

proof fn lemma_seq_sum_drop_first(s: Seq<u64>)
    requires
        s.len() > 0,
    ensures
        seq_sum(s) == s[0] + seq_sum(s.drop_first()),
    decreases s.len(),
{
    if s.len() > 1 {
        lemma_seq_sum_drop_first(s.drop_last());
        assert(s.drop_last().drop_first() == s.drop_first().drop_last());
        assert(s.drop_first().last() == s.last());
        assert(s.drop_last()[0] == s[0]);
        assert(seq_sum(s) == seq_sum(s.drop_last()) + s.last());
        assert(seq_sum(s.drop_first()) == seq_sum(s.drop_first().drop_last()) + s.drop_first().last());
    } else {
        assert(s.drop_first().len() == 0);
        assert(s.drop_last().len() == 0);
        assert(s.last() == s[0]);
        assert(seq_sum(s.drop_last()) == 0);
        assert(seq_sum(s.drop_first()) == 0);
        assert(seq_sum(s) == seq_sum(s.drop_last()) + s.last());
    }
}

proof fn lemma_len_from_multiset_u64(a: Seq<u64>, b: Seq<u64>)
    requires
        a.to_multiset() == b.to_multiset(),
    ensures
        a.len() == b.len(),
{
    broadcast use vstd::seq_lib::to_multiset_len;

    assert(a.to_multiset().len() == a.len());
    assert(b.to_multiset().len() == b.len());
}

/// `slice::sort_unstable`: the values in ascending order, the same values
/// as before.
#[verifier::external_body]
fn sort_ascending(v: &mut Vec<u64>)
    ensures
        ascending(final(v)@),
        final(v)@.to_multiset() == old(v)@.to_multiset(),
{
    v.sort_unstable();
}

// ---------------------------------------------------------------------------
// Report detail
// ---------------------------------------------------------------------------

/// The outcomes that a report keeps: all of them up to 10 000, else the
/// first 5 000 and the last 5 000.
pub open spec fn spec_capped(rs: Seq<PerRequest>) -> Seq<PerRequest> {
    if rs.len() > MAX_DETAIL {
        rs.take((MAX_DETAIL / 2) as int) + rs.skip(rs.len() - MAX_DETAIL / 2)
    } else {
        rs
    }
}

/// The outcomes are in the order of their request numbers.
pub open spec fn by_seq(rs: Seq<PerRequest>) -> bool {
    forall|i: int, j: int| 0 <= i <= j < rs.len() ==> rs[i].seq <= rs[j].seq
}

/// `s` with `x` placed after every outcome whose request number is not
/// greater than its own, and before the rest: one step of a stable sort.
pub open spec fn insert_by_seq(s: Seq<PerRequest>, x: PerRequest) -> Seq<PerRequest>
    decreases s.len(),
{
    if s.len() == 0 {
        seq![x]
    } else if s.last().seq <= x.seq {
        s.push(x)
    } else {
        insert_by_seq(s.drop_last(), x).push(s.last())
    }
}

/// `s` sorted by request number, outcomes with the same number in the order
/// they had: what a stable sort gives.
pub open spec fn stable_sort_by_seq(s: Seq<PerRequest>) -> Seq<PerRequest>
    decreases s.len(),
{
    if s.len() == 0 {
        seq![]
    } else {
        insert_by_seq(stable_sort_by_seq(s.drop_last()), s.last())
    }
}

/// `slice::sort_by_key` on the request number: a stable sort by it.
#[verifier::external_body]
fn sort_by_seq(v: &mut Vec<PerRequest>)
    ensures
        final(v)@ == stable_sort_by_seq(old(v)@),
{
    v.sort_by_key(|p| p.seq);
}

proof fn lemma_insert_bounded(s: Seq<PerRequest>, x: PerRequest, b: u64)
    requires
        forall|i: int| 0 <= i < s.len() ==> (#[trigger] s[i]).seq <= b,
        x.seq <= b,
    ensures
        forall|i: int| 0 <= i < insert_by_seq(s, x).len() ==> (#[trigger] insert_by_seq(s, x)[i]).seq
            <= b,
    decreases s.len(),
{
    if s.len() > 0 && s.last().seq > x.seq {
        let init = s.drop_last();
        assert forall|i: int| 0 <= i < init.len() implies (#[trigger] init[i]).seq <= b by {
            assert(init[i] == s[i]);
        }
        lemma_insert_bounded(init, x, b);
        let r = insert_by_seq(init, x);
        assert forall|i: int| 0 <= i < r.push(s.last()).len() implies (#[trigger] r.push(
            s.last(),
        )[i]).seq <= b by {
            if i < r.len() {
                assert(r.push(s.last())[i] == r[i]);
            }
        }
    } else if s.len() > 0 {
        assert forall|i: int| 0 <= i < s.push(x).len() implies (#[trigger] s.push(x)[i]).seq <= b by {
            if i < s.len() {
                assert(s.push(x)[i] == s[i]);
            }
        }
    }
}

proof fn lemma_insert_sorted(s: Seq<PerRequest>, x: PerRequest)
    requires
        by_seq(s),
    ensures
        by_seq(insert_by_seq(s, x)),
        insert_by_seq(s, x).to_multiset() == s.to_multiset().insert(x),
        insert_by_seq(s, x).len() == s.len() + 1,
    decreases s.len(),
{
    broadcast use vstd::seq_lib::to_multiset_build;

    if s.len() == 0 {
        assert(s.push(x) =~= seq![x]);
        assert(s.push(x).to_multiset() =~= s.to_multiset().insert(x));
    } else {
        let init = s.drop_last();
        let l = s.last();
        assert(init.push(l) =~= s);
        if l.seq <= x.seq {
            let r = s.push(x);
            assert(r.to_multiset() =~= s.to_multiset().insert(x));
            assert forall|i: int, j: int| 0 <= i <= j < r.len() implies r[i].seq <= r[j].seq by {
                if j == s.len() {
                    if i < s.len() {
                        assert(s[i].seq <= s[s.len() - 1].seq);
                    }
                } else {
                    assert(r[i] == s[i] && r[j] == s[j]);
                }
            }
        } else {
            assert(by_seq(init)) by {
                assert forall|i: int, j: int| 0 <= i <= j < init.len() implies init[i].seq
                    <= init[j].seq by {
                    assert(init[i] == s[i] && init[j] == s[j]);
                }
            }
            lemma_insert_sorted(init, x);
            let r0 = insert_by_seq(init, x);
            assert forall|i: int| 0 <= i < init.len() implies (#[trigger] init[i]).seq <= l.seq by {
                assert(init[i] == s[i]);
            }
            lemma_insert_bounded(init, x, l.seq);
            let r = r0.push(l);
            assert forall|i: int, j: int| 0 <= i <= j < r.len() implies r[i].seq <= r[j].seq by {
                if j == r0.len() {
                    if i < r0.len() {
                        assert(r[i] == r0[i]);
                        assert(r0[i].seq <= l.seq);
                    }
                } else {
                    assert(r[i] == r0[i] && r[j] == r0[j]);
                }
            }
            assert(r.to_multiset() == r0.to_multiset().insert(l));
            assert(s.to_multiset() == init.to_multiset().insert(l));
            assert(r.to_multiset() =~= s.to_multiset().insert(x));
        }
    }
}

proof fn lemma_stable_sort(s: Seq<PerRequest>)
    ensures
        by_seq(stable_sort_by_seq(s)),
        stable_sort_by_seq(s).to_multiset() == s.to_multiset(),
        stable_sort_by_seq(s).len() == s.len(),
    decreases s.len(),
{
    broadcast use vstd::seq_lib::to_multiset_build;

    if s.len() > 0 {
        lemma_stable_sort(s.drop_last());
        lemma_insert_sorted(stable_sort_by_seq(s.drop_last()), s.last());
        assert(s.drop_last().push(s.last()) =~= s);
    } else {
        assert(s =~= stable_sort_by_seq(s));
    }
}

/// The per-request detail of a report: the outcomes kept by `spec_capped`,
/// ordered by request number, stably (outcomes with the same number keep
/// their order).
pub fn report_detail(results: Vec<PerRequest>) -> (r: Vec<PerRequest>)
    ensures
        r@ == stable_sort_by_seq(spec_capped(results@)),
        by_seq(r@),
        r@.to_multiset() == spec_capped(results@).to_multiset(),
        r@.len() == spec_capped(results@).len(),
{
    let n = results.len();
    let mut kept: Vec<PerRequest> = if n > MAX_DETAIL {
        let mut k: Vec<PerRequest> = Vec::new();
        let mut i: usize = 0;
        while i < MAX_DETAIL / 2
            invariant
                n == results.len(),
                n > MAX_DETAIL,
                i <= MAX_DETAIL / 2,
                k@ == results@.take(i as int),
            decreases MAX_DETAIL / 2 - i,
        {
            k.push(results[i]);
            i += 1;
            assert(k@ =~= results@.take(i as int));
        }
        let start = n - MAX_DETAIL / 2;
        let mut j: usize = start;
        while j < n
            invariant
                n == results.len(),
                n > MAX_DETAIL,
                start == n - MAX_DETAIL / 2,
                start <= j <= n,
                k@ == results@.take((MAX_DETAIL / 2) as int) + results@.subrange(
                    start as int,
                    j as int,
                ),
            decreases n - j,
        {
            k.push(results[j]);
            j += 1;
            assert(k@ =~= results@.take((MAX_DETAIL / 2) as int) + results@.subrange(
                start as int,
                j as int,
            ));
        }
        assert(results@.subrange(start as int, n as int) == results@.skip(start as int));
        k
    } else {
        results
    };
    let ghost before = kept@;
    assert(before == spec_capped(results@));
    sort_by_seq(&mut kept);
    proof {
        lemma_stable_sort(before);
    }
    kept
}

/// A report keeps at most 10 000 outcomes, in the order of their request
/// numbers, and every outcome when there were no more than 10 000.
pub proof fn law_report_detail_bounded(results: Seq<PerRequest>)
    ensures
        spec_capped(results).len() <= MAX_DETAIL,
        results.len() <= MAX_DETAIL ==> spec_capped(results) == results,
        results.len() > MAX_DETAIL ==> spec_capped(results).take((MAX_DETAIL / 2) as int)
            == results.take((MAX_DETAIL / 2) as int) && spec_capped(results).skip(
            (MAX_DETAIL / 2) as int,
        ) == results.skip(results.len() - MAX_DETAIL / 2),
{
    if results.len() > MAX_DETAIL {
        let c = spec_capped(results);
        assert(c.take((MAX_DETAIL / 2) as int) =~= results.take((MAX_DETAIL / 2) as int));
        assert(c.skip((MAX_DETAIL / 2) as int) =~= results.skip(results.len() - MAX_DETAIL / 2));
    }
}

} // verus!
