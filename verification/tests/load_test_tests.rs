use poster::load_test::{
    collector_done, engine_settings, load_test_id, pacer_step, record_outcome, report_detail, tick_interval_ms,
    LatencyTracker, LoadTestHandle, PacerAction, Tally,
};
use poster::model::{Auth, Header, LoadTestConfig, PerRequest};

fn config(rps: u64, concurrency: u64, timeout_ms: u64) -> LoadTestConfig {
    LoadTestConfig {
        url: "http://h".into(),
        method: "post".into(),
        headers: vec![
            Header { key: "A".into(), value: "1".into() },
            Header { key: "".into(), value: "x".into() },
        ],
        body_type: "none".into(),
        body: String::new(),
        auth: Auth::none(),
        variables: vec![],
        overrides: vec![],
        rps,
        total_requests: 10,
        concurrency,
        timeout_ms,
    }
}

fn outcome(seq: u64) -> PerRequest {
    PerRequest { seq, status: 200, latency_ms: seq, success: true }
}

#[test]
fn engine_settings_clamps() {
    let s = engine_settings(&config(0, 0, 5));
    assert_eq!(s.rps, 1);
    assert_eq!(s.workers, 1);
    assert_eq!(s.timeout_ms, 100);
    assert_eq!(s.total, 10);
    assert_eq!(s.method, "POST");
    assert_eq!(s.headers, vec![("A".to_string(), "1".to_string())]);
    let s2 = engine_settings(&config(50, 1000, 2000));
    assert_eq!(s2.rps, 50);
    assert_eq!(s2.workers, 256);
    assert_eq!(s2.timeout_ms, 2000);
}

#[test]
fn pacer_round_robin_and_stop() {
    assert_eq!(pacer_step(0, 5, false, 3), PacerAction::Dispatch { seq: 0, worker: 0 });
    assert_eq!(pacer_step(4, 5, false, 3), PacerAction::Dispatch { seq: 4, worker: 1 });
    assert_eq!(pacer_step(5, 5, false, 3), PacerAction::Finish);
    assert_eq!(pacer_step(1, 5, true, 3), PacerAction::Finish);
}

#[test]
fn record_outcome_success_class() {
    assert!(record_outcome(1, Some(204), 5).success);
    assert!(!record_outcome(1, Some(302), 5).success);
    assert!(!record_outcome(1, Some(199), 5).success);
    let e = record_outcome(3, None, 7);
    assert_eq!(e, PerRequest { seq: 3, status: 0, latency_ms: 7, success: false });
}

#[test]
fn collector_timing() {
    assert_eq!(tick_interval_ms(true), 50);
    assert_eq!(tick_interval_ms(false), 500);
    assert!(collector_done(10, 10, false));
    assert!(collector_done(1, 10, true));
    assert!(!collector_done(9, 10, false));
}

#[test]
fn tally_counts() {
    let mut t = Tally::new();
    t.record(true);
    t.record(false);
    t.record(true);
    assert_eq!((t.completed_count(), t.success_count(), t.failure_count()), (3, 2, 1));
}

#[test]
fn latency_snapshot_empty() {
    assert!(LatencyTracker::new().snapshot().is_none());
}

#[test]
fn latency_snapshot_p95() {
    let mut t = LatencyTracker::new();
    for ms in (1..=20).rev() {
        t.push(ms);
    }
    let s = t.snapshot().unwrap();
    assert_eq!(s.sum, 210);
    assert_eq!(s.total, 20);
    // floor(0.95 * 20) = 19 -> the largest
    assert_eq!(s.p95, 20);
}

#[test]
fn latency_window_drops_oldest() {
    let mut t = LatencyTracker::new();
    for _ in 0..50_000 {
        t.push(1);
    }
    t.push(1000);
    let s = t.snapshot().unwrap();
    assert_eq!(s.total, 50_001);
    assert_eq!(s.sum, 49_999 + 1000);
}

#[test]
fn report_detail_small_sorted() {
    let r = report_detail(vec![outcome(3), outcome(1), outcome(2)]);
    let seqs: Vec<u64> = r.iter().map(|p| p.seq).collect();
    assert_eq!(seqs, vec![1, 2, 3]);
}

#[test]
fn report_detail_capped_keeps_head_and_tail() {
    let all: Vec<PerRequest> = (0..12_000u64).map(outcome).collect();
    let r = report_detail(all);
    assert_eq!(r.len(), 10_000);
    assert_eq!(r[0].seq, 0);
    assert_eq!(r[4_999].seq, 4_999);
    assert_eq!(r[5_000].seq, 7_000);
    assert_eq!(r[9_999].seq, 11_999);
}

#[test]
fn load_test_id_format() {
    let id = load_test_id(255);
    let (t, r) = id.split_once('-').unwrap();
    assert_eq!(t, "ff");
    assert!(u64::from_str_radix(r, 16).is_ok());
    assert!(r.chars().all(|c| c.is_ascii_hexdigit() && !c.is_ascii_uppercase()));
}

#[test]
fn handle_counts_and_stop() {
    let mut h = LoadTestHandle::new(5);
    assert!(!h.cancel);
    assert_eq!(h.total, 5);
    h.record(true);
    h.record(false);
    h.stop();
    assert!(h.cancel);
    assert_eq!(h.total, 5);
    assert_eq!((h.counts.completed_count(), h.counts.success_count(), h.counts.failure_count()), (2, 1, 1));
}

#[test]
fn latency_snapshot_small_run() {
    let mut t = LatencyTracker::new();
    for ms in [40u64, 10, 30, 20] {
        t.push(ms);
    }
    let s = t.snapshot().unwrap();
    assert_eq!((s.sum, s.total, s.p95), (100, 4, 40));
}

#[test]
fn report_detail_is_stable() {
    let a = PerRequest { seq: 2, status: 200, latency_ms: 1, success: true };
    let b = PerRequest { seq: 1, status: 500, latency_ms: 2, success: false };
    let c = PerRequest { seq: 2, status: 404, latency_ms: 3, success: false };
    let r = report_detail(vec![a, b, c]);
    assert_eq!(r, vec![b, a, c]);
}
