use route_iq::metrics::{Metrics, WINDOW_NANOS};

const MS: u64 = 1_000_000;

fn percentile(m: &Metrics, p: f64) -> Option<u64> {
    if m.is_empty() {
        return None;
    }
    let idx = ((m.len() as f64) * p).floor() as usize;
    m.latency_at_rank(idx)
}

#[test]
fn percentile_of_known_samples() {
    let mut m = Metrics::new();
    for ms in [10, 20, 30, 40, 50, 60, 70, 80, 90, 100] {
        m.record(ms * MS);
    }

    // 10 samples, p95 → index floor(10 * 0.95) = 9 → 100ms
    assert_eq!(percentile(&m, 0.95), Some(100 * MS));
    // p50 → index 5 → 60ms
    assert_eq!(percentile(&m, 0.50), Some(60 * MS));
    // empty case
    let empty = Metrics::new();
    assert_eq!(percentile(&empty, 0.95), None);
}

#[test]
fn rank_ignores_insertion_order() {
    let mut m = Metrics::new();
    for ms in [70, 10, 40, 40, 90, 20] {
        m.record_at(0, ms * MS);
    }
    let ranked: Vec<u64> = (0..6).map(|r| m.latency_at_rank(r).unwrap()).collect();
    assert_eq!(ranked, vec![10 * MS, 20 * MS, 40 * MS, 40 * MS, 70 * MS, 90 * MS]);
    assert_eq!(m.latency_at_rank(6), None);
}

#[test]
fn old_samples_leave_the_window() {
    let mut m = Metrics::new();
    m.record_at(1, 5);
    m.record_at(2, 6);
    m.record_at(WINDOW_NANOS + 1, 7);
    // Sample at 1 is not older than now - window = 1: it stays.
    assert_eq!(m.len(), 3);
    m.record_at(WINDOW_NANOS + 3, 8);
    // Now the cutoff is 3: samples at 1 and 2 leave.
    assert_eq!(m.len(), 2);
    assert_eq!(m.latency_at_rank(0), Some(7));
    assert_eq!(m.latency_at_rank(1), Some(8));
}

#[test]
fn early_samples_never_expire_before_a_full_window() {
    let mut m = Metrics::new();
    m.record_at(0, 1);
    m.record_at(WINDOW_NANOS, 2);
    assert_eq!(m.len(), 2);
}

#[test]
fn times_never_go_back() {
    let mut m = Metrics::new();
    m.record_at(WINDOW_NANOS + 50, 1);
    // A reading earlier than the latest sample is stamped with the latest time,
    // so nothing is dropped that a later reading would have kept.
    m.record_at(10, 2);
    assert_eq!(m.len(), 2);
    m.record_at(2 * WINDOW_NANOS + 50, 3);
    assert_eq!(m.len(), 3);
    m.record_at(2 * WINDOW_NANOS + 51, 4);
    assert_eq!(m.len(), 2);
    assert_eq!(m.latency_at_rank(0), Some(3));
}
