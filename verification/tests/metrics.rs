use tepora_core::metrics::{str_lt, RuntimeMetrics};

#[test]
fn runtime_metrics_snapshot_contains_totals_and_top_sessions() {
    let mut metrics = RuntimeMetrics::new();
    metrics.record_dispatch();
    metrics.record_dispatch();
    metrics.record_session_busy("s1");
    metrics.record_session_busy("s1");
    metrics.record_too_many_sessions("s2");
    metrics.record_internal_error();

    let snapshot = metrics.snapshot(10);
    assert_eq!(snapshot.dispatch_total, 2);
    assert_eq!(snapshot.session_busy_total, 2);
    assert_eq!(snapshot.too_many_sessions_total, 1);
    assert_eq!(snapshot.internal_error_total, 1);
    assert_eq!(snapshot.session_busy_top.len(), 2);
    assert_eq!(snapshot.session_busy_top[0].session_id, "s1");
    assert_eq!(snapshot.session_busy_top[0].count, 2);
}

// ---------------------------------------------------------------------------

#[test]
fn snapshot_orders_ties_by_id_and_truncates() {
    let mut metrics = RuntimeMetrics::new();
    metrics.record_session_busy("b");
    metrics.record_session_busy("a");
    metrics.record_session_busy("c");
    metrics.record_session_busy("c");
    let snapshot = metrics.snapshot(2);
    let ids: Vec<(String, u64)> = snapshot
        .session_busy_top
        .iter()
        .map(|m| (m.session_id.clone(), m.count))
        .collect();
    assert_eq!(ids, vec![("c".to_string(), 2), ("a".to_string(), 1)]);
    assert_eq!(metrics.snapshot(0).session_busy_top.len(), 3);
}

#[test]
fn str_lt_is_lexicographic() {
    assert!(str_lt("a", "b"));
    assert!(str_lt("a", "ab"));
    assert!(!str_lt("b", "a"));
    assert!(!str_lt("same", "same"));
}

#[test]
fn another_hit_raises_only_that_session_in_the_snapshot() {
    let mut metrics = RuntimeMetrics::new();
    metrics.record_session_busy("a");
    metrics.record_too_many_sessions("b");
    metrics.record_session_busy("b");
    let before = metrics.snapshot(0);
    metrics.record_session_busy("a");
    let after = metrics.snapshot(0);
    let pairs = |s: &tepora_core::metrics::RuntimeMetricsSnapshot| -> Vec<(String, u64)> {
        s.session_busy_top.iter().map(|m| (m.session_id.clone(), m.count)).collect()
    };
    assert_eq!(pairs(&before), vec![("b".to_string(), 2), ("a".to_string(), 1)]);
    assert_eq!(pairs(&after), vec![("a".to_string(), 2), ("b".to_string(), 2)]);
    assert_eq!(after.session_busy_total, before.session_busy_total + 1);
    assert_eq!(after.too_many_sessions_total, before.too_many_sessions_total);
    assert_eq!(metrics.snapshot(1).session_busy_top.len(), 1);
    assert_eq!(metrics.snapshot(1).session_busy_top[0].session_id, "a");
}
