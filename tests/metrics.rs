use matmul::{AmapMetrics, Metrics, MetricsError};

#[test]
fn dynamic_counters_start_on_first_use() {
    let mut m = Metrics::new();
    m.inc("req.page.1");
    m.inc("req.page.1");
    m.inc("call.thread.worker.0");
    assert_eq!(m.get("req.page.1"), 2);
    assert_eq!(m.get("call.thread.worker.0"), 1);
    assert_eq!(m.get("missing"), 0);
    let snap = m.snopshot();
    assert_eq!(
        snap,
        vec![("req.page.1".to_string(), 2), ("call.thread.worker.0".to_string(), 1)]
    );
    assert_eq!(m.to_string(), "req.page.1: 2\ncall.thread.worker.0: 1\n");
}

#[test]
fn fixed_counters_reject_unknown_names() {
    let mut m = AmapMetrics::new(&["a", "b", "a"]);
    assert_eq!(m.inc("a"), Ok(()));
    assert_eq!(m.inc("a"), Ok(()));
    assert_eq!(m.inc("b"), Ok(()));
    assert_eq!(m.inc("c"), Err(MetricsError::KeyNotFound));
    assert_eq!(m.get("a"), 2);
    assert_eq!(m.get("b"), 1);
    assert_eq!(m.to_string(), "a: 2\nb: 1\n");
}

#[test]
fn default_registry_is_empty() {
    let m = Metrics::default();
    assert!(m.snopshot().is_empty());
    assert_eq!(m.to_string(), "");
}
