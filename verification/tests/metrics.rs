use executor::metrics::{
    AtomicMetrics, Metrics, MetricsSnapshot, NoopMetrics, EXECUTE_CANCEL, EXECUTE_ERR, EXECUTE_MS, EXECUTE_OK,
    IN_FLIGHT,
};

#[test]
fn new_metrics_read_zero() {
    let m = AtomicMetrics::new();
    assert_eq!(
        m.snapshot(),
        MetricsSnapshot {
            execute_ok: 0,
            execute_err: 0,
            execute_overload: 0,
            execute_timeout: 0,
            execute_cancel: 0,
            in_flight: 0,
            last_execute_ms: 0,
        }
    );
}

#[test]
fn counters_gauges_and_latency() {
    let mut m = AtomicMetrics::new();
    m.counter(EXECUTE_OK, 2);
    m.counter(EXECUTE_OK, 3);
    m.counter(EXECUTE_ERR, 1);
    m.counter(EXECUTE_CANCEL, u64::MAX);
    m.counter(EXECUTE_CANCEL, 2);
    m.counter("something.else", 7);
    m.gauge(IN_FLIGHT, 4);
    m.gauge("other.gauge", 9);
    m.observe_ms(EXECUTE_MS, 12);
    let s = m.snapshot();
    assert_eq!(s.execute_ok, 5);
    assert_eq!(s.execute_err, 1);
    assert_eq!(s.execute_cancel, 1);
    assert_eq!(s.execute_overload, 0);
    assert_eq!(s.in_flight, 4);
    assert_eq!(s.last_execute_ms, 12);
    m.gauge(IN_FLIGHT, -3);
    assert_eq!(m.snapshot().in_flight, 0);
}

#[test]
fn noop_metrics_accept_everything() {
    let mut n = NoopMetrics;
    n.counter(EXECUTE_OK, 1);
    n.gauge(IN_FLIGHT, 1);
    n.observe_ms(EXECUTE_MS, 1);
}
