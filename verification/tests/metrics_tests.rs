use llmos::metrics::{PolicyEngineMetrics, RuntimeMetrics};

#[test]
fn render_prometheus_contains_expected_fields() {
    let mut metrics = PolicyEngineMetrics::default();
    metrics.set_rules_loaded(3);
    metrics.inc_evaluate_requests();
    metrics.inc_allow();
    metrics.inc_deny();
    metrics.inc_health_checks();
    metrics.observe_evaluate_latency(1200);

    let rendered = metrics.render_prometheus();
    assert!(rendered.contains("llmos_policy_engine_evaluate_requests_total 1"));
    assert!(rendered.contains("llmos_policy_engine_allow_total 1"));
    assert!(rendered.contains("llmos_policy_engine_deny_total 1"));
    assert!(rendered.contains("llmos_policy_engine_health_checks_total 1"));
    assert!(rendered.contains("llmos_policy_engine_rules_loaded 3"));
    assert!(rendered.contains("llmos_policy_engine_evaluate_latency_us_count 1"));
}

#[test]
fn metrics_render_includes_policy_and_audit_fields() {
    let mut metrics = RuntimeMetrics::default();
    metrics.inc_policy_requests();
    metrics.inc_policy_retries();
    metrics.inc_policy_denies();
    metrics.inc_policy_allows();
    metrics.observe_policy_latency(42);
    metrics.inc_breaker_open_total();
    metrics.set_breaker_open(true);
    metrics.mark_audit_write_failure();

    let rendered = metrics.render_prometheus();

    assert!(rendered.contains("llmos_policy_requests_total 1"));
    assert!(rendered.contains("llmos_policy_retries_total 1"));
    assert!(rendered.contains("llmos_policy_denies_total 1"));
    assert!(rendered.contains("llmos_policy_allows_total 1"));
    assert!(rendered.contains("llmos_policy_breaker_open 1"));
    assert!(rendered.contains("llmos_audit_write_failures_total 1"));
    assert!(rendered.contains("llmos_policy_latency_ms_count 1"));
}

#[test]
fn latency_histogram_buckets_are_cumulative() {
    let mut metrics = PolicyEngineMetrics::default();
    metrics.observe_evaluate_latency(1200);
    metrics.observe_evaluate_latency(30);
    let rendered = metrics.render_prometheus();
    assert!(rendered.contains("llmos_policy_engine_evaluate_latency_us_sum 1230"));
    assert!(rendered.contains("llmos_policy_engine_evaluate_latency_us_count 2"));
    assert!(rendered.contains("llmos_policy_engine_evaluate_latency_us_bucket{le=\"+Inf\"} 2"));
    assert!(rendered.contains("llmos_policy_engine_evaluate_latency_us_bucket{le=\"100\"} 1\n"));
    assert!(rendered.contains("llmos_policy_engine_evaluate_latency_us_bucket{le=\"1000\"} 1\n"));
    assert!(rendered.contains("llmos_policy_engine_evaluate_latency_us_bucket{le=\"2500\"} 2\n"));
}

#[test]
fn breaker_gauge_and_audit_success() {
    let mut metrics = RuntimeMetrics::default();
    metrics.set_breaker_open(true);
    metrics.set_breaker_open(false);
    metrics.mark_audit_write_failure();
    metrics.mark_audit_write_success();
    let rendered = metrics.render_prometheus();
    assert!(rendered.contains("llmos_policy_breaker_open 0"));
    assert!(rendered.contains("llmos_audit_write_failures_total 1"));
    assert!(rendered.contains("llmos_audit_last_write_failed 0"));
    assert!(rendered.contains("llmos_audit_queue_depth 0"));
}

#[test]
fn latency_series_shows_counts_at_most_each_bound() {
    let mut metrics = RuntimeMetrics::default();
    let obs = [3u64, 7, 10, 60, 6000, 250];
    for d in obs {
        metrics.observe_policy_latency(d);
    }
    let rendered = metrics.render_prometheus();
    for b in [5u64, 10, 25, 50, 100, 250, 500, 1000, 2500, 5000] {
        let n = obs.iter().filter(|&&d| d <= b).count();
        let line = format!("llmos_policy_latency_ms_bucket{{le=\"{b}\"}} {n}\n");
        assert!(rendered.contains(&line), "{line}");
    }
    assert!(rendered.contains("llmos_policy_latency_ms_bucket{le=\"+Inf\"} 6\n"));
    assert!(rendered.contains("llmos_policy_latency_ms_count 6\n"));
    assert!(rendered.contains("llmos_policy_latency_ms_sum 6330\n"));
}
