//! Circuit breaking per cluster.

use praxis_filter::actions::FilterAction;
use praxis_filter::circuit_breaker::{
    default_half_open_timeout_secs, gauge_update, logical_open, validate_cluster, BreakerSettings, CircuitBreakerFilter,
    CircuitCheck, CircuitContext, CircuitState, ClusterCircuitBreakerConfig,
};

fn cluster(name: &str) -> ClusterCircuitBreakerConfig {
    ClusterCircuitBreakerConfig {
        name: name.to_owned(),
        consecutive_failures: 5,
        half_open_timeout_secs: default_half_open_timeout_secs(),
        recovery_window_secs: 30,
    }
}

fn build(clusters: Vec<ClusterCircuitBreakerConfig>) -> CircuitBreakerFilter {
    CircuitBreakerFilter::from_config(&clusters).unwrap_or_else(|e| panic!("{e:?}"))
}

fn build_err(cfg: ClusterCircuitBreakerConfig) -> String {
    CircuitBreakerFilter::from_config(&vec![cfg])
        .err()
        .expect("should reject")
        .text()
}

fn context(cluster: Option<&str>) -> CircuitContext {
    CircuitContext {
        cluster: cluster.map(str::to_owned),
        active: None,
    }
}

#[test]
fn from_config_valid() {
    let filter = build(vec![cluster("backend")]);
    assert_eq!(
        filter.name(),
        "circuit_breaker",
        "filter name should be circuit_breaker"
    );
}

#[test]
fn from_config_rejects_zero_threshold() {
    let err = build_err(ClusterCircuitBreakerConfig {
        consecutive_failures: 0,
        ..cluster("backend")
    });
    assert!(
        err.contains("consecutive_failures must be > 0"),
        "should reject zero threshold: {err}"
    );
}

#[test]
fn from_config_rejects_zero_recovery() {
    let err = build_err(ClusterCircuitBreakerConfig {
        recovery_window_secs: 0,
        ..cluster("backend")
    });
    assert!(
        err.contains("recovery_window_secs must be > 0"),
        "should reject zero recovery: {err}"
    );
}

#[test]
fn from_config_rejects_zero_half_open_timeout() {
    let err = build_err(ClusterCircuitBreakerConfig {
        half_open_timeout_secs: 0,
        ..cluster("backend")
    });
    assert!(
        err.contains("half_open_timeout_secs must be > 0"),
        "should reject zero half-open timeout: {err}"
    );
}

#[test]
fn from_config_half_open_timeout_defaults() {
    let filter = build(vec![cluster("backend")]);
    assert_eq!(
        filter.name(),
        "circuit_breaker",
        "filter should accept config without half_open_timeout_secs"
    );
    assert_eq!(filter.breakers.get("backend").unwrap().half_open_timeout_secs, 30);
}

#[test]
fn from_config_half_open_timeout_explicit() {
    let filter = build(vec![ClusterCircuitBreakerConfig {
        half_open_timeout_secs: 60,
        ..cluster("backend")
    }]);
    assert_eq!(
        filter.name(),
        "circuit_breaker",
        "filter should accept config with explicit half_open_timeout_secs"
    );
    assert_eq!(
        filter.breakers.get("backend"),
        Some(&BreakerSettings {
            threshold: 5,
            recovery_window_secs: 30,
            half_open_timeout_secs: 60,
        })
    );
}

#[test]
fn on_request_passes_when_closed() {
    let filter = build(vec![cluster("backend")]);
    let mut ctx = context(Some("backend"));
    let asked = filter.on_request(&ctx).expect("the breaker is asked");
    let action = filter.checked(&mut ctx, asked, CircuitCheck::Allowed(9));
    assert!(
        matches!(action, FilterAction::Continue),
        "closed circuit should continue"
    );
    let active = ctx.active.expect("the token is kept");
    assert_eq!((active.cluster.as_str(), active.token), ("backend", 9));
}

#[test]
fn on_request_rejects_when_open() {
    let filter = build(vec![cluster("backend")]);
    let mut ctx = context(Some("backend"));
    let asked = filter.on_request(&ctx).expect("the breaker is asked");
    let action = filter.checked(&mut ctx, asked, CircuitCheck::Rejected);
    let FilterAction::Reject(rejection) = action else {
        panic!("open circuit should reject with 503");
    };
    assert_eq!(rejection.status, 503);
    assert_eq!(
        rejection.headers,
        vec![("X-Circuit-State".to_owned(), "open".to_owned())]
    );
    assert!(ctx.active.is_none());
}

#[test]
fn on_request_passes_for_unconfigured_cluster() {
    let filter = build(vec![cluster("backend")]);
    assert!(
        filter.on_request(&context(Some("other"))).is_none(),
        "unconfigured cluster should pass through"
    );
}

#[test]
fn on_request_passes_when_no_cluster() {
    let filter = build(vec![cluster("backend")]);
    assert!(
        filter.on_request(&context(None)).is_none(),
        "no cluster should pass through"
    );
}

fn outcome_of(status: Option<u16>) -> bool {
    let filter = build(vec![cluster("backend")]);
    let mut ctx = context(Some("backend"));
    filter.checked(&mut ctx, "backend".to_owned(), CircuitCheck::Allowed(4));
    let outcome = filter.on_response(&mut ctx, status).expect("an outcome");
    assert_eq!((outcome.cluster.as_str(), outcome.token), ("backend", 4));
    assert!(ctx.active.is_none(), "the token is used once");
    assert!(filter.on_response(&mut ctx, status).is_none());
    outcome.success
}

#[test]
fn on_response_records_server_error_as_failure() {
    assert!(!outcome_of(Some(500)));
    assert!(!outcome_of(Some(599)));
    assert!(outcome_of(Some(499)));
    assert!(outcome_of(Some(200)));
    assert!(outcome_of(Some(600)));
}

#[test]
fn on_response_no_header_records_failure() {
    assert!(
        !outcome_of(None),
        "missing response header (connection failure) should trip the circuit"
    );
}

#[test]
fn clusters_are_isolated() {
    let filter = build(vec![cluster("cluster-b"), cluster("cluster-a"), cluster("cluster-b")]);
    assert_eq!(filter.breakers.len(), 2, "a repeated name keeps one breaker");
    let mut ctx = context(Some("cluster-a"));
    filter.checked(&mut ctx, "cluster-a".to_owned(), CircuitCheck::Allowed(1));
    let outcome = filter.on_response(&mut ctx, Some(500)).unwrap();
    assert_eq!(outcome.cluster, "cluster-a");
    assert_eq!(filter.on_request(&context(Some("cluster-b"))).as_deref(), Some("cluster-b"));
}

#[test]
fn the_gauge_follows_the_state() {
    assert!(!logical_open(CircuitState::Closed));
    assert!(logical_open(CircuitState::Open) && logical_open(CircuitState::HalfOpen));
    assert_eq!(gauge_update(CircuitState::Closed, CircuitState::Open), Some(true));
    assert_eq!(gauge_update(CircuitState::HalfOpen, CircuitState::Closed), Some(false));
    assert_eq!(gauge_update(CircuitState::Open, CircuitState::HalfOpen), None);
}

#[test]
fn cluster_errors_name_the_cluster() {
    let err = validate_cluster(&ClusterCircuitBreakerConfig {
        recovery_window_secs: 0,
        ..cluster("backend")
    })
    .err()
    .unwrap();
    assert_eq!(
        err.text(),
        "circuit_breaker: cluster 'backend': recovery_window_secs must be > 0"
    );
}
