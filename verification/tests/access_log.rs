//! Access log.

use std::borrow::Cow;

use praxis_filter::access_log::{
    access_record_already_emitted, bodyless_response, emit_access_record, mark_access_record_emitted,
    normalize_header_names, path_prefix_matches, projected_record, sanitize_for_log, truncate_u128, AccessContext,
    AccessLogConfig, AccessLogEmitConditions, AccessLogFilter, EmitPlan, FieldToken, LogEntry, ResponseHead,
    StatusClass, SAMPLE_SCALE,
};
use praxis_filter::body::BodyAccess;
use praxis_filter::error::FilterError;
use praxis_filter::headers::HeaderMap;

fn context(method: &str, path: &str) -> AccessContext {
    AccessContext {
        method: method.to_owned(),
        path: path.to_owned(),
        client_addr: None,
        cluster: None,
        upstream: None,
        request_id: None,
        request_body_bytes: 0,
        response_body_bytes: 0,
        request_headers: HeaderMap::new(),
        otel_ids: None,
        emitted: false,
        state: None,
    }
}

fn scaled(rate: f64) -> Result<u64, FilterError> {
    if rate <= 0.0 || rate > 1.0 {
        return Err(FilterError::new(format!(
            "access_log: sample_rate must be in (0.0, 1.0], got {rate}"
        )));
    }
    Ok((rate * SAMPLE_SCALE as f64).round() as u64)
}

fn config() -> AccessLogConfig {
    AccessLogConfig {
        sample: scaled(1.0),
        fields: None,
        request_headers: None,
        response_headers: None,
        conditions: None,
    }
}

fn list(values: &[&str]) -> Option<Vec<String>> {
    Some(values.iter().map(|v| (*v).to_owned()).collect())
}

fn tokens(values: &[&str]) -> Option<Vec<Option<String>>> {
    Some(values.iter().map(|v| Some((*v).to_owned())).collect())
}

fn build_err(cfg: AccessLogConfig) -> String {
    AccessLogFilter::build(cfg).err().expect("should fail").text()
}

fn filter_with_sample_rate(rate: f64) -> AccessLogFilter {
    AccessLogFilter::build(AccessLogConfig {
        sample: scaled(rate),
        ..config()
    })
    .unwrap_or_else(|e| panic!("{e:?}"))
}

fn count_logged(filter: &mut AccessLogFilter, requests: usize) -> usize {
    (0..requests).filter(|_| filter.should_log()).count()
}

fn filter_with(sample_numerator: u64, fields: Vec<FieldToken>, is_default: bool) -> AccessLogFilter {
    AccessLogFilter {
        counter: 0,
        sample_numerator,
        emit_plan: EmitPlan { fields, is_default },
        emit_conditions: None,
        needs_response_headers: false,
    }
}

#[test]
fn status_class_or_matching() {
    assert!(StatusClass::ServerError.matches(500));
    assert!(StatusClass::ClientError.matches(404));
    assert!(!StatusClass::ServerError.matches(200));
}

#[test]
fn sanitize_strips_newlines() {
    assert_eq!(
        sanitize_for_log("/path\ninjected"),
        "/pathinjected",
        "newlines should be stripped"
    );
    assert_eq!(
        sanitize_for_log("/path\r\ninjected"),
        "/pathinjected",
        "CRLF should be stripped"
    );
}

#[test]
fn sanitize_strips_ansi_escapes() {
    assert_eq!(
        sanitize_for_log("/path\x1b[31mred\x1b[0m"),
        "/pathred",
        "ANSI escapes should be stripped"
    );
}

#[test]
fn sanitize_strips_tabs_and_null() {
    assert_eq!(
        sanitize_for_log("/path\0\there"),
        "/pathhere",
        "null and tab should be stripped"
    );
}

#[test]
fn sanitize_preserves_normal_paths() {
    assert_eq!(
        sanitize_for_log("/api/v1/users?q=foo"),
        "/api/v1/users?q=foo",
        "normal paths should be unchanged"
    );
}

#[test]
fn sanitize_returns_borrowed_for_clean_paths() {
    let result = sanitize_for_log("/clean/path");
    assert!(
        matches!(result, Cow::Borrowed(_)),
        "clean paths should return Cow::Borrowed"
    );
}

#[test]
fn sanitize_returns_owned_for_dirty_paths() {
    let result = sanitize_for_log("/path\ninjected");
    assert!(matches!(result, Cow::Owned(_)), "dirty paths should return Cow::Owned");
}

#[test]
fn sanitize_strips_del_character() {
    assert_eq!(
        sanitize_for_log("/path\x7Fhere"),
        "/pathhere",
        "DEL (0x7F) should be stripped"
    );
}

#[test]
fn sanitize_strips_c1_control_characters() {
    assert_eq!(
        sanitize_for_log("/path\u{0080}injected"),
        "/pathinjected",
        "C1 control U+0080 should be stripped"
    );
    assert_eq!(
        sanitize_for_log("/path\u{009F}injected"),
        "/pathinjected",
        "C1 control U+009F should be stripped"
    );
}

#[test]
fn is_bodyless_detects_1xx() {
    assert!(
        AccessLogFilter::is_bodyless(100, "GET"),
        "100 Continue should be bodyless"
    );
}

#[test]
fn is_bodyless_detects_204() {
    assert!(
        AccessLogFilter::is_bodyless(204, "DELETE"),
        "204 No Content should be bodyless"
    );
}

#[test]
fn is_bodyless_detects_304() {
    assert!(
        AccessLogFilter::is_bodyless(304, "GET"),
        "304 Not Modified should be bodyless"
    );
}

#[test]
fn is_bodyless_detects_head() {
    assert!(
        AccessLogFilter::is_bodyless(200, "HEAD"),
        "HEAD request should be bodyless regardless of status"
    );
}

#[test]
fn is_bodyless_returns_false_for_normal_response() {
    assert!(
        !AccessLogFilter::is_bodyless(200, "GET"),
        "normal 200 GET should not be bodyless"
    );
}

#[test]
fn from_config_defaults_to_log_all() {
    let filter = AccessLogFilter::build(config()).unwrap_or_else(|e| panic!("{e:?}"));
    assert_eq!(
        filter.name(),
        "access_log",
        "default config should produce access_log filter"
    );
    assert!(filter.emit_plan.is_default);
    assert_eq!(filter.emit_plan.fields.len(), 10);
}

#[test]
fn from_config_parses_sample_rate() {
    let filter = filter_with_sample_rate(0.5);
    assert_eq!(filter.name(), "access_log", "sample_rate config should parse correctly");
    assert_eq!(filter.sample_numerator, 500_000);
}

#[test]
fn from_config_rejects_zero_sample_rate() {
    let err = build_err(AccessLogConfig { sample: scaled(0.0), ..config() });
    assert!(err.contains("sample_rate must be in (0.0, 1.0]"), "got: {err}");
}

#[test]
fn from_config_rejects_negative_sample_rate() {
    let err = build_err(AccessLogConfig { sample: scaled(-0.5), ..config() });
    assert!(err.contains("sample_rate must be in (0.0, 1.0]"), "got: {err}");
}

#[test]
fn from_config_rejects_sample_rate_above_one() {
    let err = build_err(AccessLogConfig { sample: scaled(1.5), ..config() });
    assert!(err.contains("sample_rate must be in (0.0, 1.0]"), "got: {err}");
}

#[test]
fn from_config_rejects_empty_fields() {
    let err = build_err(AccessLogConfig { fields: tokens(&[]), ..config() });
    assert!(err.contains("fields must not be empty"), "got: {err}");
}

#[test]
fn from_config_rejects_unknown_field_token() {
    let err = build_err(AccessLogConfig {
        fields: tokens(&["method", "not_a_field"]),
        ..config()
    });
    assert!(err.contains("unknown field token"), "got: {err}");
    assert_eq!(err, "access_log: unknown field token \"not_a_field\"");
}

#[test]
fn from_config_rejects_filter_results_token() {
    let err = build_err(AccessLogConfig {
        fields: tokens(&["filter_results"]),
        ..config()
    });
    assert!(err.contains("filter_results"), "got: {err}");
}

#[test]
fn from_config_rejects_nested_fields_map() {
    let err = build_err(AccessLogConfig {
        fields: Some(vec![Some("method".to_owned()), None]),
        ..config()
    });
    assert!(
        err.contains("scalar tokens") || err.contains("expected a sequence"),
        "got: {err}"
    );
}

#[test]
fn from_config_rejects_sensitive_request_header() {
    let err = build_err(AccessLogConfig {
        request_headers: list(&["authorization"]),
        fields: tokens(&["request_header.authorization"]),
        ..config()
    });
    assert!(err.contains("not allowed"), "got: {err}");
    for name in ["Proxy-Authorization", " COOKIE ", "set-cookie"] {
        let err = build_err(AccessLogConfig {
            response_headers: list(&[name]),
            ..config()
        });
        assert!(err.contains("not allowed"), "got: {err}");
    }
}

#[test]
fn from_config_rejects_header_token_without_list() {
    let err = build_err(AccessLogConfig {
        fields: tokens(&["request_header.user-agent"]),
        ..config()
    });
    assert!(err.contains("request_headers"), "got: {err}");
    assert_eq!(
        err,
        "access_log: request_header.user-agent requires \"user-agent\" in request_headers"
    );
}

#[test]
fn from_config_parses_custom_fields_and_headers() {
    let filter = AccessLogFilter::build(AccessLogConfig {
        fields: tokens(&["method", "request_header.user-agent", "trace_id"]),
        request_headers: list(&["user-agent"]),
        ..config()
    })
    .unwrap_or_else(|e| panic!("{e:?}"));
    assert!(!filter.emit_plan.is_default);
    assert_eq!(filter.emit_plan.fields.len(), 3);
}

#[test]
fn from_config_parses_emit_conditions() {
    let filter = AccessLogFilter::build(AccessLogConfig {
        conditions: Some(AccessLogEmitConditions {
            min_duration_ms: None,
            status_classes: Some(vec![StatusClass::ServerError]),
            paths: None,
        }),
        ..config()
    })
    .unwrap_or_else(|e| panic!("{e:?}"));
    assert!(filter.emit_conditions.is_some());
}

#[test]
fn from_config_rejects_glob_paths() {
    let err = build_err(AccessLogConfig {
        conditions: Some(AccessLogEmitConditions {
            min_duration_ms: None,
            status_classes: None,
            paths: list(&["/api/*"]),
        }),
        ..config()
    });
    assert!(err.contains("without globs"), "got: {err}");
}

#[test]
fn conditions_must_hold_something() {
    let err = build_err(AccessLogConfig {
        conditions: Some(AccessLogEmitConditions {
            min_duration_ms: None,
            status_classes: None,
            paths: None,
        }),
        ..config()
    });
    assert_eq!(
        err,
        "access_log: conditions must include at least one of min_duration_ms, status_classes, or paths"
    );
    let err = build_err(AccessLogConfig {
        conditions: Some(AccessLogEmitConditions {
            min_duration_ms: Some(1),
            status_classes: Some(vec![]),
            paths: None,
        }),
        ..config()
    });
    assert_eq!(err, "access_log: status_classes must not be empty when present");
    let err = build_err(AccessLogConfig {
        conditions: Some(AccessLogEmitConditions {
            min_duration_ms: Some(1),
            status_classes: None,
            paths: Some(vec![]),
        }),
        ..config()
    });
    assert_eq!(err, "access_log: paths must not be empty when present");
}

#[test]
fn header_lists_are_checked() {
    let err = build_err(AccessLogConfig {
        request_headers: list(&["  "]),
        ..config()
    });
    assert_eq!(err, "access_log: header names must not be empty");
    let err = build_err(AccessLogConfig {
        request_headers: list(&[]),
        ..config()
    });
    assert_eq!(err, "access_log: request_headers must not be empty when present");
    let err = build_err(AccessLogConfig {
        response_headers: list(&[]),
        ..config()
    });
    assert_eq!(err, "access_log: response_headers must not be empty when present");
    let err = build_err(AccessLogConfig {
        fields: tokens(&["request_header."]),
        ..config()
    });
    assert_eq!(err, "access_log: request_header token must include a header name");
    let err = build_err(AccessLogConfig {
        fields: tokens(&["response_header."]),
        ..config()
    });
    assert_eq!(err, "access_log: response_header token must include a header name");
    let names = normalize_header_names(&list(&[" User-Agent\u{3000}"])).unwrap_or_else(|e| panic!("{e:?}"));
    assert_eq!(names, vec!["user-agent".to_owned()]);
}

#[test]
fn should_log_every_request_by_default() {
    let mut filter = filter_with(SAMPLE_SCALE, vec![], true);
    for _ in 0..5 {
        assert!(filter.should_log(), "a full sample rate should log every request");
    }
}

#[test]
fn should_log_samples_at_rate() {
    let mut filter = filter_with(SAMPLE_SCALE / 4, vec![], true);
    let mut logged = 0;
    for _ in 0..8 {
        if filter.should_log() {
            logged += 1;
        }
    }
    assert_eq!(logged, 2, "1-in-4 over 8 calls = 2 logged");
}

#[test]
fn should_log_honors_non_reciprocal_sample_rate() {
    let mut filter = filter_with_sample_rate(0.75);
    let logged = count_logged(&mut filter, 100);
    assert_eq!(logged, 75, "sample_rate 0.75 should log 75 of 100 requests");
}

#[test]
fn should_log_honors_repeating_sample_rate() {
    let mut filter = filter_with_sample_rate(0.33);
    let logged = count_logged(&mut filter, 100);
    assert_eq!(logged, 33, "sample_rate 0.33 should log 33 of 100 requests");
}

#[test]
fn should_log_full_rate_logs_every_request() {
    let mut filter = filter_with_sample_rate(1.0);
    let logged = count_logged(&mut filter, 100);
    assert_eq!(logged, 100, "sample_rate 1.0 should log every request");
}

#[test]
fn should_log_smallest_reciprocal_rate_still_samples() {
    let mut filter = filter_with_sample_rate(0.01);
    let logged = count_logged(&mut filter, 100);
    assert_eq!(logged, 1, "sample_rate 0.01 should log 1 of 100 requests");
}

#[test]
fn build_clamps_sub_resolution_sample_rate_to_one_record() {
    let mut filter = filter_with_sample_rate(1e-9);
    assert_eq!(filter.sample_numerator, 1, "sub-resolution rate should clamp to 1");
    assert_eq!(
        count_logged(&mut filter, usize::try_from(SAMPLE_SCALE).unwrap()),
        1,
        "the clamped rate should still emit one record per window"
    );
}

#[test]
fn sampling_is_exact_from_any_start() {
    let mut filter = filter_with(333_333, vec![], true);
    filter.counter = 777_777;
    assert_eq!(count_logged(&mut filter, 1_000_000), 333_333);
    filter.counter = u64::MAX;
    filter.should_log();
    assert_eq!(filter.counter, 0, "the counter wraps");
}

#[test]
fn passes_emit_conditions_and_sampling_order() {
    let filter = AccessLogFilter {
        emit_conditions: Some(AccessLogEmitConditions {
            min_duration_ms: None,
            status_classes: Some(vec![StatusClass::ServerError]),
            paths: None,
        }),
        ..filter_with(SAMPLE_SCALE, vec![FieldToken::Method], false)
    };
    let ctx = context("GET", "/");
    assert!(
        !filter.passes_emit_conditions(&ctx, 200, 0),
        "200 should not pass 5xx-only condition"
    );
    assert!(
        filter.passes_emit_conditions(&ctx, 503, 0),
        "503 should pass 5xx condition"
    );
}

#[test]
fn duration_and_path_conditions() {
    let filter = AccessLogFilter {
        emit_conditions: Some(AccessLogEmitConditions {
            min_duration_ms: Some(1000),
            status_classes: None,
            paths: list(&["/api", "/v1/"]),
        }),
        ..filter_with(SAMPLE_SCALE, vec![], true)
    };
    assert!(filter.passes_emit_conditions(&context("GET", "/api/users"), 200, 1000));
    assert!(filter.passes_emit_conditions(&context("GET", "/v1/x"), 200, 1000));
    assert!(!filter.passes_emit_conditions(&context("GET", "/api/users"), 200, 999));
    assert!(!filter.passes_emit_conditions(&context("GET", "/apiary"), 200, 1000));
    assert!(filter.passes_emit_conditions(&context("GET", "/a\npi"), 200, 1000), "sanitized first");
    assert!(path_prefix_matches("/api", "/api"));
    assert!(!path_prefix_matches("/ap", "/api"));
}

#[test]
fn build_record_includes_selected_fields_only() {
    let plan = EmitPlan {
        fields: vec![FieldToken::Method, FieldToken::Status],
        is_default: false,
    };
    let ctx = context("POST", "/api");
    let record = plan.build_record(&ctx, 201, None, 0);
    assert_eq!(record.len(), 2);
    assert_eq!(record.get("method"), Some(&"POST".to_owned()));
    assert_eq!(record.get("status"), Some(&"201".to_owned()));
    assert!(record.get("path").is_none());
}

#[test]
fn build_record_trace_id_defaults_to_dash_without_span() {
    let plan = EmitPlan {
        fields: vec![FieldToken::TraceId, FieldToken::SpanId],
        is_default: false,
    };
    let ctx = context("GET", "/");
    let record = plan.build_record(&ctx, 200, None, 0);
    assert_eq!(record.get("trace_id"), Some(&"-".to_owned()));
    assert_eq!(record.get("span_id"), Some(&"-".to_owned()));
}

#[test]
fn build_record_renders_every_field() {
    let mut ctx = context("GET", "/a\tb");
    ctx.client_addr = Some("10.0.0.1".to_owned());
    ctx.cluster = Some("web".to_owned());
    ctx.request_body_bytes = 12;
    ctx.response_body_bytes = 345;
    ctx.otel_ids = Some(("t1".to_owned(), "s1".to_owned()));
    ctx.request_headers.append("User-Agent", b"curl".to_vec());
    let mut response = HeaderMap::new();
    response.append("Content-Type", vec![0xff]);
    let plan = EmitPlan {
        fields: vec![
            FieldToken::Path,
            FieldToken::ClientIp,
            FieldToken::DurationMs,
            FieldToken::Cluster,
            FieldToken::Upstream,
            FieldToken::RequestId,
            FieldToken::RequestBodyBytes,
            FieldToken::ResponseBodyBytes,
            FieldToken::TraceId,
            FieldToken::SpanId,
            FieldToken::RequestHeader("User-Agent".to_owned()),
            FieldToken::ResponseHeader("content-type".to_owned()),
        ],
        is_default: false,
    };
    let record = plan.build_record(&ctx, 200, Some(&response), 77);
    let expected = [
        ("client_ip", "10.0.0.1"),
        ("cluster", "web"),
        ("duration_ms", "77"),
        ("path", "/ab"),
        ("request_body_bytes", "12"),
        ("request_header.user-agent", "curl"),
        ("request_id", "-"),
        ("response_body_bytes", "345"),
        ("response_header.content-type", "-"),
        ("span_id", "s1"),
        ("trace_id", "t1"),
        ("upstream", "-"),
    ];
    assert_eq!(record.len(), expected.len());
    for (i, (key, value)) in expected.iter().enumerate() {
        assert_eq!(record.key_at(i), key, "keys are in order");
        assert_eq!(record.value_at(i), value);
    }
    let json = projected_record(&record).expect("a record");
    assert!(json.starts_with("{\"client_ip\":\"10.0.0.1\",\"cluster\":\"web\","), "{json}");
}

#[test]
fn bodyless_response_is_shared() {
    assert!(bodyless_response(101, "GET"));
    assert!(!bodyless_response(205, "GET"));
}

#[test]
fn durations_saturate() {
    assert_eq!(truncate_u128(7), 7);
    assert_eq!(truncate_u128(u128::from(u64::MAX) + 1), u64::MAX);
}

fn head(status: u16) -> ResponseHead {
    let mut headers = HeaderMap::new();
    headers.append("content-type", b"text/plain".to_vec());
    ResponseHead { status, headers }
}

#[test]
fn on_response_continues_with_no_header() {
    let mut filter = filter_with(SAMPLE_SCALE, vec![], true);
    let mut ctx = context("GET", "/");
    assert!(filter.on_response(&mut ctx, None, true, 0).is_none());
    assert!(ctx.state.is_none(), "nothing is kept without a response");
}

#[test]
fn on_response_stores_state_in_filter_state() {
    let mut filter = filter_with(SAMPLE_SCALE, vec![], true);
    assert!(!filter.needs_response_headers);
    let mut ctx = context("GET", "/");
    let response = ResponseHead {
        status: 404,
        headers: HeaderMap::new(),
    };
    assert!(filter.on_response(&mut ctx, Some(&response), true, 0).is_none());
    assert_eq!(
        ctx.state.as_ref().map(|state| state.status),
        Some(404),
        "on_response should store status in access log state"
    );
    assert!(ctx.state.as_ref().is_some_and(|state| state.response_headers.is_none()));
}

#[test]
fn on_response_keeps_headers_that_fields_read() {
    let mut filter = AccessLogFilter {
        needs_response_headers: true,
        ..filter_with(SAMPLE_SCALE, vec![], true)
    };
    let mut ctx = context("GET", "/");
    assert!(filter.on_response(&mut ctx, Some(&head(200)), true, 0).is_none());
    let state = ctx.state.as_ref().expect("state");
    assert_eq!(state.status, 200);
    assert!(state.response_headers.is_some());
}

#[test]
fn on_response_body_continues_before_end_of_stream() {
    let mut filter = filter_with(SAMPLE_SCALE, vec![], true);
    let mut ctx = context("GET", "/");
    assert!(filter.on_response_body(&mut ctx, false, true, 0).is_none());
    assert!(!access_record_already_emitted(&ctx));
}

#[test]
fn on_response_body_uses_status_from_on_response() {
    let mut filter = AccessLogFilter::build(AccessLogConfig {
        fields: tokens(&["status", "response_header.content-type"]),
        response_headers: list(&["Content-Type"]),
        ..config()
    })
    .unwrap_or_else(|e| panic!("{e:?}"));
    let mut ctx = context("GET", "/");
    assert!(filter.on_response(&mut ctx, Some(&head(201)), true, 0).is_none());
    let entry = filter.on_response_body(&mut ctx, true, true, 0).expect("an entry");
    assert!(
        matches!(&entry, LogEntry::Projected(t) if t == "{\"response_header.content-type\":\"text/plain\",\"status\":\"201\"}")
    );
    assert!(access_record_already_emitted(&ctx));
    assert!(filter.on_response_body(&mut ctx, true, true, 0).is_none(), "one record per request");
}

#[test]
fn bodyless_responses_are_logged_at_once() {
    let mut filter = filter_with(SAMPLE_SCALE, vec![], true);
    let mut ctx = context("HEAD", "/x");
    let entry = filter.on_response(&mut ctx, Some(&head(200)), true, 5).expect("an entry");
    assert!(matches!(&entry, LogEntry::Standard(r) if r.status == 200 && r.duration_ms == 5 && r.path == "/x"));
    assert!(filter.on_response_body(&mut ctx, true, true, 6).is_none());
}

#[test]
fn response_body_access_is_read_only() {
    let filter = filter_with(SAMPLE_SCALE, vec![], true);
    assert_eq!(filter.response_body_access(), BodyAccess::ReadOnly);
}

#[test]
fn no_record_work_when_info_level_disabled() {
    let mut filter = filter_with(SAMPLE_SCALE / 2, vec![], true);
    let mut ctx = context("GET", "/");
    assert!(filter.maybe_emit(&mut ctx, 200, None, false, 0).is_none());
    assert_eq!(filter.counter, 0, "a disabled level samples nothing");
    assert!(!access_record_already_emitted(&ctx));
}

#[test]
fn fallback_record_carries_trace_ids() {
    let mut ctx = context("GET", "/");
    ctx.otel_ids = Some(("t".to_owned(), "s".to_owned()));
    let record = emit_access_record(&ctx, 502, 9);
    assert_eq!(record.status, 502);
    assert_eq!(record.client_ip, "");
    assert_eq!(record.cluster, "-");
    assert_eq!(record.otel_ids, Some(("t".to_owned(), "s".to_owned())));
    mark_access_record_emitted(&mut ctx);
    assert!(access_record_already_emitted(&ctx));
}

#[test]
fn sanitizing_twice_changes_nothing() {
    let once = sanitize_for_log("a\x1b[1;2Kb\x1b\x1b[c\u{85}d\x1b[99").into_owned();
    assert_eq!(once, "abd");
    assert_eq!(sanitize_for_log(&once), once);
}

#[test]
fn maybe_emit_gates_by_status_and_emits_stable_record() {
    let mut filter = AccessLogFilter::build(AccessLogConfig {
        fields: tokens(&["method", "path", "status", "duration_ms", "request_id"]),
        conditions: Some(AccessLogEmitConditions {
            min_duration_ms: None,
            status_classes: Some(vec![StatusClass::ServerError]),
            paths: None,
        }),
        ..config()
    })
    .unwrap_or_else(|e| panic!("{e:?}"));
    let mut ctx = context("GET", "/api/thing");

    assert!(
        filter.maybe_emit(&mut ctx, 200, None, true, 0).is_none(),
        "non-matching status must not emit"
    );
    let Some(LogEntry::Projected(matched)) = filter.maybe_emit(&mut ctx, 500, None, true, 0) else {
        panic!("custom field sets emit one JSON record field");
    };
    for key in ["method", "path", "status", "duration_ms", "request_id"] {
        assert!(matched.contains(key), "record should include {key}: {matched:?}");
    }
}

#[test]
fn small_custom_field_sets_also_emit_record_shape() {
    let mut filter = AccessLogFilter::build(AccessLogConfig {
        fields: tokens(&["method", "path"]),
        ..config()
    })
    .unwrap_or_else(|e| panic!("{e:?}"));
    let mut ctx = context("GET", "/x");
    assert!(
        matches!(filter.maybe_emit(&mut ctx, 200, None, true, 0), Some(LogEntry::Projected(_))),
        "small field sets must use the same record shape as large ones"
    );
}
