//! Request ids.

use praxis_filter::actions::FilterAction;
use praxis_filter::headers::HeaderMap;
use praxis_filter::request_id::{default_header_name, RequestIdContext, RequestIdFilter};

const GENERATED: &str = "0123456789abcdef0123456789abcdef";

fn make_filter(header_name: &str) -> RequestIdFilter {
    RequestIdFilter {
        header_name: header_name.to_owned(),
    }
}

fn context() -> RequestIdContext {
    RequestIdContext {
        client_supplied: None,
        extra_request_headers: Vec::new(),
    }
}

fn headers(lines: &[(&str, &[u8])]) -> HeaderMap {
    let mut out = HeaderMap::new();
    for (name, value) in lines {
        out.append(name, value.to_vec());
    }
    out
}

#[test]
fn generates_id_when_header_missing() {
    let filter = make_filter(&default_header_name());
    let mut ctx = context();

    let action = filter.on_request(&mut ctx, &HeaderMap::new(), GENERATED.to_owned());

    assert!(matches!(action, FilterAction::Continue), "on_request should continue");
    assert_eq!(ctx.extra_request_headers.len(), 1, "should inject exactly one header");
    let (name, value) = &ctx.extra_request_headers[0];
    assert_eq!(name, "X-Request-ID", "header name should be X-Request-ID");
    assert_eq!(value.len(), 32, "generated ID should be 32 hex chars");
}

#[test]
fn preserves_existing_id() {
    let filter = make_filter("X-Request-ID");
    let mut ctx = context();

    filter.on_request(
        &mut ctx,
        &headers(&[("x-request-id", b"client-provided-id")]),
        GENERATED.to_owned(),
    );

    assert_eq!(ctx.extra_request_headers.len(), 1, "should forward one header");
    let (_, value) = &ctx.extra_request_headers[0];
    assert_eq!(
        value, "client-provided-id",
        "should preserve client-supplied request ID"
    );
}

#[test]
fn does_not_echo_generated_id_on_response() {
    let filter = make_filter("X-Request-ID");
    let mut ctx = context();
    filter.on_request(&mut ctx, &HeaderMap::new(), GENERATED.to_owned());

    assert_eq!(
        ctx.extra_request_headers.len(),
        1,
        "an ID was injected for the upstream"
    );

    let mut resp = HeaderMap::new();
    filter.on_response(&ctx, &mut resp);

    assert!(
        resp.first("x-request-id").is_none(),
        "a proxy-generated ID is request-phase state and must not reach the client"
    );
}

#[test]
fn echoes_client_id_on_response() {
    let filter = make_filter("X-Request-ID");
    let mut ctx = context();
    filter.on_request(
        &mut ctx,
        &headers(&[("x-request-id", b"from-client")]),
        GENERATED.to_owned(),
    );

    let mut resp = headers(&[("X-Request-Id", b"from-upstream"), ("etag", b"1")]);
    filter.on_response(&ctx, &mut resp);

    assert_eq!(
        resp.first("x-request-id").unwrap(),
        b"from-client",
        "response should echo client-supplied ID"
    );
    assert_eq!(resp.lines.len(), 2, "the upstream's id is replaced");
}

#[test]
fn custom_header_name_is_used() {
    let filter = make_filter("X-Correlation-ID");
    let mut ctx = context();

    filter.on_request(&mut ctx, &HeaderMap::new(), GENERATED.to_owned());

    let (name, _) = &ctx.extra_request_headers[0];
    assert_eq!(name, "X-Correlation-ID", "should use custom header name from config");
}

#[test]
fn from_config_empty_uses_default_header_name() {
    let filter = RequestIdFilter::from_config(default_header_name()).unwrap_or_else(|e| panic!("{e:?}"));
    assert_eq!(
        filter.name(),
        "request_id",
        "empty config should use default header name"
    );
    assert_eq!(filter.header_name, "X-Request-ID");
}

#[test]
fn from_config_rejects_header_name_with_space() {
    let err = RequestIdFilter::from_config("bad header".to_owned())
        .err()
        .expect("should reject");
    assert_eq!(
        err.text(),
        "request_id: 'header_name' 'bad header' is not a valid HTTP header name"
    );
}

#[test]
fn from_config_rejects_empty_header_name() {
    let err = RequestIdFilter::from_config(String::new()).err().expect("should reject");
    assert!(
        err.text().contains("must not be empty"),
        "an empty header name must be rejected at config time, got: {err:?}"
    );
}

#[test]
fn from_config_accepts_valid_custom_header_name() {
    assert!(
        RequestIdFilter::from_config("X-Correlation-ID".to_owned()).is_ok(),
        "a valid header name must still be accepted"
    );
}

#[test]
fn unreadable_client_id_is_replaced() {
    let filter = make_filter("X-Request-ID");
    let mut ctx = context();
    filter.on_request(&mut ctx, &headers(&[("x-request-id", b"\xff")]), GENERATED.to_owned());
    assert_eq!(ctx.extra_request_headers[0].1, GENERATED);
    assert!(ctx.client_supplied.is_none());
}

#[test]
fn unusable_ids_and_names_are_not_echoed() {
    let mut ctx = context();
    ctx.client_supplied = Some("a\nb".to_owned());
    assert!(make_filter("x").resolve_response_id(&ctx).is_none());
    let mut resp = HeaderMap::new();
    make_filter("bad name").insert_response_header(&mut resp, b"v".to_vec());
    assert!(resp.lines.is_empty());
}
