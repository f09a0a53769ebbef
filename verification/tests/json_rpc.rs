//! JSON-RPC envelopes.

use praxis_filter::body::{BodyAccess, BodyMode};
use praxis_filter::json_rpc::{
    capture_top, classify, parse_json_rpc_envelope, BatchPolicy, JsonRpcConfig, JsonRpcFilter, JsonRpcHeaders,
    JsonRpcIdKind, JsonRpcKind, JsonRpcParseError, OnInvalidBehavior, RawId, RawMessage, RawMethod, RawTop, RawVersion,
    DEFAULT_MAX_BODY_BYTES,
};

const DEFAULT_MAX_BATCH_SIZE: usize = 100;

const OVERSIZED_BATCH_ITEMS: usize = 100_000;

fn scalar_batch_body(count: usize) -> String {
    let mut body = String::with_capacity(count * 2 + 2);
    body.push('[');
    for i in 0..count {
        if i > 0 {
            body.push(',');
        }
        body.push('0');
    }
    body.push(']');
    body
}

fn capture_batch(body: &str, config: &JsonRpcConfig) -> (usize, usize) {
    let top = capture_top(body.as_bytes(), config).expect("batch body must deserialize");
    match top {
        RawTop::Batch { items, len } => (items.len(), len),
        other => panic!("expected a batch capture, got {other:?}"),
    }
}

fn make_config(batch_policy: BatchPolicy, on_invalid: OnInvalidBehavior) -> JsonRpcConfig {
    JsonRpcConfig {
        batch_policy,
        headers: JsonRpcHeaders::standard(),
        max_batch_size: DEFAULT_MAX_BATCH_SIZE,
        max_body_bytes: 1_048_576,
        on_invalid,
    }
}

fn make_config_with_batch_limit(max_batch_size: usize) -> JsonRpcConfig {
    JsonRpcConfig {
        batch_policy: BatchPolicy::First,
        headers: JsonRpcHeaders::standard(),
        max_batch_size,
        max_body_bytes: 1_048_576,
        on_invalid: OnInvalidBehavior::Continue,
    }
}

fn make_filter() -> JsonRpcFilter {
    JsonRpcFilter {
        config: make_config(BatchPolicy::Reject, OnInvalidBehavior::Continue),
        max_body_bytes: 1_048_576,
    }
}

fn deep_params_body(depth: usize) -> Vec<u8> {
    let mut s = String::from(r#"{"jsonrpc":"2.0","method":"m","id":1,"params":"#);
    s.push_str(&"[".repeat(depth));
    s.push_str(&"]".repeat(depth));
    s.push('}');
    s.into_bytes()
}

#[test]
fn parses_request_with_string_id() {
    let config = make_config(BatchPolicy::Reject, OnInvalidBehavior::Continue);
    let json = br#"{"jsonrpc":"2.0","method":"service/invoke","id":"req-123"}"#;
    let envelope = parse_json_rpc_envelope(json, &config).unwrap().unwrap();

    assert_eq!(envelope.kind, JsonRpcKind::Request, "kind should be request");
    assert_eq!(
        envelope.method,
        Some("service/invoke".to_owned()),
        "method should be service/invoke"
    );
    assert_eq!(envelope.id, Some("req-123".to_owned()), "id should be req-123");
    assert_eq!(envelope.id_kind, JsonRpcIdKind::String, "id_kind should be string");
    assert_eq!(envelope.batch_len, None, "batch_len should be None");
}

#[test]
fn parses_request_with_integer_id() {
    let config = make_config(BatchPolicy::Reject, OnInvalidBehavior::Continue);
    let json = br#"{"jsonrpc":"2.0","method":"ProcessRequest","id":42}"#;
    let envelope = parse_json_rpc_envelope(json, &config).unwrap().unwrap();

    assert_eq!(envelope.kind, JsonRpcKind::Request, "kind should be request");
    assert_eq!(
        envelope.method,
        Some("ProcessRequest".to_owned()),
        "method should be ProcessRequest"
    );
    assert_eq!(envelope.id, Some("42".to_owned()), "id should be 42");
    assert_eq!(envelope.id_kind, JsonRpcIdKind::Integer, "id_kind should be integer");
}

#[test]
fn parses_request_with_float_id() {
    let config = make_config(BatchPolicy::Reject, OnInvalidBehavior::Continue);
    let json = br#"{"jsonrpc":"2.0","method":"test","id":3.14}"#;
    let envelope = parse_json_rpc_envelope(json, &config).unwrap().unwrap();

    assert_eq!(envelope.kind, JsonRpcKind::Request, "kind should be request");
    assert_eq!(
        envelope.id_kind,
        JsonRpcIdKind::Number,
        "float id should be Number kind"
    );
}

#[test]
fn parses_request_with_null_id() {
    let config = make_config(BatchPolicy::Reject, OnInvalidBehavior::Continue);
    let json = br#"{"jsonrpc":"2.0","method":"test","id":null}"#;
    let envelope = parse_json_rpc_envelope(json, &config).unwrap().unwrap();

    assert_eq!(envelope.kind, JsonRpcKind::Request, "kind should be request");
    assert_eq!(
        envelope.id,
        Some("null".to_owned()),
        "null id should be stored as string"
    );
    assert_eq!(envelope.id_kind, JsonRpcIdKind::Null, "id_kind should be Null");
}

#[test]
fn parses_notification() {
    let config = make_config(BatchPolicy::Reject, OnInvalidBehavior::Continue);
    let json = br#"{"jsonrpc":"2.0","method":"notifications/catalog/updated"}"#;
    let envelope = parse_json_rpc_envelope(json, &config).unwrap().unwrap();

    assert_eq!(envelope.kind, JsonRpcKind::Notification, "kind should be notification");
    assert_eq!(
        envelope.method,
        Some("notifications/catalog/updated".to_owned()),
        "method should be extracted"
    );
    assert_eq!(envelope.id, None, "notification should have no id");
    assert_eq!(envelope.id_kind, JsonRpcIdKind::Missing, "id_kind should be Missing");
}

#[test]
fn parses_response_with_result() {
    let config = make_config(BatchPolicy::Reject, OnInvalidBehavior::Continue);
    let json = br#"{"jsonrpc":"2.0","id":"req-123","result":{"tools":[]}}"#;
    let envelope = parse_json_rpc_envelope(json, &config).unwrap().unwrap();

    assert_eq!(envelope.kind, JsonRpcKind::Response, "kind should be response");
    assert_eq!(envelope.method, None, "response should have no method");
    assert_eq!(envelope.id, Some("req-123".to_owned()), "id should be req-123");
    assert_eq!(envelope.id_kind, JsonRpcIdKind::String, "id_kind should be String");
}

#[test]
fn parses_response_with_error() {
    let config = make_config(BatchPolicy::Reject, OnInvalidBehavior::Continue);
    let json = br#"{"jsonrpc":"2.0","id":1,"error":{"code":-32601,"message":"Method not found"}}"#;
    let envelope = parse_json_rpc_envelope(json, &config).unwrap().unwrap();

    assert_eq!(envelope.kind, JsonRpcKind::Response, "kind should be response");
    assert_eq!(envelope.method, None, "error response should have no method");
    assert_eq!(envelope.id, Some("1".to_owned()), "id should be 1");
}

#[test]
fn rejects_missing_jsonrpc_field() {
    let config = make_config(BatchPolicy::Reject, OnInvalidBehavior::Reject);
    let json = br#"{"method":"test","id":1}"#;
    let err = parse_json_rpc_envelope(json, &config).expect_err("should fail");
    assert!(
        err.text().contains("missing 'jsonrpc'"),
        "error should mention missing jsonrpc"
    );
}

#[test]
fn continues_on_missing_jsonrpc_when_configured() {
    let config = make_config(BatchPolicy::Reject, OnInvalidBehavior::Continue);
    let json = br#"{"method":"test","id":1}"#;
    let result = parse_json_rpc_envelope(json, &config).unwrap();
    assert!(
        result.is_none(),
        "missing jsonrpc should return None when on_invalid: continue"
    );
}

#[test]
fn rejects_wrong_jsonrpc_version() {
    let config = make_config(BatchPolicy::Reject, OnInvalidBehavior::Reject);
    let json = br#"{"jsonrpc":"1.0","method":"test","id":1}"#;
    let err = parse_json_rpc_envelope(json, &config).expect_err("should fail");
    assert!(
        err.text().contains("wrong jsonrpc version"),
        "error should mention wrong version"
    );
}

#[test]
fn rejects_missing_method_for_request() {
    let config = make_config(BatchPolicy::Reject, OnInvalidBehavior::Reject);
    let json = br#"{"jsonrpc":"2.0","id":1}"#;
    let err = parse_json_rpc_envelope(json, &config).expect_err("should fail");
    assert!(
        err.text().contains("missing 'method'"),
        "error should mention missing method"
    );
}

#[test]
fn rejects_non_string_method() {
    let config = make_config(BatchPolicy::Reject, OnInvalidBehavior::Reject);
    let json = br#"{"jsonrpc":"2.0","method":123,"id":1}"#;
    let err = parse_json_rpc_envelope(json, &config).expect_err("should fail");
    assert!(
        err.text().contains("must be a string"),
        "error should mention string requirement"
    );
}

#[test]
fn rejects_boolean_id() {
    let config = make_config(BatchPolicy::Reject, OnInvalidBehavior::Reject);
    let json = br#"{"jsonrpc":"2.0","method":"test","id":true}"#;
    let err = parse_json_rpc_envelope(json, &config).expect_err("should fail");
    assert!(
        err.text().contains("must be string, number, or null"),
        "error should mention valid id types"
    );
}

#[test]
fn rejects_object_id() {
    let config = make_config(BatchPolicy::Reject, OnInvalidBehavior::Reject);
    let json = br#"{"jsonrpc":"2.0","method":"test","id":{"key":"value"}}"#;
    let err = parse_json_rpc_envelope(json, &config).expect_err("should fail");
    assert!(
        err.text().contains("must be string, number, or null"),
        "error should mention valid id types"
    );
}

#[test]
fn rejects_array_id() {
    let config = make_config(BatchPolicy::Reject, OnInvalidBehavior::Reject);
    let json = br#"{"jsonrpc":"2.0","method":"test","id":[1,2,3]}"#;
    let err = parse_json_rpc_envelope(json, &config).expect_err("should fail");
    assert!(
        err.text().contains("must be string, number, or null"),
        "error should mention valid id types"
    );
}

#[test]
fn handles_params_object() {
    let config = make_config(BatchPolicy::Reject, OnInvalidBehavior::Continue);
    let json = br#"{"jsonrpc":"2.0","method":"test","params":{"arg1":"val1"},"id":1}"#;
    let envelope = parse_json_rpc_envelope(json, &config).unwrap().unwrap();
    assert_eq!(
        envelope.method,
        Some("test".to_owned()),
        "method should be extracted with params object"
    );
}

#[test]
fn handles_params_array() {
    let config = make_config(BatchPolicy::Reject, OnInvalidBehavior::Continue);
    let json = br#"{"jsonrpc":"2.0","method":"test","params":["arg1","arg2"],"id":1}"#;
    let envelope = parse_json_rpc_envelope(json, &config).unwrap().unwrap();
    assert_eq!(
        envelope.method,
        Some("test".to_owned()),
        "method should be extracted with params array"
    );
}

#[test]
fn handles_reserved_rpc_method() {
    let config = make_config(BatchPolicy::Reject, OnInvalidBehavior::Continue);
    let json = br#"{"jsonrpc":"2.0","method":"rpc.discovery","id":1}"#;
    let envelope = parse_json_rpc_envelope(json, &config).unwrap().unwrap();
    assert_eq!(
        envelope.method,
        Some("rpc.discovery".to_owned()),
        "reserved rpc. method should be accepted"
    );
}

#[test]
fn batch_reject_policy_rejects_array() {
    let config = make_config(BatchPolicy::Reject, OnInvalidBehavior::Reject);
    let json = br#"[{"jsonrpc":"2.0","method":"test1","id":1},{"jsonrpc":"2.0","method":"test2","id":2}]"#;
    let err = parse_json_rpc_envelope(json, &config).expect_err("should fail");
    assert!(
        err.text().contains("not supported"),
        "error should mention batch not supported"
    );
}

#[test]
fn batch_first_policy_uses_first_item() {
    let config = make_config(BatchPolicy::First, OnInvalidBehavior::Continue);
    let json = br#"[{"jsonrpc":"2.0","method":"first","id":1},{"jsonrpc":"2.0","method":"second","id":2}]"#;
    let envelope = parse_json_rpc_envelope(json, &config).unwrap().unwrap();

    assert_eq!(envelope.kind, JsonRpcKind::Batch, "kind should be batch");
    assert_eq!(
        envelope.method,
        Some("first".to_owned()),
        "should use first item method"
    );
    assert_eq!(envelope.id, Some("1".to_owned()), "should use first item id");
    assert_eq!(envelope.batch_len, Some(2), "batch_len should be 2");
}

#[test]
fn batch_first_policy_skips_invalid_items() {
    let config = make_config(BatchPolicy::First, OnInvalidBehavior::Continue);
    let json = br#"[{"not":"jsonrpc"},{"jsonrpc":"2.0","method":"valid","id":2}]"#;
    let envelope = parse_json_rpc_envelope(json, &config).unwrap().unwrap();

    assert_eq!(
        envelope.method,
        Some("valid".to_owned()),
        "should skip invalid and use valid item"
    );
    assert_eq!(envelope.batch_len, Some(2), "batch_len should be 2");
}

#[test]
fn empty_batch_array_fails() {
    let config = make_config(BatchPolicy::First, OnInvalidBehavior::Continue);
    let json = br#"[]"#;
    let err = parse_json_rpc_envelope(json, &config).expect_err("should fail");
    assert!(err.text().contains("empty"), "error should mention empty batch");
}

#[test]
fn invalid_json_fails() {
    let config = make_config(BatchPolicy::Reject, OnInvalidBehavior::Reject);
    let json = b"not json at all";
    let err = parse_json_rpc_envelope(json, &config).expect_err("should fail");
    assert!(
        err.text().contains("invalid JSON"),
        "error should mention invalid JSON"
    );
}

#[test]
fn non_object_json_continues_when_configured() {
    let config = make_config(BatchPolicy::Reject, OnInvalidBehavior::Continue);
    let json = br#""just a string""#;
    let result = parse_json_rpc_envelope(json, &config).unwrap();
    assert!(result.is_none(), "non-object JSON should return None when continuing");
}

#[test]
fn batch_within_max_size_allowed() {
    let config = make_config_with_batch_limit(5);
    let json = br#"[
        {"jsonrpc":"2.0","method":"a","id":1},
        {"jsonrpc":"2.0","method":"b","id":2}
    ]"#;
    let envelope = parse_json_rpc_envelope(json, &config).unwrap().unwrap();
    assert_eq!(envelope.kind, JsonRpcKind::Batch, "kind should be batch");
    assert_eq!(envelope.batch_len, Some(2), "batch_len should be 2");
}

#[test]
fn batch_at_exact_max_size_allowed() {
    let config = make_config_with_batch_limit(2);
    let json = br#"[
        {"jsonrpc":"2.0","method":"a","id":1},
        {"jsonrpc":"2.0","method":"b","id":2}
    ]"#;
    let envelope = parse_json_rpc_envelope(json, &config).unwrap().unwrap();
    assert_eq!(envelope.batch_len, Some(2), "batch at exact limit should pass");
}

#[test]
fn batch_exceeding_max_size_rejected() {
    let config = make_config_with_batch_limit(1);
    let json = br#"[
        {"jsonrpc":"2.0","method":"a","id":1},
        {"jsonrpc":"2.0","method":"b","id":2}
    ]"#;
    let err = parse_json_rpc_envelope(json, &config).expect_err("should fail");
    assert!(
        err.text().contains("exceeds maximum"),
        "error should mention exceeds maximum: got '{err:?}'"
    );
}

#[test]
fn oversized_batch_reports_exact_count_without_retaining_items() {
    let config = make_config_with_batch_limit(1);
    let body = scalar_batch_body(OVERSIZED_BATCH_ITEMS);

    let err = parse_json_rpc_envelope(body.as_bytes(), &config).expect_err("oversized batch must be rejected");
    assert!(
        matches!(
            err,
            JsonRpcParseError::BatchTooLarge(actual, max)
                if actual == OVERSIZED_BATCH_ITEMS && max == 1
        ),
        "oversized batch must report the exact element count and limit: got {err:?}"
    );

    let (items, len) = capture_batch(&body, &config);
    assert_eq!(len, OVERSIZED_BATCH_ITEMS, "the true element count must be preserved");
    assert_eq!(
        items, config.max_batch_size,
        "captured items must stay bounded by max_batch_size, not by the element count"
    );
}

#[test]
fn batch_capture_is_bounded_at_every_limit() {
    for max_batch_size in [1, 2, 4, 5, 6, 10] {
        let config = make_config_with_batch_limit(max_batch_size);
        let (items, len) = capture_batch(&scalar_batch_body(5), &config);
        assert_eq!(
            len, 5,
            "the true element count must be preserved (limit {max_batch_size})"
        );
        assert_eq!(
            items,
            std::cmp::min(5, max_batch_size),
            "captures must be min(elements, max_batch_size) (limit {max_batch_size})"
        );
    }
}

#[test]
fn reject_policy_retains_no_batch_captures() {
    let config = make_config(BatchPolicy::Reject, OnInvalidBehavior::Reject);
    let (items, len) = capture_batch(&scalar_batch_body(OVERSIZED_BATCH_ITEMS), &config);

    assert_eq!(len, OVERSIZED_BATCH_ITEMS, "the true element count must be preserved");
    assert_eq!(
        items, 0,
        "the reject policy reads no captures, so none may be retained (max_batch_size was {})",
        config.max_batch_size
    );
}

#[test]
fn reject_policy_still_rejects_batches_without_captures() {
    let config = make_config(BatchPolicy::Reject, OnInvalidBehavior::Reject);

    let err = parse_json_rpc_envelope(br#"[{"jsonrpc":"2.0","method":"a","id":1}]"#, &config)
        .expect_err("a batch must be rejected under the reject policy");
    assert!(
        matches!(err, JsonRpcParseError::UnsupportedBatch),
        "a non-empty batch must still be UnsupportedBatch: got {err:?}"
    );

    let err = parse_json_rpc_envelope(b"[]", &config).expect_err("an empty batch must be rejected");
    assert!(
        matches!(err, JsonRpcParseError::EmptyBatch),
        "an empty batch must still be EmptyBatch: got {err:?}"
    );
}

#[test]
fn batch_at_exact_max_size_keeps_its_last_item() {
    const LIMIT: usize = 8;
    let config = make_config_with_batch_limit(LIMIT);

    let mut body = String::from("[");
    for _ in 0..LIMIT - 1 {
        body.push_str(r#"{"not":"jsonrpc"},"#);
    }
    body.push_str(r#"{"jsonrpc":"2.0","method":"last","id":9}]"#);

    let envelope = parse_json_rpc_envelope(body.as_bytes(), &config)
        .expect("a batch at exactly the limit must be accepted")
        .expect("the trailing valid message must be found");

    assert_eq!(
        envelope.method,
        Some("last".to_owned()),
        "the item at index max_batch_size - 1 must still be captured"
    );
    assert_eq!(envelope.id, Some("9".to_owned()), "the last item's id must be promoted");
    assert_eq!(envelope.kind, JsonRpcKind::Batch, "kind should be batch");
    assert_eq!(envelope.batch_len, Some(LIMIT), "batch_len must be the true count");
}

#[test]
fn oversized_batch_of_objects_is_rejected_by_count() {
    let config = make_config_with_batch_limit(2);
    let item = r#"{"jsonrpc":"2.0","method":"m","id":1,"params":{"a":[1,2,{"b":3}]}}"#;
    let body = format!("[{}]", vec![item; 50].join(","));

    let err = parse_json_rpc_envelope(body.as_bytes(), &config).expect_err("oversized batch must be rejected");
    assert!(
        matches!(
            err,
            JsonRpcParseError::BatchTooLarge(actual, max) if actual == 50 && max == 2
        ),
        "nested batch items must be counted exactly and not retained: got {err:?}"
    );

    let (items, len) = capture_batch(&body, &config);
    assert_eq!(len, 50, "every nested item must be counted");
    assert_eq!(items, 2, "only max_batch_size nested items may be retained");
}

#[test]
fn oversized_batch_with_trailing_content_is_still_invalid_json() {
    let config = make_config_with_batch_limit(1);
    let body = format!("{} trailing", scalar_batch_body(64));

    let err = parse_json_rpc_envelope(body.as_bytes(), &config).expect_err("trailing content must be rejected");
    assert!(
        matches!(err, JsonRpcParseError::InvalidJson(_)),
        "trailing content after an over-sized batch must still be invalid JSON: got {err:?}"
    );
}

#[test]
fn batch_too_large_error_includes_counts() {
    let config = make_config_with_batch_limit(1);
    let json = br#"[
        {"jsonrpc":"2.0","method":"a","id":1},
        {"jsonrpc":"2.0","method":"b","id":2},
        {"jsonrpc":"2.0","method":"c","id":3}
    ]"#;
    let err = parse_json_rpc_envelope(json, &config).expect_err("should fail");
    let msg = err.text();
    assert!(msg.contains("3"), "error should include actual batch size: got '{msg}'");
    assert!(msg.contains("1"), "error should include max batch size: got '{msg}'");
}

#[test]
fn tests_body_access_is_read_only() {
    let filter = make_filter();
    assert_eq!(
        filter.request_body_access(),
        BodyAccess::ReadOnly,
        "JSON-RPC filter should use ReadOnly body access"
    );
}

#[test]
fn body_mode_is_stream_buffer() {

    let filter = make_filter();
    assert_eq!(
        filter.request_body_mode(),
        BodyMode::StreamBuffer {
            max_bytes: Some(DEFAULT_MAX_BODY_BYTES)
        },
        "JSON-RPC filter should use StreamBuffer with default max bytes"
    );
}

#[test]
fn shallow_nested_params_accepted() {
    let config = make_config(BatchPolicy::Reject, OnInvalidBehavior::Continue);
    let body = deep_params_body(8);
    let envelope = parse_json_rpc_envelope(&body, &config)
        .expect("shallow nesting must parse")
        .expect("must be a JSON-RPC message");
    assert_eq!(envelope.method.as_deref(), Some("m"), "method must still be captured");
}

#[test]
fn deep_nested_params_rejected() {
    let config = make_config(BatchPolicy::Reject, OnInvalidBehavior::Continue);
    let body = deep_params_body(300);
    let err = parse_json_rpc_envelope(&body, &config).expect_err("deep nesting must be rejected");
    assert!(
        matches!(err, JsonRpcParseError::InvalidJson(_)),
        "over-deep nesting should surface as InvalidJson: {err:?}"
    );
}

#[test]
fn deep_nested_id_rejected() {
    let config = make_config(BatchPolicy::Reject, OnInvalidBehavior::Continue);
    let mut s = String::from(r#"{"jsonrpc":"2.0","method":"m","id":"#);
    s.push_str(&"[".repeat(300));
    s.push_str(&"]".repeat(300));
    s.push('}');
    let err = parse_json_rpc_envelope(s.as_bytes(), &config).expect_err("deep id must be rejected");
    assert!(
        matches!(err, JsonRpcParseError::InvalidJson(_)),
        "deep id nesting should surface as InvalidJson: {err:?}"
    );
}

#[test]
fn deep_nested_object_params_rejected() {
    let config = make_config(BatchPolicy::Reject, OnInvalidBehavior::Continue);
    let mut s = String::from(r#"{"jsonrpc":"2.0","method":"m","id":1,"params":"#);
    s.push_str(&r#"{"a":"#.repeat(300));
    s.push('1');
    s.push_str(&"}".repeat(300));
    s.push('}');
    assert!(
        parse_json_rpc_envelope(s.as_bytes(), &config).is_err(),
        "deeply nested object params must be rejected"
    );
}

#[test]
fn ignored_params_scalars_and_containers_are_accepted() {
    let config = make_config(BatchPolicy::Reject, OnInvalidBehavior::Continue);
    for params in [
        "true",
        "42",
        "-7",
        "1.5",
        r#""s""#,
        "null",
        r#"{"a":1,"b":[2,3]}"#,
        "[1,2,3]",
    ] {
        let body = format!(r#"{{"jsonrpc":"2.0","method":"m","id":1,"params":{params}}}"#);
        let env = parse_json_rpc_envelope(body.as_bytes(), &config)
            .unwrap_or_else(|e| panic!("params {params} should parse: {e:?}"))
            .expect("a JSON-RPC message");
        assert_eq!(
            env.method.as_deref(),
            Some("m"),
            "method must still be captured with params={params}"
        );
    }
}

#[test]
fn id_variants_are_classified() {
    let config = make_config(BatchPolicy::Reject, OnInvalidBehavior::Continue);
    for (id, kind) in [
        (r#""abc""#, JsonRpcIdKind::String),
        ("7", JsonRpcIdKind::Integer),
        ("-7", JsonRpcIdKind::Integer),
        ("18446744073709551615", JsonRpcIdKind::Integer),
        ("1.5", JsonRpcIdKind::Number),
        ("null", JsonRpcIdKind::Null),
    ] {
        let body = format!(r#"{{"jsonrpc":"2.0","method":"m","id":{id}}}"#);
        let env = parse_json_rpc_envelope(body.as_bytes(), &config)
            .unwrap()
            .expect("a JSON-RPC message");
        assert_eq!(env.id_kind, kind, "id {id} classification");
    }
}

#[test]
fn container_and_bool_ids_are_invalid() {
    let config = make_config(BatchPolicy::Reject, OnInvalidBehavior::Continue);
    for id in [r#"{"a":1}"#, "[1,2]", "true"] {
        let body = format!(r#"{{"jsonrpc":"2.0","method":"m","id":{id}}}"#);
        let err = parse_json_rpc_envelope(body.as_bytes(), &config).unwrap_err();
        assert!(
            matches!(err, JsonRpcParseError::InvalidId),
            "id {id} must be InvalidId, got {err:?}"
        );
    }
}

#[test]
fn non_string_version_is_treated_as_missing() {
    let config = make_config(BatchPolicy::Reject, OnInvalidBehavior::Continue);
    for v in ["2", "true", r#"{"x":1}"#, "[1]"] {
        let body = format!(r#"{{"jsonrpc":{v},"method":"m","id":1}}"#);
        let out = parse_json_rpc_envelope(body.as_bytes(), &config).unwrap();
        assert!(out.is_none(), "a non-string jsonrpc={v} is not a JSON-RPC message");
    }
}

#[test]
fn non_string_method_variants_are_invalid() {
    let config = make_config(BatchPolicy::Reject, OnInvalidBehavior::Continue);
    for m in ["1", "true", r#"{"x":1}"#, "[1]", "null"] {
        let body = format!(r#"{{"jsonrpc":"2.0","method":{m},"id":1}}"#);
        let err = parse_json_rpc_envelope(body.as_bytes(), &config).unwrap_err();
        assert!(
            matches!(err, JsonRpcParseError::InvalidMethod),
            "method {m} must be InvalidMethod, got {err:?}"
        );
    }
}

#[test]
fn batch_first_skips_non_object_items() {
    let config = make_config(BatchPolicy::First, OnInvalidBehavior::Continue);
    let body = br#"[1, "x", [1,2], {"jsonrpc":"2.0","method":"picked","id":1}]"#;
    let env = parse_json_rpc_envelope(body, &config)
        .unwrap()
        .expect("the first valid object");
    assert_eq!(env.method.as_deref(), Some("picked"), "first valid batch object wins");
    assert_eq!(env.kind, JsonRpcKind::Batch, "kind should be batch");
}

#[test]
fn escaped_strings_hit_owned_visit_string_arms() {
    let config = make_config(BatchPolicy::Reject, OnInvalidBehavior::Continue);
    let body = br#"{"jsonrpc":"2.0","method":"a\nb","id":"x\ty"}"#;
    let env = parse_json_rpc_envelope(body, &config)
        .unwrap()
        .expect("escaped-string envelope must parse");
    assert_eq!(env.method.as_deref(), Some("a\nb"), "escaped method captured");
    assert_eq!(env.id.as_deref(), Some("x\ty"), "escaped id captured");
    assert_eq!(env.id_kind, JsonRpcIdKind::String, "escaped id is a string id");
}

#[test]
fn root_scalars_are_not_json_rpc() {
    let config = make_config(BatchPolicy::Reject, OnInvalidBehavior::Continue);
    for root in [r#""s""#, "42", "1.5", "true", "null"] {
        let out = parse_json_rpc_envelope(root.as_bytes(), &config).unwrap();
        assert!(out.is_none(), "root scalar {root} is not JSON-RPC");
    }
}

#[test]
fn deep_nested_params_streaming_matches_dom() {
    let config = make_config(BatchPolicy::Reject, OnInvalidBehavior::Continue);
    let body = deep_params_body(300);
    let dom_rejects = serde_json::from_slice::<serde_json::Value>(&body).is_err();
    let streaming_rejects = parse_json_rpc_envelope(&body, &config).is_err();
    assert!(dom_rejects, "the DOM parser must reject 300-deep nesting");
    assert!(
        streaming_rejects,
        "the streaming parser must reject the same body the DOM parser rejects"
    );
}

fn message(version: &str, id: RawId, method: RawMethod, has_result_or_error: bool) -> RawMessage {
    RawMessage {
        version: RawVersion::Str(version.to_owned()),
        id,
        has_result_or_error,
        method,
    }
}

#[test]
fn error_texts_are_exact() {
    assert_eq!(JsonRpcParseError::InvalidJson("x".to_owned()).text(), "invalid JSON: x");
    assert_eq!(JsonRpcParseError::MissingVersion.text(), "missing 'jsonrpc' field");
    assert_eq!(JsonRpcParseError::WrongVersion("1.0".to_owned()).text(), "wrong jsonrpc version: 1.0");
    assert_eq!(JsonRpcParseError::MissingMethod.text(), "missing 'method' field");
    assert_eq!(JsonRpcParseError::InvalidMethod.text(), "'method' must be a string");
    assert_eq!(JsonRpcParseError::InvalidId.text(), "'id' must be string, number, or null");
    assert_eq!(JsonRpcParseError::UnsupportedBatch.text(), "batch requests are not supported");
    assert_eq!(JsonRpcParseError::EmptyBatch.text(), "batch array is empty");
    assert_eq!(JsonRpcParseError::BatchTooLarge(12, 7).text(), "batch of 12 items exceeds maximum 7");
}

#[test]
fn classify_reads_captured_fields() {
    let config = make_config(BatchPolicy::First, OnInvalidBehavior::Reject);
    let top = RawTop::Message(message(
        "2.0",
        RawId::Number("1.5".to_owned()),
        RawMethod::Str("m".to_owned()),
        false,
    ));
    let env = classify(top, &config).unwrap().unwrap();
    assert_eq!(env.kind, JsonRpcKind::Request);
    assert_eq!(env.id.as_deref(), Some("1.5"));
    assert_eq!(env.id_kind, JsonRpcIdKind::Number);

    let top = RawTop::Message(message("2.0", RawId::Missing, RawMethod::NotString, true));
    let env = classify(top, &config).unwrap().unwrap();
    assert_eq!(env.kind, JsonRpcKind::Response);
    assert_eq!(env.method, None);
}

#[test]
fn last_of_duplicate_members_counts() {
    let config = make_config(BatchPolicy::Reject, OnInvalidBehavior::Continue);
    let body = br#"{"jsonrpc":"2.0","method":"a","id":1,"method":"b","id":"z"}"#;
    let env = parse_json_rpc_envelope(body, &config).unwrap().unwrap();
    assert_eq!(env.method.as_deref(), Some("b"));
    assert_eq!(env.id.as_deref(), Some("z"));
}

#[test]
fn batch_without_valid_items_is_foreign() {
    let body = br#"[1,{"not":"jsonrpc"}]"#;
    let lenient = make_config(BatchPolicy::First, OnInvalidBehavior::Continue);
    assert!(parse_json_rpc_envelope(body, &lenient).unwrap().is_none());
    let strict = make_config(BatchPolicy::First, OnInvalidBehavior::Reject);
    assert!(matches!(
        parse_json_rpc_envelope(body, &strict),
        Err(JsonRpcParseError::MissingVersion)
    ));
}

#[test]
fn fractional_ids_are_rendered_once() {
    let config = make_config(BatchPolicy::First, OnInvalidBehavior::Reject);
    for digits in ["0.1234567890123456789", "1.7976931348623157e308", "12345678901234567890.5", "-0.0"] {
        let number: serde_json::Value = serde_json::from_str(digits).unwrap();
        let single = format!(r#"{{"jsonrpc":"2.0","method":"m","id":{digits}}}"#);
        let env = parse_json_rpc_envelope(single.as_bytes(), &config).unwrap().unwrap();
        assert_eq!(env.id, Some(number.to_string()));
        assert_eq!(env.id_kind, JsonRpcIdKind::Number);
        let batch = format!("[{single}]");
        let env = parse_json_rpc_envelope(batch.as_bytes(), &config).unwrap().unwrap();
        assert_eq!(env.id, Some(number.to_string()));
    }
}
