//! Fields of a JSON body promoted into headers.

use praxis_filter::actions::FilterAction;
use praxis_filter::body::{BodyAccess, BodyMode, DEFAULT_JSON_BODY_MAX_BYTES};
use praxis_filter::json_body_field::{
    build_mappings, contains_control_chars, extract_fields, promote_values, FieldMapping, JsonBodyFieldConfig,
    JsonBodyFieldFilter, PromotionContext, MAX_DYNAMIC_VALUE_LEN,
};

fn make_filter(field: &str, header: &str) -> JsonBodyFieldFilter {
    make_multi_filter(&[(field, header)])
}

fn make_multi_filter(mappings: &[(&str, &str)]) -> JsonBodyFieldFilter {
    JsonBodyFieldFilter {
        max_body_bytes: DEFAULT_JSON_BODY_MAX_BYTES,
        mappings: mappings
            .iter()
            .map(|(f, h)| ((*f).to_owned(), (*h).to_owned()))
            .collect(),
    }
}

fn context() -> PromotionContext {
    PromotionContext {
        promoted: false,
        extra_request_headers: Vec::new(),
    }
}

fn config() -> JsonBodyFieldConfig {
    JsonBodyFieldConfig {
        field: None,
        header: None,
        fields: None,
        max_body_bytes: DEFAULT_JSON_BODY_MAX_BYTES,
    }
}

fn single(field: &str, header: &str) -> JsonBodyFieldConfig {
    JsonBodyFieldConfig {
        field: Some(field.to_owned()),
        header: Some(header.to_owned()),
        ..config()
    }
}

fn mapping(field: &str, header: &str) -> FieldMapping {
    FieldMapping {
        field: field.to_owned(),
        header: header.to_owned(),
    }
}

fn multi(fields: Vec<FieldMapping>) -> JsonBodyFieldConfig {
    JsonBodyFieldConfig {
        fields: Some(fields),
        ..config()
    }
}

fn config_err(cfg: JsonBodyFieldConfig) -> String {
    JsonBodyFieldFilter::from_config(cfg).err().expect("should fail").text()
}

#[test]
fn parse_single_field_config() {
    let filter = JsonBodyFieldFilter::from_config(single("model", "X-Model")).unwrap_or_else(|e| panic!("{e:?}"));
    assert_eq!(filter.name(), "json_body_field", "single-field config should parse");
    assert_eq!(filter.mappings, vec![("model".to_owned(), "X-Model".to_owned())]);
}

#[test]
fn parse_multi_field_config() {
    let filter = JsonBodyFieldFilter::from_config(multi(vec![
        mapping("model", "X-Model"),
        mapping("user_id", "X-User-Id"),
    ]))
    .unwrap_or_else(|e| panic!("{e:?}"));
    assert_eq!(filter.name(), "json_body_field", "multi-field config should parse");
    assert_eq!(filter.mappings.len(), 2);
}

#[test]
fn reject_both_syntaxes() {
    let err = config_err(JsonBodyFieldConfig {
        fields: Some(vec![mapping("user_id", "X-User-Id")]),
        ..single("model", "X-Model")
    });
    assert!(err.contains("not both"), "should reject mixed syntax, got: {err}");
}

#[test]
fn reject_empty_fields_list() {
    let err = config_err(multi(vec![]));
    assert!(
        err.contains("must not be empty"),
        "should reject empty fields list, got: {err}"
    );
}

#[test]
fn reject_empty_field_in_list() {
    let err = config_err(multi(vec![mapping("", "X-Model")]));
    assert!(err.contains("'field' must not be empty"), "got: {err}");
}

#[test]
fn reject_empty_field() {
    let err = config_err(single("", "X-Model"));
    assert!(err.contains("'field' must not be empty"), "got: {err}");
}

#[test]
fn reject_empty_header() {
    let err = config_err(single("model", ""));
    assert!(err.contains("'header' header name must not be empty"), "got: {err}");
}

#[test]
fn reject_header_name_with_space() {
    let err = config_err(single("model", "bad header"));
    assert!(
        err.contains("not a valid HTTP header name"),
        "a header name that cannot be sent must be rejected at config time, got: {err}"
    );
}

#[test]
fn reject_header_name_with_colon_in_fields_list() {
    let err = config_err(multi(vec![mapping("model", "X-Model"), mapping("user", "X:User")]));
    assert!(
        err.contains("not a valid HTTP header name"),
        "every mapping in 'fields' must have its header name validated, got: {err}"
    );
}

#[test]
fn accepts_valid_header_name() {
    build_mappings(&single("model", "X-Model")).expect("a valid header name must still be accepted");
}

#[test]
fn reject_missing_both() {
    let err = config_err(config());
    assert!(err.contains("'field' is required"), "should require field, got: {err}");
}

#[test]
fn reject_missing_header() {
    let err = config_err(JsonBodyFieldConfig {
        field: Some("model".to_owned()),
        ..config()
    });
    assert!(err.contains("'header' is required"), "got: {err}");
}

#[test]
fn extracts_field_from_complete_json() {
    let filter = make_filter("model", "X-Model");
    let mut ctx = context();

    let json = br#"{"model":"model-alpha-1","prompt":"hi"}"#;
    let body = Some(json.to_vec());

    let action = filter.on_request_body(&mut ctx, &body, true);

    assert!(
        matches!(action, FilterAction::BodyDone),
        "should return BodyDone after extracting field"
    );
}

#[test]
fn extracts_multiple_fields_in_single_parse() {
    let filter = make_multi_filter(&[("model", "X-Model"), ("user_id", "X-User-Id")]);
    let mut ctx = context();

    let json = br#"{"model":"model-alpha-1","user_id":"u-42","prompt":"hi"}"#;
    let body = Some(json.to_vec());

    let action = filter.on_request_body(&mut ctx, &body, true);

    assert!(
        matches!(action, FilterAction::BodyDone),
        "should return BodyDone after extracting fields"
    );
    assert_eq!(ctx.extra_request_headers.len(), 2, "should add two headers");
    let (n0, v0) = &ctx.extra_request_headers[0];
    assert_eq!(n0, "X-Model", "first mapping should extract model name");
    assert_eq!(v0, "model-alpha-1", "first mapping should extract model value");
    let (n1, v1) = &ctx.extra_request_headers[1];
    assert_eq!(n1, "X-User-Id", "second mapping should extract user_id name");
    assert_eq!(v1, "u-42", "second mapping should extract user_id value");
}

#[test]
fn complete_prefix_chunk_does_not_promote_before_end_of_stream() {
    let filter = make_filter("model", "X-Model");
    let mut ctx = context();

    let body = Some(br#"{"model":"premium"}"#.to_vec());
    let action = filter.on_request_body(&mut ctx, &body, false);

    assert!(
        matches!(action, FilterAction::Continue),
        "a mid-stream chunk must not end body processing for this filter"
    );
    assert!(
        ctx.extra_request_headers.is_empty(),
        "no header may be promoted before the whole body is known"
    );
}

#[test]
fn trailing_bytes_after_a_complete_prefix_chunk_block_promotion() {
    let filter = make_filter("model", "X-Model");
    let mut ctx = context();

    let first = Some(br#"{"model":"premium"}"#.to_vec());
    filter.on_request_body(&mut ctx, &first, false);

    let full = Some(br#"{"model":"premium"}{"model":"budget"}"#.to_vec());
    let action = filter.on_request_body(&mut ctx, &full, true);

    assert!(
        matches!(action, FilterAction::Continue),
        "a body with trailing content must not promote"
    );
    assert!(
        ctx.extra_request_headers.is_empty(),
        "the promoted header must reflect the body the backend parses"
    );
}

#[test]
fn promotes_from_the_frozen_body_at_end_of_stream() {
    let filter = make_filter("model", "X-Model");
    let mut ctx = context();

    let first = Some(br#"{"model":"premium"#.to_vec());
    filter.on_request_body(&mut ctx, &first, false);

    let full = Some(br#"{"model":"premium","prompt":"hi"}"#.to_vec());
    let action = filter.on_request_body(&mut ctx, &full, true);

    assert!(
        matches!(action, FilterAction::BodyDone),
        "the complete body at end-of-stream should promote and finish"
    );
    assert_eq!(ctx.extra_request_headers.len(), 1, "should promote exactly one header");
    assert_eq!(ctx.extra_request_headers[0].1, "premium", "promoted value should match");
}

#[test]
fn partial_multi_field_match_still_body_done() {
    let filter = make_multi_filter(&[("model", "X-Model"), ("user_id", "X-User-Id")]);
    let mut ctx = context();

    let json = br#"{"model":"model-alpha-1","prompt":"hi"}"#;
    let body = Some(json.to_vec());

    let action = filter.on_request_body(&mut ctx, &body, true);

    assert!(
        matches!(action, FilterAction::BodyDone),
        "should return BodyDone when at least one field matches"
    );
    assert_eq!(ctx.extra_request_headers.len(), 1, "should add only matched header");
    let (name, value) = &ctx.extra_request_headers[0];
    assert_eq!(name, "X-Model", "only model name should be extracted");
    assert_eq!(value, "model-alpha-1", "only model value should be extracted");
}

#[test]
fn no_multi_field_match_continues() {
    let filter = make_multi_filter(&[("model", "X-Model"), ("user_id", "X-User-Id")]);
    let mut ctx = context();

    let json = br#"{"prompt":"hi","temperature":0.7}"#;
    let body = Some(json.to_vec());

    let action = filter.on_request_body(&mut ctx, &body, true);

    assert!(
        matches!(action, FilterAction::Continue),
        "should continue when no fields match"
    );
    assert!(
        ctx.extra_request_headers.is_empty(),
        "no headers should be added when no fields match"
    );
}

#[test]
fn returns_continue_on_incomplete_json() {
    let filter = make_filter("model", "X-Model");
    let mut ctx = context();

    let partial = br#"{"model":"model-alp"#;
    let body = Some(partial.to_vec());

    let action = filter.on_request_body(&mut ctx, &body, false);

    assert!(
        matches!(action, FilterAction::Continue),
        "truncated mid-value must Continue: field not yet complete"
    );
    assert!(
        ctx.extra_request_headers.is_empty(),
        "truncated mid-value must not promote a header"
    );
}

#[test]
fn incomplete_json_does_not_promote() {
    let filter = make_filter("model", "X-Model");
    let mut ctx = context();

    let json = br#"{"model":"model-alpha-1","pro"#;
    let body = Some(json.to_vec());

    let action = filter.on_request_body(&mut ctx, &body, false);

    assert!(
        matches!(action, FilterAction::Continue),
        "an incomplete JSON body must not promote; wait for the complete body"
    );
    assert!(
        ctx.extra_request_headers.is_empty(),
        "no header may be promoted from an unvalidated JSON prefix"
    );
}

#[test]
fn promotes_with_large_trailing_unmapped_value() {
    let filter = make_filter("model", "X-Model");
    let mut ctx = context();

    let mut json = br#"{"model":"gpt-4","messages":"#.to_vec();
    json.push(b'[');
    for i in 0..1_000 {
        if i > 0 {
            json.push(b',');
        }
        json.extend_from_slice(br#"{"role":"user","content":"x"}"#);
    }
    json.extend_from_slice(br#"]}"#);
    let body = Some(json);

    let action = filter.on_request_body(&mut ctx, &body, true);

    assert!(
        matches!(action, FilterAction::BodyDone),
        "mapped field before large trailing value should return BodyDone"
    );
    assert_eq!(ctx.extra_request_headers.len(), 1, "should promote exactly one header");
    assert_eq!(ctx.extra_request_headers[0].1, "gpt-4", "model value should match");
}

#[test]
fn trailing_content_after_json_does_not_promote() {
    let filter = make_filter("model", "X-Model");
    let mut ctx = context();

    let json = br#"{"model":"premium"} garbage"#;
    let body = Some(json.to_vec());

    let action = filter.on_request_body(&mut ctx, &body, true);

    assert!(
        matches!(action, FilterAction::Continue),
        "trailing content after the JSON must not promote"
    );
    assert!(
        ctx.extra_request_headers.is_empty(),
        "no header from a body with trailing junk"
    );
}

#[test]
fn trailing_whitespace_after_json_still_promotes() {
    let filter = make_filter("model", "X-Model");
    let mut ctx = context();

    let json = b"{\"model\":\"premium\"}\n  \t\r\n";
    let body = Some(json.to_vec());

    let action = filter.on_request_body(&mut ctx, &body, true);

    assert!(
        matches!(action, FilterAction::BodyDone),
        "trailing whitespace after the JSON document must still promote"
    );
    assert_eq!(ctx.extra_request_headers.len(), 1, "should promote exactly one header");
    assert_eq!(ctx.extra_request_headers[0].1, "premium", "model value should match");
}

#[test]
fn last_wins_on_duplicate_keys() {
    let filter = make_filter("model", "X-Model");
    let mut ctx = context();

    let json = br#"{"model":"a","model":"b"}"#;
    let body = Some(json.to_vec());

    let action = filter.on_request_body(&mut ctx, &body, true);

    assert!(
        matches!(action, FilterAction::BodyDone),
        "a complete body with a mapped field should BodyDone"
    );
    assert_eq!(ctx.extra_request_headers.len(), 1, "should promote exactly one header");
    assert_eq!(
        ctx.extra_request_headers[0].1, "b",
        "last-wins: the last duplicate value must be promoted, matching the backend"
    );
}

#[test]
fn multi_field_promotes_from_complete_body() {
    let filter = make_multi_filter(&[("model", "X-Model"), ("user_id", "X-User-Id")]);
    let mut ctx = context();

    let json = br#"{"model":"m1","user_id":"u1","messages":[]}"#;
    let body = Some(json.to_vec());

    let action = filter.on_request_body(&mut ctx, &body, true);

    assert!(
        matches!(action, FilterAction::BodyDone),
        "a complete body with all mapped fields should BodyDone"
    );
    assert_eq!(ctx.extra_request_headers.len(), 2, "both headers should be promoted");
    assert_eq!(ctx.extra_request_headers[0].0, "X-Model", "first mapping order");
    assert_eq!(ctx.extra_request_headers[0].1, "m1", "model value");
    assert_eq!(ctx.extra_request_headers[1].0, "X-User-Id", "second mapping order");
    assert_eq!(ctx.extra_request_headers[1].1, "u1", "user_id value");
}

#[test]
fn incomplete_multi_field_body_does_not_promote() {
    let filter = make_multi_filter(&[("model", "X-Model"), ("user_id", "X-User-Id")]);
    let mut ctx = context();

    let json = br#"{"model":"m1","user_id":"u1","messages":"#;
    let body = Some(json.to_vec());

    let action = filter.on_request_body(&mut ctx, &body, false);

    assert!(
        matches!(action, FilterAction::Continue),
        "an incomplete body must not promote even when the mapped fields appear complete"
    );
    assert!(
        ctx.extra_request_headers.is_empty(),
        "no header from an incomplete body"
    );
}

#[test]
fn returns_continue_when_field_missing() {
    let filter = make_filter("model", "X-Model");
    let mut ctx = context();

    let json = br#"{"prompt":"hello","temperature":0.7}"#;
    let body = Some(json.to_vec());

    let action = filter.on_request_body(&mut ctx, &body, true);

    assert!(
        matches!(action, FilterAction::Continue),
        "missing field should continue"
    );
    assert!(
        ctx.extra_request_headers.is_empty(),
        "no headers should be added when field missing"
    );
}

#[test]
fn promotes_to_configured_header() {
    let filter = make_filter("user_id", "X-User-Id");
    let mut ctx = context();

    let json = br#"{"user_id":"abc-123","data":"payload"}"#;
    let body = Some(json.to_vec());

    let action = filter.on_request_body(&mut ctx, &body, true);

    assert!(
        matches!(action, FilterAction::BodyDone),
        "should return BodyDone after promoting field"
    );
    assert_eq!(ctx.extra_request_headers.len(), 1, "should add exactly one header");
    let (name, value) = &ctx.extra_request_headers[0];
    assert_eq!(name, "X-User-Id", "promoted header name should match");
    assert_eq!(value, "abc-123", "promoted header value should match field value");
}

#[test]
fn tests_on_request_is_noop() {
    let filter = make_filter("model", "X-Model");
    let action = filter.on_request();

    assert!(matches!(action, FilterAction::Continue), "on_request should be a no-op");
}

#[test]
fn tests_returns_continue_on_none_body() {
    let filter = make_filter("model", "X-Model");
    let mut ctx = context();
    let body: Option<Vec<u8>> = None;

    let action = filter.on_request_body(&mut ctx, &body, true);

    assert!(matches!(action, FilterAction::Continue), "None body should continue");
}

#[test]
fn numeric_field_promoted_as_string() {
    let filter = make_filter("count", "X-Count");
    let mut ctx = context();

    let json = br#"{"count":42}"#;
    let body = Some(json.to_vec());

    let action = filter.on_request_body(&mut ctx, &body, true);

    assert!(
        matches!(action, FilterAction::BodyDone),
        "numeric field should return BodyDone"
    );
    assert_eq!(ctx.extra_request_headers.len(), 1, "should add exactly one header");
    let (name, value) = &ctx.extra_request_headers[0];
    assert_eq!(name, "X-Count", "header name should match");
    assert_eq!(value, "42", "numeric value should be stringified");
}

#[test]
fn body_access_is_read_only() {
    let filter = make_filter("f", "H");
    assert_eq!(
        filter.request_body_access(),
        BodyAccess::ReadOnly,
        "body access should be read-only"
    );
}

#[test]
fn body_mode_is_stream_buffer_with_default_limit() {
    let filter = make_filter("f", "H");
    assert_eq!(
        filter.request_body_mode(),
        BodyMode::StreamBuffer {
            max_bytes: Some(DEFAULT_JSON_BODY_MAX_BYTES)
        },
        "body mode should be StreamBuffer with 10 MiB default limit"
    );
}

#[test]
fn rejects_value_exceeding_max_dynamic_length() {
    let filter = make_filter("model", "X-Model");
    let mut ctx = context();

    let oversized = "a".repeat(MAX_DYNAMIC_VALUE_LEN + 1);
    let json = format!(r#"{{"model":"{oversized}","prompt":"hi"}}"#);
    let body = Some(json.into_bytes());

    let action = filter.on_request_body(&mut ctx, &body, true);

    assert!(
        matches!(action, FilterAction::Continue),
        "should continue when value exceeds MAX_DYNAMIC_VALUE_LEN"
    );
    assert!(
        ctx.extra_request_headers.is_empty(),
        "header should not be promoted for value exceeding MAX_DYNAMIC_VALUE_LEN"
    );
}

#[test]
fn rejects_value_with_newline() {
    let filter = make_filter("model", "X-Model");
    let mut ctx = context();

    let json = b"{\"model\":\"bad\\nvalue\",\"prompt\":\"hi\"}";
    let body = Some(json.to_vec());

    let action = filter.on_request_body(&mut ctx, &body, true);

    assert!(
        matches!(action, FilterAction::Continue),
        "should continue when value contains control chars"
    );
    assert!(
        ctx.extra_request_headers.is_empty(),
        "header should not be injected for value with newline"
    );
}

#[test]
fn rejects_value_with_carriage_return() {
    let filter = make_filter("model", "X-Model");
    let mut ctx = context();

    let json = b"{\"model\":\"bad\\rvalue\",\"prompt\":\"hi\"}";
    let body = Some(json.to_vec());

    let action = filter.on_request_body(&mut ctx, &body, true);

    assert!(
        matches!(action, FilterAction::Continue),
        "should continue when value contains carriage return"
    );
    assert!(
        ctx.extra_request_headers.is_empty(),
        "header should not be injected for value with CR"
    );
}

#[test]
fn rejects_value_with_null_byte() {
    let filter = make_filter("model", "X-Model");
    let mut ctx = context();

    let json = b"{\"model\":\"bad\\u0000value\",\"prompt\":\"hi\"}";
    let body = Some(json.to_vec());

    let action = filter.on_request_body(&mut ctx, &body, true);

    assert!(
        matches!(action, FilterAction::Continue),
        "should continue when value contains null byte"
    );
    assert!(
        ctx.extra_request_headers.is_empty(),
        "header should not be injected for value with null byte"
    );
}

#[test]
fn allows_value_with_tab() {
    let filter = make_filter("model", "X-Model");
    let mut ctx = context();

    let json = b"{\"model\":\"with\\ttab\",\"prompt\":\"hi\"}";
    let body = Some(json.to_vec());

    let action = filter.on_request_body(&mut ctx, &body, true);

    assert!(
        matches!(action, FilterAction::BodyDone),
        "tab character should be allowed in header values"
    );
    assert_eq!(
        ctx.extra_request_headers.len(),
        1,
        "header should be injected for value with tab"
    );
}

#[test]
fn multi_field_skips_only_control_char_values() {
    let filter = make_multi_filter(&[("model", "X-Model"), ("user_id", "X-User-Id")]);
    let mut ctx = context();

    let json = b"{\"model\":\"bad\\nvalue\",\"user_id\":\"u-42\"}";
    let body = Some(json.to_vec());

    let action = filter.on_request_body(&mut ctx, &body, true);

    assert!(
        matches!(action, FilterAction::BodyDone),
        "should return BodyDone when at least one clean field found"
    );
    assert_eq!(
        ctx.extra_request_headers.len(),
        1,
        "only clean field should be promoted"
    );
    let (name, value) = &ctx.extra_request_headers[0];
    assert_eq!(name, "X-User-Id", "clean field should be promoted");
    assert_eq!(value, "u-42", "clean value should be promoted");
}

#[test]
fn contains_control_chars_rejects_unit_separator() {
    assert!(
        contains_control_chars("\x1F"),
        "0x1F (unit separator) should be rejected"
    );
}

#[test]
fn contains_control_chars_allows_space() {
    assert!(!contains_control_chars(" "), "0x20 (space) should be allowed");
}

#[test]
fn contains_control_chars_allows_printable_ascii() {
    assert!(
        !contains_control_chars("hello world!"),
        "printable ASCII should be allowed"
    );
}

#[test]
fn contains_control_chars_rejects_esc() {
    assert!(contains_control_chars("\x1B"), "ESC (0x1B) should be rejected");
}

#[test]
fn contains_control_chars_rejects_del() {
    assert!(contains_control_chars("\x7F"), "DEL (0x7F) should be rejected");
}

#[test]
fn contains_control_chars_allows_tab() {
    assert!(!contains_control_chars("\t"), "horizontal tab should be allowed");
}

#[test]
fn boolean_field_promoted_as_string() {
    let filter = make_filter("flag", "X-Flag");
    let mut ctx = context();

    let json = br#"{"flag":true}"#;
    let body = Some(json.to_vec());

    let action = filter.on_request_body(&mut ctx, &body, true);

    assert!(
        matches!(action, FilterAction::BodyDone),
        "boolean field should return BodyDone"
    );
    assert_eq!(ctx.extra_request_headers.len(), 1, "should add exactly one header");
    let (name, value) = &ctx.extra_request_headers[0];
    assert_eq!(name, "X-Flag", "header name should match");
    assert_eq!(value, "true", "boolean value should be stringified");
}

#[test]
fn nested_object_field_promoted_as_json() {
    let filter = make_filter("metadata", "X-Metadata");
    let mut ctx = context();

    let json = br#"{"metadata":{"key":"val"}}"#;
    let body = Some(json.to_vec());

    let action = filter.on_request_body(&mut ctx, &body, true);

    assert!(
        matches!(action, FilterAction::BodyDone),
        "nested object field should return BodyDone"
    );
    assert_eq!(ctx.extra_request_headers.len(), 1, "should add exactly one header");
    let (name, value) = &ctx.extra_request_headers[0];
    assert_eq!(name, "X-Metadata", "header name should match");
    assert!(
        value.contains("key") && value.contains("val"),
        "nested object should be serialized as JSON string: {value}"
    );
}

#[test]
fn empty_json_body_continues() {
    let filter = make_filter("model", "X-Model");
    let mut ctx = context();

    let json = br#"{}"#;
    let body = Some(json.to_vec());

    let action = filter.on_request_body(&mut ctx, &body, true);

    assert!(
        matches!(action, FilterAction::Continue),
        "empty JSON object should continue"
    );
    assert!(
        ctx.extra_request_headers.is_empty(),
        "no headers should be added for empty JSON"
    );
}

#[test]
fn non_json_body_continues() {
    let filter = make_filter("model", "X-Model");
    let mut ctx = context();

    let body = Some(b"not json at all".to_vec());

    let action = filter.on_request_body(&mut ctx, &body, true);

    assert!(
        matches!(action, FilterAction::Continue),
        "non-JSON body should continue"
    );
    assert!(
        ctx.extra_request_headers.is_empty(),
        "no headers should be added for non-JSON body"
    );
}

#[test]
fn array_root_json_continues() {
    let filter = make_filter("model", "X-Model");
    let mut ctx = context();

    let json = br#"[1,2,3]"#;
    let body = Some(json.to_vec());

    let action = filter.on_request_body(&mut ctx, &body, true);

    assert!(
        matches!(action, FilterAction::Continue),
        "array root JSON should continue since fields cannot be extracted"
    );
    assert!(
        ctx.extra_request_headers.is_empty(),
        "no headers should be added for array root JSON"
    );
}

#[test]
fn scalar_root_json_continues() {
    let filter = make_filter("model", "X-Model");
    let mut ctx = context();

    let json = br#""hello""#;
    let body = Some(json.to_vec());

    let action = filter.on_request_body(&mut ctx, &body, true);

    assert!(
        matches!(action, FilterAction::Continue),
        "scalar root JSON should continue since fields cannot be extracted"
    );
    assert!(
        ctx.extra_request_headers.is_empty(),
        "no headers should be added for scalar root JSON"
    );
}

#[test]
fn null_field_value_promoted_as_string() {
    let filter = make_filter("model", "X-Model");
    let mut ctx = context();

    let json = br#"{"model":null}"#;
    let body = Some(json.to_vec());

    let action = filter.on_request_body(&mut ctx, &body, true);

    assert!(
        matches!(action, FilterAction::BodyDone),
        "null field value should return BodyDone"
    );
    assert_eq!(ctx.extra_request_headers.len(), 1, "should add exactly one header");
    let (name, value) = &ctx.extra_request_headers[0];
    assert_eq!(name, "X-Model", "header name should match");
    assert_eq!(value, "null", "null value should be stringified as 'null'");
}

#[test]
fn deeply_nested_with_null_continues() {
    let filter = make_filter("metadata", "X-Metadata");
    let mut ctx = context();

    let json = br#"{"metadata":{"inner":null}}"#;
    let body = Some(json.to_vec());

    let action = filter.on_request_body(&mut ctx, &body, true);

    assert!(
        matches!(action, FilterAction::BodyDone),
        "nested object with null inner should return BodyDone"
    );
    assert_eq!(ctx.extra_request_headers.len(), 1, "should add exactly one header");
    let (name, value) = &ctx.extra_request_headers[0];
    assert_eq!(name, "X-Metadata", "header name should match");
    assert!(
        value.contains("inner") && value.contains("null"),
        "nested object with null should be serialized as JSON string: {value}"
    );
}

#[test]
fn field_name_with_dot() {
    let filter = make_filter("my.model", "X-Model");
    let mut ctx = context();

    let json = br#"{"my.model":"model-gamma-3"}"#;
    let body = Some(json.to_vec());

    let action = filter.on_request_body(&mut ctx, &body, true);

    assert!(
        matches!(action, FilterAction::BodyDone),
        "dotted field name should be extractable"
    );
    assert_eq!(ctx.extra_request_headers.len(), 1, "should add exactly one header");
    let (name, value) = &ctx.extra_request_headers[0];
    assert_eq!(name, "X-Model", "header name should match");
    assert_eq!(value, "model-gamma-3", "dotted field value should match");
}

#[test]
fn field_name_with_unicode() {
    let filter = make_filter("mod\u{00e9}le", "X-Model");
    let mut ctx = context();

    let json = "{\"mod\u{00e9}le\":\"model-a\"}";
    let body = Some(json.as_bytes().to_vec());

    let action = filter.on_request_body(&mut ctx, &body, true);

    assert!(
        matches!(action, FilterAction::BodyDone),
        "unicode field name should be extractable"
    );
    assert_eq!(ctx.extra_request_headers.len(), 1, "should add exactly one header");
    let (name, value) = &ctx.extra_request_headers[0];
    assert_eq!(name, "X-Model", "header name should match");
    assert_eq!(value, "model-a", "unicode field value should match");
}

#[test]
fn empty_string_field_value_promoted() {
    let filter = make_filter("model", "X-Model");
    let mut ctx = context();

    let json = br#"{"model":""}"#;
    let body = Some(json.to_vec());

    let action = filter.on_request_body(&mut ctx, &body, true);

    assert!(
        matches!(action, FilterAction::BodyDone),
        "empty string field should return BodyDone"
    );
    assert_eq!(ctx.extra_request_headers.len(), 1, "should add exactly one header");
    let (name, value) = &ctx.extra_request_headers[0];
    assert_eq!(name, "X-Model", "header name should match");
    assert_eq!(value, "", "empty string value should be promoted as empty header");
}

#[test]
fn repeated_body_hooks_do_not_duplicate_promoted_headers() {
    let filter = make_filter("model", "X-Model");
    let mut ctx = context();

    let full = br#"{"model":"gpt-4","messages":[{"role":"user","content":"hi"}]}"#;
    let body = Some(full.to_vec());
    let action = filter.on_request_body(&mut ctx, &body, true);
    assert!(
        matches!(action, FilterAction::BodyDone),
        "a complete body with the mapped field should BodyDone"
    );
    assert_eq!(ctx.extra_request_headers.len(), 1, "first promotion adds one header");

    let body = Some(full.to_vec());
    let action = filter.on_request_body(&mut ctx, &body, true);
    assert!(
        matches!(action, FilterAction::BodyDone),
        "re-entry after promotion should stay BodyDone"
    );
    assert_eq!(
        ctx.extra_request_headers.len(),
        1,
        "second body hook after promotion must not re-Add a duplicate header"
    );
    assert_eq!(ctx.extra_request_headers[0].1, "gpt-4", "promoted value unchanged");
}

#[test]
fn promotes_even_when_target_header_already_in_extras() {
    let filter = make_filter("model", "X-Model");
    let mut ctx = context();
    ctx.extra_request_headers
        .push(("X-Model".to_owned(), "client-spoof".to_owned()));

    let json = br#"{"model":"from-body"}"#;
    let body = Some(json.to_vec());
    let action = filter.on_request_body(&mut ctx, &body, true);

    assert!(
        matches!(action, FilterAction::BodyDone),
        "pre-existing extras or same-named client header must not suppress first JSON promotion"
    );
    assert_eq!(ctx.extra_request_headers.len(), 2, "should append body promotion");
    assert_eq!(
        ctx.extra_request_headers[0].1, "client-spoof",
        "pre-existing value retained"
    );
    assert_eq!(
        ctx.extra_request_headers[1].1, "from-body",
        "body value must be promoted even when target header already in extras"
    );
}

#[test]
fn fields_are_read_from_the_whole_document() {
    let mappings = vec![("a".to_owned(), "X-A".to_owned()), ("b".to_owned(), "X-B".to_owned())];
    let mut headers = Vec::new();
    assert!(extract_fields(&mappings, &br#"{"b":true,"a":1.50,"a":"last"}"#.to_vec(), &mut headers));
    assert_eq!(
        headers,
        vec![
            ("X-A".to_owned(), "last".to_owned()),
            ("X-B".to_owned(), "true".to_owned()),
        ]
    );
    assert!(!extract_fields(&mappings, &b"[1]".to_vec(), &mut headers));
    assert_eq!(headers.len(), 2);
}

#[test]
fn only_safe_values_are_promoted() {
    let mappings = vec![
        ("a".to_owned(), "A".to_owned()),
        ("b".to_owned(), "B".to_owned()),
        ("c".to_owned(), "C".to_owned()),
        ("d".to_owned(), "D".to_owned()),
    ];
    let values = vec![
        Some("\u{e9}".repeat(MAX_DYNAMIC_VALUE_LEN / 2)),
        Some("\u{e9}".repeat(MAX_DYNAMIC_VALUE_LEN / 2) + "x"),
        None,
        Some("a\nb".to_owned()),
    ];
    let mut headers = Vec::new();
    assert!(promote_values(&mappings, &values, &mut headers));
    assert_eq!(headers.len(), 1);
    assert_eq!(headers[0].0, "A");
}
