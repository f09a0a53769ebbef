//! Settings of the JSON body filter.

use praxis_filter::body::BodyAccess;
use praxis_filter::error::FilterError;
use praxis_filter::json_body::{
    body_access, build_ops, default_max_body_bytes, extract_dest, extract_dest_header, fit_response, value_source,
    CompiledOps, ExtractDest, ExtractOpConfig, JsonBodyConfig, JsonOp, PointerOpConfig, RemoveOpConfig,
    StructuredMetadataRef, ValueSource,
};
use praxis_filter::json_rpc::OnInvalidBehavior;

fn config() -> JsonBodyConfig {
    JsonBodyConfig {
        request_add: Vec::new(),
        request_remove: Vec::new(),
        request_replace: Vec::new(),
        request_extract: Vec::new(),
        response_add: Vec::new(),
        response_remove: Vec::new(),
        response_replace: Vec::new(),
        response_extract: Vec::new(),
        max_body_bytes: default_max_body_bytes(),
        on_invalid: OnInvalidBehavior::Continue,
    }
}

fn op(pointer: &str) -> PointerOpConfig {
    PointerOpConfig {
        pointer: pointer.to_owned(),
        value: None,
        metadata: None,
        structured_metadata: None,
        env_var: None,
        source_fault: None,
        pointer_fault: None,
    }
}

fn with_value(pointer: &str, value: &str) -> PointerOpConfig {
    PointerOpConfig {
        value: Some(value.to_owned()),
        ..op(pointer)
    }
}

fn extract(pointer: &str) -> ExtractOpConfig {
    ExtractOpConfig {
        pointer: pointer.to_owned(),
        metadata: None,
        structured_metadata: None,
        header: None,
        pointer_fault: None,
    }
}

fn extract_metadata(pointer: &str, key: &str) -> ExtractOpConfig {
    ExtractOpConfig {
        metadata: Some(key.to_owned()),
        ..extract(pointer)
    }
}

fn extract_header(pointer: &str, header: &str) -> ExtractOpConfig {
    ExtractOpConfig {
        header: Some(header.to_owned()),
        ..extract(pointer)
    }
}

fn remove(pointer: &str) -> RemoveOpConfig {
    RemoveOpConfig {
        pointer: pointer.to_owned(),
        pointer_fault: None,
    }
}

fn structured(namespace: &str, key: &str) -> Option<StructuredMetadataRef> {
    Some(StructuredMetadataRef {
        namespace: namespace.to_owned(),
        key: key.to_owned(),
    })
}

fn parse_ops(cfg: &JsonBodyConfig) -> CompiledOps {
    build_ops(cfg, Ok(()), None, None).unwrap_or_else(|e| panic!("{e:?}")).2
}

fn parse_err(cfg: &JsonBodyConfig) -> String {
    build_ops(cfg, Ok(()), None, None).err().unwrap().text()
}

#[test]
fn parses_header_like_config() {
    let ops = parse_ops(&JsonBodyConfig {
        request_add: vec![with_value("/tenant", "\"acme\"")],
        request_remove: vec![remove("/password")],
        request_replace: vec![with_value("/model", "\"forced-model\"")],
        ..config()
    });
    assert_eq!(ops.request.len(), 3, "one operation per setting");
    assert!(matches!(&ops.request[0], JsonOp::Add(p, ValueSource::Static(v)) if p == "/tenant" && v == "\"acme\""));
    assert!(matches!(&ops.request[1], JsonOp::Replace(p, ValueSource::Static(_)) if p == "/model"));
    assert!(matches!(&ops.request[2], JsonOp::Remove(p) if p == "/password"));
}

#[test]
fn parses_documented_extract_and_header_combo() {
    let ops = parse_ops(&JsonBodyConfig {
        request_extract: vec![
            extract_metadata("/model", "original.model"),
            extract_header("/stream", "X-Stream"),
        ],
        request_add: vec![
            with_value("/tenant", "\"acme\""),
            PointerOpConfig {
                metadata: Some("original.model".to_owned()),
                ..op("/original_model")
            },
        ],
        request_remove: vec![remove("/password")],
        request_replace: vec![with_value("/model", "\"forced-model\"")],
        response_remove: vec![remove("/internal")],
        ..config()
    });
    assert_eq!(body_access(&ops.request), BodyAccess::ReadWrite);
    assert!(matches!(&ops.request[0], JsonOp::Extract(_, ExtractDest::Metadata(k)) if k == "original.model"));
    assert!(matches!(&ops.request[1], JsonOp::Extract(_, ExtractDest::Header(h)) if h == "X-Stream"));
    assert!(matches!(&ops.request[3], JsonOp::Add(_, ValueSource::Metadata(k)) if k == "original.model"));
    assert_eq!(ops.response.len(), 1);
}

#[test]
fn rejects_empty_ops() {
    let err = parse_err(&config());
    assert!(err.contains("at least one"), "got: {err}");
}

#[test]
fn rejects_response_add() {
    let err = parse_err(&JsonBodyConfig {
        response_add: vec![with_value("/x", "1")],
        ..config()
    });
    assert!(err.contains("response_add"), "got: {err}");
    assert!(err.contains("not supported"), "got: {err}");
}

#[test]
fn rejects_response_replace() {
    let err = parse_err(&JsonBodyConfig {
        response_replace: vec![with_value("/x", "1")],
        ..config()
    });
    assert!(err.contains("response_replace"), "got: {err}");
    assert!(err.contains("not supported"), "got: {err}");
}

#[test]
fn rejects_missing_value_source() {
    let err = parse_err(&JsonBodyConfig {
        request_add: vec![op("/a")],
        ..config()
    });
    assert!(err.contains("exactly one"), "got: {err}");
    assert_eq!(
        err,
        "json_body: request_add pointer '/a' must set exactly one of 'value', 'metadata', 'structured_metadata', or 'env_var'"
    );
}

#[test]
fn rejects_both_value_and_metadata() {
    let err = parse_err(&JsonBodyConfig {
        request_add: vec![PointerOpConfig {
            metadata: Some("foo".to_owned()),
            ..with_value("/a", "1")
        }],
        ..config()
    });
    assert!(
        err.contains("exactly one") || err.contains("unknown field") || err.contains("data did not match"),
        "got: {err}"
    );
}

#[test]
fn rejects_both_value_and_env_var() {
    let err = parse_err(&JsonBodyConfig {
        request_add: vec![PointerOpConfig {
            env_var: Some("TENANT".to_owned()),
            ..with_value("/a", "1")
        }],
        ..config()
    });
    assert!(err.contains("exactly one"), "got: {err}");
}

#[test]
fn rejects_missing_env_var_at_config() {
    let err = parse_err(&JsonBodyConfig {
        request_add: vec![PointerOpConfig {
            env_var: Some("PRAXIS_JSON_BODY_ENV_MISSING".to_owned()),
            source_fault: Some("environment variable is not set".to_owned()),
            ..op("/tenant")
        }],
        ..config()
    });
    assert!(err.contains("not set"), "got: {err}");
    assert!(err.starts_with("json_body: "), "got: {err}");
}

#[test]
fn fit_response_refuses_growth() {
    assert!(
        fit_response(4, b"12345".to_vec()).is_none(),
        "longer rewrite cannot be framed"
    );
}

#[test]
fn fit_response_pads_with_spaces() {
    assert_eq!(fit_response(8, b"{\"k\":1}".to_vec()).unwrap(), b"{\"k\":1} ");
    assert_eq!(fit_response(2, b"{}".to_vec()).unwrap(), b"{}");
}

#[test]
fn request_body_access_none_when_only_response_ops() {
    let ops = parse_ops(&JsonBodyConfig {
        response_remove: vec![remove("/a")],
        ..config()
    });
    assert_eq!(body_access(&ops.request), BodyAccess::Unused);
    assert_eq!(body_access(&ops.response), BodyAccess::ReadWrite);
}

#[test]
fn allows_nested_extract_pointers() {
    let ops = parse_ops(&JsonBodyConfig {
        request_extract: vec![
            ExtractOpConfig {
                structured_metadata: structured("ext", "user"),
                ..extract("/user")
            },
            extract_metadata("/user/id", "user.id"),
        ],
        ..config()
    });
    assert_eq!(body_access(&ops.request), BodyAccess::ReadOnly);
}

#[test]
fn rejects_extract_without_dest() {
    let err = parse_err(&JsonBodyConfig {
        request_extract: vec![extract("/a")],
        ..config()
    });
    assert!(err.contains("exactly one"), "got: {err}");
}

#[test]
fn extract_only_is_read_only() {
    let ops = parse_ops(&JsonBodyConfig {
        request_extract: vec![extract_metadata("/model", "original.model")],
        ..config()
    });
    assert_eq!(body_access(&ops.request), BodyAccess::ReadOnly);
    assert_eq!(body_access(&ops.response), BodyAccess::Unused);
}

#[test]
fn extract_plus_replace_is_read_write() {
    let ops = parse_ops(&JsonBodyConfig {
        request_extract: vec![extract_metadata("/model", "original.model")],
        request_replace: vec![with_value("/model", "\"forced-model\"")],
        ..config()
    });
    assert_eq!(body_access(&ops.request), BodyAccess::ReadWrite);
}

#[test]
fn rejects_invalid_extract_header_name() {
    let err = parse_err(&JsonBodyConfig {
        request_extract: vec![extract_header("/model", "bad name")],
        ..config()
    });
    assert!(
        err.contains("invalid header name") && err.contains("bad name"),
        "got: {err}"
    );
}

#[test]
fn rejects_response_extract_header() {
    let err = parse_err(&JsonBodyConfig {
        response_extract: vec![extract_header("/model", "X-Model")],
        ..config()
    });
    assert!(err.contains("cannot use 'header'"), "got: {err}");
}

#[test]
fn rejects_extract_with_multiple_dests() {
    let err = parse_err(&JsonBodyConfig {
        request_extract: vec![ExtractOpConfig {
            header: Some("X-Model".to_owned()),
            ..extract_metadata("/model", "original.model")
        }],
        ..config()
    });
    assert!(err.contains("exactly one"), "got: {err}");
}

#[test]
fn engine_faults_carry_the_filter_name() {
    let cfg = JsonBodyConfig {
        request_remove: vec![remove("/a"), remove("/a/b")],
        ..config()
    };
    let err = build_ops(&cfg, Ok(()), Some("overlapping pointers".to_owned()), None)
        .err()
        .unwrap();
    assert_eq!(err.text(), "json_body: overlapping pointers");
    let err = build_ops(&cfg, Ok(()), None, Some("late".to_owned())).err().unwrap();
    assert_eq!(err.text(), "json_body: late");
    let err = build_ops(&cfg, Err(FilterError::from_text("json_body: max_body_bytes")), None, None)
        .err()
        .unwrap();
    assert_eq!(err.text(), "json_body: max_body_bytes");
    let err = parse_err(&JsonBodyConfig {
        request_remove: vec![RemoveOpConfig {
            pointer_fault: Some("cannot remove the document root".to_owned()),
            ..remove("")
        }],
        ..config()
    });
    assert_eq!(err, "json_body: cannot remove the document root");
}

#[test]
fn the_first_fault_wins() {
    let err = parse_err(&JsonBodyConfig {
        request_extract: vec![ExtractOpConfig {
            pointer_fault: Some("bad pointer".to_owned()),
            ..extract_header("/m", "bad name")
        }],
        request_add: vec![op("/a")],
        ..config()
    });
    assert!(err.contains("invalid header name"), "got: {err}");
}

#[test]
fn sources_and_destinations() {
    assert_eq!(default_max_body_bytes(), 10 * 1024 * 1024);
    let err = extract_dest_header("request", "/m", "").err().unwrap().text();
    assert_eq!(err, "json_body: request_extract pointer '/m' 'header' must not be empty");
    let dest = extract_dest(
        "response",
        &ExtractOpConfig {
            structured_metadata: structured("ns", "k"),
            ..extract("/m")
        },
    );
    assert!(matches!(dest, Ok(ExtractDest::Structured(n, k)) if n == "ns" && k == "k"));
    let source = value_source(
        "request",
        "add",
        &PointerOpConfig {
            structured_metadata: structured("ns", "k"),
            source_fault: Some("unused".to_owned()),
            ..op("/m")
        },
    );
    assert!(matches!(source, Ok(ValueSource::Structured(n, k)) if n == "ns" && k == "k"));
    let source = value_source(
        "request",
        "replace",
        &PointerOpConfig {
            env_var: Some("V".to_owned()),
            ..op("/m")
        },
    );
    assert!(matches!(source, Ok(ValueSource::EnvVar(v)) if v == "V"));
}
