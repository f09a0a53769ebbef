//! The iterative request router.

use praxis_filter::actions::TerminalResponse;
use praxis_filter::body::{BodyAccess, BodyMode};
use praxis_filter::error::FilterError;
use praxis_filter::headers::HeaderMap;
use praxis_filter::router::{
    append_pending_chunks, build_terminal_response, effective_response_limit, evaluate_header_transitions,
    evaluate_transitions, has_body_dependent_transitions, is_header_safe_failover, matches_filter_result, parse_depth,
    parse_u8, streaming_transition_order_is_valid, strip_iteration_extensions, FilterResult, IterationRun,
    IterativeRequestRouterFilter, PipelineFacts, ResponseOrigin, RouterConfig, Start, StepChoice, StepCompletion,
    StepConfig, StepExtensions, StepOutcome, StepTransition, StreamChoice, SubRequest, SubResponse, TransitionResult,
    TransportErrorKind,
};

fn rule() -> StepTransition {
    StepTransition {
        next: None,
        done: false,
        default: false,
        filter: None,
        key: None,
        value: None,
        status: None,
        origin: None,
        transport_error: None,
    }
}

fn on_status(codes: &[u16], next: &str) -> StepTransition {
    StepTransition {
        status: Some(codes.to_vec()),
        next: Some(next.to_owned()),
        ..rule()
    }
}

fn on_filter(filter: &str, key: &str, value: &str, next: &str) -> StepTransition {
    StepTransition {
        filter: Some(filter.to_owned()),
        key: Some(key.to_owned()),
        value: Some(value.to_owned()),
        next: Some(next.to_owned()),
        ..rule()
    }
}

fn by_default(next: Option<&str>, done: bool) -> StepTransition {
    StepTransition {
        default: true,
        done,
        next: next.map(str::to_owned),
        ..rule()
    }
}

fn outcome(status: u16, body: &[u8]) -> StepOutcome {
    StepOutcome {
        response: SubResponse {
            status,
            headers: HeaderMap::new(),
            body: body.to_vec(),
        },
        origin: ResponseOrigin { code: 0 },
        transport_error: None,
    }
}

fn result(filter: &str, key: &str, value: &str) -> FilterResult {
    FilterResult {
        filter: filter.to_owned(),
        key: key.to_owned(),
        value: value.to_owned(),
    }
}

fn facts() -> PipelineFacts {
    PipelineFacts {
        ordering_errors: Vec::new(),
        may_stream: true,
        buffers_response: false,
        referenced_files: Vec::new(),
    }
}

fn opened(iteration: Option<usize>) -> StepExtensions<&'static str> {
    StepExtensions {
        iteration,
        next_body: Some(b"left over".to_vec()),
        parent: "request",
    }
}

fn step(name: &str, on_result: Vec<StepTransition>) -> StepConfig {
    StepConfig {
        name: name.to_owned(),
        pipeline: Ok(facts()),
        on_result,
    }
}

fn settings(steps: Vec<StepConfig>) -> RouterConfig {
    RouterConfig {
        initial_step: "first".to_owned(),
        max_iterations: 3,
        max_response_bytes: 100,
        max_stream_response_bytes: None,
        max_state_bytes: 50,
        step_timeout_ms: None,
        timeout_ms: 1000,
        steps,
    }
}

fn router(steps: Vec<StepConfig>) -> IterativeRequestRouterFilter {
    IterativeRequestRouterFilter::from_parsed_config(settings(steps), true).unwrap_or_else(|e| panic!("{e:?}"))
}

fn refusal(steps: Vec<StepConfig>) -> String {
    IterativeRequestRouterFilter::from_parsed_config(settings(steps), true)
        .err()
        .expect("should be refused")
        .text()
}

fn request(method: &str) -> SubRequest {
    let mut headers = HeaderMap::new();
    headers.append("authorization", b"secret".to_vec());
    SubRequest {
        method: method.to_owned(),
        uri: "/v1".to_owned(),
        headers,
        body: b"body".to_vec(),
    }
}

fn run(filter: &IterativeRequestRouterFilter, method: &str) -> IterationRun {
    match filter.start(request(method), BodyMode::Stream, true, 0, ()) {
        Start::Run(run, ()) => run,
        _ => panic!("should start"),
    }
}

fn completion() -> StepCompletion<&'static str> {
    StepCompletion {
        retained: 0,
        abnormal: None,
        pending: Vec::new(),
        next_body: None,
        results: Vec::new(),
        extensions: "step",
    }
}

fn responded(choice: StepChoice<&str>) -> TerminalResponse {
    match choice {
        StepChoice::Respond(t, "step") => t,
        _ => panic!("should respond"),
    }
}

fn failed(choice: StepChoice<&str>) -> String {
    match choice {
        StepChoice::Fail(e, "step") => e.text(),
        _ => panic!("should fail"),
    }
}

#[test]
fn the_first_matching_rule_decides() {
    let rules = vec![
        on_status(&[502, 503], "fallback"),
        on_filter("guard", "verdict", "retry", "again"),
        by_default(None, true),
    ];
    let none = Vec::new();
    assert!(matches!(evaluate_transitions(&rules, &outcome(503, b""), &none), TransitionResult::Next(s) if s == "fallback"));
    let results = vec![result("guard", "verdict", "retry")];
    assert!(matches!(evaluate_transitions(&rules, &outcome(200, b""), &results), TransitionResult::Next(s) if s == "again"));
    assert!(matches!(evaluate_transitions(&rules, &outcome(200, b""), &none), TransitionResult::Done));
    assert!(matches!(
        evaluate_transitions(&vec![on_status(&[500], "x")], &outcome(200, b""), &none),
        TransitionResult::NoMatch
    ));
    assert!(matches!(
        evaluate_transitions(&vec![by_default(Some("x"), true)], &outcome(200, b""), &none),
        TransitionResult::Done
    ));
    assert!(matches!(evaluate_transitions(&vec![rule()], &outcome(200, b""), &none), TransitionResult::Done));
}

#[test]
fn every_named_predicate_must_hold() {
    let t = StepTransition {
        origin: Some(ResponseOrigin { code: 1 }),
        transport_error: Some(TransportErrorKind { code: 2 }),
        ..on_status(&[502], "next")
    };
    let mut o = outcome(502, b"");
    let none = Vec::new();
    assert!(matches!(evaluate_transitions(&vec![on_status(&[502], "next")], &o, &none), TransitionResult::Next(_)));
    let rules = vec![t];
    assert!(matches!(evaluate_transitions(&rules, &o, &none), TransitionResult::NoMatch));
    o.origin = ResponseOrigin { code: 1 };
    assert!(matches!(evaluate_transitions(&rules, &o, &none), TransitionResult::NoMatch));
    o.transport_error = Some(TransportErrorKind { code: 2 });
    assert!(matches!(evaluate_transitions(&rules, &o, &none), TransitionResult::Next(_)));
    let partial = StepTransition {
        value: None,
        ..on_filter("guard", "verdict", "retry", "again")
    };
    assert!(matches!(
        evaluate_transitions(&vec![partial], &o, &vec![result("guard", "verdict", "retry")]),
        TransitionResult::NoMatch
    ));
    assert!(!matches_filter_result(&vec![result("a", "b", "c")], "a", "b", "d"));
    assert!(matches_filter_result(&vec![result("x", "b", "c"), result("a", "b", "c")], "a", "b", "c"));
}

#[test]
fn header_failover_reads_only_the_safe_prefix() {
    let rules = vec![
        on_status(&[503], "fallback"),
        on_filter("guard", "verdict", "retry", "again"),
        on_status(&[502], "late"),
    ];
    assert!(matches!(evaluate_header_transitions(&rules, &outcome(503, b"")), TransitionResult::Next(s) if s == "fallback"));
    assert!(matches!(evaluate_header_transitions(&rules, &outcome(502, b"")), TransitionResult::NoMatch));
    assert!(!streaming_transition_order_is_valid(&rules));
    assert!(streaming_transition_order_is_valid(&vec![
        on_status(&[503], "fallback"),
        on_filter("guard", "verdict", "retry", "again"),
    ]));
    assert!(is_header_safe_failover(&rules[0]));
    assert!(!is_header_safe_failover(&rules[1]));
    assert!(!is_header_safe_failover(&by_default(Some("x"), false)));
    assert!(has_body_dependent_transitions(&rules));
    assert!(!has_body_dependent_transitions(&vec![on_status(&[503], "fallback")]));
}

#[test]
fn depths_are_small_numbers() {
    assert_eq!(parse_u8("0"), Some(0));
    assert_eq!(parse_u8("+007"), Some(7));
    assert_eq!(parse_u8("255"), Some(255));
    for bad in ["", "+", "256", "99999999999999999999", "-1", " 1", "1a"] {
        assert_eq!(parse_u8(bad), None, "{bad:?}");
    }
    let mut headers = HeaderMap::new();
    assert_eq!(parse_depth(&headers, "x-depth"), 0);
    headers.append("X-Depth", b"3".to_vec());
    assert_eq!(parse_depth(&headers, "x-depth"), 3);
    let mut headers = HeaderMap::new();
    headers.append("x-depth", b"\xff".to_vec());
    assert_eq!(parse_depth(&headers, "x-depth"), 0);
}

#[test]
fn response_limits_are_clamped() {
    assert_eq!(effective_response_limit(10, BodyMode::Stream), 10);
    assert_eq!(effective_response_limit(10, BodyMode::SizeLimit { max_bytes: 4 }), 4);
    assert_eq!(effective_response_limit(10, BodyMode::SizeLimit { max_bytes: 40 }), 10);
    assert_eq!(effective_response_limit(10, BodyMode::StreamBuffer { max_bytes: Some(4) }), 4);
    assert_eq!(effective_response_limit(10, BodyMode::StreamBuffer { max_bytes: None }), 10);
}

#[test]
fn terminal_responses_carry_the_actual_length() {
    let mut headers = HeaderMap::new();
    headers.append("content-length", b"999".to_vec());
    headers.append("transfer-encoding", b"chunked".to_vec());
    headers.append("set-cookie", b"a".to_vec());
    headers.append("set-cookie", b"b".to_vec());
    let response = SubResponse {
        status: 200,
        headers,
        body: b"hello".to_vec(),
    };
    let t = build_terminal_response(&response, 200, false);
    assert_eq!(t.headers.lines.len(), 3);
    assert_eq!(t.headers.first("content-length").unwrap(), b"5");
    assert_eq!(t.body.unwrap(), b"hello");

    let t = build_terminal_response(&response, 200, true);
    assert_eq!(t.headers.first("content-length").unwrap(), b"999");
    assert!(t.headers.first("transfer-encoding").is_none());

    for status in [204, 304] {
        let t = build_terminal_response(&response, status, false);
        assert!(t.headers.first("content-length").is_none());
    }
    let empty = SubResponse {
        body: Vec::new(),
        ..response
    };
    assert!(build_terminal_response(&empty, 200, false).body.is_none());
}

#[test]
fn pending_output_is_bounded() {
    let mut target = vec![b"ab".to_vec()];
    assert_eq!(
        append_pending_chunks(&mut target, vec![b"cde".to_vec()], 2, 10, 5).unwrap_or_else(|e| panic!("{e:?}")),
        5
    );
    assert_eq!(target.len(), 2);
    let err = append_pending_chunks(&mut target, vec![b"f".to_vec()], 5, 10, 5).err().unwrap();
    assert_eq!(
        err.text(),
        "iterative_request_router: retained state and pending stream output exceed configured limit"
    );
    assert_eq!(target.len(), 2, "nothing is appended");
    let err = append_pending_chunks(&mut target, vec![b"f".to_vec()], usize::MAX, 10, 0).err().unwrap();
    assert_eq!(err.text(), "iterative_request_router: pending stream byte count overflow");
}

#[test]
fn construction_checks_the_steps() {
    let f = router(vec![step("first", vec![])]);
    assert_eq!(f.name(), "iterative_request_router");
    assert_eq!(f.step_timeout_ms, 1000, "the overall timeout caps a step by default");
    assert!(f.produces_terminal_response());
    assert_eq!(f.request_body_access(), BodyAccess::ReadOnly);
    assert_eq!(f.request_body_mode(), BodyMode::StreamBuffer { max_bytes: Some(50) });

    let err = IterativeRequestRouterFilter::from_parsed_config(settings(vec![]), false).err().unwrap();
    assert_eq!(err.text(), "iterative_request_router: timeout_ms exceeds the platform Instant range");
    assert_eq!(
        refusal(vec![StepConfig {
            pipeline: Err(FilterError::from_text("unknown filter")),
            ..step("first", vec![])
        }]),
        "unknown filter"
    );
    assert_eq!(
        refusal(vec![StepConfig {
            pipeline: Ok(PipelineFacts {
                ordering_errors: vec!["a".to_owned(), "b".to_owned()],
                ..facts()
            }),
            ..step("first", vec![])
        }]),
        "iterative_request_router: invalid step 'first': a; b"
    );
    assert_eq!(
        refusal(vec![StepConfig {
            pipeline: Ok(PipelineFacts {
                buffers_response: true,
                ..facts()
            }),
            ..step("first", vec![])
        }]),
        "iterative_request_router: step 'first': StreamBuffer response body mode is incompatible with streaming-capable pipelines"
    );
    assert_eq!(
        refusal(vec![step("first", vec![by_default(None, true), on_status(&[503], "x")])]),
        "iterative_request_router: step 'first' transition 1: header-safe streaming failover rules must precede completion rules"
    );
    assert_eq!(
        refusal(vec![step(
            "first",
            vec![StepTransition {
                filter: None,
                ..on_filter("guard", "verdict", "retry", "again")
            }]
        )]),
        "iterative_request_router: step 'first' transition 0: ambiguous streaming transition predicates"
    );
    router(vec![StepConfig {
        pipeline: Ok(PipelineFacts {
            may_stream: false,
            buffers_response: true,
            ..facts()
        }),
        ..step("first", vec![by_default(None, true), on_status(&[503], "x")])
    }]);
}

#[test]
fn requests_enter_below_the_depth_bound() {
    let f = router(vec![]);
    assert!(matches!(f.on_request(2, 2, true, Some(vec![])), Ok(Err(r)) if r.status == 508));
    assert_eq!(
        f.on_request(1, 2, false, Some(vec![])).err().unwrap().text(),
        "iterative_request_router: no sub-request client available"
    );
    assert_eq!(
        f.on_request(1, 2, true, None).err().unwrap().text(),
        "iterative_request_router: buffered request body unavailable"
    );
    assert!(matches!(f.on_request(1, 2, true, Some(b"x".to_vec())), Ok(Ok(b)) if b == b"x"));
}

#[test]
fn runs_start_within_the_bounds() {
    let f = router(vec![]);
    assert!(matches!(
        f.start(request("GET"), BodyMode::Stream, false, 0, "request"),
        Start::Fail(e, "request") if e.text() == "iterative_request_router: deadline exceeds the platform Instant range"
    ));
    assert!(matches!(
        f.start(request("GET"), BodyMode::Stream, true, 51, "request"),
        Start::Reject(r, "request") if r.status == 413
    ));
    let Start::Run(run, "request") = f.start(request("GET"), BodyMode::SizeLimit { max_bytes: 7 }, true, 50, "request")
    else {
        panic!("should start");
    };
    assert_eq!((run.iteration, run.current_step.as_str(), run.max_response_bytes), (0, "first", 7));
    assert_eq!(run.request.headers.lines.len(), 1, "the first step sees the client's headers");
    assert!(matches!(f.before_step(&run, false, "kept"), Ok("kept")));
    assert!(matches!(f.before_step(&run, true, "back"), Err((r, "back")) if r.status == 504));
    let spent = IterationRun { iteration: 3, ..run };
    assert!(matches!(f.before_step(&spent, true, "back"), Err((r, "back")) if r.status == 508));
}

#[test]
fn completed_steps_advance_or_respond() {
    let f = router(vec![
        step("first", vec![on_status(&[503], "second")]),
        step("second", vec![by_default(None, true)]),
    ]);
    let StepChoice::Advance(next, "step") = f.step_completed(run(&f, "POST"), outcome(503, b""), 503, completion()) else {
        panic!("should advance");
    };
    assert_eq!(next.previous_response.as_ref().map(|r| r.status), Some(503));
    assert_eq!((next.iteration, next.current_step.as_str()), (1, "second"));
    assert_eq!((next.request.method.as_str(), next.request.uri.as_str()), ("POST", "/v1"));
    assert!(next.request.headers.lines.is_empty(), "later steps do not see the client's headers");
    assert_eq!(next.request.body, b"body");
    let t = responded(f.step_completed(next, outcome(200, b"done"), 200, completion()));
    assert_eq!((t.status, t.body.as_deref()), (200, Some(&b"done"[..])));

    let StepChoice::Advance(next, "step") = f.step_completed(
        run(&f, "POST"),
        outcome(503, b""),
        503,
        StepCompletion {
            next_body: Some(b"new".to_vec()),
            ..completion()
        },
    ) else {
        panic!("should advance");
    };
    assert_eq!(next.request.body, b"new");
}

#[test]
fn head_responses_keep_their_length() {
    let f = router(vec![]);
    let mut o = outcome(200, b"");
    o.response.headers.append("content-length", b"42".to_vec());
    let t = responded(f.step_completed(run(&f, "HEAD"), o, 200, completion()));
    assert_eq!(t.headers.first("content-length").unwrap(), b"42");
}

#[test]
fn retained_state_is_bounded() {
    let f = router(vec![step("first", vec![on_status(&[503], "second")])]);
    let over = StepCompletion {
        retained: 51,
        ..completion()
    };
    assert!(matches!(
        f.step_completed(run(&f, "GET"), outcome(200, b""), 200, over),
        StepChoice::Reject(r, "step") if r.status == 413
    ));
    let emitted = StepCompletion {
        retained: 48,
        pending: vec![b"abc".to_vec()],
        ..completion()
    };
    assert!(matches!(
        f.step_completed(run(&f, "GET"), outcome(503, b""), 503, emitted),
        StepChoice::Reject(r, "step") if r.status == 413
    ));
    assert!(matches!(
        f.stream_skipped(run(&f, "GET"), "x".to_owned(), 51, None, "step"),
        Err((r, "step")) if r.status == 413
    ));
}

#[test]
fn held_output_needs_a_stream() {
    let f = router(vec![step("first", vec![on_status(&[503], "second")])]);
    let emitting = || StepCompletion {
        pending: vec![b"abc".to_vec()],
        ..completion()
    };
    let StepChoice::Advance(held, "step") = f.step_completed(run(&f, "GET"), outcome(503, b""), 503, emitting()) else {
        panic!("should advance");
    };
    assert_eq!(held.pending_bytes, 3);
    assert_eq!(
        failed(f.step_completed(held, outcome(200, b""), 200, completion())),
        "iterative_request_router: stream chunks were emitted without a streaming response"
    );

    let handled = |pending: &[u8]| StepCompletion {
        abnormal: Some(true),
        pending: vec![pending.to_vec()],
        ..completion()
    };
    let StepChoice::Advance(held, "step") = f.step_completed(run(&f, "GET"), outcome(503, b""), 503, emitting()) else {
        panic!("should advance");
    };
    let t = responded(f.step_completed(held, outcome(200, b"ghi"), 200, handled(b"def")));
    assert_eq!(t.body.unwrap(), b"abcdefghi");
    assert_eq!(
        failed(f.step_completed(run(&f, "GET"), outcome(200, &[0; 98]), 200, handled(b"def"))),
        "iterative_request_router: abnormal completion exceeds response body limit"
    );
    let unhandled = StepCompletion {
        abnormal: Some(false),
        pending: vec![b"abc".to_vec()],
        ..completion()
    };
    let t = responded(f.step_completed(run(&f, "GET"), outcome(200, b"x"), 200, unhandled));
    assert!(t.body.is_none(), "a broken stream's output is dropped");
}

#[test]
fn streams_fail_over_or_commit() {
    let f = router(vec![step("first", vec![on_status(&[503], "second")])]);
    assert!(matches!(
        f.stream_opened(&run(&f, "GET"), &outcome(503, b""), opened(None)),
        StreamChoice::FailOver(s, kept) if s == "second" && kept.next_body.is_some()
    ));
    assert!(matches!(
        f.stream_opened(&run(&f, "GET"), &outcome(200, b""), opened(None)),
        StreamChoice::Fail(e, "request") if e.text() == "iterative_request_router: iteration state missing before stream handoff"
    ));
    let StreamChoice::Stream(kept) = f.stream_opened(&run(&f, "GET"), &outcome(200, b""), opened(Some(50))) else {
        panic!("should stream");
    };
    assert_eq!(kept.iteration, Some(50));
    assert_eq!(strip_iteration_extensions(kept), "request");
    assert!(matches!(
        f.stream_opened(&run(&f, "GET"), &outcome(200, b""), opened(Some(51))),
        StreamChoice::Reject(r, "request") if r.status == 413
    ));
    let (next, handed) = f
        .stream_skipped(run(&f, "GET"), "second".to_owned(), 50, None, "step")
        .unwrap_or_else(|_| panic!("should move on"));
    assert_eq!((next.iteration, next.current_step.as_str()), (1, "second"));
    assert!(next.previous_response.is_none());
    assert_eq!(handed, "step");

    let interleaved = router(vec![StepConfig {
        pipeline: Ok(PipelineFacts {
            may_stream: false,
            ..facts()
        }),
        ..step("first", vec![by_default(None, true), on_status(&[503], "x")])
    }]);
    assert!(matches!(
        interleaved.stream_opened(&run(&interleaved, "GET"), &outcome(503, b""), opened(Some(0))),
        StreamChoice::Fail(e, "request")
            if e.text() == "iterative_request_router: step 'first' selected streaming with interleaved transition phases"
    ));
}

#[test]
fn steps_run_up_to_the_bound() {
    let f = router(vec![step("first", vec![by_default(Some("first"), false)])]);
    let Start::Run(mut run, mut handed) = f.start(request("GET"), BodyMode::Stream, true, 0, 0) else {
        panic!("should start");
    };
    let mut steps = 0;
    let (rejection, back) = loop {
        if let Err(refused) = f.before_step(&run, false, handed) {
            break refused;
        }
        steps += 1;
        let left = StepCompletion {
            retained: 0,
            abnormal: None,
            pending: Vec::new(),
            next_body: None,
            results: Vec::new(),
            extensions: steps,
        };
        match f.step_completed(run, outcome(200, b""), 200, left) {
            StepChoice::Advance(next, extensions) => {
                run = next;
                handed = extensions;
            }
            _ => panic!("should advance"),
        }
    };
    assert_eq!((steps, rejection.status), (3, 508));
    assert_eq!(back, 3, "the last step's extensions go back");
}

#[test]
fn files_of_all_steps_are_watched() {
    let with_files = |name: &str, files: &[&str]| StepConfig {
        pipeline: Ok(PipelineFacts {
            referenced_files: files.iter().map(|f| (*f).to_owned()).collect(),
            ..facts()
        }),
        ..step(name, vec![])
    };
    let f = router(vec![
        with_files("a", &["replaced"]),
        with_files("b", &["x", "y"]),
        with_files("a", &["z"]),
    ]);
    assert_eq!(f.referenced_files(), ["x", "y", "z"]);
    assert!(router(vec![]).referenced_files().is_empty());
}
