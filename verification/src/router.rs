//! Iterative request router: the rules that decide, after each sub-request,
//! whether another step runs and what the client finally receives.

use vstd::prelude::*;

use crate::actions::final_status;
use crate::actions::Rejection;
use crate::actions::TerminalResponse;
use crate::body::BodyAccess;
use crate::body::BodyMode;
use crate::error::FilterError;
use crate::headers::clone_bytes;
use crate::headers::first_value;
use crate::headers::law_absent_header;
use crate::headers::lemma_keep_all;
use crate::headers::line_view;
use crate::headers::opt_value_text;
use crate::headers::parse_header_value;
use crate::headers::valid_value;
use crate::headers::value_char;
use crate::headers::value_text;
use crate::headers::without_name;
use crate::headers::HeaderLine;
use crate::headers::HeaderMap;
use crate::text::chars_of;
use crate::text::concat3;
use crate::text::concat5;
use crate::text::decimal;
use crate::text::decimal_digits;
use crate::text::digit_char;
use crate::text::join;
use crate::text::joined;
use crate::text::same_text;
use crate::text::texts;

verus! {

/// Where a step's response came from, as the configuration numbers it.
#[derive(Clone, Copy, Debug, PartialEq, Eq, Structural)]
pub struct ResponseOrigin {
    /// The origin's number.
    pub code: u8,
}

/// The class of a transport failure, as the configuration numbers it.
#[derive(Clone, Copy, Debug, PartialEq, Eq, Structural)]
pub struct TransportErrorKind {
    /// The failure class's number.
    pub code: u8,
}

/// A rule that says what follows a step.
pub struct StepTransition {
    /// The step that runs next.
    pub next: Option<String>,
    /// Whether the current response is returned.
    pub done: bool,
    /// Whether the rule matches whatever the outcome.
    pub default: bool,
    /// Filter whose result is compared.
    pub filter: Option<String>,
    /// Result key that is compared.
    pub key: Option<String>,
    /// Result value that is expected.
    pub value: Option<String>,
    /// Statuses that match.
    pub status: Option<Vec<u16>>,
    /// Origin that matches.
    pub origin: Option<ResponseOrigin>,
    /// Transport failure that matches.
    pub transport_error: Option<TransportErrorKind>,
}

/// A sub-request.
pub struct SubRequest {
    /// Method.
    pub method: String,
    /// Request target.
    pub uri: String,
    /// Headers.
    pub headers: HeaderMap,
    /// Body.
    pub body: Vec<u8>,
}

/// A sub-request's response.
pub struct SubResponse {
    /// Status.
    pub status: u16,
    /// Headers.
    pub headers: HeaderMap,
    /// Body.
    pub body: Vec<u8>,
}

/// A step's response and where it came from.
pub struct StepOutcome {
    /// The response.
    pub response: SubResponse,
    /// Its origin.
    pub origin: ResponseOrigin,
    /// The transport failure behind it, if any.
    pub transport_error: Option<TransportErrorKind>,
}

/// A result that a filter recorded: one value under one key.
pub struct FilterResult {
    /// The filter.
    pub filter: String,
    /// The key.
    pub key: String,
    /// The value.
    pub value: String,
}

/// What the transition rules say.
pub enum TransitionResult {
    /// Return the current response.
    Done,
    /// Run the named step.
    Next(String),
    /// No rule matched.
    NoMatch,
}

// Transition rules.

/// Whether a rule depends on results that exist only once the body is complete.
pub open spec fn body_dependent(t: StepTransition) -> bool {
    t.filter is Some || t.key is Some || t.value is Some
}

/// Whether a rule can fail over before any byte of a streamed body is exposed.
pub open spec fn header_safe(t: StepTransition) -> bool {
    t.next is Some && !t.default && !body_dependent(t)
}

/// Whether some rule depends on the response body.
pub fn has_body_dependent_transitions(transitions: &Vec<StepTransition>) -> (r: bool)
    ensures
        r <==> exists|i: int|
            0 <= i < transitions@.len() && body_dependent(#[trigger] transitions@[i]),
{
    let mut i: usize = 0;
    while i < transitions.len()
        invariant
            i <= transitions@.len(),
            forall|k: int| 0 <= k < i ==> !body_dependent(#[trigger] transitions@[k]),
        decreases transitions@.len() - i,
    {
        let t = &transitions[i];
        if t.filter.is_some() || t.key.is_some() || t.value.is_some() {
            proof {
                assert(body_dependent(transitions@[i as int]));
            }
            return true;
        }
        i += 1;
    }
    false
}

/// Whether a rule can fail over before any byte of a streamed body is exposed.
pub fn is_header_safe_failover(transition: &StepTransition) -> (r: bool)
    ensures
        r == header_safe(*transition),
{
    transition.next.is_some() && !transition.default && transition.filter.is_none()
        && transition.key.is_none() && transition.value.is_none()
}

/// Whether no header-safe rule comes after one that needs completion.
pub open spec fn streaming_order(transitions: Seq<StepTransition>) -> bool {
    forall|i: int, j: int|
        0 <= i < j < transitions.len() && header_safe(#[trigger] transitions[j]) ==> header_safe(
            #[trigger] transitions[i],
        )
}

/// Whether the header-safe rules are a prefix of the list.
pub fn streaming_transition_order_is_valid(transitions: &Vec<StepTransition>) -> (r: bool)
    ensures
        r == streaming_order(transitions@),
{
    let mut completion_seen: bool = false;
    let mut i: usize = 0;
    while i < transitions.len()
        invariant
            i <= transitions@.len(),
            streaming_order(transitions@.take(i as int)),
            !completion_seen ==> forall|k: int|
                0 <= k < i ==> header_safe(#[trigger] transitions@[k]),
            completion_seen ==> exists|k: int|
                0 <= k < i && !header_safe(#[trigger] transitions@[k]),
        decreases transitions@.len() - i,
    {
        if is_header_safe_failover(&transitions[i]) {
            if completion_seen {
                return false;
            }
        } else {
            completion_seen = true;
        }
        i += 1;
    }
    proof {
        assert(transitions@.take(transitions@.len() as int) =~= transitions@);
    }
    true
}

/// Whether the results hold this filter, key and value.
pub open spec fn has_result(
    results: Seq<FilterResult>,
    filter: Seq<char>,
    key: Seq<char>,
    value: Seq<char>,
) -> bool {
    exists|i: int|
        0 <= i < results.len() && (#[trigger] results[i]).filter@ == filter && results[i].key@
            == key && results[i].value@ == value
}

/// Whether the results hold this filter, key and value.
pub fn matches_filter_result(
    results: &Vec<FilterResult>,
    filter: &str,
    key: &str,
    value: &str,
) -> (r: bool)
    ensures
        r == has_result(results@, filter@, key@, value@),
{
    let mut i: usize = 0;
    while i < results.len()
        invariant
            i <= results@.len(),
            forall|k: int|
                0 <= k < i ==> !((#[trigger] results@[k]).filter@ == filter@ && results@[k].key@
                    == key@ && results@[k].value@ == value@),
        decreases results@.len() - i,
    {
        let entry = &results[i];
        if same_text(entry.filter.as_str(), filter) && same_text(entry.key.as_str(), key)
            && same_text(entry.value.as_str(), value) {
            proof {
                assert(results@[i as int].filter@ == filter@);
            }
            return true;
        }
        i += 1;
    }
    false
}

/// Whether every predicate that a rule names holds. A rule that names only
/// part of a filter result never matches.
pub open spec fn rule_matches(
    t: StepTransition,
    outcome: StepOutcome,
    results: Seq<FilterResult>,
) -> bool {
    &&& t.status matches Some(codes) ==> codes@.contains(outcome.response.status)
    &&& t.origin matches Some(expected) ==> outcome.origin == expected
    &&& t.transport_error matches Some(expected) ==> outcome.transport_error == Some(expected)
    &&& match (t.filter, t.key, t.value) {
        (Some(filter), Some(key), Some(value)) => has_result(results, filter@, key@, value@),
        (None, None, None) => true,
        _ => false,
    }
}

/// Whether `code` is among `codes`.
fn contains_status(codes: &Vec<u16>, code: u16) -> (r: bool)
    ensures
        r == codes@.contains(code),
{
    let mut i: usize = 0;
    while i < codes.len()
        invariant
            i <= codes@.len(),
            forall|k: int| 0 <= k < i ==> codes@[k] != code,
        decreases codes@.len() - i,
    {
        if codes[i] == code {
            return true;
        }
        i += 1;
    }
    false
}

/// Whether a rule matches an outcome and the recorded results.
pub fn matches_transition(
    transition: &StepTransition,
    outcome: &StepOutcome,
    results: &Vec<FilterResult>,
) -> (r: bool)
    ensures
        r == rule_matches(*transition, *outcome, results@),
{
    let status_ok = match &transition.status {
        Some(codes) => contains_status(codes, outcome.response.status),
        None => true,
    };
    let origin_ok = match transition.origin {
        Some(expected) => expected == outcome.origin,
        None => true,
    };
    let transport_ok = match transition.transport_error {
        Some(expected) => match outcome.transport_error {
            Some(actual) => actual == expected,
            None => false,
        },
        None => true,
    };
    let result_ok = match (&transition.filter, &transition.key, &transition.value) {
        (Some(filter), Some(key), Some(value)) => matches_filter_result(
            results,
            filter.as_str(),
            key.as_str(),
            value.as_str(),
        ),
        (None, None, None) => true,
        _ => false,
    };
    status_ok && origin_ok && transport_ok && result_ok
}

/// What a rule that matched says: an explicit end wins over a next step.
pub open spec fn rule_result(t: StepTransition) -> Option<Seq<char>> {
    if t.done {
        None
    } else {
        match t.next {
            Some(next) => Some(next@),
            None => None,
        }
    }
}

/// The first rule that applies, if any.
pub open spec fn first_rule(
    transitions: Seq<StepTransition>,
    outcome: StepOutcome,
    results: Seq<FilterResult>,
) -> Option<StepTransition>
    decreases transitions.len(),
{
    if transitions.len() == 0 {
        None
    } else if transitions[0].default || rule_matches(transitions[0], outcome, results) {
        Some(transitions[0])
    } else {
        first_rule(transitions.skip(1), outcome, results)
    }
}

/// Whether `r` is what the rules say: the first rule that applies decides.
pub open spec fn is_transition(
    r: TransitionResult,
    transitions: Seq<StepTransition>,
    outcome: StepOutcome,
    results: Seq<FilterResult>,
) -> bool {
    match first_rule(transitions, outcome, results) {
        None => r is NoMatch,
        Some(t) => match rule_result(t) {
            None => r is Done,
            Some(next) => r matches TransitionResult::Next(step) && step@ == next,
        },
    }
}

/// Evaluates the rules in order against an outcome.
pub fn evaluate_transitions(
    transitions: &Vec<StepTransition>,
    outcome: &StepOutcome,
    results: &Vec<FilterResult>,
) -> (r: TransitionResult)
    ensures
        is_transition(r, transitions@, *outcome, results@),
{
    let mut i: usize = 0;
    proof {
        assert(transitions@.skip(0) =~= transitions@);
    }
    while i < transitions.len()
        invariant
            i <= transitions@.len(),
            first_rule(transitions@.skip(i as int), *outcome, results@) == first_rule(
                transitions@,
                *outcome,
                results@,
            ),
        decreases transitions@.len() - i,
    {
        let t = &transitions[i];
        proof {
            assert(transitions@.skip(i as int)[0] == transitions@[i as int]);
            assert(transitions@.skip(i as int).skip(1) =~= transitions@.skip(i + 1));
        }
        if t.default || matches_transition(t, outcome, results) {
            if t.done {
                return TransitionResult::Done;
            }
            return match &t.next {
                Some(next) => TransitionResult::Next(next.clone()),
                None => TransitionResult::Done,
            };
        }
        i += 1;
    }
    TransitionResult::NoMatch
}

/// The step that the header-safe prefix of the rules fails over to, if any.
pub open spec fn header_failover(
    transitions: Seq<StepTransition>,
    outcome: StepOutcome,
) -> Option<Seq<char>>
    decreases transitions.len(),
{
    if transitions.len() == 0 || !header_safe(transitions[0]) {
        None
    } else if rule_matches(transitions[0], outcome, Seq::empty()) {
        Some(transitions[0].next->0@)
    } else {
        header_failover(transitions.skip(1), outcome)
    }
}

/// Evaluates the header-safe prefix of the rules.
pub fn evaluate_header_transitions(
    transitions: &Vec<StepTransition>,
    outcome: &StepOutcome,
) -> (r: TransitionResult)
    ensures
        r !is Done,
        r matches TransitionResult::Next(step) ==> header_failover(transitions@, *outcome) == Some(
            step@,
        ),
        r is NoMatch ==> header_failover(transitions@, *outcome) is None,
{
    let none: Vec<FilterResult> = Vec::new();
    let mut i: usize = 0;
    proof {
        assert(transitions@.skip(0) =~= transitions@);
    }
    while i < transitions.len()
        invariant
            i <= transitions@.len(),
            none@ == Seq::<FilterResult>::empty(),
            header_failover(transitions@.skip(i as int), *outcome) == header_failover(
                transitions@,
                *outcome,
            ),
        decreases transitions@.len() - i,
    {
        let t = &transitions[i];
        proof {
            assert(transitions@.skip(i as int)[0] == transitions@[i as int]);
            assert(transitions@.skip(i as int).skip(1) =~= transitions@.skip(i + 1));
        }
        if !is_header_safe_failover(t) {
            return TransitionResult::NoMatch;
        }
        if matches_transition(t, outcome, &none) {
            if let Some(next) = &t.next {
                return TransitionResult::Next(next.clone());
            }
        }
        i += 1;
    }
    TransitionResult::NoMatch
}

proof fn lemma_safe_rule_ignores_results(
    t: StepTransition,
    outcome: StepOutcome,
    results: Seq<FilterResult>,
)
    requires
        header_safe(t),
    ensures
        rule_matches(t, outcome, results) == rule_matches(t, outcome, Seq::empty()),
{
}

/// A failover decided from the headers is the one that the whole list would
/// decide once the body is complete, unless the rule also ends the run.
pub proof fn law_header_failover_agrees(
    transitions: Seq<StepTransition>,
    outcome: StepOutcome,
    results: Seq<FilterResult>,
)
    requires
        header_failover(transitions, outcome) is Some,
    ensures
        first_rule(transitions, outcome, results) matches Some(t) && header_safe(t)
            && t.next->0@ == header_failover(transitions, outcome)->0,
    decreases transitions.len(),
{
    lemma_safe_rule_ignores_results(transitions[0], outcome, results);
    if !rule_matches(transitions[0], outcome, Seq::empty()) {
        law_header_failover_agrees(transitions.skip(1), outcome, results);
    }
}

/// In a valid order, when no failover is decided from the headers, no
/// header-safe rule of the list matches the outcome at all.
pub proof fn law_valid_order_misses_no_failover(
    transitions: Seq<StepTransition>,
    outcome: StepOutcome,
    results: Seq<FilterResult>,
    i: int,
)
    requires
        streaming_order(transitions),
        header_failover(transitions, outcome) is None,
        0 <= i < transitions.len(),
        header_safe(transitions[i]),
    ensures
        !rule_matches(transitions[i], outcome, results),
    decreases transitions.len(),
{
    lemma_safe_rule_ignores_results(transitions[i], outcome, results);
    if i > 0 {
        assert(header_safe(transitions[0]));
        let rest = transitions.skip(1);
        assert(rest[i - 1] == transitions[i]);
        assert(streaming_order(rest)) by {
            assert forall|a: int, b: int|
                0 <= a < b < rest.len() && header_safe(#[trigger] rest[b]) implies header_safe(
                #[trigger] rest[a],
            ) by {
                assert(rest[a] == transitions[a + 1]);
                assert(rest[b] == transitions[b + 1]);
            }
        }
        law_valid_order_misses_no_failover(rest, outcome, results, i - 1);
    }
}

// Requests and responses.

/// The number that a text of ASCII digits denotes.
pub open spec fn digits_value(digits: Seq<char>) -> nat
    decreases digits.len(),
{
    if digits.len() == 0 {
        0
    } else {
        digits_value(digits.drop_last()) * 10 + (digits.last() as nat - 48) as nat
    }
}

/// A non-empty text of ASCII digits.
pub open spec fn all_digits(s: Seq<char>) -> bool {
    s.len() > 0 && forall|i: int| 0 <= i < s.len() ==> '0' <= #[trigger] s[i] <= '9'
}

/// The number below 256 that a text denotes in decimal, with an optional plus
/// sign before the digits.
pub open spec fn parsed_u8(s: Seq<char>) -> Option<u8> {
    let digits = if s.len() > 0 && s[0] == '+' {
        s.skip(1)
    } else {
        s
    };
    if all_digits(digits) && digits_value(digits) <= 255 {
        Some(digits_value(digits) as u8)
    } else {
        None
    }
}

/// Reads a number below 256.
pub fn parse_u8(s: &str) -> (r: Option<u8>)
    ensures
        r == parsed_u8(s@),
{
    let text = chars_of(s);
    let from: usize = if text.len() > 0 && text[0] == '+' {
        1
    } else {
        0
    };
    let ghost digits = text@.skip(from as int);
    proof {
        assert(from == 0 ==> digits =~= s@);
        assert(digits.take(0) =~= Seq::empty());
    }
    if from >= text.len() {
        return None;
    }
    let mut value: u32 = 0;
    let mut i: usize = from;
    while i < text.len()
        invariant
            from <= i <= text@.len(),
            digits == text@.skip(from as int),
            digits == (if s@.len() > 0 && s@[0] == '+' {
                s@.skip(1)
            } else {
                s@
            }),
            forall|k: int| 0 <= k < i - from ==> '0' <= #[trigger] digits[k] <= '9',
            value <= 256,
            value < 256 ==> value == digits_value(digits.take(i - from)),
            value == 256 ==> digits_value(digits.take(i - from)) >= 256,
        decreases text@.len() - i,
    {
        let c: char = text[i];
        proof {
            assert(digits[i - from] == c);
            assert(digits.take(i - from + 1).drop_last() =~= digits.take(i - from));
            assert(digits.take(i - from + 1).last() == c);
        }
        if !('0' <= c && c <= '9') {
            proof {
                assert(!('0' <= digits[i - from] <= '9'));
                assert(!all_digits(digits));
            }
            return None;
        }
        let d: u32 = c as u32 - 48;
        value = if value * 10 + d > 255 {
            256
        } else {
            value * 10 + d
        };
        i += 1;
    }
    proof {
        assert(digits.take(text@.len() - from) =~= digits);
    }
    if value <= 255 {
        Some(value as u8)
    } else {
        None
    }
}

/// The nesting depth that a header value carries; zero where it carries none.
pub open spec fn depth_of(value: Option<Seq<u8>>) -> u8 {
    match opt_value_text(value) {
        Some(text) => match parsed_u8(text) {
            Some(depth) => depth,
            None => 0,
        },
        None => 0,
    }
}

/// The nesting depth in a request's `depth_header`, which is given in lower case.
pub fn parse_depth(headers: &HeaderMap, depth_header: &str) -> (r: u8)
    ensures
        r == depth_of(first_value(headers@, depth_header@)),
{
    match headers.first_text(depth_header) {
        Some(text) => match parse_u8(text.as_str()) {
            Some(depth) => depth,
            None => 0,
        },
        None => 0,
    }
}

/// The limit a body mode sets, if any.
pub open spec fn mode_limit(mode: BodyMode) -> Option<usize> {
    match mode {
        BodyMode::SizeLimit { max_bytes } => Some(max_bytes),
        BodyMode::StreamBuffer { max_bytes } => max_bytes,
        BodyMode::Stream => None,
    }
}

/// The smaller of a limit and the one a body mode sets.
pub open spec fn limited(configured: usize, mode: BodyMode) -> usize {
    match mode_limit(mode) {
        Some(limit) => if limit < configured {
            limit
        } else {
            configured
        },
        None => configured,
    }
}

/// The router's response limit, clamped to the limit of the parent's body mode.
pub fn effective_response_limit(configured: usize, parent_mode: BodyMode) -> (r: usize)
    ensures
        r == limited(configured, parent_mode),
{
    match parent_mode {
        BodyMode::SizeLimit { max_bytes } => if max_bytes < configured {
            max_bytes
        } else {
            configured
        },
        BodyMode::StreamBuffer { max_bytes: Some(max_bytes) } => if max_bytes < configured {
            max_bytes
        } else {
            configured
        },
        _ => configured,
    }
}

proof fn lemma_decimal_is_value(n: nat)
    ensures
        valid_value(decimal_digits(n)),
    decreases n,
{
    assert(value_char(digit_char(n % 10)));
    if n >= 10 {
        lemma_decimal_is_value(n / 10);
        let rest = decimal_digits(n / 10);
        assert forall|i: int| 0 <= i < decimal_digits(n).len() implies value_char(
            #[trigger] decimal_digits(n)[i],
        ) by {
            if i < rest.len() {
                assert(decimal_digits(n)[i] == rest[i]);
            }
        }
    }
}

/// Whether a header line of a sub-response goes to the client. Transfer coding
/// never does; the length does only for a response to `HEAD`.
pub open spec fn forwarded_line(name: Seq<char>, preserve_content_length: bool) -> bool {
    &&& !(name == "content-length"@ && !preserve_content_length)
    &&& name != "transfer-encoding"@
}

/// The header lines of a sub-response that go to the client.
pub open spec fn forwarded_lines(
    lines: Seq<(Seq<char>, Seq<u8>)>,
    preserve_content_length: bool,
) -> Seq<(Seq<char>, Seq<u8>)>
    decreases lines.len(),
{
    if lines.len() == 0 {
        Seq::empty()
    } else if forwarded_line(lines.last().0, preserve_content_length) {
        forwarded_lines(lines.drop_last(), preserve_content_length).push(lines.last())
    } else {
        forwarded_lines(lines.drop_last(), preserve_content_length)
    }
}

/// The headers of a terminal response: those of the sub-response, and the
/// actual length of a body that may have one.
pub open spec fn terminal_headers(
    lines: Seq<(Seq<char>, Seq<u8>)>,
    body_len: nat,
    status: u16,
    preserve_content_length: bool,
) -> Seq<(Seq<char>, Seq<u8>)> {
    let kept = forwarded_lines(lines, preserve_content_length);
    if !preserve_content_length && status != 204 && status != 304 {
        without_name(kept, "content-length"@).push(
            ("content-length"@, vstd::utf8::encode_utf8(decimal_digits(body_len))),
        )
    } else {
        kept
    }
}

/// Whether `r` carries a sub-response with this status, header list and body.
pub open spec fn is_terminal(
    r: TerminalResponse,
    lines: Seq<(Seq<char>, Seq<u8>)>,
    body: Seq<u8>,
    status: u16,
    preserve_content_length: bool,
) -> bool {
    &&& r.status == status
    &&& r.headers@ == terminal_headers(lines, body.len(), status, preserve_content_length)
    &&& body.len() == 0 ==> r.body is None
    &&& body.len() > 0 ==> r.body is Some && r.body->0@ == body
}

proof fn lemma_forwarded_filter(
    lines: Seq<(Seq<char>, Seq<u8>)>,
    preserve_content_length: bool,
    keep: spec_fn((Seq<char>, Seq<u8>)) -> bool,
)
    requires
        forall|l: (Seq<char>, Seq<u8>)| #[trigger]
            keep(l) ==> forwarded_line(l.0, preserve_content_length),
    ensures
        forwarded_lines(lines, preserve_content_length).filter(keep) == lines.filter(keep),
    decreases lines.len(),
{
    reveal(Seq::filter);
    if lines.len() > 0 {
        let front = forwarded_lines(lines.drop_last(), preserve_content_length);
        lemma_forwarded_filter(lines.drop_last(), preserve_content_length, keep);
        assert(front.push(lines.last()).drop_last() =~= front);
    }
}

proof fn lemma_forwarded_names(lines: Seq<(Seq<char>, Seq<u8>)>, preserve_content_length: bool)
    ensures
        forall|i: int|
            0 <= i < forwarded_lines(lines, preserve_content_length).len() ==> (
            #[trigger] forwarded_lines(lines, preserve_content_length)[i]).0
                != "transfer-encoding"@,
        !preserve_content_length ==> forall|i: int|
            0 <= i < forwarded_lines(lines, preserve_content_length).len() ==> (
            #[trigger] forwarded_lines(lines, preserve_content_length)[i]).0 != "content-length"@,
    decreases lines.len(),
{
    if lines.len() > 0 {
        lemma_forwarded_names(lines.drop_last(), preserve_content_length);
        let kept = forwarded_lines(lines, preserve_content_length);
        let front = forwarded_lines(lines.drop_last(), preserve_content_length);
        assert forall|i: int| 0 <= i < kept.len() implies forwarded_line(
            (#[trigger] kept[i]).0,
            preserve_content_length,
        ) by {
            if i < front.len() {
                assert(kept[i] == front[i]);
            }
        }
    }
}

/// Every header line of a sub-response but those of its framing reaches the
/// client, with its value and in its place among the others, and no line is
/// added to them. Transfer coding never passes. The length is the
/// sub-response's own where it is preserved; else it is that of the actual
/// body, on one line at the end, or absent from a response that has no body by
/// its status.
pub proof fn law_headers_passed_on(
    lines: Seq<(Seq<char>, Seq<u8>)>,
    body_len: nat,
    status: u16,
    preserve_content_length: bool,
)
    ensures
        ({
            let out = terminal_headers(lines, body_len, status, preserve_content_length);
            let other = |l: (Seq<char>, Seq<u8>)|
                l.0 != "content-length"@ && l.0 != "transfer-encoding"@;
            &&& forall|i: int|
                0 <= i < lines.len() && (#[trigger] lines[i]).0 != "content-length"@ && lines[i].0
                    != "transfer-encoding"@ ==> out.contains(lines[i])
            &&& out.filter(other) == lines.filter(other)
            &&& forall|i: int| 0 <= i < out.len() ==> (#[trigger] out[i]).0 != "transfer-encoding"@
            &&& preserve_content_length ==> out == lines.filter(
                |l: (Seq<char>, Seq<u8>)| l.0 != "transfer-encoding"@,
            )
            &&& !preserve_content_length && (status == 204 || status == 304) ==> out
                == lines.filter(other)
            &&& !preserve_content_length && status != 204 && status != 304 ==> out
                == lines.filter(other).push(
                ("content-length"@, vstd::utf8::encode_utf8(decimal_digits(body_len))),
            )
        }),
{
    broadcast use vstd::seq_lib::group_filter_ensures;

    let out = terminal_headers(lines, body_len, status, preserve_content_length);
    let kept = forwarded_lines(lines, preserve_content_length);
    let other = |l: (Seq<char>, Seq<u8>)|
        l.0 != "content-length"@ && l.0 != "transfer-encoding"@;
    lemma_forwarded_names(lines, preserve_content_length);
    lemma_forwarded_filter(lines, preserve_content_length, other);
    if preserve_content_length {
        let coded = |l: (Seq<char>, Seq<u8>)| l.0 != "transfer-encoding"@;
        lemma_forwarded_filter(lines, preserve_content_length, coded);
        lemma_keep_all(kept, coded);
    } else {
        lemma_keep_all(kept, other);
        if status != 204 && status != 304 {
            law_absent_header(kept, "content-length"@);
            reveal(Seq::filter);
            assert(out.drop_last() =~= kept);
        }
    }
    reveal_strlit("content-length");
    reveal_strlit("transfer-encoding");
    assert("content-length"@.len() != "transfer-encoding"@.len());
    assert forall|i: int|
        0 <= i < lines.len() && (#[trigger] lines[i]).0 != "content-length"@ && lines[i].0
            != "transfer-encoding"@ implies out.contains(lines[i]) by {
        assert(lines.contains(lines[i]) && other(lines[i]));
        assert(lines.filter(other).contains(lines[i]));
        assert(out.filter(other).contains(lines[i]));
    }
}

/// A terminal response carrying a sub-response under its normalized status.
pub fn build_terminal_response(
    response: &SubResponse,
    status: u16,
    preserve_content_length: bool,
) -> (r: TerminalResponse)
    requires
        final_status(status),
    ensures
        is_terminal(
            r,
            response.headers@,
            response.body@,
            status,
            preserve_content_length,
        ),
{
    let mut headers = HeaderMap::new();
    let lines = &response.headers.lines;
    let mut i: usize = 0;
    proof {
        assert(response.headers@.take(0) =~= Seq::empty());
    }
    while i < lines.len()
        invariant
            lines@ == response.headers.lines@,
            i <= lines@.len(),
            headers@ == forwarded_lines(response.headers@.take(i as int), preserve_content_length),
        decreases lines@.len() - i,
    {
        let name = &lines[i].name;
        proof {
            let all = response.headers@;
            assert(all.take(i + 1).drop_last() =~= all.take(i as int));
            assert(all.take(i + 1).last() == line_view(lines@[i as int]));
        }
        let dropped = (same_text(name.as_str(), "content-length") && !preserve_content_length)
            || same_text(name.as_str(), "transfer-encoding");
        if !dropped {
            let ghost before = headers@;
            headers.lines.push(
                HeaderLine { name: name.clone(), value: clone_bytes(&lines[i].value) },
            );
            proof {
                assert(headers@ =~= before.push(line_view(lines@[i as int])));
            }
        }
        i += 1;
    }
    proof {
        assert(response.headers@.take(lines@.len() as int) =~= response.headers@);
    }
    if !preserve_content_length && status != 204 && status != 304 {
        let length = decimal(response.body.len() as u64);
        proof {
            lemma_decimal_is_value(response.body@.len());
            reveal_strlit("content-length");
            assert(crate::text::lower("content-length"@) =~= "content-length"@);
        }
        if let Some(value) = parse_header_value(length.as_str()) {
            headers.insert("content-length", value);
        }
    }
    let terminal = TerminalResponse::new(status).with_headers(headers);
    if response.body.len() > 0 {
        terminal.with_body(clone_bytes(&response.body))
    } else {
        terminal
    }
}

/// The chunks, as values.
pub open spec fn chunk_views(chunks: Seq<Vec<u8>>) -> Seq<Seq<u8>> {
    chunks.map_values(|c: Vec<u8>| c@)
}

/// The chunks one after another.
pub open spec fn flat(chunks: Seq<Seq<u8>>) -> Seq<u8>
    decreases chunks.len(),
{
    if chunks.len() == 0 {
        Seq::empty()
    } else {
        flat(chunks.drop_last()) + chunks.last()
    }
}

/// The bytes in the chunks together.
pub open spec fn total_len(chunks: Seq<Seq<u8>>) -> nat {
    flat(chunks).len()
}

proof fn lemma_flat_step(chunks: Seq<Seq<u8>>, i: int)
    requires
        0 <= i < chunks.len(),
    ensures
        flat(chunks.take(i + 1)) == flat(chunks.take(i)) + chunks[i],
{
    assert(chunks.take(i + 1).drop_last() =~= chunks.take(i));
}

proof fn lemma_flat_prefix(chunks: Seq<Seq<u8>>, i: int)
    requires
        0 <= i <= chunks.len(),
    ensures
        total_len(chunks.take(i)) <= total_len(chunks),
    decreases chunks.len() - i,
{
    if i < chunks.len() {
        lemma_flat_step(chunks, i);
        lemma_flat_prefix(chunks, i + 1);
    } else {
        assert(chunks.take(i) =~= chunks);
    }
}

proof fn lemma_flat_concat(a: Seq<Seq<u8>>, b: Seq<Seq<u8>>)
    ensures
        flat(a + b) == flat(a) + flat(b),
    decreases b.len(),
{
    if b.len() == 0 {
        assert(a + b =~= a);
        assert(flat(a) + flat(b) =~= flat(a));
    } else {
        assert((a + b).drop_last() =~= a + b.drop_last());
        lemma_flat_concat(a, b.drop_last());
        assert(flat(a + b) =~= flat(a) + flat(b));
    }
}

/// `start` plus the bytes in the chunks, where that fits.
fn checked_total(start: usize, chunks: &Vec<Vec<u8>>) -> (r: Option<usize>)
    ensures
        r is Some <==> start + total_len(chunk_views(chunks@)) <= usize::MAX,
        r matches Some(n) ==> n == start + total_len(chunk_views(chunks@)),
{
    let ghost views = chunk_views(chunks@);
    let mut total: usize = start;
    let mut i: usize = 0;
    proof {
        assert(views.take(0) =~= Seq::empty());
    }
    while i < chunks.len()
        invariant
            views == chunk_views(chunks@),
            i <= chunks@.len(),
            total == start + total_len(views.take(i as int)),
        decreases chunks@.len() - i,
    {
        proof {
            lemma_flat_step(views, i as int);
            lemma_flat_prefix(views, i + 1);
        }
        match total.checked_add(chunks[i].len()) {
            Some(sum) => {
                total = sum;
            },
            None => {
                return None;
            },
        }
        i += 1;
    }
    proof {
        assert(views.take(views.len() as int) =~= views);
    }
    Some(total)
}

/// The message when pending bytes cannot be counted.
pub open spec fn pending_overflow_text() -> Seq<char> {
    "iterative_request_router: pending stream byte count overflow"@
}

/// The message when retained state and pending output exceed the bound.
pub open spec fn pending_limit_text() -> Seq<char> {
    "iterative_request_router: retained state and pending stream output exceed configured limit"@
}

/// Appends chunks that a step emitted, while retained state and pending output
/// together stay within `max_state_bytes`. Answers the new pending byte count.
pub fn append_pending_chunks(
    target: &mut Vec<Vec<u8>>,
    chunks: Vec<Vec<u8>>,
    current_bytes: usize,
    max_state_bytes: usize,
    retained_bytes: usize,
) -> (r: Result<usize, FilterError>)
    ensures
        ({
            let pending = current_bytes + total_len(chunk_views(chunks@));
            &&& r is Ok <==> retained_bytes + pending <= max_state_bytes
            &&& r matches Ok(n) ==> n == pending && final(target)@ == old(target)@ + chunks@
            &&& r matches Err(e) ==> final(target)@ == old(target)@ && e@ == if pending
                > usize::MAX {
                pending_overflow_text()
            } else {
                pending_limit_text()
            }
        }),
{
    let pending: usize = match checked_total(current_bytes, &chunks) {
        Some(n) => n,
        None => {
            return Err(
                FilterError::from_text(
                    "iterative_request_router: pending stream byte count overflow",
                ),
            );
        },
    };
    let fits = match retained_bytes.checked_add(pending) {
        Some(total) => total <= max_state_bytes,
        None => false,
    };
    if !fits {
        return Err(
            FilterError::from_text(
                "iterative_request_router: retained state and pending stream output exceed configured limit",
            ),
        );
    }
    let mut chunks = chunks;
    target.append(&mut chunks);
    Ok(pending)
}

// Construction.

/// What a step's filter pipeline can do, once it is built.
pub struct PipelineFacts {
    /// Mistakes in the order of the filters.
    pub ordering_errors: Vec<String>,
    /// Whether a filter may select a streaming sub-response.
    pub may_stream: bool,
    /// Whether the pipeline buffers the response body.
    pub buffers_response: bool,
    /// Files that its filters read, whose change calls for a reload.
    pub referenced_files: Vec<String>,
}

/// A named step: its pipeline, or why it could not be built, and its rules.
pub struct StepConfig {
    /// Step name.
    pub name: String,
    /// The pipeline's facts, or the build error.
    pub pipeline: Result<PipelineFacts, FilterError>,
    /// Transition rules.
    pub on_result: Vec<StepTransition>,
}

/// Router settings after the values themselves were checked.
pub struct RouterConfig {
    /// Name of the first step.
    pub initial_step: String,
    /// Iteration bound.
    pub max_iterations: u32,
    /// Response body bound per sub-request.
    pub max_response_bytes: usize,
    /// Bound on a logical streamed response.
    pub max_stream_response_bytes: Option<usize>,
    /// Bound on accumulated state.
    pub max_state_bytes: usize,
    /// Timeout per step, in milliseconds.
    pub step_timeout_ms: Option<u64>,
    /// Overall timeout, in milliseconds.
    pub timeout_ms: u64,
    /// The steps.
    pub steps: Vec<StepConfig>,
}

/// The error of a step whose pipeline was not built or is misordered.
pub open spec fn build_error(step: StepConfig) -> Option<Seq<char>> {
    match step.pipeline {
        Err(e) => Some(e@),
        Ok(facts) => if facts.ordering_errors@.len() > 0 {
            Some(
                "iterative_request_router: invalid step '"@ + step.name@ + "': "@ + joined(
                    texts(facts.ordering_errors@),
                    "; "@,
                ),
            )
        } else {
            None
        },
    }
}

/// The error of the first step that has one.
pub open spec fn first_build_error(steps: Seq<StepConfig>) -> Option<Seq<char>>
    decreases steps.len(),
{
    if steps.len() == 0 {
        None
    } else {
        match build_error(steps[0]) {
            Some(e) => Some(e),
            None => first_build_error(steps.skip(1)),
        }
    }
}

/// What is wrong with rule `i` of a step that may stream, if anything.
pub open spec fn rule_error(transitions: Seq<StepTransition>, i: int) -> Option<Seq<char>> {
    let t = transitions[i];
    if header_safe(t) && !streaming_order(transitions) {
        Some(": header-safe streaming failover rules must precede completion rules"@)
    } else if t.next is Some && t.filter is None && (t.key is Some || t.value is Some) {
        Some(": ambiguous streaming transition predicates"@)
    } else {
        None
    }
}

/// The error of the first faulty rule from `i` on.
pub open spec fn first_rule_error(
    name: Seq<char>,
    transitions: Seq<StepTransition>,
    i: int,
) -> Option<Seq<char>>
    decreases transitions.len() - i,
{
    if i < 0 || i >= transitions.len() {
        None
    } else {
        match rule_error(transitions, i) {
            Some(why) => Some(
                "iterative_request_router: step '"@ + name + "' transition "@ + decimal_digits(
                    i as nat,
                ) + why,
            ),
            None => first_rule_error(name, transitions, i + 1),
        }
    }
}

/// The error of a step whose pipeline may stream: a faulty rule, or a pipeline
/// that buffers the response it should stream.
pub open spec fn streaming_error(step: StepConfig) -> Option<Seq<char>> {
    match step.pipeline {
        Err(_) => None,
        Ok(facts) => if !facts.may_stream {
            None
        } else {
            match first_rule_error(step.name@, step.on_result@, 0) {
                Some(e) => Some(e),
                None => if facts.buffers_response {
                    Some(
                        "iterative_request_router: step '"@ + step.name@
                            + "': StreamBuffer response body mode is incompatible with streaming-capable pipelines"@,
                    )
                } else {
                    None
                },
            }
        },
    }
}

/// Whether no later step has the name of step `i`.
pub open spec fn last_of_name(steps: Seq<StepConfig>, i: int) -> bool {
    forall|j: int| i < j < steps.len() ==> (#[trigger] steps[j]).name@ != steps[i].name@
}

/// The streaming error of the first step from `i` on that has one. A step
/// that a later step of the same name replaces is not looked at.
pub open spec fn first_streaming_error(steps: Seq<StepConfig>, i: int) -> Option<Seq<char>>
    decreases steps.len() - i,
{
    if i < 0 || i >= steps.len() {
        None
    } else if last_of_name(steps, i) && streaming_error(steps[i]) is Some {
        streaming_error(steps[i])
    } else {
        first_streaming_error(steps, i + 1)
    }
}

/// Why a configuration is refused, if it is.
pub open spec fn config_error(cfg: RouterConfig, timeout_fits: bool) -> Option<Seq<char>> {
    if !timeout_fits {
        Some("iterative_request_router: timeout_ms exceeds the platform Instant range"@)
    } else {
        match first_build_error(cfg.steps@) {
            Some(e) => Some(e),
            None => first_streaming_error(cfg.steps@, 0),
        }
    }
}

fn check_build(step: &StepConfig) -> (r: Result<(), FilterError>)
    ensures
        r is Ok <==> build_error(*step) is None,
        r matches Err(e) ==> build_error(*step) == Some(e@),
{
    match &step.pipeline {
        Err(e) => Err(FilterError::new(e.text())),
        Ok(facts) => {
            if facts.ordering_errors.len() > 0 {
                let mut message = concat3(
                    "iterative_request_router: invalid step '",
                    step.name.as_str(),
                    "': ",
                );
                message.push_str(join(&facts.ordering_errors, "; ").as_str());
                return Err(FilterError::new(message));
            }
            Ok(())
        },
    }
}

fn check_rules(name: &str, transitions: &Vec<StepTransition>) -> (r: Result<(), FilterError>)
    ensures
        r is Ok <==> first_rule_error(name@, transitions@, 0) is None,
        r matches Err(e) ==> first_rule_error(name@, transitions@, 0) == Some(e@),
{
    let order_ok = streaming_transition_order_is_valid(transitions);
    let mut i: usize = 0;
    while i < transitions.len()
        invariant
            i <= transitions@.len(),
            order_ok == streaming_order(transitions@),
            first_rule_error(name@, transitions@, i as int) == first_rule_error(
                name@,
                transitions@,
                0,
            ),
        decreases transitions@.len() - i,
    {
        let t = &transitions[i];
        if is_header_safe_failover(t) && !order_ok {
            return Err(
                FilterError::new(
                    concat5(
                        "iterative_request_router: step '",
                        name,
                        "' transition ",
                        decimal(i as u64).as_str(),
                        ": header-safe streaming failover rules must precede completion rules",
                    ),
                ),
            );
        }
        if t.next.is_some() && t.filter.is_none() && (t.key.is_some() || t.value.is_some()) {
            return Err(
                FilterError::new(
                    concat5(
                        "iterative_request_router: step '",
                        name,
                        "' transition ",
                        decimal(i as u64).as_str(),
                        ": ambiguous streaming transition predicates",
                    ),
                ),
            );
        }
        i += 1;
    }
    Ok(())
}

fn check_streaming(step: &StepConfig) -> (r: Result<(), FilterError>)
    ensures
        r is Ok <==> streaming_error(*step) is None,
        r matches Err(e) ==> streaming_error(*step) == Some(e@),
{
    match &step.pipeline {
        Err(_) => Ok(()),
        Ok(facts) => {
            if !facts.may_stream {
                return Ok(());
            }
            match check_rules(step.name.as_str(), &step.on_result) {
                Err(e) => {
                    return Err(e);
                },
                Ok(()) => {},
            }
            if facts.buffers_response {
                return Err(
                    FilterError::new(
                        concat3(
                            "iterative_request_router: step '",
                            step.name.as_str(),
                            "': StreamBuffer response body mode is incompatible with streaming-capable pipelines",
                        ),
                    ),
                );
            }
            Ok(())
        },
    }
}

fn is_last_of_name(steps: &Vec<StepConfig>, i: usize) -> (r: bool)
    requires
        i < steps@.len(),
    ensures
        r == last_of_name(steps@, i as int),
{
    let count: usize = steps.len();
    let mut j: usize = i + 1;
    while j < count
        invariant
            count == steps@.len(),
            i < j <= steps@.len(),
            forall|k: int| i < k < j ==> (#[trigger] steps@[k]).name@ != steps@[i as int].name@,
        decreases steps@.len() - j,
    {
        if same_text(steps[j].name.as_str(), steps[i].name.as_str()) {
            proof {
                assert(steps@[j as int].name@ == steps@[i as int].name@);
            }
            return false;
        }
        j += 1;
    }
    true
}

/// Runs named steps one after another and returns the last response.
pub struct IterativeRequestRouterFilter {
    /// Name of the first step.
    pub initial_step: String,
    /// Iteration bound.
    pub max_iterations: u32,
    /// Response body bound per sub-request.
    pub max_response_bytes: usize,
    /// Bound on a logical streamed response.
    pub max_stream_response_bytes: Option<usize>,
    /// Bound on accumulated state.
    pub max_state_bytes: usize,
    /// Timeout per step, in milliseconds.
    pub step_timeout_ms: u64,
    /// Overall timeout, in milliseconds.
    pub timeout_ms: u64,
    /// The steps.
    pub steps: Vec<StepConfig>,
}

/// The rules of the last step with this name; none where there is no such step.
pub open spec fn rules_of(steps: Seq<StepConfig>, name: Seq<char>) -> Seq<StepTransition>
    decreases steps.len(),
{
    if steps.len() == 0 {
        Seq::empty()
    } else if steps.last().name@ == name {
        steps.last().on_result@
    } else {
        rules_of(steps.drop_last(), name)
    }
}

/// A running iteration: how often a step ran, what runs next, and the output
/// held back for a later streaming step.
pub struct IterationRun {
    /// Steps that ran.
    pub iteration: u32,
    /// The step that runs next.
    pub current_step: String,
    /// The request it sends.
    pub request: SubRequest,
    /// The response of the step before it, unless that was skipped unseen.
    pub previous_response: Option<SubResponse>,
    /// Chunks that completed steps emitted.
    pub pending: Vec<Vec<u8>>,
    /// Bytes in `pending`.
    pub pending_bytes: usize,
    /// Response body bound in force for this request.
    pub max_response_bytes: usize,
}

/// Whether the count of pending bytes is right.
pub open spec fn run_ok(run: IterationRun) -> bool {
    run.pending_bytes == total_len(chunk_views(run.pending@))
}

/// The request's extensions while a step has them: what the request brought, and
/// what the router adds for the step's filters.
pub struct StepExtensions<E> {
    /// Size of the iteration state, where that is still there.
    pub iteration: Option<usize>,
    /// Body for the next step, if a filter set one.
    pub next_body: Option<Vec<u8>>,
    /// What goes back to the parent request.
    pub parent: E,
}

/// The extensions without what the router added, as they go back to the parent
/// request.
pub fn strip_iteration_extensions<E>(extensions: StepExtensions<E>) -> (r: E)
    ensures
        r == extensions.parent,
{
    extensions.parent
}

/// How a logical request starts. The request's extensions go with it.
pub enum Start<E> {
    /// It cannot be served.
    Fail(FilterError, E),
    /// It is refused.
    Reject(Rejection, E),
    /// The first step may run.
    Run(IterationRun, E),
}

/// What follows when a step opened a streaming response. What ends the request
/// gives its extensions back.
pub enum StreamChoice<E> {
    /// Cancel the body and report the error.
    Fail(FilterError, E),
    /// Suppress the body and run the named step.
    FailOver(String, StepExtensions<E>),
    /// Cancel the body and refuse the request.
    Reject(Rejection, E),
    /// Commit the response and stream it; the stream keeps the extensions.
    Stream(StepExtensions<E>),
}

/// What follows when a step completed. The extensions that the step handed back
/// go to the next step, or back to the parent request.
pub enum StepChoice<E> {
    /// Report the error.
    Fail(FilterError, E),
    /// Refuse the request.
    Reject(Rejection, E),
    /// Run the next step.
    Advance(IterationRun, E),
    /// Answer the client.
    Respond(TerminalResponse, E),
}

/// What a completed step leaves behind besides its response.
pub struct StepCompletion<E> {
    /// Bytes of state retained after the step.
    pub retained: usize,
    /// For a stream that ended abnormally: whether a filter handled that.
    pub abnormal: Option<bool>,
    /// Chunks that the step emitted.
    pub pending: Vec<Vec<u8>>,
    /// Body for the next step, if a filter set one.
    pub next_body: Option<Vec<u8>>,
    /// Results that filters recorded.
    pub results: Vec<FilterResult>,
    /// The request's extensions.
    pub extensions: E,
}

/// Whether `after` is `before` moved on to `step`: one more iteration, the same
/// method and target, no headers, and the body chosen for it or the last one.
pub open spec fn advanced(
    before: IterationRun,
    after: IterationRun,
    step: Seq<char>,
    next_body: Option<Vec<u8>>,
) -> bool {
    &&& after.iteration == before.iteration + 1
    &&& after.current_step@ == step
    &&& after.request.method == before.request.method
    &&& after.request.uri == before.request.uri
    &&& after.request.headers@.len() == 0
    &&& after.request.body@ == match next_body {
        Some(b) => b@,
        None => before.request.body@,
    }
    &&& after.max_response_bytes == before.max_response_bytes
}

/// Whether a choice ends the run by refusing the request with this status, and
/// gives back its extensions.
pub open spec fn refuses<E>(r: StepChoice<E>, code: u16, extensions: E) -> bool {
    r matches StepChoice::Reject(rejection, back) && rejection@ == crate::actions::bare_rejection(
        code,
    ) && back == extensions
}

/// The response body once no further step runs, or the reason there is none.
pub open spec fn final_body<E>(
    run: IterationRun,
    body: Seq<u8>,
    completion: StepCompletion<E>,
) -> Result<Seq<u8>, Seq<char>> {
    let held = flat(chunk_views(run.pending@)) + flat(chunk_views(completion.pending@));
    match completion.abnormal {
        Some(true) => if (held + body).len() > usize::MAX {
            Err("iterative_request_router: completion body byte count overflow"@)
        } else if (held + body).len() > run.max_response_bytes {
            Err("iterative_request_router: abnormal completion exceeds response body limit"@)
        } else {
            Ok(held + body)
        },
        Some(false) => Ok(Seq::empty()),
        None => if run.pending@.len() > 0 || completion.pending@.len() > 0 {
            Err(
                "iterative_request_router: stream chunks were emitted without a streaming response"@,
            )
        } else {
            Ok(body)
        },
    }
}

/// Whether `r` is what follows a completed step.
pub open spec fn is_step_choice<E>(
    filter: IterativeRequestRouterFilter,
    run: IterationRun,
    outcome: StepOutcome,
    status: u16,
    completion: StepCompletion<E>,
    r: StepChoice<E>,
) -> bool {
    let rules = rules_of(filter.steps@, run.current_step@);
    let rule = first_rule(rules, outcome, completion.results@);
    let emitted = total_len(chunk_views(completion.pending@));
    if completion.retained > filter.max_state_bytes {
        refuses(r, 413, completion.extensions)
    } else if rule is Some && rule_result(rule->0) is Some {
        if completion.abnormal is None && completion.retained + run.pending_bytes + emitted
            > filter.max_state_bytes {
            refuses(r, 413, completion.extensions)
        } else {
            &&& r matches StepChoice::Advance(next, handed) && handed == completion.extensions
                && advanced(
                run,
                next,
                rule_result(rule->0)->0,
                completion.next_body,
            ) && run_ok(next) && next.previous_response == Some(outcome.response) && next.pending@
                == if completion.abnormal is None {
                run.pending@ + completion.pending@
            } else {
                run.pending@
            }
        }
    } else {
        match final_body(run, outcome.response.body@, completion) {
            Err(why) => r matches StepChoice::Fail(e, back) && e@ == why && back
                == completion.extensions,
            Ok(body) => r matches StepChoice::Respond(t, back) && back == completion.extensions
                && is_terminal(
                t,
                outcome.response.headers@,
                body,
                status,
                run.request.method@ == "HEAD"@,
            ),
        }
    }
}

/// Whether `r` says whether another step may run, and gives the extensions on or
/// back.
pub open spec fn is_admission<E>(
    filter: IterativeRequestRouterFilter,
    run: IterationRun,
    deadline_passed: bool,
    extensions: E,
    r: Result<E, (Rejection, E)>,
) -> bool {
    if run.iteration >= filter.max_iterations {
        r is Err && r->Err_0.0@ == crate::actions::bare_rejection(508) && r->Err_0.1 == extensions
    } else if deadline_passed {
        r is Err && r->Err_0.0@ == crate::actions::bare_rejection(504) && r->Err_0.1 == extensions
    } else {
        r == Ok::<E, (Rejection, E)>(extensions)
    }
}

/// Whether `r` is what follows when a streamed response was suppressed unseen.
pub open spec fn is_skip<E>(
    filter: IterativeRequestRouterFilter,
    run: IterationRun,
    step: Seq<char>,
    retained: usize,
    next_body: Option<Vec<u8>>,
    extensions: E,
    r: Result<(IterationRun, E), (Rejection, E)>,
) -> bool {
    if retained > filter.max_state_bytes {
        r is Err && r->Err_0.0@ == crate::actions::bare_rejection(413) && r->Err_0.1 == extensions
    } else {
        &&& r is Ok
        &&& advanced(run, r->Ok_0.0, step, next_body)
        &&& r->Ok_0.0.previous_response is None
        &&& r->Ok_0.0.pending == run.pending
        &&& run_ok(r->Ok_0.0)
        &&& r->Ok_0.1 == extensions
    }
}

/// Whether `r` is what follows when a step opened a streaming response.
pub open spec fn is_stream_choice<E>(
    filter: IterativeRequestRouterFilter,
    run: IterationRun,
    outcome: StepOutcome,
    extensions: StepExtensions<E>,
    r: StreamChoice<E>,
) -> bool {
    let rules = rules_of(filter.steps@, run.current_step@);
    let failover = header_failover(rules, outcome);
    if !streaming_order(rules) {
        r matches StreamChoice::Fail(e, back) && e@ == "iterative_request_router: step '"@
            + run.current_step@ + "' selected streaming with interleaved transition phases"@ && back
            == extensions.parent
    } else if failover is Some {
        r matches StreamChoice::FailOver(step, kept) && step@ == failover->0 && kept == extensions
    } else {
        match extensions.iteration {
            None => r matches StreamChoice::Fail(e, back) && e@
                == "iterative_request_router: iteration state missing before stream handoff"@
                && back == extensions.parent,
            Some(n) => if n + run.pending_bytes > filter.max_state_bytes {
                r matches StreamChoice::Reject(rejection, back) && rejection@
                    == crate::actions::bare_rejection(413) && back == extensions.parent
            } else {
                r == StreamChoice::Stream(extensions)
            },
        }
    }
}

/// The files that the pipelines of the steps from `i` on read, step by step. A
/// step that a later step of the same name replaces has none.
pub open spec fn files_from(steps: Seq<StepConfig>, i: int) -> Seq<Seq<char>>
    decreases steps.len() - i,
{
    if i < 0 || i >= steps.len() {
        Seq::empty()
    } else {
        (match steps[i].pipeline {
            Ok(facts) => if last_of_name(steps, i) {
                texts(facts.referenced_files@)
            } else {
                Seq::empty()
            },
            Err(_) => Seq::empty(),
        }) + files_from(steps, i + 1)
    }
}

fn append_copies(out: &mut Vec<String>, files: &Vec<String>)
    ensures
        texts(final(out)@) == texts(old(out)@) + texts(files@),
{
    let mut i: usize = 0;
    proof {
        assert(texts(out@) =~= texts(old(out)@) + texts(files@).take(0));
    }
    while i < files.len()
        invariant
            i <= files@.len(),
            texts(out@) == texts(old(out)@) + texts(files@).take(i as int),
        decreases files@.len() - i,
    {
        let ghost before = out@;
        out.push(files[i].clone());
        proof {
            assert(texts(out@) =~= texts(before).push(files@[i as int]@));
            assert(texts(files@).take(i + 1) =~= texts(files@).take(i as int).push(
                files@[i as int]@,
            ));
            assert(texts(out@) =~= texts(old(out)@) + texts(files@).take(i + 1));
        }
        i += 1;
    }
    proof {
        assert(texts(files@).take(files@.len() as int) =~= texts(files@));
    }
}

impl IterativeRequestRouterFilter {
    /// The filter's name.
    pub fn name(&self) -> (r: &'static str)
        ensures
            r@ == "iterative_request_router"@,
    {
        "iterative_request_router"
    }

    /// The router answers requests itself, so it cannot run in an outbound chain.
    pub fn produces_terminal_response(&self) -> (r: bool)
        ensures
            r,
    {
        true
    }

    /// The router reads the request body.
    pub fn request_body_access(&self) -> (r: BodyAccess)
        ensures
            r == BodyAccess::ReadOnly,
    {
        BodyAccess::ReadOnly
    }

    /// The request body is buffered, as part of the bounded state.
    pub fn request_body_mode(&self) -> (r: BodyMode)
        ensures
            r == (BodyMode::StreamBuffer { max_bytes: Some(self.max_state_bytes) }),
    {
        BodyMode::StreamBuffer { max_bytes: Some(self.max_state_bytes) }
    }

    /// The files whose change calls for a reload: those that filters of the step
    /// pipelines read.
    pub fn referenced_files(&self) -> (r: Vec<String>)
        ensures
            texts(r@) == files_from(self.steps@, 0),
    {
        let mut out: Vec<String> = Vec::new();
        let mut i: usize = 0;
        proof {
            assert(texts(out@) + files_from(self.steps@, 0) =~= files_from(self.steps@, 0));
        }
        while i < self.steps.len()
            invariant
                i <= self.steps@.len(),
                texts(out@) + files_from(self.steps@, i as int) == files_from(self.steps@, 0),
            decreases self.steps@.len() - i,
        {
            let ghost before = texts(out@);
            let ghost rest = files_from(self.steps@, i + 1);
            if is_last_of_name(&self.steps, i) {
                if let Ok(facts) = &self.steps[i].pipeline {
                    append_copies(&mut out, &facts.referenced_files);
                    proof {
                        let own = texts(facts.referenced_files@);
                        assert((before + own) + rest =~= before + (own + rest));
                    }
                } else {
                    proof {
                        assert(Seq::<Seq<char>>::empty() + rest =~= rest);
                    }
                }
            } else {
                proof {
                    assert(Seq::<Seq<char>>::empty() + rest =~= rest);
                }
            }
            i += 1;
        }
        proof {
            assert(texts(out@) + Seq::<Seq<char>>::empty() =~= texts(out@));
        }
        out
    }

    /// Builds the filter. `timeout_fits` says whether the platform's clock can
    /// represent the deadline.
    pub fn from_parsed_config(cfg: RouterConfig, timeout_fits: bool) -> (r: Result<
        IterativeRequestRouterFilter,
        FilterError,
    >)
        ensures
            r matches Err(e) ==> config_error(cfg, timeout_fits) == Some(e@),
            r matches Ok(f) ==> {
                &&& config_error(cfg, timeout_fits) is None
                &&& f.initial_step == cfg.initial_step
                &&& f.max_iterations == cfg.max_iterations
                &&& f.max_response_bytes == cfg.max_response_bytes
                &&& f.max_stream_response_bytes == cfg.max_stream_response_bytes
                &&& f.max_state_bytes == cfg.max_state_bytes
                &&& f.timeout_ms == cfg.timeout_ms
                &&& f.step_timeout_ms == match cfg.step_timeout_ms {
                    Some(ms) => ms,
                    None => cfg.timeout_ms,
                }
                &&& f.steps == cfg.steps
            },
    {
        if !timeout_fits {
            return Err(
                FilterError::from_text(
                    "iterative_request_router: timeout_ms exceeds the platform Instant range",
                ),
            );
        }
        let mut i: usize = 0;
        proof {
            assert(cfg.steps@.skip(0) =~= cfg.steps@);
        }
        while i < cfg.steps.len()
            invariant
                timeout_fits,
                i <= cfg.steps@.len(),
                first_build_error(cfg.steps@.skip(i as int)) == first_build_error(cfg.steps@),
            decreases cfg.steps@.len() - i,
        {
            proof {
                assert(cfg.steps@.skip(i as int)[0] == cfg.steps@[i as int]);
                assert(cfg.steps@.skip(i as int).skip(1) =~= cfg.steps@.skip(i + 1));
            }
            match check_build(&cfg.steps[i]) {
                Err(e) => {
                    return Err(e);
                },
                Ok(()) => {},
            }
            i += 1;
        }
        let mut j: usize = 0;
        while j < cfg.steps.len()
            invariant
                timeout_fits,
                j <= cfg.steps@.len(),
                first_build_error(cfg.steps@) is None,
                first_streaming_error(cfg.steps@, j as int) == first_streaming_error(
                    cfg.steps@,
                    0,
                ),
            decreases cfg.steps@.len() - j,
        {
            if is_last_of_name(&cfg.steps, j) {
                match check_streaming(&cfg.steps[j]) {
                    Err(e) => {
                        return Err(e);
                    },
                    Ok(()) => {},
                }
            }
            j += 1;
        }
        let step_timeout_ms: u64 = match cfg.step_timeout_ms {
            Some(ms) => ms,
            None => cfg.timeout_ms,
        };
        Ok(
            IterativeRequestRouterFilter {
                initial_step: cfg.initial_step,
                max_iterations: cfg.max_iterations,
                max_response_bytes: cfg.max_response_bytes,
                max_stream_response_bytes: cfg.max_stream_response_bytes,
                max_state_bytes: cfg.max_state_bytes,
                step_timeout_ms,
                timeout_ms: cfg.timeout_ms,
                steps: cfg.steps,
            },
        )
    }

    /// Whether a request may enter the router: not below `max_depth` nested
    /// routers, and only with a client for sub-requests and a buffered body.
    pub fn on_request(
        &self,
        depth: u8,
        max_depth: u8,
        has_client: bool,
        body: Option<Vec<u8>>,
    ) -> (r: Result<Result<Vec<u8>, Rejection>, FilterError>)
        ensures
            depth >= max_depth ==> r is Ok && r->Ok_0 is Err && r->Ok_0->Err_0@
                == crate::actions::bare_rejection(508),
            depth < max_depth && !has_client ==> r is Err && r->Err_0@
                == "iterative_request_router: no sub-request client available"@,
            depth < max_depth && has_client && body is None ==> r is Err && r->Err_0@
                == "iterative_request_router: buffered request body unavailable"@,
            depth < max_depth && has_client && body is Some ==> r is Ok && r->Ok_0
                == Ok::<Vec<u8>, Rejection>(body->0),
    {
        if depth >= max_depth {
            return Ok(Err(Rejection::status(508)));
        }
        if !has_client {
            return Err(
                FilterError::from_text(
                    "iterative_request_router: no sub-request client available",
                ),
            );
        }
        match body {
            Some(bytes) => Ok(Ok(bytes)),
            None => Err(
                FilterError::from_text(
                    "iterative_request_router: buffered request body unavailable",
                ),
            ),
        }
    }

    /// Starts the iteration with the client's request. `retained` is the size
    /// of the initial state.
    pub fn start<E>(
        &self,
        request: SubRequest,
        parent_mode: BodyMode,
        deadline_fits: bool,
        retained: usize,
        extensions: E,
    ) -> (r: Start<E>)
        ensures
            !deadline_fits ==> r is Fail && r->Fail_0@
                == "iterative_request_router: deadline exceeds the platform Instant range"@
                && r->Fail_1 == extensions,
            deadline_fits && retained > self.max_state_bytes ==> r is Reject && r->Reject_0@
                == crate::actions::bare_rejection(413) && r->Reject_1 == extensions,
            deadline_fits && retained <= self.max_state_bytes ==> {
                &&& r is Run
                &&& r->Run_0.iteration == 0
                &&& r->Run_0.current_step@ == self.initial_step@
                &&& r->Run_0.request == request
                &&& r->Run_0.previous_response is None
                &&& r->Run_0.pending@.len() == 0
                &&& run_ok(r->Run_0)
                &&& r->Run_0.max_response_bytes == limited(self.max_response_bytes, parent_mode)
                &&& r->Run_1 == extensions
            },
    {
        if !deadline_fits {
            return Start::Fail(
                FilterError::from_text(
                    "iterative_request_router: deadline exceeds the platform Instant range",
                ),
                extensions,
            );
        }
        if retained > self.max_state_bytes {
            return Start::Reject(Rejection::status(413), extensions);
        }
        let run = IterationRun {
            iteration: 0,
            current_step: self.initial_step.clone(),
            request,
            previous_response: None,
            pending: Vec::new(),
            pending_bytes: 0,
            max_response_bytes: effective_response_limit(self.max_response_bytes, parent_mode),
        };
        proof {
            assert(chunk_views(run.pending@) =~= Seq::empty());
        }
        Start::Run(run, extensions)
    }

    /// Whether another step may run: the extensions for it, or how the request
    /// is refused and its extensions.
    pub fn before_step<E>(&self, run: &IterationRun, deadline_passed: bool, extensions: E) -> (r:
        Result<E, (Rejection, E)>)
        ensures
            is_admission(*self, *run, deadline_passed, extensions, r),
    {
        if run.iteration >= self.max_iterations {
            return Err((Rejection::status(508), extensions));
        }
        if deadline_passed {
            return Err((Rejection::status(504), extensions));
        }
        Ok(extensions)
    }

    /// The rules of a step.
    fn rules(&self, step: &str) -> (r: Option<&Vec<StepTransition>>)
        ensures
            r matches Some(v) ==> v@ == rules_of(self.steps@, step@),
            r is None ==> rules_of(self.steps@, step@) == Seq::<StepTransition>::empty(),
    {
        let mut i: usize = self.steps.len();
        proof {
            assert(self.steps@.take(i as int) =~= self.steps@);
        }
        while i > 0
            invariant
                i <= self.steps@.len(),
                rules_of(self.steps@.take(i as int), step@) == rules_of(self.steps@, step@),
            decreases i,
        {
            proof {
                assert(self.steps@.take(i as int).drop_last() =~= self.steps@.take(i - 1));
            }
            if same_text(self.steps[i - 1].name.as_str(), step) {
                return Some(&self.steps[i - 1].on_result);
            }
            i -= 1;
        }
        None
    }

    /// Decides what follows when the current step opened a streaming response.
    pub fn stream_opened<E>(
        &self,
        run: &IterationRun,
        outcome: &StepOutcome,
        extensions: StepExtensions<E>,
    ) -> (r: StreamChoice<E>)
        requires
            run_ok(*run),
        ensures
            is_stream_choice(*self, *run, *outcome, extensions, r),
    {
        let decision = match self.rules(run.current_step.as_str()) {
            Some(rules) => {
                if !streaming_transition_order_is_valid(rules) {
                    return StreamChoice::Fail(
                        FilterError::new(
                            concat3(
                                "iterative_request_router: step '",
                                run.current_step.as_str(),
                                "' selected streaming with interleaved transition phases",
                            ),
                        ),
                        strip_iteration_extensions(extensions),
                    );
                }
                evaluate_header_transitions(rules, outcome)
            },
            None => TransitionResult::NoMatch,
        };
        if let TransitionResult::Next(step) = decision {
            return StreamChoice::FailOver(step, extensions);
        }
        match extensions.iteration {
            None => StreamChoice::Fail(
                FilterError::from_text(
                    "iterative_request_router: iteration state missing before stream handoff",
                ),
                strip_iteration_extensions(extensions),
            ),
            Some(n) => {
                let fits = match n.checked_add(run.pending_bytes) {
                    Some(total) => total <= self.max_state_bytes,
                    None => false,
                };
                if fits {
                    StreamChoice::Stream(extensions)
                } else {
                    StreamChoice::Reject(
                        Rejection::status(413),
                        strip_iteration_extensions(extensions),
                    )
                }
            },
        }
    }

    /// Moves on to `step` after a streamed response was suppressed unseen.
    pub fn stream_skipped<E>(
        &self,
        run: IterationRun,
        step: String,
        retained: usize,
        next_body: Option<Vec<u8>>,
        extensions: E,
    ) -> (r: Result<(IterationRun, E), (Rejection, E)>)
        requires
            run_ok(run),
            run.iteration < self.max_iterations,
        ensures
            is_skip(*self, run, step@, retained, next_body, extensions, r),
    {
        if retained > self.max_state_bytes {
            return Err((Rejection::status(413), extensions));
        }
        Ok((advance(run, step, None, next_body), extensions))
    }

    /// Decides what follows when the current step completed. `status` is the
    /// response's status, normalized to one that can end the exchange.
    pub fn step_completed<E>(
        &self,
        run: IterationRun,
        outcome: StepOutcome,
        status: u16,
        completion: StepCompletion<E>,
    ) -> (r: StepChoice<E>)
        requires
            run_ok(run),
            run.iteration < self.max_iterations,
            final_status(status),
        ensures
            is_step_choice(*self, run, outcome, status, completion, r),
    {
        if completion.retained > self.max_state_bytes {
            return StepChoice::Reject(Rejection::status(413), completion.extensions);
        }
        let decision = match self.rules(run.current_step.as_str()) {
            Some(rules) => evaluate_transitions(rules, &outcome, &completion.results),
            None => TransitionResult::NoMatch,
        };
        match decision {
            TransitionResult::Next(step) => {
                let mut run = run;
                if completion.abnormal.is_none() {
                    proof {
                        assert(chunk_views(run.pending@ + completion.pending@) =~= chunk_views(
                            run.pending@,
                        ) + chunk_views(completion.pending@));
                        lemma_flat_concat(
                            chunk_views(run.pending@),
                            chunk_views(completion.pending@),
                        );
                    }
                    match append_pending_chunks(
                        &mut run.pending,
                        completion.pending,
                        run.pending_bytes,
                        self.max_state_bytes,
                        completion.retained,
                    ) {
                        Ok(total) => {
                            run.pending_bytes = total;
                        },
                        Err(_) => {
                            return StepChoice::Reject(
                                Rejection::status(413),
                                completion.extensions,
                            );
                        },
                    }
                }
                StepChoice::Advance(
                    advance(run, step, Some(outcome.response), completion.next_body),
                    completion.extensions,
                )
            },
            _ => {
                let head = same_text(run.request.method.as_str(), "HEAD");
                match completed_body(&run, outcome.response.body, &completion) {
                    Err(e) => StepChoice::Fail(e, completion.extensions),
                    Ok(body) => {
                        let response = SubResponse {
                            status: outcome.response.status,
                            headers: outcome.response.headers,
                            body,
                        };
                        StepChoice::Respond(
                            build_terminal_response(&response, status, head),
                            completion.extensions,
                        )
                    },
                }
            },
        }
    }
}

/// The run moved on to `step`.
fn advance(
    run: IterationRun,
    step: String,
    previous_response: Option<SubResponse>,
    next_body: Option<Vec<u8>>,
) -> (r: IterationRun)
    requires
        run_ok(run),
        run.iteration < u32::MAX,
    ensures
        advanced(run, r, step@, next_body),
        r.previous_response == previous_response,
        r.pending == run.pending,
        run_ok(r),
{
    let body = match next_body {
        Some(bytes) => bytes,
        None => run.request.body,
    };
    IterationRun {
        iteration: run.iteration + 1,
        current_step: step,
        request: SubRequest {
            method: run.request.method,
            uri: run.request.uri,
            headers: HeaderMap::new(),
            body,
        },
        previous_response,
        pending: run.pending,
        pending_bytes: run.pending_bytes,
        max_response_bytes: run.max_response_bytes,
    }
}

/// Appends the chunks to `out`, one after another.
fn append_flat(out: &mut Vec<u8>, chunks: &Vec<Vec<u8>>)
    ensures
        final(out)@ == old(out)@ + flat(chunk_views(chunks@)),
{
    let ghost views = chunk_views(chunks@);
    let mut i: usize = 0;
    proof {
        assert(views.take(0) =~= Seq::empty());
        assert(out@ + flat(views.take(0)) =~= out@);
    }
    while i < chunks.len()
        invariant
            views == chunk_views(chunks@),
            i <= chunks@.len(),
            out@ == old(out)@ + flat(views.take(i as int)),
        decreases chunks@.len() - i,
    {
        proof {
            lemma_flat_step(views, i as int);
            assert(old(out)@ + (flat(views.take(i as int)) + views[i as int]) =~= (old(out)@
                + flat(views.take(i as int))) + views[i as int]);
        }
        let ghost before = out@;
        out.extend_from_slice(chunks[i].as_slice());
        proof {
            assert(out@ =~= before + views[i as int]);
        }
        i += 1;
    }
    proof {
        assert(views.take(views.len() as int) =~= views);
    }
}

/// The response body once no further step runs.
fn completed_body<E>(run: &IterationRun, body: Vec<u8>, completion: &StepCompletion<E>) -> (r:
    Result<Vec<u8>, FilterError>)
    ensures
        r matches Ok(b) ==> final_body(*run, body@, *completion) == Ok::<Seq<u8>, Seq<char>>(b@),
        r matches Err(e) ==> final_body(*run, body@, *completion) == Err::<Seq<u8>, Seq<char>>(e@),
{
    match completion.abnormal {
        Some(true) => {
            let total = match checked_total(0, &run.pending) {
                Some(a) => match checked_total(a, &completion.pending) {
                    Some(b) => b.checked_add(body.len()),
                    None => None,
                },
                None => None,
            };
            match total {
                None => Err(
                    FilterError::from_text(
                        "iterative_request_router: completion body byte count overflow",
                    ),
                ),
                Some(n) => {
                    if n > run.max_response_bytes {
                        return Err(
                            FilterError::from_text(
                                "iterative_request_router: abnormal completion exceeds response body limit",
                            ),
                        );
                    }
                    let mut combined: Vec<u8> = Vec::with_capacity(n);
                    append_flat(&mut combined, &run.pending);
                    append_flat(&mut combined, &completion.pending);
                    combined.extend_from_slice(body.as_slice());
                    proof {
                        let held = flat(chunk_views(run.pending@)) + flat(
                            chunk_views(completion.pending@),
                        );
                        assert(combined@ =~= held + body@);
                    }
                    Ok(combined)
                },
            }
        },
        Some(false) => Ok(Vec::new()),
        None => {
            if run.pending.len() > 0 || completion.pending.len() > 0 {
                return Err(
                    FilterError::from_text(
                        "iterative_request_router: stream chunks were emitted without a streaming response",
                    ),
                );
            }
            Ok(body)
        },
    }
}

/// Each step that runs consumes one iteration, and none runs past the bound:
/// a run that advanced has at most `max_iterations` behind it.
pub proof fn law_iterations_bounded(
    filter: IterativeRequestRouterFilter,
    run: IterationRun,
    next: IterationRun,
    step: Seq<char>,
    body: Option<Vec<u8>>,
)
    requires
        run.iteration < filter.max_iterations,
        advanced(run, next, step, body),
    ensures
        next.iteration <= filter.max_iterations,
        filter.max_iterations - next.iteration < filter.max_iterations - run.iteration,
{
}

/// Every step after the first begins without headers: none of the previous
/// step's credentials or representation headers are inherited.
pub proof fn law_headers_isolated<E>(
    filter: IterativeRequestRouterFilter,
    run: IterationRun,
    outcome: StepOutcome,
    status: u16,
    completion: StepCompletion<E>,
    r: StepChoice<E>,
)
    requires
        is_step_choice(filter, run, outcome, status, completion, r),
        r is Advance,
    ensures
        r->Advance_0.request.headers@.len() == 0,
        r->Advance_0.request.method == run.request.method,
        r->Advance_0.request.uri == run.request.uri,
{
}

/// A run that advances retains no more than the bound allows: state and
/// held-back output together fit in it.
pub proof fn law_retained_bounded<E>(
    filter: IterativeRequestRouterFilter,
    run: IterationRun,
    outcome: StepOutcome,
    status: u16,
    completion: StepCompletion<E>,
    r: StepChoice<E>,
)
    requires
        run_ok(run),
        is_step_choice(filter, run, outcome, status, completion, r),
        r is Advance,
        completion.abnormal is None,
    ensures
        completion.retained + r->Advance_0.pending_bytes <= filter.max_state_bytes,
{
    assert(chunk_views(run.pending@ + completion.pending@) =~= chunk_views(run.pending@)
        + chunk_views(completion.pending@));
    lemma_flat_concat(chunk_views(run.pending@), chunk_views(completion.pending@));
}

/// Whether a step that was run in `before` leads on to `after` with these
/// extensions: it completed and its rules named a next step, or its streamed
/// response was skipped for one.
pub open spec fn leads_to<E>(
    filter: IterativeRequestRouterFilter,
    before: IterationRun,
    after: IterationRun,
    extensions: E,
) -> bool {
    ||| exists|outcome: StepOutcome, status: u16, completion: StepCompletion<E>| #[trigger]
        is_step_choice(
            filter,
            before,
            outcome,
            status,
            completion,
            StepChoice::Advance(after, extensions),
        )
    ||| exists|step: Seq<char>, retained: usize, next_body: Option<Vec<u8>>| #[trigger]
        is_skip(
            filter,
            before,
            step,
            retained,
            next_body,
            extensions,
            Ok::<(IterationRun, E), (Rejection, E)>((after, extensions)),
        )
}

/// While every step leads to another, exactly as many steps run as the bound
/// allows, a skipped one counted; then the request is refused with 508, and the
/// extensions that the last step handed back go back to the parent.
pub proof fn law_runs_up_to_the_bound<E>(
    filter: IterativeRequestRouterFilter,
    trace: Seq<(IterationRun, E)>,
    r: Result<E, (Rejection, E)>,
)
    requires
        trace.len() > 0,
        trace[0].0.iteration == 0,
        forall|i: int|
            #![trigger trace[i]]
            0 < i < trace.len() ==> leads_to(filter, trace[i - 1].0, trace[i].0, trace[i].1),
        is_admission(filter, trace.last().0, false, trace.last().1, r),
    ensures
        trace.last().0.iteration == trace.len() - 1,
        trace.len() - 1 < filter.max_iterations ==> r == Ok::<E, (Rejection, E)>(trace.last().1),
        trace.len() - 1 >= filter.max_iterations ==> r is Err && r->Err_0.0@
            == crate::actions::bare_rejection(508) && r->Err_0.1 == trace.last().1,
{
    lemma_iterations_counted(filter, trace);
}

proof fn lemma_iterations_counted<E>(
    filter: IterativeRequestRouterFilter,
    trace: Seq<(IterationRun, E)>,
)
    requires
        trace.len() > 0,
        trace[0].0.iteration == 0,
        forall|i: int|
            #![trigger trace[i]]
            0 < i < trace.len() ==> leads_to(filter, trace[i - 1].0, trace[i].0, trace[i].1),
    ensures
        trace.last().0.iteration == trace.len() - 1,
    decreases trace.len(),
{
    if trace.len() > 1 {
        let front = trace.drop_last();
        assert forall|i: int|
            #![trigger front[i]]
            0 < i < front.len() implies leads_to(filter, front[i - 1].0, front[i].0, front[i].1) by {
            assert(trace[i] == front[i] && trace[i - 1] == front[i - 1]);
        }
        lemma_iterations_counted(filter, front);
        let last = trace.len() - 1;
        assert(leads_to(filter, trace[last - 1].0, trace[last].0, trace[last].1));
        assert(front.last() == trace[last - 1]);
    }
}

// What the rules mean.

/// A rule matches exactly where each thing that it names is so: the status is
/// one of those listed, the origin and the transport failure are the named ones,
/// and a filter recorded the named value under the named key. A rule that names
/// only part of a recorded result never matches; one that names nothing always
/// does.
pub proof fn law_rule_predicates(
    t: StepTransition,
    outcome: StepOutcome,
    results: Seq<FilterResult>,
)
    ensures
        ({
            let listed = t.status is None || exists|i: int|
                0 <= i < t.status->0@.len() && #[trigger] t.status->0@[i]
                    == outcome.response.status;
            let from = t.origin is None || t.origin->0 == outcome.origin;
            let failed = t.transport_error is None || (outcome.transport_error is Some
                && outcome.transport_error->0 == t.transport_error->0);
            let silent = t.filter is None && t.key is None && t.value is None;
            let recorded = t.filter is Some && t.key is Some && t.value is Some && exists|i: int|
                0 <= i < results.len() && (#[trigger] results[i]).filter@ == t.filter->0@
                    && results[i].key@ == t.key->0@ && results[i].value@ == t.value->0@;
            rule_matches(t, outcome, results) <==> listed && from && failed && (silent || recorded)
        }),
{
    if t.status is Some {
        let codes = t.status->0@;
        if codes.contains(outcome.response.status) {
            let i = choose|i: int| 0 <= i < codes.len() && codes[i] == outcome.response.status;
            assert(codes[i] == outcome.response.status);
        }
    }
}

/// The first rule that is a default or matches decides, whatever follows it: the
/// response is returned where the rule says so or names no step, and else the
/// named step runs.
pub proof fn law_first_rule_decides(
    transitions: Seq<StepTransition>,
    outcome: StepOutcome,
    results: Seq<FilterResult>,
    i: int,
    r: TransitionResult,
)
    requires
        0 <= i < transitions.len(),
        transitions[i].default || rule_matches(transitions[i], outcome, results),
        forall|j: int|
            0 <= j < i ==> !(#[trigger] transitions[j]).default && !rule_matches(
                transitions[j],
                outcome,
                results,
            ),
        is_transition(r, transitions, outcome, results),
    ensures
        transitions[i].done || transitions[i].next is None ==> r is Done,
        !transitions[i].done && transitions[i].next is Some ==> r is Next && r->Next_0@
            == transitions[i].next->0@,
{
    lemma_first_rule(transitions, outcome, results, i);
}

proof fn lemma_first_rule(
    transitions: Seq<StepTransition>,
    outcome: StepOutcome,
    results: Seq<FilterResult>,
    i: int,
)
    requires
        0 <= i < transitions.len(),
        transitions[i].default || rule_matches(transitions[i], outcome, results),
        forall|j: int|
            0 <= j < i ==> !(#[trigger] transitions[j]).default && !rule_matches(
                transitions[j],
                outcome,
                results,
            ),
    ensures
        first_rule(transitions, outcome, results) == Some(transitions[i]),
    decreases transitions.len(),
{
    if i > 0 {
        assert(!transitions[0].default);
        let rest = transitions.skip(1);
        assert forall|j: int| 0 <= j < i - 1 implies !(#[trigger] rest[j]).default && !rule_matches(
            rest[j],
            outcome,
            results,
        ) by {
            assert(rest[j] == transitions[j + 1]);
        }
        lemma_first_rule(rest, outcome, results, i - 1);
    }
}

/// Where no rule is a default and none matches, the rules say nothing.
pub proof fn law_no_rule_matches(
    transitions: Seq<StepTransition>,
    outcome: StepOutcome,
    results: Seq<FilterResult>,
    r: TransitionResult,
)
    requires
        forall|j: int|
            0 <= j < transitions.len() ==> !(#[trigger] transitions[j]).default && !rule_matches(
                transitions[j],
                outcome,
                results,
            ),
        is_transition(r, transitions, outcome, results),
    ensures
        r is NoMatch,
{
    lemma_no_rule(transitions, outcome, results);
}

proof fn lemma_no_rule(
    transitions: Seq<StepTransition>,
    outcome: StepOutcome,
    results: Seq<FilterResult>,
)
    requires
        forall|j: int|
            0 <= j < transitions.len() ==> !(#[trigger] transitions[j]).default && !rule_matches(
                transitions[j],
                outcome,
                results,
            ),
    ensures
        first_rule(transitions, outcome, results) is None,
    decreases transitions.len(),
{
    if transitions.len() > 0 {
        assert(!transitions[0].default);
        let rest = transitions.skip(1);
        assert forall|j: int| 0 <= j < rest.len() implies !(#[trigger] rest[j]).default
            && !rule_matches(rest[j], outcome, results) by {
            assert(rest[j] == transitions[j + 1]);
        }
        lemma_no_rule(rest, outcome, results);
    }
}

/// A rule can fail over on headers alone exactly where it names a step, is no
/// default, and names no part of a recorded result.
pub proof fn law_header_safe(t: StepTransition)
    ensures
        header_safe(t) <==> t.next is Some && !t.default && t.filter is None && t.key is None
            && t.value is None,
        body_dependent(t) <==> t.filter is Some || t.key is Some || t.value is Some,
{
}

/// A streamed response fails over to the step of the first rule that matches
/// among those before the first that needs a complete body; a rule behind that
/// one never does.
pub proof fn law_first_failover(
    transitions: Seq<StepTransition>,
    outcome: StepOutcome,
    i: int,
)
    requires
        0 <= i <= transitions.len(),
        forall|j: int|
            0 <= j < i ==> header_safe(#[trigger] transitions[j]) && !rule_matches(
                transitions[j],
                outcome,
                Seq::empty(),
            ),
    ensures
        i == transitions.len() || !header_safe(transitions[i]) ==> header_failover(
            transitions,
            outcome,
        ) is None,
        i < transitions.len() && header_safe(transitions[i]) && rule_matches(
            transitions[i],
            outcome,
            Seq::empty(),
        ) ==> header_failover(transitions, outcome) == Some(transitions[i].next->0@),
    decreases transitions.len(),
{
    if i > 0 {
        assert(header_safe(transitions[0]));
        let rest = transitions.skip(1);
        assert forall|j: int| 0 <= j < i - 1 implies header_safe(#[trigger] rest[j])
            && !rule_matches(rest[j], outcome, Seq::empty()) by {
            assert(rest[j] == transitions[j + 1]);
        }
        law_first_failover(rest, outcome, i - 1);
    }
}

/// The rules are in order for streaming exactly where those that can fail over on
/// headers alone come first, all of them.
pub proof fn law_streaming_order(transitions: Seq<StepTransition>)
    ensures
        streaming_order(transitions) <==> exists|n: int|
            0 <= n <= transitions.len() && #[trigger] failovers_first(transitions, n),
{
    if streaming_order(transitions) {
        let n = leading(transitions);
        lemma_leading(transitions);
        assert forall|i: int| 0 <= i < transitions.len() implies (header_safe(
            #[trigger] transitions[i],
        ) <==> i < n) by {
            if i >= n && header_safe(transitions[i]) {
                assert(!header_safe(transitions[n]));
            }
        }
        assert(failovers_first(transitions, n));
    }
}

/// Whether the first `n` rules, and no others, can fail over on headers alone.
pub open spec fn failovers_first(transitions: Seq<StepTransition>, n: int) -> bool {
    forall|i: int|
        0 <= i < transitions.len() ==> (header_safe(#[trigger] transitions[i]) <==> i < n)
}

/// How many rules at the front can fail over on headers alone.
spec fn leading(transitions: Seq<StepTransition>) -> int
    decreases transitions.len(),
{
    if transitions.len() == 0 || !header_safe(transitions[0]) {
        0
    } else {
        1 + leading(transitions.skip(1))
    }
}

proof fn lemma_leading(transitions: Seq<StepTransition>)
    ensures
        0 <= leading(transitions) <= transitions.len(),
        forall|i: int| 0 <= i < leading(transitions) ==> header_safe(#[trigger] transitions[i]),
        leading(transitions) < transitions.len() ==> !header_safe(
            transitions[leading(transitions)],
        ),
    decreases transitions.len(),
{
    if transitions.len() > 0 && header_safe(transitions[0]) {
        let rest = transitions.skip(1);
        lemma_leading(rest);
        assert forall|i: int| 0 <= i < leading(transitions) implies header_safe(
            #[trigger] transitions[i],
        ) by {
            if i > 0 {
                assert(rest[i - 1] == transitions[i]);
            }
        }
    }
}

/// Of several steps with a name the last one's rules hold.
pub proof fn law_last_step_counts(steps: Seq<StepConfig>, name: Seq<char>, i: int)
    requires
        0 <= i < steps.len(),
        steps[i].name@ == name,
        forall|j: int| i < j < steps.len() ==> (#[trigger] steps[j]).name@ != name,
    ensures
        rules_of(steps, name) == steps[i].on_result@,
    decreases steps.len(),
{
    if i < steps.len() - 1 {
        assert(steps[steps.len() - 1].name@ != name);
        let front = steps.drop_last();
        assert forall|j: int| i < j < front.len() implies (#[trigger] front[j]).name@ != name by {
            assert(front[j] == steps[j]);
        }
        law_last_step_counts(front, name, i);
    }
}

/// A name that no step has brings no rules.
pub proof fn law_unknown_step(steps: Seq<StepConfig>, name: Seq<char>)
    requires
        forall|j: int| 0 <= j < steps.len() ==> (#[trigger] steps[j]).name@ != name,
    ensures
        rules_of(steps, name).len() == 0,
    decreases steps.len(),
{
    if steps.len() > 0 {
        assert(steps[steps.len() - 1].name@ != name);
        let front = steps.drop_last();
        assert forall|j: int| 0 <= j < front.len() implies (#[trigger] front[j]).name@ != name by {
            assert(front[j] == steps[j]);
        }
        law_unknown_step(front, name);
    }
}

// What numbers and limits mean.

proof fn lemma_digits_read_back(n: nat)
    ensures
        all_digits(decimal_digits(n)),
        digits_value(decimal_digits(n)) == n,
        decimal_digits(n)[0] != '+',
        n >= 10 <==> decimal_digits(n).len() > 1,
        n >= 10 ==> decimal_digits(n)[0] != '0',
    decreases n,
{
    let digits = decimal_digits(n);
    if n < 10 {
        assert(digits.drop_last() =~= Seq::empty());
        assert(digits_value(digits.drop_last()) == 0);
        assert(digits.last() as nat == 48 + n);
    } else {
        lemma_digits_read_back(n / 10);
        let front = decimal_digits(n / 10);
        assert(digits.drop_last() =~= front);
        assert(digits.last() as nat == 48 + n % 10);
        assert forall|i: int| 0 <= i < digits.len() implies '0' <= #[trigger] digits[i] <= '9' by {
            if i < front.len() {
                assert(digits[i] == front[i]);
            }
        }
        assert(digits[0] == front[0]);
        if n / 10 < 10 {
            assert(front[0] as nat == 48 + n / 10);
        }
    }
}

/// A number in decimal, with or without a plus sign, is read back as the depth
/// where it is below 256, and as no depth where it is not.
pub proof fn law_depth_read_back(n: nat)
    ensures
        parsed_u8(decimal_digits(n)) == if n < 256 {
            Some(n as u8)
        } else {
            None
        },
        parsed_u8(seq!['+'] + decimal_digits(n)) == if n < 256 {
            Some(n as u8)
        } else {
            None
        },
        decimal_digits(n).len() > 1 ==> decimal_digits(n)[0] != '0',
{
    lemma_digits_read_back(n);
    assert((seq!['+'] + decimal_digits(n)).skip(1) =~= decimal_digits(n));
}

/// A text with a character that is no digit, behind an optional plus sign, or
/// without a digit is no depth.
pub proof fn law_depth_refused(s: Seq<char>, i: int)
    ensures
        s.len() == 0 ==> parsed_u8(s) is None,
        s == seq!['+'] ==> parsed_u8(s) is None,
        0 < i < s.len() && !('0' <= s[i] && s[i] <= '9') ==> parsed_u8(s) is None,
        s.len() > 0 && s[0] != '+' && !('0' <= s[0] && s[0] <= '9') ==> parsed_u8(s) is None,
{
    if 0 < i < s.len() && !('0' <= s[i] && s[i] <= '9') {
        assert(s.skip(1)[i - 1] == s[i]);
    }
    if s == seq!['+'] {
        assert(s.skip(1).len() == 0);
    }
}

/// The response limit is never above the configured one, nor above the parent's
/// where that has one, and is one of the two.
pub proof fn law_response_limit(configured: usize, parent: usize, mode: BodyMode)
    ensures
        limited(configured, mode) <= configured,
        ({
            let size = limited(configured, BodyMode::SizeLimit { max_bytes: parent });
            let buffer = limited(configured, BodyMode::StreamBuffer { max_bytes: Some(parent) });
            &&& size <= parent
            &&& size == configured || size == parent
            &&& buffer == size
        }),
        limited(configured, BodyMode::StreamBuffer { max_bytes: None }) == configured,
        limited(configured, BodyMode::Stream) == configured,
{
}

/// Chunks of two runs one after the other hold the bytes of both in order; a
/// single chunk holds its own.
pub proof fn law_chunks_in_order(a: Seq<Seq<u8>>, b: Seq<Seq<u8>>, chunk: Seq<u8>)
    ensures
        flat(a + b) == flat(a) + flat(b),
        flat(seq![chunk]) == chunk,
        total_len(a + b) == total_len(a) + total_len(b),
{
    lemma_flat_concat(a, b);
    assert(seq![chunk].drop_last() =~= Seq::empty());
    assert(flat(seq![chunk].drop_last()) =~= Seq::empty());
    assert(flat(seq![chunk]) =~= chunk);
}

// What the decisions do.

/// What follows a completed step, by cases. Too much state refuses the request.
/// A next step gets the same target, one more iteration, the response before it,
/// and the output held back so far with what a step that ended normally added.
/// An answer carries the step's own body; or, after a stream that a filter
/// completed, what was held back and then the body; or, after one that no filter
/// completed, no body. The extensions are handed on or back in every case.
pub proof fn law_step_outcomes<E>(
    filter: IterativeRequestRouterFilter,
    run: IterationRun,
    outcome: StepOutcome,
    status: u16,
    completion: StepCompletion<E>,
    r: StepChoice<E>,
)
    requires
        is_step_choice(filter, run, outcome, status, completion, r),
    ensures
        completion.retained > filter.max_state_bytes ==> r is Reject,
        r matches StepChoice::Reject(rejection, back) ==> {
            &&& rejection@.status == 413
            &&& rejection@.body is None
            &&& back == completion.extensions
            &&& completion.retained > filter.max_state_bytes || (completion.abnormal is None
                && completion.retained + run.pending_bytes + total_len(
                chunk_views(completion.pending@),
            ) > filter.max_state_bytes)
        },
        r matches StepChoice::Advance(next, handed) ==> {
            &&& handed == completion.extensions
            &&& next.iteration == run.iteration + 1
            &&& next.previous_response == Some(outcome.response)
            &&& next.max_response_bytes == run.max_response_bytes
            &&& next.request.method == run.request.method
            &&& next.request.uri == run.request.uri
            &&& next.request.headers@.len() == 0
            &&& completion.next_body matches Some(body) ==> next.request.body@ == body@
            &&& completion.next_body is None ==> next.request.body@ == run.request.body@
            &&& completion.abnormal is None ==> next.pending@ == run.pending@
                + completion.pending@
            &&& completion.abnormal is Some ==> next.pending@ == run.pending@
            &&& next.pending_bytes == total_len(chunk_views(next.pending@))
        },
        r matches StepChoice::Respond(t, back) ==> {
            let body = if t.body is Some {
                t.body->0@
            } else {
                Seq::<u8>::empty()
            };
            &&& back == completion.extensions
            &&& t.status == status
            &&& completion.abnormal is None ==> body == outcome.response.body@ && run.pending@.len()
                == 0 && completion.pending@.len() == 0
            &&& completion.abnormal == Some(true) ==> body == flat(chunk_views(run.pending@))
                + flat(chunk_views(completion.pending@)) + outcome.response.body@ && body.len()
                <= run.max_response_bytes
            &&& completion.abnormal == Some(false) ==> t.body is None
            &&& t.headers@ == terminal_headers(
                outcome.response.headers@,
                body.len(),
                status,
                run.request.method@ == "HEAD"@,
            )
        },
        r matches StepChoice::Fail(e, back) ==> {
            &&& back == completion.extensions
            &&& completion.abnormal != Some(false)
            &&& completion.abnormal is None ==> run.pending@.len() > 0 || completion.pending@.len()
                > 0
            &&& completion.abnormal == Some(true) ==> flat(chunk_views(run.pending@)).len() + flat(
                chunk_views(completion.pending@),
            ).len() + outcome.response.body@.len() > run.max_response_bytes
        },
{
    if completion.abnormal == Some(false) && r is Respond {
        let t = r->Respond_0;
        assert(t.body is None);
    }
}

/// A completed step within its bounds goes on exactly where the first rule that
/// applies names a step and does not end the request, and then to that step.
pub proof fn law_step_follows_rules<E>(
    filter: IterativeRequestRouterFilter,
    run: IterationRun,
    outcome: StepOutcome,
    status: u16,
    completion: StepCompletion<E>,
    r: StepChoice<E>,
    i: int,
)
    requires
        is_step_choice(filter, run, outcome, status, completion, r),
        r !is Reject,
        ({
            let rules = rules_of(filter.steps@, run.current_step@);
            &&& 0 <= i <= rules.len()
            &&& i < rules.len() ==> rules[i].default || rule_matches(
                rules[i],
                outcome,
                completion.results@,
            )
            &&& forall|j: int|
                0 <= j < i ==> !(#[trigger] rules[j]).default && !rule_matches(
                    rules[j],
                    outcome,
                    completion.results@,
                )
        }),
    ensures
        ({
            let rules = rules_of(filter.steps@, run.current_step@);
            let goes_on = i < rules.len() && !rules[i].done && rules[i].next is Some;
            &&& r is Advance <==> goes_on
            &&& goes_on ==> r->Advance_0.current_step@ == rules[i].next->0@
        }),
{
    let rules = rules_of(filter.steps@, run.current_step@);
    if i < rules.len() {
        lemma_first_rule(rules, outcome, completion.results@, i);
    } else {
        lemma_no_rule(rules, outcome, completion.results@);
    }
}

/// A step may run exactly while the iteration bound is not reached and the
/// deadline has not passed; the bound is looked at first. The extensions go on or
/// back unchanged.
pub proof fn law_admission_by_bounds<E>(
    filter: IterativeRequestRouterFilter,
    run: IterationRun,
    deadline_passed: bool,
    extensions: E,
    r: Result<E, (Rejection, E)>,
)
    requires
        is_admission(filter, run, deadline_passed, extensions, r),
    ensures
        r is Ok <==> run.iteration < filter.max_iterations && !deadline_passed,
        r matches Ok(e) ==> e == extensions,
        r matches Err((rejection, back)) ==> back == extensions && rejection@.status == if run.iteration
            >= filter.max_iterations {
            508u16
        } else {
            504
        },
{
}

/// A streamed response that is suppressed unseen costs an iteration, leaves no
/// previous response and no output of its own; too much state refuses the
/// request.
pub proof fn law_skipped_stream<E>(
    filter: IterativeRequestRouterFilter,
    run: IterationRun,
    step: Seq<char>,
    retained: usize,
    next_body: Option<Vec<u8>>,
    extensions: E,
    r: Result<(IterationRun, E), (Rejection, E)>,
)
    requires
        is_skip(filter, run, step, retained, next_body, extensions, r),
    ensures
        r is Ok <==> retained <= filter.max_state_bytes,
        r matches Err((rejection, back)) ==> rejection@.status == 413 && back == extensions,
        r matches Ok((next, handed)) ==> {
            &&& handed == extensions
            &&& next.iteration == run.iteration + 1
            &&& next.current_step@ == step
            &&& next.previous_response is None
            &&& next.pending@ == run.pending@
            &&& next.request.method == run.request.method
            &&& next.request.uri == run.request.uri
            &&& next.request.headers@.len() == 0
            &&& next_body matches Some(body) ==> next.request.body@ == body@
            &&& next_body is None ==> next.request.body@ == run.request.body@
            &&& next.max_response_bytes == run.max_response_bytes
        },
{
}

/// What follows an opened stream, by cases: it fails over where the rules say so
/// on headers alone; else it streams, where its state is there and fits with the
/// output held back, and only what is handed to the next step or the stream keeps
/// the router's own extensions.
pub proof fn law_opened_stream<E>(
    filter: IterativeRequestRouterFilter,
    run: IterationRun,
    outcome: StepOutcome,
    extensions: StepExtensions<E>,
    r: StreamChoice<E>,
)
    requires
        is_stream_choice(filter, run, outcome, extensions, r),
    ensures
        ({
            let rules = rules_of(filter.steps@, run.current_step@);
            let ordered = streaming_order(rules);
            let failover = header_failover(rules, outcome);
            &&& r is FailOver <==> ordered && failover is Some
            &&& r matches StreamChoice::FailOver(step, kept) ==> Some(step@) == failover && kept
                == extensions
            &&& r is Stream <==> ordered && failover is None && extensions.iteration is Some
                && extensions.iteration->0 + run.pending_bytes <= filter.max_state_bytes
            &&& r matches StreamChoice::Stream(kept) ==> kept == extensions
            &&& r is Reject <==> ordered && failover is None && extensions.iteration is Some
                && extensions.iteration->0 + run.pending_bytes > filter.max_state_bytes
            &&& r matches StreamChoice::Reject(rejection, back) ==> rejection@.status == 413 && back
                == extensions.parent
            &&& r matches StreamChoice::Fail(e, back) ==> back == extensions.parent
        }),
{
}

// What a configuration must hold.

proof fn lemma_build_errors(steps: Seq<StepConfig>)
    ensures
        first_build_error(steps) is None <==> forall|i: int|
            0 <= i < steps.len() ==> build_error(#[trigger] steps[i]) is None,
    decreases steps.len(),
{
    if steps.len() > 0 {
        let rest = steps.skip(1);
        lemma_build_errors(rest);
        if build_error(steps[0]) is None {
            if first_build_error(steps) is None {
                assert forall|i: int| 0 <= i < steps.len() implies build_error(
                    #[trigger] steps[i],
                ) is None by {
                    if i > 0 {
                        assert(rest[i - 1] == steps[i]);
                    }
                }
            } else {
                let k = choose|k: int|
                    0 <= k < rest.len() && build_error(#[trigger] rest[k]) is Some;
                assert(build_error(steps[k + 1]) is Some);
            }
        }
    }
}

proof fn lemma_rule_errors(name: Seq<char>, transitions: Seq<StepTransition>, from: int)
    requires
        0 <= from,
    ensures
        first_rule_error(name, transitions, from) is None <==> forall|i: int|
            #![trigger transitions[i]]
            from <= i < transitions.len() ==> rule_error(transitions, i) is None,
    decreases transitions.len() - from,
{
    if from < transitions.len() {
        lemma_rule_errors(name, transitions, from + 1);
        if rule_error(transitions, from) is Some {
            assert(transitions[from] == transitions[from]);
        }
    }
}

proof fn lemma_streaming_errors(steps: Seq<StepConfig>, from: int)
    requires
        0 <= from,
    ensures
        first_streaming_error(steps, from) is None <==> forall|i: int|
            from <= i < steps.len() && last_of_name(steps, i) ==> streaming_error(
                #[trigger] steps[i],
            ) is None,
    decreases steps.len() - from,
{
    if from < steps.len() {
        lemma_streaming_errors(steps, from + 1);
        if last_of_name(steps, from) && streaming_error(steps[from]) is Some {
            assert(streaming_error(steps[from]) is Some);
        }
    }
}

/// Whether the rules of a step that may stream are usable: those that fail over
/// on headers alone come before all others, and none that names a step asks for
/// a recorded key or value without its filter.
pub open spec fn usable_rules(transitions: Seq<StepTransition>) -> bool {
    &&& streaming_order(transitions)
    &&& forall|i: int|
        0 <= i < transitions.len() && (#[trigger] transitions[i]).next is Some
            && transitions[i].filter is None ==> transitions[i].key is None
            && transitions[i].value is None
}

/// A configuration is accepted exactly where the timeout can be represented,
/// every pipeline was built and is in order, and each step that may stream, unless
/// a later one of its name replaces it, has usable rules and does not buffer
/// responses.
pub proof fn law_accepted_configuration(cfg: RouterConfig, timeout_fits: bool)
    ensures
        config_error(cfg, timeout_fits) is None <==> {
            &&& timeout_fits
            &&& forall|i: int|
                0 <= i < cfg.steps@.len() ==> (#[trigger] cfg.steps@[i]).pipeline is Ok
                    && cfg.steps@[i].pipeline->Ok_0.ordering_errors@.len() == 0
            &&& forall|i: int|
                0 <= i < cfg.steps@.len() && (#[trigger] cfg.steps@[i]).pipeline->Ok_0.may_stream
                    && (forall|j: int|
                    i < j < cfg.steps@.len() ==> (#[trigger] cfg.steps@[j]).name@
                        != cfg.steps@[i].name@) ==> usable_rules(cfg.steps@[i].on_result@)
                    && !cfg.steps@[i].pipeline->Ok_0.buffers_response
        },
{
    let steps = cfg.steps@;
    lemma_build_errors(steps);
    lemma_streaming_errors(steps, 0);
    assert forall|i: int| 0 <= i < steps.len() implies (build_error(#[trigger] steps[i]) is None
        <==> steps[i].pipeline is Ok && steps[i].pipeline->Ok_0.ordering_errors@.len() == 0) by {}
    assert forall|i: int|
        0 <= i < steps.len() && steps[i].pipeline is Ok implies (streaming_error(
        #[trigger] steps[i],
    ) is None <==> (steps[i].pipeline->Ok_0.may_stream ==> usable_rules(steps[i].on_result@)
        && !steps[i].pipeline->Ok_0.buffers_response)) by {
        lemma_usable(steps[i].name@, steps[i].on_result@);
    }
    if first_build_error(steps) is None {
        assert forall|i: int| 0 <= i < steps.len() implies (#[trigger] steps[i]).pipeline is Ok by {
            assert(build_error(steps[i]) is None);
        }
    }
}

proof fn lemma_usable(name: Seq<char>, transitions: Seq<StepTransition>)
    ensures
        first_rule_error(name, transitions, 0) is None <==> usable_rules(transitions),
{
    lemma_rule_errors(name, transitions, 0);
    if first_rule_error(name, transitions, 0) is None {
        assert forall|i: int, j: int|
            0 <= i < j < transitions.len() && header_safe(
                #[trigger] transitions[j],
            ) implies header_safe(#[trigger] transitions[i]) by {
            assert(rule_error(transitions, j) is None);
        }
        assert forall|i: int|
            0 <= i < transitions.len() && (#[trigger] transitions[i]).next is Some
                && transitions[i].filter is None implies transitions[i].key is None
            && transitions[i].value is None by {
            assert(rule_error(transitions, i) is None);
        }
    } else {
        let i = choose|i: int|
            #![trigger transitions[i]]
            0 <= i < transitions.len() && rule_error(transitions, i) is Some;
        assert(transitions[i].next is Some);
    }
}

/// The files that call for a reload are those of the steps that hold, and no
/// others: a step that a later one of its name replaces brings none.
pub proof fn law_referenced_files(steps: Seq<StepConfig>, from: int, file: Seq<char>)
    requires
        0 <= from,
    ensures
        files_from(steps, from).contains(file) <==> exists|i: int|
            from <= i < steps.len() && (#[trigger] steps[i]).pipeline is Ok && last_of_name(
                steps,
                i,
            ) && texts(steps[i].pipeline->Ok_0.referenced_files@).contains(file),
    decreases steps.len() - from,
{
    if from < steps.len() {
        law_referenced_files(steps, from + 1, file);
        let rest = files_from(steps, from + 1);
        let own = match steps[from].pipeline {
            Ok(facts) => if last_of_name(steps, from) {
                texts(facts.referenced_files@)
            } else {
                Seq::empty()
            },
            Err(_) => Seq::empty(),
        };
        let all = own + rest;
        assert(files_from(steps, from) == all);
        if all.contains(file) {
            let k = choose|k: int| 0 <= k < all.len() && all[k] == file;
            if k < own.len() {
                assert(own[k] == file);
                assert(own.contains(file));
                assert(steps[from].pipeline is Ok);
            } else {
                assert(rest[k - own.len()] == file);
                assert(rest.contains(file));
            }
        }
        if own.contains(file) {
            let k = choose|k: int| 0 <= k < own.len() && own[k] == file;
            assert(all[k] == file);
        }
        if rest.contains(file) {
            let k = choose|k: int| 0 <= k < rest.len() && rest[k] == file;
            assert(all[own.len() + k] == file);
        }
        if exists|i: int|
            from <= i < steps.len() && (#[trigger] steps[i]).pipeline is Ok && last_of_name(
                steps,
                i,
            ) && texts(steps[i].pipeline->Ok_0.referenced_files@).contains(file) {
            let i = choose|i: int|
                from <= i < steps.len() && (#[trigger] steps[i]).pipeline is Ok && last_of_name(
                    steps,
                    i,
                ) && texts(steps[i].pipeline->Ok_0.referenced_files@).contains(file);
            if i == from {
                assert(own.contains(file));
            } else {
                assert(rest.contains(file));
            }
        }
    }
}

/// The depth is what the header says, and zero where it says nothing that is one.
pub proof fn law_depth_of_header(value: Seq<u8>)
    ensures
        depth_of(None) == 0,
        value_text(value) is None ==> depth_of(Some(value)) == 0,
        value_text(value) is Some && parsed_u8(value_text(value)->0) is None ==> depth_of(
            Some(value),
        ) == 0,
        value_text(value) is Some && parsed_u8(value_text(value)->0) is Some ==> Some(
            depth_of(Some(value)),
        ) == parsed_u8(value_text(value)->0),
{
}

/// Which fault of a configuration is reported: the timeout first, then the first
/// step whose pipeline was not built or is misordered.
pub proof fn law_first_refused_step(cfg: RouterConfig, timeout_fits: bool, i: int)
    requires
        0 <= i < cfg.steps@.len(),
        forall|j: int|
            0 <= j < i ==> (#[trigger] cfg.steps@[j]).pipeline is Ok
                && cfg.steps@[j].pipeline->Ok_0.ordering_errors@.len() == 0,
    ensures
        !timeout_fits ==> config_error(cfg, timeout_fits) == Some(
            "iterative_request_router: timeout_ms exceeds the platform Instant range"@,
        ),
        timeout_fits && cfg.steps@[i].pipeline is Err ==> config_error(cfg, timeout_fits) == Some(
            cfg.steps@[i].pipeline->Err_0@,
        ),
        timeout_fits && cfg.steps@[i].pipeline is Ok
            && cfg.steps@[i].pipeline->Ok_0.ordering_errors@.len() > 0 ==> config_error(
            cfg,
            timeout_fits,
        ) == Some(
            "iterative_request_router: invalid step '"@ + cfg.steps@[i].name@ + "': "@ + joined(
                texts(cfg.steps@[i].pipeline->Ok_0.ordering_errors@),
                "; "@,
            ),
        ),
{
    lemma_first_build_error(cfg.steps@, i);
}

proof fn lemma_first_build_error(steps: Seq<StepConfig>, i: int)
    requires
        0 <= i < steps.len(),
        forall|j: int|
            0 <= j < i ==> (#[trigger] steps[j]).pipeline is Ok
                && steps[j].pipeline->Ok_0.ordering_errors@.len() == 0,
    ensures
        build_error(steps[i]) is Some ==> first_build_error(steps) == build_error(steps[i]),
    decreases steps.len(),
{
    if i > 0 {
        assert(steps[0].pipeline is Ok);
        let rest = steps.skip(1);
        assert forall|j: int| 0 <= j < i - 1 implies (#[trigger] rest[j]).pipeline is Ok
            && rest[j].pipeline->Ok_0.ordering_errors@.len() == 0 by {
            assert(rest[j] == steps[j + 1]);
        }
        lemma_first_build_error(rest, i - 1);
    }
}

/// Which rule of a streaming step is reported: the first that is at fault, by its
/// number; a failover on headers behind another rule before predicates that name
/// no filter.
pub proof fn law_first_refused_rule(name: Seq<char>, transitions: Seq<StepTransition>, i: int)
    requires
        0 <= i < transitions.len(),
        !usable_rules(transitions),
        forall|j: int| #![trigger transitions[j]] 0 <= j < i ==> rule_error(transitions, j) is None,
    ensures
        header_safe(transitions[i]) && !streaming_order(transitions) ==> first_rule_error(
            name,
            transitions,
            0,
        ) == Some(
            "iterative_request_router: step '"@ + name + "' transition "@ + decimal_digits(i as nat)
                + ": header-safe streaming failover rules must precede completion rules"@,
        ),
        streaming_order(transitions) && transitions[i].next is Some && transitions[i].filter is None
            && (transitions[i].key is Some || transitions[i].value is Some) ==> first_rule_error(
            name,
            transitions,
            0,
        ) == Some(
            "iterative_request_router: step '"@ + name + "' transition "@ + decimal_digits(i as nat)
                + ": ambiguous streaming transition predicates"@,
        ),
{
    lemma_first_rule_error(name, transitions, 0, i);
}

proof fn lemma_first_rule_error(
    name: Seq<char>,
    transitions: Seq<StepTransition>,
    from: int,
    i: int,
)
    requires
        0 <= from <= i < transitions.len(),
        forall|j: int|
            #![trigger transitions[j]]
            from <= j < i ==> rule_error(transitions, j) is None,
    ensures
        first_rule_error(name, transitions, from) == match rule_error(transitions, i) {
            Some(why) => Some(
                "iterative_request_router: step '"@ + name + "' transition "@ + decimal_digits(
                    i as nat,
                ) + why,
            ),
            None => first_rule_error(name, transitions, i + 1),
        },
    decreases i - from,
{
    if from < i {
        assert(transitions[from] == transitions[from]);
        lemma_first_rule_error(name, transitions, from + 1, i);
    }
}

/// A terminal response, as it is built, holds every header line of the
/// sub-response but those of its framing, with its value and in order, and no
/// other line but a length; its body is the sub-response's.
pub proof fn law_built_response(
    response: SubResponse,
    status: u16,
    preserve_content_length: bool,
    r: TerminalResponse,
)
    requires
        call_ensures(build_terminal_response, (&response, status, preserve_content_length), r),
    ensures
        ({
            let lines = response.headers@;
            let other = |l: (Seq<char>, Seq<u8>)|
                l.0 != "content-length"@ && l.0 != "transfer-encoding"@;
            &&& r.status == status
            &&& forall|i: int|
                0 <= i < lines.len() && (#[trigger] lines[i]).0 != "content-length"@ && lines[i].0
                    != "transfer-encoding"@ ==> r.headers@.contains(lines[i])
            &&& r.headers@.filter(other) == lines.filter(other)
            &&& forall|i: int|
                0 <= i < r.headers@.len() ==> (#[trigger] r.headers@[i]).0 != "transfer-encoding"@
            &&& r.body is Some <==> response.body@.len() > 0
            &&& r.body is Some ==> r.body->0@ == response.body@
        }),
{
    law_headers_passed_on(
        response.headers@,
        response.body@.len(),
        status,
        preserve_content_length,
    );
}

/// What the rules of a step say, as evaluated: the first that is a default or
/// matches decides, and none that stands behind it.
pub proof fn law_evaluated_rules(
    transitions: Vec<StepTransition>,
    outcome: StepOutcome,
    results: Vec<FilterResult>,
    r: TransitionResult,
    i: int,
)
    requires
        call_ensures(evaluate_transitions, (&transitions, &outcome, &results), r),
        0 <= i <= transitions@.len(),
        i < transitions@.len() ==> transitions@[i].default || rule_matches(
            transitions@[i],
            outcome,
            results@,
        ),
        forall|j: int|
            0 <= j < i ==> !(#[trigger] transitions@[j]).default && !rule_matches(
                transitions@[j],
                outcome,
                results@,
            ),
    ensures
        i == transitions@.len() ==> r is NoMatch,
        i < transitions@.len() && (transitions@[i].done || transitions@[i].next is None) ==> r
            is Done,
        i < transitions@.len() && !transitions@[i].done && transitions@[i].next is Some ==> r
            is Next && r->Next_0@ == transitions@[i].next->0@,
{
    if i < transitions@.len() {
        law_first_rule_decides(transitions@, outcome, results@, i, r);
    } else {
        law_no_rule_matches(transitions@, outcome, results@, r);
    }
}

/// Emitted chunks are held back whole or not at all: they are while retained state
/// and all output together stay within the bound, behind those already there, and
/// the count grows by their bytes.
pub proof fn law_pending_whole_or_none(
    target: &mut Vec<Vec<u8>>,
    chunks: Vec<Vec<u8>>,
    current_bytes: usize,
    max_state_bytes: usize,
    retained_bytes: usize,
    r: Result<usize, FilterError>,
)
    requires
        call_ensures(
            append_pending_chunks,
            (target, chunks, current_bytes, max_state_bytes, retained_bytes),
            r,
        ),
    ensures
        ({
            let emitted = flat(chunk_views(chunks@)).len();
            &&& r is Ok <==> retained_bytes + current_bytes + emitted <= max_state_bytes
            &&& r is Ok ==> r->Ok_0 == current_bytes + emitted && final(target)@ == old(target)@
                + chunks@
            &&& r is Err ==> final(target)@ == old(target)@
            &&& r is Err && current_bytes + emitted > usize::MAX ==> r->Err_0@
                == "iterative_request_router: pending stream byte count overflow"@
            &&& r is Err && current_bytes + emitted <= usize::MAX ==> r->Err_0@
                == "iterative_request_router: retained state and pending stream output exceed configured limit"@
        }),
{
}

/// A request enters the router only below the nesting bound, with a client for
/// sub-requests and with its body; the bound is looked at first, and refuses with
/// 508.
pub proof fn law_request_enters(
    filter: IterativeRequestRouterFilter,
    depth: u8,
    max_depth: u8,
    has_client: bool,
    body: Option<Vec<u8>>,
    r: Result<Result<Vec<u8>, Rejection>, FilterError>,
)
    requires
        call_ensures(
            IterativeRequestRouterFilter::on_request,
            (&filter, depth, max_depth, has_client, body),
            r,
        ),
    ensures
        r is Ok && r->Ok_0 is Err <==> depth >= max_depth,
        r is Ok && r->Ok_0 is Err ==> r->Ok_0->Err_0@.status == 508,
        r is Err <==> depth < max_depth && (!has_client || body is None),
        r is Ok && r->Ok_0 is Ok ==> body == Some(r->Ok_0->Ok_0),
{
}

/// A run begins with the client's request at the configured first step, nothing
/// behind it and nothing held back, under the smaller of the two response limits;
/// or not at all, where the deadline or the state does not fit.
pub proof fn law_run_begins<E>(
    filter: IterativeRequestRouterFilter,
    request: SubRequest,
    parent_mode: BodyMode,
    deadline_fits: bool,
    retained: usize,
    extensions: E,
    r: Start<E>,
)
    requires
        call_ensures(
            IterativeRequestRouterFilter::start::<E>,
            (&filter, request, parent_mode, deadline_fits, retained, extensions),
            r,
        ),
    ensures
        r is Fail <==> !deadline_fits,
        r is Reject <==> deadline_fits && retained > filter.max_state_bytes,
        r matches Start::Reject(rejection, back) ==> rejection@.status == 413 && back == extensions,
        r matches Start::Fail(e, back) ==> back == extensions,
        r matches Start::Run(run, handed) ==> {
            &&& handed == extensions
            &&& run.iteration == 0
            &&& run.current_step@ == filter.initial_step@
            &&& run.request == request
            &&& run.previous_response is None
            &&& run.pending@.len() == 0
            &&& run.pending_bytes == 0
            &&& run.max_response_bytes <= filter.max_response_bytes
        },
{
    if r is Run {
        assert(chunk_views(r->Run_0.pending@) =~= Seq::empty());
    }
}

/// The router is built with exactly what is configured; a step without a timeout
/// of its own has the overall one.
pub proof fn law_router_built(
    cfg: RouterConfig,
    timeout_fits: bool,
    r: Result<IterativeRequestRouterFilter, FilterError>,
)
    requires
        call_ensures(
            IterativeRequestRouterFilter::from_parsed_config,
            (cfg, timeout_fits),
            r,
        ),
    ensures
        r is Ok <==> config_error(cfg, timeout_fits) is None,
        r matches Ok(f) ==> {
            &&& f.initial_step == cfg.initial_step
            &&& f.max_iterations == cfg.max_iterations
            &&& f.max_response_bytes == cfg.max_response_bytes
            &&& f.max_stream_response_bytes == cfg.max_stream_response_bytes
            &&& f.max_state_bytes == cfg.max_state_bytes
            &&& f.timeout_ms == cfg.timeout_ms
            &&& cfg.step_timeout_ms matches Some(ms) ==> f.step_timeout_ms == ms
            &&& cfg.step_timeout_ms is None ==> f.step_timeout_ms == cfg.timeout_ms
            &&& f.steps == cfg.steps
        },
{
}

/// The words for a stream that cannot be handed on, and for a step that would
/// buffer what it streams.
pub proof fn law_refused_streams<E>(
    filter: IterativeRequestRouterFilter,
    run: IterationRun,
    outcome: StepOutcome,
    extensions: StepExtensions<E>,
    r: StreamChoice<E>,
    step: StepConfig,
)
    requires
        is_stream_choice(filter, run, outcome, extensions, r),
        usable_rules(step.on_result@),
        step.pipeline is Ok,
    ensures
        !streaming_order(rules_of(filter.steps@, run.current_step@)) ==> r is Fail && r->Fail_0@
            == "iterative_request_router: step '"@ + run.current_step@
            + "' selected streaming with interleaved transition phases"@,
        r is Fail && streaming_order(rules_of(filter.steps@, run.current_step@)) ==> r->Fail_0@
            == "iterative_request_router: iteration state missing before stream handoff"@
            && extensions.iteration is None,
        step.pipeline->Ok_0.may_stream && step.pipeline->Ok_0.buffers_response ==> streaming_error(
            step,
        ) == Some(
            "iterative_request_router: step '"@ + step.name@
                + "': StreamBuffer response body mode is incompatible with streaming-capable pipelines"@,
        ),
{
    lemma_usable(step.name@, step.on_result@);
}

/// A response that ended early is handed on behind the chunks held for it, all of
/// it or, past the limit, none; a stream that was suppressed leaves an empty body;
/// where nothing streamed the body stands alone and no chunk may have been held.
pub proof fn law_final_bodies<E>(run: IterationRun, body: Seq<u8>, completion: StepCompletion<E>)
    ensures
        ({
            let out = final_body(run, body, completion);
            let held = flat(chunk_views(run.pending@)) + flat(chunk_views(completion.pending@));
            &&& completion.abnormal == Some(true) && (held + body).len() <= run.max_response_bytes
                ==> out == Ok::<Seq<u8>, Seq<char>>(held + body)
            &&& completion.abnormal == Some(true) && run.max_response_bytes < (held + body).len()
                <= usize::MAX ==> out == Err::<Seq<u8>, Seq<char>>(
                "iterative_request_router: abnormal completion exceeds response body limit"@,
            )
            &&& completion.abnormal == Some(true) && (held + body).len() > usize::MAX ==> out
                == Err::<Seq<u8>, Seq<char>>(
                "iterative_request_router: completion body byte count overflow"@,
            )
            &&& completion.abnormal == Some(false) ==> out is Ok && out->Ok_0.len() == 0
            &&& completion.abnormal is None && run.pending@.len() == 0
                && completion.pending@.len() == 0 ==> out == Ok::<Seq<u8>, Seq<char>>(body)
            &&& completion.abnormal is None && run.pending@.len() + completion.pending@.len() > 0
                ==> out == Err::<Seq<u8>, Seq<char>>(
                "iterative_request_router: stream chunks were emitted without a streaming response"@,
            )
        }),
{
}

} // verus!
