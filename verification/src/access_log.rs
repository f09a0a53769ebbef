//! Structured access log: which requests get a record, and what it holds.

use std::borrow::Cow;

use vstd::prelude::*;

use crate::actions::pairs;
use crate::actions::FilterAction;
use crate::body::BodyAccess;
use crate::error::FilterError;
use crate::headers::first_value;
use crate::headers::opt_text;
use crate::headers::opt_value_text;
use crate::headers::parse_header_name;
use crate::headers::token_char;
use crate::headers::valid_name;
use crate::headers::HeaderMap;
use crate::sorted_map::ascending;
use crate::sorted_map::find_pair;
use crate::sorted_map::law_put_find;
use crate::sorted_map::lemma_put_text;
use crate::sorted_map::put_pair;
use crate::sorted_map::text_pairs;
use crate::sorted_map::SortedMap;
use crate::text::after_prefix;
use crate::text::chars_of;
use crate::text::concat2;
use crate::text::concat3;
use crate::text::concat4;
use crate::text::contains_char;
use crate::text::decimal;
use crate::text::decimal_digits;
use crate::text::has_prefix;
use crate::text::law_lower;
use crate::text::list_contains;
use crate::text::lower;
use crate::text::lower_char;
use crate::text::same_text;
use crate::text::starts_with;
use crate::text::strip_prefix;
use crate::text::texts;
use crate::text::to_lower;
use crate::text::trim;
use crate::text::trimmed;

verus! {

/// Sampling window: a rate is held as a numerator over this denominator.
pub const SAMPLE_SCALE: u64 = 1_000_000;

// Sampling.

/// Whether the request at `index` of a window is logged: the running quota
/// advances there.
pub open spec fn sampled(numerator: nat, index: nat) -> bool {
    (index * numerator) / (SAMPLE_SCALE as nat) < ((index + 1) * numerator) / (SAMPLE_SCALE as nat)
}

/// How many of the `len` requests from the `from`-th on are logged.
pub open spec fn sampled_count(numerator: nat, from: nat, len: nat) -> nat
    decreases len,
{
    if len == 0 {
        0
    } else {
        sampled_count(numerator, from, (len - 1) as nat) + if sampled(
            numerator,
            (from + len - 1) as nat % (SAMPLE_SCALE as nat),
        ) {
            1nat
        } else {
            0nat
        }
    }
}

/// The quota after `n` requests.
spec fn quota(numerator: nat, n: nat) -> nat {
    (n * numerator) / (SAMPLE_SCALE as nat)
}

proof fn lemma_quota_step(numerator: nat, n: nat)
    requires
        numerator <= SAMPLE_SCALE,
    ensures
        quota(numerator, n + 1) == quota(numerator, n) + if sampled(
            numerator,
            n % (SAMPLE_SCALE as nat),
        ) {
            1nat
        } else {
            0nat
        },
{
    let scale = SAMPLE_SCALE as int;
    let q = n as int / scale;
    let r = n as int % scale;
    vstd::arithmetic::div_mod::lemma_fundamental_div_mod(n as int, scale);
    let m = numerator as int;
    assert(n as int * m == scale * (q * m) + r * m) by (nonlinear_arith)
        requires
            n == scale * q + r,
    ;
    assert((n + 1) * m == scale * (q * m) + (r + 1) * m) by (nonlinear_arith)
        requires
            n == scale * q + r,
    ;
    vstd::arithmetic::div_mod::lemma_hoist_over_denominator(r * m, q * m, scale as nat);
    vstd::arithmetic::div_mod::lemma_hoist_over_denominator((r + 1) * m, q * m, scale as nat);
    assert((r + 1) * m == r * m + m) by (nonlinear_arith);
    assert(0 <= r * m) by (nonlinear_arith)
        requires
            0 <= r,
            0 <= m,
    ;
    vstd::arithmetic::div_mod::lemma_div_is_ordered(r * m, (r + 1) * m, scale);
    vstd::arithmetic::div_mod::lemma_div_is_ordered((r + 1) * m, r * m + scale, scale);
    vstd::arithmetic::div_mod::lemma_hoist_over_denominator(r * m, 1, scale as nat);
}

/// Over any run of consecutive requests the number logged is the change of the
/// quota.
proof fn lemma_count_is_quota(numerator: nat, from: nat, len: nat)
    requires
        numerator <= SAMPLE_SCALE,
    ensures
        sampled_count(numerator, from, len) == quota(numerator, from + len) - quota(
            numerator,
            from,
        ),
    decreases len,
{
    if len > 0 {
        lemma_count_is_quota(numerator, from, (len - 1) as nat);
        lemma_quota_step(numerator, (from + len - 1) as nat);
    }
}

/// Every accepted rate is realized exactly: of any window of consecutive
/// requests as long as the scale, exactly `numerator` are logged, wherever the
/// window starts.
pub proof fn law_sampling_exact(numerator: nat, from: nat)
    requires
        numerator <= SAMPLE_SCALE,
    ensures
        sampled_count(numerator, from, SAMPLE_SCALE as nat) == numerator,
{
    let scale = SAMPLE_SCALE as int;
    lemma_count_is_quota(numerator, from, SAMPLE_SCALE as nat);
    assert((from + scale) * numerator == scale * (numerator as int) + from * numerator)
        by (nonlinear_arith);
    vstd::arithmetic::div_mod::lemma_hoist_over_denominator(
        from as int * numerator as int,
        numerator as int,
        scale as nat,
    );
}

/// The first `len` requests of a window log the whole part of their share.
pub proof fn law_sampling_prefix(numerator: nat, len: nat)
    requires
        numerator <= SAMPLE_SCALE,
    ensures
        sampled_count(numerator, 0, len) == (len * numerator) / (SAMPLE_SCALE as nat),
{
    lemma_count_is_quota(numerator, 0, len);
    assert(0 * numerator == 0) by (nonlinear_arith);
}

// Configuration.

/// A class of HTTP statuses.
#[derive(Clone, Copy, Debug, PartialEq, Eq, Structural)]
pub enum StatusClass {
    /// 100-199.
    Informational,
    /// 200-299.
    Success,
    /// 300-399.
    Redirection,
    /// 400-499.
    ClientError,
    /// 500-599.
    ServerError,
}

/// The first digit of the statuses in a class.
pub open spec fn class_digit(class: StatusClass) -> int {
    match class {
        StatusClass::Informational => 1,
        StatusClass::Success => 2,
        StatusClass::Redirection => 3,
        StatusClass::ClientError => 4,
        StatusClass::ServerError => 5,
    }
}

impl StatusClass {
    /// Whether a status falls into this class.
    pub fn matches(self, status: u16) -> (r: bool)
        ensures
            r == (class_digit(self) * 100 <= status < class_digit(self) * 100 + 100),
    {
        let digit: u16 = match self {
            StatusClass::Informational => 1,
            StatusClass::Success => 2,
            StatusClass::Redirection => 3,
            StatusClass::ClientError => 4,
            StatusClass::ServerError => 5,
        };
        status / 100 == digit
    }
}

/// Conditions under which a record is written; all that are set must hold.
pub struct AccessLogEmitConditions {
    /// Least duration.
    pub min_duration_ms: Option<u64>,
    /// Status classes, one of which must match.
    pub status_classes: Option<Vec<StatusClass>>,
    /// Path prefixes, one of which must match.
    pub paths: Option<Vec<String>>,
}

/// A field of a record.
#[derive(Debug)]
pub enum FieldToken {
    /// Request method.
    Method,
    /// Request path.
    Path,
    /// Client address.
    ClientIp,
    /// Response status.
    Status,
    /// Duration in milliseconds.
    DurationMs,
    /// Selected cluster.
    Cluster,
    /// Selected upstream.
    Upstream,
    /// Request id.
    RequestId,
    /// Bytes of the request body.
    RequestBodyBytes,
    /// Bytes of the response body.
    ResponseBodyBytes,
    /// Trace id.
    TraceId,
    /// Span id.
    SpanId,
    /// A request header.
    RequestHeader(String),
    /// A response header.
    ResponseHeader(String),
}

/// A field of a record, as a value.
pub ghost enum FieldView {
    /// Request method.
    Method,
    /// Request path.
    Path,
    /// Client address.
    ClientIp,
    /// Response status.
    Status,
    /// Duration in milliseconds.
    DurationMs,
    /// Selected cluster.
    Cluster,
    /// Selected upstream.
    Upstream,
    /// Request id.
    RequestId,
    /// Bytes of the request body.
    RequestBodyBytes,
    /// Bytes of the response body.
    ResponseBodyBytes,
    /// Trace id.
    TraceId,
    /// Span id.
    SpanId,
    /// A request header.
    RequestHeader(Seq<char>),
    /// A response header.
    ResponseHeader(Seq<char>),
}

impl View for FieldToken {
    type V = FieldView;

    open spec fn view(&self) -> FieldView {
        match self {
            FieldToken::Method => FieldView::Method,
            FieldToken::Path => FieldView::Path,
            FieldToken::ClientIp => FieldView::ClientIp,
            FieldToken::Status => FieldView::Status,
            FieldToken::DurationMs => FieldView::DurationMs,
            FieldToken::Cluster => FieldView::Cluster,
            FieldToken::Upstream => FieldView::Upstream,
            FieldToken::RequestId => FieldView::RequestId,
            FieldToken::RequestBodyBytes => FieldView::RequestBodyBytes,
            FieldToken::ResponseBodyBytes => FieldView::ResponseBodyBytes,
            FieldToken::TraceId => FieldView::TraceId,
            FieldToken::SpanId => FieldView::SpanId,
            FieldToken::RequestHeader(n) => FieldView::RequestHeader(n@),
            FieldToken::ResponseHeader(n) => FieldView::ResponseHeader(n@),
        }
    }
}

/// The fields, as values.
pub open spec fn field_views(fields: Seq<FieldToken>) -> Seq<FieldView> {
    fields.map_values(|f: FieldToken| f@)
}

/// How `{:?}` renders a text: between quotes, with escapes.
pub uninterp spec fn quoted(s: Seq<char>) -> Seq<char>;

/// `{:?}` of `std::fmt` on a string slice. How it escapes is left to std.
#[verifier::external_body]
fn quote(s: &str) -> (r: String)
    ensures
        r@ == quoted(s@),
{
    format!("{:?}", s)
}

/// Whether a header may never be logged.
pub open spec fn sensitive(name: Seq<char>) -> bool {
    let n = lower(name);
    n == "authorization"@ || n == "proxy-authorization"@ || n == "cookie"@ || n == "set-cookie"@
}

/// Whether a header may never be logged.
pub fn is_sensitive_header(name: &str) -> (r: bool)
    ensures
        r == sensitive(name@),
{
    let n = to_lower(name);
    same_text(n.as_str(), "authorization") || same_text(n.as_str(), "proxy-authorization")
        || same_text(n.as_str(), "cookie") || same_text(n.as_str(), "set-cookie")
}

/// Why a configured header is refused, if it is.
pub open spec fn header_error(name: Seq<char>) -> Option<Seq<char>> {
    let t = trimmed(name);
    if t.len() == 0 {
        Some("access_log: header names must not be empty"@)
    } else if sensitive(t) {
        Some("access_log: header "@ + quoted(t) + " is not allowed in v1"@)
    } else {
        None
    }
}

/// The configured headers in lower case, or the first refusal.
pub open spec fn normalized(names: Seq<Seq<char>>) -> Result<Seq<Seq<char>>, Seq<char>>
    decreases names.len(),
{
    if names.len() == 0 {
        Ok(Seq::empty())
    } else {
        match normalized(names.drop_last()) {
            Err(m) => Err(m),
            Ok(before) => match header_error(names.last()) {
                Some(m) => Err(m),
                None => Ok(before.push(lower(trimmed(names.last())))),
            },
        }
    }
}

proof fn lemma_normalized_prefix(names: Seq<Seq<char>>, n: int)
    requires
        0 <= n <= names.len(),
        normalized(names.take(n)) is Err,
    ensures
        normalized(names) == normalized(names.take(n)),
    decreases names.len() - n,
{
    if n == names.len() {
        assert(names.take(n) =~= names);
    } else {
        assert(names.take(n + 1).drop_last() =~= names.take(n));
        lemma_normalized_prefix(names, n + 1);
    }
}

/// The texts of an optional list; an absent one has none.
pub open spec fn opt_list(names: Option<Vec<String>>) -> Seq<Seq<char>> {
    match names {
        Some(v) => texts(v@),
        None => Seq::empty(),
    }
}

/// The configured headers in lower case.
pub fn normalize_header_names(names: &Option<Vec<String>>) -> (r: Result<Vec<String>, FilterError>)
    ensures
        match normalized(opt_list(*names)) {
            Ok(list) => r is Ok && texts(r->Ok_0@) == list,
            Err(m) => r is Err && r->Err_0@ == m,
        },
{
    let mut out: Vec<String> = Vec::new();
    proof {
        assert(texts(out@) =~= Seq::empty());
    }
    match names {
        None => Ok(out),
        Some(list) => {
            let ghost all = texts(list@);
            let mut i: usize = 0;
            proof {
                assert(all.take(0) =~= Seq::empty());
            }
            while i < list.len()
                invariant
                    all == texts(list@),
                    all == opt_list(*names),
                    i <= list@.len(),
                    normalized(all.take(i as int)) == Ok::<Seq<Seq<char>>, Seq<char>>(
                        texts(out@),
                    ),
                decreases list@.len() - i,
            {
                proof {
                    assert(all.take(i + 1).drop_last() =~= all.take(i as int));
                    assert(all.take(i + 1).last() == list@[i as int]@);
                    if normalized(all.take(i + 1)) is Err {
                        lemma_normalized_prefix(all, i + 1);
                    }
                }
                let name = trim(list[i].as_str());
                if name.as_str().is_empty() {
                    return Err(
                        FilterError::from_text("access_log: header names must not be empty"),
                    );
                }
                if is_sensitive_header(name.as_str()) {
                    return Err(
                        FilterError::new(
                            concat3(
                                "access_log: header ",
                                quote(name.as_str()).as_str(),
                                " is not allowed in v1",
                            ),
                        ),
                    );
                }
                let ghost before = out@;
                out.push(to_lower(name.as_str()));
                proof {
                    assert(texts(out@) =~= texts(before).push(lower(trimmed(list@[i as int]@))));
                }
                i += 1;
            }
            proof {
                assert(all.take(all.len() as int) =~= all);
            }
            Ok(out)
        },
    }
}

/// The field that a token without a header names, if any.
pub open spec fn plain_field(token: Seq<char>) -> Option<FieldView> {
    if token == "method"@ {
        Some(FieldView::Method)
    } else if token == "path"@ {
        Some(FieldView::Path)
    } else if token == "client_ip"@ {
        Some(FieldView::ClientIp)
    } else if token == "status"@ {
        Some(FieldView::Status)
    } else if token == "duration_ms"@ {
        Some(FieldView::DurationMs)
    } else if token == "cluster"@ {
        Some(FieldView::Cluster)
    } else if token == "upstream"@ {
        Some(FieldView::Upstream)
    } else if token == "request_id"@ {
        Some(FieldView::RequestId)
    } else if token == "request_body_bytes"@ {
        Some(FieldView::RequestBodyBytes)
    } else if token == "response_body_bytes"@ {
        Some(FieldView::ResponseBodyBytes)
    } else if token == "trace_id"@ {
        Some(FieldView::TraceId)
    } else if token == "span_id"@ {
        Some(FieldView::SpanId)
    } else {
        None
    }
}

/// The field that a token names, or why it names none.
pub open spec fn field_of(token: Seq<char>) -> Result<FieldView, Seq<char>> {
    match after_prefix(token, "request_header."@) {
        Some(name) => if name.len() == 0 {
            Err("access_log: request_header token must include a header name"@)
        } else {
            Ok(FieldView::RequestHeader(lower(name)))
        },
        None => match after_prefix(token, "response_header."@) {
            Some(name) => if name.len() == 0 {
                Err("access_log: response_header token must include a header name"@)
            } else {
                Ok(FieldView::ResponseHeader(lower(name)))
            },
            None => match plain_field(token) {
                Some(field) => Ok(field),
                None => if token == "filter_results"@ {
                    Err("access_log: filter_results is not supported in v1"@)
                } else {
                    Err("access_log: unknown field token "@ + quoted(token))
                },
            },
        },
    }
}

fn parse_plain_field(token: &str) -> (r: Option<FieldToken>)
    ensures
        r matches Some(f) ==> plain_field(token@) == Some(f@),
        r is None ==> plain_field(token@) is None,
{
    if same_text(token, "method") {
        Some(FieldToken::Method)
    } else if same_text(token, "path") {
        Some(FieldToken::Path)
    } else if same_text(token, "client_ip") {
        Some(FieldToken::ClientIp)
    } else if same_text(token, "status") {
        Some(FieldToken::Status)
    } else if same_text(token, "duration_ms") {
        Some(FieldToken::DurationMs)
    } else if same_text(token, "cluster") {
        Some(FieldToken::Cluster)
    } else if same_text(token, "upstream") {
        Some(FieldToken::Upstream)
    } else if same_text(token, "request_id") {
        Some(FieldToken::RequestId)
    } else if same_text(token, "request_body_bytes") {
        Some(FieldToken::RequestBodyBytes)
    } else if same_text(token, "response_body_bytes") {
        Some(FieldToken::ResponseBodyBytes)
    } else if same_text(token, "trace_id") {
        Some(FieldToken::TraceId)
    } else if same_text(token, "span_id") {
        Some(FieldToken::SpanId)
    } else {
        None
    }
}

/// The field that a token names.
pub fn parse_scalar_field_token(token: &str) -> (r: Result<FieldToken, FilterError>)
    ensures
        match field_of(token@) {
            Ok(f) => r is Ok && r->Ok_0@ == f,
            Err(m) => r is Err && r->Err_0@ == m,
        },
{
    if let Some(name) = strip_prefix(token, "request_header.") {
        if name.as_str().is_empty() {
            return Err(
                FilterError::from_text(
                    "access_log: request_header token must include a header name",
                ),
            );
        }
        return Ok(FieldToken::RequestHeader(to_lower(name.as_str())));
    }
    if let Some(name) = strip_prefix(token, "response_header.") {
        if name.as_str().is_empty() {
            return Err(
                FilterError::from_text(
                    "access_log: response_header token must include a header name",
                ),
            );
        }
        return Ok(FieldToken::ResponseHeader(to_lower(name.as_str())));
    }
    match parse_plain_field(token) {
        Some(field) => Ok(field),
        None => {
            if same_text(token, "filter_results") {
                Err(FilterError::from_text("access_log: filter_results is not supported in v1"))
            } else {
                Err(
                    FilterError::new(
                        concat2("access_log: unknown field token ", quote(token).as_str()),
                    ),
                )
            }
        },
    }
}

/// The fields of a record where none are configured.
pub open spec fn default_fields() -> Seq<FieldView> {
    seq![
        FieldView::Method,
        FieldView::Path,
        FieldView::ClientIp,
        FieldView::Status,
        FieldView::DurationMs,
        FieldView::Cluster,
        FieldView::Upstream,
        FieldView::RequestId,
        FieldView::RequestBodyBytes,
        FieldView::ResponseBodyBytes,
    ]
}

fn default_field_tokens() -> (r: Vec<FieldToken>)
    ensures
        field_views(r@) == default_fields(),
{
    let mut out: Vec<FieldToken> = Vec::new();
    out.push(FieldToken::Method);
    out.push(FieldToken::Path);
    out.push(FieldToken::ClientIp);
    out.push(FieldToken::Status);
    out.push(FieldToken::DurationMs);
    out.push(FieldToken::Cluster);
    out.push(FieldToken::Upstream);
    out.push(FieldToken::RequestId);
    out.push(FieldToken::RequestBodyBytes);
    out.push(FieldToken::ResponseBodyBytes);
    proof {
        assert(field_views(out@) =~= default_fields());
    }
    out
}

/// The fields that tokens name, or the first refusal.
pub open spec fn fields_of(tokens: Seq<Seq<char>>) -> Result<Seq<FieldView>, Seq<char>>
    decreases tokens.len(),
{
    if tokens.len() == 0 {
        Ok(Seq::empty())
    } else {
        match fields_of(tokens.drop_last()) {
            Err(m) => Err(m),
            Ok(before) => match field_of(tokens.last()) {
                Err(m) => Err(m),
                Ok(f) => Ok(before.push(f)),
            },
        }
    }
}

proof fn lemma_fields_prefix(tokens: Seq<Seq<char>>, n: int)
    requires
        0 <= n <= tokens.len(),
        fields_of(tokens.take(n)) is Err,
    ensures
        fields_of(tokens) == fields_of(tokens.take(n)),
    decreases tokens.len() - n,
{
    if n == tokens.len() {
        assert(tokens.take(n) =~= tokens);
    } else {
        assert(tokens.take(n + 1).drop_last() =~= tokens.take(n));
        lemma_fields_prefix(tokens, n + 1);
    }
}

/// Why a field is refused, if it is: its header must be in the list of its side.
pub open spec fn listing_error(
    field: FieldView,
    request_headers: Seq<Seq<char>>,
    response_headers: Seq<Seq<char>>,
) -> Option<Seq<char>> {
    match field {
        FieldView::RequestHeader(n) => if request_headers.contains(n) {
            None
        } else {
            Some(
                "access_log: request_header."@ + n + " requires "@ + quoted(n)
                    + " in request_headers"@,
            )
        },
        FieldView::ResponseHeader(n) => if response_headers.contains(n) {
            None
        } else {
            Some(
                "access_log: response_header."@ + n + " requires "@ + quoted(n)
                    + " in response_headers"@,
            )
        },
        _ => None,
    }
}

/// The refusal of the first field that has one.
pub open spec fn first_listing_error(
    fields: Seq<FieldView>,
    request_headers: Seq<Seq<char>>,
    response_headers: Seq<Seq<char>>,
) -> Option<Seq<char>>
    decreases fields.len(),
{
    if fields.len() == 0 {
        None
    } else {
        match listing_error(fields[0], request_headers, response_headers) {
            Some(m) => Some(m),
            None => first_listing_error(fields.skip(1), request_headers, response_headers),
        }
    }
}

/// The fields of a record, or the first refusal.
pub open spec fn selected_fields(
    tokens: Option<Seq<Seq<char>>>,
    request_headers: Seq<Seq<char>>,
    response_headers: Seq<Seq<char>>,
) -> Result<Seq<FieldView>, Seq<char>> {
    match tokens {
        None => Ok(default_fields()),
        Some(list) => match fields_of(list) {
            Err(m) => Err(m),
            Ok(fields) => match first_listing_error(fields, request_headers, response_headers) {
                Some(m) => Err(m),
                None => Ok(fields),
            },
        },
    }
}

fn parse_tokens(list: &Vec<String>) -> (r: Result<Vec<FieldToken>, FilterError>)
    ensures
        match fields_of(texts(list@)) {
            Ok(fields) => r is Ok && field_views(r->Ok_0@) == fields,
            Err(m) => r is Err && r->Err_0@ == m,
        },
{
    let ghost all = texts(list@);
    let mut out: Vec<FieldToken> = Vec::new();
    let mut i: usize = 0;
    proof {
        assert(all.take(0) =~= Seq::empty());
        assert(field_views(out@) =~= Seq::empty());
    }
    while i < list.len()
        invariant
            all == texts(list@),
            i <= list@.len(),
            fields_of(all.take(i as int)) == Ok::<Seq<FieldView>, Seq<char>>(field_views(out@)),
        decreases list@.len() - i,
    {
        proof {
            assert(all.take(i + 1).drop_last() =~= all.take(i as int));
            assert(all.take(i + 1).last() == list@[i as int]@);
            if fields_of(all.take(i + 1)) is Err {
                lemma_fields_prefix(all, i + 1);
            }
        }
        match parse_scalar_field_token(list[i].as_str()) {
            Ok(field) => {
                let ghost before = out@;
                out.push(field);
                proof {
                    assert(field_views(out@) =~= field_views(before).push(field@));
                }
            },
            Err(e) => {
                return Err(e);
            },
        }
        i += 1;
    }
    proof {
        assert(all.take(all.len() as int) =~= all);
    }
    Ok(out)
}

fn listing_message(side: &str, name: &str, list: &str) -> (r: FilterError)
    ensures
        r@ == "access_log: "@ + side@ + name@ + " requires "@ + quoted(name@) + list@,
{
    let mut message = concat4("access_log: ", side, name, " requires ");
    message.push_str(quote(name).as_str());
    message.push_str(list);
    FilterError::new(message)
}

/// The fields of a record. A header field needs its header in the list of its
/// side.
pub fn parse_field_tokens(
    fields: &Option<Vec<String>>,
    request_headers: &Vec<String>,
    response_headers: &Vec<String>,
) -> (r: Result<Vec<FieldToken>, FilterError>)
    ensures
        match selected_fields(
            match *fields {
                Some(list) => Some(texts(list@)),
                None => None,
            },
            texts(request_headers@),
            texts(response_headers@),
        ) {
            Ok(selected) => r is Ok && field_views(r->Ok_0@) == selected,
            Err(m) => r is Err && r->Err_0@ == m,
        },
{
    let tokens = match fields {
        None => {
            return Ok(default_field_tokens());
        },
        Some(list) => match parse_tokens(list) {
            Ok(tokens) => tokens,
            Err(e) => {
                return Err(e);
            },
        },
    };
    let ghost views = field_views(tokens@);
    let ghost req = texts(request_headers@);
    let ghost resp = texts(response_headers@);
    let mut i: usize = 0;
    proof {
        assert(views.skip(0) =~= views);
    }
    while i < tokens.len()
        invariant
            views == field_views(tokens@),
            req == texts(request_headers@),
            resp == texts(response_headers@),
            *fields is Some,
            fields_of(texts(fields->0@)) == Ok::<Seq<FieldView>, Seq<char>>(views),
            i <= tokens@.len(),
            first_listing_error(views.skip(i as int), req, resp) == first_listing_error(
                views,
                req,
                resp,
            ),
        decreases tokens@.len() - i,
    {
        proof {
            assert(views.skip(i as int)[0] == tokens@[i as int]@);
            assert(views.skip(i as int).skip(1) =~= views.skip(i + 1));
        }
        match &tokens[i] {
            FieldToken::RequestHeader(name) => {
                if !list_contains(request_headers, name.as_str()) {
                    let e = listing_message(
                        "request_header.",
                        name.as_str(),
                        " in request_headers",
                    );
                    proof {
                        reveal_strlit("access_log: ");
                        reveal_strlit("request_header.");
                        reveal_strlit("access_log: request_header.");
                        assert("access_log: "@ + "request_header."@
                            =~= "access_log: request_header."@);
                    }
                    return Err(e);
                }
            },
            FieldToken::ResponseHeader(name) => {
                if !list_contains(response_headers, name.as_str()) {
                    let e = listing_message(
                        "response_header.",
                        name.as_str(),
                        " in response_headers",
                    );
                    proof {
                        reveal_strlit("access_log: ");
                        reveal_strlit("response_header.");
                        reveal_strlit("access_log: response_header.");
                        assert("access_log: "@ + "response_header."@
                            =~= "access_log: response_header."@);
                    }
                    return Err(e);
                }
            },
            _ => {},
        }
        i += 1;
    }
    Ok(tokens)
}

/// Why conditions are refused, if they are.
pub open spec fn conditions_error(conditions: Option<AccessLogEmitConditions>) -> Option<Seq<char>> {
    match conditions {
        None => None,
        Some(c) => {
            let no_classes = c.status_classes is None || c.status_classes->0@.len() == 0;
            let no_paths = c.paths is None || c.paths->0@.len() == 0;
            if c.min_duration_ms is None && no_classes && no_paths {
                Some(
                    "access_log: conditions must include at least one of min_duration_ms, status_classes, or paths"@,
                )
            } else if c.status_classes is Some && no_classes {
                Some("access_log: status_classes must not be empty when present"@)
            } else if c.paths is Some && no_paths {
                Some("access_log: paths must not be empty when present"@)
            } else if c.paths is Some {
                first_glob(texts(c.paths->0@))
            } else {
                None
            }
        },
    }
}

/// The refusal of the first path with a glob.
pub open spec fn first_glob(paths: Seq<Seq<char>>) -> Option<Seq<char>>
    decreases paths.len(),
{
    if paths.len() == 0 {
        None
    } else if paths[0].contains('*') {
        Some("access_log: paths must be prefixes without globs, got "@ + quoted(paths[0]))
    } else {
        first_glob(paths.skip(1))
    }
}

/// Checks the conditions under which a record is written.
pub fn validate_emit_conditions(conditions: &Option<AccessLogEmitConditions>) -> (r: Result<
    (),
    FilterError,
>)
    ensures
        match conditions_error(*conditions) {
            None => r is Ok,
            Some(m) => r is Err && r->Err_0@ == m,
        },
{
    let c = match conditions {
        None => {
            return Ok(());
        },
        Some(c) => c,
    };
    let no_classes = match &c.status_classes {
        Some(classes) => classes.len() == 0,
        None => true,
    };
    let no_paths = match &c.paths {
        Some(paths) => paths.len() == 0,
        None => true,
    };
    if c.min_duration_ms.is_none() && no_classes && no_paths {
        return Err(
            FilterError::from_text(
                "access_log: conditions must include at least one of min_duration_ms, status_classes, or paths",
            ),
        );
    }
    if c.status_classes.is_some() && no_classes {
        return Err(
            FilterError::from_text("access_log: status_classes must not be empty when present"),
        );
    }
    if let Some(paths) = &c.paths {
        if paths.len() == 0 {
            return Err(
                FilterError::from_text("access_log: paths must not be empty when present"),
            );
        }
        let ghost all = texts(paths@);
        let mut i: usize = 0;
        proof {
            assert(all.skip(0) =~= all);
        }
        while i < paths.len()
            invariant
                all == texts(paths@),
                conditions_error(*conditions) == first_glob(all),
                i <= paths@.len(),
                first_glob(all.skip(i as int)) == first_glob(all),
            decreases paths@.len() - i,
        {
            proof {
                assert(all.skip(i as int)[0] == paths@[i as int]@);
                assert(all.skip(i as int).skip(1) =~= all.skip(i + 1));
            }
            if contains_char(paths[i].as_str(), '*') {
                return Err(
                    FilterError::new(
                        concat2(
                            "access_log: paths must be prefixes without globs, got ",
                            quote(paths[i].as_str()).as_str(),
                        ),
                    ),
                );
            }
            i += 1;
        }
    }
    Ok(())
}

// Log sanitization.

/// A control character of Unicode's category Cc.
pub open spec fn control(c: char) -> bool {
    c <= '\u{1f}' || ('\u{7f}' <= c && c <= '\u{9f}')
}

/// An ASCII letter.
pub open spec fn letter(c: char) -> bool {
    ('a' <= c && c <= 'z') || ('A' <= c && c <= 'Z')
}

/// What follows an escape sequence: all after its first letter.
pub open spec fn after_escape(s: Seq<char>) -> Seq<char>
    decreases s.len(),
{
    if s.len() == 0 {
        s
    } else if letter(s[0]) {
        s.skip(1)
    } else {
        after_escape(s.skip(1))
    }
}

/// `s` without control characters and without ANSI escape sequences.
pub open spec fn sanitized(s: Seq<char>) -> Seq<char>
    decreases s.len(),
    via sanitized_decreases
{
    if s.len() == 0 {
        s
    } else if s[0] == '\u{1b}' && s.len() > 1 && s[1] == '[' {
        sanitized(after_escape(s.skip(2)))
    } else if control(s[0]) {
        sanitized(s.skip(1))
    } else {
        seq![s[0]] + sanitized(s.skip(1))
    }
}

#[via_fn]
proof fn sanitized_decreases(s: Seq<char>) {
    if s.len() > 1 {
        lemma_after_escape_len(s.skip(2));
    }
}

proof fn lemma_after_escape_len(s: Seq<char>)
    ensures
        after_escape(s).len() <= s.len(),
    decreases s.len(),
{
    if s.len() > 0 && !letter(s[0]) {
        lemma_after_escape_len(s.skip(1));
    }
}

/// Whether a text holds a control character.
pub open spec fn any_control(s: Seq<char>) -> bool {
    exists|i: int| 0 <= i < s.len() && control(#[trigger] s[i])
}

/// A text without control characters is logged as it is.
pub proof fn law_clean_text_kept(s: Seq<char>)
    requires
        !any_control(s),
    ensures
        sanitized(s) == s,
    decreases s.len(),
{
    if s.len() > 0 {
        assert(!control(s[0]));
        let rest = s.skip(1);
        assert forall|i: int| 0 <= i < rest.len() implies !control(#[trigger] rest[i]) by {
            assert(rest[i] == s[i + 1]);
        }
        law_clean_text_kept(rest);
        assert(seq![s[0]] + rest =~= s);
    }
}

/// What is logged holds no control character, so no request can forge a line
/// of the log.
pub proof fn law_sanitized_has_no_control(s: Seq<char>)
    ensures
        !any_control(sanitized(s)),
    decreases s.len(),
{
    if s.len() == 0 {
    } else if s[0] == '\u{1b}' && s.len() > 1 && s[1] == '[' {
        lemma_after_escape_len(s.skip(2));
        law_sanitized_has_no_control(after_escape(s.skip(2)));
    } else if control(s[0]) {
        law_sanitized_has_no_control(s.skip(1));
    } else {
        law_sanitized_has_no_control(s.skip(1));
        let rest = sanitized(s.skip(1));
        assert forall|i: int| 0 <= i < sanitized(s).len() implies !control(
            #[trigger] sanitized(s)[i],
        ) by {
            if i > 0 {
                assert(sanitized(s)[i] == rest[i - 1]);
            }
        }
    }
}

/// Sanitizing twice changes nothing more.
pub proof fn law_sanitized_idempotent(s: Seq<char>)
    ensures
        sanitized(sanitized(s)) == sanitized(s),
{
    law_sanitized_has_no_control(s);
    law_clean_text_kept(sanitized(s));
}

fn is_control_char(c: char) -> (r: bool)
    ensures
        r == control(c),
{
    c <= '\u{1f}' || ('\u{7f}' <= c && c <= '\u{9f}')
}

fn is_letter(c: char) -> (r: bool)
    ensures
        r == letter(c),
{
    ('a' <= c && c <= 'z') || ('A' <= c && c <= 'Z')
}

/// Strips control characters and ANSI escapes from a text that is to be logged.
/// A text without them is handed back as it is.
pub fn sanitize_for_log(s: &str) -> (r: Cow<'_, str>)
    ensures
        r@ == sanitized(s@),
        r is Borrowed <==> !any_control(s@),
{
    let chars = chars_of(s);
    let mut clean: bool = true;
    let mut i: usize = 0;
    while i < chars.len()
        invariant
            chars@ == s@,
            i <= chars@.len(),
            clean <==> forall|k: int| 0 <= k < i ==> !control(#[trigger] s@[k]),
        decreases chars@.len() - i,
    {
        if is_control_char(chars[i]) {
            proof {
                assert(control(s@[i as int]));
            }
            clean = false;
        }
        i += 1;
    }
    if clean {
        proof {
            law_clean_text_kept(s@);
        }
        return Cow::Borrowed(s);
    }
    let mut out = String::new();
    let mut at: usize = 0;
    proof {
        assert(s@.skip(0) =~= s@);
        assert(out@ + sanitized(s@) =~= sanitized(s@));
    }
    while at < chars.len()
        invariant
            chars@ == s@,
            at <= chars@.len(),
            out@ + sanitized(s@.skip(at as int)) == sanitized(s@),
        decreases chars@.len() - at,
    {
        let c: char = chars[at];
        let ghost rest = s@.skip(at as int);
        proof {
            assert(rest[0] == c);
            assert(rest.skip(1) =~= s@.skip(at + 1));
        }
        if c == '\u{1b}' && at + 1 < chars.len() && chars[at + 1] == '[' {
            proof {
                assert(rest[1] == '[');
                assert(rest.skip(2) =~= s@.skip(at + 2));
            }
            at = skip_escape(&chars, at + 2);
        } else {
            if !is_control_char(c) {
                let ghost before = out@;
                out.push(c);
                proof {
                    assert(before + (seq![c] + sanitized(rest.skip(1))) =~= out@ + sanitized(
                        rest.skip(1),
                    ));
                }
            }
            at += 1;
        }
    }
    proof {
        assert(s@.skip(s@.len() as int).len() == 0);
        assert(out@ + sanitized(s@.skip(s@.len() as int)) =~= out@);
    }
    Cow::Owned(out)
}

/// The place after an escape sequence whose parameters begin at `from`.
fn skip_escape(chars: &Vec<char>, from: usize) -> (r: usize)
    requires
        from <= chars@.len(),
    ensures
        from <= r <= chars@.len(),
        chars@.skip(r as int) == after_escape(chars@.skip(from as int)),
{
    let mut at: usize = from;
    while at < chars.len()
        invariant
            from <= at <= chars@.len(),
            after_escape(chars@.skip(at as int)) == after_escape(chars@.skip(from as int)),
        decreases chars@.len() - at,
    {
        proof {
            assert(chars@.skip(at as int)[0] == chars@[at as int]);
            assert(chars@.skip(at as int).skip(1) =~= chars@.skip(at + 1));
        }
        let found = is_letter(chars[at]);
        at += 1;
        if found {
            return at;
        }
    }
    at
}

/// Saturates a duration at the largest count.
pub fn truncate_u128(v: u128) -> (r: u64)
    ensures
        r == if v <= u64::MAX {
            v
        } else {
            u64::MAX as u128
        },
{
    if v <= u64::MAX as u128 {
        v as u64
    } else {
        u64::MAX
    }
}

// Records.

/// What the access log reads and leaves on a request.
pub struct AccessContext {
    /// Request method.
    pub method: String,
    /// Request path.
    pub path: String,
    /// Client address.
    pub client_addr: Option<String>,
    /// Selected cluster.
    pub cluster: Option<String>,
    /// Selected upstream.
    pub upstream: Option<String>,
    /// Request id.
    pub request_id: Option<String>,
    /// Bytes of the request body.
    pub request_body_bytes: u64,
    /// Bytes of the response body.
    pub response_body_bytes: u64,
    /// Request headers.
    pub request_headers: HeaderMap,
    /// Trace and span id of the current span, where tracing provides them.
    pub otel_ids: Option<(String, String)>,
    /// Whether a record was written for this request.
    pub emitted: bool,
    /// What the response phase left for the body phase.
    pub state: Option<AccessLogState>,
}

/// Response facts kept until the body ends.
pub struct AccessLogState {
    /// Response status.
    pub status: u16,
    /// Response headers, where a field needs them.
    pub response_headers: Option<HeaderMap>,
}

/// A response's head.
pub struct ResponseHead {
    /// Status.
    pub status: u16,
    /// Headers.
    pub headers: HeaderMap,
}

/// Whether a response is delivered without a body phase.
pub open spec fn bodyless(status: u16, method: Seq<char>) -> bool {
    status < 200 || status == 204 || status == 304 || method == "HEAD"@
}

/// Whether a response is delivered without a body phase.
pub fn bodyless_response(status: u16, req_method: &str) -> (r: bool)
    ensures
        r == bodyless(status, req_method@),
{
    status < 200 || status == 204 || status == 304 || same_text(req_method, "HEAD")
}

/// Whether a record was written for this request.
pub fn access_record_already_emitted(ctx: &AccessContext) -> (r: bool)
    ensures
        r == ctx.emitted,
{
    ctx.emitted
}

/// Notes that a record was written for this request.
pub fn mark_access_record_emitted(ctx: &mut AccessContext)
    ensures
        *final(ctx) == (AccessContext { emitted: true, ..*old(ctx) }),
{
    ctx.emitted = true;
}

/// An optional text, or a dash.
pub open spec fn or_dash(t: Option<String>) -> Seq<char> {
    match t {
        Some(s) => s@,
        None => "-"@,
    }
}

fn text_or_dash(t: &Option<String>) -> (r: String)
    ensures
        r@ == or_dash(*t),
{
    match t {
        Some(s) => s.clone(),
        None => "-".to_owned(),
    }
}

/// The client's address; empty where it is not known.
pub open spec fn client_text(ctx: AccessContext) -> Seq<char> {
    match ctx.client_addr {
        Some(s) => s@,
        None => Seq::empty(),
    }
}

fn client_ip_text(ctx: &AccessContext) -> (r: String)
    ensures
        r@ == client_text(*ctx),
{
    match &ctx.client_addr {
        Some(s) => s.clone(),
        None => String::new(),
    }
}

/// A record with the standard fields.
pub struct AccessRecord {
    /// Request method.
    pub method: String,
    /// Request path, sanitized.
    pub path: String,
    /// Client address.
    pub client_ip: String,
    /// Response status.
    pub status: u16,
    /// Duration in milliseconds.
    pub duration_ms: u64,
    /// Selected cluster.
    pub cluster: String,
    /// Selected upstream.
    pub upstream: String,
    /// Request id.
    pub request_id: String,
    /// Bytes of the request body.
    pub request_body_bytes: u64,
    /// Bytes of the response body.
    pub response_body_bytes: u64,
    /// Trace and span id.
    pub otel_ids: Option<(String, String)>,
}

/// Whether `record` holds the standard fields of a request.
pub open spec fn is_record(
    record: AccessRecord,
    ctx: AccessContext,
    status: u16,
    duration_ms: u64,
) -> bool {
    &&& record.method@ == ctx.method@
    &&& record.path@ == sanitized(ctx.path@)
    &&& record.client_ip@ == client_text(ctx)
    &&& record.status == status
    &&& record.duration_ms == duration_ms
    &&& record.cluster@ == or_dash(ctx.cluster)
    &&& record.upstream@ == or_dash(ctx.upstream)
    &&& record.request_id@ == or_dash(ctx.request_id)
    &&& record.request_body_bytes == ctx.request_body_bytes
    &&& record.response_body_bytes == ctx.response_body_bytes
}

/// The characters of a sanitized text.
fn owned_text(s: &str) -> (r: String)
    ensures
        r@ == sanitized(s@),
{
    match sanitize_for_log(s) {
        Cow::Borrowed(b) => b.to_owned(),
        Cow::Owned(o) => o,
    }
}

/// The standard record of a request, without trace ids.
pub fn default_record(ctx: &AccessContext, status: u16, duration_ms: u64) -> (r: AccessRecord)
    ensures
        is_record(r, *ctx, status, duration_ms),
        r.otel_ids is None,
        r.method@ == ctx.method@,
        r.path@ == sanitized(ctx.path@),
        r.client_ip@ == match ctx.client_addr {
            Some(addr) => addr@,
            None => Seq::empty(),
        },
        r.status == status,
        r.duration_ms == duration_ms,
        r.cluster@ == match ctx.cluster {
            Some(name) => name@,
            None => "-"@,
        },
        r.upstream@ == match ctx.upstream {
            Some(addr) => addr@,
            None => "-"@,
        },
        r.request_id@ == match ctx.request_id {
            Some(id) => id@,
            None => "-"@,
        },
        r.request_body_bytes == ctx.request_body_bytes,
        r.response_body_bytes == ctx.response_body_bytes,
{
    AccessRecord {
        method: ctx.method.clone(),
        path: owned_text(ctx.path.as_str()),
        client_ip: client_ip_text(ctx),
        status,
        duration_ms,
        cluster: text_or_dash(&ctx.cluster),
        upstream: text_or_dash(&ctx.upstream),
        request_id: text_or_dash(&ctx.request_id),
        request_body_bytes: ctx.request_body_bytes,
        response_body_bytes: ctx.response_body_bytes,
        otel_ids: None,
    }
}

/// The record of a request whose life ended before the filter's hooks ran: the
/// standard fields, with the trace ids where there are any. It is not sampled.
pub fn emit_access_record(ctx: &AccessContext, status: u16, elapsed_ms: u128) -> (r: AccessRecord)
    ensures
        is_record(
            r,
            *ctx,
            status,
            if elapsed_ms <= u64::MAX {
                elapsed_ms as u64
            } else {
                u64::MAX
            },
        ),
        match (ctx.otel_ids, r.otel_ids) {
            (Some(ids), Some(kept)) => kept.0@ == ids.0@ && kept.1@ == ids.1@,
            (None, None) => true,
            _ => false,
        },
        r.request_body_bytes == ctx.request_body_bytes,
        r.response_body_bytes == ctx.response_body_bytes,
{
    let mut record = default_record(ctx, status, truncate_u128(elapsed_ms));
    match &ctx.otel_ids {
        Some(ids) => {
            record.otel_ids = Some((ids.0.clone(), ids.1.clone()));
        },
        None => {},
    }
    record
}

/// The value of a header as it is logged: readable text on its first line.
pub open spec fn header_value(lines: Seq<(Seq<char>, Seq<u8>)>, name: Seq<char>) -> Option<
    Seq<char>,
> {
    if valid_name(name) {
        opt_value_text(first_value(lines, lower(name)))
    } else {
        None
    }
}

/// The value of a header as it is logged.
pub fn first_header_value(headers: &HeaderMap, name: &str) -> (r: Option<String>)
    ensures
        opt_text(r) == header_value(headers@, name@),
{
    match parse_header_name(name) {
        Some(n) => headers.first_text(n.as_str()),
        None => None,
    }
}

/// A header's name as part of a record's key.
pub fn header_json_key(name: &str) -> (r: String)
    ensures
        r@ == lower(name@),
{
    to_lower(name)
}

/// A logged value, or a dash.
pub open spec fn value_or_dash(t: Option<Seq<char>>) -> Seq<char> {
    match t {
        Some(s) => s,
        None => "-"@,
    }
}

/// The trace id of the current span, or a dash.
pub fn current_trace_id(ctx: &AccessContext) -> (r: String)
    ensures
        r@ == match ctx.otel_ids {
            Some(ids) => ids.0@,
            None => "-"@,
        },
{
    match &ctx.otel_ids {
        Some(ids) => ids.0.clone(),
        None => "-".to_owned(),
    }
}

/// The span id of the current span, or a dash.
pub fn current_span_id(ctx: &AccessContext) -> (r: String)
    ensures
        r@ == match ctx.otel_ids {
            Some(ids) => ids.1@,
            None => "-"@,
        },
{
    match &ctx.otel_ids {
        Some(ids) => ids.1.clone(),
        None => "-".to_owned(),
    }
}

/// The key and the value of a field.
pub open spec fn field_entry(
    field: FieldView,
    ctx: AccessContext,
    status: u16,
    response_headers: Option<Seq<(Seq<char>, Seq<u8>)>>,
    duration_ms: u64,
) -> (Seq<char>, Seq<char>) {
    match field {
        FieldView::Method => ("method"@, ctx.method@),
        FieldView::Path => ("path"@, sanitized(ctx.path@)),
        FieldView::ClientIp => ("client_ip"@, client_text(ctx)),
        FieldView::Status => ("status"@, decimal_digits(status as nat)),
        FieldView::DurationMs => ("duration_ms"@, decimal_digits(duration_ms as nat)),
        FieldView::Cluster => ("cluster"@, or_dash(ctx.cluster)),
        FieldView::Upstream => ("upstream"@, or_dash(ctx.upstream)),
        FieldView::RequestId => ("request_id"@, or_dash(ctx.request_id)),
        FieldView::RequestBodyBytes => (
            "request_body_bytes"@,
            decimal_digits(ctx.request_body_bytes as nat),
        ),
        FieldView::ResponseBodyBytes => (
            "response_body_bytes"@,
            decimal_digits(ctx.response_body_bytes as nat),
        ),
        FieldView::TraceId => (
            "trace_id"@,
            match ctx.otel_ids {
                Some(ids) => ids.0@,
                None => "-"@,
            },
        ),
        FieldView::SpanId => (
            "span_id"@,
            match ctx.otel_ids {
                Some(ids) => ids.1@,
                None => "-"@,
            },
        ),
        FieldView::RequestHeader(name) => (
            "request_header."@ + lower(name),
            value_or_dash(header_value(ctx.request_headers@, name)),
        ),
        FieldView::ResponseHeader(name) => (
            "response_header."@ + lower(name),
            value_or_dash(
                match response_headers {
                    Some(lines) => header_value(lines, name),
                    None => None,
                },
            ),
        ),
    }
}

/// The record of the selected fields, by key.
pub open spec fn record_of(
    fields: Seq<FieldView>,
    ctx: AccessContext,
    status: u16,
    response_headers: Option<Seq<(Seq<char>, Seq<u8>)>>,
    duration_ms: u64,
) -> Seq<(Seq<char>, Seq<char>)>
    decreases fields.len(),
{
    if fields.len() == 0 {
        Seq::empty()
    } else {
        let entry = field_entry(fields.last(), ctx, status, response_headers, duration_ms);
        put_pair(
            record_of(fields.drop_last(), ctx, status, response_headers, duration_ms),
            entry.0,
            entry.1,
        )
    }
}

/// The lines of optional headers.
pub open spec fn opt_lines(headers: Option<&HeaderMap>) -> Option<Seq<(Seq<char>, Seq<u8>)>> {
    match headers {
        Some(h) => Some(h@),
        None => None,
    }
}

/// Which fields a record holds.
pub struct EmitPlan {
    /// The fields.
    pub fields: Vec<FieldToken>,
    /// Whether no fields were configured.
    pub is_default: bool,
}

fn field_pair(
    field: &FieldToken,
    ctx: &AccessContext,
    status: u16,
    response_headers: Option<&HeaderMap>,
    duration_ms: u64,
) -> (r: (String, String))
    ensures
        (r.0@, r.1@) == field_entry(field@, *ctx, status, opt_lines(response_headers), duration_ms),
{
    match field {
        FieldToken::Method => ("method".to_owned(), ctx.method.clone()),
        FieldToken::Path => ("path".to_owned(), owned_text(ctx.path.as_str())),
        FieldToken::ClientIp => ("client_ip".to_owned(), client_ip_text(ctx)),
        FieldToken::Status => ("status".to_owned(), decimal(status as u64)),
        FieldToken::DurationMs => ("duration_ms".to_owned(), decimal(duration_ms)),
        FieldToken::Cluster => ("cluster".to_owned(), text_or_dash(&ctx.cluster)),
        FieldToken::Upstream => ("upstream".to_owned(), text_or_dash(&ctx.upstream)),
        FieldToken::RequestId => ("request_id".to_owned(), text_or_dash(&ctx.request_id)),
        FieldToken::RequestBodyBytes => (
            "request_body_bytes".to_owned(),
            decimal(ctx.request_body_bytes),
        ),
        FieldToken::ResponseBodyBytes => (
            "response_body_bytes".to_owned(),
            decimal(ctx.response_body_bytes),
        ),
        FieldToken::TraceId => ("trace_id".to_owned(), current_trace_id(ctx)),
        FieldToken::SpanId => ("span_id".to_owned(), current_span_id(ctx)),
        FieldToken::RequestHeader(name) => {
            let key = concat2("request_header.", header_json_key(name.as_str()).as_str());
            let value = match first_header_value(&ctx.request_headers, name.as_str()) {
                Some(v) => v,
                None => "-".to_owned(),
            };
            (key, value)
        },
        FieldToken::ResponseHeader(name) => {
            let key = concat2("response_header.", header_json_key(name.as_str()).as_str());
            let found = match response_headers {
                Some(headers) => first_header_value(headers, name.as_str()),
                None => None,
            };
            let value = match found {
                Some(v) => v,
                None => "-".to_owned(),
            };
            (key, value)
        },
    }
}

impl EmitPlan {
    /// The record of the selected fields, by key.
    pub fn build_record(
        &self,
        ctx: &AccessContext,
        status: u16,
        response_headers: Option<&HeaderMap>,
        duration_ms: u64,
    ) -> (r: SortedMap<String>)
        ensures
            text_pairs(r@) == record_of(
                field_views(self.fields@),
                *ctx,
                status,
                opt_lines(response_headers),
                duration_ms,
            ),
            ascending(r@),
    {
        let ghost views = field_views(self.fields@);
        let ghost lines = opt_lines(response_headers);
        let mut record: SortedMap<String> = SortedMap::new();
        let mut i: usize = 0;
        proof {
            assert(views.take(0) =~= Seq::empty());
            assert(text_pairs(record@) =~= Seq::empty());
        }
        while i < self.fields.len()
            invariant
                views == field_views(self.fields@),
                lines == opt_lines(response_headers),
                i <= self.fields@.len(),
                text_pairs(record@) == record_of(
                    views.take(i as int),
                    *ctx,
                    status,
                    lines,
                    duration_ms,
                ),
                ascending(record@),
            decreases self.fields@.len() - i,
        {
            let (key, value) = field_pair(
                &self.fields[i],
                ctx,
                status,
                response_headers,
                duration_ms,
            );
            proof {
                assert(views.take(i + 1).drop_last() =~= views.take(i as int));
                assert(views.take(i + 1).last() == self.fields@[i as int]@);
                lemma_put_text(record@, key@, value);
            }
            record.put(key.as_str(), value);
            i += 1;
        }
        proof {
            assert(views.take(views.len() as int) =~= views);
        }
        record
    }
}

/// The JSON object with these members.
pub uninterp spec fn json_object(members: Seq<(Seq<char>, Seq<char>)>) -> Seq<char>;

/// `serde_json::to_string` on a `BTreeMap` of the members: the JSON object that
/// holds them. How it is written down is left to the crate.
#[verifier::external_body]
fn render_object(members: Vec<(String, String)>) -> (r: String)
    ensures
        r@ == json_object(pairs(members@)),
{
    let object: std::collections::BTreeMap<String, String> = members.into_iter().collect();
    serde_json::to_string(&object).unwrap_or_default()
}

/// The text of a record with selected fields: one JSON object, or nothing for
/// an empty record.
pub fn projected_record(record: &SortedMap<String>) -> (r: Option<String>)
    ensures
        opt_text(r) == projection(text_pairs(record@)),
{
    if record.len() == 0 {
        return None;
    }
    let mut members: Vec<(String, String)> = Vec::new();
    let mut i: usize = 0;
    while i < record.len()
        invariant
            i <= record@.len(),
            members@.len() == i,
            forall|k: int|
                0 <= k < i ==> (#[trigger] members@[k]).0@ == record@[k].0 && members@[k].1@
                    == record@[k].1@,
        decreases record@.len() - i,
    {
        members.push((record.key_at(i).clone(), record.value_at(i).clone()));
        i += 1;
    }
    proof {
        assert(pairs(members@) =~= text_pairs(record@));
    }
    Some(render_object(members))
}

/// The text of a record with selected fields.
pub open spec fn projection(record: Seq<(Seq<char>, Seq<char>)>) -> Option<Seq<char>> {
    if record.len() == 0 {
        None
    } else {
        Some(json_object(record))
    }
}

// The filter.

/// What is written to the log.
pub enum LogEntry {
    /// A record with the standard fields.
    Standard(AccessRecord),
    /// A record with selected fields, as one JSON object.
    Projected(String),
}

/// Filter settings. `sample` is the rate times the scale, rounded; or the error
/// for a rate that is out of range.
pub struct AccessLogConfig {
    /// The scaled rate, or why the rate is refused.
    pub sample: Result<u64, FilterError>,
    /// Field tokens, `None` for one that is no text.
    pub fields: Option<Vec<Option<String>>>,
    /// Request headers that fields may name.
    pub request_headers: Option<Vec<String>>,
    /// Response headers that fields may name.
    pub response_headers: Option<Vec<String>>,
    /// Conditions under which a record is written.
    pub conditions: Option<AccessLogEmitConditions>,
}

/// Writes a structured record for each request it selects.
pub struct AccessLogFilter {
    /// Requests that were sampled so far.
    pub counter: u64,
    /// Requests logged out of every window.
    pub sample_numerator: u64,
    /// Selected fields.
    pub emit_plan: EmitPlan,
    /// Conditions under which a record is written.
    pub emit_conditions: Option<AccessLogEmitConditions>,
    /// Whether response headers must be kept for the record.
    pub needs_response_headers: bool,
}

/// Whether a field reads response headers.
pub open spec fn reads_response(fields: Seq<FieldView>) -> bool {
    exists|i: int| 0 <= i < fields.len() && #[trigger] fields[i] is ResponseHeader
}

/// The field tokens that are texts.
pub open spec fn token_texts(fields: Seq<Option<String>>) -> Seq<Seq<char>> {
    fields.map_values(|t: Option<String>| t->0@)
}

/// Why the field tokens are refused before they are read, if they are.
pub open spec fn fields_error(fields: Option<Vec<Option<String>>>) -> Option<Seq<char>> {
    match fields {
        None => None,
        Some(list) => if list@.len() == 0 {
            Some("access_log: fields must not be empty when present"@)
        } else if exists|i: int| 0 <= i < list@.len() && #[trigger] list@[i] is None {
            Some(
                "access_log: fields must be a list of scalar tokens; nested maps are not allowed"@,
            )
        } else {
            None
        },
    }
}

/// The fields that settings select, or why the settings are refused.
pub open spec fn config_fields(cfg: AccessLogConfig) -> Result<Seq<FieldView>, Seq<char>> {
    if cfg.sample is Err {
        Err(cfg.sample->Err_0@)
    } else if fields_error(cfg.fields) is Some {
        Err(fields_error(cfg.fields)->0)
    } else {
        match (
            normalized(opt_list(cfg.request_headers)),
            normalized(opt_list(cfg.response_headers)),
        ) {
            (Err(m), _) => Err(m),
            (Ok(_), Err(m)) => Err(m),
            (Ok(request), Ok(response)) => if cfg.request_headers is Some && request.len() == 0 {
                Err("access_log: request_headers must not be empty when present"@)
            } else if cfg.response_headers is Some && response.len() == 0 {
                Err("access_log: response_headers must not be empty when present"@)
            } else {
                match selected_fields(
                    match cfg.fields {
                        Some(list) => Some(token_texts(list@)),
                        None => None,
                    },
                    request,
                    response,
                ) {
                    Err(m) => Err(m),
                    Ok(fields) => match conditions_error(cfg.conditions) {
                        Some(m) => Err(m),
                        None => Ok(fields),
                    },
                }
            },
        }
    }
}

/// A scaled rate brought into the range of accepted numerators.
pub open spec fn clamped(scaled: u64) -> u64 {
    if scaled < 1 {
        1
    } else if scaled > SAMPLE_SCALE {
        SAMPLE_SCALE
    } else {
        scaled
    }
}

/// The field tokens, which must all be texts.
fn take_tokens(fields: &Option<Vec<Option<String>>>) -> (r: Result<
    Option<Vec<String>>,
    FilterError,
>)
    ensures
        match fields_error(*fields) {
            Some(m) => r is Err && r->Err_0@ == m,
            None => {
                &&& r is Ok
                &&& r->Ok_0 is Some <==> *fields is Some
                &&& r->Ok_0 matches Some(list) ==> texts(list@) == token_texts(fields->0@)
            },
        },
{
    match fields {
        None => Ok(None),
        Some(list) => {
            if list.len() == 0 {
                return Err(
                    FilterError::from_text("access_log: fields must not be empty when present"),
                );
            }
            let mut out: Vec<String> = Vec::new();
            let mut i: usize = 0;
            while i < list.len()
                invariant
                    *fields == Some(*list),
                    0 < list@.len(),
                    i <= list@.len(),
                    out@.len() == i,
                    forall|k: int| 0 <= k < i ==> #[trigger] list@[k] is Some,
                    forall|k: int| 0 <= k < i ==> (#[trigger] out@[k])@ == list@[k]->0@,
                decreases list@.len() - i,
            {
                let token = match &list[i] {
                    Some(t) => t.clone(),
                    None => {
                        proof {
                            assert(list@[i as int] is None);
                        }
                        return Err(
                            FilterError::from_text(
                                "access_log: fields must be a list of scalar tokens; nested maps are not allowed",
                            ),
                        );
                    },
                };
                out.push(token);
                i += 1;
            }
            proof {
                assert(texts(out@) =~= token_texts(list@));
            }
            Ok(Some(out))
        },
    }
}

fn any_response_header(fields: &Vec<FieldToken>) -> (r: bool)
    ensures
        r == reads_response(field_views(fields@)),
{
    let mut i: usize = 0;
    while i < fields.len()
        invariant
            i <= fields@.len(),
            forall|k: int| 0 <= k < i ==> !(#[trigger] field_views(fields@)[k] is ResponseHeader),
        decreases fields@.len() - i,
    {
        proof {
            assert(field_views(fields@)[i as int] == fields@[i as int]@);
        }
        match &fields[i] {
            FieldToken::ResponseHeader(_) => {
                return true;
            },
            _ => {},
        }
        i += 1;
    }
    false
}

/// Whether `path` lies under `prefix`, segment by segment.
pub open spec fn path_under(path: Seq<char>, prefix: Seq<char>) -> bool {
    has_prefix(path, prefix) && (path.len() == prefix.len() || (prefix.len() > 0 && prefix.last()
        == '/') || path[prefix.len() as int] == '/')
}

/// Whether `path` lies under `prefix`, segment by segment.
pub fn path_prefix_matches(path: &str, prefix: &str) -> (r: bool)
    ensures
        r == path_under(path@, prefix@),
{
    if !starts_with(path, prefix) {
        return false;
    }
    let p = chars_of(path);
    let q = chars_of(prefix);
    p.len() == q.len() || (q.len() > 0 && q[q.len() - 1] == '/') || p[q.len()] == '/'
}

/// Whether a request meets the conditions under which a record is written.
pub open spec fn meets(
    conditions: Option<AccessLogEmitConditions>,
    path: Seq<char>,
    status: u16,
    duration_ms: u64,
) -> bool {
    match conditions {
        None => true,
        Some(c) => {
            &&& c.min_duration_ms matches Some(least) ==> duration_ms >= least
            &&& c.status_classes matches Some(classes) ==> exists|i: int|
                0 <= i < classes@.len() && class_digit(#[trigger] classes@[i]) * 100 <= status
                    < class_digit(classes@[i]) * 100 + 100
            &&& c.paths matches Some(prefixes) ==> exists|i: int|
                0 <= i < prefixes@.len() && path_under(
                    sanitized(path),
                    (#[trigger] prefixes@[i])@,
                )
        },
    }
}

fn any_class(classes: &Vec<StatusClass>, status: u16) -> (r: bool)
    ensures
        r <==> exists|i: int|
            0 <= i < classes@.len() && class_digit(#[trigger] classes@[i]) * 100 <= status
                < class_digit(classes@[i]) * 100 + 100,
{
    let mut i: usize = 0;
    while i < classes.len()
        invariant
            i <= classes@.len(),
            forall|k: int|
                0 <= k < i ==> !(class_digit(#[trigger] classes@[k]) * 100 <= status < class_digit(
                    classes@[k],
                ) * 100 + 100),
        decreases classes@.len() - i,
    {
        if classes[i].matches(status) {
            proof {
                assert(class_digit(classes@[i as int]) * 100 <= status);
            }
            return true;
        }
        i += 1;
    }
    false
}

fn any_path(prefixes: &Vec<String>, path: &str) -> (r: bool)
    ensures
        r <==> exists|i: int|
            0 <= i < prefixes@.len() && path_under(path@, (#[trigger] prefixes@[i])@),
{
    let mut i: usize = 0;
    while i < prefixes.len()
        invariant
            i <= prefixes@.len(),
            forall|k: int| 0 <= k < i ==> !path_under(path@, (#[trigger] prefixes@[k])@),
        decreases prefixes@.len() - i,
    {
        if path_prefix_matches(path, prefixes[i].as_str()) {
            proof {
                assert(path_under(path@, prefixes@[i as int]@));
            }
            return true;
        }
        i += 1;
    }
    false
}

/// Whether the next request is logged by its place in the sampling window.
pub open spec fn next_sampled(filter: AccessLogFilter) -> bool {
    filter.sample_numerator >= SAMPLE_SCALE || sampled(
        filter.sample_numerator as nat,
        filter.counter as nat % (SAMPLE_SCALE as nat),
    )
}

/// The filter after one more request was sampled. A full rate counts nothing.
pub open spec fn after_sample(filter: AccessLogFilter) -> AccessLogFilter {
    if filter.sample_numerator >= SAMPLE_SCALE {
        filter
    } else {
        AccessLogFilter {
            counter: if filter.counter == u64::MAX {
                0
            } else {
                (filter.counter + 1) as u64
            },
            ..filter
        }
    }
}

/// Whether `r` is what is logged of a request that is logged.
pub open spec fn is_entry(
    plan: EmitPlan,
    ctx: AccessContext,
    status: u16,
    lines: Option<Seq<(Seq<char>, Seq<u8>)>>,
    duration_ms: u64,
    r: Option<LogEntry>,
) -> bool {
    if plan.is_default {
        r matches Some(LogEntry::Standard(record)) && is_record(record, ctx, status, duration_ms)
            && record.otel_ids is None
    } else {
        match projection(
            record_of(field_views(plan.fields@), ctx, status, lines, duration_ms),
        ) {
            Some(text) => r matches Some(LogEntry::Projected(t)) && t@ == text,
            None => r is None,
        }
    }
}

/// The duration in milliseconds, saturated.
pub open spec fn saturated(elapsed_ms: u128) -> u64 {
    if elapsed_ms <= u64::MAX {
        elapsed_ms as u64
    } else {
        u64::MAX
    }
}

/// Whether an emission went as it must: at most once per request, only at an
/// enabled level, under the conditions, and sampled last.
pub open spec fn is_emission(
    before: AccessLogFilter,
    after: AccessLogFilter,
    ctx_before: AccessContext,
    ctx_after: AccessContext,
    status: u16,
    lines: Option<Seq<(Seq<char>, Seq<u8>)>>,
    enabled: bool,
    elapsed_ms: u128,
    r: Option<LogEntry>,
) -> bool {
    let duration = saturated(elapsed_ms);
    if ctx_before.emitted || !enabled || !meets(
        before.emit_conditions,
        ctx_before.path@,
        status,
        duration,
    ) {
        r is None && after == before && ctx_after == ctx_before
    } else if !next_sampled(before) {
        r is None && after == after_sample(before) && ctx_after == ctx_before
    } else {
        &&& is_entry(before.emit_plan, ctx_before, status, lines, duration, r)
        &&& after == after_sample(before)
        &&& ctx_after == AccessContext { emitted: true, ..ctx_before }
    }
}

impl AccessLogFilter {
    /// Builds the filter.
    pub fn build(cfg: AccessLogConfig) -> (r: Result<AccessLogFilter, FilterError>)
        ensures
            match config_fields(cfg) {
                Err(m) => r is Err && r->Err_0@ == m,
                Ok(fields) => {
                    &&& r is Ok
                    &&& r->Ok_0.counter == 0
                    &&& r->Ok_0.sample_numerator == clamped(cfg.sample->Ok_0)
                    &&& field_views(r->Ok_0.emit_plan.fields@) == fields
                    &&& r->Ok_0.emit_plan.is_default == (cfg.fields is None)
                    &&& r->Ok_0.emit_conditions == cfg.conditions
                    &&& r->Ok_0.needs_response_headers == reads_response(fields)
                },
            },
    {
        let scaled: u64 = match cfg.sample {
            Ok(n) => n,
            Err(e) => {
                return Err(e);
            },
        };
        let tokens = match take_tokens(&cfg.fields) {
            Ok(tokens) => tokens,
            Err(e) => {
                return Err(e);
            },
        };
        let request_headers = match normalize_header_names(&cfg.request_headers) {
            Ok(list) => list,
            Err(e) => {
                return Err(e);
            },
        };
        let response_headers = match normalize_header_names(&cfg.response_headers) {
            Ok(list) => list,
            Err(e) => {
                return Err(e);
            },
        };
        if request_headers.len() == 0 && cfg.request_headers.is_some() {
            return Err(
                FilterError::from_text("access_log: request_headers must not be empty when present"),
            );
        }
        if response_headers.len() == 0 && cfg.response_headers.is_some() {
            return Err(
                FilterError::from_text(
                    "access_log: response_headers must not be empty when present",
                ),
            );
        }
        let fields = match parse_field_tokens(&tokens, &request_headers, &response_headers) {
            Ok(fields) => fields,
            Err(e) => {
                return Err(e);
            },
        };
        match validate_emit_conditions(&cfg.conditions) {
            Ok(()) => {},
            Err(e) => {
                return Err(e);
            },
        }
        let needs_response_headers = any_response_header(&fields);
        let sample_numerator: u64 = if scaled < 1 {
            1
        } else if scaled > SAMPLE_SCALE {
            SAMPLE_SCALE
        } else {
            scaled
        };
        Ok(
            AccessLogFilter {
                counter: 0,
                sample_numerator,
                emit_plan: EmitPlan { fields, is_default: cfg.fields.is_none() },
                emit_conditions: cfg.conditions,
                needs_response_headers,
            },
        )
    }

    /// The filter's name.
    pub fn name(&self) -> (r: &'static str)
        ensures
            r@ == "access_log"@,
    {
        "access_log"
    }

    /// Whether the next request is logged. Deterministic: request `n` is logged
    /// where the running quota advances.
    pub fn should_log(&mut self) -> (r: bool)
        ensures
            r == next_sampled(*old(self)),
            *final(self) == after_sample(*old(self)),
    {
        if self.sample_numerator >= SAMPLE_SCALE {
            return true;
        }
        let index: u64 = self.counter % SAMPLE_SCALE;
        let n: u64 = self.sample_numerator;
        self.counter = self.counter.wrapping_add(1);
        assert(index * n <= SAMPLE_SCALE * SAMPLE_SCALE) by (nonlinear_arith)
            requires
                index < SAMPLE_SCALE,
                n < SAMPLE_SCALE,
        ;
        assert((index + 1) * n <= SAMPLE_SCALE * SAMPLE_SCALE) by (nonlinear_arith)
            requires
                index < SAMPLE_SCALE,
                n < SAMPLE_SCALE,
        ;
        (index * n) / SAMPLE_SCALE < ((index + 1) * n) / SAMPLE_SCALE
    }

    /// Whether a response is delivered without a body phase.
    pub fn is_bodyless(status: u16, req_method: &str) -> (r: bool)
        ensures
            r == bodyless(status, req_method@),
    {
        bodyless_response(status, req_method)
    }

    /// Whether a request meets the conditions under which a record is written.
    pub fn passes_emit_conditions(&self, ctx: &AccessContext, status: u16, duration_ms: u64) -> (r:
        bool)
        ensures
            r == meets(self.emit_conditions, ctx.path@, status, duration_ms),
    {
        match &self.emit_conditions {
            None => true,
            Some(conditions) => {
                if let Some(least) = conditions.min_duration_ms {
                    if duration_ms < least {
                        return false;
                    }
                }
                if let Some(classes) = &conditions.status_classes {
                    if !any_class(classes, status) {
                        return false;
                    }
                }
                if let Some(prefixes) = &conditions.paths {
                    let path = owned_text(ctx.path.as_str());
                    if !any_path(prefixes, path.as_str()) {
                        return false;
                    }
                }
                true
            },
        }
    }

    /// What is logged of a request that is logged.
    pub fn emit_access_log(
        &self,
        ctx: &AccessContext,
        status: u16,
        response_headers: Option<&HeaderMap>,
        duration_ms: u64,
    ) -> (r: Option<LogEntry>)
        ensures
            is_entry(
                self.emit_plan,
                *ctx,
                status,
                opt_lines(response_headers),
                duration_ms,
                r,
            ),
    {
        if self.emit_plan.is_default {
            return Some(LogEntry::Standard(default_record(ctx, status, duration_ms)));
        }
        let record = self.emit_plan.build_record(ctx, status, response_headers, duration_ms);
        match projected_record(&record) {
            Some(text) => Some(LogEntry::Projected(text)),
            None => None,
        }
    }

    /// Logs a request, if it is to be logged and was not yet. `enabled` says
    /// whether the log level of access records is on.
    pub fn maybe_emit(
        &mut self,
        ctx: &mut AccessContext,
        status: u16,
        response_headers: Option<&HeaderMap>,
        enabled: bool,
        elapsed_ms: u128,
    ) -> (r: Option<LogEntry>)
        ensures
            is_emission(
                *old(self),
                *final(self),
                *old(ctx),
                *final(ctx),
                status,
                opt_lines(response_headers),
                enabled,
                elapsed_ms,
                r,
            ),
    {
        if access_record_already_emitted(ctx) {
            return None;
        }
        if !enabled {
            return None;
        }
        let duration_ms: u64 = truncate_u128(elapsed_ms);
        if !self.passes_emit_conditions(ctx, status, duration_ms) {
            return None;
        }
        if !self.should_log() {
            return None;
        }
        let entry = self.emit_access_log(ctx, status, response_headers, duration_ms);
        mark_access_record_emitted(ctx);
        entry
    }

    /// The request hook does nothing.
    pub fn on_request(&self) -> (r: FilterAction<()>)
        ensures
            r is Continue,
    {
        FilterAction::Continue
    }

    /// The response hook: logs a response without a body phase, and keeps what
    /// the body phase needs.
    pub fn on_response(
        &mut self,
        ctx: &mut AccessContext,
        response: Option<&ResponseHead>,
        enabled: bool,
        elapsed_ms: u128,
    ) -> (r: Option<LogEntry>)
        ensures
            response is None ==> r is None && *final(self) == *old(self) && *final(ctx) == *old(
                ctx,
            ),
            response matches Some(head) ==> {
                &&& final(ctx).state is Some
                &&& final(ctx).state->0.status == head.status
                &&& final(ctx).state->0.response_headers is Some <==> old(
                    self,
                ).needs_response_headers
                &&& final(ctx).state->0.response_headers matches Some(h) ==> h@ == head.headers@
                &&& if bodyless(head.status, old(ctx).method@) {
                    is_emission(
                        *old(self),
                        *final(self),
                        *old(ctx),
                        AccessContext { state: old(ctx).state, ..*final(ctx) },
                        head.status,
                        if old(self).needs_response_headers {
                            Some(head.headers@)
                        } else {
                            None
                        },
                        enabled,
                        elapsed_ms,
                        r,
                    )
                } else {
                    &&& r is None
                    &&& *final(self) == *old(self)
                    &&& AccessContext { state: old(ctx).state, ..*final(ctx) } == *old(ctx)
                }
            },
    {
        let head = match response {
            None => {
                return None;
            },
            Some(head) => head,
        };
        let kept = if self.needs_response_headers {
            Some(head.headers.copied())
        } else {
            None
        };
        let entry = if AccessLogFilter::is_bodyless(head.status, ctx.method.as_str()) {
            self.maybe_emit(ctx, head.status, kept.as_ref(), enabled, elapsed_ms)
        } else {
            None
        };
        ctx.state = Some(AccessLogState { status: head.status, response_headers: kept });
        entry
    }

    /// The filter watches response bodies to see them end.
    pub fn response_body_access(&self) -> (r: BodyAccess)
        ensures
            r == BodyAccess::ReadOnly,
    {
        BodyAccess::ReadOnly
    }

    /// The response-body hook: logs the request when its body ended. A request
    /// without a response is logged with status 0.
    pub fn on_response_body(
        &mut self,
        ctx: &mut AccessContext,
        end_of_stream: bool,
        enabled: bool,
        elapsed_ms: u128,
    ) -> (r: Option<LogEntry>)
        ensures
            !end_of_stream ==> r is None && *final(self) == *old(self) && *final(ctx) == *old(ctx),
            end_of_stream ==> is_emission(
                *old(self),
                *final(self),
                headers_taken(*old(ctx)),
                *final(ctx),
                kept_status(*old(ctx)),
                kept_lines(*old(ctx)),
                enabled,
                elapsed_ms,
                r,
            ),
    {
        if !end_of_stream {
            return None;
        }
        match ctx.state.take() {
            Some(state) => {
                ctx.state = Some(AccessLogState { status: state.status, response_headers: None });
                self.maybe_emit(
                    ctx,
                    state.status,
                    state.response_headers.as_ref(),
                    enabled,
                    elapsed_ms,
                )
            },
            None => self.maybe_emit(ctx, 0, None, enabled, elapsed_ms),
        }
    }
}

/// The status that the response phase kept.
pub open spec fn kept_status(ctx: AccessContext) -> u16 {
    match ctx.state {
        Some(s) => s.status,
        None => 0,
    }
}

/// The response headers that the response phase kept.
pub open spec fn kept_lines(ctx: AccessContext) -> Option<Seq<(Seq<char>, Seq<u8>)>> {
    match ctx.state {
        Some(s) => match s.response_headers {
            Some(h) => Some(h@),
            None => None,
        },
        None => None,
    }
}

/// The context without the kept response headers.
pub open spec fn headers_taken(ctx: AccessContext) -> AccessContext {
    match ctx.state {
        Some(s) => AccessContext {
            state: Some(AccessLogState { response_headers: None, ..s }),
            ..ctx
        },
        None => ctx,
    }
}

/// A request gets at most one record: an emission that wrote one leaves a
/// context in which every later emission, by whatever filter, writes none and
/// counts nothing.
pub proof fn law_one_record_per_request(
    f0: AccessLogFilter,
    f1: AccessLogFilter,
    c0: AccessContext,
    c1: AccessContext,
    status: u16,
    lines: Option<Seq<(Seq<char>, Seq<u8>)>>,
    enabled: bool,
    elapsed_ms: u128,
    first: Option<LogEntry>,
)
    requires
        is_emission(f0, f1, c0, c1, status, lines, enabled, elapsed_ms, first),
        first is Some,
    ensures
        c1.emitted,
        forall|
            g0: AccessLogFilter,
            g1: AccessLogFilter,
            c2: AccessContext,
            later_status: u16,
            later_lines: Option<Seq<(Seq<char>, Seq<u8>)>>,
            later_enabled: bool,
            later_ms: u128,
            second: Option<LogEntry>,
        | #[trigger]
            is_emission(
                g0,
                g1,
                c1,
                c2,
                later_status,
                later_lines,
                later_enabled,
                later_ms,
                second,
            ) ==> second is None && g1 == g0 && c2 == c1,
{
}

// What a record holds.

proof fn lemma_lower_name(a: Seq<char>, b: Seq<char>)
    requires
        lower(a) == lower(b),
    ensures
        valid_name(a) ==> valid_name(b),
{
    law_lower(a);
    law_lower(b);
    assert(lower(a).len() == lower(b).len());
    if valid_name(a) {
        assert forall|i: int| 0 <= i < b.len() implies token_char(#[trigger] b[i]) by {
            assert(token_char(a[i]));
            assert(lower(a)[i] == lower(b)[i]);
            assert(lower(a)[i] == lower_char(a[i]));
            assert(lower(b)[i] == lower_char(b[i]));
        }
    }
}

proof fn lemma_literals()
    ensures
        "method"@ =~= seq!['m', 'e', 't', 'h', 'o', 'd'],
        "path"@ =~= seq!['p', 'a', 't', 'h'],
        "status"@ =~= seq!['s', 't', 'a', 't', 'u', 's'],
        "cluster"@ =~= seq!['c', 'l', 'u', 's', 't', 'e', 'r'],
        "span_id"@ =~= seq!['s', 'p', 'a', 'n', '_', 'i', 'd'],
        "upstream"@ =~= seq!['u', 'p', 's', 't', 'r', 'e', 'a', 'm'],
        "trace_id"@ =~= seq!['t', 'r', 'a', 'c', 'e', '_', 'i', 'd'],
        "client_ip"@.len() == 9,
        "request_id"@.len() == 10,
        "duration_ms"@.len() == 11,
        "request_body_bytes"@.len() == 18,
        "request_body_bytes"@[8] == 'b',
        "response_body_bytes"@.len() == 19,
        "response_body_bytes"@[8] == '_',
        "response_body_bytes"@[9] == 'b',
        "request_header."@.len() == 15,
        "request_header."@[8] == 'h',
        "response_header."@.len() == 16,
        "response_header."@[8] == '_',
        "response_header."@[9] == 'h',
{
    reveal_strlit("method");
    reveal_strlit("path");
    reveal_strlit("status");
    reveal_strlit("cluster");
    reveal_strlit("span_id");
    reveal_strlit("upstream");
    reveal_strlit("trace_id");
    reveal_strlit("client_ip");
    reveal_strlit("request_id");
    reveal_strlit("duration_ms");
    reveal_strlit("request_body_bytes");
    reveal_strlit("response_body_bytes");
    reveal_strlit("request_header.");
    reveal_strlit("response_header.");
}

/// What tells the keys of fields apart: for a key of a header also its prefix.
spec fn mark(key: Seq<char>) -> (int, char, char, char) {
    if key.len() > 15 {
        (if key[8] == 'h' || key[9] == 'h' {
            0
        } else {
            key.len() as int
        }, key[8], key[9], ' ')
    } else {
        (key.len() as int, key[0], key[1], key[2])
    }
}

proof fn lemma_same_key(
    f: FieldView,
    g: FieldView,
    ctx: AccessContext,
    status: u16,
    lines: Option<Seq<(Seq<char>, Seq<u8>)>>,
    duration_ms: u64,
)
    requires
        field_entry(f, ctx, status, lines, duration_ms).0 == field_entry(
            g,
            ctx,
            status,
            lines,
            duration_ms,
        ).0,
    ensures
        field_entry(f, ctx, status, lines, duration_ms) == field_entry(
            g,
            ctx,
            status,
            lines,
            duration_ms,
        ),
{
    lemma_literals();
    let key = field_entry(f, ctx, status, lines, duration_ms).0;
    match (f, g) {
        (FieldView::RequestHeader(a), FieldView::RequestHeader(b)) => {
            assert(lower(a) =~= key.skip(15));
            assert(lower(b) =~= key.skip(15));
            if valid_name(a) {
                lemma_lower_name(a, b);
            }
            if valid_name(b) {
                lemma_lower_name(b, a);
            }
        },
        (FieldView::ResponseHeader(a), FieldView::ResponseHeader(b)) => {
            assert(lower(a) =~= key.skip(16));
            assert(lower(b) =~= key.skip(16));
            if valid_name(a) {
                lemma_lower_name(a, b);
            }
            if valid_name(b) {
                lemma_lower_name(b, a);
            }
        },
        _ => {
            assert(f == g) by {
                lemma_key_marks(f, ctx, status, lines, duration_ms);
                lemma_key_marks(g, ctx, status, lines, duration_ms);
            }
        },
    }
}

proof fn lemma_key_marks(
    f: FieldView,
    ctx: AccessContext,
    status: u16,
    lines: Option<Seq<(Seq<char>, Seq<u8>)>>,
    duration_ms: u64,
)
    ensures
        mark(field_entry(f, ctx, status, lines, duration_ms).0).0 == match f {
            FieldView::Method => 6int,
            FieldView::Path => 4,
            FieldView::ClientIp => 9,
            FieldView::Status => 6,
            FieldView::DurationMs => 11,
            FieldView::Cluster => 7,
            FieldView::Upstream => 8,
            FieldView::RequestId => 10,
            FieldView::RequestBodyBytes => 18,
            FieldView::ResponseBodyBytes => 19,
            FieldView::TraceId => 8,
            FieldView::SpanId => 7,
            FieldView::RequestHeader(_) => mark(
                field_entry(f, ctx, status, lines, duration_ms).0,
            ).0,
            FieldView::ResponseHeader(_) => mark(
                field_entry(f, ctx, status, lines, duration_ms).0,
            ).0,
        },
        ({
            let key = field_entry(f, ctx, status, lines, duration_ms).0;
            match f {
                FieldView::Method => key[0] == 'm',
                FieldView::Status => key[0] == 's',
                FieldView::Cluster => key[0] == 'c',
                FieldView::SpanId => key[0] == 's',
                FieldView::Upstream => key[0] == 'u',
                FieldView::TraceId => key[0] == 't',
                FieldView::RequestHeader(_) => key.len() >= 15 && key[8] == 'h',
                FieldView::ResponseHeader(_) => key.len() >= 16 && key[8] == '_' && key[9] == 'h',
                FieldView::RequestBodyBytes => key[8] == 'b',
                FieldView::ResponseBodyBytes => key[8] == '_' && key[9] == 'b',
                _ => key.len() < 15,
            }
        }),
{
    lemma_literals();
    reveal_strlit("request_body_bytes");
    let key = field_entry(f, ctx, status, lines, duration_ms).0;
    match f {
        FieldView::RequestHeader(name) => {
            assert(key[8] == "request_header."@[8]);
        },
        FieldView::ResponseHeader(name) => {
            assert(key[8] == "response_header."@[8]);
            assert(key[9] == "response_header."@[9]);
        },
        _ => {},
    }
}

proof fn lemma_recorded(
    fields: Seq<FieldView>,
    i: int,
    ctx: AccessContext,
    status: u16,
    lines: Option<Seq<(Seq<char>, Seq<u8>)>>,
    duration_ms: u64,
)
    requires
        0 <= i < fields.len(),
    ensures
        find_pair(
            record_of(fields, ctx, status, lines, duration_ms),
            field_entry(fields[i], ctx, status, lines, duration_ms).0,
        ) == Some(field_entry(fields[i], ctx, status, lines, duration_ms).1),
    decreases fields.len(),
{
    let entry = field_entry(fields[i], ctx, status, lines, duration_ms);
    let last = field_entry(fields.last(), ctx, status, lines, duration_ms);
    let before = record_of(fields.drop_last(), ctx, status, lines, duration_ms);
    law_put_find(before, last.0, last.1, entry.0);
    if last.0 == entry.0 {
        lemma_same_key(fields.last(), fields[i], ctx, status, lines, duration_ms);
    } else {
        lemma_recorded(fields.drop_last(), i, ctx, status, lines, duration_ms);
    }
}

/// Each selected field is in the record, under its own name, with what the
/// request has for it: counts in decimal, a dash for what is not known.
pub proof fn law_fields_recorded(
    fields: Seq<FieldView>,
    ctx: AccessContext,
    status: u16,
    lines: Option<Seq<(Seq<char>, Seq<u8>)>>,
    duration_ms: u64,
)
    ensures
        ({
            let record = record_of(fields, ctx, status, lines, duration_ms);
            &&& fields.contains(FieldView::Method) ==> find_pair(record, "method"@) == Some(
                ctx.method@,
            )
            &&& fields.contains(FieldView::Path) ==> find_pair(record, "path"@) == Some(
                sanitized(ctx.path@),
            )
            &&& fields.contains(FieldView::ClientIp) ==> find_pair(record, "client_ip"@) == Some(
                match ctx.client_addr {
                    Some(addr) => addr@,
                    None => Seq::<char>::empty(),
                },
            )
            &&& fields.contains(FieldView::Status) ==> find_pair(record, "status"@) == Some(
                decimal_digits(status as nat),
            )
            &&& fields.contains(FieldView::DurationMs) ==> find_pair(record, "duration_ms"@)
                == Some(decimal_digits(duration_ms as nat))
            &&& fields.contains(FieldView::Cluster) ==> find_pair(record, "cluster"@) == Some(
                match ctx.cluster {
                    Some(name) => name@,
                    None => "-"@,
                },
            )
            &&& fields.contains(FieldView::Upstream) ==> find_pair(record, "upstream"@) == Some(
                match ctx.upstream {
                    Some(addr) => addr@,
                    None => "-"@,
                },
            )
            &&& fields.contains(FieldView::RequestId) ==> find_pair(record, "request_id"@)
                == Some(
                match ctx.request_id {
                    Some(id) => id@,
                    None => "-"@,
                },
            )
            &&& fields.contains(FieldView::RequestBodyBytes) ==> find_pair(
                record,
                "request_body_bytes"@,
            ) == Some(decimal_digits(ctx.request_body_bytes as nat))
            &&& fields.contains(FieldView::ResponseBodyBytes) ==> find_pair(
                record,
                "response_body_bytes"@,
            ) == Some(decimal_digits(ctx.response_body_bytes as nat))
            &&& fields.contains(FieldView::TraceId) ==> find_pair(record, "trace_id"@) == Some(
                match ctx.otel_ids {
                    Some(ids) => ids.0@,
                    None => "-"@,
                },
            )
            &&& fields.contains(FieldView::SpanId) ==> find_pair(record, "span_id"@) == Some(
                match ctx.otel_ids {
                    Some(ids) => ids.1@,
                    None => "-"@,
                },
            )
        }),
{
    assert forall|f: FieldView| #[trigger] fields.contains(f) implies find_pair(
        record_of(fields, ctx, status, lines, duration_ms),
        field_entry(f, ctx, status, lines, duration_ms).0,
    ) == Some(field_entry(f, ctx, status, lines, duration_ms).1) by {
        let i = choose|i: int| 0 <= i < fields.len() && fields[i] == f;
        lemma_recorded(fields, i, ctx, status, lines, duration_ms);
    }
}

/// Each selected header is in the record, under the prefix of its side and its
/// name in lower case: the text of the header's first line, or a dash where
/// there is no line, or that line is not readable.
pub proof fn law_headers_recorded(
    fields: Seq<FieldView>,
    name: Seq<char>,
    ctx: AccessContext,
    status: u16,
    lines: Option<Seq<(Seq<char>, Seq<u8>)>>,
    duration_ms: u64,
)
    requires
        valid_name(name),
    ensures
        ({
            let record = record_of(fields, ctx, status, lines, duration_ms);
            &&& fields.contains(FieldView::RequestHeader(name)) ==> find_pair(
                record,
                "request_header."@ + lower(name),
            ) == Some(
                match opt_value_text(first_value(ctx.request_headers@, lower(name))) {
                    Some(text) => text,
                    None => "-"@,
                },
            )
            &&& fields.contains(FieldView::ResponseHeader(name)) ==> find_pair(
                record,
                "response_header."@ + lower(name),
            ) == Some(
                match lines {
                    Some(all) => match opt_value_text(first_value(all, lower(name))) {
                        Some(text) => text,
                        None => "-"@,
                    },
                    None => "-"@,
                },
            )
        }),
{
    assert forall|f: FieldView| #[trigger] fields.contains(f) implies find_pair(
        record_of(fields, ctx, status, lines, duration_ms),
        field_entry(f, ctx, status, lines, duration_ms).0,
    ) == Some(field_entry(f, ctx, status, lines, duration_ms).1) by {
        let i = choose|i: int| 0 <= i < fields.len() && fields[i] == f;
        lemma_recorded(fields, i, ctx, status, lines, duration_ms);
    }
}

/// A record holds nothing but the selected fields: a key in it is the key of one
/// of them.
pub proof fn law_only_fields_recorded(
    fields: Seq<FieldView>,
    ctx: AccessContext,
    status: u16,
    lines: Option<Seq<(Seq<char>, Seq<u8>)>>,
    duration_ms: u64,
    key: Seq<char>,
)
    requires
        find_pair(record_of(fields, ctx, status, lines, duration_ms), key) is Some,
    ensures
        exists|i: int|
            0 <= i < fields.len() && field_entry(
                #[trigger] fields[i],
                ctx,
                status,
                lines,
                duration_ms,
            ).0 == key,
    decreases fields.len(),
{
    if fields.len() > 0 {
        let last = field_entry(fields.last(), ctx, status, lines, duration_ms);
        let front = fields.drop_last();
        let before = record_of(front, ctx, status, lines, duration_ms);
        law_put_find(before, last.0, last.1, key);
        if last.0 == key {
            assert(fields[fields.len() - 1] == fields.last());
        } else {
            law_only_fields_recorded(front, ctx, status, lines, duration_ms, key);
            let i = choose|i: int|
                0 <= i < front.len() && field_entry(
                    #[trigger] front[i],
                    ctx,
                    status,
                    lines,
                    duration_ms,
                ).0 == key;
            assert(fields[i] == front[i]);
        }
    }
}

/// The standard record and the record that names the ten default fields agree:
/// each value of the one, as text, is what the other holds under the field's
/// name.
pub proof fn law_standard_record_agrees(
    record: AccessRecord,
    ctx: AccessContext,
    status: u16,
    lines: Option<Seq<(Seq<char>, Seq<u8>)>>,
    duration_ms: u64,
)
    requires
        is_record(record, ctx, status, duration_ms),
    ensures
        ({
            let named = record_of(default_fields(), ctx, status, lines, duration_ms);
            &&& find_pair(named, "method"@) == Some(record.method@)
            &&& find_pair(named, "path"@) == Some(record.path@)
            &&& find_pair(named, "client_ip"@) == Some(record.client_ip@)
            &&& find_pair(named, "status"@) == Some(decimal_digits(record.status as nat))
            &&& find_pair(named, "duration_ms"@) == Some(
                decimal_digits(record.duration_ms as nat),
            )
            &&& find_pair(named, "cluster"@) == Some(record.cluster@)
            &&& find_pair(named, "upstream"@) == Some(record.upstream@)
            &&& find_pair(named, "request_id"@) == Some(record.request_id@)
            &&& find_pair(named, "request_body_bytes"@) == Some(
                decimal_digits(record.request_body_bytes as nat),
            )
            &&& find_pair(named, "response_body_bytes"@) == Some(
                decimal_digits(record.response_body_bytes as nat),
            )
            &&& record.status == status
            &&& record.duration_ms == duration_ms
            &&& record.request_body_bytes == ctx.request_body_bytes
            &&& record.response_body_bytes == ctx.response_body_bytes
            &&& find_pair(named, "trace_id"@) is None
            &&& find_pair(named, "span_id"@) is None
        }),
{
    let fields = default_fields();
    law_fields_recorded(fields, ctx, status, lines, duration_ms);
    assert(fields[0] == FieldView::Method);
    assert(fields[1] == FieldView::Path);
    assert(fields[2] == FieldView::ClientIp);
    assert(fields[3] == FieldView::Status);
    assert(fields[4] == FieldView::DurationMs);
    assert(fields[5] == FieldView::Cluster);
    assert(fields[6] == FieldView::Upstream);
    assert(fields[7] == FieldView::RequestId);
    assert(fields[8] == FieldView::RequestBodyBytes);
    assert(fields[9] == FieldView::ResponseBodyBytes);
    let named = record_of(fields, ctx, status, lines, duration_ms);
    if find_pair(named, "trace_id"@) is Some {
        law_only_fields_recorded(fields, ctx, status, lines, duration_ms, "trace_id"@);
        lemma_same_key_default(ctx, status, lines, duration_ms, FieldView::TraceId);
    }
    if find_pair(named, "span_id"@) is Some {
        law_only_fields_recorded(fields, ctx, status, lines, duration_ms, "span_id"@);
        lemma_same_key_default(ctx, status, lines, duration_ms, FieldView::SpanId);
    }
}

proof fn lemma_same_key_default(
    ctx: AccessContext,
    status: u16,
    lines: Option<Seq<(Seq<char>, Seq<u8>)>>,
    duration_ms: u64,
    f: FieldView,
)
    requires
        f == FieldView::TraceId || f == FieldView::SpanId,
    ensures
        forall|i: int|
            0 <= i < default_fields().len() ==> field_entry(
                #[trigger] default_fields()[i],
                ctx,
                status,
                lines,
                duration_ms,
            ).0 != field_entry(f, ctx, status, lines, duration_ms).0,
{
    lemma_key_marks(f, ctx, status, lines, duration_ms);
    assert forall|i: int| 0 <= i < default_fields().len() implies field_entry(
        #[trigger] default_fields()[i],
        ctx,
        status,
        lines,
        duration_ms,
    ).0 != field_entry(f, ctx, status, lines, duration_ms).0 by {
        lemma_key_marks(default_fields()[i], ctx, status, lines, duration_ms);
    }
}

// What is logged of a text.

/// Outside escape sequences sanitizing drops the control characters and nothing
/// else.
pub proof fn law_only_controls_dropped(s: Seq<char>)
    requires
        !s.contains('\u{1b}'),
    ensures
        sanitized(s) == s.filter(
            |c: char| (c as u32) >= 0x20 && !(0x7f <= (c as u32) && (c as u32) <= 0x9f),
        ),
    decreases s.len(),
{
    let keep = |c: char| (c as u32) >= 0x20 && !(0x7f <= (c as u32) && (c as u32) <= 0x9f);
    if s.len() == 0 {
        reveal(Seq::filter);
        assert(s.filter(keep) =~= s);
    } else {
        let rest = s.skip(1);
        let first = seq![s[0]];
        assert(s.contains(s[0]));
        assert(!rest.contains('\u{1b}')) by {
            if rest.contains('\u{1b}') {
                let i = choose|i: int| 0 <= i < rest.len() && rest[i] == '\u{1b}';
                assert(s[i + 1] == '\u{1b}');
            }
        }
        law_only_controls_dropped(rest);
        assert(s =~= first + rest);
        Seq::filter_distributes_over_add(first, rest, keep);
        lemma_keep_one(s[0], keep);
        lemma_control_range(s[0]);
        assert(Seq::<char>::empty() + rest.filter(keep) =~= rest.filter(keep));
    }
}

proof fn lemma_keep_one(c: char, keep: spec_fn(char) -> bool)
    ensures
        seq![c].filter(keep) == if keep(c) {
            seq![c]
        } else {
            Seq::empty()
        },
{
    reveal(Seq::filter);
    assert(seq![c].drop_last() =~= Seq::empty());
    assert(seq![c].drop_last().filter(keep) =~= Seq::empty());
    assert(Seq::empty().push(c) =~= seq![c]);
}

proof fn lemma_control_range(c: char)
    ensures
        control(c) <==> !((c as u32) >= 0x20 && !(0x7f <= (c as u32) && (c as u32) <= 0x9f)),
{
}

/// An escape sequence goes whole, up to and with its first letter, and the text
/// on either side of it is sanitized as it would be alone.
pub proof fn law_escape_goes_whole(
    before: Seq<char>,
    params: Seq<char>,
    letter_at_end: char,
    after: Seq<char>,
)
    requires
        !before.contains('\u{1b}'),
        forall|i: int|
            0 <= i < params.len() ==> !('a' <= #[trigger] params[i] <= 'z') && !('A' <= params[i]
                <= 'Z'),
        'a' <= letter_at_end <= 'z' || 'A' <= letter_at_end <= 'Z',
    ensures
        sanitized(before + seq!['\u{1b}', '['] + params + seq![letter_at_end] + after)
            == sanitized(before) + sanitized(after),
    decreases before.len(),
{
    let tail = params + seq![letter_at_end] + after;
    let s = before + seq!['\u{1b}', '['] + params + seq![letter_at_end] + after;
    if before.len() == 0 {
        assert(s[0] == '\u{1b}' && s[1] == '[');
        assert(s.skip(2) =~= tail);
        lemma_after_params(params, letter_at_end, after);
        assert(sanitized(before) + sanitized(after) =~= sanitized(after));
    } else {
        let rest = before.skip(1);
        assert(before.contains(before[0]));
        assert(!rest.contains('\u{1b}')) by {
            if rest.contains('\u{1b}') {
                let i = choose|i: int| 0 <= i < rest.len() && rest[i] == '\u{1b}';
                assert(before[i + 1] == '\u{1b}');
            }
        }
        law_escape_goes_whole(rest, params, letter_at_end, after);
        assert(s[0] == before[0]);
        assert(s.skip(1) =~= rest + seq!['\u{1b}', '['] + params + seq![letter_at_end] + after);
        if control(before[0]) {
            assert(sanitized(before) == sanitized(rest));
        } else {
            assert(sanitized(before) == seq![before[0]] + sanitized(rest));
            assert(seq![before[0]] + (sanitized(rest) + sanitized(after)) =~= sanitized(before)
                + sanitized(after));
        }
    }
}

proof fn lemma_after_params(params: Seq<char>, letter_at_end: char, after: Seq<char>)
    requires
        forall|i: int| 0 <= i < params.len() ==> !letter(#[trigger] params[i]),
        letter(letter_at_end),
    ensures
        after_escape(params + seq![letter_at_end] + after) == after,
    decreases params.len(),
{
    let s = params + seq![letter_at_end] + after;
    if params.len() == 0 {
        assert(s.skip(1) =~= after);
    } else {
        let rest = params.skip(1);
        assert(s[0] == params[0]);
        assert(s.skip(1) =~= rest + seq![letter_at_end] + after);
        assert forall|i: int| 0 <= i < rest.len() implies !letter(#[trigger] rest[i]) by {
            assert(rest[i] == params[i + 1]);
        }
        lemma_after_params(rest, letter_at_end, after);
    }
}

// Which requests are logged.

/// A path lies under a prefix exactly where it is the prefix and a rest, and the
/// two meet between segments: the rest is empty or starts with a slash, or the
/// prefix ends with one.
pub proof fn law_path_under(path: Seq<char>, prefix: Seq<char>)
    ensures
        path_under(path, prefix) <==> exists|rest: Seq<char>|
            path == #[trigger] (prefix + rest) && (rest.len() == 0 || rest[0] == '/' || (
            prefix.len() > 0 && prefix[prefix.len() - 1] == '/')),
{
    if path_under(path, prefix) {
        let rest = path.skip(prefix.len() as int);
        assert(path =~= prefix + rest);
    }
    if exists|rest: Seq<char>|
        path == #[trigger] (prefix + rest) && (rest.len() == 0 || rest[0] == '/' || (prefix.len()
            > 0 && prefix[prefix.len() - 1] == '/')) {
        let rest = choose|rest: Seq<char>|
            path == #[trigger] (prefix + rest) && (rest.len() == 0 || rest[0] == '/' || (
            prefix.len() > 0 && prefix[prefix.len() - 1] == '/'));
        assert(path.take(prefix.len() as int) =~= prefix);
        if rest.len() > 0 {
            assert(path[prefix.len() as int] == rest[0]);
        }
    }
}

/// The five status classes are the hundreds from 100 to 500.
pub proof fn law_status_classes()
    ensures
        class_digit(StatusClass::Informational) * 100 == 100,
        class_digit(StatusClass::Success) * 100 == 200,
        class_digit(StatusClass::Redirection) * 100 == 300,
        class_digit(StatusClass::ClientError) * 100 == 400,
        class_digit(StatusClass::ServerError) * 100 == 500,
{
}

/// A request is logged only where it meets every condition that is set: it took
/// at least the least duration, its status is in one of the classes, and its
/// path lies under one of the prefixes. One that meets them all is not held back.
pub proof fn law_conditions(
    conditions: AccessLogEmitConditions,
    path: Seq<char>,
    status: u16,
    duration_ms: u64,
)
    ensures
        ({
            let long = conditions.min_duration_ms is None || conditions.min_duration_ms->0
                <= duration_ms;
            let classed = conditions.status_classes is None || exists|i: int|
                0 <= i < conditions.status_classes->0@.len() && status as int / 100 == class_digit(
                    #[trigger] conditions.status_classes->0@[i],
                );
            let placed = conditions.paths is None || exists|i: int|
                0 <= i < conditions.paths->0@.len() && path_under(
                    sanitized(path),
                    (#[trigger] conditions.paths->0@[i])@,
                );
            meets(Some(conditions), path, status, duration_ms) <==> long && classed && placed
        }),
        meets(None, path, status, duration_ms),
{
    if conditions.status_classes is Some {
        let classes = conditions.status_classes->0@;
        assert forall|i: int| 0 <= i < classes.len() implies (class_digit(#[trigger] classes[i])
            * 100 <= status < class_digit(classes[i]) * 100 + 100 <==> status as int / 100
            == class_digit(classes[i])) by {}
        if meets(Some(conditions), path, status, duration_ms) {
            let i = choose|i: int|
                0 <= i < classes.len() && class_digit(#[trigger] classes[i]) * 100 <= status
                    < class_digit(classes[i]) * 100 + 100;
            assert(status as int / 100 == class_digit(classes[i]));
        }
        if exists|i: int|
            0 <= i < classes.len() && status as int / 100 == class_digit(#[trigger] classes[i]) {
            let i = choose|i: int|
                0 <= i < classes.len() && status as int / 100 == class_digit(#[trigger] classes[i]);
            assert(class_digit(classes[i]) * 100 <= status < class_digit(classes[i]) * 100 + 100);
        }
    }
}

/// The responses without a body phase: any to `HEAD`, and those whose status
/// forbids a body.
pub proof fn law_bodyless(status: u16, method: Seq<char>)
    ensures
        method == "HEAD"@ ==> bodyless(status, method),
        method != "HEAD"@ && status >= 200 ==> (bodyless(status, method) <==> status == 204
            || status == 304),
        status < 200 ==> bodyless(status, method),
{
}

/// The filter after `n` more requests were sampled.
pub open spec fn after_samples(filter: AccessLogFilter, n: nat) -> AccessLogFilter
    decreases n,
{
    if n == 0 {
        filter
    } else {
        after_sample(after_samples(filter, (n - 1) as nat))
    }
}

/// How many of the next `n` requests are logged.
pub open spec fn logged_of(filter: AccessLogFilter, n: nat) -> nat
    decreases n,
{
    if n == 0 {
        0
    } else {
        logged_of(filter, (n - 1) as nat) + if next_sampled(
            after_samples(filter, (n - 1) as nat),
        ) {
            1nat
        } else {
            0
        }
    }
}

/// Of the first `n` requests that a new filter samples, exactly the whole part of
/// their share is logged: `n` times the rate, with the rate in millionths.
pub proof fn law_sampled_share(filter: AccessLogFilter, n: nat)
    requires
        filter.counter == 0,
        filter.sample_numerator <= 1_000_000,
        n <= u64::MAX,
    ensures
        logged_of(filter, n) == n * filter.sample_numerator as nat / 1_000_000,
{
    let numerator = filter.sample_numerator as nat;
    lemma_samples(filter, n);
    if numerator == 1_000_000 {
        vstd::arithmetic::div_mod::lemma_div_by_multiple(n as int, 1_000_000);
    } else {
        law_sampling_prefix(numerator, n);
    }
}

proof fn lemma_samples(filter: AccessLogFilter, n: nat)
    requires
        filter.counter == 0,
        filter.sample_numerator <= SAMPLE_SCALE,
        n <= u64::MAX,
    ensures
        after_samples(filter, n).sample_numerator == filter.sample_numerator,
        filter.sample_numerator < SAMPLE_SCALE ==> after_samples(filter, n).counter == n,
        filter.sample_numerator < SAMPLE_SCALE ==> logged_of(filter, n) == sampled_count(
            filter.sample_numerator as nat,
            0,
            n,
        ),
        filter.sample_numerator == SAMPLE_SCALE ==> logged_of(filter, n) == n,
    decreases n,
{
    if n > 0 {
        lemma_samples(filter, (n - 1) as nat);
    }
}

/// An accepted rate is at least one in a million and at most all.
pub proof fn law_rate_range(scaled: u64)
    ensures
        1 <= clamped(scaled) <= 1_000_000,
        1 <= scaled <= 1_000_000 ==> clamped(scaled) == scaled,
        scaled == 0 ==> clamped(scaled) == 1,
        scaled > 1_000_000 ==> clamped(scaled) == 1_000_000,
{
}

/// What an emission decides and moves: a record is written only for a request
/// that has none yet, at an enabled level, under the conditions and where it is
/// sampled, and then one is; only requests that get as far as sampling are
/// counted. Nothing else of the filter or the request changes.
pub proof fn law_emission(
    before: AccessLogFilter,
    after: AccessLogFilter,
    ctx_before: AccessContext,
    ctx_after: AccessContext,
    status: u16,
    lines: Option<Seq<(Seq<char>, Seq<u8>)>>,
    enabled: bool,
    elapsed_ms: u128,
    r: Option<LogEntry>,
)
    requires
        is_emission(
            before,
            after,
            ctx_before,
            ctx_after,
            status,
            lines,
            enabled,
            elapsed_ms,
            r,
        ),
    ensures
        ({
            let duration: u64 = if elapsed_ms > 0xffff_ffff_ffff_ffff {
                0xffff_ffff_ffff_ffff
            } else {
                elapsed_ms as u64
            };
            let eligible = !ctx_before.emitted && enabled && meets(
                before.emit_conditions,
                ctx_before.path@,
                status,
                duration,
            );
            &&& r is Some ==> eligible && next_sampled(before)
            &&& ctx_after.emitted <==> ctx_before.emitted || (eligible && next_sampled(before))
            &&& eligible && next_sampled(before) && before.emit_plan.is_default ==> {
                &&& r matches Some(LogEntry::Standard(record))
                &&& is_record(record, ctx_before, status, duration)
                &&& record.otel_ids is None
            }
            &&& eligible && next_sampled(before) && !before.emit_plan.is_default && record_of(
                field_views(before.emit_plan.fields@),
                ctx_before,
                status,
                lines,
                duration,
            ).len() > 0 ==> {
                &&& r matches Some(LogEntry::Projected(text))
                &&& text@ == json_object(
                    record_of(
                        field_views(before.emit_plan.fields@),
                        ctx_before,
                        status,
                        lines,
                        duration,
                    ),
                )
            }
            &&& after.counter == if eligible && before.sample_numerator < 1_000_000 {
                (before.counter + 1) % 0x1_0000_0000_0000_0000
            } else {
                before.counter as int
            }
            &&& after == (AccessLogFilter { counter: after.counter, ..before })
            &&& ctx_after == (AccessContext { emitted: ctx_after.emitted, ..ctx_before })
        }),
{
}

// What a configuration selects.

/// A token without a header names the field that is recorded under it.
pub proof fn law_tokens_name_fields(
    token: Seq<char>,
    ctx: AccessContext,
    status: u16,
    lines: Option<Seq<(Seq<char>, Seq<u8>)>>,
    duration_ms: u64,
)
    ensures
        plain_field(token) matches Some(f) ==> field_entry(f, ctx, status, lines, duration_ms).0
            == token && !(f is RequestHeader) && !(f is ResponseHeader),
        plain_field(token) is Some <==> seq![
            "method"@,
            "path"@,
            "client_ip"@,
            "status"@,
            "duration_ms"@,
            "cluster"@,
            "upstream"@,
            "request_id"@,
            "request_body_bytes"@,
            "response_body_bytes"@,
            "trace_id"@,
            "span_id"@,
        ].contains(token),
{
    let all = seq![
        "method"@,
        "path"@,
        "client_ip"@,
        "status"@,
        "duration_ms"@,
        "cluster"@,
        "upstream"@,
        "request_id"@,
        "request_body_bytes"@,
        "response_body_bytes"@,
        "trace_id"@,
        "span_id"@,
    ];
    if plain_field(token) is Some {
        assert(all[0] == "method"@ && all[1] == "path"@ && all[2] == "client_ip"@ && all[3]
            == "status"@ && all[4] == "duration_ms"@ && all[5] == "cluster"@ && all[6]
            == "upstream"@ && all[7] == "request_id"@ && all[8] == "request_body_bytes"@ && all[9]
            == "response_body_bytes"@ && all[10] == "trace_id"@ && all[11] == "span_id"@);
    }
}

/// A token with a header's prefix names that header, in lower case; without a
/// name behind the prefix it is refused.
pub proof fn law_header_tokens(name: Seq<char>)
    ensures
        name.len() > 0 ==> field_of("request_header."@ + name) == Ok::<FieldView, Seq<char>>(
            FieldView::RequestHeader(lower(name)),
        ),
        name.len() > 0 ==> field_of("response_header."@ + name) == Ok::<FieldView, Seq<char>>(
            FieldView::ResponseHeader(lower(name)),
        ),
        field_of("request_header."@) is Err,
        field_of("response_header."@) is Err,
{
    lemma_literals();
    let a = "request_header."@ + name;
    let b = "response_header."@ + name;
    assert(a.take(15) =~= "request_header."@);
    assert(a.skip(15) =~= name);
    assert(b.take(16) =~= "response_header."@);
    assert(b.skip(16) =~= name);
    assert(b.take(15)[8] == '_');
    let c = "request_header."@;
    let d = "response_header."@;
    assert(c.take(15) =~= c);
    assert(c.skip(15).len() == 0);
    assert(d.take(16) =~= d);
    assert(d.skip(16).len() == 0);
    assert(d.take(15)[8] == '_');
}

/// The fields of accepted tokens are those that the tokens name, one for one and
/// in order; the first token that names none decides the refusal.
pub proof fn law_tokens_in_order(tokens: Seq<Seq<char>>)
    ensures
        fields_of(tokens) is Ok <==> forall|i: int|
            0 <= i < tokens.len() ==> field_of(#[trigger] tokens[i]) is Ok,
        fields_of(tokens) matches Ok(fields) ==> fields.len() == tokens.len() && forall|i: int|
            0 <= i < tokens.len() ==> field_of(#[trigger] tokens[i]) == Ok::<
                FieldView,
                Seq<char>,
            >(fields[i]),
        fields_of(tokens) matches Err(m) ==> exists|i: int|
            0 <= i < tokens.len() && field_of(#[trigger] tokens[i]) == Err::<FieldView, Seq<char>>(
                m,
            ) && forall|j: int| 0 <= j < i ==> field_of(#[trigger] tokens[j]) is Ok,
    decreases tokens.len(),
{
    if tokens.len() > 0 {
        let front = tokens.drop_last();
        let last = tokens.len() - 1;
        law_tokens_in_order(front);
        assert forall|i: int| 0 <= i < last implies #[trigger] tokens[i] == front[i] by {}
        assert(tokens[last] == tokens.last());
        match fields_of(front) {
            Err(m) => {
                let i = choose|i: int|
                    0 <= i < front.len() && field_of(#[trigger] front[i]) == Err::<
                        FieldView,
                        Seq<char>,
                    >(m) && forall|j: int| 0 <= j < i ==> field_of(#[trigger] front[j]) is Ok;
                assert(field_of(tokens[i]) is Err);
                assert forall|j: int| 0 <= j < i implies field_of(#[trigger] tokens[j]) is Ok by {
                    assert(field_of(front[j]) is Ok);
                }
            },
            Ok(before) => {
                assert forall|i: int| 0 <= i < last implies field_of(#[trigger] tokens[i]) == Ok::<
                    FieldView,
                    Seq<char>,
                >(before[i]) by {
                    assert(field_of(front[i]) is Ok);
                }
                if field_of(tokens.last()) is Err {
                    assert(field_of(tokens[last]) is Err);
                }
            },
        }
    }
}

proof fn lemma_normalized_names(names: Seq<Seq<char>>, n: Seq<char>)
    requires
        normalized(names) is Ok,
        normalized(names)->Ok_0.contains(n),
    ensures
        n != "authorization"@,
        n != "proxy-authorization"@,
        n != "cookie"@,
        n != "set-cookie"@,
        n.len() > 0,
    decreases names.len(),
{
    let list = normalized(names)->Ok_0;
    let i = choose|i: int| 0 <= i < list.len() && list[i] == n;
    if names.len() > 0 {
        let before = normalized(names.drop_last())->Ok_0;
        if i < before.len() {
            assert(before[i] == n);
            lemma_normalized_names(names.drop_last(), n);
        } else {
            assert(n == lower(trimmed(names.last())));
            law_lower(trimmed(names.last()));
        }
    }
}

proof fn lemma_listed(
    fields: Seq<FieldView>,
    request_headers: Seq<Seq<char>>,
    response_headers: Seq<Seq<char>>,
    i: int,
)
    requires
        first_listing_error(fields, request_headers, response_headers) is None,
        0 <= i < fields.len(),
    ensures
        fields[i] matches FieldView::RequestHeader(n) ==> request_headers.contains(n),
        fields[i] matches FieldView::ResponseHeader(n) ==> response_headers.contains(n),
    decreases fields.len(),
{
    if i > 0 {
        lemma_listed(fields.skip(1), request_headers, response_headers, i - 1);
    }
}

/// Credentials are never logged: no accepted configuration selects a header that
/// carries them, on either side, however it writes the name. A header must be
/// listed for its side to be selected.
pub proof fn law_credentials_never_selected(cfg: AccessLogConfig, i: int)
    requires
        config_fields(cfg) is Ok,
        0 <= i < config_fields(cfg)->Ok_0.len(),
    ensures
        ({
            let field = config_fields(cfg)->Ok_0[i];
            &&& field matches FieldView::RequestHeader(n) ==> n != "authorization"@ && n
                != "proxy-authorization"@ && n != "cookie"@ && n != "set-cookie"@ && normalized(
                opt_list(cfg.request_headers),
            )->Ok_0.contains(n)
            &&& field matches FieldView::ResponseHeader(n) ==> n != "authorization"@ && n
                != "proxy-authorization"@ && n != "cookie"@ && n != "set-cookie"@ && normalized(
                opt_list(cfg.response_headers),
            )->Ok_0.contains(n)
        }),
{
    let fields = config_fields(cfg)->Ok_0;
    let request = normalized(opt_list(cfg.request_headers))->Ok_0;
    let response = normalized(opt_list(cfg.response_headers))->Ok_0;
    if cfg.fields is Some {
        lemma_listed(fields, request, response, i);
        match fields[i] {
            FieldView::RequestHeader(n) => {
                lemma_normalized_names(opt_list(cfg.request_headers), n);
            },
            FieldView::ResponseHeader(n) => {
                lemma_normalized_names(opt_list(cfg.response_headers), n);
            },
            _ => {},
        }
    }
}

/// The header lists of a configuration are kept whole and in order, each name
/// without surrounding whitespace and in lower case.
pub proof fn law_listed_names(names: Seq<Seq<char>>, i: int)
    requires
        normalized(names) is Ok,
        0 <= i < names.len(),
    ensures
        normalized(names)->Ok_0.len() == names.len(),
        normalized(names)->Ok_0[i] == lower(trimmed(names[i])),
        trimmed(names[i]).len() > 0,
    decreases names.len(),
{
    let before = normalized(names.drop_last())->Ok_0;
    if names.len() > 1 {
        law_listed_names(names.drop_last(), 0);
    }
    assert(before.len() == names.len() - 1);
    if i < names.len() - 1 {
        law_listed_names(names.drop_last(), i);
    }
}

/// An accepted configuration selects what its tokens name, or the ten default
/// fields where it has none; its conditions, where it has any, hold at least one
/// test, no empty list, and no prefix with a glob.
pub proof fn law_accepted_config(cfg: AccessLogConfig)
    requires
        config_fields(cfg) is Ok,
    ensures
        ({
            let fields = config_fields(cfg)->Ok_0;
            &&& cfg.sample is Ok
            &&& cfg.fields is None ==> fields == seq![
                FieldView::Method,
                FieldView::Path,
                FieldView::ClientIp,
                FieldView::Status,
                FieldView::DurationMs,
                FieldView::Cluster,
                FieldView::Upstream,
                FieldView::RequestId,
                FieldView::RequestBodyBytes,
                FieldView::ResponseBodyBytes,
            ]
            &&& cfg.fields matches Some(list) ==> {
                &&& list@.len() > 0
                &&& fields.len() == list@.len()
                &&& forall|i: int|
                    0 <= i < list@.len() ==> (#[trigger] list@[i]) is Some && field_of(
                        list@[i]->0@,
                    ) == Ok::<FieldView, Seq<char>>(fields[i])
            }
            &&& cfg.request_headers matches Some(names) ==> names@.len() > 0
            &&& cfg.response_headers matches Some(names) ==> names@.len() > 0
            &&& cfg.conditions matches Some(c) ==> {
                &&& c.min_duration_ms is Some || c.status_classes is Some || c.paths is Some
                &&& c.status_classes matches Some(classes) ==> classes@.len() > 0
                &&& c.paths matches Some(prefixes) ==> prefixes@.len() > 0 && forall|i: int|
                    0 <= i < prefixes@.len() ==> !(#[trigger] prefixes@[i])@.contains('*')
            }
        }),
{
    let fields = config_fields(cfg)->Ok_0;
    if cfg.fields is Some {
        let list = cfg.fields->0@;
        let tokens = token_texts(list);
        law_tokens_in_order(tokens);
        assert forall|i: int| 0 <= i < list.len() implies (#[trigger] list[i]) is Some && field_of(
            list[i]->0@,
        ) == Ok::<FieldView, Seq<char>>(fields[i]) by {
            assert(field_of(tokens[i]) is Ok);
        }
    }
    if cfg.request_headers is Some && cfg.request_headers->0@.len() == 0 {
        assert(texts(cfg.request_headers->0@) =~= Seq::empty());
    }
    if cfg.response_headers is Some && cfg.response_headers->0@.len() == 0 {
        assert(texts(cfg.response_headers->0@) =~= Seq::empty());
    }
    if cfg.conditions is Some && cfg.conditions->0.paths is Some {
        let prefixes = cfg.conditions->0.paths->0@;
        assert forall|i: int| 0 <= i < prefixes.len() implies !(#[trigger] prefixes[i])@.contains(
            '*',
        ) by {
            lemma_no_glob(texts(prefixes), i);
            assert(texts(prefixes)[i] == prefixes[i]@);
        }
    }
}

proof fn lemma_no_glob(paths: Seq<Seq<char>>, i: int)
    requires
        first_glob(paths) is None,
        0 <= i < paths.len(),
    ensures
        !paths[i].contains('*'),
    decreases paths.len(),
{
    if i > 0 {
        lemma_no_glob(paths.skip(1), i - 1);
    }
}

/// The body phase logs what the response phase kept: its status and, where they
/// were kept, its headers, which are then let go. Without a response phase the
/// status is 0.
pub proof fn law_kept_for_body_phase(ctx: AccessContext, status: u16, headers: Option<HeaderMap>)
    requires
        ctx.state == Some(AccessLogState { status, response_headers: headers }),
    ensures
        kept_status(ctx) == status,
        kept_lines(ctx) == match headers {
            Some(h) => Some(h@),
            None => None,
        },
        headers_taken(ctx) == (AccessContext {
            state: Some(AccessLogState { status, response_headers: None }),
            ..ctx
        }),
        kept_status(AccessContext { state: None, ..ctx }) == 0,
        kept_lines(AccessContext { state: None, ..ctx }) is None,
        headers_taken(AccessContext { state: None, ..ctx }) == (AccessContext {
            state: None,
            ..ctx
        }),
{
}

/// Which fault of a configuration is reported: the rate first, then the shape of
/// the field list, the two header lists, the tokens, and the conditions last.
pub proof fn law_refusal_order(cfg: AccessLogConfig)
    ensures
        ({
            let out = config_fields(cfg);
            let request = normalized(opt_list(cfg.request_headers));
            let response = normalized(opt_list(cfg.response_headers));
            let shaped = cfg.sample is Ok && (cfg.fields matches Some(list) ==> list@.len() > 0
                && forall|i: int| 0 <= i < list@.len() ==> #[trigger] list@[i] is Some);
            let listed = shaped && request is Ok && response is Ok && (cfg.request_headers matches
                Some(names) ==> names@.len() > 0) && (cfg.response_headers matches Some(names)
                ==> names@.len() > 0);
            let tokens = match cfg.fields {
                Some(list) => Some(token_texts(list@)),
                None => None,
            };
            &&& cfg.sample matches Err(e) ==> out == Err::<Seq<FieldView>, Seq<char>>(e@)
            &&& cfg.sample is Ok && cfg.fields is Some && cfg.fields->0@.len() == 0 ==> out
                == Err::<Seq<FieldView>, Seq<char>>(
                "access_log: fields must not be empty when present"@,
            )
            &&& cfg.sample is Ok && cfg.fields is Some && (exists|i: int|
                0 <= i < cfg.fields->0@.len() && #[trigger] cfg.fields->0@[i] is None) ==> out
                == Err::<Seq<FieldView>, Seq<char>>(
                "access_log: fields must be a list of scalar tokens; nested maps are not allowed"@,
            )
            &&& shaped && request is Err ==> out == Err::<Seq<FieldView>, Seq<char>>(
                request->Err_0,
            )
            &&& shaped && request is Ok && response is Err ==> out == Err::<
                Seq<FieldView>,
                Seq<char>,
            >(response->Err_0)
            &&& listed && selected_fields(tokens, request->Ok_0, response->Ok_0) is Err ==> out
                == Err::<Seq<FieldView>, Seq<char>>(
                selected_fields(tokens, request->Ok_0, response->Ok_0)->Err_0,
            )
            &&& listed && selected_fields(tokens, request->Ok_0, response->Ok_0) is Ok
                && conditions_error(cfg.conditions) is Some ==> out == Err::<
                Seq<FieldView>,
                Seq<char>,
            >(conditions_error(cfg.conditions)->0)
            &&& listed && selected_fields(tokens, request->Ok_0, response->Ok_0) is Ok
                && conditions_error(cfg.conditions) is None ==> out is Ok
        }),
{
    if normalized(opt_list(cfg.request_headers)) is Ok && cfg.request_headers is Some
        && cfg.request_headers->0@.len() > 0 {
        law_listed_names(opt_list(cfg.request_headers), 0);
    }
    if normalized(opt_list(cfg.response_headers)) is Ok && cfg.response_headers is Some
        && cfg.response_headers->0@.len() > 0 {
        law_listed_names(opt_list(cfg.response_headers), 0);
    }
}

/// The first name of a header list that is empty or that of a credential fails
/// the list; where there is none, the list is accepted.
pub proof fn law_first_refused_name(names: Seq<Seq<char>>, i: int)
    requires
        0 <= i <= names.len(),
        forall|j: int|
            0 <= j < i ==> trimmed(#[trigger] names[j]).len() > 0 && !sensitive(trimmed(names[j])),
        i < names.len() ==> trimmed(names[i]).len() == 0 || sensitive(trimmed(names[i])),
    ensures
        i == names.len() ==> normalized(names) is Ok,
        i < names.len() && trimmed(names[i]).len() == 0 ==> normalized(names) == Err::<
            Seq<Seq<char>>,
            Seq<char>,
        >("access_log: header names must not be empty"@),
        i < names.len() && trimmed(names[i]).len() > 0 ==> normalized(names) == Err::<
            Seq<Seq<char>>,
            Seq<char>,
        >("access_log: header "@ + quoted(trimmed(names[i])) + " is not allowed in v1"@),
    decreases names.len(),
{
    if names.len() > 0 {
        let front = names.drop_last();
        assert(names[names.len() - 1] == names.last());
        assert forall|j: int| 0 <= j < i && j < front.len() implies trimmed(
            #[trigger] front[j],
        ).len() > 0 && !sensitive(trimmed(front[j])) by {
            assert(front[j] == names[j]);
        }
        if i < front.len() {
            assert(front[i] == names[i]);
            law_first_refused_name(front, i);
        } else {
            law_first_refused_name(front, front.len() as int);
        }
    }
}

/// The headers that are never logged, whatever the case of their names.
pub proof fn law_credential_headers(name: Seq<char>)
    ensures
        sensitive(name) <==> seq![
            "authorization"@,
            "proxy-authorization"@,
            "cookie"@,
            "set-cookie"@,
        ].contains(lower(name)),
{
    let all = seq!["authorization"@, "proxy-authorization"@, "cookie"@, "set-cookie"@];
    assert(all[0] == "authorization"@ && all[1] == "proxy-authorization"@ && all[2] == "cookie"@
        && all[3] == "set-cookie"@);
}

/// Response headers are kept for the record exactly where a field reads one.
pub proof fn law_response_headers_kept(fields: Seq<FieldView>)
    ensures
        reads_response(fields) <==> exists|name: Seq<char>| #[trigger]
            fields.contains(FieldView::ResponseHeader(name)),
{
    if reads_response(fields) {
        let i = choose|i: int| 0 <= i < fields.len() && #[trigger] fields[i] is ResponseHeader;
        let name = fields[i]->ResponseHeader_0;
        assert(fields.contains(FieldView::ResponseHeader(name)));
    }
    if exists|name: Seq<char>| #[trigger] fields.contains(FieldView::ResponseHeader(name)) {
        let name = choose|name: Seq<char>| #[trigger]
            fields.contains(FieldView::ResponseHeader(name));
        let i = choose|i: int|
            0 <= i < fields.len() && fields[i] == FieldView::ResponseHeader(name);
        assert(fields[i] is ResponseHeader);
    }
}

/// The standard record and a record of the ten default fields, as they are built:
/// each body count is the request's own, under its own name, and so is every
/// other value.
pub proof fn law_built_records_agree(
    ctx: AccessContext,
    status: u16,
    duration_ms: u64,
    headers: Option<&HeaderMap>,
    standard: AccessRecord,
    plan: EmitPlan,
    named: SortedMap<String>,
)
    requires
        call_ensures(default_record, (&ctx, status, duration_ms), standard),
        field_views(plan.fields@) == default_fields(),
        call_ensures(
            EmitPlan::build_record,
            (&plan, &ctx, status, headers, duration_ms),
            named,
        ),
    ensures
        ({
            let text = text_pairs(named@);
            &&& standard.request_body_bytes == ctx.request_body_bytes
            &&& standard.response_body_bytes == ctx.response_body_bytes
            &&& find_pair(text, "request_body_bytes"@) == Some(
                decimal_digits(ctx.request_body_bytes as nat),
            )
            &&& find_pair(text, "response_body_bytes"@) == Some(
                decimal_digits(ctx.response_body_bytes as nat),
            )
            &&& find_pair(text, "method"@) == Some(standard.method@)
            &&& standard.method@ == ctx.method@
            &&& find_pair(text, "path"@) == Some(standard.path@)
            &&& standard.path@ == sanitized(ctx.path@)
            &&& find_pair(text, "client_ip"@) == Some(standard.client_ip@)
            &&& find_pair(text, "status"@) == Some(decimal_digits(standard.status as nat))
            &&& standard.status == status
            &&& find_pair(text, "duration_ms"@) == Some(
                decimal_digits(standard.duration_ms as nat),
            )
            &&& standard.duration_ms == duration_ms
            &&& find_pair(text, "cluster"@) == Some(standard.cluster@)
            &&& find_pair(text, "upstream"@) == Some(standard.upstream@)
            &&& find_pair(text, "request_id"@) == Some(standard.request_id@)
        }),
{
    law_standard_record_agrees(standard, ctx, status, opt_lines(headers), duration_ms);
}

/// What is logged of a text holds no control character, and a text without one is
/// handed back as it is, not copied.
pub proof fn law_logged_text<'a>(s: &'a str, r: Cow<'a, str>)
    requires
        call_ensures(sanitize_for_log, (s,), r),
    ensures
        forall|i: int| 0 <= i < r@.len() ==> !control(#[trigger] r@[i]),
        (forall|i: int| 0 <= i < s@.len() ==> !control(#[trigger] s@[i])) <==> r is Borrowed,
        r is Borrowed ==> r@ == s@,
{
    law_sanitized_has_no_control(s@);
    if r is Borrowed {
        law_clean_text_kept(s@);
    }
    assert forall|i: int| 0 <= i < r@.len() implies !control(#[trigger] r@[i]) by {
        assert(!any_control(r@));
    }
}

/// A status belongs to the class of its hundreds.
pub proof fn law_class_of_status(status: u16, class: StatusClass, r: bool)
    requires
        call_ensures(StatusClass::matches, (class, status), r),
    ensures
        class is Informational ==> (r <==> 100 <= status <= 199),
        class is Success ==> (r <==> 200 <= status <= 299),
        class is Redirection ==> (r <==> 300 <= status <= 399),
        class is ClientError ==> (r <==> 400 <= status <= 499),
        class is ServerError ==> (r <==> 500 <= status <= 599),
{
}

/// A duration is kept as it is where it fits, and is the largest count where it
/// does not.
pub proof fn law_duration_saturates(v: u128, r: u64)
    requires
        call_ensures(truncate_u128, (v,), r),
    ensures
        v < 0x1_0000_0000_0000_0000 ==> r == v,
        v >= 0x1_0000_0000_0000_0000 ==> r == 0xffff_ffff_ffff_ffff,
{
}

/// A response without a body phase is logged by the response phase, and the body
/// phase of the same request then logs nothing; any other response is logged by
/// the body phase alone, when the body ended, with the response's own status.
pub proof fn law_logged_in_one_phase(
    filter: &mut AccessLogFilter,
    ctx: &mut AccessContext,
    head: ResponseHead,
    enabled: bool,
    elapsed_ms: u128,
    first: Option<LogEntry>,
    later_filter: &mut AccessLogFilter,
    later_ctx: &mut AccessContext,
    later_ms: u128,
    second: Option<LogEntry>,
)
    requires
        call_ensures(
            AccessLogFilter::on_response,
            (filter, ctx, Some(&head), enabled, elapsed_ms),
            first,
        ),
        *old(later_filter) == *final(filter),
        *old(later_ctx) == *final(ctx),
        call_ensures(
            AccessLogFilter::on_response_body,
            (later_filter, later_ctx, true, enabled, later_ms),
            second,
        ),
    ensures
        first is Some ==> second is None,
        !(head.status < 200 || head.status == 204 || head.status == 304 || old(ctx).method@
            == "HEAD"@) ==> first is None,
        second matches Some(LogEntry::Standard(record)) ==> record.status == head.status
            && record.request_body_bytes == old(later_ctx).request_body_bytes
            && record.response_body_bytes == old(later_ctx).response_body_bytes,
{
}

/// The words for a token that names no field.
pub proof fn law_refused_tokens(token: Seq<char>)
    ensures
        field_of("request_header."@) == Err::<FieldView, Seq<char>>(
            "access_log: request_header token must include a header name"@,
        ),
        field_of("response_header."@) == Err::<FieldView, Seq<char>>(
            "access_log: response_header token must include a header name"@,
        ),
        !has_prefix(token, "request_header."@) && !has_prefix(token, "response_header."@)
            && plain_field(token) is None && token != "filter_results"@ ==> field_of(token)
            == Err::<FieldView, Seq<char>>("access_log: unknown field token "@ + quoted(token)),
        !has_prefix(token, "request_header."@) && !has_prefix(token, "response_header."@)
            && plain_field(token) is None && token == "filter_results"@ ==> field_of(token)
            == Err::<FieldView, Seq<char>>("access_log: filter_results is not supported in v1"@),
{
    law_header_tokens(Seq::empty());
    lemma_literals();
    let c = "request_header."@;
    let d = "response_header."@;
    assert(c.take(15) =~= c);
    assert(c.skip(15).len() == 0);
    assert(d.take(16) =~= d);
    assert(d.skip(16).len() == 0);
    assert(d.take(15)[8] == '_');
}

/// The words for a header field whose header is not listed for its side; a listed
/// header, and a field without one, is never refused.
pub proof fn law_unlisted_headers(
    name: Seq<char>,
    field: FieldView,
    request_headers: Seq<Seq<char>>,
    response_headers: Seq<Seq<char>>,
)
    ensures
        listing_error(FieldView::RequestHeader(name), request_headers, response_headers)
            == if request_headers.contains(name) {
            None
        } else {
            Some(
                "access_log: request_header."@ + name + " requires "@ + quoted(name)
                    + " in request_headers"@,
            )
        },
        listing_error(FieldView::ResponseHeader(name), request_headers, response_headers)
            == if response_headers.contains(name) {
            None
        } else {
            Some(
                "access_log: response_header."@ + name + " requires "@ + quoted(name)
                    + " in response_headers"@,
            )
        },
        !(field is RequestHeader) && !(field is ResponseHeader) ==> listing_error(
            field,
            request_headers,
            response_headers,
        ) is None,
{
}

/// Which fault of the conditions is reported: that they hold no test, then an empty
/// list of classes, then an empty list of prefixes, then the first prefix with a
/// glob.
pub proof fn law_refused_conditions(c: AccessLogEmitConditions, i: int)
    ensures
        ({
            let out = conditions_error(Some(c));
            let classes = c.status_classes is Some && c.status_classes->0@.len() > 0;
            let prefixes = c.paths is Some && c.paths->0@.len() > 0;
            &&& c.min_duration_ms is None && !classes && !prefixes ==> out == Some(
                "access_log: conditions must include at least one of min_duration_ms, status_classes, or paths"@,
            )
            &&& (c.min_duration_ms is Some || prefixes) && c.status_classes is Some && !classes
                ==> out == Some("access_log: status_classes must not be empty when present"@)
            &&& (c.min_duration_ms is Some || classes) && !(c.status_classes is Some && !classes)
                && c.paths is Some && !prefixes ==> out == Some(
                "access_log: paths must not be empty when present"@,
            )
            &&& !(c.status_classes is Some && !classes) && prefixes && 0 <= i
                < c.paths->0@.len() && c.paths->0@[i]@.contains('*') && (forall|j: int|
                0 <= j < i ==> !(#[trigger] c.paths->0@[j])@.contains('*')) ==> out == Some(
                "access_log: paths must be prefixes without globs, got "@ + quoted(
                    c.paths->0@[i]@,
                ),
            )
        }),
{
    if c.paths is Some && 0 <= i < c.paths->0@.len() && c.paths->0@[i]@.contains('*') && (forall|
        j: int,
    |
        0 <= j < i ==> !(#[trigger] c.paths->0@[j])@.contains('*')) {
        let all = texts(c.paths->0@);
        assert forall|j: int| 0 <= j < i implies !(#[trigger] all[j]).contains('*') by {
            assert(all[j] == c.paths->0@[j]@);
        }
        lemma_first_glob(all, i);
    }
}

proof fn lemma_first_glob(paths: Seq<Seq<char>>, i: int)
    requires
        0 <= i < paths.len(),
        paths[i].contains('*'),
        forall|j: int| 0 <= j < i ==> !(#[trigger] paths[j]).contains('*'),
    ensures
        first_glob(paths) == Some(
            "access_log: paths must be prefixes without globs, got "@ + quoted(paths[i]),
        ),
    decreases paths.len(),
{
    if i > 0 {
        assert(!paths[0].contains('*'));
        let rest = paths.skip(1);
        assert forall|j: int| 0 <= j < i - 1 implies !(#[trigger] rest[j]).contains('*') by {
            assert(rest[j] == paths[j + 1]);
        }
        lemma_first_glob(rest, i - 1);
    }
}

/// A filter starts at the beginning of its window, at the accepted rate, with the
/// configured conditions; it logs the standard record exactly where no fields are
/// configured.
pub proof fn law_filter_as_configured(
    cfg: AccessLogConfig,
    r: Result<AccessLogFilter, FilterError>,
)
    requires
        call_ensures(AccessLogFilter::build, (cfg,), r),
    ensures
        r is Ok <==> config_fields(cfg) is Ok,
        r matches Ok(f) ==> {
            &&& f.counter == 0
            &&& 1 <= f.sample_numerator <= 1_000_000
            &&& 1 <= cfg.sample->Ok_0 <= 1_000_000 ==> f.sample_numerator == cfg.sample->Ok_0
            &&& f.emit_plan.is_default <==> cfg.fields is None
            &&& f.emit_conditions == cfg.conditions
            &&& field_views(f.emit_plan.fields@) == config_fields(cfg)->Ok_0
            &&& f.needs_response_headers <==> exists|i: int|
                0 <= i < f.emit_plan.fields@.len() && #[trigger] f.emit_plan.fields@[i]
                    is ResponseHeader
        },
{
    if r is Ok {
        let f = r->Ok_0;
        let views = field_views(f.emit_plan.fields@);
        if f.needs_response_headers {
            let i = choose|i: int| 0 <= i < views.len() && #[trigger] views[i] is ResponseHeader;
            assert(f.emit_plan.fields@[i] is ResponseHeader);
        }
        if exists|i: int|
            0 <= i < f.emit_plan.fields@.len() && #[trigger] f.emit_plan.fields@[i]
                is ResponseHeader {
            let i = choose|i: int|
                0 <= i < f.emit_plan.fields@.len() && #[trigger] f.emit_plan.fields@[i]
                    is ResponseHeader;
            assert(views[i] is ResponseHeader);
        }
    }
}

/// The record of a request that ended early has the standard fields and the
/// request's trace ids, trace before span, where it has any.
pub proof fn law_early_record(
    ctx: AccessContext,
    status: u16,
    elapsed_ms: u128,
    r: AccessRecord,
    trace: String,
    span: String,
)
    requires
        call_ensures(emit_access_record, (&ctx, status, elapsed_ms), r),
        call_ensures(current_trace_id, (&ctx,), trace),
        call_ensures(current_span_id, (&ctx,), span),
    ensures
        r.method@ == ctx.method@,
        r.path@ == sanitized(ctx.path@),
        r.status == status,
        elapsed_ms < 0x1_0000_0000_0000_0000 ==> r.duration_ms == elapsed_ms,
        r.request_body_bytes == ctx.request_body_bytes,
        r.response_body_bytes == ctx.response_body_bytes,
        r.otel_ids is Some <==> ctx.otel_ids is Some,
        r.otel_ids matches Some(own) ==> own.0@ == trace@ && own.1@ == span@,
        ctx.otel_ids is None ==> trace@ == "-"@ && span@ == "-"@,
        ctx.otel_ids matches Some(ids) ==> trace@ == ids.0@ && span@ == ids.1@,
{
}

/// The words for a header list that is present and empty; of two such lists the
/// one for requests is named.
pub proof fn law_empty_header_lists(cfg: AccessLogConfig)
    requires
        cfg.sample is Ok,
        cfg.fields is None,
    ensures
        cfg.request_headers is Some && cfg.request_headers->0@.len() == 0 && normalized(
            opt_list(cfg.response_headers),
        ) is Ok ==> config_fields(cfg) == Err::<Seq<FieldView>, Seq<char>>(
            "access_log: request_headers must not be empty when present"@,
        ),
        cfg.request_headers is None && cfg.response_headers is Some
            && cfg.response_headers->0@.len() == 0 ==> config_fields(cfg) == Err::<
            Seq<FieldView>,
            Seq<char>,
        >("access_log: response_headers must not be empty when present"@),
{
}

} // verus!
