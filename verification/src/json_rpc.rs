//! JSON-RPC envelopes: which message a body holds, without its parameters.

use serde_json::Value;
use vstd::prelude::*;

use crate::body::BodyAccess;
use crate::body::BodyMode;
use crate::headers::opt_text;
use crate::json::find_member;
use crate::json::has_member;
use crate::json::json_of;
use crate::json::law_member_found;
use crate::json::member;
use crate::json::member_trees;
use crate::json::opt_shape;
use crate::json::parse_json;
use crate::json::read_member;
use crate::json::shape;
use crate::json::tree;
use crate::json::JsonShape;
use crate::json::JsonView;
use crate::text::concat2;
use crate::text::concat4;
use crate::text::decimal;
use crate::text::decimal_digits;
use crate::text::same_text;

verus! {

/// Body bound where none is configured.
pub const DEFAULT_MAX_BODY_BYTES: usize = 1_048_576;

/// What happens with batches.
#[derive(Clone, Copy, Debug, PartialEq, Eq, Structural)]
pub enum BatchPolicy {
    /// Batches are refused.
    Reject,
    /// The first valid item stands for the batch.
    First,
}

/// What happens with bodies that are no JSON-RPC message.
#[derive(Clone, Copy, Debug, PartialEq, Eq, Structural)]
pub enum OnInvalidBehavior {
    /// They pass.
    Continue,
    /// They are refused.
    Reject,
    /// They are a filter error.
    Error,
}

/// Request headers that carry the envelope.
pub struct JsonRpcHeaders {
    /// Header for the method.
    pub method: String,
    /// Header for the id.
    pub id: String,
    /// Header for the kind.
    pub kind: String,
}

impl JsonRpcHeaders {
    /// The header names in use where none are configured.
    pub fn standard() -> (r: JsonRpcHeaders)
        ensures
            r.method@ == "X-Json-Rpc-Method"@,
            r.id@ == "X-Json-Rpc-Id"@,
            r.kind@ == "X-Json-Rpc-Kind"@,
    {
        JsonRpcHeaders {
            method: "X-Json-Rpc-Method".to_owned(),
            id: "X-Json-Rpc-Id".to_owned(),
            kind: "X-Json-Rpc-Kind".to_owned(),
        }
    }
}

/// Filter settings.
pub struct JsonRpcConfig {
    /// What happens with batches.
    pub batch_policy: BatchPolicy,
    /// Headers that carry the envelope.
    pub headers: JsonRpcHeaders,
    /// Bound on the items of a batch.
    pub max_batch_size: usize,
    /// Bound on the body.
    pub max_body_bytes: usize,
    /// What happens with other bodies.
    pub on_invalid: OnInvalidBehavior,
}

// The captured fields.

/// The `jsonrpc` field.
#[derive(Debug)]
pub enum RawVersion {
    /// Absent, or no string.
    Missing,
    /// A string.
    Str(String),
}

/// The `id` field.
#[derive(Debug)]
pub enum RawId {
    /// Absent.
    Missing,
    /// `null`.
    Null,
    /// A string.
    Str(String),
    /// An integer, rendered.
    Integer(String),
    /// Any other number, rendered.
    Number(String),
    /// A value that cannot be an id.
    Invalid,
}

/// The `method` field.
#[derive(Debug)]
pub enum RawMethod {
    /// Absent.
    Missing,
    /// A string.
    Str(String),
    /// No string.
    NotString,
}

/// The envelope fields of one message.
#[derive(Debug)]
pub struct RawMessage {
    /// The `jsonrpc` field.
    pub version: RawVersion,
    /// The `id` field.
    pub id: RawId,
    /// Whether there is a `result` or an `error`, whatever its value.
    pub has_result_or_error: bool,
    /// The `method` field.
    pub method: RawMethod,
}

/// What a body holds.
#[derive(Debug)]
pub enum RawTop {
    /// One message.
    Message(RawMessage),
    /// A batch.
    Batch {
        /// The items that were kept, `None` for one that is no object.
        items: Vec<Option<RawMessage>>,
        /// The number of items, kept or not.
        len: usize,
    },
    /// Any other value.
    Other,
}

/// The `jsonrpc` field, as a value.
pub ghost enum VersionView {
    /// Absent, or no string.
    Missing,
    /// A string.
    Str(Seq<char>),
}

/// The `id` field, as a value.
pub ghost enum IdView {
    /// Absent.
    Missing,
    /// `null`.
    Null,
    /// A string.
    Str(Seq<char>),
    /// An integer.
    Integer(Seq<char>),
    /// Any other number.
    Number(Seq<char>),
    /// A value that cannot be an id.
    Invalid,
}

/// The `method` field, as a value.
pub ghost enum MethodView {
    /// Absent.
    Missing,
    /// A string.
    Str(Seq<char>),
    /// No string.
    NotString,
}

/// The envelope fields of one message, as values.
pub ghost struct MessageView {
    /// The `jsonrpc` field.
    pub version: VersionView,
    /// The `id` field.
    pub id: IdView,
    /// Whether there is a `result` or an `error`.
    pub has_result_or_error: bool,
    /// The `method` field.
    pub method: MethodView,
}

/// What a body holds, as a value.
pub ghost enum TopView {
    /// One message.
    Message(MessageView),
    /// A batch.
    Batch {
        /// Kept items.
        items: Seq<Option<MessageView>>,
        /// All items.
        len: nat,
    },
    /// Any other value.
    Other,
}

impl View for RawVersion {
    type V = VersionView;

    open spec fn view(&self) -> VersionView {
        match self {
            RawVersion::Missing => VersionView::Missing,
            RawVersion::Str(s) => VersionView::Str(s@),
        }
    }
}

impl View for RawId {
    type V = IdView;

    open spec fn view(&self) -> IdView {
        match self {
            RawId::Missing => IdView::Missing,
            RawId::Null => IdView::Null,
            RawId::Str(s) => IdView::Str(s@),
            RawId::Integer(s) => IdView::Integer(s@),
            RawId::Number(s) => IdView::Number(s@),
            RawId::Invalid => IdView::Invalid,
        }
    }
}

impl View for RawMethod {
    type V = MethodView;

    open spec fn view(&self) -> MethodView {
        match self {
            RawMethod::Missing => MethodView::Missing,
            RawMethod::Str(s) => MethodView::Str(s@),
            RawMethod::NotString => MethodView::NotString,
        }
    }
}

impl View for RawMessage {
    type V = MessageView;

    open spec fn view(&self) -> MessageView {
        MessageView {
            version: self.version@,
            id: self.id@,
            has_result_or_error: self.has_result_or_error,
            method: self.method@,
        }
    }
}

/// A kept item, as a value.
pub open spec fn item_view(item: Option<RawMessage>) -> Option<MessageView> {
    match item {
        Some(m) => Some(m@),
        None => None,
    }
}

impl View for RawTop {
    type V = TopView;

    open spec fn view(&self) -> TopView {
        match self {
            RawTop::Message(m) => TopView::Message(m@),
            RawTop::Batch { items, len } => TopView::Batch {
                items: items@.map_values(|i: Option<RawMessage>| item_view(i)),
                len: *len as nat,
            },
            RawTop::Other => TopView::Other,
        }
    }
}

/// The `jsonrpc` field that a member makes.
pub open spec fn version_of(field: Option<JsonView>) -> VersionView {
    match field {
        Some(JsonView::Str(s)) => VersionView::Str(s),
        _ => VersionView::Missing,
    }
}

/// The `id` field that a member makes; a number is kept as its text.
pub open spec fn id_of(field: Option<JsonView>) -> IdView {
    match field {
        None => IdView::Missing,
        Some(JsonView::Null) => IdView::Null,
        Some(JsonView::Str(s)) => IdView::Str(s),
        Some(JsonView::Number { text, float }) => if float {
            IdView::Number(text)
        } else {
            IdView::Integer(text)
        },
        _ => IdView::Invalid,
    }
}

/// The `method` field that a member makes.
pub open spec fn method_of(field: Option<JsonView>) -> MethodView {
    match field {
        None => MethodView::Missing,
        Some(JsonView::Str(s)) => MethodView::Str(s),
        _ => MethodView::NotString,
    }
}

/// The message that these members make.
pub open spec fn message_of(
    version: Option<JsonView>,
    id: Option<JsonView>,
    method: Option<JsonView>,
    has_result_or_error: bool,
) -> MessageView {
    MessageView {
        version: version_of(version),
        id: id_of(id),
        has_result_or_error,
        method: method_of(method),
    }
}

/// The envelope fields of an object with these members.
pub open spec fn object_message(members: Seq<(Seq<char>, JsonView)>) -> MessageView {
    message_of(
        member(members, "jsonrpc"@),
        member(members, "id"@),
        member(members, "method"@),
        member(members, "result"@) is Some || member(members, "error"@) is Some,
    )
}

/// The message that these members make.
pub fn capture_fields(
    version: Option<JsonShape>,
    id: Option<JsonShape>,
    method: Option<JsonShape>,
    has_result_or_error: bool,
) -> (r: RawMessage)
    ensures
        r@ == message_of(
            opt_shape(version),
            opt_shape(id),
            opt_shape(method),
            has_result_or_error,
        ),
{
    let version = match version {
        Some(JsonShape::Str(s)) => RawVersion::Str(s.clone()),
        _ => RawVersion::Missing,
    };
    let id = match id {
        None => RawId::Missing,
        Some(JsonShape::Null) => RawId::Null,
        Some(JsonShape::Str(s)) => RawId::Str(s.clone()),
        Some(JsonShape::Number { text, float }) => {
            if float {
                RawId::Number(text)
            } else {
                RawId::Integer(text)
            }
        },
        _ => RawId::Invalid,
    };
    let method = match method {
        None => RawMethod::Missing,
        Some(JsonShape::Str(s)) => RawMethod::Str(s.clone()),
        _ => RawMethod::NotString,
    };
    RawMessage { version, id, has_result_or_error, method }
}

/// The envelope fields of an object.
pub fn capture_message(members: &Vec<(&String, &Value)>) -> (r: RawMessage)
    ensures
        r@ == object_message(member_trees(members@)),
{
    let has_result_or_error = find_member(members, "result").is_some() || find_member(
        members,
        "error",
    ).is_some();
    capture_fields(
        read_member(members, "jsonrpc"),
        read_member(members, "id"),
        read_member(members, "method"),
        has_result_or_error,
    )
}

/// How many items of a batch are kept: none that no policy reads.
pub open spec fn retention(config: JsonRpcConfig) -> usize {
    match config.batch_policy {
        BatchPolicy::Reject => 0,
        BatchPolicy::First => config.max_batch_size,
    }
}

/// How many items of a batch are kept.
pub fn retained_batch_items(config: &JsonRpcConfig) -> (r: usize)
    ensures
        r == retention(*config),
{
    match config.batch_policy {
        BatchPolicy::Reject => 0,
        BatchPolicy::First => config.max_batch_size,
    }
}

/// What is kept of one item of a batch: the envelope fields of an object,
/// nothing of any other value.
pub open spec fn batch_item(item: JsonView) -> Option<MessageView> {
    match item {
        JsonView::Object(members) => Some(object_message(members)),
        _ => None,
    }
}

/// What is kept of a value, with at most `keep` items of a batch.
pub open spec fn top_of(value: JsonView, keep: usize) -> TopView {
    match value {
        JsonView::Object(members) => TopView::Message(object_message(members)),
        JsonView::Array(items) => TopView::Batch {
            items: Seq::new(
                if items.len() < keep {
                    items.len()
                } else {
                    keep as nat
                },
                |i: int| batch_item(items[i]),
            ),
            len: items.len(),
        },
        _ => TopView::Other,
    }
}

/// Captures what is kept of one item of a batch.
pub fn capture_item(item: JsonShape) -> (r: Option<RawMessage>)
    ensures
        item_view(r) == batch_item(item@),
{
    match item {
        JsonShape::Object(members) => Some(capture_message(&members)),
        _ => None,
    }
}

/// Captures the envelope fields of a value. Of a batch the first `keep` items
/// are kept and all are counted.
pub fn capture_value(value: JsonShape, keep: usize) -> (r: RawTop)
    ensures
        r@ == top_of(value@, keep),
{
    match value {
        JsonShape::Object(members) => RawTop::Message(capture_message(&members)),
        JsonShape::Array(elements) => {
            let mut items: Vec<Option<RawMessage>> = Vec::new();
            let mut i: usize = 0;
            while i < elements.len() && i < keep
                invariant
                    i <= elements@.len(),
                    i <= keep,
                    items@.len() == i,
                    forall|k: int|
                        0 <= k < i ==> item_view(#[trigger] items@[k]) == batch_item(
                            tree(elements@[k]),
                        ),
                decreases elements@.len() - i,
            {
                items.push(capture_item(shape(&elements[i])));
                i += 1;
            }
            let len: usize = elements.len();
            let r = RawTop::Batch { items, len };
            proof {
                assert(r@->items =~= top_of(value@, keep)->items);
            }
            r
        },
        _ => RawTop::Other,
    }
}

/// Captures the envelope fields of a body, which must be one JSON value. What is
/// captured is bounded by the batch limit; the parsed value, which is dropped
/// here, takes memory with the size of the body.
pub fn capture_top(input: &[u8], config: &JsonRpcConfig) -> (r: Result<RawTop, String>)
    ensures
        match json_of(input@) {
            Ok(value) => r is Ok && r->Ok_0@ == top_of(value, retention(*config)),
            Err(why) => r is Err && r->Err_0@ == why,
        },
{
    match parse_json(input) {
        Ok(value) => Ok(capture_value(shape(&value), retained_batch_items(config))),
        Err(why) => Err(why),
    }
}

// The envelope.

/// What kind of message a body holds.
#[derive(Clone, Copy, Debug, PartialEq, Eq, Structural)]
pub enum JsonRpcKind {
    /// A call that expects an answer.
    Request,
    /// A call that expects none.
    Notification,
    /// An answer.
    Response,
    /// A batch.
    Batch,
}

/// What kind of id a message has.
#[derive(Clone, Copy, Debug, PartialEq, Eq, Structural)]
pub enum JsonRpcIdKind {
    /// A string.
    String,
    /// An integer.
    Integer,
    /// Any other number.
    Number,
    /// `null`.
    Null,
    /// No id.
    Missing,
}

/// A JSON-RPC message without its parameters.
#[derive(Debug)]
pub struct JsonRpcEnvelope {
    /// Kind of message.
    pub kind: JsonRpcKind,
    /// Method.
    pub method: Option<String>,
    /// Id, rendered.
    pub id: Option<String>,
    /// Kind of id.
    pub id_kind: JsonRpcIdKind,
    /// Number of items, for a batch.
    pub batch_len: Option<usize>,
}

/// A JSON-RPC message without its parameters, as a value.
pub ghost struct EnvelopeView {
    /// Kind of message.
    pub kind: JsonRpcKind,
    /// Method.
    pub method: Option<Seq<char>>,
    /// Id.
    pub id: Option<Seq<char>>,
    /// Kind of id.
    pub id_kind: JsonRpcIdKind,
    /// Number of items.
    pub batch_len: Option<usize>,
}

impl View for JsonRpcEnvelope {
    type V = EnvelopeView;

    open spec fn view(&self) -> EnvelopeView {
        EnvelopeView {
            kind: self.kind,
            method: opt_text(self.method),
            id: opt_text(self.id),
            id_kind: self.id_kind,
            batch_len: self.batch_len,
        }
    }
}

/// Why a body is no JSON-RPC message.
#[derive(Debug)]
pub enum JsonRpcParseError {
    /// It is no JSON.
    InvalidJson(String),
    /// It has no version.
    MissingVersion,
    /// It has another version.
    WrongVersion(String),
    /// A call has no method.
    MissingMethod,
    /// The method is no string.
    InvalidMethod,
    /// The id is of a kind that ids cannot have.
    InvalidId,
    /// Batches are refused.
    UnsupportedBatch,
    /// A batch has no items.
    EmptyBatch,
    /// A batch has this many items, more than the second number.
    BatchTooLarge(usize, usize),
}

/// Why a body is no JSON-RPC message, as a value.
pub ghost enum ParseErrorView {
    /// It is no JSON.
    InvalidJson(Seq<char>),
    /// It has no version.
    MissingVersion,
    /// It has another version.
    WrongVersion(Seq<char>),
    /// A call has no method.
    MissingMethod,
    /// The method is no string.
    InvalidMethod,
    /// The id is of a kind that ids cannot have.
    InvalidId,
    /// Batches are refused.
    UnsupportedBatch,
    /// A batch has no items.
    EmptyBatch,
    /// A batch has too many items.
    BatchTooLarge(nat, usize),
}

impl View for JsonRpcParseError {
    type V = ParseErrorView;

    open spec fn view(&self) -> ParseErrorView {
        match self {
            JsonRpcParseError::InvalidJson(s) => ParseErrorView::InvalidJson(s@),
            JsonRpcParseError::MissingVersion => ParseErrorView::MissingVersion,
            JsonRpcParseError::WrongVersion(s) => ParseErrorView::WrongVersion(s@),
            JsonRpcParseError::MissingMethod => ParseErrorView::MissingMethod,
            JsonRpcParseError::InvalidMethod => ParseErrorView::InvalidMethod,
            JsonRpcParseError::InvalidId => ParseErrorView::InvalidId,
            JsonRpcParseError::UnsupportedBatch => ParseErrorView::UnsupportedBatch,
            JsonRpcParseError::EmptyBatch => ParseErrorView::EmptyBatch,
            JsonRpcParseError::BatchTooLarge(actual, max) => ParseErrorView::BatchTooLarge(
                *actual as nat,
                *max,
            ),
        }
    }
}

/// The error in words.
pub open spec fn parse_error_text(e: ParseErrorView) -> Seq<char> {
    match e {
        ParseErrorView::InvalidJson(why) => "invalid JSON: "@ + why,
        ParseErrorView::MissingVersion => "missing 'jsonrpc' field"@,
        ParseErrorView::WrongVersion(v) => "wrong jsonrpc version: "@ + v,
        ParseErrorView::MissingMethod => "missing 'method' field"@,
        ParseErrorView::InvalidMethod => "'method' must be a string"@,
        ParseErrorView::InvalidId => "'id' must be string, number, or null"@,
        ParseErrorView::UnsupportedBatch => "batch requests are not supported"@,
        ParseErrorView::EmptyBatch => "batch array is empty"@,
        ParseErrorView::BatchTooLarge(actual, max) => "batch of "@ + decimal_digits(actual)
            + " items exceeds maximum "@ + decimal_digits(max as nat),
    }
}

impl JsonRpcParseError {
    /// The error in words.
    pub fn text(&self) -> (r: String)
        ensures
            r@ == parse_error_text(self@),
    {
        match self {
            JsonRpcParseError::InvalidJson(why) => concat2("invalid JSON: ", why.as_str()),
            JsonRpcParseError::MissingVersion => "missing 'jsonrpc' field".to_owned(),
            JsonRpcParseError::WrongVersion(v) => concat2("wrong jsonrpc version: ", v.as_str()),
            JsonRpcParseError::MissingMethod => "missing 'method' field".to_owned(),
            JsonRpcParseError::InvalidMethod => "'method' must be a string".to_owned(),
            JsonRpcParseError::InvalidId => "'id' must be string, number, or null".to_owned(),
            JsonRpcParseError::UnsupportedBatch => "batch requests are not supported".to_owned(),
            JsonRpcParseError::EmptyBatch => "batch array is empty".to_owned(),
            JsonRpcParseError::BatchTooLarge(actual, max) => concat4(
                "batch of ",
                decimal(*actual as u64).as_str(),
                " items exceeds maximum ",
                decimal(*max as u64).as_str(),
            ),
        }
    }
}

/// The id of a message and its kind, or none for a value that cannot be an id.
pub open spec fn id_parts(id: IdView) -> Option<(Option<Seq<char>>, JsonRpcIdKind)> {
    match id {
        IdView::Missing => Some((None, JsonRpcIdKind::Missing)),
        IdView::Null => Some((Some("null"@), JsonRpcIdKind::Null)),
        IdView::Str(s) => Some((Some(s), JsonRpcIdKind::String)),
        IdView::Integer(s) => Some((Some(s), JsonRpcIdKind::Integer)),
        IdView::Number(s) => Some((Some(s), JsonRpcIdKind::Number)),
        IdView::Invalid => None,
    }
}

/// The envelope of one message, or what is wrong with it. A message with a
/// result or an error is a response; one with a method is a call.
pub open spec fn message_envelope(m: MessageView) -> Result<EnvelopeView, ParseErrorView> {
    match m.version {
        VersionView::Missing => Err(ParseErrorView::MissingVersion),
        VersionView::Str(v) => if v != "2.0"@ {
            Err(ParseErrorView::WrongVersion(v))
        } else {
            match id_parts(m.id) {
                None => Err(ParseErrorView::InvalidId),
                Some((id, id_kind)) => if m.has_result_or_error {
                    Ok(
                        EnvelopeView {
                            kind: JsonRpcKind::Response,
                            method: None,
                            id,
                            id_kind,
                            batch_len: None,
                        },
                    )
                } else {
                    match m.method {
                        MethodView::Missing => Err(ParseErrorView::MissingMethod),
                        MethodView::NotString => Err(ParseErrorView::InvalidMethod),
                        MethodView::Str(method) => Ok(
                            EnvelopeView {
                                kind: if id is None {
                                    JsonRpcKind::Notification
                                } else {
                                    JsonRpcKind::Request
                                },
                                method: Some(method),
                                id,
                                id_kind,
                                batch_len: None,
                            },
                        ),
                    }
                },
            }
        },
    }
}

/// Whether what is wrong is only that the body is no JSON-RPC at all, which
/// passes where such bodies may.
pub open spec fn tolerated(e: ParseErrorView, on_invalid: OnInvalidBehavior) -> bool {
    e is MissingVersion && on_invalid == OnInvalidBehavior::Continue
}

/// The envelope of the first valid item.
pub open spec fn first_valid(items: Seq<Option<MessageView>>) -> Option<EnvelopeView>
    decreases items.len(),
{
    if items.len() == 0 {
        None
    } else {
        match items[0] {
            Some(m) => match message_envelope(m) {
                Ok(e) => Some(e),
                Err(_) => first_valid(items.skip(1)),
            },
            None => first_valid(items.skip(1)),
        }
    }
}

/// The envelope of what a body holds, nothing for a body that passes, or what
/// is wrong with it.
pub open spec fn envelope_of(top: TopView, config: JsonRpcConfig) -> Result<
    Option<EnvelopeView>,
    ParseErrorView,
> {
    match top {
        TopView::Message(m) => match message_envelope(m) {
            Ok(e) => Ok(Some(e)),
            Err(e) => if tolerated(e, config.on_invalid) {
                Ok(None)
            } else {
                Err(e)
            },
        },
        TopView::Batch { items, len } => if len == 0 {
            Err(ParseErrorView::EmptyBatch)
        } else if config.batch_policy == BatchPolicy::Reject {
            Err(ParseErrorView::UnsupportedBatch)
        } else if len > config.max_batch_size {
            Err(ParseErrorView::BatchTooLarge(len, config.max_batch_size))
        } else {
            match first_valid(items) {
                Some(e) => Ok(
                    Some(
                        EnvelopeView {
                            kind: JsonRpcKind::Batch,
                            batch_len: Some(len as usize),
                            ..e
                        },
                    ),
                ),
                None => not_json_rpc(config.on_invalid),
            }
        },
        TopView::Other => not_json_rpc(config.on_invalid),
    }
}

/// What a body that is no JSON-RPC at all comes to.
pub open spec fn not_json_rpc(on_invalid: OnInvalidBehavior) -> Result<
    Option<EnvelopeView>,
    ParseErrorView,
> {
    if tolerated(ParseErrorView::MissingVersion, on_invalid) {
        Ok(None)
    } else {
        Err(ParseErrorView::MissingVersion)
    }
}

/// A parse result, as a value.
pub open spec fn envelope_result(r: Result<Option<JsonRpcEnvelope>, JsonRpcParseError>) -> Result<
    Option<EnvelopeView>,
    ParseErrorView,
> {
    match r {
        Ok(Some(e)) => Ok(Some(e@)),
        Ok(None) => Ok(None),
        Err(e) => Err(e@),
    }
}

/// The envelope of one message.
pub fn parse_message(message: RawMessage) -> (r: Result<JsonRpcEnvelope, JsonRpcParseError>)
    ensures
        match message_envelope(message@) {
            Ok(e) => r is Ok && r->Ok_0@ == e,
            Err(e) => r is Err && r->Err_0@ == e,
        },
{
    match message.version {
        RawVersion::Missing => {
            return Err(JsonRpcParseError::MissingVersion);
        },
        RawVersion::Str(v) => {
            if !same_text(v.as_str(), "2.0") {
                return Err(JsonRpcParseError::WrongVersion(v));
            }
        },
    }
    let (id, id_kind) = match message.id {
        RawId::Missing => (None, JsonRpcIdKind::Missing),
        RawId::Null => (Some("null".to_owned()), JsonRpcIdKind::Null),
        RawId::Str(s) => (Some(s), JsonRpcIdKind::String),
        RawId::Integer(s) => (Some(s), JsonRpcIdKind::Integer),
        RawId::Number(s) => (Some(s), JsonRpcIdKind::Number),
        RawId::Invalid => {
            return Err(JsonRpcParseError::InvalidId);
        },
    };
    if message.has_result_or_error {
        return Ok(
            JsonRpcEnvelope {
                kind: JsonRpcKind::Response,
                method: None,
                id,
                id_kind,
                batch_len: None,
            },
        );
    }
    match message.method {
        RawMethod::Missing => Err(JsonRpcParseError::MissingMethod),
        RawMethod::NotString => Err(JsonRpcParseError::InvalidMethod),
        RawMethod::Str(method) => {
            let kind = if id.is_none() {
                JsonRpcKind::Notification
            } else {
                JsonRpcKind::Request
            };
            Ok(JsonRpcEnvelope { kind, method: Some(method), id, id_kind, batch_len: None })
        },
    }
}

fn handle_non_json_rpc(config: &JsonRpcConfig) -> (r: Result<
    Option<JsonRpcEnvelope>,
    JsonRpcParseError,
>)
    ensures
        envelope_result(r) == not_json_rpc(config.on_invalid),
{
    match config.on_invalid {
        OnInvalidBehavior::Continue => Ok(None),
        _ => Err(JsonRpcParseError::MissingVersion),
    }
}

/// The envelope of what a body holds.
pub fn classify(top: RawTop, config: &JsonRpcConfig) -> (r: Result<
    Option<JsonRpcEnvelope>,
    JsonRpcParseError,
>)
    ensures
        envelope_result(r) == envelope_of(top@, *config),
{
    match top {
        RawTop::Message(message) => match parse_message(message) {
            Ok(envelope) => Ok(Some(envelope)),
            Err(JsonRpcParseError::MissingVersion) => handle_non_json_rpc(config),
            Err(e) => Err(e),
        },
        RawTop::Batch { items, len } => {
            if len == 0 {
                return Err(JsonRpcParseError::EmptyBatch);
            }
            match config.batch_policy {
                BatchPolicy::Reject => {
                    return Err(JsonRpcParseError::UnsupportedBatch);
                },
                BatchPolicy::First => {},
            }
            if len > config.max_batch_size {
                return Err(JsonRpcParseError::BatchTooLarge(len, config.max_batch_size));
            }
            match first_valid_item(items) {
                Some(envelope) => Ok(
                    Some(
                        JsonRpcEnvelope {
                            kind: JsonRpcKind::Batch,
                            method: envelope.method,
                            id: envelope.id,
                            id_kind: envelope.id_kind,
                            batch_len: Some(len),
                        },
                    ),
                ),
                None => handle_non_json_rpc(config),
            }
        },
        RawTop::Other => handle_non_json_rpc(config),
    }
}

fn first_valid_item(items: Vec<Option<RawMessage>>) -> (r: Option<JsonRpcEnvelope>)
    ensures
        r matches Some(e) ==> first_valid(
            items@.map_values(|i: Option<RawMessage>| item_view(i)),
        ) == Some(e@),
        r is None ==> first_valid(
            items@.map_values(|i: Option<RawMessage>| item_view(i)),
        ) is None,
{
    let ghost views = items@.map_values(|i: Option<RawMessage>| item_view(i));
    let ghost all = items@;
    let mut items = items;
    // Taken from the back to the front, the last valid one found is the first.
    let mut found: Option<JsonRpcEnvelope> = None;
    proof {
        assert(views.skip(views.len() as int) =~= Seq::empty());
    }
    while items.len() > 0
        invariant
            views == all.map_values(|i: Option<RawMessage>| item_view(i)),
            items@.len() <= all.len(),
            items@ == all.take(items@.len() as int),
            found matches Some(e) ==> first_valid(views.skip(items@.len() as int)) == Some(e@),
            found is None ==> first_valid(views.skip(items@.len() as int)) is None,
        decreases items@.len(),
    {
        let ghost n = items@.len();
        let item = items.pop();
        proof {
            assert(views.skip(n - 1)[0] == item_view(all[n - 1]));
            assert(views.skip(n - 1).skip(1) =~= views.skip(n as int));
            assert(items@ =~= all.take(n - 1));
        }
        if let Some(Some(message)) = item {
            if let Ok(envelope) = parse_message(message) {
                found = Some(envelope);
            }
        }
    }
    proof {
        assert(views.skip(0) =~= views);
    }
    found
}

/// Parses the JSON-RPC envelope of a body. A body that is no JSON-RPC passes as
/// `None` where the configuration lets it.
pub fn parse_json_rpc_envelope(input: &[u8], config: &JsonRpcConfig) -> (r: Result<
    Option<JsonRpcEnvelope>,
    JsonRpcParseError,
>)
    ensures
        envelope_result(r) == match json_of(input@) {
            Err(why) => Err(ParseErrorView::InvalidJson(why)),
            Ok(value) => envelope_of(top_of(value, retention(*config)), *config),
        },
{
    match capture_top(input, config) {
        Ok(top) => classify(top, config),
        Err(why) => Err(JsonRpcParseError::InvalidJson(why)),
    }
}

/// Promotes JSON-RPC envelopes into request headers.
pub struct JsonRpcFilter {
    /// Filter settings.
    pub config: JsonRpcConfig,
    /// Bound on the body.
    pub max_body_bytes: usize,
}

impl JsonRpcFilter {
    /// The filter reads the request body.
    pub fn request_body_access(&self) -> (r: BodyAccess)
        ensures
            r == BodyAccess::ReadOnly,
    {
        BodyAccess::ReadOnly
    }

    /// The request body is buffered up to the bound.
    pub fn request_body_mode(&self) -> (r: BodyMode)
        ensures
            r == (BodyMode::StreamBuffer { max_bytes: Some(self.max_body_bytes) }),
    {
        BodyMode::StreamBuffer { max_bytes: Some(self.max_body_bytes) }
    }
}

/// However many items a batch has, at most as many as its policy reads are
/// kept, the first ones, and the count is that of all items.
pub proof fn law_batch_retention(
    items: Seq<JsonView>,
    config: JsonRpcConfig,
)
    ensures
        ({
            let top = top_of(JsonView::Array(items), retention(config));
            &&& top is Batch
            &&& top->len == items.len()
            &&& top->items.len() <= retention(config)
            &&& top->items.len() == if items.len() < retention(config) {
                items.len()
            } else {
                retention(config) as nat
            }
            &&& forall|i: int|
                0 <= i < top->items.len() ==> #[trigger] top->items[i] == batch_item(items[i])
            &&& config.batch_policy == BatchPolicy::Reject ==> top->items.len() == 0
        }),
{
}

/// Keeping fewer items never changes the outcome: a batch within the limit is
/// kept whole, and a larger one is refused by its count.
pub proof fn law_retention_is_enough(
    items: Seq<JsonView>,
    config: JsonRpcConfig,
    keep: usize,
)
    requires
        retention(config) <= keep,
    ensures
        envelope_of(top_of(JsonView::Array(items), retention(config)), config) == envelope_of(
            top_of(JsonView::Array(items), keep),
            config,
        ),
{
    if config.batch_policy == BatchPolicy::First && items.len() <= config.max_batch_size {
        assert(top_of(JsonView::Array(items), retention(config))->items =~= top_of(
            JsonView::Array(items),
            keep,
        )->items);
    }
}

/// A body that is no JSON-RPC at all passes exactly where the configuration
/// lets it; every other fault is an error whatever the configuration.
pub proof fn law_only_foreign_bodies_pass(top: TopView, config: JsonRpcConfig)
    ensures
        envelope_of(top, config) == Ok::<Option<EnvelopeView>, ParseErrorView>(None)
            ==> config.on_invalid == OnInvalidBehavior::Continue,
        top is Batch && top->len == 0 ==> envelope_of(top, config) == Err::<
            Option<EnvelopeView>,
            ParseErrorView,
        >(ParseErrorView::EmptyBatch),
{
}

proof fn lemma_first_valid(items: Seq<Option<MessageView>>)
    ensures
        first_valid(items) is None <==> forall|i: int|
            0 <= i < items.len() ==> (#[trigger] items[i] is None || message_envelope(
                items[i]->0,
            ) is Err),
        forall|i: int|
            #![trigger items[i]]
            0 <= i < items.len() && items[i] is Some && message_envelope(items[i]->0) is Ok && (
            forall|j: int|
                0 <= j < i ==> (#[trigger] items[j] is None || message_envelope(
                    items[j]->0,
                ) is Err)) ==> first_valid(items) == Some(message_envelope(items[i]->0)->Ok_0),
    decreases items.len(),
{
    if items.len() > 0 && (items[0] is None || message_envelope(items[0]->0) is Err) {
        let rest = items.skip(1);
        lemma_first_valid(rest);
        assert forall|i: int|
            #![trigger items[i]]
            0 <= i < items.len() && items[i] is Some && message_envelope(items[i]->0) is Ok && (
            forall|j: int|
                0 <= j < i ==> (#[trigger] items[j] is None || message_envelope(
                    items[j]->0,
                ) is Err)) implies first_valid(items) == Some(
            message_envelope(items[i]->0)->Ok_0,
        ) by {
            assert(rest[i - 1] == items[i]);
            assert forall|j: int| 0 <= j < i - 1 implies (#[trigger] rest[j] is None
                || message_envelope(rest[j]->0) is Err) by {
                assert(rest[j] == items[j + 1]);
            }
        }
        if first_valid(items) is None {
            assert forall|i: int| 0 <= i < items.len() implies (#[trigger] items[i] is None
                || message_envelope(items[i]->0) is Err) by {
                if i > 0 {
                    assert(rest[i - 1] == items[i]);
                }
            }
        } else {
            assert(exists|k: int|
                0 <= k < rest.len() && !(#[trigger] rest[k] is None || message_envelope(
                    rest[k]->0,
                ) is Err));
            let k = choose|k: int|
                0 <= k < rest.len() && !(#[trigger] rest[k] is None || message_envelope(
                    rest[k]->0,
                ) is Err);
            assert(items[k + 1] == rest[k]);
        }
    } else if items.len() > 0 {
        assert(!(items[0] is None || message_envelope(items[0]->0) is Err));
    }
}

/// The first item of an accepted batch that is a valid message, whatever its
/// kind, stands for the batch: its method, its id and the kind of its id are the
/// envelope's. Only where no item is valid does the batch count as no JSON-RPC.
pub proof fn law_first_valid_item_stands(
    items: Seq<Option<MessageView>>,
    len: nat,
    config: JsonRpcConfig,
)
    requires
        config.batch_policy == BatchPolicy::First,
        0 < len <= config.max_batch_size,
    ensures
        ({
            let out = envelope_of(TopView::Batch { items, len }, config);
            &&& forall|i: int|
                #![trigger items[i]]
                0 <= i < items.len() && items[i] is Some && message_envelope(items[i]->0) is Ok
                    && (forall|j: int|
                    0 <= j < i ==> (#[trigger] items[j] is None || message_envelope(
                        items[j]->0,
                    ) is Err)) ==> {
                    let e = message_envelope(items[i]->0)->Ok_0;
                    out == Ok::<Option<EnvelopeView>, ParseErrorView>(
                        Some(
                            EnvelopeView {
                                kind: JsonRpcKind::Batch,
                                method: e.method,
                                id: e.id,
                                id_kind: e.id_kind,
                                batch_len: Some(len as usize),
                            },
                        ),
                    )
                }
            &&& (forall|i: int|
                0 <= i < items.len() ==> (#[trigger] items[i] is None || message_envelope(
                    items[i]->0,
                ) is Err)) <==> !(out is Ok && out->Ok_0 is Some)
            &&& !(out is Ok && out->Ok_0 is Some) ==> if config.on_invalid
                == OnInvalidBehavior::Continue {
                out == Ok::<Option<EnvelopeView>, ParseErrorView>(None)
            } else {
                out == Err::<Option<EnvelopeView>, ParseErrorView>(ParseErrorView::MissingVersion)
            }
        }),
{
    lemma_first_valid(items);
}

/// Whether a value is an object that, sent on its own, is a valid message.
pub open spec fn valid_alone(item: JsonView, config: JsonRpcConfig) -> bool {
    &&& item is Object
    &&& envelope_of(top_of(item, retention(config)), config) is Ok
    &&& envelope_of(top_of(item, retention(config)), config)->Ok_0 is Some
}

/// What a batch is taken for agrees with what its items are taken for on their
/// own: the first object of an accepted batch that is a valid message alone
/// gives the batch the same method, id and kind of id.
pub proof fn law_batch_agrees_with_items(items: Seq<JsonView>, config: JsonRpcConfig, i: int)
    requires
        config.batch_policy == BatchPolicy::First,
        items.len() <= config.max_batch_size,
        0 <= i < items.len(),
        valid_alone(items[i], config),
        forall|j: int| 0 <= j < i ==> !valid_alone(#[trigger] items[j], config),
    ensures
        ({
            let alone = envelope_of(top_of(items[i], retention(config)), config)->Ok_0->0;
            let out = envelope_of(top_of(JsonView::Array(items), retention(config)), config);
            out == Ok::<Option<EnvelopeView>, ParseErrorView>(
                Some(
                    EnvelopeView {
                        kind: JsonRpcKind::Batch,
                        method: alone.method,
                        id: alone.id,
                        id_kind: alone.id_kind,
                        batch_len: Some(items.len() as usize),
                    },
                ),
            )
        }),
{
    let kept = top_of(JsonView::Array(items), retention(config))->items;
    law_first_valid_item_stands(kept, items.len(), config);
    assert(kept[i] == batch_item(items[i]));
    assert forall|j: int| 0 <= j < i implies (#[trigger] kept[j] is None || message_envelope(
        kept[j]->0,
    ) is Err) by {
        assert(kept[j] == batch_item(items[j]));
        assert(!valid_alone(items[j], config));
    }
}

/// A batch is refused by its count and the policy alone, before any item is
/// read: an empty one always, any other where batches are, and one over the
/// limit with both numbers.
pub proof fn law_batches_refused_by_count(items: Seq<JsonView>, config: JsonRpcConfig)
    ensures
        ({
            let out = envelope_of(top_of(JsonView::Array(items), retention(config)), config);
            &&& items.len() == 0 <==> out == Err::<Option<EnvelopeView>, ParseErrorView>(
                ParseErrorView::EmptyBatch,
            )
            &&& items.len() > 0 && config.batch_policy == BatchPolicy::Reject <==> out == Err::<
                Option<EnvelopeView>,
                ParseErrorView,
            >(ParseErrorView::UnsupportedBatch)
            &&& out is Err && out->Err_0 is BatchTooLarge <==> items.len() > 0
                && config.batch_policy == BatchPolicy::First && items.len()
                > config.max_batch_size
            &&& out is Err && out->Err_0 is BatchTooLarge ==> out->Err_0
                == ParseErrorView::BatchTooLarge(items.len(), config.max_batch_size)
        }),
{
}

/// How an object is read as a message: its version must be the text `2.0`, its
/// id may be absent, `null`, a text or a number and is kept as text, a result or
/// an error of any value makes it a response, and else its method must be a
/// text; it is a notification exactly where it has no id.
pub proof fn law_objects_read(
    members: Seq<(Seq<char>, JsonView)>,
    config: JsonRpcConfig,
    keep: usize,
)
    ensures
        ({
            let out = envelope_of(top_of(JsonView::Object(members), keep), config);
            let version = member(members, "jsonrpc"@);
            let id = member(members, "id"@);
            let method = member(members, "method"@);
            let answered = has_member(members, "result"@) || has_member(members, "error"@);
            let id_fits = id is None || id->0 is Null || id->0 is Str || id->0 is Number;
            let good = version == Some(JsonView::Str("2.0"@)) && id_fits;
            &&& !(version is Some && version->0 is Str) ==> out == if config.on_invalid
                == OnInvalidBehavior::Continue {
                Ok::<Option<EnvelopeView>, ParseErrorView>(None)
            } else {
                Err(ParseErrorView::MissingVersion)
            }
            &&& version is Some && version->0 is Str && version->0->Str_0 != "2.0"@ ==> out
                == Err::<Option<EnvelopeView>, ParseErrorView>(
                ParseErrorView::WrongVersion(version->0->Str_0),
            )
            &&& version == Some(JsonView::Str("2.0"@)) && !id_fits ==> out == Err::<
                Option<EnvelopeView>,
                ParseErrorView,
            >(ParseErrorView::InvalidId)
            &&& good && !answered && method is None ==> out == Err::<
                Option<EnvelopeView>,
                ParseErrorView,
            >(ParseErrorView::MissingMethod)
            &&& good && !answered && method is Some && !(method->0 is Str) ==> out == Err::<
                Option<EnvelopeView>,
                ParseErrorView,
            >(ParseErrorView::InvalidMethod)
            &&& (out is Ok && out->Ok_0 is Some) <==> good && (answered || (method is Some
                && method->0 is Str))
            &&& out is Ok && out->Ok_0 is Some ==> {
                let e = out->Ok_0->0;
                &&& e.batch_len is None
                &&& e.kind == JsonRpcKind::Response <==> answered
                &&& e.kind == JsonRpcKind::Notification <==> !answered && id is None
                &&& e.kind == JsonRpcKind::Request <==> !answered && id is Some
                &&& answered ==> e.method is None
                &&& !answered ==> Some(JsonView::Str(e.method->0)) == method && e.method is Some
                &&& match id {
                    None => e.id is None && e.id_kind == JsonRpcIdKind::Missing,
                    Some(JsonView::Str(s)) => e.id == Some(s) && e.id_kind
                        == JsonRpcIdKind::String,
                    Some(JsonView::Number { text, float }) => e.id == Some(text) && e.id_kind
                        == if float {
                        JsonRpcIdKind::Number
                    } else {
                        JsonRpcIdKind::Integer
                    },
                    _ => e.id == Some("null"@) && e.id_kind == JsonRpcIdKind::Null,
                }
            }
        }),
{
    law_member_found(members, "result"@);
    law_member_found(members, "error"@);
}

/// The words for each error, with what the error holds.
pub proof fn law_error_texts(why: Seq<char>, version: Seq<char>, actual: nat, max: usize)
    ensures
        parse_error_text(ParseErrorView::InvalidJson(why)) == "invalid JSON: "@ + why,
        parse_error_text(ParseErrorView::WrongVersion(version)) == "wrong jsonrpc version: "@
            + version,
        parse_error_text(ParseErrorView::BatchTooLarge(actual, max)) == "batch of "@
            + decimal_digits(actual) + " items exceeds maximum "@ + decimal_digits(max as nat),
        parse_error_text(ParseErrorView::MissingVersion) == "missing 'jsonrpc' field"@,
        parse_error_text(ParseErrorView::MissingMethod) == "missing 'method' field"@,
        parse_error_text(ParseErrorView::InvalidMethod) == "'method' must be a string"@,
        parse_error_text(ParseErrorView::InvalidId) == "'id' must be string, number, or null"@,
        parse_error_text(ParseErrorView::UnsupportedBatch) == "batch requests are not supported"@,
        parse_error_text(ParseErrorView::EmptyBatch) == "batch array is empty"@,
{
}

/// How much of a body is kept to classify it: an object's envelope fields, as many
/// items of a batch as a batch may have where batches are read and none where they
/// are not, and nothing of any other value, which is no JSON-RPC.
pub proof fn law_kept_for_classification(value: JsonView, config: JsonRpcConfig)
    ensures
        config.batch_policy == BatchPolicy::Reject ==> retention(config) == 0,
        config.batch_policy == BatchPolicy::First ==> retention(config) == config.max_batch_size,
        !(value is Object) && !(value is Array) ==> envelope_of(
            top_of(value, retention(config)),
            config,
        ) == if config.on_invalid == OnInvalidBehavior::Continue {
            Ok::<Option<EnvelopeView>, ParseErrorView>(None)
        } else {
            Err(ParseErrorView::MissingVersion)
        },
{
}

/// What a body that is a batch is taken for, as parsed: the first item that is a
/// valid message on its own, whatever its kind, gives the envelope its method, its
/// id and the kind of its id.
pub proof fn law_parsed_batch(
    input: &[u8],
    config: JsonRpcConfig,
    r: Result<Option<JsonRpcEnvelope>, JsonRpcParseError>,
    items: Seq<JsonView>,
    i: int,
)
    requires
        call_ensures(parse_json_rpc_envelope, (input, &config), r),
        json_of(input@) == Ok::<JsonView, Seq<char>>(JsonView::Array(items)),
        config.batch_policy == BatchPolicy::First,
        items.len() <= config.max_batch_size,
        0 <= i < items.len(),
        valid_alone(items[i], config),
        forall|j: int| 0 <= j < i ==> !valid_alone(#[trigger] items[j], config),
    ensures
        ({
            let alone = envelope_of(top_of(items[i], retention(config)), config)->Ok_0->0;
            &&& r is Ok
            &&& r->Ok_0 is Some
            &&& r->Ok_0->0.kind == JsonRpcKind::Batch
            &&& opt_text(r->Ok_0->0.method) == alone.method
            &&& opt_text(r->Ok_0->0.id) == alone.id
            &&& r->Ok_0->0.id_kind == alone.id_kind
            &&& r->Ok_0->0.batch_len == Some(items.len() as usize)
        }),
{
    law_batch_agrees_with_items(items, config, i);
}

/// What a body that is one object is taken for, as parsed: a message needs the
/// version `2.0`; a result or an error makes it a response, and else a method
/// makes it a call, which is a notification exactly where it has no id. What is no
/// JSON at all is an error whatever the configuration.
pub proof fn law_parsed_message(
    input: &[u8],
    config: JsonRpcConfig,
    r: Result<Option<JsonRpcEnvelope>, JsonRpcParseError>,
    members: Seq<(Seq<char>, JsonView)>,
)
    requires
        call_ensures(parse_json_rpc_envelope, (input, &config), r),
    ensures
        json_of(input@) matches Err(why) ==> r is Err && r->Err_0 is InvalidJson,
        json_of(input@) == Ok::<JsonView, Seq<char>>(JsonView::Object(members)) && r is Ok
            && r->Ok_0 is Some ==> {
            let e = r->Ok_0->0;
            let answered = has_member(members, "result"@) || has_member(members, "error"@);
            &&& member(members, "jsonrpc"@) == Some(JsonView::Str("2.0"@))
            &&& e.kind == JsonRpcKind::Response <==> answered
            &&& e.kind == JsonRpcKind::Notification <==> !answered && !has_member(members, "id"@)
            &&& e.kind != JsonRpcKind::Batch
            &&& e.method is Some <==> !answered
            &&& e.method is Some ==> member(members, "method"@) == Some(
                JsonView::Str(e.method->0@),
            )
            &&& e.batch_len is None
        },
{
    law_objects_read(members, config, retention(config));
    law_member_found(members, "id"@);
}

} // verus!
