//! Admission: the order in which identity, authorization and body phases run,
//! and what each of them leaves behind.
//!
//! A hook asks for outside work through a [`PolicyCommand`]; the result of that
//! work is handed to the method that the command names.

use vstd::prelude::*;

use crate::actions::bare_rejection;
use crate::actions::Rejection;
use crate::actions::RejectionView;
use crate::body::BodyAccess;
use crate::body::BodyMode;
use crate::error::FilterError;
use crate::headers::first_value;
use crate::headers::opt_text;
use crate::headers::opt_value_text;
use crate::headers::readable_text;
use crate::headers::value_text;
use crate::headers::HeaderMap;
use crate::json::json_of;
use crate::json::opt_shape;
use crate::json::parse_json;
use crate::json::shape;
use crate::json::JsonShape;
use crate::json::JsonView;
use crate::policy::delegation::attach_delegated_tokens;
use crate::policy::delegation::attached;
use crate::policy::delegation::ordered;
use crate::policy::delegation::set_view;
use crate::policy::delegation::stripped;
use crate::policy::delegation::token_header;
use crate::policy::delegation::token_views;
use crate::policy::delegation::HeaderPlan;
use crate::policy::delegation::RawCredentials;
use crate::policy::delegation::TokenView;
use crate::sorted_map::ascending;
use crate::sorted_map::find_pair;
use crate::sorted_map::law_put_find;
use crate::sorted_map::lemma_find_text;
use crate::sorted_map::lemma_put_text;
use crate::sorted_map::put_pair;
use crate::sorted_map::text_pairs;
use crate::sorted_map::SortedMap;
use crate::text::bytes_of;
use crate::text::concat2;
use crate::text::concat3;
use crate::text::concat4;
use crate::text::concat5;
use crate::text::decimal;
use crate::text::decimal_digits;
use crate::text::join;
use crate::text::joined;
use crate::text::lower;
use crate::text::texts;
use crate::text::to_lower;

verus! {

// Construction.

/// Whether the policy may rewrite bodies.
#[derive(Clone, Copy, Debug, PartialEq, Eq, Structural)]
pub enum BodyAccessMode {
    /// Bodies are only read.
    ReadOnly,
    /// Bodies are read and rewritten.
    ReadWrite,
}

/// Filter settings.
pub struct PolicyFilterConfig {
    /// Path of the policy document.
    pub config_path: String,
    /// Whether bodies may be rewritten.
    pub body_access: BodyAccessMode,
    /// Whether an entity-routed policy refuses requests without classification.
    pub require_protocol_metadata: bool,
    /// Bound on engine initialization, in seconds.
    pub init_timeout_secs: u64,
    /// Bound on a buffered body.
    pub max_buffer_bytes: usize,
    /// Whether the engine may reach private addresses.
    pub allow_private_idp: bool,
}

/// What a loaded policy document wires up.
pub struct EngineFacts {
    /// A hook for HTTP requests without an entity.
    pub http_request_hook: bool,
    /// A hook before tool calls.
    pub tool_hook: bool,
    /// A hook before prompt requests.
    pub prompt_hook: bool,
    /// A hook before resource reads.
    pub resource_hook: bool,
    /// A hook for HTTP responses.
    pub http_response_hook: bool,
    /// Whether response assertions govern any header.
    pub asserts_responses: bool,
    /// Levels whose response assertions cannot be applied.
    pub unreachable_levels: Vec<String>,
}

/// How loading the policy document and starting the engine ended.
pub enum Startup {
    /// The document could not be read.
    ReadFailed(String),
    /// The document was refused.
    LoadFailed(String),
    /// No runtime could be built to start the engine in.
    RuntimeFailed(String),
    /// The engine reported a failure.
    InitFailed(String),
    /// The engine did not start in time.
    InitTimedOut,
    /// The engine panicked, with this message if it had one.
    InitPanicked(Option<String>),
    /// The document could not be read a second time.
    ReparseFailed(String),
    /// The engine runs.
    Loaded(EngineFacts),
}

/// Why a buffer bound is refused, if it is.
pub open spec fn buffer_error(max_buffer_bytes: usize, ceiling: usize) -> Option<Seq<char>> {
    if max_buffer_bytes == 0 {
        Some("policy: max_buffer_bytes must be > 0"@)
    } else if max_buffer_bytes > ceiling {
        Some(
            "policy: max_buffer_bytes ("@ + decimal_digits(max_buffer_bytes as nat)
                + ") exceeds the maximum ("@ + decimal_digits(ceiling as nat) + ")"@,
        )
    } else {
        None
    }
}

/// Why starting up failed, if it did.
pub open spec fn startup_error(cfg: PolicyFilterConfig, startup: Startup) -> Option<Seq<char>> {
    match startup {
        Startup::ReadFailed(e) => Some(
            "policy: failed to read config_path "@ + cfg.config_path@ + ": "@ + e@,
        ),
        Startup::LoadFailed(e) => Some(
            "policy: load_config_yaml failed for "@ + cfg.config_path@ + ": "@ + e@,
        ),
        Startup::RuntimeFailed(e) => Some("policy: failed to build init runtime: "@ + e@),
        Startup::InitFailed(e) => Some("policy: PolicyEngine::initialize failed: "@ + e@),
        Startup::InitTimedOut => Some(
            "policy: PolicyEngine::initialize timed out after "@ + decimal_digits(
                cfg.init_timeout_secs as nat,
            )
                + "s (init_timeout_secs); likely a JWKS / OAuth endpoint is unreachable"@,
        ),
        Startup::InitPanicked(message) => Some(
            "policy: PolicyEngine::initialize panicked in init thread: "@ + match message {
                Some(m) => m@,
                None => "<no panic message>"@,
            },
        ),
        Startup::ReparseFailed(e) => Some(
            "policy: the engine accepted "@ + cfg.config_path@
                + " but praxis could not re-read it for the assertions contract: "@ + e@,
        ),
        Startup::Loaded(facts) => if facts.unreachable_levels@.len() > 0 {
            Some(
                "policy: "@ + joined(texts(facts.unreachable_levels@), ", "@)
                    + " declares `assertions.response:` that praxis cannot apply. A response contract is applied at the response header phase, which carries the entity-less HTTP coordinates, so only `global:`, `global.defaults.http:` and an `http:` route can reach one. Move the block to one of those, or drop it."@,
            )
        } else {
            None
        },
    }
}

/// The access that a setting grants to bodies, in both directions.
pub open spec fn granted_access(mode: BodyAccessMode) -> BodyAccess {
    match mode {
        BodyAccessMode::ReadOnly => BodyAccess::ReadOnly,
        BodyAccessMode::ReadWrite => BodyAccess::ReadWrite,
    }
}

/// How bodies arrive, in both directions: one that may be rewritten is buffered
/// whole, so that none of it is on its way before the policy has seen it.
pub open spec fn delivery(cfg: PolicyFilterConfig) -> BodyMode {
    match cfg.body_access {
        BodyAccessMode::ReadOnly => BodyMode::Stream,
        BodyAccessMode::ReadWrite => BodyMode::StreamBuffer {
            max_bytes: Some(cfg.max_buffer_bytes),
        },
    }
}

/// Admits requests by an embedded policy engine.
pub struct PolicyFilter {
    /// Filter settings.
    pub cfg: PolicyFilterConfig,
    /// Whether the policy governs HTTP requests without an entity.
    pub http_global: bool,
    /// Whether the policy declares routes per entity.
    pub entity_routes: bool,
    /// Whether the policy has work to do on responses.
    pub response_hook: bool,
}

/// Checks the buffer bound.
pub fn check_buffer(max_buffer_bytes: usize, ceiling: usize) -> (r: Result<(), FilterError>)
    ensures
        match buffer_error(max_buffer_bytes, ceiling) {
            None => r is Ok,
            Some(m) => r is Err && r->Err_0@ == m,
        },
{
    if max_buffer_bytes == 0 {
        return Err(FilterError::from_text("policy: max_buffer_bytes must be > 0"));
    }
    if max_buffer_bytes > ceiling {
        return Err(
            FilterError::new(
                concat5(
                    "policy: max_buffer_bytes (",
                    decimal(max_buffer_bytes as u64).as_str(),
                    ") exceeds the maximum (",
                    decimal(ceiling as u64).as_str(),
                    ")",
                ),
            ),
        );
    }
    Ok(())
}

impl PolicyFilter {
    /// Builds the filter once the engine was started. `ceiling` is the largest
    /// body bound the proxy allows.
    pub fn new(cfg: PolicyFilterConfig, ceiling: usize, startup: Startup) -> (r: Result<
        PolicyFilter,
        FilterError,
    >)
        ensures
            match (buffer_error(cfg.max_buffer_bytes, ceiling), startup_error(cfg, startup)) {
                (Some(m), _) => r is Err && r->Err_0@ == m,
                (None, Some(m)) => r is Err && r->Err_0@ == m,
                (None, None) => {
                    let facts = startup->Loaded_0;
                    &&& r is Ok
                    &&& r->Ok_0.cfg == cfg
                    &&& r->Ok_0.http_global == facts.http_request_hook
                    &&& r->Ok_0.entity_routes == (facts.tool_hook || facts.prompt_hook
                        || facts.resource_hook)
                    &&& r->Ok_0.response_hook == (facts.http_response_hook
                        || facts.asserts_responses)
                },
            },
    {
        match check_buffer(cfg.max_buffer_bytes, ceiling) {
            Err(e) => {
                return Err(e);
            },
            Ok(()) => {},
        }
        match startup {
            Startup::ReadFailed(e) => Err(
                FilterError::new(
                    concat4(
                        "policy: failed to read config_path ",
                        cfg.config_path.as_str(),
                        ": ",
                        e.as_str(),
                    ),
                ),
            ),
            Startup::LoadFailed(e) => Err(
                FilterError::new(
                    concat4(
                        "policy: load_config_yaml failed for ",
                        cfg.config_path.as_str(),
                        ": ",
                        e.as_str(),
                    ),
                ),
            ),
            Startup::RuntimeFailed(e) => Err(
                FilterError::new(concat2("policy: failed to build init runtime: ", e.as_str())),
            ),
            Startup::InitFailed(e) => Err(
                FilterError::new(concat2("policy: PolicyEngine::initialize failed: ", e.as_str())),
            ),
            Startup::InitTimedOut => Err(
                FilterError::new(
                    concat3(
                        "policy: PolicyEngine::initialize timed out after ",
                        decimal(cfg.init_timeout_secs).as_str(),
                        "s (init_timeout_secs); likely a JWKS / OAuth endpoint is unreachable",
                    ),
                ),
            ),
            Startup::InitPanicked(message) => {
                let text = match message {
                    Some(m) => m,
                    None => "<no panic message>".to_owned(),
                };
                Err(
                    FilterError::new(
                        concat2(
                            "policy: PolicyEngine::initialize panicked in init thread: ",
                            text.as_str(),
                        ),
                    ),
                )
            },
            Startup::ReparseFailed(e) => Err(
                FilterError::new(
                    concat4(
                        "policy: the engine accepted ",
                        cfg.config_path.as_str(),
                        " but praxis could not re-read it for the assertions contract: ",
                        e.as_str(),
                    ),
                ),
            ),
            Startup::Loaded(facts) => {
                if facts.unreachable_levels.len() > 0 {
                    return Err(
                        FilterError::new(
                            concat3(
                                "policy: ",
                                join(&facts.unreachable_levels, ", ").as_str(),
                                " declares `assertions.response:` that praxis cannot apply. A response contract is applied at the response header phase, which carries the entity-less HTTP coordinates, so only `global:`, `global.defaults.http:` and an `http:` route can reach one. Move the block to one of those, or drop it.",
                            ),
                        ),
                    );
                }
                Ok(
                    PolicyFilter {
                        cfg,
                        http_global: facts.http_request_hook,
                        entity_routes: facts.tool_hook || facts.prompt_hook
                            || facts.resource_hook,
                        response_hook: facts.http_response_hook || facts.asserts_responses,
                    },
                )
            },
        }
    }

    /// The filter's name.
    pub fn name(&self) -> (r: &'static str)
        ensures
            r@ == "policy"@,
    {
        "policy"
    }

    /// The files whose change calls for a reload: the policy document.
    pub fn referenced_files(&self) -> (r: Vec<String>)
        ensures
            texts(r@) == seq![self.cfg.config_path@],
    {
        let mut files: Vec<String> = Vec::new();
        files.push(self.cfg.config_path.clone());
        proof {
            assert(texts(files@) =~= seq![self.cfg.config_path@]);
        }
        files
    }

    /// Whether requests without classification are admitted without being held
    /// against the policy for HTTP requests: a mistake worth a warning.
    pub fn skips_global_policy(&self) -> (r: bool)
        ensures
            r == (self.http_global && self.entity_routes && !self.cfg.require_protocol_metadata),
    {
        self.http_global && self.entity_routes && !self.cfg.require_protocol_metadata
    }

    /// Access to request bodies.
    pub fn request_body_access(&self) -> (r: BodyAccess)
        ensures
            r == granted_access(self.cfg.body_access),
    {
        match self.cfg.body_access {
            BodyAccessMode::ReadOnly => BodyAccess::ReadOnly,
            BodyAccessMode::ReadWrite => BodyAccess::ReadWrite,
        }
    }

    /// How request bodies arrive.
    pub fn request_body_mode(&self) -> (r: BodyMode)
        ensures
            r == delivery(self.cfg),
    {
        match self.cfg.body_access {
            BodyAccessMode::ReadOnly => BodyMode::Stream,
            BodyAccessMode::ReadWrite => BodyMode::StreamBuffer {
                max_bytes: Some(self.cfg.max_buffer_bytes),
            },
        }
    }

    /// Access to response bodies.
    pub fn response_body_access(&self) -> (r: BodyAccess)
        ensures
            r == granted_access(self.cfg.body_access),
    {
        self.request_body_access()
    }

    /// How response bodies arrive.
    pub fn response_body_mode(&self) -> (r: BodyMode)
        ensures
            r == delivery(self.cfg),
    {
        self.request_body_mode()
    }
}

// Request attributes.

/// The readable request headers by lower-case name; of several lines with one
/// name the last readable one counts.
pub open spec fn header_snapshot(lines: Seq<(Seq<char>, Seq<u8>)>) -> Seq<(Seq<char>, Seq<char>)>
    decreases lines.len(),
{
    if lines.len() == 0 {
        Seq::empty()
    } else {
        let before = header_snapshot(lines.drop_last());
        match value_text(lines.last().1) {
            Some(text) => put_pair(before, lower(lines.last().0), text),
            None => before,
        }
    }
}

/// Takes the readable request headers, by lower-case name.
pub fn snapshot_headers(headers: &HeaderMap) -> (r: SortedMap<String>)
    ensures
        text_pairs(r@) == header_snapshot(headers@),
        ascending(r@),
{
    let mut out: SortedMap<String> = SortedMap::new();
    let mut i: usize = 0;
    proof {
        assert(headers@.take(0) =~= Seq::empty());
        assert(text_pairs(out@) =~= Seq::empty());
    }
    while i < headers.lines.len()
        invariant
            i <= headers.lines@.len(),
            text_pairs(out@) == header_snapshot(headers@.take(i as int)),
            ascending(out@),
        decreases headers.lines@.len() - i,
    {
        let line = &headers.lines[i];
        proof {
            assert(headers@.take(i + 1).drop_last() =~= headers@.take(i as int));
            assert(headers@.take(i + 1).last() == crate::headers::line_view(*line));
        }
        if let Some(text) = readable_text(&line.value) {
            proof {
                lemma_put_text(out@, lower(line.name@), text);
            }
            out.put(to_lower(line.name.as_str()).as_str(), text);
        }
        i += 1;
    }
    proof {
        assert(headers@.take(headers.lines@.len() as int) =~= headers@);
    }
    out
}

/// The session that a request with these headers belongs to: a non-empty
/// `x-session-id`.
pub open spec fn session_of(headers: Seq<(Seq<char>, Seq<char>)>) -> Option<Seq<char>> {
    match find_pair(headers, "x-session-id"@) {
        Some(id) => if id.len() > 0 {
            Some(id)
        } else {
            None
        },
        None => None,
    }
}

/// The session that a request belongs to.
pub fn session_id(headers: &SortedMap<String>) -> (r: Option<String>)
    ensures
        opt_text(r) == session_of(text_pairs(headers@)),
{
    proof {
        lemma_find_text(headers@, "x-session-id"@);
    }
    match headers.get("x-session-id") {
        Some(id) => {
            if id.as_str().is_empty() {
                None
            } else {
                Some(id.clone())
            }
        },
        None => None,
    }
}

/// The host a request is for: that of the request target's authority, else a
/// readable `Host` header.
pub open spec fn host_of(
    authority_host: Option<Seq<char>>,
    headers: Seq<(Seq<char>, Seq<u8>)>,
) -> Option<Seq<char>> {
    match authority_host {
        Some(h) => Some(h),
        None => opt_value_text(first_value(headers, "host"@)),
    }
}

/// The host a request is for.
pub fn request_host(authority_host: Option<String>, headers: &HeaderMap) -> (r: Option<String>)
    ensures
        opt_text(r) == host_of(opt_text(authority_host), headers@),
{
    match authority_host {
        Some(host) => Some(host),
        None => headers.first_text("host"),
    }
}

/// The request line, as far as policies read it.
pub struct RequestLine {
    /// Method.
    pub method: String,
    /// Path of the request target.
    pub path: String,
    /// Host of the request target's authority.
    pub authority_host: Option<String>,
    /// Scheme of the request target.
    pub scheme: Option<String>,
}

/// What policies read of a request.
pub struct RequestAttributes {
    /// Method.
    pub method: String,
    /// Path.
    pub path: String,
    /// Host.
    pub host: Option<String>,
    /// Scheme.
    pub scheme: Option<String>,
    /// Session that the request belongs to.
    pub session_id: Option<String>,
    /// Readable headers by lower-case name.
    pub headers: SortedMap<String>,
}

/// The attributes of a request with this line and these headers.
pub fn request_attributes(line: RequestLine, headers: &HeaderMap) -> (r: RequestAttributes)
    ensures
        r.method == line.method,
        r.path == line.path,
        r.scheme == line.scheme,
        text_pairs(r.headers@) == header_snapshot(headers@),
        opt_text(r.session_id) == session_of(header_snapshot(headers@)),
        opt_text(r.host) == host_of(opt_text(line.authority_host), headers@),
{
    let snapshot = snapshot_headers(headers);
    let session = session_id(&snapshot);
    RequestAttributes {
        method: line.method,
        path: line.path,
        host: request_host(line.authority_host, headers),
        scheme: line.scheme,
        session_id: session,
        headers: snapshot,
    }
}

/// What the response policy reads of an exchange.
pub struct ResponseAttributes {
    /// What policies read of the request. Without an admitted identity there is
    /// no session.
    pub request: RequestAttributes,
    /// Readable response headers by lower-case name.
    pub response_headers: SortedMap<String>,
    /// Status of the response.
    pub status: u16,
    /// Whether the identity admitted with the request goes along. Otherwise the
    /// policy sees no identity.
    pub with_identity: bool,
}

/// The attributes of an exchange. `resolved` says whether the request phase kept
/// an identity; it is used again and not resolved anew, so that a token that
/// expired since then denies nothing.
pub fn response_attributes(
    line: RequestLine,
    headers: &HeaderMap,
    response_headers: &HeaderMap,
    status: u16,
    resolved: bool,
) -> (r: ResponseAttributes)
    ensures
        r.request.method == line.method,
        r.request.path == line.path,
        r.request.scheme == line.scheme,
        text_pairs(r.request.headers@) == header_snapshot(headers@),
        opt_text(r.request.host) == host_of(opt_text(line.authority_host), headers@),
        opt_text(r.request.session_id) == if resolved {
            session_of(header_snapshot(headers@))
        } else {
            None
        },
        text_pairs(r.response_headers@) == header_snapshot(response_headers@),
        r.status == status,
        r.with_identity == resolved,
{
    let request = request_attributes(line, headers);
    let session = if resolved {
        request.session_id
    } else {
        None
    };
    ResponseAttributes {
        request: RequestAttributes {
            method: request.method,
            path: request.path,
            host: request.host,
            scheme: request.scheme,
            session_id: session,
            headers: request.headers,
        },
        response_headers: snapshot_headers(response_headers),
        status,
        with_identity: resolved,
    }
}

/// A claim as text: a string as it is, any other value as compact JSON.
pub open spec fn flattened(claim: Seq<char>, value: Option<JsonView>) -> Seq<char> {
    match value {
        Some(JsonView::Str(s)) => s,
        _ => claim,
    }
}

/// What a claim, given as compact JSON, stands for.
pub open spec fn claim_value(claim: Seq<char>) -> Option<JsonView> {
    match json_of(vstd::utf8::encode_utf8(claim)) {
        Ok(value) => Some(value),
        Err(_) => None,
    }
}

/// A claim, given as compact JSON, as text.
pub fn flatten_claim(claim: &str) -> (r: String)
    ensures
        r@ == flattened(claim@, claim_value(claim@)),
{
    match parse_json(claim.as_bytes()) {
        Ok(value) => flatten_value(claim, Some(shape(&value))),
        Err(_) => flatten_value(claim, None),
    }
}

/// A claim as text, given what its JSON stands for.
pub fn flatten_value(claim: &str, value: Option<JsonShape>) -> (r: String)
    ensures
        r@ == flattened(claim@, opt_shape(value)),
{
    match value {
        Some(JsonShape::Str(s)) => s.clone(),
        _ => claim.to_owned(),
    }
}

// Admission state.

/// A validated user, without raw credentials.
pub struct AuthenticatedIdentity {
    /// Subject.
    pub id: String,
    /// Roles.
    pub roles: Vec<String>,
    /// Teams.
    pub teams: Vec<String>,
    /// Claims, rendered as texts.
    pub claims: Vec<(String, String)>,
}

/// A subject as identity plugins resolved it.
pub struct Subject {
    /// Subject, where there is one.
    pub id: Option<String>,
    /// Roles.
    pub roles: Vec<String>,
    /// Teams.
    pub teams: Vec<String>,
    /// Claims, as compact JSON.
    pub claims: Vec<(String, String)>,
}

/// A claim's name and the text it is rendered as.
pub open spec fn rendered_claim(claim: (String, String)) -> (Seq<char>, Seq<char>) {
    (claim.0@, flattened(claim.1@, claim_value(claim.1@)))
}

/// A rendered claim's name and text.
pub open spec fn claim_view(claim: (String, String)) -> (Seq<char>, Seq<char>) {
    (claim.0@, claim.1@)
}

/// The validated user that a resolved identity stands for: there is one where
/// there is a subject with an id and the proxy's core `accepted` it as a user.
/// Claims are rendered one by one, in order.
pub fn authenticated_identity(subject: Option<Subject>, accepted: bool) -> (r: Option<
    AuthenticatedIdentity,
>)
    ensures
        r is Some <==> subject is Some && subject->0.id is Some && accepted,
        r is Some ==> {
            &&& r->0.id == subject->0.id->0
            &&& r->0.roles == subject->0.roles
            &&& r->0.teams == subject->0.teams
            &&& r->0.claims@.map_values(|c: (String, String)| claim_view(c))
                == subject->0.claims@.map_values(|c: (String, String)| rendered_claim(c))
        },
{
    let subject = match subject {
        Some(subject) => subject,
        None => return None,
    };
    let id = match subject.id {
        Some(id) => id,
        None => return None,
    };
    if !accepted {
        return None;
    }
    let mut claims: Vec<(String, String)> = Vec::new();
    let mut i: usize = 0;
    while i < subject.claims.len()
        invariant
            i <= subject.claims@.len(),
            claims@.len() == i,
            forall|k: int|
                0 <= k < i ==> claim_view(#[trigger] claims@[k]) == rendered_claim(
                    subject.claims@[k],
                ),
        decreases subject.claims@.len() - i,
    {
        let claim = &subject.claims[i];
        claims.push((claim.0.clone(), flatten_claim(claim.1.as_str())));
        i += 1;
    }
    proof {
        assert(claims@.map_values(|c: (String, String)| claim_view(c)) =~= subject.claims@.map_values(
            |c: (String, String)| rendered_claim(c),
        ));
    }
    Some(AuthenticatedIdentity { id, roles: subject.roles, teams: subject.teams, claims })
}

/// The result of an early identity gate.
pub enum GatedIdentity {
    /// Identity has not been resolved.
    NotRun,
    /// Validation succeeded without a user.
    NoSubject,
    /// Validation succeeded for this user.
    Subject(AuthenticatedIdentity),
}

/// Admission state of one filter instance for one request.
pub struct AdmissionState {
    /// Whether this instance admitted the request.
    pub complete: bool,
    /// What the early gate found, until classification needs it.
    pub gated: GatedIdentity,
}

/// What the policy filter reads and leaves on a request.
pub struct PolicyContext {
    /// Whether the filter runs in a pipeline, which keeps its state.
    pub in_pipeline: bool,
    /// This instance's admission state.
    pub state: Option<AdmissionState>,
    /// The user published to downstream filters.
    pub published: Option<AuthenticatedIdentity>,
    /// Whether a resolved identity is kept for the response phase.
    pub resolved: bool,
    /// Changes to the upstream request's headers.
    pub plan: HeaderPlan,
}

/// What a hook answers, or the outside work it needs first.
pub enum PolicyCommand {
    /// Go on.
    Continue,
    /// Go on, and skip this filter for the rest of the body.
    BodyDone,
    /// Answer the client with this rejection.
    Reject(Rejection),
    /// Resolve the global identity, then call `gate_finished` (or
    /// `gated_admission_finished` in the body phase of an entity-routed policy).
    Gate,
    /// Resolve the identity for HTTP without an entity, then call
    /// `http_identity_resolved`.
    ResolveHttp,
    /// Evaluate the policy for HTTP requests, then call `http_evaluated`.
    EvaluateHttp,
    /// Resolve the identity for the request's entity, then call
    /// `entity_identity_resolved`.
    ResolveEntity,
    /// Evaluate the entity's policy, then call `entity_evaluated`.
    EvaluateEntity,
}

/// How a request was classified, once its body is complete.
pub struct Classification {
    /// Protocol method.
    pub method: Option<String>,
    /// Entity type that the method is bound to.
    pub entity_type: Option<String>,
    /// Entity name.
    pub name: Option<String>,
}

/// Whether this instance admitted the request.
pub open spec fn complete(ctx: PolicyContext) -> bool {
    ctx.state matches Some(s) && s.complete
}

/// What the early gate found.
pub open spec fn gated(ctx: PolicyContext) -> GatedIdentity {
    match ctx.state {
        Some(s) => s.gated,
        None => GatedIdentity::NotRun,
    }
}

/// The context after admission succeeded. Outside a pipeline no state is kept.
pub open spec fn marked(ctx: PolicyContext) -> PolicyContext {
    if ctx.in_pipeline {
        PolicyContext {
            state: Some(AdmissionState { complete: true, gated: gated(ctx) }),
            ..ctx
        }
    } else {
        ctx
    }
}

/// The gated outcome that stands for a validated identity.
pub open spec fn as_gated(authenticated: Option<AuthenticatedIdentity>) -> GatedIdentity {
    match authenticated {
        Some(a) => GatedIdentity::Subject(a),
        None => GatedIdentity::NoSubject,
    }
}

/// The context after a gate result is set aside.
pub open spec fn gate_stored(
    ctx: PolicyContext,
    authenticated: Option<AuthenticatedIdentity>,
) -> PolicyContext {
    if ctx.in_pipeline {
        PolicyContext {
            state: Some(
                AdmissionState { complete: complete(ctx), gated: as_gated(authenticated) },
            ),
            ..ctx
        }
    } else {
        ctx
    }
}

/// The context after the gated outcome is taken.
pub open spec fn gate_taken(ctx: PolicyContext) -> PolicyContext {
    match ctx.state {
        Some(s) => PolicyContext {
            state: Some(AdmissionState { gated: GatedIdentity::NotRun, ..s }),
            ..ctx
        },
        None => ctx,
    }
}

/// Whether this instance admitted the request.
pub fn admission_complete(ctx: &PolicyContext) -> (r: bool)
    ensures
        r == complete(*ctx),
{
    match &ctx.state {
        Some(state) => state.complete,
        None => false,
    }
}

/// Records that admission succeeded.
pub fn mark_admission_complete(ctx: &mut PolicyContext)
    ensures
        *final(ctx) == marked(*old(ctx)),
{
    if ctx.in_pipeline {
        match ctx.state.take() {
            Some(state) => {
                ctx.state = Some(AdmissionState { complete: true, gated: state.gated });
            },
            None => {
                ctx.state = Some(AdmissionState { complete: true, gated: GatedIdentity::NotRun });
            },
        }
    }
}

/// Sets a gate result aside until classification shows that no entity route
/// applies.
pub fn store_gated_identity(ctx: &mut PolicyContext, authenticated: Option<AuthenticatedIdentity>)
    ensures
        *final(ctx) == gate_stored(*old(ctx), authenticated),
{
    if ctx.in_pipeline {
        let was_complete = admission_complete(ctx);
        let found = match authenticated {
            Some(a) => GatedIdentity::Subject(a),
            None => GatedIdentity::NoSubject,
        };
        ctx.state = Some(AdmissionState { complete: was_complete, gated: found });
    }
}

/// Takes the gated outcome; the next call finds none.
pub fn take_gated_identity(ctx: &mut PolicyContext) -> (r: GatedIdentity)
    ensures
        r == gated(*old(ctx)),
        *final(ctx) == gate_taken(*old(ctx)),
{
    match ctx.state.take() {
        Some(state) => {
            ctx.state = Some(
                AdmissionState { complete: state.complete, gated: GatedIdentity::NotRun },
            );
            state.gated
        },
        None => GatedIdentity::NotRun,
    }
}

/// Publishes a validated user, or clears one that an earlier attempt left.
pub fn publish_identity_projection(
    ctx: &mut PolicyContext,
    authenticated: Option<AuthenticatedIdentity>,
)
    ensures
        *final(ctx) == (PolicyContext { published: authenticated, ..*old(ctx) }),
{
    ctx.published = authenticated;
}

/// The rejection for an identity result without a payload.
pub fn missing_identity_payload() -> (r: Rejection)
    ensures
        r@ == (RejectionView {
            body: Some(
                vstd::utf8::encode_utf8("policy: identity result missing modified payload"@),
            ),
            ..bare_rejection(500)
        }),
{
    Rejection::status(500).with_body(
        bytes_of("policy: identity result missing modified payload"),
    )
}

/// The body of the rejection for requests that were not classified.
pub open spec fn missing_metadata_text() -> Seq<char> {
    "policy: no mcp.method in filter metadata. A protocol classifier filter (from the praxis-ai package) must be present in the chain and ordered before `policy`. Set the filter's `require_protocol_metadata: false` to disable this guard for non-classified traffic."@
}

/// What the rejection for requests that were not classified says.
pub open spec fn missing_metadata_view(violation_header: Seq<char>) -> RejectionView {
    RejectionView {
        headers: seq![
            ("Content-Type"@, "text/plain"@),
            (violation_header, "config.missing_protocol_metadata"@),
        ],
        body: Some(vstd::utf8::encode_utf8(missing_metadata_text())),
        ..bare_rejection(500)
    }
}

/// The rejection for requests that were not classified though the policy needs
/// it. The mistake is the server's, so the status is 500.
pub fn missing_protocol_metadata_rejection(violation_header: &str) -> (r: Rejection)
    ensures
        r@ == missing_metadata_view(violation_header@),
{
    let body = bytes_of(
        "policy: no mcp.method in filter metadata. A protocol classifier filter (from the praxis-ai package) must be present in the chain and ordered before `policy`. Set the filter's `require_protocol_metadata: false` to disable this guard for non-classified traffic.",
    );
    let r = Rejection::status(500).with_header("Content-Type", "text/plain").with_header(
        violation_header,
        "config.missing_protocol_metadata",
    ).with_body(body);
    proof {
        assert(r@.headers =~= missing_metadata_view(violation_header@).headers);
    }
    r
}

/// What the evaluation of a policy allows or denies. The credentials stay with
/// the caller, who wipes the tokens in them.
pub enum Verdict<'a> {
    /// The request is denied with this rejection.
    Deny(Rejection),
    /// The request is allowed, with the credentials that were produced.
    Allow(Option<&'a RawCredentials>),
}

/// Whether `after` is `before` with the credentials' tokens attached.
pub open spec fn tokens_attached(
    before: HeaderPlan,
    after: HeaderPlan,
    credentials: Option<&RawCredentials>,
) -> bool {
    match credentials {
        None => after == before,
        Some(raw) => {
            let chosen = attached(ordered(token_views(raw.delegated@)));
            &&& set_view(after.set@) == set_view(before.set@) + chosen.map_values(
                |t: TokenView| token_header(t),
            )
            &&& texts(after.remove@) == texts(before.remove@) + if chosen.len() > 0 {
                stripped(texts(raw.inbound@), chosen)
            } else {
                Seq::empty()
            }
        },
    }
}

impl PolicyFilter {
    /// The request-header hook: what comes first.
    ///
    /// A policy without entity routes that governs HTTP authorizes here. Any
    /// other runs the identity gate, unless the body phase came first.
    pub fn on_request(&self, ctx: &mut PolicyContext) -> (r: PolicyCommand)
        ensures
            is_request_command(*self, *old(ctx), *final(ctx), r),
    {
        if admission_complete(ctx) {
            return PolicyCommand::Continue;
        }
        if self.http_global && !self.entity_routes {
            return PolicyCommand::ResolveHttp;
        }
        if ctx.resolved {
            if !self.entity_routes {
                mark_admission_complete(ctx);
            }
            return PolicyCommand::Continue;
        }
        PolicyCommand::Gate
    }

    /// After the identity gate of either phase ran. An entity-routed policy
    /// sets the result aside: a user found without the route's coordinates is
    /// not published.
    pub fn gate_finished(
        &self,
        ctx: &mut PolicyContext,
        result: Result<Option<AuthenticatedIdentity>, Rejection>,
        body_phase: bool,
    ) -> (r: PolicyCommand)
        ensures
            match result {
                Err(rejection) => r == PolicyCommand::Reject(rejection) && *final(ctx) == *old(ctx),
                Ok(authenticated) => {
                    &&& if body_phase {
                        r is BodyDone
                    } else {
                        r is Continue
                    }
                    &&& *final(ctx) == if self.entity_routes {
                        gate_stored(*old(ctx), authenticated)
                    } else {
                        marked(PolicyContext { published: authenticated, ..*old(ctx) })
                    }
                },
            },
    {
        match result {
            Err(rejection) => PolicyCommand::Reject(rejection),
            Ok(authenticated) => {
                if self.entity_routes {
                    store_gated_identity(ctx, authenticated);
                } else {
                    publish_identity_projection(ctx, authenticated);
                    mark_admission_complete(ctx);
                }
                if body_phase {
                    PolicyCommand::BodyDone
                } else {
                    PolicyCommand::Continue
                }
            },
        }
    }

    /// After the identity for HTTP without an entity was resolved.
    pub fn http_identity_resolved(
        &self,
        ctx: &mut PolicyContext,
        result: Result<Option<AuthenticatedIdentity>, Rejection>,
    ) -> (r: PolicyCommand)
        ensures
            match result {
                Err(rejection) => r == PolicyCommand::Reject(rejection) && *final(ctx) == *old(ctx),
                Ok(authenticated) => r is EvaluateHttp && *final(ctx) == (PolicyContext {
                    published: authenticated,
                    ..*old(ctx)
                }),
            },
    {
        match result {
            Err(rejection) => PolicyCommand::Reject(rejection),
            Ok(authenticated) => {
                publish_identity_projection(ctx, authenticated);
                PolicyCommand::EvaluateHttp
            },
        }
    }

    /// After the policy for HTTP requests was evaluated. A denied request gets
    /// no token, and no identity is kept for its response phase.
    pub fn http_evaluated(&self, ctx: &mut PolicyContext, verdict: Verdict, body_phase: bool) -> (r:
        PolicyCommand)
        ensures
            match verdict {
                Verdict::Deny(rejection) => r == PolicyCommand::Reject(rejection) && *final(ctx)
                    == *old(ctx),
                Verdict::Allow(credentials) => {
                    &&& if body_phase {
                        r is BodyDone
                    } else {
                        r is Continue
                    }
                    &&& *final(ctx) == marked(
                        PolicyContext { resolved: true, plan: final(ctx).plan, ..*old(ctx) },
                    )
                    &&& tokens_attached(old(ctx).plan, final(ctx).plan, credentials)
                },
            },
    {
        match verdict {
            Verdict::Deny(rejection) => PolicyCommand::Reject(rejection),
            Verdict::Allow(credentials) => {
                attach_delegated_tokens(&mut ctx.plan, credentials);
                ctx.resolved = true;
                mark_admission_complete(ctx);
                if body_phase {
                    PolicyCommand::BodyDone
                } else {
                    PolicyCommand::Continue
                }
            },
        }
    }

    /// The request-body hook: what comes first.
    pub fn on_request_body(
        &self,
        ctx: &mut PolicyContext,
        end_of_stream: bool,
        request: &Classification,
        violation_header: &str,
    ) -> (r: PolicyCommand)
        ensures
            !self.entity_routes ==> is_plain_body_command(*self, *old(ctx), *final(ctx), r),
            self.entity_routes ==> is_entity_body_command(
                *self,
                *old(ctx),
                *final(ctx),
                end_of_stream,
                *request,
                violation_header@,
                r,
            ),
    {
        if !self.entity_routes {
            if admission_complete(ctx) {
                return PolicyCommand::BodyDone;
            }
            if self.http_global {
                return PolicyCommand::ResolveHttp;
            }
            if ctx.resolved {
                mark_admission_complete(ctx);
                return PolicyCommand::BodyDone;
            }
            return PolicyCommand::Gate;
        }
        if !end_of_stream {
            return PolicyCommand::Continue;
        }
        if request.method.is_none() && self.cfg.require_protocol_metadata {
            return PolicyCommand::Reject(missing_protocol_metadata_rejection(violation_header));
        }
        if request.method.is_none() || request.entity_type.is_none() {
            return self.complete_gated_admission(ctx);
        }
        if request.name.is_none() {
            return PolicyCommand::Reject(missing_protocol_metadata_rejection(violation_header));
        }
        PolicyCommand::ResolveEntity
    }

    /// Finishes an admission by identity alone, once classification showed that
    /// no entity route applies.
    pub fn complete_gated_admission(&self, ctx: &mut PolicyContext) -> (r: PolicyCommand)
        ensures
            is_gated_completion(*old(ctx), *final(ctx), r),
    {
        match take_gated_identity(ctx) {
            GatedIdentity::Subject(authenticated) => {
                publish_identity_projection(ctx, Some(authenticated));
                mark_admission_complete(ctx);
                PolicyCommand::BodyDone
            },
            GatedIdentity::NoSubject => {
                publish_identity_projection(ctx, None);
                mark_admission_complete(ctx);
                PolicyCommand::BodyDone
            },
            GatedIdentity::NotRun => PolicyCommand::Gate,
        }
    }

    /// After identity was resolved in the body phase of an entity-routed policy whose
    /// routes do not apply.
    pub fn gated_admission_finished(
        &self,
        ctx: &mut PolicyContext,
        result: Result<Option<AuthenticatedIdentity>, Rejection>,
    ) -> (r: PolicyCommand)
        ensures
            match result {
                Err(rejection) => r == PolicyCommand::Reject(rejection) && *final(ctx) == *old(ctx),
                Ok(authenticated) => r is BodyDone && *final(ctx) == marked(
                    PolicyContext { published: authenticated, ..*old(ctx) },
                ),
            },
    {
        match result {
            Err(rejection) => PolicyCommand::Reject(rejection),
            Ok(authenticated) => {
                publish_identity_projection(ctx, authenticated);
                mark_admission_complete(ctx);
                PolicyCommand::BodyDone
            },
        }
    }

    /// After the identity for the request's entity was resolved. It replaces
    /// what the early gate found and is kept for the response phase.
    pub fn entity_identity_resolved(
        &self,
        ctx: &mut PolicyContext,
        result: Result<Option<AuthenticatedIdentity>, Rejection>,
    ) -> (r: PolicyCommand)
        ensures
            match result {
                Err(rejection) => r == PolicyCommand::Reject(rejection) && *final(ctx) == *old(ctx),
                Ok(authenticated) => r is EvaluateEntity && *final(ctx) == (PolicyContext {
                    published: authenticated,
                    resolved: true,
                    ..gate_taken(*old(ctx))
                }),
            },
    {
        match result {
            Err(rejection) => PolicyCommand::Reject(rejection),
            Ok(authenticated) => {
                take_gated_identity(ctx);
                publish_identity_projection(ctx, authenticated);
                ctx.resolved = true;
                PolicyCommand::EvaluateEntity
            },
        }
    }

    /// After the entity's policy was evaluated. `rewrite` is the body that the
    /// policy made of the request, if it changed it.
    pub fn entity_evaluated(
        &self,
        ctx: &mut PolicyContext,
        verdict: Verdict,
        body: &mut Option<Vec<u8>>,
        rewrite: Option<Vec<u8>>,
    ) -> (r: PolicyCommand)
        ensures
            match verdict {
                Verdict::Deny(rejection) => r == PolicyCommand::Reject(rejection) && *final(ctx)
                    == *old(ctx) && *final(body) == *old(body),
                Verdict::Allow(credentials) => {
                    &&& r is BodyDone
                    &&& *final(ctx) == marked(
                        PolicyContext { plan: final(ctx).plan, ..*old(ctx) },
                    )
                    &&& tokens_attached(old(ctx).plan, final(ctx).plan, credentials)
                    &&& *final(body) == if self.cfg.body_access == BodyAccessMode::ReadWrite
                        && rewrite is Some {
                        rewrite
                    } else {
                        *old(body)
                    }
                },
            },
    {
        match verdict {
            Verdict::Deny(rejection) => PolicyCommand::Reject(rejection),
            Verdict::Allow(credentials) => {
                attach_delegated_tokens(&mut ctx.plan, credentials);
                if self.cfg.body_access == BodyAccessMode::ReadWrite && rewrite.is_some() {
                    *body = rewrite;
                }
                mark_admission_complete(ctx);
                PolicyCommand::BodyDone
            },
        }
    }

    /// Whether the response-header hook evaluates the response policy.
    pub fn on_response(&self, has_response: bool) -> (r: bool)
        ensures
            r == (self.response_hook && has_response),
    {
        self.response_hook && has_response
    }

    /// After the response policy was evaluated: the rejection that replaces the
    /// response, or whether assertions changed its headers.
    pub fn response_evaluated(&self, denied: Option<Rejection>, set: usize, removed: usize) -> (r:
        Result<bool, Rejection>)
        ensures
            match denied {
                Some(rejection) => r == Err::<bool, Rejection>(rejection),
                None => r is Ok && r->Ok_0 == (set > 0 || removed > 0),
            },
    {
        match denied {
            Some(rejection) => Err(rejection),
            None => Ok(set > 0 || removed > 0),
        }
    }

    /// The response-body hook: what comes first.
    pub fn on_response_body(
        &self,
        end_of_stream: bool,
        request: &Classification,
        resolved: bool,
    ) -> (r: ResponseStep)
        ensures
            is_response_step(*self, end_of_stream, *request, resolved, r),
    {
        if !end_of_stream || !self.entity_routes {
            return ResponseStep::Pass;
        }
        match self.cfg.body_access {
            BodyAccessMode::ReadOnly => {
                return ResponseStep::Pass;
            },
            BodyAccessMode::ReadWrite => {},
        }
        if request.method.is_none() || request.entity_type.is_none() || request.name.is_none() {
            return ResponseStep::Pass;
        }
        if resolved {
            ResponseStep::Evaluate
        } else {
            ResponseStep::FailClosed(unattributed_violation())
        }
    }
}

/// Whether `r` is the answer of the request-header hook.
pub open spec fn is_request_command(
    filter: PolicyFilter,
    before: PolicyContext,
    after: PolicyContext,
    r: PolicyCommand,
) -> bool {
    if complete(before) {
        r is Continue && after == before
    } else if filter.http_global && !filter.entity_routes {
        r is ResolveHttp && after == before
    } else if before.resolved {
        r is Continue && after == if filter.entity_routes {
            before
        } else {
            marked(before)
        }
    } else {
        r is Gate && after == before
    }
}

/// Whether `r` is the answer of the body hook of a policy without entity routes.
pub open spec fn is_plain_body_command(
    filter: PolicyFilter,
    before: PolicyContext,
    after: PolicyContext,
    r: PolicyCommand,
) -> bool {
    if complete(before) {
        r is BodyDone && after == before
    } else if filter.http_global {
        r is ResolveHttp && after == before
    } else if before.resolved {
        r is BodyDone && after == marked(before)
    } else {
        r is Gate && after == before
    }
}

/// Whether an admission by identity alone went on as identity resolution left it.
pub open spec fn is_gated_completion(
    before: PolicyContext,
    after: PolicyContext,
    r: PolicyCommand,
) -> bool {
    match gated(before) {
        GatedIdentity::Subject(a) => r is BodyDone && after == marked(
            PolicyContext { published: Some(a), ..gate_taken(before) },
        ),
        GatedIdentity::NoSubject => r is BodyDone && after == marked(
            PolicyContext { published: None, ..gate_taken(before) },
        ),
        GatedIdentity::NotRun => r is Gate && after == gate_taken(before),
    }
}

/// Whether `r` is the answer of the body hook of an entity-routed policy: it
/// waits for the whole body, refuses what was not classified where that is
/// required, and refuses an entity without a name.
pub open spec fn is_entity_body_command(
    filter: PolicyFilter,
    before: PolicyContext,
    after: PolicyContext,
    end_of_stream: bool,
    request: Classification,
    violation_header: Seq<char>,
    r: PolicyCommand,
) -> bool {
    if !end_of_stream {
        r is Continue && after == before
    } else if request.method is None && filter.cfg.require_protocol_metadata {
        r is Reject && r->Reject_0@ == missing_metadata_view(violation_header) && after == before
    } else if request.method is None || request.entity_type is None {
        is_gated_completion(before, after, r)
    } else if request.name is None {
        r is Reject && r->Reject_0@ == missing_metadata_view(violation_header) && after == before
    } else {
        r is ResolveEntity && after == before
    }
}

// Response bodies.

/// Why a response body is denied.
pub struct Violation {
    /// Code.
    pub code: &'static str,
    /// Reason in words.
    pub reason: &'static str,
}

/// The violation of a response without a request-phase identity.
pub fn unattributed_violation() -> (r: Violation)
    ensures
        is_unattributed(r),
{
    Violation {
        code: "identity.post_phase_unavailable",
        reason: "no request-phase identity available for response processing",
    }
}

/// Whether a violation is that of a response without a request-phase identity.
pub open spec fn is_unattributed(v: Violation) -> bool {
    &&& v.code@ == "identity.post_phase_unavailable"@
    &&& v.reason@ == "no request-phase identity available for response processing"@
}

/// The violation of a rewrite that does not fit the committed length.
pub fn overflow_violation() -> (r: Violation)
    ensures
        r.code@ == "gateway.response_rewrite_overflow"@,
        r.reason@ == "response rewrite exceeded the committed response length"@,
{
    Violation {
        code: "gateway.response_rewrite_overflow",
        reason: "response rewrite exceeded the committed response length",
    }
}

/// What the response-body hook does first.
pub enum ResponseStep {
    /// The response passes as it is.
    Pass,
    /// The response cannot be attributed to an admitted request: its body is
    /// replaced by the deny envelope of this violation.
    FailClosed(Violation),
    /// The entity's response policy is evaluated.
    Evaluate,
}

/// Whether `r` is what the response-body hook does first: only complete bodies
/// of classified requests under an entity-routed policy that may rewrite are
/// looked at, and one without a request-phase identity is denied unseen.
pub open spec fn is_response_step(
    filter: PolicyFilter,
    end_of_stream: bool,
    request: Classification,
    resolved: bool,
    r: ResponseStep,
) -> bool {
    if end_of_stream && filter.entity_routes && filter.cfg.body_access == BodyAccessMode::ReadWrite
        && request.method is Some && request.entity_type is Some && request.name is Some {
        if resolved {
            r is Evaluate
        } else {
            r matches ResponseStep::FailClosed(v) && is_unattributed(v)
        }
    } else {
        r is Pass
    }
}

/// `bytes` brought to `len`: padded with spaces, or cut.
pub open spec fn fitted(bytes: Seq<u8>, len: nat) -> Seq<u8> {
    Seq::new(
        len,
        |i: int|
            if i < bytes.len() {
                bytes[i]
            } else {
                32u8
            },
    )
}

/// Brings a new body to the length that the response already committed to.
pub fn fit_to_original_length(new_bytes: Vec<u8>, original_len: usize) -> (r: Vec<u8>)
    ensures
        r@ == fitted(new_bytes@, original_len as nat),
{
    let mut out = new_bytes;
    if out.len() < original_len {
        out.resize(original_len, 32u8);
    } else {
        out.truncate(original_len);
    }
    proof {
        assert(out@ =~= fitted(new_bytes@, original_len as nat));
    }
    out
}

/// What the response policy makes of a body.
pub enum ResponseVerdict {
    /// It is denied; the envelope takes its place.
    Deny(Vec<u8>),
    /// It passes as it is.
    Keep,
    /// It is rewritten. The envelope takes its place where the rewrite does not
    /// fit the committed length.
    Rewrite {
        /// The rewritten body.
        bytes: Vec<u8>,
        /// The deny envelope for a rewrite that grew, of `overflow_violation`.
        overflow_envelope: Vec<u8>,
    },
}

/// The body that replaces a response body of `original_len` bytes, if any.
pub open spec fn response_body(verdict: ResponseVerdict, original_len: usize) -> Option<Seq<u8>> {
    match verdict {
        ResponseVerdict::Deny(envelope) => Some(fitted(envelope@, original_len as nat)),
        ResponseVerdict::Keep => None,
        ResponseVerdict::Rewrite { bytes, overflow_envelope } => if bytes@.len() > original_len {
            Some(fitted(overflow_envelope@, original_len as nat))
        } else {
            Some(fitted(bytes@, original_len as nat))
        },
    }
}

/// Applies a verdict to a response body.
pub fn finish_response_body(body: &mut Option<Vec<u8>>, verdict: ResponseVerdict)
    ensures
        match response_body(verdict, body_len(*old(body))) {
            Some(bytes) => *final(body) is Some && final(body)->0@ == bytes,
            None => *final(body) == *old(body),
        },
{
    let original_len: usize = match &*body {
        Some(bytes) => bytes.len(),
        None => 0,
    };
    match verdict {
        ResponseVerdict::Deny(envelope) => {
            *body = Some(fit_to_original_length(envelope, original_len));
        },
        ResponseVerdict::Keep => {},
        ResponseVerdict::Rewrite { bytes, overflow_envelope } => {
            if bytes.len() > original_len {
                *body = Some(fit_to_original_length(overflow_envelope, original_len));
            } else {
                *body = Some(fit_to_original_length(bytes, original_len));
            }
        },
    }
}

/// The length of a body; an absent one has none.
pub open spec fn body_len(body: Option<Vec<u8>>) -> usize {
    match body {
        Some(b) => b@.len() as usize,
        None => 0,
    }
}

/// A replaced response body has exactly the length that was committed, so the
/// message framing stays intact; what is shorter is followed by spaces only.
pub proof fn law_response_length_kept(verdict: ResponseVerdict, original_len: usize)
    ensures
        response_body(verdict, original_len) matches Some(b) ==> b.len() == original_len,
{
}

/// A rewrite that fits is delivered whole, followed by spaces; a rewrite that
/// grew is never delivered in part.
pub proof fn law_rewrite_whole_or_denied(
    bytes: Vec<u8>,
    overflow_envelope: Vec<u8>,
    original_len: usize,
)
    ensures
        ({
            let out = response_body(
                ResponseVerdict::Rewrite { bytes, overflow_envelope },
                original_len,
            )->0;
            &&& bytes@.len() <= original_len ==> out.take(bytes@.len() as int) == bytes@
            &&& bytes@.len() <= original_len ==> forall|i: int|
                bytes@.len() <= i < original_len ==> #[trigger] out[i] == 32
            &&& bytes@.len() > original_len ==> out == fitted(
                overflow_envelope@,
                original_len as nat,
            )
        }),
{
    let out = response_body(
        ResponseVerdict::Rewrite { bytes, overflow_envelope },
        original_len,
    )->0;
    if bytes@.len() <= original_len {
        assert(out.take(bytes@.len() as int) =~= bytes@);
    }
}

/// Admission runs once: in a pipeline, once a request was admitted, neither the
/// header phase nor the body phase of a policy without entity routes resolves or
/// authorizes it again, and both leave the request as it is.
pub proof fn law_admission_once(
    filter: PolicyFilter,
    ctx: PolicyContext,
    after: PolicyContext,
    r: PolicyCommand,
)
    requires
        ctx.in_pipeline,
    ensures
        complete(marked(ctx)),
        is_request_command(filter, marked(ctx), after, r) ==> r is Continue && after == marked(ctx),
        is_plain_body_command(filter, marked(ctx), after, r) ==> r is BodyDone && after == marked(
            ctx,
        ),
{
}

/// What the early gate of an entity-routed policy found is not published by the
/// gate; it is what gets published once classification shows that no entity
/// route applies, without resolving again.
pub proof fn law_gate_result_set_aside(
    ctx: PolicyContext,
    authenticated: Option<AuthenticatedIdentity>,
    after: PolicyContext,
    r: PolicyCommand,
)
    requires
        ctx.in_pipeline,
        is_gated_completion(gate_stored(ctx, authenticated), after, r),
    ensures
        gate_stored(ctx, authenticated).published == ctx.published,
        r is BodyDone,
        after.published == authenticated,
        complete(after),
        gated(after) is NotRun,
{
}

// What the request's attributes are.

/// Of several readable lines of one header, whatever the case of its name, the
/// last one counts; a line that is not readable never does.
pub proof fn law_last_readable_counts(lines: Seq<(Seq<char>, Seq<u8>)>, i: int)
    requires
        0 <= i < lines.len(),
        value_text(lines[i].1) is Some,
        forall|j: int|
            i < j < lines.len() && value_text((#[trigger] lines[j]).1) is Some ==> lower(
                lines[j].0,
            ) != lower(lines[i].0),
    ensures
        find_pair(header_snapshot(lines), lower(lines[i].0)) == value_text(lines[i].1),
    decreases lines.len(),
{
    let front = lines.drop_last();
    let before = header_snapshot(front);
    let last = lines.last();
    if value_text(last.1) is Some {
        law_put_find(before, lower(last.0), value_text(last.1)->0, lower(lines[i].0));
    }
    if i < lines.len() - 1 {
        assert(lines[lines.len() - 1] == last);
        assert forall|j: int|
            i < j < front.len() && value_text((#[trigger] front[j]).1) is Some implies lower(
            front[j].0,
        ) != lower(front[i].0) by {
            assert(front[j] == lines[j]);
        }
        law_last_readable_counts(front, i);
    }
}

/// A header without a readable line is not among the attributes.
pub proof fn law_unread_headers_left_out(lines: Seq<(Seq<char>, Seq<u8>)>, name: Seq<char>)
    requires
        forall|j: int|
            0 <= j < lines.len() && value_text((#[trigger] lines[j]).1) is Some ==> lower(
                lines[j].0,
            ) != name,
    ensures
        find_pair(header_snapshot(lines), name) is None,
    decreases lines.len(),
{
    if lines.len() > 0 {
        let front = lines.drop_last();
        let last = lines.last();
        assert(lines[lines.len() - 1] == last);
        assert forall|j: int|
            0 <= j < front.len() && value_text((#[trigger] front[j]).1) is Some implies lower(
            front[j].0,
        ) != name by {
            assert(front[j] == lines[j]);
        }
        law_unread_headers_left_out(front, name);
        if value_text(last.1) is Some {
            law_put_find(header_snapshot(front), lower(last.0), value_text(last.1)->0, name);
        }
    }
}

/// The session is what `x-session-id` says, where it says anything; the host is
/// the request target's own, and else what the first `Host` line says.
pub proof fn law_session_and_host(
    snapshot: Seq<(Seq<char>, Seq<char>)>,
    authority_host: Option<Seq<char>>,
    lines: Seq<(Seq<char>, Seq<u8>)>,
)
    ensures
        session_of(snapshot) is Some <==> find_pair(snapshot, "x-session-id"@) is Some
            && find_pair(snapshot, "x-session-id"@)->0.len() > 0,
        session_of(snapshot) is Some ==> session_of(snapshot) == find_pair(
            snapshot,
            "x-session-id"@,
        ),
        authority_host is Some ==> host_of(authority_host, lines) == authority_host,
        authority_host is None ==> host_of(authority_host, lines) == opt_value_text(
            first_value(lines, "host"@),
        ),
{
}

/// A claim that is a JSON string is rendered as the string; any other is rendered
/// as it is written.
pub proof fn law_claims_rendered(name: String, claim: String)
    ensures
        ({
            let read = json_of(vstd::utf8::encode_utf8(claim@));
            let rendered = rendered_claim((name, claim));
            &&& rendered.0 == name@
            &&& read is Ok && read->Ok_0 is Str ==> rendered.1 == read->Ok_0->Str_0
            &&& !(read is Ok && read->Ok_0 is Str) ==> rendered.1 == claim@
        }),
{
}

// What admission keeps.

/// What the three changes of the admission state do: admission is noted beside
/// an early finding; an early finding is set aside beside what was noted; and
/// taking it leaves none. Nothing else of the request changes, and without a
/// pipeline no state is kept.
pub proof fn law_admission_state(
    ctx: PolicyContext,
    authenticated: Option<AuthenticatedIdentity>,
)
    ensures
        !ctx.in_pipeline ==> marked(ctx) == ctx && gate_stored(ctx, authenticated) == ctx,
        ctx.in_pipeline ==> {
            &&& marked(ctx).state is Some && marked(ctx).state->0.complete
            &&& ctx.state matches Some(s) ==> marked(ctx).state->0.gated == s.gated
            &&& ctx.state is None ==> marked(ctx).state->0.gated is NotRun
            &&& gate_stored(ctx, authenticated).state is Some
            &&& authenticated matches Some(a) ==> gate_stored(ctx, authenticated).state->0.gated
                == GatedIdentity::Subject(a)
            &&& authenticated is None ==> gate_stored(
                ctx,
                authenticated,
            ).state->0.gated is NoSubject
            &&& gate_stored(ctx, authenticated).state->0.complete <==> ctx.state is Some
                && ctx.state->0.complete
        },
        marked(ctx) == (PolicyContext { state: marked(ctx).state, ..ctx }),
        gate_stored(ctx, authenticated) == (PolicyContext {
            state: gate_stored(ctx, authenticated).state,
            ..ctx
        }),
        ctx.state is None ==> gate_taken(ctx) == ctx,
        ctx.state matches Some(s) ==> gate_taken(ctx) == (PolicyContext {
            state: Some(AdmissionState { complete: s.complete, gated: GatedIdentity::NotRun }),
            ..ctx
        }),
{
}

/// The header phase, by cases: a request that was admitted goes on. Otherwise a
/// policy for HTTP alone is asked at once; and any other resolves the identity,
/// unless the body phase did, which admits the request where no entity route can
/// still apply.
pub proof fn law_header_phase(
    filter: PolicyFilter,
    before: PolicyContext,
    after: PolicyContext,
    r: PolicyCommand,
)
    requires
        is_request_command(filter, before, after, r),
    ensures
        ({
            let admitted = before.state is Some && before.state->0.complete;
            let http_only = filter.http_global && !filter.entity_routes;
            &&& r is ResolveHttp <==> !admitted && http_only
            &&& r is Gate <==> !admitted && !http_only && !before.resolved
            &&& r is Continue <==> admitted || (!http_only && before.resolved)
            &&& after == if !admitted && !http_only && before.resolved && !filter.entity_routes {
                marked(before)
            } else {
                before
            }
        }),
{
}

/// The body phase of a policy without entity routes, by cases: it is done with a
/// request that was admitted; a policy for HTTP is asked; and else the identity is
/// resolved, unless the header phase did.
pub proof fn law_plain_body_phase(
    filter: PolicyFilter,
    before: PolicyContext,
    after: PolicyContext,
    r: PolicyCommand,
)
    requires
        is_plain_body_command(filter, before, after, r),
    ensures
        ({
            let admitted = before.state is Some && before.state->0.complete;
            &&& r is ResolveHttp <==> !admitted && filter.http_global
            &&& r is Gate <==> !admitted && !filter.http_global && !before.resolved
            &&& r is BodyDone <==> admitted || (!filter.http_global && before.resolved)
            &&& after == if !admitted && !filter.http_global && before.resolved {
                marked(before)
            } else {
                before
            }
        }),
{
}

/// The body phase of an entity-routed policy, by cases: nothing is decided before
/// the whole body is known. A request that was not classified is refused where
/// classification is required, and so is an entity without a name; a named entity
/// goes to its own policy; and any other request is admitted by its identity
/// alone.
pub proof fn law_entity_body_phase(
    filter: PolicyFilter,
    before: PolicyContext,
    after: PolicyContext,
    end_of_stream: bool,
    request: Classification,
    violation_header: Seq<char>,
    r: PolicyCommand,
)
    requires
        is_entity_body_command(
            filter,
            before,
            after,
            end_of_stream,
            request,
            violation_header,
            r,
        ),
    ensures
        ({
            let unclassified = request.method is None && filter.cfg.require_protocol_metadata;
            let entity = request.method is Some && request.entity_type is Some;
            &&& r is Continue <==> !end_of_stream
            &&& r is Reject <==> end_of_stream && (unclassified || (entity && request.name is None))
            &&& r is ResolveEntity <==> end_of_stream && entity && request.name is Some
            &&& r is Reject ==> r->Reject_0@.status == 500 && r->Reject_0@.headers[1] == (
                violation_header,
                "config.missing_protocol_metadata"@,
            )
            &&& r is Continue || r is Reject || r is ResolveEntity ==> after == before
            &&& end_of_stream && !unclassified && !entity ==> {
                let found = if before.state is Some {
                    before.state->0.gated
                } else {
                    GatedIdentity::NotRun
                };
                &&& r is Gate <==> found is NotRun
                &&& r is BodyDone <==> !(found is NotRun)
                &&& found matches GatedIdentity::Subject(a) ==> after.published == Some(a)
                &&& found is NoSubject ==> after.published is None
                &&& after.resolved == before.resolved && after.plan == before.plan
            }
        }),
{
}

/// The response body phase, by cases: only a complete body of a classified and
/// named entity, under an entity-routed policy that may rewrite, is looked at; and
/// one that no admitted request stands behind is denied unseen.
pub proof fn law_response_phase(
    filter: PolicyFilter,
    end_of_stream: bool,
    request: Classification,
    resolved: bool,
    r: ResponseStep,
)
    requires
        is_response_step(filter, end_of_stream, request, resolved, r),
    ensures
        ({
            let looked_at = end_of_stream && filter.entity_routes && filter.cfg.body_access
                != BodyAccessMode::ReadOnly && request.method is Some && request.entity_type is Some
                && request.name is Some;
            &&& r is Pass <==> !looked_at
            &&& r is Evaluate <==> looked_at && resolved
            &&& r is FailClosed <==> looked_at && !resolved
            &&& r matches ResponseStep::FailClosed(v) ==> v.code@
                == "identity.post_phase_unavailable"@
        }),
{
}

// What bodies come to.

/// Bringing bytes to a length keeps those that fit, in order, and adds nothing
/// but spaces.
pub proof fn law_fitted(bytes: Seq<u8>, len: nat)
    ensures
        fitted(bytes, len).len() == len,
        bytes.len() >= len ==> fitted(bytes, len) == bytes.take(len as int),
        bytes.len() < len ==> fitted(bytes, len).take(bytes.len() as int) == bytes && forall|
            i: int,
        |
            bytes.len() <= i < len ==> #[trigger] fitted(bytes, len)[i] == ' ' as u8,
{
    if bytes.len() >= len {
        assert(fitted(bytes, len) =~= bytes.take(len as int));
    } else {
        assert(fitted(bytes, len).take(bytes.len() as int) =~= bytes);
    }
}

/// A denied response body gives way to the envelope, brought to the committed
/// length; one that is kept stays as it is.
pub proof fn law_denied_and_kept(envelope: Vec<u8>, original_len: usize)
    ensures
        response_body(ResponseVerdict::Deny(envelope), original_len) == Some(
            fitted(envelope@, original_len as nat),
        ),
        response_body(ResponseVerdict::Keep, original_len) is None,
{
}

/// A policy that may rewrite bodies gets them whole, up to the bound; one that
/// only reads lets them pass as they come.
pub proof fn law_body_delivery(cfg: PolicyFilterConfig)
    ensures
        cfg.body_access == BodyAccessMode::ReadWrite <==> granted_access(cfg.body_access)
            == BodyAccess::ReadWrite,
        cfg.body_access == BodyAccessMode::ReadWrite ==> delivery(cfg) == (BodyMode::StreamBuffer {
            max_bytes: Some(cfg.max_buffer_bytes),
        }),
        cfg.body_access == BodyAccessMode::ReadOnly ==> granted_access(cfg.body_access)
            == BodyAccess::ReadOnly && delivery(cfg) == BodyMode::Stream,
{
}

/// A filter is built exactly where its buffer bound is positive and within the
/// ceiling, and the engine runs a document whose response assertions can all be
/// applied.
pub proof fn law_filter_built(cfg: PolicyFilterConfig, ceiling: usize, startup: Startup)
    ensures
        buffer_error(cfg.max_buffer_bytes, ceiling) is None <==> 1 <= cfg.max_buffer_bytes
            <= ceiling,
        startup_error(cfg, startup) is None <==> startup is Loaded
            && startup->Loaded_0.unreachable_levels@.len() == 0,
{
}

/// The refusal of a request that was not classified: a server's mistake, in plain
/// text, under its own code.
pub proof fn law_missing_metadata(violation_header: Seq<char>)
    ensures
        ({
            let view = missing_metadata_view(violation_header);
            &&& view.status == 500
            &&& view.headers.len() == 2
            &&& view.headers[0] == ("Content-Type"@, "text/plain"@)
            &&& view.headers[1] == (violation_header, "config.missing_protocol_metadata"@)
            &&& view.body == Some(vstd::utf8::encode_utf8(missing_metadata_text()))
            &&& !view.preserve_keepalive
            &&& view.header_map is None
        }),
{
}

/// Without credentials nothing is attached. With them each chosen token is set
/// behind what was there, and inbound credentials are stripped only where a token
/// was attached.
pub proof fn law_tokens_attached(
    before: HeaderPlan,
    after: HeaderPlan,
    credentials: Option<&RawCredentials>,
)
    requires
        tokens_attached(before, after, credentials),
    ensures
        credentials is None ==> after == before,
        credentials matches Some(raw) ==> {
            let chosen = attached(ordered(token_views(raw.delegated@)));
            let old_set = set_view(before.set@);
            let new_set = set_view(after.set@);
            &&& new_set.len() == old_set.len() + chosen.len()
            &&& forall|i: int| 0 <= i < old_set.len() ==> #[trigger] new_set[i] == old_set[i]
            &&& forall|i: int|
                0 <= i < chosen.len() ==> new_set[old_set.len() + i] == (
                    lower((#[trigger] chosen[i]).header),
                    vstd::utf8::encode_utf8("Bearer "@ + chosen[i].token),
                )
            &&& chosen.len() == 0 ==> texts(after.remove@) == texts(before.remove@)
            &&& chosen.len() > 0 ==> texts(after.remove@) == texts(before.remove@) + stripped(
                texts(raw.inbound@),
                chosen,
            )
        },
{
    if credentials is Some {
        let raw = credentials->0;
        let chosen = attached(ordered(token_views(raw.delegated@)));
        assert(texts(before.remove@) + Seq::<Seq<char>>::empty() =~= texts(before.remove@));
        let sent = chosen.map_values(|t: TokenView| token_header(t));
        assert forall|i: int| 0 <= i < chosen.len() implies set_view(
            after.set@,
        )[set_view(before.set@).len() + i] == (
            lower((#[trigger] chosen[i]).header),
            vstd::utf8::encode_utf8("Bearer "@ + chosen[i].token),
        ) by {
            assert(sent[i] == token_header(chosen[i]));
        }
    }
}

/// After the identity gate: a failure refuses the request and changes nothing. An
/// entity-routed policy sets the user aside, unpublished; any other publishes it
/// and admits the request.
pub proof fn law_after_gate(
    filter: PolicyFilter,
    ctx: &mut PolicyContext,
    result: Result<Option<AuthenticatedIdentity>, Rejection>,
    body_phase: bool,
    r: PolicyCommand,
)
    requires
        call_ensures(PolicyFilter::gate_finished, (&filter, ctx, result, body_phase), r),
    ensures
        result matches Err(rejection) ==> r == PolicyCommand::Reject(rejection) && *final(ctx)
            == *old(ctx),
        result matches Ok(user) ==> {
            &&& r is BodyDone <==> body_phase
            &&& r is Continue <==> !body_phase
            &&& filter.entity_routes ==> final(ctx).published == old(ctx).published
            &&& filter.entity_routes && old(ctx).in_pipeline ==> final(ctx).state is Some && (user
                matches Some(a) ==> final(ctx).state->0.gated == GatedIdentity::Subject(a))
            &&& !filter.entity_routes ==> final(ctx).published == user
            &&& !filter.entity_routes && old(ctx).in_pipeline ==> final(ctx).state is Some
                && final(ctx).state->0.complete
            &&& final(ctx).resolved == old(ctx).resolved
            &&& final(ctx).plan == old(ctx).plan
        },
{
}

/// An identity that was resolved for HTTP is published and the policy is asked
/// next; it admits nothing by itself.
pub proof fn law_http_identity_asks_policy(
    filter: PolicyFilter,
    ctx: &mut PolicyContext,
    result: Result<Option<AuthenticatedIdentity>, Rejection>,
    r: PolicyCommand,
)
    requires
        call_ensures(PolicyFilter::http_identity_resolved, (&filter, ctx, result), r),
    ensures
        result matches Err(rejection) ==> r == PolicyCommand::Reject(rejection) && *final(ctx)
            == *old(ctx),
        result matches Ok(user) ==> r is EvaluateHttp && final(ctx).published == user
            && final(ctx).state == old(ctx).state && final(ctx).resolved == old(ctx).resolved
            && final(ctx).plan == old(ctx).plan,
{
}

/// A denied request is refused and changes nothing: no token is attached and no
/// identity is kept. An allowed one is admitted, keeps its identity for the
/// response phase, and gets its tokens.
pub proof fn law_http_verdict<'a>(
    filter: PolicyFilter,
    ctx: &mut PolicyContext,
    verdict: Verdict<'a>,
    body_phase: bool,
    r: PolicyCommand,
)
    requires
        call_ensures(PolicyFilter::http_evaluated, (&filter, ctx, verdict, body_phase), r),
    ensures
        verdict matches Verdict::Deny(rejection) ==> r == PolicyCommand::Reject(rejection)
            && *final(ctx) == *old(ctx),
        verdict matches Verdict::Allow(credentials) ==> {
            &&& r is BodyDone <==> body_phase
            &&& r is Continue <==> !body_phase
            &&& final(ctx).resolved
            &&& final(ctx).published == old(ctx).published
            &&& old(ctx).in_pipeline ==> final(ctx).state is Some && final(ctx).state->0.complete
            &&& credentials is None ==> final(ctx).plan == old(ctx).plan
        },
{
}

/// An identity that was resolved for an entity replaces what was found early, is
/// published and kept, and the entity's policy is asked next.
pub proof fn law_entity_identity_replaces(
    filter: PolicyFilter,
    ctx: &mut PolicyContext,
    result: Result<Option<AuthenticatedIdentity>, Rejection>,
    r: PolicyCommand,
)
    requires
        call_ensures(PolicyFilter::entity_identity_resolved, (&filter, ctx, result), r),
    ensures
        result matches Err(rejection) ==> r == PolicyCommand::Reject(rejection) && *final(ctx)
            == *old(ctx),
        result matches Ok(user) ==> {
            &&& r is EvaluateEntity
            &&& final(ctx).published == user
            &&& final(ctx).resolved
            &&& final(ctx).state is Some ==> final(ctx).state->0.gated is NotRun
            &&& final(ctx).state is Some <==> old(ctx).state is Some
            &&& old(ctx).state is Some ==> final(ctx).state->0.complete == old(
                ctx,
            ).state->0.complete
            &&& final(ctx).plan == old(ctx).plan
        },
{
}

/// A denied entity request is refused and keeps its body. An allowed one is
/// admitted; its body is the policy's rewrite exactly where there is one and the
/// policy may rewrite.
pub proof fn law_entity_verdict<'a>(
    filter: PolicyFilter,
    ctx: &mut PolicyContext,
    verdict: Verdict<'a>,
    body: &mut Option<Vec<u8>>,
    rewrite: Option<Vec<u8>>,
    r: PolicyCommand,
)
    requires
        call_ensures(PolicyFilter::entity_evaluated, (&filter, ctx, verdict, body, rewrite), r),
    ensures
        verdict matches Verdict::Deny(rejection) ==> r == PolicyCommand::Reject(rejection)
            && *final(ctx) == *old(ctx) && *final(body) == *old(body),
        verdict matches Verdict::Allow(credentials) ==> {
            &&& r is BodyDone
            &&& old(ctx).in_pipeline ==> final(ctx).state is Some && final(ctx).state->0.complete
            &&& final(ctx).published == old(ctx).published
            &&& final(ctx).resolved == old(ctx).resolved
            &&& credentials is None ==> final(ctx).plan == old(ctx).plan
            &&& rewrite is Some && filter.cfg.body_access is ReadWrite ==> *final(body) == rewrite
            &&& rewrite is None || filter.cfg.body_access is ReadOnly ==> *final(body) == *old(body)
        },
{
}

/// An admission by identity alone publishes the user, or none, and admits the
/// request; a failure refuses it and changes nothing.
pub proof fn law_identity_alone_admits(
    filter: PolicyFilter,
    ctx: &mut PolicyContext,
    result: Result<Option<AuthenticatedIdentity>, Rejection>,
    r: PolicyCommand,
)
    requires
        call_ensures(PolicyFilter::gated_admission_finished, (&filter, ctx, result), r),
    ensures
        result matches Err(rejection) ==> r == PolicyCommand::Reject(rejection) && *final(ctx)
            == *old(ctx),
        result matches Ok(user) ==> r is BodyDone && final(ctx).published == user && final(ctx).resolved == old(ctx).resolved && (old(ctx).in_pipeline ==> final(ctx).state is Some
            && final(ctx).state->0.complete),
{
}

/// A user is validated only from a subject that has an id and was accepted, and
/// carries that subject's own id, roles, teams and claims.
pub proof fn law_validated_user(
    subject: Option<Subject>,
    accepted: bool,
    r: Option<AuthenticatedIdentity>,
    i: int,
)
    requires
        call_ensures(authenticated_identity, (subject, accepted), r),
    ensures
        r is Some <==> accepted && subject is Some && subject->0.id is Some,
        r matches Some(user) ==> {
            &&& Some(user.id) == subject->0.id
            &&& user.roles == subject->0.roles
            &&& user.teams == subject->0.teams
            &&& user.claims@.len() == subject->0.claims@.len()
            &&& 0 <= i < user.claims@.len() ==> user.claims@[i].0@ == subject->0.claims@[i].0@
                && user.claims@[i].1@ == rendered_claim(subject->0.claims@[i]).1
        },
{
    if r is Some {
        let own = r->0.claims@.map_values(|c: (String, String)| claim_view(c));
        let given = subject->0.claims@.map_values(|c: (String, String)| rendered_claim(c));
        assert(own == given);
        assert(own.len() == r->0.claims@.len());
        if 0 <= i < r->0.claims@.len() {
            assert(own[i] == claim_view(r->0.claims@[i]));
            assert(given[i] == rendered_claim(subject->0.claims@[i]));
        }
    }
}

/// What the response policy sees: the request's own attributes, the response's
/// headers and status, and a session only together with an identity.
pub proof fn law_response_seen(
    line: RequestLine,
    headers: HeaderMap,
    response_headers: HeaderMap,
    status: u16,
    resolved: bool,
    r: ResponseAttributes,
)
    requires
        call_ensures(
            response_attributes,
            (line, &headers, &response_headers, status, resolved),
            r,
        ),
    ensures
        r.status == status,
        r.with_identity <==> resolved,
        !resolved ==> r.request.session_id is None,
        r.request.method == line.method,
        r.request.path == line.path,
        r.request.scheme == line.scheme,
        text_pairs(r.request.headers@) == header_snapshot(headers@),
        text_pairs(r.response_headers@) == header_snapshot(response_headers@),
{
}

/// A response policy that denies replaces the response; one that allows tells
/// whether it changed any header.
pub proof fn law_response_verdict(
    filter: PolicyFilter,
    denied: Option<Rejection>,
    set: usize,
    removed: usize,
    r: Result<bool, Rejection>,
)
    requires
        call_ensures(PolicyFilter::response_evaluated, (&filter, denied, set, removed), r),
    ensures
        denied matches Some(rejection) ==> r == Err::<bool, Rejection>(rejection),
        denied is None ==> r == Ok::<bool, Rejection>(set + removed > 0),
{
}

/// A response body that is replaced keeps its length; one that is kept is not
/// touched.
pub proof fn law_response_body_framed(body: &mut Option<Vec<u8>>, verdict: ResponseVerdict)
    requires
        call_ensures(finish_response_body, (body, verdict), ()),
        *old(body) is Some,
    ensures
        verdict is Keep ==> *final(body) == *old(body),
        !(verdict is Keep) ==> *final(body) is Some && final(body)->0@.len() == old(
            body,
        )->0@.len() as usize,
        verdict matches ResponseVerdict::Rewrite { bytes, overflow_envelope } ==> bytes@.len()
            <= old(body)->0@.len() as usize ==> final(body)->0@.take(bytes@.len() as int) == bytes@,
{
    if let ResponseVerdict::Rewrite { bytes, overflow_envelope } = verdict {
        law_rewrite_whole_or_denied(bytes, overflow_envelope, body_len(*old(body)));
    }
}

/// The words for a filter that cannot be built.
pub proof fn law_refused_filters(cfg: PolicyFilterConfig, ceiling: usize, startup: Startup)
    ensures
        cfg.max_buffer_bytes == 0 ==> buffer_error(cfg.max_buffer_bytes, ceiling) == Some(
            "policy: max_buffer_bytes must be > 0"@,
        ),
        cfg.max_buffer_bytes > ceiling && cfg.max_buffer_bytes > 0 ==> buffer_error(
            cfg.max_buffer_bytes,
            ceiling,
        ) == Some(
            "policy: max_buffer_bytes ("@ + decimal_digits(cfg.max_buffer_bytes as nat)
                + ") exceeds the maximum ("@ + decimal_digits(ceiling as nat) + ")"@,
        ),
        startup matches Startup::ReadFailed(e) ==> startup_error(cfg, startup) == Some(
            "policy: failed to read config_path "@ + cfg.config_path@ + ": "@ + e@,
        ),
        startup matches Startup::LoadFailed(e) ==> startup_error(cfg, startup) == Some(
            "policy: load_config_yaml failed for "@ + cfg.config_path@ + ": "@ + e@,
        ),
        startup matches Startup::RuntimeFailed(e) ==> startup_error(cfg, startup) == Some(
            "policy: failed to build init runtime: "@ + e@,
        ),
        startup matches Startup::InitFailed(e) ==> startup_error(cfg, startup) == Some(
            "policy: PolicyEngine::initialize failed: "@ + e@,
        ),
        startup is InitTimedOut ==> startup_error(cfg, startup) == Some(
            "policy: PolicyEngine::initialize timed out after "@ + decimal_digits(
                cfg.init_timeout_secs as nat,
            ) + "s (init_timeout_secs); likely a JWKS / OAuth endpoint is unreachable"@,
        ),
{
}

/// A filter governs what the loaded document wires up: HTTP requests by their
/// hook, entities by a hook of any kind, responses by a hook or by assertions. It
/// leaves requests without classification ungoverned exactly where it has both
/// sorts of rules and does not demand classification.
pub proof fn law_filter_as_loaded(
    cfg: PolicyFilterConfig,
    ceiling: usize,
    facts: EngineFacts,
    r: Result<PolicyFilter, FilterError>,
    skips: bool,
    looks: bool,
)
    requires
        call_ensures(PolicyFilter::new, (cfg, ceiling, Startup::Loaded(facts)), r),
        r is Ok,
        call_ensures(PolicyFilter::skips_global_policy, (&r->Ok_0,), skips),
        call_ensures(PolicyFilter::on_response, (&r->Ok_0, true), looks),
    ensures
        1 <= cfg.max_buffer_bytes <= ceiling,
        facts.unreachable_levels@.len() == 0,
        r->Ok_0.cfg == cfg,
        r->Ok_0.http_global <==> facts.http_request_hook,
        r->Ok_0.entity_routes <==> facts.tool_hook || facts.prompt_hook || facts.resource_hook,
        looks <==> facts.http_response_hook || facts.asserts_responses,
        skips <==> facts.http_request_hook && (facts.tool_hook || facts.prompt_hook
            || facts.resource_hook) && !cfg.require_protocol_metadata,
{
}

/// What policies see of a request is the request's own line, headers, session and
/// host.
pub proof fn law_request_seen(
    line: RequestLine,
    headers: HeaderMap,
    r: RequestAttributes,
)
    requires
        call_ensures(request_attributes, (line, &headers), r),
    ensures
        r.method == line.method,
        r.path == line.path,
        r.scheme == line.scheme,
        text_pairs(r.headers@) == header_snapshot(headers@),
        line.authority_host matches Some(h) ==> r.host is Some && r.host->0@ == h@,
        line.authority_host is None ==> opt_text(r.host) == opt_value_text(
            first_value(headers@, "host"@),
        ),
        r.session_id is Some <==> find_pair(text_pairs(r.headers@), "x-session-id"@) is Some
            && find_pair(text_pairs(r.headers@), "x-session-id"@)->0.len() > 0,
{
    law_session_and_host(header_snapshot(headers@), opt_text(line.authority_host), headers@);
}

/// The words for a start that panicked, for a document that cannot be read again
/// and for a response contract out of reach; and the words of the refusals of
/// unclassified requests and of responses that no admitted request explains.
pub proof fn law_refusal_texts(
    cfg: PolicyFilterConfig,
    startup: Startup,
    violation_header: Seq<char>,
    unattributed: Violation,
    overflow: Violation,
    lost: Rejection,
)
    requires
        call_ensures(unattributed_violation, (), unattributed),
        call_ensures(overflow_violation, (), overflow),
        call_ensures(missing_identity_payload, (), lost),
    ensures
        startup matches Startup::InitPanicked(Some(m)) ==> startup_error(cfg, startup) == Some(
            "policy: PolicyEngine::initialize panicked in init thread: "@ + m@,
        ),
        startup matches Startup::InitPanicked(None) ==> startup_error(cfg, startup) == Some(
            "policy: PolicyEngine::initialize panicked in init thread: "@ + "<no panic message>"@,
        ),
        startup matches Startup::ReparseFailed(e) ==> startup_error(cfg, startup) == Some(
            "policy: the engine accepted "@ + cfg.config_path@
                + " but praxis could not re-read it for the assertions contract: "@ + e@,
        ),
        startup matches Startup::Loaded(facts) ==> (facts.unreachable_levels@.len() > 0
            ==> startup_error(cfg, startup) == Some(
            "policy: "@ + joined(texts(facts.unreachable_levels@), ", "@)
                + " declares `assertions.response:` that praxis cannot apply. A response contract is applied at the response header phase, which carries the entity-less HTTP coordinates, so only `global:`, `global.defaults.http:` and an `http:` route can reach one. Move the block to one of those, or drop it."@,
        )),
        missing_metadata_view(violation_header).body == Some(
            vstd::utf8::encode_utf8(
                "policy: no mcp.method in filter metadata. A protocol classifier filter (from the praxis-ai package) must be present in the chain and ordered before `policy`. Set the filter's `require_protocol_metadata: false` to disable this guard for non-classified traffic."@,
            ),
        ),
        unattributed.code@ == "identity.post_phase_unavailable"@,
        unattributed.reason@ == "no request-phase identity available for response processing"@,
        overflow.code@ == "gateway.response_rewrite_overflow"@,
        overflow.reason@ == "response rewrite exceeded the committed response length"@,
        lost@.status == 500,
        lost@.body == Some(
            vstd::utf8::encode_utf8("policy: identity result missing modified payload"@),
        ),
{
}

} // verus!
