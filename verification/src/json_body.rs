//! Operations on JSON bodies: what a configuration asks for, in order.

use vstd::prelude::*;

use crate::body::BodyAccess;
use crate::error::FilterError;
use crate::headers::is_valid_name;
use crate::headers::valid_name;
use crate::json_rpc::OnInvalidBehavior;
use crate::policy::admission::fit_to_original_length;
use crate::policy::admission::fitted;
use crate::text::concat2;
use crate::text::concat3;
use crate::text::concat5;
use crate::text::same_text;

verus! {

/// Where structured metadata is found.
pub struct StructuredMetadataRef {
    /// Namespace.
    pub namespace: String,
    /// Field within the namespace.
    pub key: String,
}

/// A pointer and the value written there; exactly one source is to be set.
pub struct PointerOpConfig {
    /// JSON Pointer to the target.
    pub pointer: String,
    /// A fixed value, as JSON text.
    pub value: Option<String>,
    /// A metadata key.
    pub metadata: Option<String>,
    /// Structured metadata.
    pub structured_metadata: Option<StructuredMetadataRef>,
    /// An environment variable.
    pub env_var: Option<String>,
    /// What is wrong with the fixed value or the environment variable, if anything.
    pub source_fault: Option<String>,
    /// What is wrong with the pointer after those before it, if anything.
    pub pointer_fault: Option<String>,
}

/// A pointer and where its value is copied to; exactly one place is to be set.
pub struct ExtractOpConfig {
    /// JSON Pointer to the value.
    pub pointer: String,
    /// A metadata key.
    pub metadata: Option<String>,
    /// Structured metadata.
    pub structured_metadata: Option<StructuredMetadataRef>,
    /// A request header.
    pub header: Option<String>,
    /// What is wrong with the pointer after those before it, if anything.
    pub pointer_fault: Option<String>,
}

/// A pointer whose value is dropped.
pub struct RemoveOpConfig {
    /// JSON Pointer to the value.
    pub pointer: String,
    /// What is wrong with the pointer after those before it, if anything.
    pub pointer_fault: Option<String>,
}

/// Filter settings.
pub struct JsonBodyConfig {
    /// Values written into request bodies.
    pub request_add: Vec<PointerOpConfig>,
    /// Values dropped from request bodies.
    pub request_remove: Vec<RemoveOpConfig>,
    /// Values replaced in request bodies.
    pub request_replace: Vec<PointerOpConfig>,
    /// Values copied out of request bodies.
    pub request_extract: Vec<ExtractOpConfig>,
    /// Not supported.
    pub response_add: Vec<PointerOpConfig>,
    /// Values dropped from response bodies.
    pub response_remove: Vec<RemoveOpConfig>,
    /// Not supported.
    pub response_replace: Vec<PointerOpConfig>,
    /// Values copied out of response bodies.
    pub response_extract: Vec<ExtractOpConfig>,
    /// Bound on the body.
    pub max_body_bytes: usize,
    /// What happens with bodies that are no JSON.
    pub on_invalid: OnInvalidBehavior,
}

/// Body bound where none is configured.
pub fn default_max_body_bytes() -> (r: usize)
    ensures
        r == crate::body::DEFAULT_JSON_BODY_MAX_BYTES,
{
    crate::body::DEFAULT_JSON_BODY_MAX_BYTES
}

/// Where an extracted value goes.
pub enum ExtractDest {
    /// A metadata key.
    Metadata(String),
    /// Structured metadata.
    Structured(String, String),
    /// A request header.
    Header(String),
}

/// Where a written value comes from.
pub enum ValueSource {
    /// A fixed value, as JSON text.
    Static(String),
    /// A metadata key.
    Metadata(String),
    /// Structured metadata.
    Structured(String, String),
    /// An environment variable.
    EnvVar(String),
}

/// One operation on a body.
pub enum JsonOp {
    /// Copy a value out.
    Extract(String, ExtractDest),
    /// Write a value.
    Add(String, ValueSource),
    /// Replace a value.
    Replace(String, ValueSource),
    /// Drop a value.
    Remove(String),
}

/// Where an extracted value goes, as a value.
pub ghost enum DestView {
    /// A metadata key.
    Metadata(Seq<char>),
    /// Structured metadata.
    Structured(Seq<char>, Seq<char>),
    /// A request header.
    Header(Seq<char>),
}

/// Where a written value comes from, as a value.
pub ghost enum SourceView {
    /// A fixed value.
    Static(Seq<char>),
    /// A metadata key.
    Metadata(Seq<char>),
    /// Structured metadata.
    Structured(Seq<char>, Seq<char>),
    /// An environment variable.
    EnvVar(Seq<char>),
}

/// One operation on a body, as a value.
pub ghost enum OpView {
    /// Copy a value out.
    Extract(Seq<char>, DestView),
    /// Write a value.
    Add(Seq<char>, SourceView),
    /// Replace a value.
    Replace(Seq<char>, SourceView),
    /// Drop a value.
    Remove(Seq<char>),
}

impl View for ExtractDest {
    type V = DestView;

    open spec fn view(&self) -> DestView {
        match self {
            ExtractDest::Metadata(k) => DestView::Metadata(k@),
            ExtractDest::Structured(n, k) => DestView::Structured(n@, k@),
            ExtractDest::Header(h) => DestView::Header(h@),
        }
    }
}

impl View for ValueSource {
    type V = SourceView;

    open spec fn view(&self) -> SourceView {
        match self {
            ValueSource::Static(v) => SourceView::Static(v@),
            ValueSource::Metadata(k) => SourceView::Metadata(k@),
            ValueSource::Structured(n, k) => SourceView::Structured(n@, k@),
            ValueSource::EnvVar(v) => SourceView::EnvVar(v@),
        }
    }
}

impl View for JsonOp {
    type V = OpView;

    open spec fn view(&self) -> OpView {
        match self {
            JsonOp::Extract(p, d) => OpView::Extract(p@, d@),
            JsonOp::Add(p, s) => OpView::Add(p@, s@),
            JsonOp::Replace(p, s) => OpView::Replace(p@, s@),
            JsonOp::Remove(p) => OpView::Remove(p@),
        }
    }
}

/// The operations, as values.
pub open spec fn op_views(ops: Seq<JsonOp>) -> Seq<OpView> {
    ops.map_values(|op: JsonOp| op@)
}

/// A fault of the pointer engine, with the filter's name before it.
pub open spec fn engine_text(fault: Seq<char>) -> Seq<char> {
    "json_body: "@ + fault
}

/// A fault of the pointer engine, as this filter reports it.
pub fn json_err(fault: &str) -> (r: FilterError)
    ensures
        r@ == engine_text(fault@),
{
    FilterError::new(concat2("json_body: ", fault))
}

/// One, if the setting is there.
pub open spec fn present<T>(t: Option<T>) -> nat {
    if t is Some {
        1
    } else {
        0
    }
}

/// The message when not exactly one destination is set.
pub open spec fn dest_count_text(direction: Seq<char>, pointer: Seq<char>) -> Seq<char> {
    "json_body: "@ + direction + "_extract pointer '"@ + pointer
        + "' must set exactly one of 'metadata', 'structured_metadata', or 'header'"@
}

/// The error when not exactly one destination is set.
pub fn extract_dest_count_error(direction: &str, pointer: &str) -> (r: FilterError)
    ensures
        r@ == dest_count_text(direction@, pointer@),
{
    FilterError::new(
        concat5(
            "json_body: ",
            direction,
            "_extract pointer '",
            pointer,
            "' must set exactly one of 'metadata', 'structured_metadata', or 'header'",
        ),
    )
}

/// The destination that a header setting makes, or why it is refused.
pub open spec fn header_dest(
    direction: Seq<char>,
    pointer: Seq<char>,
    header: Seq<char>,
) -> Result<DestView, Seq<char>> {
    if direction == "response"@ {
        Err(
            "json_body: response_extract pointer '"@ + pointer
                + "' cannot use 'header'; use metadata or structured_metadata"@,
        )
    } else if header.len() == 0 {
        Err(
            "json_body: "@ + direction + "_extract pointer '"@ + pointer
                + "' 'header' must not be empty"@,
        )
    } else if !valid_name(header) {
        Err(
            "json_body: "@ + direction + "_extract pointer '"@ + pointer
                + "' has invalid header name '"@ + header + "'"@,
        )
    } else {
        Ok(DestView::Header(header))
    }
}

/// The destination that a header setting makes. Headers are for requests only.
pub fn extract_dest_header(direction: &str, pointer: &str, header: &str) -> (r: Result<
    ExtractDest,
    FilterError,
>)
    ensures
        match header_dest(direction@, pointer@, header@) {
            Ok(d) => r is Ok && r->Ok_0@ == d,
            Err(m) => r is Err && r->Err_0@ == m,
        },
{
    if same_text(direction, "response") {
        return Err(
            FilterError::new(
                concat3(
                    "json_body: response_extract pointer '",
                    pointer,
                    "' cannot use 'header'; use metadata or structured_metadata",
                ),
            ),
        );
    }
    if header.is_empty() {
        return Err(
            FilterError::new(
                concat5(
                    "json_body: ",
                    direction,
                    "_extract pointer '",
                    pointer,
                    "' 'header' must not be empty",
                ),
            ),
        );
    }
    if !is_valid_name(header) {
        let mut message = concat5(
            "json_body: ",
            direction,
            "_extract pointer '",
            pointer,
            "' has invalid header name '",
        );
        message.push_str(header);
        message.push_str("'");
        return Err(FilterError::new(message));
    }
    Ok(ExtractDest::Header(header.to_owned()))
}

/// The one destination of an extraction, or why it is refused.
pub open spec fn dest_of(direction: Seq<char>, cfg: ExtractOpConfig) -> Result<
    DestView,
    Seq<char>,
> {
    if present(cfg.metadata) + present(cfg.structured_metadata) + present(cfg.header) != 1 {
        Err(dest_count_text(direction, cfg.pointer@))
    } else {
        match (cfg.metadata, cfg.header) {
            (Some(key), _) => Ok(DestView::Metadata(key@)),
            (None, Some(header)) => header_dest(direction, cfg.pointer@, header@),
            (None, None) => Ok(
                DestView::Structured(
                    cfg.structured_metadata->0.namespace@,
                    cfg.structured_metadata->0.key@,
                ),
            ),
        }
    }
}

/// The one destination of an extraction.
pub fn extract_dest(direction: &str, cfg: &ExtractOpConfig) -> (r: Result<
    ExtractDest,
    FilterError,
>)
    ensures
        match dest_of(direction@, *cfg) {
            Ok(d) => r is Ok && r->Ok_0@ == d,
            Err(m) => r is Err && r->Err_0@ == m,
        },
{
    match (&cfg.metadata, &cfg.structured_metadata, &cfg.header) {
        (Some(key), None, None) => Ok(ExtractDest::Metadata(key.clone())),
        (None, Some(meta), None) => Ok(
            ExtractDest::Structured(meta.namespace.clone(), meta.key.clone()),
        ),
        (None, None, Some(header)) => extract_dest_header(
            direction,
            cfg.pointer.as_str(),
            header.as_str(),
        ),
        _ => Err(extract_dest_count_error(direction, cfg.pointer.as_str())),
    }
}

/// The message when not exactly one source is set.
pub open spec fn source_count_text(
    direction: Seq<char>,
    section: Seq<char>,
    pointer: Seq<char>,
) -> Seq<char> {
    "json_body: "@ + direction + "_"@ + section + " pointer '"@ + pointer
        + "' must set exactly one of 'value', 'metadata', 'structured_metadata', or 'env_var'"@
}

/// The one source of a written value, or why it is refused.
pub open spec fn source_of(
    direction: Seq<char>,
    section: Seq<char>,
    cfg: PointerOpConfig,
) -> Result<SourceView, Seq<char>> {
    if present(cfg.value) + present(cfg.metadata) + present(cfg.structured_metadata) + present(
        cfg.env_var,
    ) != 1 {
        Err(source_count_text(direction, section, cfg.pointer@))
    } else if (cfg.value is Some || cfg.env_var is Some) && cfg.source_fault is Some {
        Err(engine_text(cfg.source_fault->0@))
    } else {
        match (cfg.value, cfg.metadata, cfg.env_var) {
            (Some(value), _, _) => Ok(SourceView::Static(value@)),
            (None, Some(key), _) => Ok(SourceView::Metadata(key@)),
            (None, None, Some(var)) => Ok(SourceView::EnvVar(var@)),
            (None, None, None) => Ok(
                SourceView::Structured(
                    cfg.structured_metadata->0.namespace@,
                    cfg.structured_metadata->0.key@,
                ),
            ),
        }
    }
}

/// The one source of a written value.
pub fn value_source(direction: &str, section: &str, cfg: &PointerOpConfig) -> (r: Result<
    ValueSource,
    FilterError,
>)
    ensures
        match source_of(direction@, section@, *cfg) {
            Ok(s) => r is Ok && r->Ok_0@ == s,
            Err(m) => r is Err && r->Err_0@ == m,
        },
{
    let source = match (&cfg.value, &cfg.metadata, &cfg.structured_metadata, &cfg.env_var) {
        (Some(value), None, None, None) => ValueSource::Static(value.clone()),
        (None, Some(key), None, None) => {
            return Ok(ValueSource::Metadata(key.clone()));
        },
        (None, None, Some(meta), None) => {
            return Ok(ValueSource::Structured(meta.namespace.clone(), meta.key.clone()));
        },
        (None, None, None, Some(var)) => ValueSource::EnvVar(var.clone()),
        _ => {
            let mut message = concat5("json_body: ", direction, "_", section, " pointer '");
            message.push_str(cfg.pointer.as_str());
            message.push_str(
                "' must set exactly one of 'value', 'metadata', 'structured_metadata', or 'env_var'",
            );
            return Err(FilterError::new(message));
        },
    };
    match &cfg.source_fault {
        Some(fault) => Err(json_err(fault.as_str())),
        None => Ok(source),
    }
}

/// The operation a setting makes, or why it is refused: the setting itself
/// first, then its pointer.
pub open spec fn with_pointer(op: Result<OpView, Seq<char>>, fault: Option<String>) -> Result<
    OpView,
    Seq<char>,
> {
    match op {
        Err(m) => Err(m),
        Ok(view) => match fault {
            Some(f) => Err(engine_text(f@)),
            None => Ok(view),
        },
    }
}

/// The operation that an extraction makes.
pub open spec fn extract_op(direction: Seq<char>, cfg: ExtractOpConfig) -> Result<
    OpView,
    Seq<char>,
> {
    with_pointer(
        match dest_of(direction, cfg) {
            Ok(d) => Ok(OpView::Extract(cfg.pointer@, d)),
            Err(m) => Err(m),
        },
        cfg.pointer_fault,
    )
}

/// The operation that an addition makes.
pub open spec fn add_op(direction: Seq<char>, cfg: PointerOpConfig) -> Result<OpView, Seq<char>> {
    with_pointer(
        match source_of(direction, "add"@, cfg) {
            Ok(s) => Ok(OpView::Add(cfg.pointer@, s)),
            Err(m) => Err(m),
        },
        cfg.pointer_fault,
    )
}

/// The operation that a replacement makes.
pub open spec fn replace_op(direction: Seq<char>, cfg: PointerOpConfig) -> Result<
    OpView,
    Seq<char>,
> {
    with_pointer(
        match source_of(direction, "replace"@, cfg) {
            Ok(s) => Ok(OpView::Replace(cfg.pointer@, s)),
            Err(m) => Err(m),
        },
        cfg.pointer_fault,
    )
}

/// The operation that a removal makes.
pub open spec fn remove_op(cfg: RemoveOpConfig) -> Result<OpView, Seq<char>> {
    with_pointer(Ok(OpView::Remove(cfg.pointer@)), cfg.pointer_fault)
}

/// The results up to the first refusal, which is then the answer.
pub open spec fn collected(results: Seq<Result<OpView, Seq<char>>>) -> Result<
    Seq<OpView>,
    Seq<char>,
>
    decreases results.len(),
{
    if results.len() == 0 {
        Ok(Seq::empty())
    } else {
        match collected(results.drop_last()) {
            Err(m) => Err(m),
            Ok(ops) => match results.last() {
                Err(m) => Err(m),
                Ok(op) => Ok(ops.push(op)),
            },
        }
    }
}

/// What the settings of one direction ask for, in order: extractions,
/// additions, replacements, removals.
pub open spec fn direction_results(
    direction: Seq<char>,
    add: Seq<PointerOpConfig>,
    replace: Seq<PointerOpConfig>,
    remove: Seq<RemoveOpConfig>,
    extract: Seq<ExtractOpConfig>,
) -> Seq<Result<OpView, Seq<char>>> {
    extract.map_values(|c: ExtractOpConfig| extract_op(direction, c)) + add.map_values(
        |c: PointerOpConfig| add_op(direction, c),
    ) + replace.map_values(|c: PointerOpConfig| replace_op(direction, c)) + remove.map_values(
        |c: RemoveOpConfig| remove_op(c),
    )
}

/// The operations of one direction, or the first refusal; last comes what the
/// pointer engine says of all pointers together.
pub open spec fn direction_ops(
    results: Seq<Result<OpView, Seq<char>>>,
    build_fault: Option<String>,
) -> Result<Seq<OpView>, Seq<char>> {
    match collected(results) {
        Err(m) => Err(m),
        Ok(ops) => match build_fault {
            Some(f) => Err(engine_text(f@)),
            None => Ok(ops),
        },
    }
}

proof fn lemma_collected_prefix(results: Seq<Result<OpView, Seq<char>>>, n: int)
    requires
        0 <= n <= results.len(),
        collected(results.take(n)) is Err,
    ensures
        collected(results) == collected(results.take(n)),
    decreases results.len() - n,
{
    if n == results.len() {
        assert(results.take(n) =~= results);
    } else {
        assert(results.take(n + 1).drop_last() =~= results.take(n));
        lemma_collected_prefix(results, n + 1);
    }
}

/// Adds one operation to those collected so far.
proof fn lemma_collected_step(results: Seq<Result<OpView, Seq<char>>>, n: int)
    requires
        0 <= n < results.len(),
    ensures
        collected(results.take(n + 1)) == match collected(results.take(n)) {
            Err(m) => Err(m),
            Ok(ops) => match results[n] {
                Err(m) => Err(m),
                Ok(op) => Ok(ops.push(op)),
            },
        },
{
    assert(results.take(n + 1).drop_last() =~= results.take(n));
}

/// Checks a pointer, then adds the operation.
fn push_op(ops: &mut Vec<JsonOp>, op: JsonOp, fault: &Option<String>) -> (r: Result<
    (),
    FilterError,
>)
    ensures
        match *fault {
            Some(f) => r is Err && r->Err_0@ == engine_text(f@) && final(ops)@ == old(ops)@,
            None => r is Ok && op_views(final(ops)@) == op_views(old(ops)@).push(op@),
        },
{
    match fault {
        Some(f) => Err(json_err(f.as_str())),
        None => {
            ops.push(op);
            proof {
                assert(op_views(ops@) =~= op_views(old(ops)@).push(op@));
            }
            Ok(())
        },
    }
}

/// The operations of one direction, in order.
pub fn compile_direction(
    direction: &str,
    add: &Vec<PointerOpConfig>,
    replace: &Vec<PointerOpConfig>,
    remove: &Vec<RemoveOpConfig>,
    extract: &Vec<ExtractOpConfig>,
    build_fault: &Option<String>,
) -> (r: Result<Vec<JsonOp>, FilterError>)
    ensures
        match direction_ops(
            direction_results(direction@, add@, replace@, remove@, extract@),
            *build_fault,
        ) {
            Ok(ops) => r is Ok && op_views(r->Ok_0@) == ops,
            Err(m) => r is Err && r->Err_0@ == m,
        },
{
    let ghost all = direction_results(direction@, add@, replace@, remove@, extract@);
    let mut ops: Vec<JsonOp> = Vec::new();
    proof {
        assert(all.take(0) =~= Seq::empty());
        assert(op_views(ops@) =~= Seq::empty());
    }
    let mut i: usize = 0;
    while i < extract.len()
        invariant
            all == direction_results(direction@, add@, replace@, remove@, extract@),
            i <= extract@.len(),
            collected(all.take(i as int)) == Ok::<Seq<OpView>, Seq<char>>(op_views(ops@)),
        decreases extract@.len() - i,
    {
        let cfg = &extract[i];
        proof {
            assert(all[i as int] == extract_op(direction@, *cfg));
            lemma_collected_step(all, i as int);
            if collected(all.take(i + 1)) is Err {
                lemma_collected_prefix(all, i + 1);
            }
        }
        let dest = match extract_dest(direction, cfg) {
            Ok(dest) => dest,
            Err(e) => {
                return Err(e);
            },
        };
        let op = JsonOp::Extract(cfg.pointer.clone(), dest);
        match push_op(&mut ops, op, &cfg.pointer_fault) {
            Ok(()) => {},
            Err(e) => {
                return Err(e);
            },
        }
        i += 1;
    }
    let mut j: usize = 0;
    while j < add.len()
        invariant
            all == direction_results(direction@, add@, replace@, remove@, extract@),
            j <= add@.len(),
            collected(all.take(extract@.len() + j)) == Ok::<Seq<OpView>, Seq<char>>(
                op_views(ops@),
            ),
        decreases add@.len() - j,
    {
        let cfg = &add[j];
        let ghost n = extract@.len() + j;
        proof {
            assert(all[n as int] == add_op(direction@, *cfg));
            lemma_collected_step(all, n as int);
            if collected(all.take(n + 1)) is Err {
                lemma_collected_prefix(all, n + 1);
            }
        }
        let source = match value_source(direction, "add", cfg) {
            Ok(source) => source,
            Err(e) => {
                return Err(e);
            },
        };
        let op = JsonOp::Add(cfg.pointer.clone(), source);
        match push_op(&mut ops, op, &cfg.pointer_fault) {
            Ok(()) => {},
            Err(e) => {
                return Err(e);
            },
        }
        j += 1;
    }
    let mut k: usize = 0;
    while k < replace.len()
        invariant
            all == direction_results(direction@, add@, replace@, remove@, extract@),
            k <= replace@.len(),
            collected(all.take(extract@.len() + add@.len() + k)) == Ok::<Seq<OpView>, Seq<char>>(
                op_views(ops@),
            ),
        decreases replace@.len() - k,
    {
        let cfg = &replace[k];
        let ghost n = extract@.len() + add@.len() + k;
        proof {
            assert(all[n as int] == replace_op(direction@, *cfg));
            lemma_collected_step(all, n as int);
            if collected(all.take(n + 1)) is Err {
                lemma_collected_prefix(all, n + 1);
            }
        }
        let source = match value_source(direction, "replace", cfg) {
            Ok(source) => source,
            Err(e) => {
                return Err(e);
            },
        };
        let op = JsonOp::Replace(cfg.pointer.clone(), source);
        match push_op(&mut ops, op, &cfg.pointer_fault) {
            Ok(()) => {},
            Err(e) => {
                return Err(e);
            },
        }
        k += 1;
    }
    let mut m: usize = 0;
    while m < remove.len()
        invariant
            all == direction_results(direction@, add@, replace@, remove@, extract@),
            m <= remove@.len(),
            collected(all.take(extract@.len() + add@.len() + replace@.len() + m)) == Ok::<
                Seq<OpView>,
                Seq<char>,
            >(op_views(ops@)),
        decreases remove@.len() - m,
    {
        let cfg = &remove[m];
        let ghost n = extract@.len() + add@.len() + replace@.len() + m;
        proof {
            assert(all[n as int] == remove_op(*cfg));
            lemma_collected_step(all, n as int);
            if collected(all.take(n + 1)) is Err {
                lemma_collected_prefix(all, n + 1);
            }
        }
        let op = JsonOp::Remove(cfg.pointer.clone());
        match push_op(&mut ops, op, &cfg.pointer_fault) {
            Ok(()) => {},
            Err(e) => {
                return Err(e);
            },
        }
        m += 1;
    }
    proof {
        assert(all.take(all.len() as int) =~= all);
    }
    match build_fault {
        Some(f) => Err(json_err(f.as_str())),
        None => Ok(ops),
    }
}

/// The operations of both directions.
pub struct CompiledOps {
    /// On request bodies.
    pub request: Vec<JsonOp>,
    /// On response bodies.
    pub response: Vec<JsonOp>,
}

/// What settings come to: the operations of both directions, or why they are
/// refused. `limit_fault` says what is wrong with the body bound, if anything.
pub open spec fn built_ops(
    cfg: JsonBodyConfig,
    limit_fault: Option<Seq<char>>,
    request_fault: Option<String>,
    response_fault: Option<String>,
) -> Result<(Seq<OpView>, Seq<OpView>), Seq<char>> {
    match limit_fault {
        Some(m) => Err(m),
        None => if cfg.response_add@.len() > 0 || cfg.response_replace@.len() > 0 {
            Err(
                "json_body: response_add and response_replace are not supported; response Content-Length is already committed. Use response_remove or response_extract"@,
            )
        } else {
            match direction_ops(
                direction_results(
                    "request"@,
                    cfg.request_add@,
                    cfg.request_replace@,
                    cfg.request_remove@,
                    cfg.request_extract@,
                ),
                request_fault,
            ) {
                Err(m) => Err(m),
                Ok(request) => match direction_ops(
                    direction_results(
                        "response"@,
                        Seq::empty(),
                        Seq::empty(),
                        cfg.response_remove@,
                        cfg.response_extract@,
                    ),
                    response_fault,
                ) {
                    Err(m) => Err(m),
                    Ok(response) => if request.len() == 0 && response.len() == 0 {
                        Err(
                            "json_body: at least one add, remove, replace, or extract operation is required"@,
                        )
                    } else {
                        Ok((request, response))
                    },
                },
            }
        },
    }
}

/// Checks settings and puts their operations in order. `limit` is the verdict
/// on the body bound; the faults are what the pointer engine says of all
/// pointers of a direction together.
pub fn build_ops(
    cfg: &JsonBodyConfig,
    limit: Result<(), FilterError>,
    request_fault: Option<String>,
    response_fault: Option<String>,
) -> (r: Result<(usize, OnInvalidBehavior, CompiledOps), FilterError>)
    ensures
        match built_ops(
            *cfg,
            match limit {
                Ok(()) => None,
                Err(e) => Some(e@),
            },
            request_fault,
            response_fault,
        ) {
            Ok((request, response)) => {
                &&& r is Ok
                &&& r->Ok_0.0 == cfg.max_body_bytes
                &&& r->Ok_0.1 == cfg.on_invalid
                &&& op_views(r->Ok_0.2.request@) == request
                &&& op_views(r->Ok_0.2.response@) == response
            },
            Err(m) => r is Err && r->Err_0@ == m,
        },
{
    match limit {
        Err(e) => {
            return Err(e);
        },
        Ok(()) => {},
    }
    if cfg.response_add.len() > 0 || cfg.response_replace.len() > 0 {
        return Err(
            FilterError::from_text(
                "json_body: response_add and response_replace are not supported; response Content-Length is already committed. Use response_remove or response_extract",
            ),
        );
    }
    let request = match compile_direction(
        "request",
        &cfg.request_add,
        &cfg.request_replace,
        &cfg.request_remove,
        &cfg.request_extract,
        &request_fault,
    ) {
        Ok(ops) => ops,
        Err(e) => {
            return Err(e);
        },
    };
    let none: Vec<PointerOpConfig> = Vec::new();
    let response = match compile_direction(
        "response",
        &none,
        &none,
        &cfg.response_remove,
        &cfg.response_extract,
        &response_fault,
    ) {
        Ok(ops) => ops,
        Err(e) => {
            return Err(e);
        },
    };
    if request.len() == 0 && response.len() == 0 {
        return Err(
            FilterError::from_text(
                "json_body: at least one add, remove, replace, or extract operation is required",
            ),
        );
    }
    Ok((cfg.max_body_bytes, cfg.on_invalid, CompiledOps { request, response }))
}

/// The access to a body that operations on it need: none without operations,
/// reading for extractions alone, writing otherwise.
pub open spec fn access_of(ops: Seq<OpView>) -> BodyAccess {
    if ops.len() == 0 {
        BodyAccess::Unused
    } else if forall|i: int| 0 <= i < ops.len() ==> #[trigger] ops[i] is Extract {
        BodyAccess::ReadOnly
    } else {
        BodyAccess::ReadWrite
    }
}

/// The access to a body that operations on it need.
pub fn body_access(ops: &Vec<JsonOp>) -> (r: BodyAccess)
    ensures
        r == access_of(op_views(ops@)),
{
    if ops.len() == 0 {
        return BodyAccess::Unused;
    }
    let mut i: usize = 0;
    while i < ops.len()
        invariant
            0 < ops@.len(),
            i <= ops@.len(),
            forall|k: int| 0 <= k < i ==> #[trigger] op_views(ops@)[k] is Extract,
        decreases ops@.len() - i,
    {
        proof {
            assert(op_views(ops@)[i as int] == ops@[i as int]@);
        }
        match &ops[i] {
            JsonOp::Extract(_, _) => {},
            _ => {
                return BodyAccess::ReadWrite;
            },
        }
        i += 1;
    }
    BodyAccess::ReadOnly
}

/// A rewritten response body brought to the committed length with trailing
/// spaces; a longer one cannot be framed.
pub fn fit_response(original_len: usize, bytes: Vec<u8>) -> (r: Option<Vec<u8>>)
    ensures
        r is None <==> bytes@.len() > original_len,
        r matches Some(b) ==> b@ == fitted(bytes@, original_len as nat),
{
    if bytes.len() > original_len {
        return None;
    }
    Some(fit_to_original_length(bytes, original_len))
}

/// Response bodies never grow: no accepted settings write to them.
pub proof fn law_responses_never_written(
    cfg: JsonBodyConfig,
    limit_fault: Option<Seq<char>>,
    request_fault: Option<String>,
    response_fault: Option<String>,
    i: int,
)
    requires
        built_ops(cfg, limit_fault, request_fault, response_fault) is Ok,
        0 <= i < built_ops(cfg, limit_fault, request_fault, response_fault)->Ok_0.1.len(),
    ensures
        ({
            let op = built_ops(cfg, limit_fault, request_fault, response_fault)->Ok_0.1[i];
            op is Extract || op is Remove
        }),
{
    let results = direction_results(
        "response"@,
        Seq::empty(),
        Seq::empty(),
        cfg.response_remove@,
        cfg.response_extract@,
    );
    lemma_collected_len(results);
    lemma_collected_members(results, i);
}

proof fn lemma_collected_len(results: Seq<Result<OpView, Seq<char>>>)
    requires
        collected(results) is Ok,
    ensures
        collected(results)->Ok_0.len() == results.len(),
    decreases results.len(),
{
    if results.len() > 0 {
        lemma_collected_len(results.drop_last());
    }
}

proof fn lemma_collected_members(results: Seq<Result<OpView, Seq<char>>>, i: int)
    requires
        collected(results) is Ok,
        0 <= i < results.len(),
    ensures
        results[i] == Ok::<OpView, Seq<char>>(collected(results)->Ok_0[i]),
    decreases results.len(),
{
    let front = results.drop_last();
    lemma_collected_len(front);
    if i < front.len() {
        lemma_collected_members(front, i);
    }
}

/// An extraction goes where its one setting says: to the metadata key, the
/// structured metadata or, on requests alone, the header, whose name must be a
/// valid one. Without exactly one setting it is refused.
pub proof fn law_extract_destinations(direction: Seq<char>, cfg: ExtractOpConfig)
    ensures
        dest_of(direction, cfg) matches Ok(DestView::Metadata(k)) ==> cfg.metadata is Some && k
            == cfg.metadata->0@ && cfg.structured_metadata is None && cfg.header is None,
        dest_of(direction, cfg) matches Ok(DestView::Structured(n, k)) ==> cfg.structured_metadata
            is Some && n == cfg.structured_metadata->0.namespace@ && k
            == cfg.structured_metadata->0.key@ && cfg.metadata is None && cfg.header is None,
        dest_of(direction, cfg) matches Ok(DestView::Header(h)) ==> cfg.header is Some && h
            == cfg.header->0@ && valid_name(h) && direction != "response"@ && cfg.metadata is None
            && cfg.structured_metadata is None,
        cfg.metadata is Some && cfg.structured_metadata is None && cfg.header is None ==> dest_of(
            direction,
            cfg,
        ) is Ok,
        cfg.metadata is None && cfg.structured_metadata is Some && cfg.header is None ==> dest_of(
            direction,
            cfg,
        ) is Ok,
        cfg.metadata is None && cfg.structured_metadata is None && cfg.header is Some && direction
            == "request"@ && valid_name(cfg.header->0@) ==> dest_of(direction, cfg) is Ok,
        cfg.metadata is None && cfg.structured_metadata is None && cfg.header is None ==> dest_of(
            direction,
            cfg,
        ) is Err,
{
    reveal_strlit("request");
    reveal_strlit("response");
    assert("request"@.len() != "response"@.len());
}

/// A written value comes from where its one setting says; a fixed value or an
/// environment variable that is at fault is refused, and so is a setting that
/// names none or several.
pub proof fn law_value_sources(direction: Seq<char>, section: Seq<char>, cfg: PointerOpConfig)
    ensures
        source_of(direction, section, cfg) matches Ok(SourceView::Static(v)) ==> cfg.value is Some
            && v == cfg.value->0@ && cfg.source_fault is None && cfg.metadata is None
            && cfg.structured_metadata is None && cfg.env_var is None,
        source_of(direction, section, cfg) matches Ok(SourceView::Metadata(k)) ==> cfg.metadata
            is Some && k == cfg.metadata->0@ && cfg.value is None && cfg.structured_metadata is None
            && cfg.env_var is None,
        source_of(direction, section, cfg) matches Ok(SourceView::Structured(n, k))
            ==> cfg.structured_metadata is Some && n == cfg.structured_metadata->0.namespace@ && k
            == cfg.structured_metadata->0.key@ && cfg.value is None && cfg.metadata is None
            && cfg.env_var is None,
        source_of(direction, section, cfg) matches Ok(SourceView::EnvVar(v)) ==> cfg.env_var
            is Some && v == cfg.env_var->0@ && cfg.source_fault is None && cfg.value is None
            && cfg.metadata is None && cfg.structured_metadata is None,
        ({
            let value = cfg.value is Some;
            let key = cfg.metadata is Some;
            let structured = cfg.structured_metadata is Some;
            let env = cfg.env_var is Some;
            let one = (value && !key && !structured && !env) || (!value && key && !structured
                && !env) || (!value && !key && structured && !env) || (!value && !key && !structured
                && env);
            source_of(direction, section, cfg) is Ok <==> one && !((value || env)
                && cfg.source_fault is Some)
        }),
{
}

/// Accepted operations of a direction are the settings one for one: extractions
/// first, then additions, replacements and removals, each list in its order and
/// each at its own pointer, none of which is at fault.
pub proof fn law_operations_in_order(
    direction: Seq<char>,
    add: Seq<PointerOpConfig>,
    replace: Seq<PointerOpConfig>,
    remove: Seq<RemoveOpConfig>,
    extract: Seq<ExtractOpConfig>,
    build_fault: Option<String>,
    i: int,
)
    requires
        direction_ops(
            direction_results(direction, add, replace, remove, extract),
            build_fault,
        ) is Ok,
    ensures
        ({
            let ops = direction_ops(
                direction_results(direction, add, replace, remove, extract),
                build_fault,
            )->Ok_0;
            let adds = extract.len() as int;
            let replaces = adds + add.len();
            let removes = replaces + replace.len();
            &&& build_fault is None
            &&& ops.len() == removes + remove.len()
            &&& 0 <= i < adds ==> extract[i].pointer_fault is None && ops[i] == OpView::Extract(
                extract[i].pointer@,
                dest_of(direction, extract[i])->Ok_0,
            ) && dest_of(direction, extract[i]) is Ok
            &&& adds <= i < replaces ==> add[i - adds].pointer_fault is None && ops[i]
                == OpView::Add(
                add[i - adds].pointer@,
                source_of(direction, "add"@, add[i - adds])->Ok_0,
            ) && source_of(direction, "add"@, add[i - adds]) is Ok
            &&& replaces <= i < removes ==> replace[i - replaces].pointer_fault is None && ops[i]
                == OpView::Replace(
                replace[i - replaces].pointer@,
                source_of(direction, "replace"@, replace[i - replaces])->Ok_0,
            ) && source_of(direction, "replace"@, replace[i - replaces]) is Ok
            &&& removes <= i < ops.len() ==> remove[i - removes].pointer_fault is None && ops[i]
                == OpView::Remove(remove[i - removes].pointer@)
        }),
{
    let results = direction_results(direction, add, replace, remove, extract);
    let adds = extract.len() as int;
    let replaces = adds + add.len();
    let removes = replaces + replace.len();
    lemma_collected_len(results);
    if 0 <= i < results.len() {
        lemma_collected_members(results, i);
        if i < adds {
            assert(results[i] == extract_op(direction, extract[i]));
        } else if i < replaces {
            assert(results[i] == add_op(direction, add[i - adds]));
        } else if i < removes {
            assert(results[i] == replace_op(direction, replace[i - replaces]));
        } else {
            assert(results[i] == remove_op(remove[i - removes]));
        }
    }
}

/// The first setting that is refused decides, whatever follows it; settings of
/// which none is refused are accepted.
pub proof fn law_first_refused_setting(results: Seq<Result<OpView, Seq<char>>>, i: int)
    requires
        0 <= i <= results.len(),
        forall|j: int| 0 <= j < i ==> #[trigger] results[j] is Ok,
        i < results.len() ==> results[i] is Err,
    ensures
        i < results.len() ==> collected(results) == Err::<Seq<OpView>, Seq<char>>(
            results[i]->Err_0,
        ),
        i == results.len() ==> collected(results) is Ok,
    decreases results.len(),
{
    if results.len() > 0 {
        let front = results.drop_last();
        assert forall|j: int| 0 <= j < front.len() implies #[trigger] front[j] == results[j] by {}
        assert(results[results.len() - 1] == results.last());
        if i < results.len() {
            if i < front.len() {
                law_first_refused_setting(front, i);
            } else {
                law_first_refused_setting(front, front.len() as int);
            }
        } else {
            law_first_refused_setting(front, front.len() as int);
        }
    }
}

/// Settings are accepted only with a body bound that is, with no writing to
/// responses, and with at least one operation; and the operations are those of
/// each direction.
pub proof fn law_accepted_settings(
    cfg: JsonBodyConfig,
    limit_fault: Option<Seq<char>>,
    request_fault: Option<String>,
    response_fault: Option<String>,
)
    ensures
        ({
            let request = direction_ops(
                direction_results(
                    "request"@,
                    cfg.request_add@,
                    cfg.request_replace@,
                    cfg.request_remove@,
                    cfg.request_extract@,
                ),
                request_fault,
            );
            let response = direction_ops(
                direction_results(
                    "response"@,
                    Seq::empty(),
                    Seq::empty(),
                    cfg.response_remove@,
                    cfg.response_extract@,
                ),
                response_fault,
            );
            let built = built_ops(cfg, limit_fault, request_fault, response_fault);
            &&& built is Ok <==> limit_fault is None && cfg.response_add@.len() == 0
                && cfg.response_replace@.len() == 0 && request is Ok && response is Ok && (
            request->Ok_0.len() > 0 || response->Ok_0.len() > 0)
            &&& built matches Ok((on_request, on_response)) ==> on_request == request->Ok_0
                && on_response == response->Ok_0
            &&& limit_fault matches Some(m) ==> built == Err::<
                (Seq<OpView>, Seq<OpView>),
                Seq<char>,
            >(m)
        }),
{
}

/// A body is touched no more than its operations need: not at all without any,
/// read for extractions alone, and written only where one of them writes or drops
/// a value.
pub proof fn law_access_as_needed(ops: Seq<OpView>)
    ensures
        access_of(ops) == BodyAccess::Unused <==> ops.len() == 0,
        access_of(ops) == BodyAccess::ReadWrite <==> exists|i: int|
            0 <= i < ops.len() && (#[trigger] ops[i] is Add || ops[i] is Replace
                || ops[i] is Remove),
{
    if exists|i: int|
        0 <= i < ops.len() && (#[trigger] ops[i] is Add || ops[i] is Replace || ops[i] is Remove) {
        let i = choose|i: int|
            0 <= i < ops.len() && (#[trigger] ops[i] is Add || ops[i] is Replace
                || ops[i] is Remove);
        assert(!(ops[i] is Extract));
    }
    if access_of(ops) == BodyAccess::ReadWrite {
        let i = choose|i: int| 0 <= i < ops.len() && !(#[trigger] ops[i] is Extract);
        assert(ops[i] is Add || ops[i] is Replace || ops[i] is Remove);
    }
}

/// A rewritten response fits exactly where it did not grow; it then keeps its
/// bytes and is filled up with spaces.
pub proof fn law_response_fits(original_len: usize, bytes: Vec<u8>, r: Option<Vec<u8>>)
    requires
        call_ensures(fit_response, (original_len, bytes), r),
    ensures
        r is Some <==> bytes@.len() <= original_len,
        r matches Some(b) ==> b@.len() == original_len && b@.take(bytes@.len() as int) == bytes@
            && forall|i: int| bytes@.len() <= i < original_len ==> #[trigger] b@[i] == 32,
{
    if r is Some {
        assert(r->0@.take(bytes@.len() as int) =~= bytes@);
    }
}

/// Building keeps the bound and the behaviour on other bodies as configured, and
/// holds at least one operation.
pub proof fn law_built_operations(
    cfg: JsonBodyConfig,
    limit: Result<(), FilterError>,
    request_fault: Option<String>,
    response_fault: Option<String>,
    r: Result<(usize, OnInvalidBehavior, CompiledOps), FilterError>,
)
    requires
        call_ensures(build_ops, (&cfg, limit, request_fault, response_fault), r),
    ensures
        r is Ok ==> limit is Ok && request_fault is None && response_fault is None
            && cfg.response_add@.len() == 0 && cfg.response_replace@.len() == 0,
        r matches Ok((bound, on_invalid, ops)) ==> {
            &&& bound == cfg.max_body_bytes
            &&& on_invalid == cfg.on_invalid
            &&& ops.request@.len() == cfg.request_extract@.len() + cfg.request_add@.len()
                + cfg.request_replace@.len() + cfg.request_remove@.len()
            &&& ops.response@.len() == cfg.response_extract@.len() + cfg.response_remove@.len()
            &&& ops.request@.len() + ops.response@.len() > 0
        },
        limit matches Err(e) ==> r is Err && r->Err_0@ == e@,
{
    let limit_fault = match limit {
        Ok(()) => None,
        Err(e) => Some(e@),
    };
    law_accepted_settings(cfg, limit_fault, request_fault, response_fault);
    if r is Ok {
        let ops = r->Ok_0.2;
        law_operations_in_order(
            "request"@,
            cfg.request_add@,
            cfg.request_replace@,
            cfg.request_remove@,
            cfg.request_extract@,
            request_fault,
            0,
        );
        law_operations_in_order(
            "response"@,
            Seq::empty(),
            Seq::empty(),
            cfg.response_remove@,
            cfg.response_extract@,
            response_fault,
            0,
        );
        assert(op_views(ops.request@).len() == ops.request@.len());
        assert(op_views(ops.response@).len() == ops.response@.len());
    }
}

/// The words for settings that are refused: the filter, the section and the
/// pointer at fault.
pub proof fn law_refused_settings(
    direction: Seq<char>,
    section: Seq<char>,
    pointer: Seq<char>,
    header: Seq<char>,
    fault: Seq<char>,
)
    ensures
        engine_text(fault) == "json_body: "@ + fault,
        dest_count_text(direction, pointer) == "json_body: "@ + direction + "_extract pointer '"@
            + pointer
            + "' must set exactly one of 'metadata', 'structured_metadata', or 'header'"@,
        source_count_text(direction, section, pointer) == "json_body: "@ + direction + "_"@
            + section + " pointer '"@ + pointer
            + "' must set exactly one of 'value', 'metadata', 'structured_metadata', or 'env_var'"@,
        header_dest("response"@, pointer, header) == Err::<DestView, Seq<char>>(
            "json_body: response_extract pointer '"@ + pointer
                + "' cannot use 'header'; use metadata or structured_metadata"@,
        ),
        header.len() == 0 ==> header_dest("request"@, pointer, header) == Err::<
            DestView,
            Seq<char>,
        >(
            "json_body: "@ + "request"@ + "_extract pointer '"@ + pointer
                + "' 'header' must not be empty"@,
        ),
        header.len() > 0 && !valid_name(header) ==> header_dest("request"@, pointer, header)
            == Err::<DestView, Seq<char>>(
            "json_body: "@ + "request"@ + "_extract pointer '"@ + pointer
                + "' has invalid header name '"@ + header + "'"@,
        ),
{
    reveal_strlit("request");
    reveal_strlit("response");
    assert("request"@.len() != "response"@.len());
}

/// A setting without exactly one source is refused under the section it stands in.
pub proof fn law_sections_named(direction: Seq<char>, cfg: PointerOpConfig)
    requires
        cfg.value is None,
        cfg.metadata is None,
        cfg.structured_metadata is None,
        cfg.env_var is None,
    ensures
        add_op(direction, cfg) == Err::<OpView, Seq<char>>(
            source_count_text(direction, "add"@, cfg.pointer@),
        ),
        replace_op(direction, cfg) == Err::<OpView, Seq<char>>(
            source_count_text(direction, "replace"@, cfg.pointer@),
        ),
{
}

} // verus!
