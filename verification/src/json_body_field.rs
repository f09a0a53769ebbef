//! Promotes top-level fields of a JSON request body into request headers.

use serde_json::Value;
use vstd::prelude::*;

use crate::actions::pairs;
use crate::actions::FilterAction;
use crate::body::BodyAccess;
use crate::body::BodyMode;
use crate::error::FilterError;
use crate::headers::law_name_refusals;
use crate::headers::name_error;
use crate::headers::opt_text;
use crate::headers::valid_name;
use crate::headers::valid_value;
use crate::headers::validate_header_name;
use crate::headers::value_char;
use crate::json::find_member;
use crate::json::json_of;
use crate::json::json_text;
use crate::json::member;
use crate::json::member_trees;
use crate::json::parse_json;
use crate::json::render;
use crate::json::shape;
use crate::json::JsonShape;
use crate::json::JsonView;

verus! {

/// Bound, in bytes, on values promoted to headers or metadata.
pub const MAX_DYNAMIC_VALUE_LEN: usize = 256;

/// A control character that no header value may hold; the tab may.
pub open spec fn is_control(c: char) -> bool {
    ((c as u32) < 0x20 && c != '\t') || c as u32 == 0x7F
}

/// Whether a text holds a control character other than the tab.
pub open spec fn has_control(s: Seq<char>) -> bool {
    exists|i: int| 0 <= i < s.len() && is_control(#[trigger] s[i])
}

/// Whether a text holds a control character other than the tab.
pub fn contains_control_chars(value: &str) -> (r: bool)
    ensures
        r == has_control(value@),
{
    let chars = crate::text::chars_of(value);
    let mut i: usize = 0;
    while i < chars.len()
        invariant
            i <= chars@.len(),
            chars@ == value@,
            forall|k: int| 0 <= k < i ==> !is_control(#[trigger] chars@[k]),
        decreases chars@.len() - i,
    {
        let c: char = chars[i];
        if ((c as u32) < 0x20 && c != '\t') || c as u32 == 0x7F {
            proof {
                assert(is_control(value@[i as int]));
            }
            return true;
        }
        i += 1;
    }
    false
}

/// Whether a value may be promoted: short enough and without control characters.
pub open spec fn promotable(value: Seq<char>) -> bool {
    vstd::utf8::encode_utf8(value).len() <= MAX_DYNAMIC_VALUE_LEN && !has_control(value)
}

/// The header lines that fields with these values make, in the order of the
/// mappings. A field that is absent or cannot be promoted makes none.
pub open spec fn promoted(
    mappings: Seq<(Seq<char>, Seq<char>)>,
    values: Seq<Option<Seq<char>>>,
) -> Seq<(Seq<char>, Seq<char>)>
    decreases mappings.len(),
{
    if mappings.len() == 0 {
        Seq::empty()
    } else {
        let before = promoted(mappings.drop_last(), values);
        match values[mappings.len() - 1] {
            Some(value) => if promotable(value) {
                before.push((mappings.last().1, value))
            } else {
                before
            },
            None => before,
        }
    }
}

/// The optional texts, as values.
pub open spec fn opt_texts(v: Seq<Option<String>>) -> Seq<Option<Seq<char>>> {
    v.map_values(|t: Option<String>| opt_text(t))
}

/// Adds the header lines that fields with these values make, and says whether
/// there was one.
pub fn promote_values(
    mappings: &Vec<(String, String)>,
    values: &Vec<Option<String>>,
    headers: &mut Vec<(String, String)>,
) -> (r: bool)
    requires
        values@.len() == mappings@.len(),
    ensures
        pairs(final(headers)@) == pairs(old(headers)@) + promoted(
            pairs(mappings@),
            opt_texts(values@),
        ),
        r == (promoted(pairs(mappings@), opt_texts(values@)).len() > 0),
{
    let ghost maps = pairs(mappings@);
    let ghost vals = opt_texts(values@);
    let mut any: bool = false;
    let mut i: usize = 0;
    proof {
        assert(maps.take(0) =~= Seq::empty());
        assert(pairs(headers@) =~= pairs(old(headers)@) + promoted(maps.take(0), vals));
    }
    while i < mappings.len()
        invariant
            maps == pairs(mappings@),
            vals == opt_texts(values@),
            values@.len() == mappings@.len(),
            i <= mappings@.len(),
            pairs(headers@) == pairs(old(headers)@) + promoted(maps.take(i as int), vals),
            any == (promoted(maps.take(i as int), vals).len() > 0),
        decreases mappings@.len() - i,
    {
        proof {
            assert(maps.take(i + 1).drop_last() =~= maps.take(i as int));
            assert(maps.take(i + 1).last() == maps[i as int]);
            assert(vals[i as int] == opt_text(values@[i as int]));
        }
        if let Some(value) = &values[i] {
            if value.as_str().as_bytes().len() <= MAX_DYNAMIC_VALUE_LEN && !contains_control_chars(
                value.as_str(),
            ) {
                let ghost before = headers@;
                headers.push((mappings[i].1.clone(), value.clone()));
                any = true;
                proof {
                    assert(pairs(headers@) =~= pairs(before).push((maps[i as int].1, value@)));
                    assert(pairs(headers@) =~= pairs(old(headers)@) + promoted(
                        maps.take(i as int),
                        vals,
                    ).push((maps[i as int].1, value@)));
                }
            }
        }
        i += 1;
    }
    proof {
        assert(maps.take(maps.len() as int) =~= maps);
    }
    any
}

/// A field's value as text: a string decoded, anything else as JSON.
pub open spec fn field_value(
    members: Seq<(Seq<char>, JsonView)>,
    field: Seq<char>,
) -> Option<Seq<char>> {
    match member(members, field) {
        None => None,
        Some(JsonView::Str(s)) => Some(s),
        Some(value) => Some(json_text(value)),
    }
}

/// The values of the mapped fields, in the order of the mappings.
pub open spec fn field_values(
    members: Seq<(Seq<char>, JsonView)>,
    mappings: Seq<(Seq<char>, Seq<char>)>,
) -> Seq<Option<Seq<char>>> {
    mappings.map_values(|m: (Seq<char>, Seq<char>)| field_value(members, m.0))
}

fn read_fields(members: &Vec<(&String, &Value)>, mappings: &Vec<(String, String)>) -> (r: Vec<
    Option<String>,
>)
    ensures
        opt_texts(r@) == field_values(member_trees(members@), pairs(mappings@)),
{
    let mut out: Vec<Option<String>> = Vec::new();
    let mut i: usize = 0;
    while i < mappings.len()
        invariant
            i <= mappings@.len(),
            out@.len() == i,
            forall|k: int|
                0 <= k < i ==> opt_text(#[trigger] out@[k]) == field_value(
                    member_trees(members@),
                    mappings@[k].0@,
                ),
        decreases mappings@.len() - i,
    {
        let value = match find_member(members, mappings[i].0.as_str()) {
            None => None,
            Some(value) => match shape(value) {
                JsonShape::Str(s) => Some(s.clone()),
                _ => Some(render(value)),
            },
        };
        out.push(value);
        i += 1;
    }
    proof {
        assert(opt_texts(out@) =~= field_values(member_trees(members@), pairs(mappings@)));
    }
    out
}

/// The header lines that a body makes: none unless it is one JSON object.
pub open spec fn body_headers(
    mappings: Seq<(Seq<char>, Seq<char>)>,
    body: Seq<u8>,
) -> Seq<(Seq<char>, Seq<char>)> {
    match json_of(body) {
        Ok(JsonView::Object(members)) => promoted(mappings, field_values(members, mappings)),
        _ => Seq::empty(),
    }
}

/// Adds the header lines that a body makes, and says whether there was one.
pub fn extract_fields(
    mappings: &Vec<(String, String)>,
    body: &Vec<u8>,
    headers: &mut Vec<(String, String)>,
) -> (r: bool)
    ensures
        pairs(final(headers)@) == pairs(old(headers)@) + body_headers(pairs(mappings@), body@),
        r == (body_headers(pairs(mappings@), body@).len() > 0),
{
    proof {
        assert(pairs(headers@) + Seq::<(Seq<char>, Seq<char>)>::empty() =~= pairs(headers@));
    }
    match parse_json(body.as_slice()) {
        Ok(value) => match shape(&value) {
            JsonShape::Object(members) => {
                let values = read_fields(&members, mappings);
                proof {
                    assert(opt_texts(values@).len() == mappings@.len());
                }
                promote_values(mappings, &values, headers)
            },
            _ => false,
        },
        Err(_) => false,
    }
}

// Configuration.

/// A field and the header it is promoted to.
pub struct FieldMapping {
    /// Top-level field.
    pub field: String,
    /// Request header.
    pub header: String,
}

/// Filter settings: one field and header, or a list of them.
pub struct JsonBodyFieldConfig {
    /// Top-level field.
    pub field: Option<String>,
    /// Request header.
    pub header: Option<String>,
    /// Several fields and headers.
    pub fields: Option<Vec<FieldMapping>>,
    /// Bound on the body.
    pub max_body_bytes: usize,
}

/// Why a mapping is refused, if it is.
pub open spec fn mapping_error(field: Seq<char>, header: Seq<char>) -> Option<Seq<char>> {
    if field.len() == 0 {
        Some("json_body_field: 'field' must not be empty"@)
    } else {
        name_error("json_body_field: 'header'"@, header)
    }
}

/// Why a list of mappings is refused, if it is: the first fault in it.
pub open spec fn list_error(fields: Seq<FieldMapping>) -> Option<Seq<char>>
    decreases fields.len(),
{
    if fields.len() == 0 {
        None
    } else {
        match mapping_error(fields[0].field@, fields[0].header@) {
            Some(m) => Some(m),
            None => list_error(fields.skip(1)),
        }
    }
}

/// Why settings are refused, if they are.
pub open spec fn field_config_error(cfg: JsonBodyFieldConfig) -> Option<Seq<char>> {
    match cfg.fields {
        Some(fields) => if cfg.field is Some || cfg.header is Some {
            Some("json_body_field: use either 'field' and 'header' or 'fields', not both"@)
        } else if fields@.len() == 0 {
            Some("json_body_field: 'fields' must not be empty"@)
        } else {
            list_error(fields@)
        },
        None => match (cfg.field, cfg.header) {
            (None, _) => Some("json_body_field: 'field' is required"@),
            (Some(_), None) => Some("json_body_field: 'header' is required"@),
            (Some(field), Some(header)) => mapping_error(field@, header@),
        },
    }
}

/// The mappings of settings that are accepted.
pub open spec fn config_mappings(cfg: JsonBodyFieldConfig) -> Seq<(Seq<char>, Seq<char>)> {
    match cfg.fields {
        Some(fields) => fields@.map_values(|f: FieldMapping| (f.field@, f.header@)),
        None => seq![(cfg.field->0@, cfg.header->0@)],
    }
}

fn check_mapping(field: &str, header: &str) -> (r: Result<(), FilterError>)
    ensures
        match mapping_error(field@, header@) {
            None => r is Ok,
            Some(m) => r is Err && r->Err_0@ == m,
        },
{
    if field.is_empty() {
        return Err(FilterError::from_text("json_body_field: 'field' must not be empty"));
    }
    validate_header_name("json_body_field: 'header'", header)
}

/// The mappings of a configuration, in order.
pub fn build_mappings(cfg: &JsonBodyFieldConfig) -> (r: Result<Vec<(String, String)>, FilterError>)
    ensures
        match field_config_error(*cfg) {
            None => r is Ok && pairs(r->Ok_0@) == config_mappings(*cfg),
            Some(m) => r is Err && r->Err_0@ == m,
        },
{
    match &cfg.fields {
        Some(fields) => {
            if cfg.field.is_some() || cfg.header.is_some() {
                return Err(
                    FilterError::from_text(
                        "json_body_field: use either 'field' and 'header' or 'fields', not both",
                    ),
                );
            }
            if fields.len() == 0 {
                return Err(FilterError::from_text("json_body_field: 'fields' must not be empty"));
            }
            let mut out: Vec<(String, String)> = Vec::new();
            let mut i: usize = 0;
            proof {
                assert(fields@.skip(0) =~= fields@);
            }
            while i < fields.len()
                invariant
                    i <= fields@.len(),
                    list_error(fields@.skip(i as int)) == list_error(fields@),
                    field_config_error(*cfg) == list_error(fields@),
                    out@.len() == i,
                    forall|k: int|
                        0 <= k < i ==> (#[trigger] out@[k]).0@ == fields@[k].field@ && out@[k].1@
                            == fields@[k].header@,
                decreases fields@.len() - i,
            {
                proof {
                    assert(fields@.skip(i as int)[0] == fields@[i as int]);
                    assert(fields@.skip(i as int).skip(1) =~= fields@.skip(i + 1));
                }
                match check_mapping(fields[i].field.as_str(), fields[i].header.as_str()) {
                    Err(e) => {
                        return Err(e);
                    },
                    Ok(()) => {},
                }
                out.push((fields[i].field.clone(), fields[i].header.clone()));
                i += 1;
            }
            proof {
                assert(pairs(out@) =~= config_mappings(*cfg));
            }
            Ok(out)
        },
        None => match (&cfg.field, &cfg.header) {
            (None, _) => Err(FilterError::from_text("json_body_field: 'field' is required")),
            (Some(_), None) => Err(
                FilterError::from_text("json_body_field: 'header' is required"),
            ),
            (Some(field), Some(header)) => {
                match check_mapping(field.as_str(), header.as_str()) {
                    Err(e) => {
                        return Err(e);
                    },
                    Ok(()) => {},
                }
                let mut out: Vec<(String, String)> = Vec::new();
                out.push((field.clone(), header.clone()));
                proof {
                    assert(pairs(out@) =~= config_mappings(*cfg));
                }
                Ok(out)
            },
        },
    }
}

/// Promotes top-level fields of a JSON request body into request headers.
pub struct JsonBodyFieldFilter {
    /// Bound on the body.
    pub max_body_bytes: usize,
    /// Fields and the headers they are promoted to.
    pub mappings: Vec<(String, String)>,
}

/// What the filter reads and leaves on a request.
pub struct PromotionContext {
    /// Whether this filter already promoted fields of this request.
    pub promoted: bool,
    /// Headers added to the upstream request.
    pub extra_request_headers: Vec<(String, String)>,
}

/// What the filter leaves on a request, as values.
pub ghost struct PromotionView {
    /// Whether fields were promoted.
    pub promoted: bool,
    /// Headers added to the upstream request.
    pub headers: Seq<(Seq<char>, Seq<char>)>,
}

/// What the filter leaves on a request.
pub open spec fn promotion_view(ctx: PromotionContext) -> PromotionView {
    PromotionView { promoted: ctx.promoted, headers: pairs(ctx.extra_request_headers@) }
}

/// What the body hook leaves: the lines that the complete body makes, unless
/// lines were promoted before.
pub open spec fn after_body(
    mappings: Seq<(Seq<char>, Seq<char>)>,
    before: PromotionView,
    body: Option<Seq<u8>>,
    end_of_stream: bool,
) -> PromotionView {
    if before.promoted || !end_of_stream || body is None || body_headers(mappings, body->0).len()
        == 0 {
        before
    } else {
        PromotionView {
            promoted: true,
            headers: before.headers + body_headers(mappings, body->0),
        }
    }
}

impl JsonBodyFieldFilter {
    /// Builds the filter.
    pub fn from_config(cfg: JsonBodyFieldConfig) -> (r: Result<JsonBodyFieldFilter, FilterError>)
        ensures
            match field_config_error(cfg) {
                None => r is Ok && r->Ok_0.max_body_bytes == cfg.max_body_bytes && pairs(
                    r->Ok_0.mappings@,
                ) == config_mappings(cfg),
                Some(m) => r is Err && r->Err_0@ == m,
            },
    {
        match build_mappings(&cfg) {
            Ok(mappings) => Ok(
                JsonBodyFieldFilter { max_body_bytes: cfg.max_body_bytes, mappings },
            ),
            Err(e) => Err(e),
        }
    }

    /// The filter's name.
    pub fn name(&self) -> (r: &'static str)
        ensures
            r@ == "json_body_field"@,
    {
        "json_body_field"
    }

    /// The filter reads the request body.
    pub fn request_body_access(&self) -> (r: BodyAccess)
        ensures
            r == BodyAccess::ReadOnly,
    {
        BodyAccess::ReadOnly
    }

    /// The request body is buffered up to the bound.
    pub fn request_body_mode(&self) -> (r: BodyMode)
        ensures
            r == (BodyMode::StreamBuffer { max_bytes: Some(self.max_body_bytes) }),
    {
        BodyMode::StreamBuffer { max_bytes: Some(self.max_body_bytes) }
    }

    /// The request-header hook does nothing.
    pub fn on_request(&self) -> (r: FilterAction<()>)
        ensures
            r is Continue,
    {
        FilterAction::Continue
    }

    /// The request-body hook: promotes fields of the complete body, once.
    pub fn on_request_body(
        &self,
        ctx: &mut PromotionContext,
        body: &Option<Vec<u8>>,
        end_of_stream: bool,
    ) -> (r: FilterAction<()>)
        ensures
            promotion_view(*final(ctx)) == after_body(
                pairs(self.mappings@),
                promotion_view(*old(ctx)),
                match *body {
                    Some(b) => Some(b@),
                    None => None,
                },
                end_of_stream,
            ),
            final(ctx).promoted ==> r is BodyDone,
            !final(ctx).promoted ==> r is Continue,
    {
        if ctx.promoted {
            return FilterAction::BodyDone;
        }
        if !end_of_stream {
            return FilterAction::Continue;
        }
        match body {
            None => FilterAction::Continue,
            Some(chunk) => {
                if extract_fields(&self.mappings, chunk, &mut ctx.extra_request_headers) {
                    ctx.promoted = true;
                    FilterAction::BodyDone
                } else {
                    proof {
                        let lines = body_headers(pairs(self.mappings@), chunk@);
                        assert(pairs(old(ctx).extra_request_headers@) + lines =~= pairs(
                            old(ctx).extra_request_headers@,
                        ));
                    }
                    FilterAction::Continue
                }
            },
        }
    }
}

/// Fields are promoted once: a body hook that runs again, with whatever body,
/// adds nothing.
pub proof fn law_promoted_once(
    mappings: Seq<(Seq<char>, Seq<char>)>,
    before: PromotionView,
    body: Option<Seq<u8>>,
    end_of_stream: bool,
    later_body: Option<Seq<u8>>,
    later_end: bool,
)
    requires
        after_body(mappings, before, body, end_of_stream).promoted,
    ensures
        after_body(
            mappings,
            after_body(mappings, before, body, end_of_stream),
            later_body,
            later_end,
        ) == after_body(mappings, before, body, end_of_stream),
{
}

/// Nothing is promoted before the whole body is known, whatever the chunks hold.
pub proof fn law_prefix_not_promoted(
    mappings: Seq<(Seq<char>, Seq<char>)>,
    before: PromotionView,
    chunk: Option<Seq<u8>>,
)
    ensures
        after_body(mappings, before, chunk, false) == before,
{
}

/// Every promoted value can be sent as a header value, and every promoted line
/// names the header of some mapping.
pub proof fn law_promoted_values_safe(
    mappings: Seq<(Seq<char>, Seq<char>)>,
    values: Seq<Option<Seq<char>>>,
)
    ensures
        promoted(mappings, values).len() <= mappings.len(),
        forall|i: int|
            0 <= i < promoted(mappings, values).len() ==> promotable(
                (#[trigger] promoted(mappings, values)[i]).1,
            ) && valid_value(promoted(mappings, values)[i].1) && exists|k: int|
                0 <= k < mappings.len() && (#[trigger] mappings[k]).1 == promoted(
                    mappings,
                    values,
                )[i].0 && values[k] == Some(promoted(mappings, values)[i].1),
    decreases mappings.len(),
{
    if mappings.len() > 0 {
        let front = mappings.drop_last();
        let before = promoted(front, values);
        let all = promoted(mappings, values);
        law_promoted_values_safe(front, values);
        assert forall|i: int| 0 <= i < all.len() implies promotable((#[trigger] all[i]).1)
            && valid_value(all[i].1) && exists|k: int|
            0 <= k < mappings.len() && (#[trigger] mappings[k]).1 == all[i].0 && values[k] == Some(
                all[i].1,
            ) by {
            if i < before.len() {
                assert(all[i] == before[i]);
                let k = choose|k: int|
                    0 <= k < front.len() && (#[trigger] front[k]).1 == before[i].0 && values[k]
                        == Some(before[i].1);
                assert(mappings[k].1 == all[i].0);
            } else {
                assert(mappings[mappings.len() - 1].1 == all[i].0);
                let value = all[i].1;
                assert forall|j: int| 0 <= j < value.len() implies value_char(
                    #[trigger] value[j],
                ) by {
                    assert(!is_control(value[j]));
                }
            }
        }
    }
}

/// A value is promoted exactly where it takes at most 256 bytes and holds no
/// control character but the tab.
pub proof fn law_promotable(value: Seq<char>)
    ensures
        promotable(value) <==> vstd::utf8::encode_utf8(value).len() <= 256 && forall|i: int|
            0 <= i < value.len() ==> (#[trigger] value[i] == '\t' || (value[i] > '\u{1f}' && value[i]
                != '\u{7f}')),
{
    assert forall|i: int| 0 <= i < value.len() implies (is_control(#[trigger] value[i]) <==> !(value[i]
        == '\t' || (value[i] > '\u{1f}' && value[i] != '\u{7f}'))) by {
        lemma_control_char(value[i]);
    }
    if promotable(value) {
        assert forall|i: int| 0 <= i < value.len() implies (#[trigger] value[i] == '\t' || (value[i]
            > '\u{1f}' && value[i] != '\u{7f}')) by {
            assert(!is_control(value[i]));
        }
    }
}

proof fn lemma_control_char(c: char)
    ensures
        is_control(c) <==> !(c == '\t' || (c > '\u{1f}' && c != '\u{7f}')),
{
}

/// Each mapping whose field has a value that may be promoted makes one line, its
/// header with that value, in the order of the mappings; the others make none.
pub proof fn law_promoted_in_order(
    mappings: Seq<(Seq<char>, Seq<char>)>,
    values: Seq<Option<Seq<char>>>,
)
    ensures
        promoted(mappings, values) == Seq::new(
            mappings.len(),
            |i: int| (mappings[i].1, values[i]),
        ).filter(
            |p: (Seq<char>, Option<Seq<char>>)| p.1 is Some && promotable(p.1->0),
        ).map_values(|p: (Seq<char>, Option<Seq<char>>)| (p.0, p.1->0)),
    decreases mappings.len(),
{
    let all = Seq::new(mappings.len(), |i: int| (mappings[i].1, values[i]));
    let keep = |p: (Seq<char>, Option<Seq<char>>)| p.1 is Some && promotable(p.1->0);
    let line = |p: (Seq<char>, Option<Seq<char>>)| (p.0, p.1->0);
    reveal(Seq::filter);
    if mappings.len() > 0 {
        let front = mappings.drop_last();
        let before = Seq::new(front.len(), |i: int| (front[i].1, values[i]));
        law_promoted_in_order(front, values);
        assert(all.drop_last() =~= before);
        assert(all.last() == (mappings.last().1, values[mappings.len() - 1]));
        let kept = before.filter(keep);
        assert(kept.push(all.last()).map_values(line) =~= kept.map_values(line).push(
            line(all.last()),
        ));
    } else {
        assert(all.filter(keep).map_values(line) =~= Seq::empty());
    }
}

/// A complete body that is a JSON object promotes each mapped field that it has,
/// where the value may be promoted: a string as it is, anything else as JSON. A
/// body that is no JSON object promotes nothing.
pub proof fn law_body_fields_promoted(
    mappings: Seq<(Seq<char>, Seq<char>)>,
    body: Seq<u8>,
    k: int,
)
    requires
        0 <= k < mappings.len(),
    ensures
        ({
            let read = json_of(body);
            let is_object = read is Ok && read->Ok_0 is Object;
            let found = member(read->Ok_0->Object_0, mappings[k].0);
            let text = if found is Some && found->0 is Str {
                found->0->Str_0
            } else {
                json_text(found->0)
            };
            &&& !is_object ==> body_headers(mappings, body).len() == 0
            &&& is_object && found is Some && promotable(text) ==> body_headers(
                mappings,
                body,
            ).contains((mappings[k].1, text))
        }),
{
    let read = json_of(body);
    if read is Ok && read->Ok_0 is Object {
        let members = read->Ok_0->Object_0;
        let values = field_values(members, mappings);
        let found = member(members, mappings[k].0);
        if found is Some {
            let text = if found->0 is Str {
                found->0->Str_0
            } else {
                json_text(found->0)
            };
            assert(values[k] == Some(text));
            if promotable(text) {
                lemma_promoted_contains(mappings, values, k, text);
            }
        }
    }
}

proof fn lemma_promoted_contains(
    mappings: Seq<(Seq<char>, Seq<char>)>,
    values: Seq<Option<Seq<char>>>,
    k: int,
    text: Seq<char>,
)
    requires
        0 <= k < mappings.len(),
        values[k] == Some(text),
        promotable(text),
    ensures
        promoted(mappings, values).contains((mappings[k].1, text)),
    decreases mappings.len(),
{
    let all = promoted(mappings, values);
    let before = promoted(mappings.drop_last(), values);
    if k == mappings.len() - 1 {
        assert(all[before.len() as int] == (mappings[k].1, text));
    } else {
        lemma_promoted_contains(mappings.drop_last(), values, k, text);
        let i = choose|i: int| 0 <= i < before.len() && before[i] == (mappings[k].1, text);
        assert(all[i] == before[i]);
    }
}

/// The first complete body that makes a line ends the filter's work: its lines
/// come behind those already there.
pub proof fn law_complete_body_promotes(
    mappings: Seq<(Seq<char>, Seq<char>)>,
    before: PromotionView,
    body: Seq<u8>,
)
    requires
        !before.promoted,
        body_headers(mappings, body).len() > 0,
    ensures
        after_body(mappings, before, Some(body), true).promoted,
        after_body(mappings, before, Some(body), true).headers == before.headers + body_headers(
            mappings,
            body,
        ),
        after_body(mappings, before, None, true) == before,
{
}

proof fn lemma_list_error(fields: Seq<FieldMapping>)
    ensures
        list_error(fields) is None <==> forall|i: int|
            0 <= i < fields.len() ==> (#[trigger] fields[i]).field@.len() > 0 && valid_name(
                fields[i].header@,
            ),
    decreases fields.len(),
{
    if fields.len() > 0 {
        let rest = fields.skip(1);
        lemma_list_error(rest);
        law_name_refusals("json_body_field: 'header'"@, fields[0].header@);
        if mapping_error(fields[0].field@, fields[0].header@) is None {
            if list_error(fields) is None {
                assert forall|i: int| 0 <= i < fields.len() implies (
                #[trigger] fields[i]).field@.len() > 0 && valid_name(fields[i].header@) by {
                    if i > 0 {
                        assert(rest[i - 1] == fields[i]);
                    }
                }
            } else {
                let k = choose|k: int|
                    0 <= k < rest.len() && !((#[trigger] rest[k]).field@.len() > 0 && valid_name(
                        rest[k].header@,
                    ));
                assert(fields[k + 1] == rest[k]);
            }
        } else {
            assert(!(fields[0].field@.len() > 0 && valid_name(fields[0].header@)));
        }
    }
}

/// Settings are accepted exactly where they name one field and its header, or a
/// list of them that is not empty, not both, every field with a name and every
/// header with a valid one; the mappings then are these, in order.
pub proof fn law_accepted_mappings(cfg: JsonBodyFieldConfig)
    ensures
        field_config_error(cfg) is None <==> {
            ||| cfg.fields is None && cfg.field is Some && cfg.header is Some
                && cfg.field->0@.len() > 0 && valid_name(cfg.header->0@)
            ||| cfg.fields is Some && cfg.field is None && cfg.header is None
                && cfg.fields->0@.len() > 0 && forall|i: int|
                0 <= i < cfg.fields->0@.len() ==> (#[trigger] cfg.fields->0@[i]).field@.len() > 0
                    && valid_name(cfg.fields->0@[i].header@)
        },
        cfg.fields is None ==> config_mappings(cfg).len() == 1 && config_mappings(cfg)[0] == (
            cfg.field->0@,
            cfg.header->0@,
        ),
        cfg.fields matches Some(list) ==> config_mappings(cfg).len() == list@.len() && forall|
            i: int,
        |
            0 <= i < list@.len() ==> #[trigger] config_mappings(cfg)[i] == (
                list@[i].field@,
                list@[i].header@,
            ),
{
    if cfg.fields is Some {
        lemma_list_error(cfg.fields->0@);
    } else if cfg.header is Some {
        law_name_refusals("json_body_field: 'header'"@, cfg.header->0@);
    }
}

/// The filter promotes once per request: the hook that first makes a line is done
/// with the body, and every hook after it adds nothing, whatever it sees.
pub proof fn law_promotes_once(
    filter: JsonBodyFieldFilter,
    ctx: &mut PromotionContext,
    body: Option<Vec<u8>>,
    end_of_stream: bool,
    first: FilterAction<()>,
    later_ctx: &mut PromotionContext,
    later_body: Option<Vec<u8>>,
    later_end: bool,
    second: FilterAction<()>,
)
    requires
        call_ensures(
            JsonBodyFieldFilter::on_request_body,
            (&filter, ctx, &body, end_of_stream),
            first,
        ),
        *old(later_ctx) == *final(ctx),
        call_ensures(
            JsonBodyFieldFilter::on_request_body,
            (&filter, later_ctx, &later_body, later_end),
            second,
        ),
    ensures
        first is BodyDone <==> final(ctx).promoted,
        !end_of_stream || body is None ==> pairs(final(ctx).extra_request_headers@) == pairs(
            old(ctx).extra_request_headers@,
        ) && final(ctx).promoted == old(ctx).promoted,
        final(ctx).promoted ==> second is BodyDone && pairs(
            final(later_ctx).extra_request_headers@,
        ) == pairs(final(ctx).extra_request_headers@),
        end_of_stream && body is Some && !old(ctx).promoted ==> {
            &&& pairs(final(ctx).extra_request_headers@) == pairs(old(ctx).extra_request_headers@)
                + body_headers(pairs(filter.mappings@), body->0@)
            &&& final(ctx).promoted <==> body_headers(pairs(filter.mappings@), body->0@).len() > 0
        },
{
    let before = promotion_view(*old(ctx));
    let after = promotion_view(*final(ctx));
    let later = promotion_view(*final(later_ctx));
    assert(before.headers == pairs(old(ctx).extra_request_headers@));
    assert(after.headers == pairs(final(ctx).extra_request_headers@));
    assert(later.headers == pairs(final(later_ctx).extra_request_headers@));
    if end_of_stream && body is Some && !old(ctx).promoted {
        let lines = body_headers(pairs(filter.mappings@), body->0@);
        if lines.len() == 0 {
            assert(before.headers + lines =~= before.headers);
        }
    }
}

/// The words for settings that are refused.
pub proof fn law_refused_mappings(cfg: JsonBodyFieldConfig)
    ensures
        cfg.fields is Some && (cfg.field is Some || cfg.header is Some) ==> field_config_error(cfg)
            == Some("json_body_field: use either 'field' and 'header' or 'fields', not both"@),
        cfg.fields is Some && cfg.field is None && cfg.header is None && cfg.fields->0@.len() == 0
            ==> field_config_error(cfg) == Some("json_body_field: 'fields' must not be empty"@),
        cfg.fields is None && cfg.field is None ==> field_config_error(cfg) == Some(
            "json_body_field: 'field' is required"@,
        ),
        cfg.fields is None && cfg.field is Some && cfg.header is None ==> field_config_error(cfg)
            == Some("json_body_field: 'header' is required"@),
        cfg.fields is None && cfg.field is Some && cfg.header is Some && cfg.field->0@.len() == 0
            ==> field_config_error(cfg) == Some("json_body_field: 'field' must not be empty"@),
{
}

/// The words for a mapping that is refused, and which of several is reported: the
/// first.
pub proof fn law_first_refused_mapping(fields: Seq<FieldMapping>, i: int)
    requires
        0 <= i < fields.len(),
        forall|j: int|
            0 <= j < i ==> (#[trigger] fields[j]).field@.len() > 0 && valid_name(
                fields[j].header@,
            ),
    ensures
        fields[i].field@.len() == 0 ==> list_error(fields) == Some(
            "json_body_field: 'field' must not be empty"@,
        ),
        fields[i].field@.len() > 0 && fields[i].header@.len() == 0 ==> list_error(fields) == Some(
            "json_body_field: 'header'"@ + " header name must not be empty"@,
        ),
        fields[i].field@.len() > 0 && fields[i].header@.len() > 0 && !valid_name(
            fields[i].header@,
        ) ==> list_error(fields) == Some(
            "json_body_field: 'header'"@ + " '"@ + fields[i].header@
                + "' is not a valid HTTP header name"@,
        ),
    decreases i,
{
    law_name_refusals("json_body_field: 'header'"@, fields[i].header@);
    if i > 0 {
        law_name_refusals("json_body_field: 'header'"@, fields[0].header@);
        let rest = fields.skip(1);
        assert forall|j: int| 0 <= j < i - 1 implies (#[trigger] rest[j]).field@.len() > 0
            && valid_name(rest[j].header@) by {
            assert(rest[j] == fields[j + 1]);
        }
        law_first_refused_mapping(rest, i - 1);
    }
}

} // verus!
