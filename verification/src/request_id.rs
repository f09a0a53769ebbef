//! Request ids: kept where the client supplied one, generated otherwise.

use vstd::prelude::*;

use crate::actions::pairs;
use crate::actions::FilterAction;
use crate::error::FilterError;
use crate::headers::all_values;
use crate::headers::first_value;
use crate::headers::law_absent_header;
use crate::headers::law_first_line_counts;
use crate::headers::law_replaced_header;
use crate::headers::name_error;
use crate::headers::opt_text;
use crate::headers::opt_value_text;
use crate::headers::parse_header_name;
use crate::headers::parse_header_value;
use crate::headers::readable_byte;
use crate::headers::valid_name;
use crate::headers::valid_value;
use crate::headers::value_char;
use crate::headers::value_text;
use crate::headers::validate_header_name;
use crate::headers::without_name;
use crate::headers::HeaderMap;
use crate::text::lower;
use crate::text::to_lower;

verus! {

/// The header that carries the id where none is configured.
pub fn default_header_name() -> (r: String)
    ensures
        r@ == "X-Request-ID"@,
{
    "X-Request-ID".to_owned()
}

/// Forwards a request id to the upstream, and a client's id back to it.
pub struct RequestIdFilter {
    /// Header that carries the id.
    pub header_name: String,
}

/// What the filter reads and leaves on a request.
pub struct RequestIdContext {
    /// The id that the client supplied, if any.
    pub client_supplied: Option<String>,
    /// Headers added to the upstream request.
    pub extra_request_headers: Vec<(String, String)>,
}

/// The id in the client's headers, if it is readable.
pub open spec fn supplied_id(
    lines: Seq<(Seq<char>, Seq<u8>)>,
    header_name: Seq<char>,
) -> Option<Seq<char>> {
    opt_value_text(first_value(lines, lower(header_name)))
}

/// The client's id on record after the request hook.
pub open spec fn noted(
    lines: Seq<(Seq<char>, Seq<u8>)>,
    header_name: Seq<char>,
    before: Option<Seq<char>>,
) -> Option<Seq<char>> {
    match supplied_id(lines, header_name) {
        Some(id) => Some(id),
        None => before,
    }
}

impl RequestIdFilter {
    /// Builds the filter.
    pub fn from_config(header_name: String) -> (r: Result<RequestIdFilter, FilterError>)
        ensures
            match name_error("request_id: 'header_name'"@, header_name@) {
                None => r is Ok && r->Ok_0.header_name@ == header_name@,
                Some(m) => r is Err && r->Err_0@ == m,
            },
    {
        match validate_header_name("request_id: 'header_name'", header_name.as_str()) {
            Ok(()) => Ok(RequestIdFilter { header_name }),
            Err(e) => Err(e),
        }
    }

    /// The filter's name.
    pub fn name(&self) -> (r: &'static str)
        ensures
            r@ == "request_id"@,
    {
        "request_id"
    }

    /// The id in the client's headers, if it is readable.
    pub fn client_id(&self, headers: &HeaderMap) -> (r: Option<String>)
        ensures
            opt_text(r) == supplied_id(headers@, self.header_name@),
    {
        headers.first_text(to_lower(self.header_name.as_str()).as_str())
    }

    /// The request hook: forwards the client's id, or `generated` where the
    /// client supplied none, and notes which of the two it was.
    pub fn on_request(&self, ctx: &mut RequestIdContext, headers: &HeaderMap, generated: String)
        -> (r: FilterAction<()>)
        ensures
            r is Continue,
            ({
                let supplied = supplied_id(headers@, self.header_name@);
                let id = match supplied {
                    Some(text) => text,
                    None => generated@,
                };
                &&& pairs(final(ctx).extra_request_headers@) == pairs(
                    old(ctx).extra_request_headers@,
                ).push((self.header_name@, id))
                &&& opt_text(final(ctx).client_supplied) == noted(
                    headers@,
                    self.header_name@,
                    opt_text(old(ctx).client_supplied),
                )
            }),
    {
        let id = match self.client_id(headers) {
            Some(id) => {
                ctx.client_supplied = Some(id.clone());
                id
            },
            None => generated,
        };
        let ghost before = ctx.extra_request_headers@;
        ctx.extra_request_headers.push((self.header_name.clone(), id));
        proof {
            assert(pairs(ctx.extra_request_headers@) =~= pairs(before).push(
                (self.header_name@, id@),
            ));
        }
        FilterAction::Continue
    }

    /// The value that goes back to the client: its own id, where it can be a
    /// header value.
    pub fn resolve_response_id(&self, ctx: &RequestIdContext) -> (r: Option<Vec<u8>>)
        ensures
            r is Some <==> ctx.client_supplied is Some && valid_value(ctx.client_supplied->0@),
            r matches Some(v) ==> v@ == vstd::utf8::encode_utf8(ctx.client_supplied->0@),
    {
        match &ctx.client_supplied {
            Some(id) => parse_header_value(id.as_str()),
            None => None,
        }
    }

    /// Sets the id on a response, where the header name can be one.
    pub fn insert_response_header(&self, response: &mut HeaderMap, value: Vec<u8>)
        ensures
            final(response)@ == if valid_name(self.header_name@) {
                without_name(old(response)@, lower(self.header_name@)).push(
                    (lower(self.header_name@), value@),
                )
            } else {
                old(response)@
            },
    {
        match parse_header_name(self.header_name.as_str()) {
            Some(_) => {
                response.insert(self.header_name.as_str(), value);
            },
            None => {},
        }
    }

    /// The response hook: echoes the client's own id.
    pub fn on_response(&self, ctx: &RequestIdContext, response: &mut HeaderMap) -> (r: FilterAction<
        (),
    >)
        ensures
            r is Continue,
            final(response)@ == echoed(self.header_name@, opt_text(ctx.client_supplied), old(
                response,
            )@),
    {
        match self.resolve_response_id(ctx) {
            Some(value) => {
                self.insert_response_header(response, value);
            },
            None => {},
        }
        FilterAction::Continue
    }
}

/// The response headers after the client's id was echoed.
pub open spec fn echoed(
    header_name: Seq<char>,
    client_supplied: Option<Seq<char>>,
    lines: Seq<(Seq<char>, Seq<u8>)>,
) -> Seq<(Seq<char>, Seq<u8>)> {
    match client_supplied {
        Some(id) => if valid_value(id) && valid_name(header_name) {
            without_name(lines, lower(header_name)).push(
                (lower(header_name), vstd::utf8::encode_utf8(id)),
            )
        } else {
            lines
        },
        None => lines,
    }
}

/// A generated id is never echoed: where the client supplied none, the response
/// keeps its headers.
pub proof fn law_generated_id_not_echoed(
    header_name: Seq<char>,
    request: Seq<(Seq<char>, Seq<u8>)>,
    response: Seq<(Seq<char>, Seq<u8>)>,
)
    requires
        supplied_id(request, header_name) is None,
    ensures
        echoed(header_name, noted(request, header_name, None), response) == response,
{
}

/// The client's own id goes back to it byte for byte.
pub proof fn law_client_id_echoed(
    header_name: Seq<char>,
    value: Seq<u8>,
    request: Seq<(Seq<char>, Seq<u8>)>,
    response: Seq<(Seq<char>, Seq<u8>)>,
)
    requires
        valid_name(header_name),
        first_value(request, lower(header_name)) == Some(value),
        value_text(value) is Some,
    ensures
        echoed(header_name, noted(request, header_name, None), response) == without_name(
            response,
            lower(header_name),
        ).push((lower(header_name), value)),
{
    let id = value_text(value)->0;
    assert forall|i: int| 0 <= i < id.len() implies value_char(#[trigger] id[i]) by {
        assert(readable_byte(value[i]));
    }
    assert(vstd::utf8::is_ascii_chars(id)) by {
        assert forall|i: int| 0 <= i < id.len() implies '\0' <= #[trigger] id[i] <= '\u{7f}' by {
            assert(readable_byte(value[i]));
        }
    }
    vstd::utf8::is_ascii_chars_encode_utf8(id);
    assert(vstd::utf8::encode_utf8(id) =~= value);
}

/// The client's id is the text on the first line of the configured header,
/// whatever the case of the configured name; where that line is not readable
/// there is none, whatever lines follow.
pub proof fn law_first_id_counts(
    lines: Seq<(Seq<char>, Seq<u8>)>,
    header_name: Seq<char>,
    before: Option<Seq<char>>,
    i: int,
)
    requires
        0 <= i < lines.len(),
        lines[i].0 == lower(header_name),
        forall|j: int| 0 <= j < i ==> (#[trigger] lines[j]).0 != lower(header_name),
    ensures
        supplied_id(lines, header_name) == value_text(lines[i].1),
        noted(lines, header_name, before) == if value_text(lines[i].1) is Some {
            value_text(lines[i].1)
        } else {
            before
        },
{
    law_first_line_counts(lines, lower(header_name), i);
}

/// Without a line of the configured header the client supplied no id, and what
/// was noted before stays.
pub proof fn law_no_id_supplied(
    lines: Seq<(Seq<char>, Seq<u8>)>,
    header_name: Seq<char>,
    before: Option<Seq<char>>,
)
    requires
        forall|j: int| 0 <= j < lines.len() ==> (#[trigger] lines[j]).0 != lower(header_name),
    ensures
        supplied_id(lines, header_name) is None,
        noted(lines, header_name, before) == before,
{
    law_absent_header(lines, lower(header_name));
}

/// Echoing an id touches the id's header alone: every other header of the
/// response keeps its values, and an id that cannot be a header value changes
/// nothing.
pub proof fn law_echo_is_local(
    header_name: Seq<char>,
    id: Seq<char>,
    response: Seq<(Seq<char>, Seq<u8>)>,
    other: Seq<char>,
)
    requires
        other != lower(header_name),
    ensures
        all_values(echoed(header_name, Some(id), response), other) == all_values(response, other),
        valid_name(header_name) && valid_value(id) ==> all_values(
            echoed(header_name, Some(id), response),
            lower(header_name),
        ) == seq![vstd::utf8::encode_utf8(id)],
        !valid_value(id) ==> echoed(header_name, Some(id), response) == response,
{
    law_replaced_header(response, lower(header_name), vstd::utf8::encode_utf8(id), other);
}

/// The upstream gets one id under the configured name: the client's own where it
/// supplied a readable one, and else the generated one, which is not noted as the
/// client's.
pub proof fn law_one_id_forwarded(
    filter: RequestIdFilter,
    ctx: &mut RequestIdContext,
    headers: HeaderMap,
    generated: String,
    r: FilterAction<()>,
)
    requires
        call_ensures(RequestIdFilter::on_request, (&filter, ctx, &headers, generated), r),
    ensures
        ({
            let before = pairs(old(ctx).extra_request_headers@);
            let after = pairs(final(ctx).extra_request_headers@);
            let own = opt_value_text(first_value(headers@, lower(filter.header_name@)));
            &&& r is Continue
            &&& after.len() == before.len() + 1
            &&& after.drop_last() == before
            &&& after.last().0 == filter.header_name@
            &&& own is Some ==> after.last().1 == own->0
            &&& own is None ==> after.last().1 == generated@
            &&& own is Some ==> final(ctx).client_supplied is Some
                && final(ctx).client_supplied->0@ == own->0
            &&& own is None ==> opt_text(final(ctx).client_supplied) == opt_text(
                old(ctx).client_supplied,
            )
        }),
{
    assert(pairs(final(ctx).extra_request_headers@).drop_last() =~= pairs(
        old(ctx).extra_request_headers@,
    ));
}

/// From request to response: a client that sent a readable id gets it back under
/// the configured name, as the only value there; a client that sent none gets its
/// response as it is.
pub proof fn law_id_round_trip(
    filter: RequestIdFilter,
    ctx: &mut RequestIdContext,
    headers: HeaderMap,
    generated: String,
    asked: FilterAction<()>,
    answered: RequestIdContext,
    response: &mut HeaderMap,
    r: FilterAction<()>,
)
    requires
        old(ctx).client_supplied is None,
        call_ensures(RequestIdFilter::on_request, (&filter, ctx, &headers, generated), asked),
        answered == *final(ctx),
        call_ensures(RequestIdFilter::on_response, (&filter, &answered, response), r),
        valid_name(filter.header_name@),
    ensures
        r is Continue,
        ({
            let value = first_value(headers@, lower(filter.header_name@));
            let readable = value is Some && value_text(value->0) is Some;
            &&& !readable ==> final(response)@ == old(response)@
            &&& readable ==> all_values(final(response)@, lower(filter.header_name@))
                == seq![value->0]
        }),
{
    let name = lower(filter.header_name@);
    let value = first_value(headers@, name);
    if value is Some && value_text(value->0) is Some {
        law_client_id_echoed(filter.header_name@, value->0, headers@, old(response)@);
        let other = name.push('x');
        assert(other.len() != name.len());
        law_replaced_header(old(response)@, name, value->0, other);
    }
}

/// The value that goes back is the noted id, where there is one that can be sent;
/// it is set under the configured name, where that can be one.
pub proof fn law_response_id(
    filter: RequestIdFilter,
    ctx: RequestIdContext,
    r: Option<Vec<u8>>,
    response: &mut HeaderMap,
    value: Vec<u8>,
)
    requires
        call_ensures(RequestIdFilter::resolve_response_id, (&filter, &ctx), r),
        call_ensures(RequestIdFilter::insert_response_header, (&filter, response, value), ()),
    ensures
        ctx.client_supplied is None ==> r is None,
        ctx.client_supplied matches Some(id) ==> (r is Some <==> valid_value(id@)),
        r is Some ==> r->0@ == vstd::utf8::encode_utf8(ctx.client_supplied->0@),
        !valid_name(filter.header_name@) ==> final(response)@ == old(response)@,
        valid_name(filter.header_name@) ==> all_values(
            final(response)@,
            lower(filter.header_name@),
        ) == seq![value@],
{
    let name = lower(filter.header_name@);
    let other = name.push('x');
    assert(other.len() != name.len());
    law_replaced_header(old(response)@, name, value@, other);
}

} // verus!
