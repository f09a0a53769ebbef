//! What a filter hook asks the proxy to do next.

use vstd::prelude::*;

use crate::error::FilterError;
use crate::headers::HeaderMap;
use crate::text::decimal;
use crate::text::decimal_digits;

verus! {

/// A status that can end an exchange: informational statuses precede a final
/// response, and 600 and above is no HTTP status.
pub open spec fn final_status(code: u16) -> bool {
    200 <= code <= 599
}

/// Whether `code` can be the final status of a response the proxy returns itself.
pub fn is_final_status(code: u16) -> (r: bool)
    ensures
        r == final_status(code),
{
    200 <= code && code <= 599
}

/// The message for a status outside the final range.
pub open spec fn invalid_status_text(kind: Seq<char>, code: u16) -> Seq<char> {
    kind + " status must be 200..=599 (1xx is informational, not final), got "@ + decimal_digits(
        code as nat,
    )
}

/// The message for a status outside the final range.
pub fn invalid_status(kind: &str, code: u16) -> (r: String)
    ensures
        r@ == invalid_status_text(kind@, code),
{
    let mut out = kind.to_owned();
    out.push_str(" status must be 200..=599 (1xx is informational, not final), got ");
    out.push_str(decimal(code as u64).as_str());
    out
}

/// A terminal response whose body is delivered chunk by chunk from `body`.
pub struct StreamingTerminalResponse<B> {
    /// HTTP status code.
    pub status: u16,
    /// Response headers available before the response is committed.
    pub headers: HeaderMap,
    /// The pull-based body.
    pub body: B,
}

impl<B> StreamingTerminalResponse<B> {
    /// A streaming terminal response with a final status and no headers.
    pub fn new(code: u16, body: B) -> (r: StreamingTerminalResponse<B>)
        requires
            final_status(code),
        ensures
            r.status == code,
            r.headers@ == Seq::<(Seq<char>, Seq<u8>)>::empty(),
            r.body == body,
    {
        StreamingTerminalResponse { status: code, headers: HeaderMap::new(), body }
    }

    /// A streaming terminal response, or an error for a status that is not final.
    pub fn try_new(code: u16, body: B) -> (r: Result<StreamingTerminalResponse<B>, FilterError>)
        ensures
            r is Ok <==> final_status(code),
            r matches Ok(t) ==> t.status == code && t.headers@.len() == 0 && t.body == body,
            r matches Err(e) ==> e@ == invalid_status_text("streaming terminal"@, code),
    {
        if !is_final_status(code) {
            return Err(FilterError::new(invalid_status("streaming terminal", code)));
        }
        Ok(StreamingTerminalResponse::new(code, body))
    }

    /// Replaces the response headers.
    pub fn with_headers(self, headers: HeaderMap) -> (r: StreamingTerminalResponse<B>)
        ensures
            r.headers == headers,
            r.status == self.status,
            r.body == self.body,
    {
        StreamingTerminalResponse { status: self.status, headers, body: self.body }
    }
}

/// A response that ends the exchange in place of the upstream.
pub struct Rejection {
    /// Response body.
    pub body: Option<Vec<u8>>,
    /// Response headers, in the order they are written.
    pub headers: Vec<(String, String)>,
    /// Response headers whose values may hold opaque bytes.
    pub header_map: Option<HeaderMap>,
    /// Whether the downstream connection stays reusable after this response.
    pub preserve_keepalive: bool,
    /// HTTP status code.
    pub status: u16,
}

/// The header pairs, as sequences.
pub open spec fn pairs(v: Seq<(String, String)>) -> Seq<(Seq<char>, Seq<char>)> {
    v.map_values(|p: (String, String)| (p.0@, p.1@))
}

/// What a rejection says on the wire.
pub ghost struct RejectionView {
    /// Response body.
    pub body: Option<Seq<u8>>,
    /// Response headers.
    pub headers: Seq<(Seq<char>, Seq<char>)>,
    /// Byte-preserving response headers.
    pub header_map: Option<Seq<(Seq<char>, Seq<u8>)>>,
    /// Whether keepalive is preserved.
    pub preserve_keepalive: bool,
    /// HTTP status code.
    pub status: u16,
}

/// A rejection that holds a status and nothing else.
pub open spec fn bare_rejection(code: u16) -> RejectionView {
    RejectionView {
        body: None,
        headers: Seq::empty(),
        header_map: None,
        preserve_keepalive: false,
        status: code,
    }
}

impl View for Rejection {
    type V = RejectionView;

    open spec fn view(&self) -> RejectionView {
        RejectionView {
            body: match self.body {
                Some(b) => Some(b@),
                None => None,
            },
            headers: pairs(self.headers@),
            header_map: match self.header_map {
                Some(m) => Some(m@),
                None => None,
            },
            preserve_keepalive: self.preserve_keepalive,
            status: self.status,
        }
    }
}

impl Rejection {
    /// A rejection with a final status, no headers and no body.
    pub fn status(code: u16) -> (r: Rejection)
        requires
            final_status(code),
        ensures
            r@ == bare_rejection(code),
    {
        let r = Rejection {
            body: None,
            headers: Vec::new(),
            header_map: None,
            preserve_keepalive: false,
            status: code,
        };
        proof {
            assert(pairs(r.headers@) =~= Seq::empty());
        }
        r
    }

    /// A rejection, or an error for a status that is not final.
    pub fn try_status(code: u16) -> (r: Result<Rejection, FilterError>)
        ensures
            r is Ok <==> final_status(code),
            r matches Ok(t) ==> t@ == bare_rejection(code),
            r matches Err(e) ==> e@ == invalid_status_text("rejection"@, code),
    {
        if !is_final_status(code) {
            return Err(FilterError::new(invalid_status("rejection", code)));
        }
        Ok(Rejection::status(code))
    }

    /// Sets the response body.
    pub fn with_body(self, body: Vec<u8>) -> (r: Rejection)
        ensures
            r@ == (RejectionView { body: Some(body@), ..self@ }),
    {
        let mut out = self;
        out.body = Some(body);
        out
    }

    /// Adds a response header after those already there.
    pub fn with_header(self, name: &str, value: &str) -> (r: Rejection)
        ensures
            r@ == (RejectionView { headers: self@.headers.push((name@, value@)), ..self@ }),
    {
        let mut out = self;
        out.headers.push((name.to_owned(), value.to_owned()));
        proof {
            assert(pairs(out.headers@) =~= self@.headers.push((name@, value@)));
        }
        out
    }

    /// Keeps the downstream connection reusable after this response.
    pub fn preserving_keepalive(self) -> (r: Rejection)
        ensures
            r@ == (RejectionView { preserve_keepalive: true, ..self@ }),
    {
        let mut out = self;
        out.preserve_keepalive = true;
        out
    }
}

/// A complete response that a filter returns in place of the upstream.
pub struct TerminalResponse {
    /// HTTP status code.
    pub status: u16,
    /// Response headers.
    pub headers: HeaderMap,
    /// Response body.
    pub body: Option<Vec<u8>>,
}

impl TerminalResponse {
    /// A terminal response with a final status, no headers and no body.
    pub fn new(code: u16) -> (r: TerminalResponse)
        requires
            final_status(code),
        ensures
            r.status == code,
            r.headers@ == Seq::<(Seq<char>, Seq<u8>)>::empty(),
            r.body is None,
    {
        TerminalResponse { status: code, headers: HeaderMap::new(), body: None }
    }

    /// A terminal response, or an error for a status that is not final.
    pub fn try_new(code: u16) -> (r: Result<TerminalResponse, FilterError>)
        ensures
            r is Ok <==> final_status(code),
            r matches Ok(t) ==> t.status == code && t.headers@.len() == 0 && t.body is None,
            r matches Err(e) ==> e@ == invalid_status_text("terminal"@, code),
    {
        if !is_final_status(code) {
            return Err(FilterError::new(invalid_status("terminal", code)));
        }
        Ok(TerminalResponse::new(code))
    }

    /// Replaces the response headers.
    pub fn with_headers(self, headers: HeaderMap) -> (r: TerminalResponse)
        ensures
            r.headers == headers,
            r.status == self.status,
            r.body == self.body,
    {
        TerminalResponse { status: self.status, headers, body: self.body }
    }

    /// Sets the response body.
    pub fn with_body(self, body: Vec<u8>) -> (r: TerminalResponse)
        ensures
            r.body == Some(body),
            r.status == self.status,
            r.headers == self.headers,
    {
        TerminalResponse { status: self.status, headers: self.headers, body: Some(body) }
    }
}

/// What a filter hook asks the proxy to do next. `B` is the body of a
/// streaming terminal response.
pub enum FilterAction<B> {
    /// Go on with the next filter.
    Continue,
    /// Stop and answer with the rejection.
    Reject(Rejection),
    /// Answer with a complete response, running the response-phase filters.
    TerminalResponse(Box<TerminalResponse>),
    /// Answer with a streaming response.
    StreamingTerminalResponse(Box<StreamingTerminalResponse<B>>),
    /// Forward the accumulated body and stream what remains.
    Release,
    /// Skip this filter for the remaining body chunks.
    BodyDone,
}

/// A status that one of the three response types accepts is accepted by all
/// of them, and by the constructors that demand a final status.
pub proof fn law_statuses_shared<B>(
    code: u16,
    streaming: Result<StreamingTerminalResponse<B>, FilterError>,
    rejection: Result<Rejection, FilterError>,
    terminal: Result<TerminalResponse, FilterError>,
    body: B,
)
    requires
        call_ensures(StreamingTerminalResponse::<B>::try_new, (code, body), streaming),
        call_ensures(Rejection::try_status, (code,), rejection),
        call_ensures(TerminalResponse::try_new, (code,), terminal),
    ensures
        streaming is Ok <==> rejection is Ok,
        rejection is Ok <==> terminal is Ok,
        terminal is Ok ==> call_requires(TerminalResponse::new, (code,)),
{
}

/// The final statuses are the four hundreds from 200 on.
pub proof fn law_final_statuses(code: u16)
    ensures
        final_status(code) <==> 2 <= code as int / 100 <= 5,
{
}

/// A rejection that was given only a status has no body and no header of either
/// kind, and closes the connection.
pub proof fn law_bare_rejection(code: u16)
    ensures
        bare_rejection(code).status == code,
        bare_rejection(code).body is None,
        bare_rejection(code).headers.len() == 0,
        bare_rejection(code).header_map is None,
        !bare_rejection(code).preserve_keepalive,
{
}

/// A rejection is built up piece by piece: each step sets its own piece and keeps
/// all others, and headers stay in the order in which they were added.
pub proof fn law_rejection_built_up(
    base: Rejection,
    body: Vec<u8>,
    with_body: Rejection,
    name: &str,
    value: &str,
    with_header: Rejection,
    kept_alive: Rejection,
)
    requires
        call_ensures(Rejection::with_body, (base, body), with_body),
        call_ensures(Rejection::with_header, (with_body, name, value), with_header),
        call_ensures(Rejection::preserving_keepalive, (with_header,), kept_alive),
    ensures
        kept_alive@.status == base@.status,
        kept_alive@.body == Some(body@),
        kept_alive@.headers == base@.headers.push((name@, value@)),
        kept_alive@.header_map == base@.header_map,
        kept_alive@.preserve_keepalive,
        with_header@.preserve_keepalive == base@.preserve_keepalive,
{
}

/// The message for a status that is refused says which kind of response it was for
/// and which status it was.
pub proof fn law_refused_status(
    code: u16,
    rejection: Result<Rejection, FilterError>,
    terminal: Result<TerminalResponse, FilterError>,
)
    requires
        call_ensures(Rejection::try_status, (code,), rejection),
        call_ensures(TerminalResponse::try_new, (code,), terminal),
        code < 200 || code > 599,
    ensures
        rejection is Err,
        terminal is Err,
        rejection->Err_0@ == "rejection"@
            + " status must be 200..=599 (1xx is informational, not final), got "@
            + decimal_digits(code as nat),
        terminal->Err_0@ == "terminal"@
            + " status must be 200..=599 (1xx is informational, not final), got "@
            + decimal_digits(code as nat),
{
}

} // verus!
