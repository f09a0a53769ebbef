//! Outbound HTTP of the policy engine: which URLs it may dial, and how
//! failures are classified.

use vstd::prelude::*;

use crate::headers::parse_header_value;
use crate::headers::all_values;
use crate::headers::law_replaced_header;
use crate::headers::valid_value;
use crate::headers::without_name;
use crate::headers::HeaderMap;
use crate::text::concat2;
use crate::text::concat3;
use crate::text::concat4;
use crate::text::concat5;
use crate::text::contains_char;
use crate::text::decimal;
use crate::text::decimal_digits;
use crate::text::lower;
use crate::text::same_text;

verus! {

/// Keeps policy connections apart from those with cluster-specific TLS state.
pub const POLICY_PEER_GROUP: u64 = 0x706F_6C69_6379_5F31;

/// Why an outbound policy call failed.
pub enum TransportError {
    /// The request cannot be sent as it stands.
    InvalidRequest(String),
    /// The request was not sent; it is safe to try again.
    Connect(String),
    /// The destination was refused.
    Rejected(String),
    /// The exchange broke; the peer may have seen the request.
    Io(String),
    /// The deadline passed; the peer may have seen the request.
    Timeout,
    /// The response exceeds the limit.
    ResponseTooLarge {
        /// Bytes received.
        actual: usize,
        /// The limit.
        limit: usize,
    },
}

/// Why a sub-request failed.
pub enum SubRequestError {
    /// The request is malformed.
    InvalidRequest(String),
    /// No connection slot became free.
    AdmissionTimeout {
        /// The number of slots.
        max_connections: usize,
    },
    /// The peer's circuit is open.
    CircuitOpen {
        /// The peer.
        peer: String,
    },
    /// No connection was made.
    Connect(String),
    /// The exchange broke.
    Io(String),
    /// The deadline passed.
    DeadlineExceeded,
    /// The upstream stream was idle for too long.
    StreamIdleTimeout {
        /// The idle timeout, in words.
        idle_timeout: String,
    },
    /// The response exceeds the limit.
    ResponseTooLarge {
        /// Bytes received.
        actual: usize,
        /// The limit.
        limit: usize,
    },
    /// Any other failure.
    Other(String),
}

/// Whether the peer may have seen the request behind a failure.
pub open spec fn may_have_reached_peer(e: TransportError) -> bool {
    e is Io || e is Timeout || e is ResponseTooLarge
}

/// Whether a sub-request failure leaves open whether the peer saw the request.
pub open spec fn possibly_sent(e: SubRequestError) -> bool {
    e is Io || e is DeadlineExceeded || e is StreamIdleTimeout || e is ResponseTooLarge
        || e is Other
}

/// Classifies a sub-request failure for the engine.
pub fn map_error(error: &SubRequestError) -> (r: TransportError)
    ensures
        may_have_reached_peer(r) == possibly_sent(*error),
        match error {
            SubRequestError::InvalidRequest(m) => r is InvalidRequest && r->InvalidRequest_0@
                == m@,
            SubRequestError::AdmissionTimeout { max_connections } => r is Connect && r->Connect_0@
                == "sub-request admission timeout (all "@ + decimal_digits(*max_connections as nat)
                + " slots busy)"@,
            SubRequestError::CircuitOpen { peer } => r is Rejected && r->Rejected_0@
                == "circuit open for peer "@ + peer@,
            SubRequestError::Connect(m) => r is Connect && r->Connect_0@ == m@,
            SubRequestError::Io(m) => r is Io && r->Io_0@ == m@,
            SubRequestError::DeadlineExceeded => r is Timeout,
            SubRequestError::StreamIdleTimeout { idle_timeout } => r is Io && r->Io_0@
                == "upstream stream idle for "@ + idle_timeout@,
            SubRequestError::ResponseTooLarge { actual, limit } => r
                == (TransportError::ResponseTooLarge { actual: *actual, limit: *limit }),
            SubRequestError::Other(m) => r is Io && r->Io_0@ == m@,
        },
{
    match error {
        SubRequestError::InvalidRequest(message) => TransportError::InvalidRequest(
            message.clone(),
        ),
        SubRequestError::AdmissionTimeout { max_connections } => TransportError::Connect(
            concat3(
                "sub-request admission timeout (all ",
                decimal(*max_connections as u64).as_str(),
                " slots busy)",
            ),
        ),
        SubRequestError::CircuitOpen { peer } => TransportError::Rejected(
            concat2("circuit open for peer ", peer.as_str()),
        ),
        SubRequestError::Connect(message) => TransportError::Connect(message.clone()),
        SubRequestError::Io(message) => TransportError::Io(message.clone()),
        SubRequestError::DeadlineExceeded => TransportError::Timeout,
        SubRequestError::StreamIdleTimeout { idle_timeout } => TransportError::Io(
            concat2("upstream stream idle for ", idle_timeout.as_str()),
        ),
        SubRequestError::ResponseTooLarge { actual, limit } => TransportError::ResponseTooLarge {
            actual: *actual,
            limit: *limit,
        },
        SubRequestError::Other(message) => TransportError::Io(message.clone()),
    }
}

// URLs.

/// A URL's authority.
pub struct AuthorityParts {
    /// The authority as the URL wrote it.
    pub text: String,
    /// Its host.
    pub host: String,
    /// Its port, where one is given and in range.
    pub port: Option<u16>,
}

/// The parts of a URL.
pub struct UriParts {
    /// Scheme.
    pub scheme: Option<String>,
    /// Authority.
    pub authority: Option<AuthorityParts>,
    /// Path and query.
    pub target: Option<String>,
}

/// A URL's authority, as a value.
pub ghost struct AuthorityView {
    /// The authority as written.
    pub text: Seq<char>,
    /// Host.
    pub host: Seq<char>,
    /// Port.
    pub port: Option<u16>,
}

/// The parts of a URL, as values.
pub ghost struct UriView {
    /// Scheme.
    pub scheme: Option<Seq<char>>,
    /// Authority.
    pub authority: Option<AuthorityView>,
    /// Path and query.
    pub target: Option<Seq<char>>,
}

impl View for AuthorityParts {
    type V = AuthorityView;

    open spec fn view(&self) -> AuthorityView {
        AuthorityView { text: self.text@, host: self.host@, port: self.port }
    }
}

impl View for UriParts {
    type V = UriView;

    open spec fn view(&self) -> UriView {
        UriView {
            scheme: crate::headers::opt_text(self.scheme),
            authority: match self.authority {
                Some(a) => Some(a@),
                None => None,
            },
            target: crate::headers::opt_text(self.target),
        }
    }
}

/// What the URL grammar makes of a text: its parts, or why it is no URL.
pub uninterp spec fn uri_of(url: Seq<char>) -> Result<UriView, Seq<char>>;

/// The parts or the reason, as values.
pub open spec fn uri_result(r: Result<UriParts, String>) -> Result<UriView, Seq<char>> {
    match r {
        Ok(parts) => Ok(parts@),
        Err(why) => Err(why@),
    }
}

/// `str::parse::<http::Uri>` and the accessors of `http::Uri`: the scheme, the
/// authority with its host and port, and the path with the query. What they are
/// for a given text is left to the crate.
#[verifier::external_body]
fn parse_uri(url: &str) -> (r: Result<UriParts, String>)
    ensures
        uri_result(r) == uri_of(url@),
{
    let uri = url.parse::<http::Uri>().map_err(|e| e.to_string())?;
    Ok(UriParts {
        scheme: uri.scheme_str().map(str::to_owned),
        authority: uri.authority().map(|a| AuthorityParts {
            text: a.as_str().to_owned(),
            host: a.host().to_owned(),
            port: a.port_u16(),
        }),
        target: uri.path_and_query().map(|p| p.to_string()),
    })
}

/// Splits a policy URL into its parts.
pub fn parse_url(url: &str) -> (r: Result<UriParts, TransportError>)
    ensures
        match uri_of(url@) {
            Ok(view) => r is Ok && r->Ok_0@ == view,
            Err(why) => r is Err && is_invalid(r->Err_0, "url '"@ + url@ + "': "@ + why),
        },
{
    match parse_uri(url) {
        Ok(parts) => Ok(parts),
        Err(why) => {
            Err(TransportError::InvalidRequest(concat4("url '", url, "': ", why.as_str())))
        },
    }
}

/// Whether an error is a malformed request with this message.
pub open spec fn is_invalid(e: TransportError, message: Seq<char>) -> bool {
    e is InvalidRequest && e->InvalidRequest_0@ == message
}

/// Whether a scheme means dialling TLS, or the message for one that is refused.
pub open spec fn scheme_tls(url: Seq<char>, scheme: Option<Seq<char>>) -> Result<bool, Seq<char>> {
    match scheme {
        Some(s) => if s == "https"@ {
            Ok(true)
        } else if s == "http"@ {
            Ok(false)
        } else {
            Err("url '"@ + url + "' has unsupported scheme '"@ + s + "'"@)
        },
        None => Err("url '"@ + url + "' has no scheme"@),
    }
}

/// Whether a URL's scheme means dialling TLS.
pub fn dial_tls(url: &str, scheme: Option<&str>) -> (r: Result<bool, TransportError>)
    ensures
        match scheme_tls(
            url@,
            match scheme {
                Some(s) => Some(s@),
                None => None,
            },
        ) {
            Ok(tls) => r is Ok && r->Ok_0 == tls,
            Err(m) => r is Err && is_invalid(r->Err_0, m),
        },
{
    match scheme {
        Some(s) => {
            if same_text(s, "https") {
                Ok(true)
            } else if same_text(s, "http") {
                Ok(false)
            } else {
                Err(
                    TransportError::InvalidRequest(
                        concat5("url '", url, "' has unsupported scheme '", s, "'"),
                    ),
                )
            }
        },
        None => Err(TransportError::InvalidRequest(concat3("url '", url, "' has no scheme"))),
    }
}

/// The message for a URL with credentials in its authority. It does not repeat
/// the URL, which holds a secret.
pub open spec fn userinfo_text() -> Seq<char> {
    "url carries userinfo, which is not forwarded; use a header or a client-credentials flow"@
}

/// Why an authority is refused, if it is: no host, or embedded credentials.
pub open spec fn authority_error(url: Seq<char>, authority: Option<AuthorityView>) -> Option<
    Seq<char>,
> {
    match authority {
        Some(a) => if a.host.len() == 0 {
            Some("url '"@ + url + "' has no host"@)
        } else if a.text.contains('@') {
            Some(userinfo_text())
        } else {
            None
        },
        None => Some("url '"@ + url + "' has no host"@),
    }
}

/// A URL's authority, refused when it names no host or carries credentials.
pub fn checked_authority<'a>(url: &str, parts: &'a UriParts) -> (r: Result<
    &'a AuthorityParts,
    TransportError,
>)
    ensures
        match authority_error(url@, parts@.authority) {
            None => r is Ok && parts.authority == Some(*r->Ok_0),
            Some(m) => r is Err && is_invalid(r->Err_0, m),
        },
{
    match &parts.authority {
        Some(authority) => {
            if authority.host.as_str().is_empty() {
                return Err(
                    TransportError::InvalidRequest(concat3("url '", url, "' has no host")),
                );
            }
            if contains_char(authority.text.as_str(), '@') {
                return Err(
                    TransportError::InvalidRequest(
                        "url carries userinfo, which is not forwarded; use a header or a client-credentials flow".to_owned(),
                    ),
                );
            }
            Ok(authority)
        },
        None => Err(TransportError::InvalidRequest(concat3("url '", url, "' has no host"))),
    }
}

/// The port to dial: the URL's own, or the scheme's default; or the message for
/// a port that cannot be dialled.
pub open spec fn port_of(url: Seq<char>, authority: AuthorityView, tls: bool) -> Result<
    u16,
    Seq<char>,
> {
    match authority.port {
        Some(port) => if port == 0 {
            Err("url '"@ + url + "' names port 0, which cannot be dialled"@)
        } else {
            Ok(port)
        },
        None => if vstd::utf8::encode_utf8(authority.text).len() > vstd::utf8::encode_utf8(
            authority.host,
        ).len() {
            Err("url '"@ + url + "' has a port outside the range 1-65535"@)
        } else if tls {
            Ok(443)
        } else {
            Ok(80)
        },
    }
}

/// The port to dial.
pub fn checked_port(url: &str, authority: &AuthorityParts, tls: bool) -> (r: Result<
    u16,
    TransportError,
>)
    ensures
        match port_of(url@, authority@, tls) {
            Ok(port) => r is Ok && r->Ok_0 == port,
            Err(m) => r is Err && is_invalid(r->Err_0, m),
        },
{
    match authority.port {
        Some(port) => {
            if port == 0 {
                return Err(
                    TransportError::InvalidRequest(
                        concat3("url '", url, "' names port 0, which cannot be dialled"),
                    ),
                );
            }
            Ok(port)
        },
        None => {
            // A longer authority carries a port that did not parse.
            if authority.text.as_str().as_bytes().len() > authority.host.as_str().as_bytes().len() {
                return Err(
                    TransportError::InvalidRequest(
                        concat3("url '", url, "' has a port outside the range 1-65535"),
                    ),
                );
            }
            if tls {
                Ok(443)
            } else {
                Ok(80)
            }
        },
    }
}

/// The origin-form request target of a URL: path and query, or `/`.
pub open spec fn origin_form(target: Option<Seq<char>>) -> Seq<char> {
    match target {
        Some(t) => t,
        None => "/"@,
    }
}

/// The origin-form request target of a URL.
pub fn request_uri(parts: &UriParts) -> (r: String)
    ensures
        r@ == origin_form(parts@.target),
{
    match &parts.target {
        Some(target) => target.clone(),
        None => "/".to_owned(),
    }
}

/// A destination URL resolved into the pieces a dial needs.
pub struct Target {
    /// Host and port, the form that address resolution expects.
    pub dial_authority: String,
    /// The `Host` header value: the authority as the URL wrote it.
    pub host_header: String,
    /// Path and query.
    pub uri: String,
    /// Whether to dial TLS.
    pub tls: bool,
    /// SNI host name, empty for plaintext.
    pub sni: String,
}

/// Why a URL is not dialled, if it is not.
pub open spec fn target_error(url: Seq<char>, parts: UriView, host_is_ip: bool) -> Option<
    Seq<char>,
> {
    match scheme_tls(url, parts.scheme) {
        Err(m) => Some(m),
        Ok(tls) => match authority_error(url, parts.authority) {
            Some(m) => Some(m),
            None => match port_of(url, parts.authority->0, tls) {
                Err(m) => Some(m),
                Ok(_) => if tls && host_is_ip {
                    Some(
                        "url '"@ + url
                            + "' uses https with an IP literal, which carries no SNI for certificate verification"@,
                    )
                } else {
                    None
                },
            },
        },
    }
}

/// Whether `t` is the dial target of a URL.
pub open spec fn is_target(t: Target, url: Seq<char>, parts: UriView) -> bool {
    let tls = scheme_tls(url, parts.scheme)->Ok_0;
    let authority = parts.authority->0;
    &&& t.tls == tls
    &&& t.dial_authority@ == authority.host + ":"@ + decimal_digits(
        port_of(url, authority, tls)->Ok_0 as nat,
    )
    &&& t.host_header@ == authority.text
    &&& t.uri@ == origin_form(parts.target)
    &&& t.sni@ == if tls {
        authority.host
    } else {
        Seq::empty()
    }
}

/// What a dial to an already checked address uses.
pub struct PeerPlan {
    /// Address to dial.
    pub address: String,
    /// Whether to dial TLS.
    pub tls: bool,
    /// SNI host name.
    pub sni: String,
    /// Pool partition.
    pub group_key: u64,
    /// Bound on connecting, in nanoseconds; always set, so that an unreachable
    /// peer reports a failure to connect rather than an overall timeout.
    pub connect_timeout_ns: u64,
}

impl Target {
    /// The dial target of a URL whose parts are given. `host_is_ip` says
    /// whether its host is an IP literal.
    pub fn from_parts(url: &str, parts: &UriParts, host_is_ip: bool) -> (r: Result<
        Target,
        TransportError,
    >)
        ensures
            match target_error(url@, parts@, host_is_ip) {
                None => r is Ok && is_target(r->Ok_0, url@, parts@),
                Some(m) => r is Err && is_invalid(r->Err_0, m),
            },
    {
        let scheme = match &parts.scheme {
            Some(s) => Some(s.as_str()),
            None => None,
        };
        let tls = match dial_tls(url, scheme) {
            Ok(tls) => tls,
            Err(e) => {
                return Err(e);
            },
        };
        let authority = match checked_authority(url, parts) {
            Ok(authority) => authority,
            Err(e) => {
                return Err(e);
            },
        };
        let port: u16 = match checked_port(url, authority, tls) {
            Ok(port) => port,
            Err(e) => {
                return Err(e);
            },
        };
        if tls && host_is_ip {
            return Err(
                TransportError::InvalidRequest(
                    concat3(
                        "url '",
                        url,
                        "' uses https with an IP literal, which carries no SNI for certificate verification",
                    ),
                ),
            );
        }
        let dial_authority = concat3(
            authority.host.as_str(),
            ":",
            decimal(port as u64).as_str(),
        );
        let sni = if tls {
            authority.host.clone()
        } else {
            String::new()
        };
        Ok(
            Target {
                dial_authority,
                host_header: authority.text.clone(),
                uri: request_uri(parts),
                tls,
                sni,
            },
        )
    }

    /// The dial target of a URL.
    pub fn parse(url: &str, host_is_ip: bool) -> (r: Result<Target, TransportError>)
        ensures
            match uri_of(url@) {
                Err(why) => r is Err && is_invalid(r->Err_0, "url '"@ + url@ + "': "@ + why),
                Ok(parts) => match target_error(url@, parts, host_is_ip) {
                    None => r is Ok && is_target(r->Ok_0, url@, parts),
                    Some(m) => r is Err && is_invalid(r->Err_0, m),
                },
            },
    {
        match parse_url(url) {
            Ok(parts) => Target::from_parts(url, &parts, host_is_ip),
            Err(e) => Err(e),
        }
    }

    /// What a dial to an already checked address uses.
    pub fn peer(
        &self,
        address: String,
        connect_timeout_ns: Option<u64>,
        default_timeout_ns: u64,
    ) -> (r: PeerPlan)
        ensures
            r.address == address,
            r.tls == self.tls,
            r.sni@ == self.sni@,
            r.group_key == POLICY_PEER_GROUP,
            r.connect_timeout_ns == match connect_timeout_ns {
                Some(ns) => ns,
                None => default_timeout_ns,
            },
    {
        let connect: u64 = match connect_timeout_ns {
            Some(ns) => ns,
            None => default_timeout_ns,
        };
        PeerPlan {
            address,
            tls: self.tls,
            sni: self.sni.clone(),
            group_key: POLICY_PEER_GROUP,
            connect_timeout_ns: connect,
        }
    }

    /// The headers to send: those of the request, with `Host` naming the
    /// authority of the URL.
    pub fn sub_request_headers(&self, headers: HeaderMap) -> (r: Result<HeaderMap, TransportError>)
        ensures
            valid_value(self.host_header@) ==> r is Ok && r->Ok_0@ == without_name(
                headers@,
                "host"@,
            ).push(("host"@, vstd::utf8::encode_utf8(self.host_header@))),
            !valid_value(self.host_header@) ==> r is Err && is_invalid(
                r->Err_0,
                "host '"@ + self.host_header@
                    + "' is not a valid header value: failed to parse header value"@,
            ),
    {
        match parse_header_value(self.host_header.as_str()) {
            Some(value) => {
                proof {
                    reveal_strlit("host");
                    assert(lower("host"@) =~= "host"@);
                }
                let mut out = headers;
                out.insert("host", value);
                Ok(out)
            },
            None => Err(
                TransportError::InvalidRequest(
                    concat3(
                        "host '",
                        self.host_header.as_str(),
                        "' is not a valid header value: failed to parse header value",
                    ),
                ),
            ),
        }
    }
}

/// How resolving an authority ended.
pub enum Resolution {
    /// The budget ran out first.
    TimedOut,
    /// It failed, for this reason.
    Failed(String),
    /// It found this address.
    Address(String),
}

/// The address and the time that remains of a budget in nanoseconds, of which
/// resolution took `elapsed`. A failure here is one to connect: nothing was sent.
pub fn resolve_within(authority: &str, budget: u64, elapsed: u64, outcome: Resolution) -> (r:
    Result<(String, u64), TransportError>)
    ensures
        match outcome {
            Resolution::TimedOut => r is Err && r->Err_0 is Connect && r->Err_0->Connect_0@
                == "resolve '"@ + authority@ + "': deadline exceeded"@,
            Resolution::Failed(why) => r is Err && r->Err_0 is Connect && r->Err_0->Connect_0@
                == "resolve '"@ + authority@ + "': "@ + why@,
            Resolution::Address(address) => if elapsed >= budget {
                r is Err && r->Err_0 is Connect && r->Err_0->Connect_0@ == "resolve '"@ + authority@
                    + "': deadline exceeded before the request could be sent"@
            } else {
                r is Ok && r->Ok_0.0 == address && r->Ok_0.1 == budget - elapsed
            },
        },
{
    match outcome {
        Resolution::TimedOut => Err(
            TransportError::Connect(concat3("resolve '", authority, "': deadline exceeded")),
        ),
        Resolution::Failed(why) => {
            Err(TransportError::Connect(concat4("resolve '", authority, "': ", why.as_str())))
        },
        Resolution::Address(address) => {
            let remaining: u64 = budget.saturating_sub(elapsed);
            if remaining == 0 {
                return Err(
                    TransportError::Connect(
                        concat3(
                            "resolve '",
                            authority,
                            "': deadline exceeded before the request could be sent",
                        ),
                    ),
                );
            }
            Ok((address, remaining))
        },
    }
}

/// Refuses a destination that is not public, unless private ones are allowed.
/// `reason` says why the address is not public, where it is not.
pub fn check_egress(reason: Option<String>, allow_private: bool) -> (r: Result<(), TransportError>)
    ensures
        r is Err <==> reason is Some && !allow_private,
        r matches Err(e) ==> e is Rejected && e->Rejected_0@ == reason->0@,
{
    match reason {
        Some(why) => {
            if allow_private {
                Ok(())
            } else {
                Err(TransportError::Rejected(why))
            }
        },
        None => Ok(()),
    }
}

/// A URL that is dialled over TLS names a host that a certificate can be
/// checked against, never an IP literal; and none carries credentials.
pub proof fn law_dialled_urls(url: Seq<char>, parts: UriView, host_is_ip: bool, t: Target)
    requires
        target_error(url, parts, host_is_ip) is None,
        is_target(t, url, parts),
    ensures
        t.tls ==> !host_is_ip && t.sni@.len() > 0,
        !t.host_header@.contains('@'),
{
}

/// A URL is dialled exactly where its scheme is `http` or `https`, it names a
/// host and carries no credentials, its port can be dialled or is absent, and TLS
/// is not asked of an IP literal. It is then dialled at its own port or the
/// scheme's, with TLS and the host's name for `https` alone, and the request goes
/// out with the URL's own authority and target.
pub proof fn law_dial_targets(url: Seq<char>, parts: UriView, host_is_ip: bool, t: Target)
    ensures
        ({
            let secure = parts.scheme == Some("https"@);
            let plain = parts.scheme == Some("http"@);
            let a = parts.authority->0;
            let no_port = a.port is None && vstd::utf8::encode_utf8(a.text).len()
                <= vstd::utf8::encode_utf8(a.host).len();
            let port: nat = if a.port is Some {
                a.port->0 as nat
            } else if secure {
                443
            } else {
                80
            };
            &&& target_error(url, parts, host_is_ip) is None <==> (secure || plain)
                && parts.authority is Some && a.host.len() > 0 && !a.text.contains('@') && (no_port
                || (a.port is Some && a.port->0 != 0)) && !(secure && host_is_ip)
            &&& target_error(url, parts, host_is_ip) is None && is_target(t, url, parts) ==> {
                &&& t.tls == secure
                &&& t.dial_authority@ == a.host + ":"@ + decimal_digits(port)
                &&& t.host_header@ == a.text
                &&& parts.target matches Some(target) ==> t.uri@ == target
                &&& parts.target is None ==> t.uri@ == "/"@
                &&& secure ==> t.sni@ == a.host
                &&& plain ==> t.sni@.len() == 0
            }
        }),
{
    reveal_strlit("http");
    reveal_strlit("https");
    assert("http"@.len() != "https"@.len());
}

/// Of several faults the scheme is named first, then the authority, then the
/// port. A refusal for credentials in a URL does not repeat the URL.
pub proof fn law_refused_urls(url: Seq<char>, parts: UriView, host_is_ip: bool)
    ensures
        parts.scheme is None ==> target_error(url, parts, host_is_ip) == Some(
            "url '"@ + url + "' has no scheme"@,
        ),
        (parts.scheme matches Some(s) && s != "http"@ && s != "https"@) ==> target_error(
            url,
            parts,
            host_is_ip,
        ) == Some("url '"@ + url + "' has unsupported scheme '"@ + parts.scheme->0 + "'"@),
        (parts.scheme == Some("http"@) || parts.scheme == Some("https"@)) ==> {
            &&& parts.authority is None ==> target_error(url, parts, host_is_ip) == Some(
                "url '"@ + url + "' has no host"@,
            )
            &&& parts.authority is Some && parts.authority->0.host.len() == 0 ==> target_error(
                url,
                parts,
                host_is_ip,
            ) == Some("url '"@ + url + "' has no host"@)
            &&& parts.authority is Some && parts.authority->0.host.len() > 0
                && parts.authority->0.text.contains('@') ==> target_error(url, parts, host_is_ip)
                == Some(
                "url carries userinfo, which is not forwarded; use a header or a client-credentials flow"@,
            )
            &&& parts.authority is Some && parts.authority->0.host.len() > 0
                && !parts.authority->0.text.contains('@') && parts.authority->0.port == Some(0u16)
                ==> target_error(url, parts, host_is_ip) == Some(
                "url '"@ + url + "' names port 0, which cannot be dialled"@,
            )
        },
{
}

/// A failure is safe to try again exactly where the peer cannot have seen the
/// request: nothing was sent, or the destination was refused.
pub proof fn law_retry_safety(sent: SubRequestError, reported: TransportError)
    ensures
        may_have_reached_peer(reported) <==> !(reported is InvalidRequest || reported is Connect
            || reported is Rejected),
        possibly_sent(sent) <==> !(sent is InvalidRequest || sent is AdmissionTimeout
            || sent is CircuitOpen || sent is Connect),
{
}

/// How a failure is reported: with its own reason, as one that can be tried again
/// exactly where nothing was sent.
pub proof fn law_failures_classified(error: SubRequestError, r: TransportError)
    requires
        call_ensures(map_error, (&error,), r),
    ensures
        error is InvalidRequest <==> r is InvalidRequest,
        error is CircuitOpen <==> r is Rejected,
        error is Connect || error is AdmissionTimeout <==> r is Connect,
        error is DeadlineExceeded <==> r is Timeout,
        error is ResponseTooLarge <==> r is ResponseTooLarge,
        error is Io || error is StreamIdleTimeout || error is Other <==> r is Io,
        (error matches SubRequestError::ResponseTooLarge { actual, limit } ==> r
            == (TransportError::ResponseTooLarge { actual, limit })),
        (error matches SubRequestError::Connect(m) ==> r->Connect_0@ == m@),
        (error matches SubRequestError::Io(m) ==> r->Io_0@ == m@),
        (error matches SubRequestError::Other(m) ==> r->Io_0@ == m@),
        (error matches SubRequestError::InvalidRequest(m) ==> r->InvalidRequest_0@ == m@),
{
}

/// A dial keeps to its target: the checked address, the target's own TLS and host
/// name, a pool of its own, and a bound on connecting in every case.
pub proof fn law_dial_keeps_target(
    target: Target,
    address: String,
    connect_timeout_ns: Option<u64>,
    default_timeout_ns: u64,
    r: PeerPlan,
)
    requires
        call_ensures(
            Target::peer,
            (&target, address, connect_timeout_ns, default_timeout_ns),
            r,
        ),
    ensures
        r.address == address,
        r.tls == target.tls,
        r.sni@ == target.sni@,
        r.group_key == 0x706F_6C69_6379_5F31,
        connect_timeout_ns matches Some(ns) ==> r.connect_timeout_ns == ns,
        connect_timeout_ns is None ==> r.connect_timeout_ns == default_timeout_ns,
{
}

/// The request that is sent names the URL's own authority as its host, once, and
/// keeps every other header.
pub proof fn law_host_sent(
    target: Target,
    headers: HeaderMap,
    r: Result<HeaderMap, TransportError>,
    other: Seq<char>,
)
    requires
        call_ensures(Target::sub_request_headers, (&target, headers), r),
        other != "host"@,
    ensures
        r is Ok <==> valid_value(target.host_header@),
        r matches Ok(sent) ==> all_values(sent@, "host"@) == seq![
            vstd::utf8::encode_utf8(target.host_header@),
        ] && all_values(sent@, other) == all_values(headers@, other),
        r matches Err(e) ==> e is InvalidRequest,
{
    law_replaced_header(
        headers@,
        "host"@,
        vstd::utf8::encode_utf8(target.host_header@),
        other,
    );
}

/// Resolution leaves what remains of the budget, which is never nothing; a budget
/// that ran out is a failure to connect, and so is a failure to resolve.
pub proof fn law_budget_left(
    authority: &str,
    budget: u64,
    elapsed: u64,
    outcome: Resolution,
    r: Result<(String, u64), TransportError>,
)
    requires
        call_ensures(resolve_within, (authority, budget, elapsed, outcome), r),
    ensures
        r is Ok <==> outcome is Address && elapsed < budget,
        r matches Ok((address, left)) ==> outcome == Resolution::Address(address) && left > 0
            && left + elapsed == budget,
        r matches Err(e) ==> e is Connect,
{
}

/// A destination that is not public is refused, for its reason, unless private ones
/// are allowed.
pub proof fn law_egress(
    reason: Option<String>,
    allow_private: bool,
    r: Result<(), TransportError>,
)
    requires
        call_ensures(check_egress, (reason, allow_private), r),
    ensures
        r is Ok <==> allow_private || reason is None,
        r matches Err(e) ==> e is Rejected && e->Rejected_0@ == reason->0@,
{
}

/// What `parse` accepts is a URL by its grammar, with a known scheme and a host,
/// and is dialled as that URL says.
pub proof fn law_parsed_targets(url: &str, host_is_ip: bool, r: Result<Target, TransportError>)
    requires
        call_ensures(Target::parse, (url, host_is_ip), r),
    ensures
        r matches Err(e) ==> e is InvalidRequest,
        r matches Ok(t) ==> {
            &&& uri_of(url@) is Ok
            &&& uri_of(url@)->Ok_0.scheme == Some("https"@) <==> t.tls
            &&& uri_of(url@)->Ok_0.scheme == Some("http"@) <==> !t.tls
            &&& uri_of(url@)->Ok_0.authority is Some
            &&& t.host_header@ == uri_of(url@)->Ok_0.authority->0.text
            &&& t.tls ==> !host_is_ip && t.sni@ == uri_of(url@)->Ok_0.authority->0.host
            &&& !t.tls ==> t.sni@.len() == 0
        },
{
    if r is Ok {
        law_dial_targets(url@, uri_of(url@)->Ok_0, host_is_ip, r->Ok_0);
    }
    reveal_strlit("http");
    reveal_strlit("https");
    assert("http"@.len() != "https"@.len());
}

/// The words for a URL whose port cannot be dialled, and for TLS to an IP literal.
pub proof fn law_refused_ports(url: Seq<char>, parts: UriView)
    requires
        parts.scheme == Some("https"@),
        authority_error(url, parts.authority) is None,
    ensures
        ({
            let a = parts.authority->0;
            let unread = a.port is None && vstd::utf8::encode_utf8(a.text).len()
                > vstd::utf8::encode_utf8(a.host).len();
            &&& unread ==> target_error(url, parts, false) == Some(
                "url '"@ + url + "' has a port outside the range 1-65535"@,
            )
            &&& target_error(url, parts, false) is None ==> target_error(url, parts, true) == Some(
                "url '"@ + url
                    + "' uses https with an IP literal, which carries no SNI for certificate verification"@,
            )
        }),
{
}

} // verus!
