//! Forwarding headers: what the upstream learns of the client, and which of the
//! client's own claims are believed.

use vstd::arithmetic::power2::pow2;
use vstd::prelude::*;
use vstd::set_lib::set_int_range;

use crate::actions::pairs;
use crate::actions::FilterAction;
use crate::error::FilterError;
use crate::headers::all_values;
use crate::headers::first_value;
use crate::headers::line_view;
use crate::headers::opt_text;
use crate::headers::opt_value_text;
use crate::headers::HeaderMap;
use crate::text::chars_of;
use crate::text::concat2;
use crate::text::join;
use crate::text::joined;
use crate::text::same_text;
use crate::text::texts;

verus! {

/// An IP address as a number.
#[derive(Clone, Copy, Debug, PartialEq, Eq, Structural)]
pub enum IpValue {
    /// IPv4.
    V4(u32),
    /// IPv6.
    V6(u128),
}

/// A client's address.
pub struct ClientAddr {
    /// The address as a number.
    pub ip: IpValue,
    /// The address as text.
    pub text: String,
}

/// A range of addresses: those that share the first bits of `ip`.
#[derive(Clone, Copy, Debug, PartialEq, Eq, Structural)]
pub struct CidrRange {
    /// An address in the range.
    pub ip: IpValue,
    /// The number of shared bits.
    pub prefix: u8,
}

/// Whether an address lies in a range. A prefix as long as the address or
/// longer leaves one address.
pub open spec fn in_range(range: CidrRange, ip: IpValue) -> bool {
    match (range.ip, ip) {
        (IpValue::V4(a), IpValue::V4(b)) => if range.prefix == 0 {
            true
        } else if range.prefix >= 32 {
            a == b
        } else {
            a >> ((32 - range.prefix) as u32) == b >> ((32 - range.prefix) as u32)
        },
        (IpValue::V6(a), IpValue::V6(b)) => if range.prefix == 0 {
            true
        } else if range.prefix >= 128 {
            a == b
        } else {
            a >> ((128 - range.prefix) as u128) == b >> ((128 - range.prefix) as u128)
        },
        _ => false,
    }
}

impl CidrRange {
    /// Whether an address lies in the range.
    pub fn contains(&self, ip: IpValue) -> (r: bool)
        ensures
            r == in_range(*self, ip),
    {
        match (self.ip, ip) {
            (IpValue::V4(a), IpValue::V4(b)) => {
                if self.prefix == 0 {
                    true
                } else if self.prefix >= 32 {
                    a == b
                } else {
                    let shift: u32 = (32 - self.prefix) as u32;
                    a >> shift == b >> shift
                }
            },
            (IpValue::V6(a), IpValue::V6(b)) => {
                if self.prefix == 0 {
                    true
                } else if self.prefix >= 128 {
                    a == b
                } else {
                    let shift: u128 = (128 - self.prefix) as u128;
                    a >> shift == b >> shift
                }
            },
            _ => false,
        }
    }
}

/// Tells the upstream the client's address, protocol and host.
pub struct ForwardedHeadersFilter {
    /// Proxies whose forwarding headers are believed.
    pub trusted_proxies: Vec<CidrRange>,
    /// Whether the standard `Forwarded` header is written too.
    pub use_standard_header: bool,
}

/// What the filter reads and leaves on a request.
pub struct ForwardContext {
    /// The client's address, if it is known.
    pub client_addr: Option<ClientAddr>,
    /// Whether the client's connection is encrypted.
    pub downstream_tls: bool,
    /// Request headers.
    pub headers: HeaderMap,
    /// Headers added to the upstream request.
    pub extra_request_headers: Vec<(String, String)>,
    /// Headers removed from the upstream request.
    pub request_headers_to_remove: Vec<String>,
}

/// Whether some range holds the address.
pub open spec fn trusted_ip(ranges: Seq<CidrRange>, ip: IpValue) -> bool {
    exists|i: int| 0 <= i < ranges.len() && in_range(#[trigger] ranges[i], ip)
}

/// The text that a header value holds, if it is UTF-8.
pub open spec fn utf8_text(value: Seq<u8>) -> Option<Seq<char>> {
    if vstd::utf8::valid_utf8(value) {
        Some(vstd::utf8::decode_utf8(value))
    } else {
        None
    }
}

/// `std::str::from_utf8`: it accepts bytes that are UTF-8 and yields the text
/// that they encode.
#[verifier::external_body]
fn read_utf8(value: &Vec<u8>) -> (r: Option<String>)
    ensures
        opt_text(r) == utf8_text(value@),
{
    std::str::from_utf8(value).ok().map(str::to_owned)
}

/// The texts of all values, if every one is UTF-8.
pub open spec fn all_texts(values: Seq<Seq<u8>>) -> Option<Seq<Seq<char>>>
    decreases values.len(),
{
    if values.len() == 0 {
        Some(Seq::empty())
    } else {
        match (all_texts(values.drop_last()), utf8_text(values.last())) {
            (Some(before), Some(text)) => Some(before.push(text)),
            _ => None,
        }
    }
}

/// The chain that earlier proxies left in a header: all its lines, if there is
/// one and every one is UTF-8.
pub open spec fn chain_of(lines: Seq<(Seq<char>, Seq<u8>)>, name: Seq<char>) -> Option<Seq<char>> {
    match all_texts(all_values(lines, name)) {
        Some(parts) => if parts.len() > 0 {
            Some(joined(parts, ", "@))
        } else {
            None
        },
        None => None,
    }
}

proof fn lemma_unreadable_prefix(lines: Seq<(Seq<char>, Seq<u8>)>, name: Seq<char>, n: int)
    requires
        0 <= n <= lines.len(),
        all_texts(all_values(lines.take(n), name)) is None,
    ensures
        all_texts(all_values(lines, name)) is None,
    decreases lines.len() - n,
{
    if n == lines.len() {
        assert(lines.take(n) =~= lines);
    } else {
        assert(lines.take(n + 1).drop_last() =~= lines.take(n));
        let before = all_values(lines.take(n), name);
        if lines[n].0 == name {
            assert(all_values(lines.take(n + 1), name) == before.push(lines[n].1));
            assert(before.push(lines[n].1).drop_last() =~= before);
        }
        lemma_unreadable_prefix(lines, name, n + 1);
    }
}

/// Appends the chain that earlier proxies left in a header, which is named in
/// lower case, and says whether there was one. A line anywhere that is not UTF-8
/// drops the whole chain.
pub fn push_forwarding_chain(out: &mut String, headers: &HeaderMap, name: &str) -> (r: bool)
    ensures
        match chain_of(headers@, name@) {
            Some(chain) => r && final(out)@ == old(out)@ + chain,
            None => !r && final(out)@ == old(out)@,
        },
{
    let ghost lines = headers@;
    let mut parts: Vec<String> = Vec::new();
    let mut i: usize = 0;
    proof {
        assert(lines.take(0) =~= Seq::empty());
        assert(texts(parts@) =~= Seq::empty());
    }
    while i < headers.lines.len()
        invariant
            lines == headers@,
            i <= headers.lines@.len(),
            out@ == old(out)@,
            all_texts(all_values(lines.take(i as int), name@)) == Some(texts(parts@)),
        decreases headers.lines@.len() - i,
    {
        let line = &headers.lines[i];
        let ghost before = all_values(lines.take(i as int), name@);
        proof {
            assert(lines.take(i + 1).drop_last() =~= lines.take(i as int));
            assert(lines.take(i + 1).last() == line_view(*line));
            assert(before.push(line.value@).drop_last() =~= before);
        }
        if same_text(line.name.as_str(), name) {
            match read_utf8(&line.value) {
                Some(text) => {
                    let ghost kept = parts@;
                    parts.push(text);
                    proof {
                        assert(texts(parts@) =~= texts(kept).push(text@));
                    }
                },
                None => {
                    proof {
                        lemma_unreadable_prefix(lines, name@, i + 1);
                    }
                    return false;
                },
            }
        }
        i += 1;
    }
    proof {
        assert(lines.take(lines.len() as int) =~= lines);
    }
    if parts.len() == 0 {
        return false;
    }
    out.push_str(join(&parts, ", ").as_str());
    true
}

/// A text with a backslash before each quote and each backslash.
pub open spec fn escaped(s: Seq<char>) -> Seq<char>
    decreases s.len(),
{
    if s.len() == 0 {
        s
    } else if s.last() == '"' || s.last() == '\\' {
        escaped(s.drop_last()).push('\\').push(s.last())
    } else {
        escaped(s.drop_last()).push(s.last())
    }
}

/// A text as a quoted string.
pub open spec fn quoted_string(s: Seq<char>) -> Seq<char> {
    seq!['"'] + escaped(s) + seq!['"']
}

/// A text as a quoted string.
pub fn quote_forwarded_value(value: &str) -> (r: String)
    ensures
        r@ == quoted_string(value@),
{
    let mut out = String::new();
    write_quoted_forwarded_value(&mut out, value);
    proof {
        assert(out@ =~= quoted_string(value@));
    }
    out
}

/// Appends a text as a quoted string.
pub fn write_quoted_forwarded_value(out: &mut String, value: &str)
    ensures
        final(out)@ == old(out)@ + quoted_string(value@),
{
    let chars = chars_of(value);
    out.push('"');
    let ghost start = out@;
    let mut i: usize = 0;
    proof {
        assert(value@.take(0) =~= Seq::empty());
        assert(start + escaped(value@.take(0)) =~= start);
    }
    while i < chars.len()
        invariant
            chars@ == value@,
            i <= chars@.len(),
            out@ == start + escaped(value@.take(i as int)),
        decreases chars@.len() - i,
    {
        let c: char = chars[i];
        proof {
            assert(value@.take(i + 1).drop_last() =~= value@.take(i as int));
            assert(value@.take(i + 1).last() == c);
        }
        let ghost before = out@;
        if c == '"' || c == '\\' {
            out.push('\\');
        }
        out.push(c);
        proof {
            assert(out@ =~= start + escaped(value@.take(i + 1)));
        }
        i += 1;
    }
    proof {
        assert(value@.take(value@.len() as int) =~= value@);
    }
    out.push('"');
    proof {
        assert(out@ =~= old(out)@ + quoted_string(value@));
    }
}

/// An address as the `for` parameter wants it: an IPv6 address in brackets and
/// quotes.
pub open spec fn for_param(addr: ClientAddr) -> Seq<char> {
    match addr.ip {
        IpValue::V4(_) => addr.text@,
        IpValue::V6(_) => "\"["@ + addr.text@ + "]\""@,
    }
}

/// Appends an address as the `for` parameter wants it.
pub fn write_for_param(out: &mut String, addr: &ClientAddr)
    ensures
        final(out)@ == old(out)@ + for_param(*addr),
{
    match addr.ip {
        IpValue::V4(_) => {
            out.push_str(addr.text.as_str());
        },
        IpValue::V6(_) => {
            out.push_str("\"[");
            out.push_str(addr.text.as_str());
            out.push_str("]\"");
        },
    }
    proof {
        assert(out@ =~= old(out)@ + for_param(*addr));
    }
}

/// The chain of a header with a separator behind it, where the peer is trusted
/// and there is one.
pub open spec fn believed_chain(
    lines: Seq<(Seq<char>, Seq<u8>)>,
    name: Seq<char>,
    trusted: bool,
) -> Seq<char> {
    match chain_of(lines, name) {
        Some(chain) => if trusted {
            chain + ", "@
        } else {
            Seq::empty()
        },
        None => Seq::empty(),
    }
}

/// The client's protocol.
pub open spec fn proto_of(tls: bool) -> Seq<char> {
    if tls {
        "https"@
    } else {
        "http"@
    }
}

/// The `Forwarded` header.
pub open spec fn forwarded_value(
    lines: Seq<(Seq<char>, Seq<u8>)>,
    addr: ClientAddr,
    proto: Seq<char>,
    host: Option<Seq<char>>,
    trusted: bool,
) -> Seq<char> {
    believed_chain(lines, "forwarded"@, trusted) + "for="@ + for_param(addr) + ";proto="@ + proto
        + match host {
        Some(h) => ";host="@ + quoted_string(h),
        None => Seq::empty(),
    }
}

/// The host that the client asked for, if it is readable.
pub open spec fn host_of(lines: Seq<(Seq<char>, Seq<u8>)>) -> Option<Seq<char>> {
    opt_value_text(first_value(lines, "host"@))
}

/// The headers that are added to a request.
pub open spec fn added_headers(
    filter: ForwardedHeadersFilter,
    addr: ClientAddr,
    tls: bool,
    lines: Seq<(Seq<char>, Seq<u8>)>,
) -> Seq<(Seq<char>, Seq<char>)> {
    let trusted = trusted_ip(filter.trusted_proxies@, addr.ip);
    let host = host_of(lines);
    let base = seq![
        (
            "X-Forwarded-For"@,
            believed_chain(lines, "x-forwarded-for"@, trusted) + addr.text@,
        ),
        ("X-Forwarded-Proto"@, proto_of(tls)),
    ];
    let standard = if filter.use_standard_header {
        seq![
            (
                "Forwarded"@,
                forwarded_value(lines, addr, proto_of(tls), host, trusted),
            ),
        ]
    } else {
        Seq::empty()
    };
    let named = match host {
        Some(h) => seq![("X-Forwarded-Host"@, h)],
        None => Seq::empty(),
    };
    base + standard + named
}

/// The headers that are removed from a request: what an untrusted client claims
/// and the filter does not overwrite.
pub open spec fn removed_headers(
    filter: ForwardedHeadersFilter,
    addr: ClientAddr,
    lines: Seq<(Seq<char>, Seq<u8>)>,
) -> Seq<Seq<char>> {
    if trusted_ip(filter.trusted_proxies@, addr.ip) {
        Seq::empty()
    } else {
        let standard = if filter.use_standard_header {
            Seq::empty()
        } else {
            seq!["forwarded"@]
        };
        let named = if host_of(lines) is None {
            seq!["x-forwarded-host"@]
        } else {
            Seq::empty()
        };
        standard + named
    }
}

/// Adds a header to the upstream request.
fn add_header(ctx: &mut ForwardContext, name: &str, value: String)
    ensures
        *final(ctx) == (ForwardContext {
            extra_request_headers: final(ctx).extra_request_headers,
            ..*old(ctx)
        }),
        pairs(final(ctx).extra_request_headers@) == pairs(old(ctx).extra_request_headers@).push(
            (name@, value@),
        ),
{
    ctx.extra_request_headers.push((name.to_owned(), value));
    proof {
        assert(pairs(ctx.extra_request_headers@) =~= pairs(old(ctx).extra_request_headers@).push(
            (name@, value@),
        ));
    }
}

/// Removes a header from the upstream request.
fn remove_header(ctx: &mut ForwardContext, name: &str)
    ensures
        *final(ctx) == (ForwardContext {
            request_headers_to_remove: final(ctx).request_headers_to_remove,
            ..*old(ctx)
        }),
        texts(final(ctx).request_headers_to_remove@) == texts(
            old(ctx).request_headers_to_remove@,
        ).push(name@),
{
    ctx.request_headers_to_remove.push(name.to_owned());
    proof {
        assert(texts(ctx.request_headers_to_remove@) =~= texts(
            old(ctx).request_headers_to_remove@,
        ).push(name@));
    }
}

impl ForwardedHeadersFilter {
    /// Builds the filter from the trusted ranges, each parsed or refused.
    pub fn from_config(
        trusted_proxies: Vec<Result<CidrRange, String>>,
        use_standard_header: bool,
    ) -> (r: Result<ForwardedHeadersFilter, FilterError>)
        ensures
            match first_refusal(trusted_proxies@) {
                Some(why) => r is Err && r->Err_0@ == "forwarded_headers: "@ + why,
                None => {
                    &&& r is Ok
                    &&& r->Ok_0.use_standard_header == use_standard_header
                    &&& r->Ok_0.trusted_proxies@.len() == trusted_proxies@.len()
                    &&& forall|i: int|
                        0 <= i < trusted_proxies@.len() ==> Ok::<CidrRange, String>(
                            #[trigger] r->Ok_0.trusted_proxies@[i],
                        ) == trusted_proxies@[i]
                },
            },
    {
        let mut ranges: Vec<CidrRange> = Vec::new();
        let mut i: usize = 0;
        proof {
            assert(trusted_proxies@.skip(0) =~= trusted_proxies@);
        }
        while i < trusted_proxies.len()
            invariant
                i <= trusted_proxies@.len(),
                first_refusal(trusted_proxies@.skip(i as int)) == first_refusal(trusted_proxies@),
                ranges@.len() == i,
                forall|k: int|
                    0 <= k < i ==> Ok::<CidrRange, String>(#[trigger] ranges@[k])
                        == trusted_proxies@[k],
            decreases trusted_proxies@.len() - i,
        {
            proof {
                assert(trusted_proxies@.skip(i as int)[0] == trusted_proxies@[i as int]);
                assert(trusted_proxies@.skip(i as int).skip(1) =~= trusted_proxies@.skip(i + 1));
            }
            match &trusted_proxies[i] {
                Ok(range) => {
                    ranges.push(*range);
                },
                Err(why) => {
                    return Err(FilterError::new(concat2("forwarded_headers: ", why.as_str())));
                },
            }
            i += 1;
        }
        Ok(ForwardedHeadersFilter { trusted_proxies: ranges, use_standard_header })
    }

    /// The filter's name.
    pub fn name(&self) -> (r: &'static str)
        ensures
            r@ == "forwarded_headers"@,
    {
        "forwarded_headers"
    }

    /// Whether forwarding headers from this address are believed.
    pub fn is_trusted(&self, ip: IpValue) -> (r: bool)
        ensures
            r == trusted_ip(self.trusted_proxies@, ip),
    {
        let mut i: usize = 0;
        while i < self.trusted_proxies.len()
            invariant
                i <= self.trusted_proxies@.len(),
                forall|k: int| 0 <= k < i ==> !in_range(#[trigger] self.trusted_proxies@[k], ip),
            decreases self.trusted_proxies@.len() - i,
        {
            if self.trusted_proxies[i].contains(ip) {
                proof {
                    assert(in_range(self.trusted_proxies@[i as int], ip));
                }
                return true;
            }
            i += 1;
        }
        false
    }

    /// The standard `Forwarded` header, with the chain of a trusted peer before
    /// the client's own entry.
    pub fn standard_forwarded(
        headers: &HeaderMap,
        addr: &ClientAddr,
        proto: &str,
        host: Option<&str>,
        trusted: bool,
    ) -> (r: String)
        ensures
            r@ == forwarded_value(
                headers@,
                *addr,
                proto@,
                match host {
                    Some(h) => Some(h@),
                    None => None,
                },
                trusted,
            ),
    {
        let mut value = String::new();
        if trusted {
            if push_forwarding_chain(&mut value, headers, "forwarded") {
                value.push_str(", ");
            }
        }
        proof {
            assert(value@ =~= believed_chain(headers@, "forwarded"@, trusted));
        }
        value.push_str("for=");
        write_for_param(&mut value, addr);
        value.push_str(";proto=");
        value.push_str(proto);
        let ghost before = value@;
        if let Some(h) = host {
            value.push_str(";host=");
            write_quoted_forwarded_value(&mut value, h);
            proof {
                assert(value@ =~= before + (";host="@ + quoted_string(h@)));
            }
        }
        proof {
            assert(before + Seq::<char>::empty() =~= before);
        }
        value
    }

    /// Removes what an untrusted client claims and the filter does not overwrite.
    pub fn neutralize_untrusted_forwarding(
        &self,
        ctx: &mut ForwardContext,
        trusted: bool,
        no_host: bool,
    )
        ensures
            *final(ctx) == (ForwardContext {
                request_headers_to_remove: final(ctx).request_headers_to_remove,
                ..*old(ctx)
            }),
            texts(final(ctx).request_headers_to_remove@) == texts(
                old(ctx).request_headers_to_remove@,
            ) + if trusted {
                Seq::empty()
            } else {
                (if self.use_standard_header {
                    Seq::empty()
                } else {
                    seq!["forwarded"@]
                }) + (if no_host {
                    seq!["x-forwarded-host"@]
                } else {
                    Seq::empty()
                })
            },
    {
        let ghost before = texts(ctx.request_headers_to_remove@);
        if !trusted {
            if !self.use_standard_header {
                remove_header(ctx, "forwarded");
            }
            if no_host {
                remove_header(ctx, "x-forwarded-host");
            }
        }
        proof {
            assert(texts(ctx.request_headers_to_remove@) =~= before + if trusted {
                Seq::empty()
            } else {
                (if self.use_standard_header {
                    Seq::empty()
                } else {
                    seq!["forwarded"@]
                }) + (if no_host {
                    seq!["x-forwarded-host"@]
                } else {
                    Seq::empty()
                })
            });
        }
    }

    /// The request hook: adds the forwarding headers and removes what an
    /// untrusted client claims. Without a client address it does nothing.
    pub fn on_request(&self, ctx: &mut ForwardContext) -> (r: FilterAction<()>)
        ensures
            r is Continue,
            old(ctx).client_addr is None ==> *final(ctx) == *old(ctx),
            old(ctx).client_addr matches Some(addr) ==> {
                &&& *final(ctx) == (ForwardContext {
                    extra_request_headers: final(ctx).extra_request_headers,
                    request_headers_to_remove: final(ctx).request_headers_to_remove,
                    ..*old(ctx)
                })
                &&& pairs(final(ctx).extra_request_headers@) == pairs(
                    old(ctx).extra_request_headers@,
                ) + added_headers(*self, addr, old(ctx).downstream_tls, old(ctx).headers@)
                &&& texts(final(ctx).request_headers_to_remove@) == texts(
                    old(ctx).request_headers_to_remove@,
                ) + removed_headers(*self, addr, old(ctx).headers@)
            },
    {
        let addr = match &ctx.client_addr {
            Some(addr) => ClientAddr { ip: addr.ip, text: addr.text.clone() },
            None => {
                return FilterAction::Continue;
            },
        };
        let ghost start = pairs(ctx.extra_request_headers@);
        let ghost lines = ctx.headers@;
        let trusted = self.is_trusted(addr.ip);
        let mut xff = String::new();
        if trusted {
            if push_forwarding_chain(&mut xff, &ctx.headers, "x-forwarded-for") {
                xff.push_str(", ");
            }
        }
        proof {
            assert(xff@ =~= believed_chain(lines, "x-forwarded-for"@, trusted));
        }
        xff.push_str(addr.text.as_str());
        add_header(ctx, "X-Forwarded-For", xff);
        let proto = if ctx.downstream_tls {
            "https"
        } else {
            "http"
        };
        add_header(ctx, "X-Forwarded-Proto", proto.to_owned());
        let host = ctx.headers.first_text("host");
        let no_host = host.is_none();
        if self.use_standard_header {
            let host_text = match &host {
                Some(h) => Some(h.as_str()),
                None => None,
            };
            let value = ForwardedHeadersFilter::standard_forwarded(
                &ctx.headers,
                &addr,
                proto,
                host_text,
                trusted,
            );
            add_header(ctx, "Forwarded", value);
        }
        if let Some(h) = host {
            add_header(ctx, "X-Forwarded-Host", h);
        }
        proof {
            assert(pairs(ctx.extra_request_headers@) =~= start + added_headers(
                *self,
                addr,
                ctx.downstream_tls,
                lines,
            ));
        }
        self.neutralize_untrusted_forwarding(ctx, trusted, no_host);
        FilterAction::Continue
    }
}

/// Why the first refused range was refused.
pub open spec fn first_refusal(ranges: Seq<Result<CidrRange, String>>) -> Option<Seq<char>>
    decreases ranges.len(),
{
    if ranges.len() == 0 {
        None
    } else {
        match ranges[0] {
            Err(why) => Some(why@),
            Ok(_) => first_refusal(ranges.skip(1)),
        }
    }
}

proof fn lemma_same_quotient(a: nat, b: nat, d: nat)
    requires
        d > 0,
    ensures
        a / d == b / d <==> a / d * d <= b < a / d * d + d,
{
    vstd::arithmetic::div_mod::lemma_fundamental_div_mod(b as int, d as int);
    let q = (a / d) as int;
    assert(q * d <= b < q * d + d ==> b as int / d as int == q) by (nonlinear_arith)
        requires
            d > 0,
    ;
    assert((b as int / d as int) * d == d * (b as int / d as int)) by (nonlinear_arith);
}

proof fn lemma_pow2_widths()
    ensures
        pow2(0) == 1,
        pow2(32) == u32::MAX + 1,
        pow2(128) == u128::MAX + 1,
{
    vstd::arithmetic::power2::lemma2_to64();
    vstd::arithmetic::power2::lemma2_to64_rest();
    vstd::arithmetic::power2::lemma_pow2_adds(64, 64);
    assert(pow2(64) * pow2(64) == 0x1_0000_0000_0000_0000nat * 0x1_0000_0000_0000_0000nat);
}

/// An IPv4 address lies in a range exactly where it has the range's first
/// `prefix` bits: both numbers are the same multiple of the range's size.
pub proof fn law_v4_range_is_prefix(a: u32, prefix: u8, b: u32)
    requires
        prefix <= 32,
    ensures
        in_range(CidrRange { ip: IpValue::V4(a), prefix }, IpValue::V4(b)) <==> a as nat / pow2(
            (32 - prefix) as nat,
        ) == b as nat / pow2((32 - prefix) as nat),
{
    lemma_pow2_widths();
    if prefix == 0 {
        vstd::arithmetic::div_mod::lemma_basic_div(a as int, pow2(32) as int);
        vstd::arithmetic::div_mod::lemma_basic_div(b as int, pow2(32) as int);
    } else if prefix < 32 {
        vstd::bits::lemma_u32_shr_is_div(a, (32 - prefix) as u32);
        vstd::bits::lemma_u32_shr_is_div(b, (32 - prefix) as u32);
    } else {
        vstd::arithmetic::div_mod::lemma_div_basics(a as int);
        vstd::arithmetic::div_mod::lemma_div_basics(b as int);
    }
}

/// An IPv6 address lies in a range exactly where it has the range's first
/// `prefix` bits.
pub proof fn law_v6_range_is_prefix(a: u128, prefix: u8, b: u128)
    requires
        prefix <= 128,
    ensures
        in_range(CidrRange { ip: IpValue::V6(a), prefix }, IpValue::V6(b)) <==> a as nat / pow2(
            (128 - prefix) as nat,
        ) == b as nat / pow2((128 - prefix) as nat),
{
    lemma_pow2_widths();
    if prefix == 0 {
        vstd::arithmetic::div_mod::lemma_basic_div(a as int, pow2(128) as int);
        vstd::arithmetic::div_mod::lemma_basic_div(b as int, pow2(128) as int);
    } else if prefix < 128 {
        vstd::bits::lemma_u128_shr_is_div(a, (128 - prefix) as u128);
        vstd::bits::lemma_u128_shr_is_div(b, (128 - prefix) as u128);
    } else {
        vstd::arithmetic::div_mod::lemma_div_basics(a as int);
        vstd::arithmetic::div_mod::lemma_div_basics(b as int);
    }
}

/// The IPv4 addresses of a range, as numbers.
pub open spec fn v4_members(a: u32, prefix: u8) -> Set<int> {
    Set::new(
        |b: int|
            0 <= b <= u32::MAX && in_range(
                CidrRange { ip: IpValue::V4(a), prefix },
                IpValue::V4(b as u32),
            ),
    )
}

/// The IPv6 addresses of a range, as numbers.
pub open spec fn v6_members(a: u128, prefix: u8) -> Set<int> {
    Set::new(
        |b: int|
            0 <= b <= u128::MAX && in_range(
                CidrRange { ip: IpValue::V6(a), prefix },
                IpValue::V6(b as u128),
            ),
    )
}

proof fn lemma_block_fits(a: nat, k: nat, width: nat)
    requires
        k <= width,
        a < pow2(width),
    ensures
        a / pow2(k) * pow2(k) + pow2(k) <= pow2(width),
{
    let d = pow2(k) as int;
    let n = pow2((width - k) as nat) as int;
    vstd::arithmetic::power2::lemma_pow2_pos(k);
    vstd::arithmetic::power2::lemma_pow2_adds((width - k) as nat, k);
    vstd::arithmetic::div_mod::lemma_fundamental_div_mod(a as int, d);
    let q = a as int / d;
    assert(q < n) by (nonlinear_arith)
        requires
            a < n * d,
            a == d * q + a as int % d,
            0 <= a as int % d,
            d > 0,
    ;
    assert(q * d + d <= n * d) by (nonlinear_arith)
        requires
            q + 1 <= n,
            d > 0,
    ;
}

/// A range of IPv4 addresses holds as many addresses as its free bits can
/// write, all next to each other, its own address among them.
pub proof fn law_v4_range_size(a: u32, prefix: u8)
    requires
        prefix <= 32,
    ensures
        v4_members(a, prefix).contains(a as int),
        v4_members(a, prefix).finite(),
        v4_members(a, prefix).len() == pow2((32 - prefix) as nat),
        v4_members(a, prefix) == set_int_range(
            (a as nat / pow2((32 - prefix) as nat) * pow2((32 - prefix) as nat)) as int,
            (a as nat / pow2((32 - prefix) as nat) * pow2((32 - prefix) as nat) + pow2(
                (32 - prefix) as nat,
            )) as int,
        ),
{
    let k = (32 - prefix) as nat;
    let lo = a as nat / pow2(k) * pow2(k);
    lemma_pow2_widths();
    vstd::arithmetic::power2::lemma_pow2_pos(k);
    lemma_block_fits(a as nat, k, 32);
    vstd::set_lib::lemma_int_range(lo as int, (lo + pow2(k)) as int);
    assert forall|b: int| v4_members(a, prefix).contains(b) <==> lo <= b < lo + pow2(k) by {
        if 0 <= b <= u32::MAX {
            law_v4_range_is_prefix(a, prefix, b as u32);
            lemma_same_quotient(a as nat, b as nat, pow2(k));
        }
    }
    law_v4_range_is_prefix(a, prefix, a);
    assert(v4_members(a, prefix) =~= set_int_range(lo as int, (lo + pow2(k)) as int));
}

/// A range of IPv6 addresses holds as many addresses as its free bits can
/// write, all next to each other, its own address among them.
pub proof fn law_v6_range_size(a: u128, prefix: u8)
    requires
        prefix <= 128,
    ensures
        v6_members(a, prefix).contains(a as int),
        v6_members(a, prefix).finite(),
        v6_members(a, prefix).len() == pow2((128 - prefix) as nat),
        v6_members(a, prefix) == set_int_range(
            (a as nat / pow2((128 - prefix) as nat) * pow2((128 - prefix) as nat)) as int,
            (a as nat / pow2((128 - prefix) as nat) * pow2((128 - prefix) as nat) + pow2(
                (128 - prefix) as nat,
            )) as int,
        ),
{
    let k = (128 - prefix) as nat;
    let lo = a as nat / pow2(k) * pow2(k);
    lemma_pow2_widths();
    vstd::arithmetic::power2::lemma_pow2_pos(k);
    lemma_block_fits(a as nat, k, 128);
    vstd::set_lib::lemma_int_range(lo as int, (lo + pow2(k)) as int);
    assert forall|b: int| v6_members(a, prefix).contains(b) <==> lo <= b < lo + pow2(k) by {
        if 0 <= b <= u128::MAX {
            law_v6_range_is_prefix(a, prefix, b as u128);
            lemma_same_quotient(a as nat, b as nat, pow2(k));
        }
    }
    law_v6_range_is_prefix(a, prefix, a);
    assert(v6_members(a, prefix) =~= set_int_range(lo as int, (lo + pow2(k)) as int));
}

proof fn lemma_quotients_nest(a: nat, b: nat, k: nat)
    requires
        a / pow2(k) == b / pow2(k),
    ensures
        a / pow2(k + 1) == b / pow2(k + 1),
{
    vstd::arithmetic::power2::lemma_pow2_pos(k);
    vstd::arithmetic::power2::lemma_pow2_unfold(k + 1);
    vstd::arithmetic::div_mod::lemma_div_denominator(a as int, pow2(k) as int, 2);
    vstd::arithmetic::div_mod::lemma_div_denominator(b as int, pow2(k) as int, 2);
    assert(pow2(k + 1) == pow2(k) * 2);
}

/// Ranges nest: one that shares a bit fewer holds all that the narrower one
/// holds. A range of one family never holds an address of the other.
pub proof fn law_ranges_nest(ip: IpValue, prefix: u8, other: IpValue)
    requires
        ip is V4 ==> prefix < 32,
        ip is V6 ==> prefix < 128,
    ensures
        in_range(CidrRange { ip, prefix: (prefix + 1) as u8 }, other) ==> in_range(
            CidrRange { ip, prefix },
            other,
        ),
        in_range(CidrRange { ip, prefix }, other) ==> (ip is V4 <==> other is V4),
{
    match (ip, other) {
        (IpValue::V4(a), IpValue::V4(b)) => {
            law_v4_range_is_prefix(a, prefix, b);
            law_v4_range_is_prefix(a, (prefix + 1) as u8, b);
            if in_range(CidrRange { ip, prefix: (prefix + 1) as u8 }, other) {
                lemma_quotients_nest(a as nat, b as nat, (31 - prefix) as nat);
            }
        },
        (IpValue::V6(a), IpValue::V6(b)) => {
            law_v6_range_is_prefix(a, prefix, b);
            law_v6_range_is_prefix(a, (prefix + 1) as u8, b);
            if in_range(CidrRange { ip, prefix: (prefix + 1) as u8 }, other) {
                lemma_quotients_nest(a as nat, b as nat, (127 - prefix) as nat);
            }
        },
        _ => {},
    }
}

/// What an untrusted client claims never reaches the upstream: its address is
/// the connection's alone, and each of the other claims is overwritten or
/// removed.
pub proof fn law_untrusted_claims_dropped(
    filter: ForwardedHeadersFilter,
    addr: ClientAddr,
    tls: bool,
    lines: Seq<(Seq<char>, Seq<u8>)>,
)
    requires
        !trusted_ip(filter.trusted_proxies@, addr.ip),
    ensures
        added_headers(filter, addr, tls, lines)[0] == ("X-Forwarded-For"@, addr.text@),
        added_headers(filter, addr, tls, lines)[1] == ("X-Forwarded-Proto"@, proto_of(tls)),
        filter.use_standard_header ==> added_headers(filter, addr, tls, lines)[2] == (
            "Forwarded"@,
            forwarded_value(Seq::empty(), addr, proto_of(tls), host_of(lines), false),
        ),
        !filter.use_standard_header ==> removed_headers(filter, addr, lines).contains(
            "forwarded"@,
        ),
        host_of(lines) is None ==> removed_headers(filter, addr, lines).contains(
            "x-forwarded-host"@,
        ),
        host_of(lines) matches Some(h) ==> added_headers(filter, addr, tls, lines).last() == (
            "X-Forwarded-Host"@,
            h,
        ),
{
    let removed = removed_headers(filter, addr, lines);
    assert(Seq::<char>::empty() + addr.text@ =~= addr.text@);
    if !filter.use_standard_header {
        assert(removed[0] == "forwarded"@);
    }
    if host_of(lines) is None {
        assert(removed.last() == "x-forwarded-host"@);
        assert(removed[removed.len() - 1] == "x-forwarded-host"@);
    }
}

/// The whole chain of a trusted proxy is kept, in order, before the client's
/// address; a line anywhere that is not UTF-8 drops all of it.
pub proof fn law_trusted_chain_kept(
    filter: ForwardedHeadersFilter,
    addr: ClientAddr,
    tls: bool,
    lines: Seq<(Seq<char>, Seq<u8>)>,
)
    requires
        trusted_ip(filter.trusted_proxies@, addr.ip),
    ensures
        added_headers(filter, addr, tls, lines)[0].1 == match chain_of(
            lines,
            "x-forwarded-for"@,
        ) {
            Some(chain) => chain + ", "@ + addr.text@,
            None => addr.text@,
        },
        removed_headers(filter, addr, lines).len() == 0,
{
    assert(Seq::<char>::empty() + addr.text@ =~= addr.text@);
}

/// Reads a quoted string behind its opening quote, from the front: a backslash
/// stands for the character after it, and the first other quote ends the string.
/// Answers the text and what follows the closing quote, if there is one.
pub open spec fn read_quoted(s: Seq<char>) -> Option<(Seq<char>, Seq<char>)>
    decreases s.len(),
{
    if s.len() == 0 {
        None
    } else if s[0] == '"' {
        Some((Seq::empty(), s.skip(1)))
    } else if s[0] == '\\' {
        if s.len() == 1 {
            None
        } else {
            match read_quoted(s.skip(2)) {
                Some((text, rest)) => Some((seq![s[1]] + text, rest)),
                None => None,
            }
        }
    } else {
        match read_quoted(s.skip(1)) {
            Some((text, rest)) => Some((seq![s[0]] + text, rest)),
            None => None,
        }
    }
}

proof fn lemma_escaped_front(s: Seq<char>)
    requires
        s.len() > 0,
    ensures
        escaped(s) == escaped(seq![s[0]]) + escaped(s.skip(1)),
        escaped(seq![s[0]]) == if s[0] == '"' || s[0] == '\\' {
            seq!['\\', s[0]]
        } else {
            seq![s[0]]
        },
    decreases s.len(),
{
    let one = seq![s[0]];
    assert(one.drop_last() =~= Seq::empty());
    assert(escaped(one.drop_last()) =~= Seq::empty());
    if s.len() == 1 {
        assert(s =~= one);
        assert(s.skip(1) =~= Seq::empty());
        assert(escaped(s) =~= escaped(one) + escaped(s.skip(1)));
    } else {
        let front = s.drop_last();
        lemma_escaped_front(front);
        assert(front.skip(1) =~= s.skip(1).drop_last());
        assert(s.skip(1).last() == s.last());
        assert(escaped(s) =~= escaped(one) + escaped(s.skip(1)));
    }
}

/// Quoting loses nothing: a reader of a quoted host gets the host back, and
/// goes on right behind it.
pub proof fn law_quoting_round_trip(s: Seq<char>, rest: Seq<char>)
    ensures
        quoted_string(s)[0] == '"',
        read_quoted(quoted_string(s).skip(1) + rest) == Some((s, rest)),
    decreases s.len(),
{
    let wire = quoted_string(s).skip(1) + rest;
    assert(wire =~= escaped(s) + seq!['"'] + rest);
    if s.len() == 0 {
        assert(wire.skip(1) =~= rest);
        assert(s =~= Seq::empty());
    } else {
        let tail = s.skip(1);
        let inner = quoted_string(tail).skip(1) + rest;
        lemma_escaped_front(s);
        law_quoting_round_trip(tail, rest);
        let width: int = if s[0] == '"' || s[0] == '\\' {
            2
        } else {
            1
        };
        assert(wire[width - 1] == s[0]);
        assert(wire.skip(width) =~= inner);
        assert(seq![s[0]] + tail =~= s);
    }
}

/// No quote inside a quoted host ends the string early: each stands behind a
/// backslash.
pub proof fn law_quotes_escaped(s: Seq<char>, i: int)
    requires
        0 <= i < escaped(s).len(),
        escaped(s)[i] == '"',
    ensures
        i > 0 && escaped(s)[i - 1] == '\\',
    decreases s.len(),
{
    if s.len() > 0 {
        let front = escaped(s.drop_last());
        if i < front.len() {
            assert(escaped(s)[i] == front[i]);
            law_quotes_escaped(s.drop_last(), i);
            assert(escaped(s)[i - 1] == front[i - 1]);
        }
    }
}

proof fn lemma_all_texts(values: Seq<Seq<u8>>)
    ensures
        all_texts(values) is Some <==> forall|i: int|
            0 <= i < values.len() ==> vstd::utf8::valid_utf8(#[trigger] values[i]),
        all_texts(values) matches Some(parts) ==> parts == Seq::new(
            values.len(),
            |i: int| vstd::utf8::decode_utf8(values[i]),
        ),
    decreases values.len(),
{
    if values.len() > 0 {
        let front = values.drop_last();
        let last = values.len() - 1;
        lemma_all_texts(front);
        assert forall|i: int| 0 <= i < last implies #[trigger] values[i] == front[i] by {}
        assert(values[last] == values.last());
        if all_texts(front) is None {
            let i = choose|i: int|
                0 <= i < front.len() && !vstd::utf8::valid_utf8(#[trigger] front[i]);
            assert(!vstd::utf8::valid_utf8(values[i]));
        } else {
            assert forall|i: int| 0 <= i < last implies vstd::utf8::valid_utf8(
                #[trigger] values[i],
            ) by {
                assert(vstd::utf8::valid_utf8(front[i]));
            }
            if all_texts(values) is Some {
                assert(all_texts(values)->0 =~= Seq::new(
                    values.len(),
                    |i: int| vstd::utf8::decode_utf8(values[i]),
                ));
            }
        }
    } else {
        assert(all_texts(values)->0 =~= Seq::new(
            0,
            |i: int| vstd::utf8::decode_utf8(values[i]),
        ));
    }
}

/// The chain of a header is the texts of all its lines, in order, with a comma
/// and a space between them. There is none without a line, nor where any line is
/// not UTF-8.
pub proof fn law_chain_is_all_lines(lines: Seq<(Seq<char>, Seq<u8>)>, name: Seq<char>)
    ensures
        ({
            let values = lines.filter(|l: (Seq<char>, Seq<u8>)| l.0 == name).map_values(
                |l: (Seq<char>, Seq<u8>)| l.1,
            );
            let readable = values.len() > 0 && forall|i: int|
                0 <= i < values.len() ==> vstd::utf8::valid_utf8(#[trigger] values[i]);
            &&& chain_of(lines, name) is Some <==> readable
            &&& readable ==> chain_of(lines, name) == Some(
                joined(
                    Seq::new(values.len(), |i: int| vstd::utf8::decode_utf8(values[i])),
                    ", "@,
                ),
            )
        }),
{
    crate::headers::law_lines_by_name(lines, name);
    lemma_all_texts(all_values(lines, name));
}

/// The standard header names the client's address, protocol and host: an IPv6
/// address in brackets and quotes, the host as a quoted string, and the chain of
/// a peer that is believed before them.
pub proof fn law_standard_header(
    lines: Seq<(Seq<char>, Seq<u8>)>,
    addr: ClientAddr,
    proto: Seq<char>,
    host: Option<Seq<char>>,
    trusted: bool,
)
    ensures
        ({
            let node = if addr.ip is V6 {
                "for=\"["@ + addr.text@ + "]\""@
            } else {
                "for="@ + addr.text@
            };
            let own = if host is Some {
                node + ";proto="@ + proto + ";host="@ + seq!['"'] + escaped(host->0) + seq!['"']
            } else {
                node + ";proto="@ + proto
            };
            let chain = chain_of(lines, "forwarded"@);
            forwarded_value(lines, addr, proto, host, trusted) == if trusted && chain is Some {
                chain->0 + ", "@ + own
            } else {
                own
            }
        }),
{
    reveal_strlit("for=\"[");
    reveal_strlit("for=");
    reveal_strlit("\"[");
    assert("for=\"["@ =~= "for="@ + "\"["@);
    let node = if addr.ip is V6 {
        "for=\"["@ + addr.text@ + "]\""@
    } else {
        "for="@ + addr.text@
    };
    let own = if host is Some {
        node + ";proto="@ + proto + ";host="@ + seq!['"'] + escaped(host->0) + seq!['"']
    } else {
        node + ";proto="@ + proto
    };
    let chain = chain_of(lines, "forwarded"@);
    if trusted && chain is Some {
        assert(forwarded_value(lines, addr, proto, host, trusted) =~= chain->0 + ", "@ + own);
    } else {
        assert(forwarded_value(lines, addr, proto, host, trusted) =~= own);
    }
}

/// Which headers are added, whoever the client is: address and protocol always,
/// the standard header where it is asked for, and the host where it is known; and
/// which are removed: of a client that is not believed those that none of the
/// added ones overwrites.
pub proof fn law_headers_added_and_removed(
    filter: ForwardedHeadersFilter,
    addr: ClientAddr,
    tls: bool,
    lines: Seq<(Seq<char>, Seq<u8>)>,
)
    ensures
        ({
            let added = added_headers(filter, addr, tls, lines);
            let removed = removed_headers(filter, addr, lines);
            let host = opt_value_text(first_value(lines, "host"@));
            let trusted = exists|i: int|
                0 <= i < filter.trusted_proxies@.len() && in_range(
                    #[trigger] filter.trusted_proxies@[i],
                    addr.ip,
                );
            &&& added.len() == 2 + (if filter.use_standard_header {
                1int
            } else {
                0
            }) + (if host is Some {
                1int
            } else {
                0
            })
            &&& added[0].0 == "X-Forwarded-For"@
            &&& added[1] == ("X-Forwarded-Proto"@, if tls {
                "https"@
            } else {
                "http"@
            })
            &&& filter.use_standard_header ==> added[2] == (
                "Forwarded"@,
                forwarded_value(
                    lines,
                    addr,
                    if tls {
                        "https"@
                    } else {
                        "http"@
                    },
                    host,
                    trusted,
                ),
            )
            &&& host matches Some(h) ==> added.last() == ("X-Forwarded-Host"@, h)
            &&& trusted ==> removed.len() == 0
            &&& !trusted ==> {
                &&& removed.contains("forwarded"@) <==> !filter.use_standard_header
                &&& removed.contains("x-forwarded-host"@) <==> host is None
                &&& forall|i: int|
                    0 <= i < removed.len() ==> (#[trigger] removed[i] == "forwarded"@ || removed[i]
                        == "x-forwarded-host"@)
            }
        }),
{
    let removed = removed_headers(filter, addr, lines);
    reveal_strlit("forwarded");
    reveal_strlit("x-forwarded-host");
    assert("forwarded"@.len() != "x-forwarded-host"@.len());
    if !trusted_ip(filter.trusted_proxies@, addr.ip) {
        if !filter.use_standard_header {
            assert(removed[0] == "forwarded"@);
        }
        if host_of(lines) is None {
            assert(removed[removed.len() - 1] == "x-forwarded-host"@);
        }
    }
}

/// A host without quotes and backslashes is quoted as it is.
pub proof fn law_plain_host_kept(s: Seq<char>)
    requires
        forall|i: int| 0 <= i < s.len() ==> #[trigger] s[i] != '"' && s[i] != '\\',
    ensures
        quoted_string(s) == seq!['"'] + s + seq!['"'],
{
    lemma_plain_kept(s);
}

proof fn lemma_plain_kept(s: Seq<char>)
    requires
        forall|i: int| 0 <= i < s.len() ==> #[trigger] s[i] != '"' && s[i] != '\\',
    ensures
        escaped(s) == s,
    decreases s.len(),
{
    if s.len() > 0 {
        assert(s[s.len() - 1] == s.last());
        assert forall|i: int| 0 <= i < s.drop_last().len() implies #[trigger] s.drop_last()[i] != '"'
            && s.drop_last()[i] != '\\' by {
            assert(s.drop_last()[i] == s[i]);
        }
        lemma_plain_kept(s.drop_last());
        assert(s.drop_last().push(s.last()) =~= s);
    }
}

/// The first range that is refused decides; where none is, all are accepted.
pub proof fn law_first_refused_range(ranges: Seq<Result<CidrRange, String>>)
    ensures
        first_refusal(ranges) is None <==> forall|i: int|
            0 <= i < ranges.len() ==> #[trigger] ranges[i] is Ok,
        forall|i: int|
            #![trigger ranges[i]]
            0 <= i < ranges.len() && ranges[i] is Err && (forall|j: int|
                0 <= j < i ==> #[trigger] ranges[j] is Ok) ==> first_refusal(ranges) == Some(
                ranges[i]->Err_0@,
            ),
    decreases ranges.len(),
{
    if ranges.len() > 0 && ranges[0] is Ok {
        let rest = ranges.skip(1);
        law_first_refused_range(rest);
        assert forall|i: int|
            #![trigger ranges[i]]
            0 <= i < ranges.len() && ranges[i] is Err && (forall|j: int|
                0 <= j < i ==> #[trigger] ranges[j] is Ok) implies first_refusal(ranges) == Some(
            ranges[i]->Err_0@,
        ) by {
            assert(rest[i - 1] == ranges[i]);
            assert forall|j: int| 0 <= j < i - 1 implies #[trigger] rest[j] is Ok by {
                assert(rest[j] == ranges[j + 1]);
            }
        }
        if first_refusal(rest) is None {
            assert forall|i: int| 0 <= i < ranges.len() implies #[trigger] ranges[i] is Ok by {
                if i > 0 {
                    assert(rest[i - 1] == ranges[i]);
                }
            }
        } else {
            let k = choose|k: int| 0 <= k < rest.len() && !(#[trigger] rest[k] is Ok);
            assert(!(ranges[k + 1] is Ok));
        }
    }
}

/// What `contains` answers: for an IPv4 range whether the address has its first
/// bits, likewise for an IPv6 range, and for an address of the other family no.
pub proof fn law_contains_by_prefix(range: CidrRange, ip: IpValue, r: bool)
    requires
        call_ensures(CidrRange::contains, (&range, ip), r),
        range.ip is V4 ==> range.prefix <= 32,
        range.ip is V6 ==> range.prefix <= 128,
    ensures
        range.ip is V4 && ip is V4 ==> (r <==> range.ip->V4_0 as nat / pow2(
            (32 - range.prefix) as nat,
        ) == ip->V4_0 as nat / pow2((32 - range.prefix) as nat)),
        range.ip is V6 && ip is V6 ==> (r <==> range.ip->V6_0 as nat / pow2(
            (128 - range.prefix) as nat,
        ) == ip->V6_0 as nat / pow2((128 - range.prefix) as nat)),
        (range.ip is V4) != (ip is V4) ==> !r,
{
    match (range.ip, ip) {
        (IpValue::V4(a), IpValue::V4(b)) => {
            law_v4_range_is_prefix(a, range.prefix, b);
        },
        (IpValue::V6(a), IpValue::V6(b)) => {
            law_v6_range_is_prefix(a, range.prefix, b);
        },
        _ => {},
    }
}

/// A peer is believed exactly where one of the configured ranges contains its
/// address.
pub proof fn law_trusted_by_ranges(
    filter: ForwardedHeadersFilter,
    ip: IpValue,
    r: bool,
    i: int,
    held: bool,
)
    requires
        call_ensures(ForwardedHeadersFilter::is_trusted, (&filter, ip), r),
        0 <= i < filter.trusted_proxies@.len(),
        call_ensures(CidrRange::contains, (&filter.trusted_proxies@[i], ip), held),
    ensures
        held ==> r,
        r ==> exists|k: int|
            0 <= k < filter.trusted_proxies@.len() && in_range(
                #[trigger] filter.trusted_proxies@[k],
                ip,
            ),
{
}

/// What the upstream learns of a client: without an address nothing changes. With
/// one the added headers come behind those already there, the removed ones
/// likewise, and nothing else of the request moves.
pub proof fn law_forwarding_is_additive(
    filter: ForwardedHeadersFilter,
    ctx: &mut ForwardContext,
    r: FilterAction<()>,
)
    requires
        call_ensures(ForwardedHeadersFilter::on_request, (&filter, ctx), r),
    ensures
        r is Continue,
        old(ctx).client_addr is None ==> *final(ctx) == *old(ctx),
        final(ctx).headers == old(ctx).headers,
        final(ctx).client_addr == old(ctx).client_addr,
        final(ctx).downstream_tls == old(ctx).downstream_tls,
        old(ctx).client_addr matches Some(addr) ==> {
            let before = pairs(old(ctx).extra_request_headers@);
            let after = pairs(final(ctx).extra_request_headers@);
            let trusted = trusted_ip(filter.trusted_proxies@, addr.ip);
            &&& after.take(before.len() as int) == before
            &&& after[before.len() as int].0 == "X-Forwarded-For"@
            &&& !trusted ==> after[before.len() as int].1 == addr.text@
            &&& after[before.len() as int + 1] == ("X-Forwarded-Proto"@, if old(ctx).downstream_tls {
                "https"@
            } else {
                "http"@
            })
            &&& texts(final(ctx).request_headers_to_remove@).take(
                texts(old(ctx).request_headers_to_remove@).len() as int,
            ) == texts(old(ctx).request_headers_to_remove@)
            &&& trusted ==> texts(final(ctx).request_headers_to_remove@) == texts(
                old(ctx).request_headers_to_remove@,
            )
        },
{
    if let Some(addr) = old(ctx).client_addr {
        let before = pairs(old(ctx).extra_request_headers@);
        let after = pairs(final(ctx).extra_request_headers@);
        let added = added_headers(filter, addr, old(ctx).downstream_tls, old(ctx).headers@);
        let gone = texts(old(ctx).request_headers_to_remove@);
        let all_gone = texts(final(ctx).request_headers_to_remove@);
        law_headers_added_and_removed(filter, addr, old(ctx).downstream_tls, old(ctx).headers@);
        assert(after.take(before.len() as int) =~= before);
        assert(after[before.len() as int] == added[0]);
        assert(after[before.len() as int + 1] == added[1]);
        assert(all_gone.take(gone.len() as int) =~= gone);
        if !trusted_ip(filter.trusted_proxies@, addr.ip) {
            law_untrusted_claims_dropped(
                filter,
                addr,
                old(ctx).downstream_tls,
                old(ctx).headers@,
            );
        } else {
            assert(gone + removed_headers(filter, addr, old(ctx).headers@) =~= gone);
        }
    }
}

/// A filter trusts exactly the configured ranges, in order; the first that is
/// refused fails the configuration.
pub proof fn law_ranges_as_configured(
    ranges: Vec<Result<CidrRange, String>>,
    standard: bool,
    r: Result<ForwardedHeadersFilter, FilterError>,
    i: int,
)
    requires
        call_ensures(ForwardedHeadersFilter::from_config, (ranges, standard), r),
        0 <= i < ranges@.len(),
    ensures
        r is Ok ==> ranges@[i] is Ok && r->Ok_0.trusted_proxies@.len() == ranges@.len()
            && r->Ok_0.trusted_proxies@[i] == ranges@[i]->Ok_0 && r->Ok_0.use_standard_header
            == standard,
        ranges@[i] is Err && (forall|j: int| 0 <= j < i ==> #[trigger] ranges@[j] is Ok) ==> r
            is Err && r->Err_0@ == "forwarded_headers: "@ + ranges@[i]->Err_0@,
{
    law_first_refused_range(ranges@);
    if r is Ok {
        assert(Ok::<CidrRange, String>(r->Ok_0.trusted_proxies@[i]) == ranges@[i]);
    }
}

/// Of a peer that is not believed the standard header is removed unless it is
/// overwritten, and the claimed host exactly where there is none to overwrite it;
/// of one that is believed nothing is.
pub proof fn law_claims_neutralized(
    filter: ForwardedHeadersFilter,
    ctx: &mut ForwardContext,
    trusted: bool,
    no_host: bool,
)
    requires
        call_ensures(
            ForwardedHeadersFilter::neutralize_untrusted_forwarding,
            (&filter, ctx, trusted, no_host),
            (),
        ),
    ensures
        ({
            let before = texts(old(ctx).request_headers_to_remove@);
            let after = texts(final(ctx).request_headers_to_remove@);
            &&& trusted ==> after == before
            &&& !trusted && !filter.use_standard_header && no_host ==> after == before.push(
                "forwarded"@,
            ).push("x-forwarded-host"@)
            &&& !trusted && !filter.use_standard_header && !no_host ==> after == before.push(
                "forwarded"@,
            )
            &&& !trusted && filter.use_standard_header && no_host ==> after == before.push(
                "x-forwarded-host"@,
            )
            &&& !trusted && filter.use_standard_header && !no_host ==> after == before
            &&& final(ctx).extra_request_headers == old(ctx).extra_request_headers
            &&& final(ctx).headers == old(ctx).headers
        }),
{
}

} // verus!
