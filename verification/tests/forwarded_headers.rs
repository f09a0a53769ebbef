//! Forwarding headers.

use praxis_filter::forwarded_headers::{
    push_forwarding_chain, quote_forwarded_value, write_for_param, CidrRange, ClientAddr, ForwardContext,
    ForwardedHeadersFilter, IpValue,
};
use praxis_filter::headers::HeaderMap;

fn v4(text: &str) -> u32 {
    text.split('.').fold(0, |n, part| (n << 8) | part.parse::<u32>().unwrap())
}

fn addr(text: &str) -> ClientAddr {
    let ip = if text == "2001:db8::1" {
        IpValue::V6(0x2001_0db8_0000_0000_0000_0000_0000_0001)
    } else {
        IpValue::V4(v4(text))
    };
    ClientAddr {
        ip,
        text: text.to_owned(),
    }
}

fn cidr(text: &str) -> CidrRange {
    let (ip, prefix) = text.split_once('/').unwrap();
    CidrRange {
        ip: IpValue::V4(v4(ip)),
        prefix: prefix.parse().unwrap(),
    }
}

fn make_filter(trusted: &[&str]) -> ForwardedHeadersFilter {
    ForwardedHeadersFilter {
        trusted_proxies: trusted.iter().map(|s| cidr(s)).collect(),
        use_standard_header: false,
    }
}

fn make_standard_filter(trusted: &[&str]) -> ForwardedHeadersFilter {
    ForwardedHeadersFilter {
        trusted_proxies: trusted.iter().map(|s| cidr(s)).collect(),
        use_standard_header: true,
    }
}

fn context(headers: HeaderMap) -> ForwardContext {
    ForwardContext {
        client_addr: None,
        downstream_tls: false,
        headers,
        extra_request_headers: Vec::new(),
        request_headers_to_remove: Vec::new(),
    }
}

#[test]
fn from_config_parses() {
    let filter = ForwardedHeadersFilter::from_config(vec![Ok(cidr("10.0.0.0/8")), Ok(cidr("172.16.0.0/12"))], false)
        .unwrap_or_else(|e| panic!("{e:?}"));
    assert_eq!(
        filter.name(),
        "forwarded_headers",
        "filter name should be forwarded_headers"
    );
    assert_eq!(filter.trusted_proxies.len(), 2);
}

#[test]
fn from_config_empty_is_valid() {
    let filter = ForwardedHeadersFilter::from_config(vec![], false).unwrap_or_else(|e| panic!("{e:?}"));
    assert_eq!(
        filter.name(),
        "forwarded_headers",
        "empty config should produce valid filter"
    );
}

#[test]
fn from_config_with_standard_header() {
    let filter =
        ForwardedHeadersFilter::from_config(vec![Ok(cidr("10.0.0.0/8"))], true).unwrap_or_else(|e| panic!("{e:?}"));
    assert_eq!(filter.name(), "forwarded_headers");
    assert!(filter.use_standard_header);
}

#[test]
fn from_config_invalid_cidr_fails() {
    let ranges = vec![Ok(cidr("10.0.0.0/8")), Err("invalid CIDR 'not-a-cidr'".to_owned())];
    let err = ForwardedHeadersFilter::from_config(ranges, false)
        .err()
        .expect("invalid CIDR should fail");
    assert_eq!(err.text(), "forwarded_headers: invalid CIDR 'not-a-cidr'");
}

#[test]
fn format_for_param_ipv4() {
    let mut out = String::new();
    write_for_param(&mut out, &addr("192.168.1.1"));
    assert_eq!(out, "192.168.1.1", "IPv4 for-param should be bare address");
}

#[test]
fn format_for_param_ipv6() {
    let mut out = String::new();
    write_for_param(&mut out, &addr("2001:db8::1"));
    assert_eq!(out, "\"[2001:db8::1]\"", "IPv6 for-param must be quoted with brackets");
}

#[test]
fn sets_xff_from_client_ip() {
    let f = make_filter(&[]);
    let req = HeaderMap::new();
    let mut ctx = context(req);
    ctx.client_addr = Some(addr("203.0.113.50"));

    f.on_request(&mut ctx);

    let xff = ctx
        .extra_request_headers
        .iter()
        .find(|(k, _)| k == "X-Forwarded-For")
        .map(|(_, v)| v.as_str());
    assert_eq!(xff, Some("203.0.113.50"), "XFF should contain client IP");
}

#[test]
fn untrusted_client_overwrites_existing_xff() {
    let f = make_filter(&[]);
    let mut req = HeaderMap::new();
    req.append(
        "x-forwarded-for",
        b"1.2.3.4".to_vec(),
    );
    let mut ctx = context(req);
    ctx.client_addr = Some(addr("203.0.113.50"));

    f.on_request(&mut ctx);

    let xff = ctx
        .extra_request_headers
        .iter()
        .find(|(k, _)| k == "X-Forwarded-For")
        .map(|(_, v)| v.as_str());
    assert_eq!(
        xff,
        Some("203.0.113.50"),
        "untrusted client XFF should overwrite spoofed value"
    );
}

#[test]
fn trusted_proxy_appends_to_existing_xff() {
    let f = make_filter(&["10.0.0.0/8"]);
    let mut req = HeaderMap::new();
    req.append(
        "x-forwarded-for",
        b"203.0.113.50".to_vec(),
    );
    let mut ctx = context(req);
    ctx.client_addr = Some(addr("10.1.2.3"));

    f.on_request(&mut ctx);

    let xff = ctx
        .extra_request_headers
        .iter()
        .find(|(k, _)| k == "X-Forwarded-For")
        .map(|(_, v)| v.as_str());
    assert_eq!(
        xff,
        Some("203.0.113.50, 10.1.2.3"),
        "trusted proxy should append to existing XFF"
    );
}

#[test]
fn trusted_proxy_appends_to_multi_line_xff() {
    let f = make_filter(&["10.0.0.0/8"]);
    let mut req = HeaderMap::new();
    // Two separate header lines: valid HTTP, and semantically identical
    // to `X-Forwarded-For: 203.0.113.50, 198.51.100.7`.
    req.append(
        "x-forwarded-for",
        b"203.0.113.50".to_vec(),
    );
    req.append(
        "x-forwarded-for",
        b"198.51.100.7".to_vec(),
    );
    let mut ctx = context(req);
    ctx.client_addr = Some(addr("10.1.2.3"));

    f.on_request(&mut ctx);

    let xff = ctx
        .extra_request_headers
        .iter()
        .find(|(k, _)| k == "X-Forwarded-For")
        .map(|(_, v)| v.as_str());
    assert_eq!(
        xff,
        Some("203.0.113.50, 198.51.100.7, 10.1.2.3"),
        "every existing X-Forwarded-For line must survive the append"
    );
}

#[test]
fn trusted_proxy_appends_to_multi_line_forwarded() {
    let f = make_standard_filter(&["10.0.0.0/8"]);
    let mut req = HeaderMap::new();
    req.append(
        "forwarded",
        b"for=203.0.113.50;proto=https".to_vec(),
    );
    req.append(
        "forwarded",
        b"for=198.51.100.7;proto=https".to_vec(),
    );
    let mut ctx = context(req);
    ctx.client_addr = Some(addr("10.1.2.3"));

    f.on_request(&mut ctx);

    let fwd = ctx
        .extra_request_headers
        .iter()
        .find(|(k, _)| k == "Forwarded")
        .map(|(_, v)| v.as_str());
    assert_eq!(
        fwd,
        Some("for=203.0.113.50;proto=https, for=198.51.100.7;proto=https, for=10.1.2.3;proto=http"),
        "every existing Forwarded line must survive the append"
    );
}

#[test]
fn utf8_lines_are_kept_in_the_chain() {
    let mut headers = HeaderMap::new();
    headers.append("x-forwarded-for", "\u{e9}".as_bytes().to_vec());
    let mut out = String::new();
    assert!(push_forwarding_chain(&mut out, &headers, "x-forwarded-for"));
    assert_eq!(out, "\u{e9}");
    headers.append("x-forwarded-for", b"10.0.0.1".to_vec());
    let mut out = "for=".to_owned();
    assert!(push_forwarding_chain(&mut out, &headers, "x-forwarded-for"));
    assert_eq!(out, "for=\u{e9}, 10.0.0.1");
    headers.append("x-forwarded-for", b"\xc3".to_vec());
    let mut out = "for=".to_owned();
    assert!(!push_forwarding_chain(&mut out, &headers, "x-forwarded-for"));
    assert_eq!(out, "for=");
    assert!(!push_forwarding_chain(&mut out, &HeaderMap::new(), "x-forwarded-for"));
}

#[test]
fn non_utf8_line_anywhere_in_xff_chain_overwrites() {
    let f = make_filter(&["10.0.0.0/8"]);
    let mut req = HeaderMap::new();
    req.append(
        "x-forwarded-for",
        b"203.0.113.50".to_vec(),
    );
    req.append(
        "x-forwarded-for",
        b"\xff\xfe".to_vec(),
    );
    let mut ctx = context(req);
    ctx.client_addr = Some(addr("10.1.2.3"));

    f.on_request(&mut ctx);

    let xff = ctx
        .extra_request_headers
        .iter()
        .find(|(k, _)| k == "X-Forwarded-For")
        .map(|(_, v)| v.as_str());
    assert_eq!(
        xff,
        Some("10.1.2.3"),
        "an unreadable line anywhere in the chain must overwrite, leaving no partial chain"
    );
}

#[test]
fn untrusted_client_overwrites_multi_line_xff() {
    let f = make_filter(&[]);
    let mut req = HeaderMap::new();
    req.append(
        "x-forwarded-for",
        b"1.2.3.4".to_vec(),
    );
    req.append(
        "x-forwarded-for",
        b"5.6.7.8".to_vec(),
    );
    let mut ctx = context(req);
    ctx.client_addr = Some(addr("203.0.113.50"));

    f.on_request(&mut ctx);

    let xff = ctx
        .extra_request_headers
        .iter()
        .find(|(k, _)| k == "X-Forwarded-For")
        .map(|(_, v)| v.as_str());
    assert_eq!(
        xff,
        Some("203.0.113.50"),
        "an untrusted client's spoofed multi-line chain must be replaced entirely"
    );
}

#[test]
fn sets_x_forwarded_proto() {
    let f = make_filter(&[]);
    let req = HeaderMap::new();
    let mut ctx = context(req);
    ctx.client_addr = Some(addr("203.0.113.50"));

    f.on_request(&mut ctx);

    let proto = ctx
        .extra_request_headers
        .iter()
        .find(|(k, _)| k == "X-Forwarded-Proto")
        .map(|(_, v)| v.as_str());
    assert_eq!(proto, Some("http"), "X-Forwarded-Proto should default to http");
}

#[test]
fn sets_x_forwarded_host_from_host_header() {
    let f = make_filter(&[]);
    let mut req = HeaderMap::new();
    req.append("host", b"example.com".to_vec());
    let mut ctx = context(req);
    ctx.client_addr = Some(addr("203.0.113.50"));

    f.on_request(&mut ctx);

    let host = ctx
        .extra_request_headers
        .iter()
        .find(|(k, _)| k == "X-Forwarded-Host")
        .map(|(_, v)| v.as_str());
    assert_eq!(host, Some("example.com"), "X-Forwarded-Host should match Host header");
}

#[test]
fn no_host_header_skips_x_forwarded_host() {
    let f = make_filter(&[]);
    let req = HeaderMap::new();
    let mut ctx = context(req);
    ctx.client_addr = Some(addr("203.0.113.50"));

    f.on_request(&mut ctx);

    let host = ctx.extra_request_headers.iter().find(|(k, _)| k == "X-Forwarded-Host");
    assert!(host.is_none(), "X-Forwarded-Host should be absent when no Host header");
}

#[test]
fn no_client_addr_is_noop() {
    let f = make_filter(&[]);
    let req = HeaderMap::new();
    let mut ctx = context(req);

    f.on_request(&mut ctx);

    assert!(
        ctx.extra_request_headers.is_empty(),
        "no headers should be added without client addr"
    );
}

#[test]
fn trusted_proxy_no_existing_xff_just_sets_client() {
    let f = make_filter(&["10.0.0.0/8"]);
    let req = HeaderMap::new();
    let mut ctx = context(req);
    ctx.client_addr = Some(addr("10.1.2.3"));

    f.on_request(&mut ctx);

    let xff = ctx
        .extra_request_headers
        .iter()
        .find(|(k, _)| k == "X-Forwarded-For")
        .map(|(_, v)| v.as_str());
    assert_eq!(
        xff,
        Some("10.1.2.3"),
        "trusted proxy with no existing XFF should set client IP"
    );
}

#[test]
fn standard_forwarded_header_injected() {
    let f = make_standard_filter(&[]);
    let mut req = HeaderMap::new();
    req.append("host", b"example.com".to_vec());
    let mut ctx = context(req);
    ctx.client_addr = Some(addr("203.0.113.50"));

    f.on_request(&mut ctx);

    let fwd = ctx
        .extra_request_headers
        .iter()
        .find(|(k, _)| k == "Forwarded")
        .map(|(_, v)| v.as_str());
    assert_eq!(
        fwd,
        Some("for=203.0.113.50;proto=http;host=\"example.com\""),
        "standard Forwarded header should match RFC 7239 format"
    );
}

#[test]
fn standard_forwarded_ipv6_quoted() {
    let f = make_standard_filter(&[]);
    let req = HeaderMap::new();
    let mut ctx = context(req);
    ctx.client_addr = Some(addr("2001:db8::1"));

    f.on_request(&mut ctx);

    let fwd = ctx
        .extra_request_headers
        .iter()
        .find(|(k, _)| k == "Forwarded")
        .map(|(_, v)| v.as_str());
    assert!(
        fwd.is_some_and(|v| v.contains("for=\"[2001:db8::1]\"")),
        "IPv6 address must be quoted in Forwarded header: {fwd:?}"
    );
}

#[test]
fn standard_forwarded_appended_when_trusted() {
    let f = make_standard_filter(&["10.0.0.0/8"]);
    let mut req = HeaderMap::new();
    req.append(
        "forwarded",
        b"for=203.0.113.50;proto=https".to_vec(),
    );
    let mut ctx = context(req);
    ctx.client_addr = Some(addr("10.1.2.3"));

    f.on_request(&mut ctx);

    let fwd = ctx
        .extra_request_headers
        .iter()
        .find(|(k, _)| k == "Forwarded")
        .map(|(_, v)| v.as_str());
    assert!(
        fwd.is_some_and(|v| v.starts_with("for=203.0.113.50;proto=https, for=10.1.2.3")),
        "trusted proxy should append to existing Forwarded: {fwd:?}"
    );
}

#[test]
fn standard_forwarded_ipv6_host_quoted() {
    let f = make_standard_filter(&[]);
    let mut req = HeaderMap::new();
    req.append("host", b"[::1]:8080".to_vec());
    let mut ctx = context(req);
    ctx.client_addr = Some(addr("203.0.113.50"));

    f.on_request(&mut ctx);

    let fwd = ctx
        .extra_request_headers
        .iter()
        .find(|(k, _)| k == "Forwarded")
        .map(|(_, v)| v.as_str());
    assert!(
        fwd.is_some_and(|v| v.contains(";host=\"[::1]:8080\"")),
        "IPv6 host must be quoted in Forwarded header: {fwd:?}"
    );
}

#[test]
fn standard_forwarded_not_injected_when_disabled() {
    let f = make_filter(&[]);
    let req = HeaderMap::new();
    let mut ctx = context(req);
    ctx.client_addr = Some(addr("203.0.113.50"));

    f.on_request(&mut ctx);

    let fwd = ctx.extra_request_headers.iter().find(|(k, _)| k == "Forwarded");
    assert!(
        fwd.is_none(),
        "Forwarded header should not be injected when use_standard_header is false"
    );
}

#[test]
fn tls_connection_sets_proto_https() {
    let f = make_filter(&[]);
    let req = HeaderMap::new();
    let mut ctx = context(req);
    ctx.client_addr = Some(addr("203.0.113.50"));
    ctx.downstream_tls = true;

    f.on_request(&mut ctx);

    let proto = ctx
        .extra_request_headers
        .iter()
        .find(|(k, _)| k == "X-Forwarded-Proto")
        .map(|(_, v)| v.as_str());
    assert_eq!(
        proto,
        Some("https"),
        "TLS connection should set X-Forwarded-Proto to https"
    );
}

#[test]
fn non_utf8_xff_overwrites_with_warning() {
    let f = make_filter(&["10.0.0.0/8"]);
    let mut req = HeaderMap::new();
    req.append(
        "x-forwarded-for",
        b"\xff\xfe".to_vec(),
    );
    let mut ctx = context(req);
    ctx.client_addr = Some(addr("10.1.2.3"));

    f.on_request(&mut ctx);

    let xff = ctx
        .extra_request_headers
        .iter()
        .find(|(k, _)| k == "X-Forwarded-For")
        .map(|(_, v)| v.as_str());
    assert_eq!(
        xff,
        Some("10.1.2.3"),
        "non-UTF-8 XFF should be overwritten with just client IP"
    );
}

#[test]
fn standard_forwarded_host_semicolon_escaped() {
    let f = make_standard_filter(&[]);
    let mut req = HeaderMap::new();
    req.append("host", b"evil;host=injected".to_vec());
    let mut ctx = context(req);
    ctx.client_addr = Some(addr("203.0.113.50"));

    f.on_request(&mut ctx);

    let fwd = ctx
        .extra_request_headers
        .iter()
        .find(|(k, _)| k == "Forwarded")
        .map(|(_, v)| v.as_str());
    assert_eq!(
        fwd,
        Some("for=203.0.113.50;proto=http;host=\"evil;host=injected\""),
        "semicolons in host must be safely quoted"
    );
}

#[test]
fn standard_forwarded_host_quotes_escaped() {
    let f = make_standard_filter(&[]);
    let mut req = HeaderMap::new();
    req.append("host", b"evil\",host=injected".to_vec());
    let mut ctx = context(req);
    ctx.client_addr = Some(addr("203.0.113.50"));

    f.on_request(&mut ctx);

    let fwd = ctx
        .extra_request_headers
        .iter()
        .find(|(k, _)| k == "Forwarded")
        .map(|(_, v)| v.as_str());
    assert_eq!(
        fwd,
        Some("for=203.0.113.50;proto=http;host=\"evil\\\",host=injected\""),
        "embedded quotes in host must be backslash-escaped"
    );
}

#[test]
fn standard_forwarded_host_comma_escaped() {
    let f = make_standard_filter(&[]);
    let mut req = HeaderMap::new();
    req.append("host", b"evil,for=spoofed".to_vec());
    let mut ctx = context(req);
    ctx.client_addr = Some(addr("203.0.113.50"));

    f.on_request(&mut ctx);

    let fwd = ctx
        .extra_request_headers
        .iter()
        .find(|(k, _)| k == "Forwarded")
        .map(|(_, v)| v.as_str());
    assert_eq!(
        fwd,
        Some("for=203.0.113.50;proto=http;host=\"evil,for=spoofed\""),
        "commas in host must be safely quoted"
    );
}

#[test]
fn standard_forwarded_host_backslash_escaped() {
    let f = make_standard_filter(&[]);
    let mut req = HeaderMap::new();
    req.append("host", b"evil\\host".to_vec());
    let mut ctx = context(req);
    ctx.client_addr = Some(addr("203.0.113.50"));

    f.on_request(&mut ctx);

    let fwd = ctx
        .extra_request_headers
        .iter()
        .find(|(k, _)| k == "Forwarded")
        .map(|(_, v)| v.as_str());
    assert_eq!(
        fwd,
        Some("for=203.0.113.50;proto=http;host=\"evil\\\\host\""),
        "backslashes in host must be double-escaped"
    );
}

#[test]
fn quote_forwarded_value_simple() {
    assert_eq!(
        quote_forwarded_value("example.com"),
        "\"example.com\"",
        "simple value should be wrapped in quotes"
    );
}

#[test]
fn quote_forwarded_value_with_embedded_quote() {
    assert_eq!(
        quote_forwarded_value("a\"b"),
        "\"a\\\"b\"",
        "embedded quote must be escaped"
    );
}

#[test]
fn quote_forwarded_value_with_backslash() {
    assert_eq!(
        quote_forwarded_value("a\\b"),
        "\"a\\\\b\"",
        "embedded backslash must be escaped"
    );
}

#[test]
fn untrusted_client_xff_overwritten() {
    let f = make_filter(&[]);
    let mut req = HeaderMap::new();
    req.append(
        "x-forwarded-for",
        b"10.0.0.1, 172.16.0.5".to_vec(),
    );
    let mut ctx = context(req);
    ctx.client_addr = Some(addr("198.51.100.7"));

    f.on_request(&mut ctx);

    let xff = ctx
        .extra_request_headers
        .iter()
        .find(|(k, _)| k == "X-Forwarded-For")
        .map(|(_, v)| v.as_str());
    assert_eq!(
        xff,
        Some("198.51.100.7"),
        "untrusted client should overwrite spoofed XFF chain with actual client IP"
    );
}

#[test]
fn x_forwarded_proto_set_for_non_tls() {
    let f = make_filter(&[]);
    let req = HeaderMap::new();
    let mut ctx = context(req);
    ctx.client_addr = Some(addr("203.0.113.50"));
    ctx.downstream_tls = false;

    f.on_request(&mut ctx);

    let proto = ctx
        .extra_request_headers
        .iter()
        .find(|(k, _)| k == "X-Forwarded-Proto")
        .map(|(_, v)| v.as_str());
    assert_eq!(
        proto,
        Some("http"),
        "non-TLS connection should set X-Forwarded-Proto to http"
    );
}

#[test]
fn untrusted_forwarded_removed_when_standard_disabled() {
    let f = make_filter(&[]);
    let mut req = HeaderMap::new();
    req.append(
        "forwarded",
        b"for=1.2.3.4;proto=https".to_vec(),
    );
    let mut ctx = context(req);
    ctx.client_addr = Some(addr("203.0.113.50"));

    f.on_request(&mut ctx);

    assert!(
        ctx.request_headers_to_remove.iter().any(|n| n == "forwarded"),
        "client-supplied Forwarded must be removed for untrusted sources"
    );
}

#[test]
fn trusted_forwarded_preserved_when_standard_disabled() {
    let f = make_filter(&["10.0.0.0/8"]);
    let mut req = HeaderMap::new();
    req.append(
        "forwarded",
        b"for=1.2.3.4;proto=https".to_vec(),
    );
    let mut ctx = context(req);
    ctx.client_addr = Some(addr("10.1.2.3"));

    f.on_request(&mut ctx);

    assert!(
        !ctx.request_headers_to_remove.iter().any(|n| n == "forwarded"),
        "trusted proxy's Forwarded must be preserved"
    );
}

#[test]
fn untrusted_forwarded_overwritten_when_standard_enabled() {
    let f = make_standard_filter(&[]);
    let mut req = HeaderMap::new();
    req.append(
        "forwarded",
        b"for=1.2.3.4".to_vec(),
    );
    let mut ctx = context(req);
    ctx.client_addr = Some(addr("203.0.113.50"));

    f.on_request(&mut ctx);

    let fwd = ctx
        .extra_request_headers
        .iter()
        .find(|(k, _)| k == "Forwarded")
        .map(|(_, v)| v.as_str());
    assert_eq!(
        fwd,
        Some("for=203.0.113.50;proto=http"),
        "injected Forwarded must replace the spoofed value, not append to it"
    );
    assert!(
        !ctx.request_headers_to_remove.iter().any(|n| n == "forwarded"),
        "no removal needed when the injected header replaces existing values"
    );
}

#[test]
fn untrusted_xfh_removed_when_host_absent() {
    let f = make_filter(&[]);
    let mut req = HeaderMap::new();
    req.append(
        "x-forwarded-host",
        b"spoofed.example".to_vec(),
    );
    let mut ctx = context(req);
    ctx.client_addr = Some(addr("203.0.113.50"));

    f.on_request(&mut ctx);

    assert!(
        ctx.request_headers_to_remove.iter().any(|n| n == "x-forwarded-host"),
        "spoofed X-Forwarded-Host must be removed when no Host header exists"
    );
}

#[test]
fn untrusted_xfh_not_removed_when_host_present() {
    let f = make_filter(&[]);
    let mut req = HeaderMap::new();
    req.append("host", b"example.com".to_vec());
    let mut ctx = context(req);
    ctx.client_addr = Some(addr("203.0.113.50"));

    f.on_request(&mut ctx);

    assert!(
        !ctx.request_headers_to_remove.iter().any(|n| n == "x-forwarded-host"),
        "injected X-Forwarded-Host already overwrites when Host is present"
    );
}

#[test]
fn ranges_hold_their_addresses() {
    let range = cidr("10.0.0.0/8");
    assert!(range.contains(IpValue::V4(v4("10.255.255.255"))));
    assert!(!range.contains(IpValue::V4(v4("11.0.0.0"))));
    assert!(cidr("0.0.0.0/0").contains(IpValue::V4(v4("203.0.113.50"))));
    assert!(!cidr("0.0.0.0/0").contains(IpValue::V6(1)));
    let host = CidrRange {
        ip: IpValue::V6(7),
        prefix: 128,
    };
    assert!(host.contains(IpValue::V6(7)));
    assert!(!host.contains(IpValue::V6(6)));
    let all = CidrRange {
        ip: IpValue::V6(7),
        prefix: 0,
    };
    assert!(all.contains(IpValue::V6(u128::MAX)));
}

#[test]
fn trusted_sources_keep_their_claims() {
    let f = make_filter(&["10.0.0.0/8"]);
    assert!(f.is_trusted(addr("10.1.2.3").ip));
    assert!(!f.is_trusted(addr("2001:db8::1").ip));
    let mut headers = HeaderMap::new();
    headers.append("x-forwarded-host", b"a.example".to_vec());
    let mut ctx = context(headers);
    ctx.client_addr = Some(addr("10.1.2.3"));
    f.on_request(&mut ctx);
    assert!(ctx.request_headers_to_remove.is_empty());
}
