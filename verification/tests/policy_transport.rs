//! Outbound calls of the policy engine, and what the host registers for it.

use praxis_filter::headers::HeaderMap;
use praxis_filter::policy::registration::{
    host_plugin_count, host_plugin_factories, register_policy_plugin_factory, set_policy_subrequest_connector, ConnectorHolder, HostFactories,
};
use praxis_filter::policy::transport::{
    check_egress, dial_tls, map_error, parse_url, request_uri, resolve_within, Resolution, SubRequestError, Target,
    TransportError, POLICY_PEER_GROUP,
};

fn target(url: &str) -> Target {
    Target::parse(url, false).unwrap_or_else(|_| panic!("{url} should parse"))
}

fn refusal(url: &str, host_is_ip: bool) -> String {
    match Target::parse(url, host_is_ip) {
        Err(TransportError::InvalidRequest(message)) => message,
        _ => panic!("{url} should be refused"),
    }
}

#[test]
fn urls_become_dial_targets() {
    let t = target("https://idp.example.com/token?x=1");
    assert_eq!(t.dial_authority, "idp.example.com:443");
    assert_eq!(t.host_header, "idp.example.com");
    assert_eq!(t.uri, "/token?x=1");
    assert!(t.tls);
    assert_eq!(t.sni, "idp.example.com");

    let t = target("http://[::1]:8080");
    assert_eq!(t.dial_authority, "[::1]:8080");
    assert_eq!(t.host_header, "[::1]:8080");
    assert_eq!(t.uri, "/");
    assert!(!t.tls);
    assert_eq!(t.sni, "");

    let t = target("http://10.0.0.1/a");
    assert_eq!(t.dial_authority, "10.0.0.1:80");
}

#[test]
fn refused_urls_say_why() {
    assert_eq!(
        refusal("ftp://a.example/", false),
        "url 'ftp://a.example/' has unsupported scheme 'ftp'"
    );
    assert_eq!(refusal("/just/a/path", false), "url '/just/a/path' has no scheme");
    assert_eq!(
        refusal("http://a.example:0/", false),
        "url 'http://a.example:0/' names port 0, which cannot be dialled"
    );
    assert_eq!(
        refusal("http://a.example:70000/", false),
        "url 'http://a.example:70000/' has a port outside the range 1-65535"
    );
    assert_eq!(
        refusal("https://10.0.0.1/", true),
        "url 'https://10.0.0.1/' uses https with an IP literal, which carries no SNI for certificate verification"
    );
    assert!(refusal("http://a b/", false).starts_with("url 'http://a b/': "));
}

#[test]
fn credentials_in_a_url_are_refused_and_not_repeated() {
    let message = refusal("https://user:pw@a.example/", false);
    assert_eq!(
        message,
        "url carries userinfo, which is not forwarded; use a header or a client-credentials flow"
    );
}

#[test]
fn parts_of_a_url() {
    let parts = parse_url("http://a.example:81/p?q").unwrap_or_else(|_| panic!("parses"));
    assert_eq!(parts.scheme.as_deref(), Some("http"));
    let authority = parts.authority.as_ref().unwrap();
    assert_eq!(
        (authority.text.as_str(), authority.host.as_str(), authority.port),
        ("a.example:81", "a.example", Some(81))
    );
    assert_eq!(request_uri(&parts), "/p?q");
    let parts = parse_url("a.example:80").unwrap_or_else(|_| panic!("parses"));
    assert!(parts.target.is_none());
    assert_eq!(request_uri(&parts), "/");
    assert!(matches!(dial_tls("u", None), Err(TransportError::InvalidRequest(m)) if m == "url 'u' has no scheme"));
}

#[test]
fn an_authority_without_a_host_is_refused() {
    use_parts("http", None, "url 'u' has no host");
    use_parts("http", Some(""), "url 'u' has no host");
}

fn use_parts(scheme: &str, host: Option<&str>, expected: &str) {
    let mut parts = parse_url("http://x/").unwrap_or_else(|_| panic!("parses"));
    parts.scheme = Some(scheme.to_owned());
    match host {
        Some(h) => parts.authority.as_mut().unwrap().host = h.to_owned(),
        None => parts.authority = None,
    }
    assert!(matches!(
        Target::from_parts("u", &parts, false),
        Err(TransportError::InvalidRequest(m)) if m == expected
    ));
}

#[test]
fn peers_always_bound_connecting() {
    let t = target("https://a.example/");
    let peer = t.peer("192.0.2.1:443".to_owned(), None, 10_000);
    assert_eq!(peer.connect_timeout_ns, 10_000);
    assert_eq!(peer.group_key, POLICY_PEER_GROUP);
    assert_eq!((peer.address.as_str(), peer.tls, peer.sni.as_str()), ("192.0.2.1:443", true, "a.example"));
    assert_eq!(t.peer(String::new(), Some(5), 10_000).connect_timeout_ns, 5);
}

#[test]
fn host_names_the_authority() {
    let mut headers = HeaderMap::new();
    headers.append("Host", b"192.0.2.1".to_vec());
    headers.append("accept", b"*/*".to_vec());
    let out = target("http://a.example:81/")
        .sub_request_headers(headers)
        .unwrap_or_else(|_| panic!("valid"));
    assert_eq!(out.lines.len(), 2);
    assert_eq!(out.first("host").unwrap(), b"a.example:81");

    let bad = Target {
        host_header: "a\nb".to_owned(),
        ..target("http://a.example/")
    };
    assert!(matches!(
        bad.sub_request_headers(HeaderMap::new()),
        Err(TransportError::InvalidRequest(m))
            if m == "host 'a\nb' is not a valid header value: failed to parse header value"
    ));
}

#[test]
fn resolution_failures_are_unsent() {
    assert!(matches!(
        resolve_within("a:1", 10, 3, Resolution::Address("192.0.2.1:1".to_owned())),
        Ok((address, 7)) if address == "192.0.2.1:1"
    ));
    assert!(matches!(
        resolve_within("a:1", 10, 10, Resolution::Address(String::new())),
        Err(TransportError::Connect(m)) if m == "resolve 'a:1': deadline exceeded before the request could be sent"
    ));
    assert!(matches!(
        resolve_within("a:1", 10, 3, Resolution::TimedOut),
        Err(TransportError::Connect(m)) if m == "resolve 'a:1': deadline exceeded"
    ));
    assert!(matches!(
        resolve_within("a:1", 10, 3, Resolution::Failed("nx".to_owned())),
        Err(TransportError::Connect(m)) if m == "resolve 'a:1': nx"
    ));
}

#[test]
fn private_destinations_need_permission() {
    assert!(check_egress(None, false).is_ok());
    assert!(check_egress(Some("loopback".to_owned()), true).is_ok());
    assert!(matches!(
        check_egress(Some("loopback".to_owned()), false),
        Err(TransportError::Rejected(m)) if m == "loopback"
    ));
}

#[test]
fn failures_are_classified() {
    let text = || "m".to_owned();
    assert!(matches!(map_error(&SubRequestError::InvalidRequest(text())), TransportError::InvalidRequest(m) if m == "m"));
    assert!(matches!(
        map_error(&SubRequestError::AdmissionTimeout { max_connections: 8 }),
        TransportError::Connect(m) if m == "sub-request admission timeout (all 8 slots busy)"
    ));
    assert!(matches!(
        map_error(&SubRequestError::CircuitOpen { peer: text() }),
        TransportError::Rejected(m) if m == "circuit open for peer m"
    ));
    assert!(matches!(map_error(&SubRequestError::Connect(text())), TransportError::Connect(m) if m == "m"));
    assert!(matches!(map_error(&SubRequestError::Io(text())), TransportError::Io(m) if m == "m"));
    assert!(matches!(map_error(&SubRequestError::DeadlineExceeded), TransportError::Timeout));
    assert!(matches!(
        map_error(&SubRequestError::StreamIdleTimeout { idle_timeout: "30s".to_owned() }),
        TransportError::Io(m) if m == "upstream stream idle for 30s"
    ));
    assert!(matches!(
        map_error(&SubRequestError::ResponseTooLarge { actual: 9, limit: 8 }),
        TransportError::ResponseTooLarge { actual: 9, limit: 8 }
    ));
    assert!(matches!(map_error(&SubRequestError::Other(text())), TransportError::Io(m) if m == "m"));
}

#[test]
fn a_holder_hands_back_the_connector_it_was_given() {
    let mut holder = ConnectorHolder::new();
    assert!(holder.get().is_none(), "an empty holder holds nothing");

    assert!(holder.set(8), "the first registration is accepted");
    assert_eq!(
        holder.get(),
        Some(8),
        "readers see the registered pool, not a fresh one"
    );
}

#[test]
fn storing_the_held_connector_again_succeeds() {
    let mut holder = ConnectorHolder::new();
    assert!(holder.set(8));
    assert!(holder.set(8), "a reload must not fail on the pool it already holds");
}

#[test]
fn a_second_connector_is_refused_and_the_first_survives() {
    let mut holder = ConnectorHolder::new();
    assert!(holder.set(8));
    assert!(!holder.set(1), "a second pool is what this holder exists to refuse");
    assert_eq!(holder.get(), Some(8), "the refused registration did not replace the first");
}

#[test]
fn the_public_setter_and_reader_agree_on_the_process_holder() {
    let mut holder = ConnectorHolder::new();
    for pool in [4, 4, 5] {
        let accepted = set_policy_subrequest_connector(&mut holder, pool);
        let held = holder.get().expect("a connector is registered now");
        assert_eq!(
            accepted,
            held == pool,
            "the return value must say whether the reader sees this pool"
        );
    }
}

#[test]
fn later_factories_replace_earlier_ones() {
    let mut factories = HostFactories::new();
    register_policy_plugin_factory(&mut factories, "validator/custom", 1);
    register_policy_plugin_factory(&mut factories, "pii/scan", 2);
    register_policy_plugin_factory(&mut factories, "validator/custom", 3);
    assert_eq!(host_plugin_count(&factories), 2);
    assert_eq!(factories.factory("validator/custom"), Some(&3));
    assert_eq!(factories.factory("pii/scan"), Some(&2));
    assert_eq!(factories.factory("absent"), None);
    assert_eq!(
        host_plugin_factories(&factories),
        [("pii/scan".to_owned(), &2), ("validator/custom".to_owned(), &3)]
    );
    assert_eq!(host_plugin_factories(&factories).len(), 2, "registrations are read again on each start");
}
