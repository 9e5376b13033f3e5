use request_follower::http::headers::{find_header, HeaderField, HeaderPolicy};

fn set(pairs: &[(&str, &str)]) -> Vec<HeaderField> {
    pairs.iter().map(|(n, v)| HeaderField::new(n, v)).collect()
}

fn pairs(headers: &[HeaderField]) -> Vec<(String, String)> {
    headers.iter().map(|h| (h.name.clone(), h.value.clone())).collect()
}

fn owned(list: &[(&str, &str)]) -> Vec<(String, String)> {
    list.iter().map(|(n, v)| (n.to_string(), v.to_string())).collect()
}

#[test]
fn sanitise_strips_exact_names_in_any_case() {
    let policy = HeaderPolicy::standard();
    let inbound = set(&[
        ("Host", "proxy.local"),
        ("X-Forwarded-For", "10.0.0.1"),
        ("x-REAL-ip", "10.0.0.1"),
        ("X-Reroute-To", "http://origin.test"),
        ("X-Reload-On-403", "1"),
        ("VIA", "1.1 edge"),
        ("CDN-Loop", "edge"),
        ("content-type", "application/json"),
        ("Authorization", "SECRET-REDACTED"),
    ]);
    let out = policy.sanitise(&inbound);
    assert_eq!(
        pairs(&out),
        owned(&[
            ("content-type", "application/json"),
            ("Authorization", "SECRET-REDACTED"),
        ])
    );
}

#[test]
fn sanitise_applies_accept_encoding_override() {
    let policy = HeaderPolicy::standard();
    let inbound = set(&[
        ("accept-encoding", "gzip"),
        ("accept", "*/*"),
        ("X-Accept-Encoding", "identity"),
        ("Accept-Encoding", "br"),
    ]);
    let out = policy.sanitise(&inbound);
    assert_eq!(
        pairs(&out),
        owned(&[("accept", "*/*"), ("accept-encoding", "identity")])
    );
}

#[test]
fn sanitise_keeps_accept_encoding_without_override() {
    let policy = HeaderPolicy::standard();
    let inbound = set(&[("Accept-Encoding", "gzip"), ("x-custom", "1")]);
    let out = policy.sanitise(&inbound);
    assert_eq!(
        pairs(&out),
        owned(&[("Accept-Encoding", "gzip"), ("x-custom", "1")])
    );
}

#[test]
fn sanitise_twice_equals_once() {
    for policy in [HeaderPolicy::standard(), HeaderPolicy::strict()] {
        let inbound = set(&[
            ("Host", "proxy.local"),
            ("X-Accept-Encoding", "deflate"),
            ("accept-encoding", "gzip"),
            ("x-trace", "abc"),
            ("cf-ray", "1"),
            ("user-agent", "test"),
        ]);
        let once = policy.sanitise(&inbound);
        let twice = policy.sanitise(&once);
        assert_eq!(pairs(&once), pairs(&twice));
    }
}

#[test]
fn strict_policy_strips_header_families() {
    let policy = HeaderPolicy::strict();
    let inbound = set(&[
        ("X-Trace", "abc"),
        ("CF-Ray", "1"),
        ("Fly-Region", "ams"),
        ("xylophone", "yes"),
        ("flyer", "yes"),
        ("user-agent", "test"),
    ]);
    let out = policy.sanitise(&inbound);
    assert_eq!(
        pairs(&out),
        owned(&[("xylophone", "yes"), ("flyer", "yes"), ("user-agent", "test")])
    );
    let standard = HeaderPolicy::standard().sanitise(&inbound);
    assert_eq!(standard.len(), 6);
}

#[test]
fn policies_report_what_they_strip() {
    let standard = HeaderPolicy::standard();
    let strict = HeaderPolicy::strict();
    assert!(standard.strips(&"HOST".to_string()));
    assert!(!standard.strips(&"accept-encoding".to_string()));
    assert!(!standard.strips(&"x-trace".to_string()));
    assert!(strict.strips(&"X-Trace".to_string()));
    assert!(!strict.strips(&"accept-encoding".to_string()));
}

#[test]
fn find_header_ignores_case_and_takes_the_first() {
    let headers = set(&[("a", "1"), ("X-Reroute-To", "http://one"), ("x-reroute-to", "http://two")]);
    assert_eq!(find_header(&headers, "x-reroute-to"), Some("http://one".to_string()));
    assert_eq!(find_header(&headers, "missing"), None);
}

#[test]
fn sanitise_of_empty_set_is_empty() {
    let out = HeaderPolicy::standard().sanitise(&Vec::new());
    assert!(out.is_empty());
}
