use request_follower::http::headers::{HeaderField, HeaderPolicy};
use request_follower::http::proxy::{
    conclude_at, decode_body, merge_query, route, InboundRequest, OriginOutcome, ProxyAction,
    QueryParam, RequestDescriptor, ResponseDescriptor, RoutingError,
};
use request_follower::Interrupter;

fn inbound(method: &str, path: &str, query: &[(&str, &str)], headers: &[(&str, &str)], body: &[u8]) -> InboundRequest {
    InboundRequest {
        method: method.to_string(),
        path: path.to_string(),
        query: query.iter().map(|(k, v)| QueryParam::new(k, v)).collect(),
        headers: headers.iter().map(|(n, v)| HeaderField::new(n, v)).collect(),
        body: body.to_vec(),
    }
}

fn forwarded(action: ProxyAction) -> RequestDescriptor {
    match action {
        ProxyAction::Forward(d) => d,
        ProxyAction::Reject(r) => panic!("rejected with {}", r.status),
    }
}

#[test]
fn missing_routing_header_is_rejected_with_403() {
    let policy = HeaderPolicy::standard();
    let req = inbound("POST", "/orders", &[], &[("host", "proxy"), ("x-reroute", "http://x")], b"{}");
    match route(&policy, req) {
        ProxyAction::Reject(resp) => {
            assert_eq!(resp.status, 403);
            assert_eq!(resp.body, "Missing X-Reroute-To header");
            assert!(resp.headers.is_empty());
        }
        ProxyAction::Forward(d) => panic!("forwarded to {}", d.url),
    }
}

#[test]
fn assemble_reports_missing_target() {
    let policy = HeaderPolicy::standard();
    let req = inbound("GET", "/", &[], &[], b"");
    assert_eq!(
        RequestDescriptor::assemble(&policy, req).unwrap_err(),
        RoutingError::MissingTarget
    );
}

#[test]
fn target_is_routing_header_followed_by_path() {
    let policy = HeaderPolicy::standard();
    let req = inbound("DELETE", "//a/../b", &[], &[("X-REROUTE-TO", "http://origin.test/base/")], b"");
    let d = forwarded(route(&policy, req));
    assert_eq!(d.url, "http://origin.test/base///a/../b");
    assert_eq!(d.method, "DELETE");
}

#[test]
fn get_widgets_is_forwarded_and_relayed() {
    let policy = HeaderPolicy::standard();
    let req = inbound(
        "GET",
        "/widgets",
        &[("x", "1")],
        &[("x-reroute-to", "http://origin.test"), ("accept", "application/json")],
        b"",
    );
    let d = forwarded(route(&policy, req));
    assert_eq!(d.url, "http://origin.test/widgets");
    assert_eq!(d.query_params.len(), 1);
    assert_eq!(d.query_params[0].key, "x");
    assert_eq!(d.query_params[0].value, "1");
    assert_eq!(d.headers.len(), 1);
    assert_eq!(d.headers[0].name, "accept");
    assert!(!d.reload_on_403);

    let mut guard = Interrupter::with_grace(0, 1800);
    let outcome = OriginOutcome::Replied {
        status: 200,
        headers: vec![HeaderField::new("content-type", "application/json")],
        body: Ok("{\"ok\":true}".to_string()),
    };
    let (reply, signal) = conclude_at(&mut guard, 10_000, &d, outcome);
    assert_eq!(reply.status, 200);
    assert_eq!(reply.body, "{\"ok\":true}");
    assert_eq!(reply.headers.len(), 1);
    assert_eq!(reply.headers[0].name, "content-type");
    assert!(!signal);
    assert!(!guard.is_signalled());
}

#[test]
fn forbidden_with_reload_flag_signals_once_and_relays() {
    let policy = HeaderPolicy::standard();
    let mut guard = Interrupter::with_grace(1_000, 1800);
    let mut signals = 0;
    for _ in 0..3 {
        let req = inbound(
            "GET",
            "/health",
            &[],
            &[("x-reroute-to", "http://origin.test"), ("X-Reload-On-403", "")],
            b"",
        );
        let d = forwarded(route(&policy, req));
        assert!(d.reload_on_403);
        assert!(d.headers.is_empty());
        let outcome = OriginOutcome::Replied {
            status: 403,
            headers: Vec::new(),
            body: Ok("forbidden".to_string()),
        };
        let (reply, signal) = conclude_at(&mut guard, 1_000 + 1801, &d, outcome);
        assert_eq!(reply.status, 403);
        assert_eq!(reply.body, "forbidden");
        if signal {
            signals += 1;
        }
    }
    assert_eq!(signals, 1);
    assert!(guard.is_signalled());
}

#[test]
fn forbidden_without_reload_flag_leaves_guard_alone() {
    let policy = HeaderPolicy::standard();
    let mut guard = Interrupter::with_grace(0, 10);
    let d = forwarded(route(&policy, inbound("GET", "/", &[], &[("x-reroute-to", "http://o")], b"")));
    let outcome = OriginOutcome::Replied { status: 403, headers: Vec::new(), body: Ok(String::new()) };
    let (reply, signal) = conclude_at(&mut guard, 1_000, &d, outcome);
    assert_eq!(reply.status, 403);
    assert!(!signal);
    assert!(!guard.is_signalled());
}

#[test]
fn forbidden_during_grace_does_not_signal() {
    let policy = HeaderPolicy::standard();
    let mut guard = Interrupter::with_grace(1_000, 1800);
    let d = forwarded(route(
        &policy,
        inbound("GET", "/", &[], &[("x-reroute-to", "http://o"), ("x-reload-on-403", "yes")], b""),
    ));
    let outcome = OriginOutcome::Replied { status: 403, headers: Vec::new(), body: Ok(String::new()) };
    let (reply, signal) = conclude_at(&mut guard, 2_800, &d, outcome);
    assert_eq!(reply.status, 403);
    assert!(!signal);
    assert!(!guard.is_signalled());
}

#[test]
fn unreachable_origin_gives_500_with_description() {
    let policy = HeaderPolicy::standard();
    let d = forwarded(route(&policy, inbound("GET", "/", &[], &[("x-reroute-to", "http://nowhere.invalid")], b"")));
    let mut guard = Interrupter::with_grace(0, 0);
    let outcome = OriginOutcome::Unreachable("error sending request: dns error".to_string());
    let (reply, signal) = conclude_at(&mut guard, 100, &d, outcome);
    assert!(reply.status >= 500 && reply.status < 600);
    assert_eq!(reply.body, "error sending request: dns error");
    assert!(!signal);
    assert!(!guard.is_signalled());

    let (reply, _) = conclude_at(&mut guard, 100, &d, OriginOutcome::Unreachable(String::new()));
    assert_eq!(reply.status, 500);
    assert!(!reply.body.is_empty());
}

#[test]
fn unreadable_body_gives_500_after_the_guard_saw_the_403() {
    let policy = HeaderPolicy::standard();
    let d = forwarded(route(
        &policy,
        inbound("GET", "/", &[], &[("x-reroute-to", "http://o"), ("x-reload-on-403", "1")], b""),
    ));
    let mut guard = Interrupter::with_grace(0, 5);
    let outcome = OriginOutcome::Replied { status: 403, headers: Vec::new(), body: Err("body cut short".to_string()) };
    let (reply, signal) = conclude_at(&mut guard, 100, &d, outcome);
    assert_eq!(reply.status, 500);
    assert_eq!(reply.body, "body cut short");
    assert!(signal);
}

#[test]
fn response_constructors() {
    let r = ResponseDescriptor::forbidden("no");
    assert_eq!((r.status, r.body.as_str(), r.headers.len()), (403, "no", 0));
    let r = ResponseDescriptor::internal_error("");
    assert_eq!(r.status, 500);
    assert_eq!(r.body, "origin request failed");
}

#[test]
fn query_last_value_wins() {
    let pairs: Vec<QueryParam> = [("a", "1"), ("b", "2"), ("a", "3"), ("c", ""), ("b", "4")]
        .iter()
        .map(|(k, v)| QueryParam::new(k, v))
        .collect();
    let merged = merge_query(&pairs);
    let got: Vec<(String, String)> = merged.iter().map(|q| (q.key.clone(), q.value.clone())).collect();
    assert_eq!(
        got,
        vec![
            ("a".to_string(), "3".to_string()),
            ("b".to_string(), "4".to_string()),
            ("c".to_string(), String::new()),
        ]
    );
    assert!(merge_query(&Vec::new()).is_empty());
}

#[test]
fn body_is_decoded_or_emptied() {
    assert_eq!(decode_body("héllo".as_bytes().to_vec()), "héllo");
    assert_eq!(decode_body(vec![0x66, 0xff, 0x6f]), "");
    assert_eq!(decode_body(Vec::new()), "");
    let policy = HeaderPolicy::standard();
    let d = forwarded(route(&policy, inbound("PUT", "/x", &[], &[("x-reroute-to", "http://o")], &[0xc3, 0x28])));
    assert_eq!(d.body, "");
    let d = forwarded(route(&policy, inbound("PUT", "/x", &[], &[("x-reroute-to", "http://o")], b"payload")));
    assert_eq!(d.body, "payload");
}
