//! The proxy pipeline: an inbound request becomes either a fixed rejection or
//! a forwarded request, and the origin's outcome becomes the reply relayed to
//! the caller.

use vstd::prelude::*;
use vstd::utf8::*;
use crate::http::headers::{
    fields, first_value, sanitized, find_header, HeaderField, HeaderPolicy, RELOAD_ON_403,
    ROUTING_HEADER,
};
use crate::interrupter::Interrupter;
use crate::clock::now_unix_seconds;

verus! {

pub const STATUS_FORBIDDEN: u16 = 403;

pub const STATUS_INTERNAL_ERROR: u16 = 500;

/// The body of the reply to a request without a routing header.
pub const MISSING_TARGET_MESSAGE: &'static str = "Missing X-Reroute-To header";

/// The body of a 500 reply when the failure came without a description.
pub const UNREACHABLE_MESSAGE: &'static str = "origin request failed";

/// Relies on `String::from_utf8`: the bytes as text when they are valid
/// UTF-8, nothing otherwise.
#[verifier::external_body]
fn utf8_text(bytes: Vec<u8>) -> (r: Option<String>)
    ensures
        r is Some <==> valid_utf8(bytes@),
        r matches Some(s) ==> s@ == decode_utf8(bytes@),
{
    String::from_utf8(bytes).ok()
}

/// The text of a request body: its UTF-8 decoding, or empty when the bytes
/// are not valid UTF-8.
pub open spec fn body_text(bytes: Seq<u8>) -> Seq<char> {
    if valid_utf8(bytes) {
        decode_utf8(bytes)
    } else {
        Seq::empty()
    }
}

/// The text of a request body; invalid UTF-8 gives an empty body.
pub fn decode_body(bytes: Vec<u8>) -> (r: String)
    ensures
        r@ == body_text(bytes@),
{
    match utf8_text(bytes) {
        Some(s) => s,
        None => String::new(),
    }
}

/// One query parameter.
#[derive(Debug)]
pub struct QueryParam {
    pub key: String,
    pub value: String,
}

impl View for QueryParam {
    type V = (Seq<char>, Seq<char>);

    open spec fn view(&self) -> (Seq<char>, Seq<char>) {
        (self.key@, self.value@)
    }
}

impl QueryParam {
    pub fn new(key: &str, value: &str) -> (r: QueryParam)
        ensures
            r.key@ == key@,
            r.value@ == value@,
    {
        QueryParam { key: key.to_owned(), value: value.to_owned() }
    }

    pub fn duplicate(&self) -> (r: QueryParam)
        ensures
            r@ == self@,
    {
        QueryParam { key: self.key.clone(), value: self.value.clone() }
    }
}

/// The key/value pairs of a list of query parameters.
pub open spec fn params(ps: Seq<QueryParam>) -> Seq<(Seq<char>, Seq<char>)> {
    ps.map_values(|p: QueryParam| p@)
}

/// The value of the last pair with key `key`.
pub open spec fn last_value(ps: Seq<(Seq<char>, Seq<char>)>, key: Seq<char>) -> Option<Seq<char>>
    decreases ps.len(),
{
    if ps.len() == 0 {
        None
    } else if ps.last().0 == key {
        Some(ps.last().1)
    } else {
        last_value(ps.drop_last(), key)
    }
}

/// The keys of a list of pairs.
pub open spec fn keys(ps: Seq<(Seq<char>, Seq<char>)>) -> Seq<Seq<char>> {
    ps.map_values(|p: (Seq<char>, Seq<char>)| p.0)
}

/// `out` holds each key of `ps` once, with the value of its last occurrence.
pub open spec fn is_merged(out: Seq<(Seq<char>, Seq<char>)>, ps: Seq<(Seq<char>, Seq<char>)>) -> bool {
    &&& forall|i: int, j: int| 0 <= i < j < out.len() ==> #[trigger] out[i].0 != #[trigger] out[j].0
    &&& forall|i: int| 0 <= i < out.len() ==> last_value(ps, #[trigger] out[i].0) == Some(out[i].1)
    &&& forall|k: Seq<char>| #[trigger] last_value(ps, k) is Some ==> keys(out).contains(k)
}

/// Query parameters with one entry per key; on a repeated key the last
/// value wins.
pub fn merge_query(pairs: &Vec<QueryParam>) -> (r: Vec<QueryParam>)
    ensures
        is_merged(params(r@), params(pairs@)),
{
    let mut out: Vec<QueryParam> = Vec::new();
    let mut i: usize = 0;
    while i < pairs.len()
        invariant
            0 <= i <= pairs@.len(),
            is_merged(params(out@), params(pairs@).subrange(0, i as int)),
        decreases pairs@.len() - i,
    {
        let ghost seen = params(pairs@).subrange(0, i as int);
        let ghost now = params(pairs@).subrange(0, i + 1);
        let ghost p = pairs@[i as int]@;
        assert(now.drop_last() =~= seen);
        assert(now.last() == p);
        let mut j: usize = 0;
        while j < out.len()
            invariant
                0 <= j <= out@.len(),
                forall|k: int| 0 <= k < j ==> #[trigger] params(out@)[k].0 != p.0,
                p == pairs@[i as int]@,
                i < pairs@.len(),
            ensures
                0 <= j <= out@.len(),
                forall|k: int| 0 <= k < j ==> #[trigger] params(out@)[k].0 != p.0,
                j < out@.len() ==> params(out@)[j as int].0 == p.0,
            decreases out@.len() - j,
        {
            if out[j].key == pairs[i].key {
                break;
            }
            j = j + 1;
        }
        let ghost before = params(out@);
        let param = pairs[i].duplicate();
        if j < out.len() {
            assert(before[j as int].0 == p.0);
            out.set(j, param);
            proof {
                let after = params(out@);
                assert forall|a: int| 0 <= a < after.len() implies last_value(now, #[trigger] after[a].0) == Some(after[a].1) by {
                    if a != j {
                        assert(after[a] == before[a]);
                    }
                }
                assert forall|k: Seq<char>| #[trigger] last_value(now, k) is Some implies keys(after).contains(k) by {
                    if k == p.0 {
                        assert(keys(after)[j as int] == k);
                    } else {
                        assert(last_value(seen, k) is Some);
                        assert(keys(before).contains(k));
                        let w = choose|w: int| 0 <= w < keys(before).len() && keys(before)[w] == k;
                        assert(keys(after)[w] == k);
                    }
                }
                assert forall|a: int, b: int| 0 <= a < b < after.len() implies #[trigger] after[a].0 != #[trigger] after[b].0 by {
                    assert(before[a].0 != before[b].0);
                }
            }
        } else {
            out.push(param);
            proof {
                let after = params(out@);
                assert forall|a: int| 0 <= a < after.len() implies last_value(now, #[trigger] after[a].0) == Some(after[a].1) by {
                    if a < before.len() {
                        assert(after[a] == before[a]);
                    }
                }
                assert forall|k: Seq<char>| #[trigger] last_value(now, k) is Some implies keys(after).contains(k) by {
                    if k == p.0 {
                        assert(keys(after)[before.len() as int] == k);
                    } else {
                        assert(last_value(seen, k) is Some);
                        assert(keys(before).contains(k));
                        let w = choose|w: int| 0 <= w < keys(before).len() && keys(before)[w] == k;
                        assert(keys(after)[w] == k);
                    }
                }
                assert forall|a: int, b: int| 0 <= a < b < after.len() implies #[trigger] after[a].0 != #[trigger] after[b].0 by {
                    if b < before.len() {
                        assert(before[a].0 != before[b].0);
                    } else {
                        assert(after[b] == p);
                        assert(after[a] == before[a]);
                    }
                }
            }
        }
        i = i + 1;
    }
    assert(params(pairs@).subrange(0, pairs@.len() as int) =~= params(pairs@));
    out
}

/// An inbound request as the HTTP server hands it over.
#[derive(Debug)]
pub struct InboundRequest {
    pub method: String,
    pub path: String,
    pub query: Vec<QueryParam>,
    pub headers: Vec<HeaderField>,
    pub body: Vec<u8>,
}

/// The request to send to the origin.
#[derive(Debug)]
pub struct RequestDescriptor {
    pub method: String,
    /// The routing header's value followed by the inbound path.
    pub url: String,
    pub query_params: Vec<QueryParam>,
    /// The inbound headers, sanitised.
    pub headers: Vec<HeaderField>,
    pub body: String,
    /// Whether the inbound request asked for termination on a 403.
    pub reload_on_403: bool,
}

/// The reply to relay to the caller.
#[derive(Debug)]
pub struct ResponseDescriptor {
    pub status: u16,
    pub headers: Vec<HeaderField>,
    pub body: String,
}

/// Why an inbound request is not forwarded.
#[derive(Debug, Clone, Copy, PartialEq, Eq, Structural)]
pub enum RoutingError {
    MissingTarget,
}

/// What the proxy does with an inbound request.
#[derive(Debug)]
pub enum ProxyAction {
    /// Reply at once; nothing is sent to any origin.
    Reject(ResponseDescriptor),
    /// Send this request to the origin.
    Forward(RequestDescriptor),
}

/// What came back from the origin.
#[derive(Debug)]
pub enum OriginOutcome {
    /// No reply: the origin could not be reached, timed out or sent a
    /// malformed reply. Holds the failure's description.
    Unreachable(String),
    /// A status and headers, and the body text or the description of why it
    /// could not be read.
    Replied { status: u16, headers: Vec<HeaderField>, body: Result<String, String> },
}

/// The request that `inbound` becomes when its routing header holds `target`.
pub open spec fn assembled(
    policy: HeaderPolicy,
    inbound: InboundRequest,
    target: Seq<char>,
    d: RequestDescriptor,
) -> bool {
    &&& d.method@ == inbound.method@
    &&& d.url@ == target + inbound.path@
    &&& is_merged(params(d.query_params@), params(inbound.query@))
    &&& fields(d.headers@) == sanitized(policy, fields(inbound.headers@))
    &&& d.body@ == body_text(inbound.body@)
    &&& d.reload_on_403 == first_value(fields(inbound.headers@), RELOAD_ON_403@) is Some
}

impl RequestDescriptor {
    /// Builds the request to forward. Fails exactly when the inbound headers
    /// carry no routing header.
    pub fn assemble(policy: &HeaderPolicy, inbound: InboundRequest) -> (r: Result<RequestDescriptor, RoutingError>)
        ensures
            match first_value(fields(inbound.headers@), ROUTING_HEADER@) {
                None => r matches Err(RoutingError::MissingTarget),
                Some(u) => r matches Ok(d) && assembled(*policy, inbound, u, d),
            },
    {
        match find_header(&inbound.headers, ROUTING_HEADER) {
            None => Err(RoutingError::MissingTarget),
            Some(target) => {
                let mut url = target;
                url.append(inbound.path.as_str());
                let query_params = merge_query(&inbound.query);
                let headers = policy.sanitise(&inbound.headers);
                let reload_on_403 = find_header(&inbound.headers, RELOAD_ON_403).is_some();
                let InboundRequest { method, body, .. } = inbound;
                let body = decode_body(body);
                Ok(RequestDescriptor { method, url, query_params, headers, body, reload_on_403 })
            },
        }
    }
}

impl ResponseDescriptor {
    /// A 403 reply with `message` as its body and no headers.
    pub fn forbidden(message: &str) -> (r: ResponseDescriptor)
        ensures
            r.status == 403,
            r.headers@.len() == 0,
            r.body@ == message@,
    {
        ResponseDescriptor { status: STATUS_FORBIDDEN, headers: Vec::new(), body: message.to_owned() }
    }

    /// A 500 reply that carries the failure's description, or a fixed
    /// message when the description is empty; no headers.
    pub fn internal_error(description: &str) -> (r: ResponseDescriptor)
        ensures
            r.status == 500,
            r.headers@.len() == 0,
            r.body@ == if description@.len() > 0 {
                description@
            } else {
                UNREACHABLE_MESSAGE@
            },
            r.body@.len() > 0,
    {
        proof {
            reveal_strlit("origin request failed");
        }
        let body = if description.is_empty() {
            UNREACHABLE_MESSAGE.to_owned()
        } else {
            description.to_owned()
        };
        ResponseDescriptor { status: STATUS_INTERNAL_ERROR, headers: Vec::new(), body }
    }
}

/// Decides what to do with an inbound request: without a routing header it
/// is answered with a 403 and nothing is sent anywhere; otherwise the
/// request to forward is built.
pub fn route(policy: &HeaderPolicy, inbound: InboundRequest) -> (r: ProxyAction)
    ensures
        match first_value(fields(inbound.headers@), ROUTING_HEADER@) {
            None => r matches ProxyAction::Reject(resp) && resp.status == 403 && resp.headers@.len() == 0
                && resp.body@ == MISSING_TARGET_MESSAGE@,
            Some(u) => r matches ProxyAction::Forward(d) && assembled(*policy, inbound, u, d),
        },
{
    match RequestDescriptor::assemble(policy, inbound) {
        Err(RoutingError::MissingTarget) => ProxyAction::Reject(ResponseDescriptor::forbidden(MISSING_TARGET_MESSAGE)),
        Ok(d) => ProxyAction::Forward(d),
    }
}

/// Whether the origin's status, for this request, asks for termination.
pub open spec fn asks_termination(request: RequestDescriptor, status: u16) -> bool {
    status == 403 && request.reload_on_403
}

/// How the guard moves for an outcome at time `now`, and whether a
/// termination signal is due: only a 403 for a request with the
/// reload-on-403 flag reaches the guard.
pub open spec fn guard_step(
    request: RequestDescriptor,
    outcome: OriginOutcome,
    before: Interrupter,
    now: int,
    after: Interrupter,
    signal: bool,
) -> bool {
    match outcome {
        OriginOutcome::Replied { status, .. } => if asks_termination(request, status) {
            signal == before.signals_at(now) && after == before.after(now)
        } else {
            !signal && after == before
        },
        OriginOutcome::Unreachable(_) => !signal && after == before,
    }
}

/// The reply relayed for an origin outcome.
pub open spec fn relayed(outcome: OriginOutcome, r: ResponseDescriptor) -> bool {
    match outcome {
        OriginOutcome::Unreachable(e) => r.status == 500 && r.headers@.len() == 0 && r.body@ == (if e@.len() > 0 {
            e@
        } else {
            UNREACHABLE_MESSAGE@
        }),
        OriginOutcome::Replied { status, headers, body } => match body {
            Ok(text) => r.status == status && fields(r.headers@) == fields(headers@) && r.body@ == text@,
            Err(e) => r.status == 500 && r.headers@.len() == 0 && r.body@ == (if e@.len() > 0 {
                e@
            } else {
                UNREACHABLE_MESSAGE@
            }),
        },
    }
}

/// Turns the origin's outcome into the reply for the caller, at time `now`.
/// A 403 for a request that carried the reload-on-403 flag is passed on to
/// the guard first; the second result says whether the guard honoured it,
/// in which case the caller sends the termination signal. The reply is the
/// same either way.
pub fn conclude_at(guard: &mut Interrupter, now: i64, request: &RequestDescriptor, outcome: OriginOutcome) -> (r: (
    ResponseDescriptor,
    bool,
))
    ensures
        relayed(outcome, r.0),
        guard_step(*request, outcome, *old(guard), now as int, *final(guard), r.1),
{
    match outcome {
        OriginOutcome::Unreachable(e) => (ResponseDescriptor::internal_error(e.as_str()), false),
        OriginOutcome::Replied { status, headers, body } => {
            let signal = if status == STATUS_FORBIDDEN && request.reload_on_403 {
                guard.interrupt_at(now)
            } else {
                false
            };
            let reply = match body {
                Ok(text) => ResponseDescriptor { status, headers, body: text },
                Err(e) => ResponseDescriptor::internal_error(e.as_str()),
            };
            (reply, signal)
        },
    }
}

/// Turns the origin's outcome into the reply for the caller, reading the
/// clock for the guard. The reply does not depend on the clock.
pub fn conclude(guard: &mut Interrupter, request: &RequestDescriptor, outcome: OriginOutcome) -> (r: (
    ResponseDescriptor,
    bool,
))
    ensures
        relayed(outcome, r.0),
        exists|now: int| #[trigger] guard_step(*request, outcome, *old(guard), now, *final(guard), r.1),
{
    let now = now_unix_seconds();
    conclude_at(guard, now, request, outcome)
}

} // verus!
