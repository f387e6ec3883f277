//! What a route does with a request.

use crate::pairs::{pairs_map, set_pair};
use crate::relay::auth::{
    auth_problem, check, find_header, header_position, opt_str, AuthDecision, Header, PeerAddr,
};
use crate::relay::channel::{handle_position, ChannelHandle, ChannelRegistry, RelayEvent};
use crate::relay::config::{ResponseConfig, RouteConfig};
use crate::relay::template::{
    compact_json, lacks_body, render, rendered, ContextView, RenderOutcome, TemplateContext,
};
use crate::text::{contains_text, lowercase, slice_text, to_chars, to_lower, to_upper, trim, trim_text, uppercase, views};
use vstd::prelude::*;
use vstd::string::*;
use vstd::utf8::*;

verus! {

/// Whether a byte can stand in the name of a method or of a header.
pub open spec fn token_byte(b: u8) -> bool {
    ||| 65 <= b <= 90
    ||| 97 <= b <= 122
    ||| 48 <= b <= 57
    ||| b == 33
    ||| 35 <= b <= 39
    ||| b == 42
    ||| b == 43
    ||| b == 45
    ||| b == 46
    ||| 94 <= b <= 96
    ||| b == 124
    ||| b == 126
}

/// Whether bytes can be the name of a method.
pub open spec fn is_token(bytes: Seq<u8>) -> bool {
    bytes.len() > 0 && forall|i: int| 0 <= i < bytes.len() ==> token_byte(#[trigger] bytes[i])
}

/// `http::Method::from_bytes`: it takes one or more letters, digits and the characters
/// ``!#$%&'*+-.^_`|~``, and nothing else.
#[verifier::external_body]
fn valid_method(method: &str) -> (r: bool)
    ensures
        r == is_token(encode_utf8(method@)),
{
    axum::http::Method::from_bytes(method.as_bytes()).is_ok()
}

/// `http::HeaderName::from_bytes`: it takes up to 65535 of the characters that a method takes.
#[verifier::external_body]
fn valid_header_name(name: &str) -> (r: bool)
    ensures
        r == (is_token(encode_utf8(name@)) && encode_utf8(name@).len() <= 65535),
{
    axum::http::HeaderName::from_bytes(name.as_bytes()).is_ok()
}

/// Whether bytes can be the value of a header: no control character but the tab.
pub open spec fn is_header_value(bytes: Seq<u8>) -> bool {
    forall|i: int| 0 <= i < bytes.len() ==> ((#[trigger] bytes[i]) >= 32 && bytes[i] != 127) || bytes[i] == 9
}

/// `http::HeaderValue::from_str`: it takes every byte but the control characters, of which it
/// takes the tab.
#[verifier::external_body]
fn valid_header_value(value: &str) -> (r: bool)
    ensures
        r == is_header_value(encode_utf8(value@)),
{
    axum::http::HeaderValue::from_str(value).is_ok()
}

/// The methods in upper case, without those that are none.
pub open spec fn usable_methods(methods: Seq<String>) -> Seq<Seq<char>>
    decreases methods.len(),
{
    if methods.len() == 0 {
        Seq::empty()
    } else {
        let rest = usable_methods(methods.drop_last());
        let method = uppercase(methods.last()@);
        if is_token(encode_utf8(method)) {
            rest.push(method)
        } else {
            rest
        }
    }
}

/// The methods that a route takes.
pub fn allowed_methods(methods: &Vec<String>) -> (r: Vec<String>)
    ensures
        views(r@) == usable_methods(methods@),
{
    let mut r: Vec<String> = Vec::new();
    let mut i: usize = 0;
    assert(methods@.take(0) =~= Seq::<String>::empty());
    assert(views(r@) =~= Seq::<Seq<char>>::empty());
    while i < methods.len()
        invariant
            i <= methods@.len(),
            views(r@) == usable_methods(methods@.take(i as int)),
        decreases methods@.len() - i,
    {
        let ghost before = r@;
        let method = to_upper(methods[i].as_str());
        assert(methods@.take(i + 1).drop_last() =~= methods@.take(i as int));
        if valid_method(method.as_str()) {
            r.push(method);
            assert(views(r@) =~= views(before).push(method@));
        }
        i = i + 1;
    }
    assert(methods@.take(methods@.len() as int) =~= methods@);
    r
}

/// What becomes of a request before anything is done with it.
#[derive(Debug, Clone, Copy)]
pub enum Gate {
    MethodNotAllowed,
    Unauthorized(&'static str),
    TooLarge,
    Pass,
}

/// The status and the message of the answer to a request that does not pass.
pub open spec fn gate_answer(gate: Gate) -> Option<(u16, Seq<char>)> {
    match gate {
        Gate::MethodNotAllowed => Some((405, "method not allowed"@)),
        Gate::Unauthorized(reason) => Some((401, reason@)),
        Gate::TooLarge => Some((413, "body too large"@)),
        Gate::Pass => None,
    }
}

/// What becomes of a request: it is refused for its method, then for what it may not do, then
/// for its length, where the route has no limit of its own for that of the relay.
pub open spec fn gate_of(
    route: RouteConfig,
    allowed: Seq<Seq<char>>,
    method: Seq<char>,
    headers: Seq<Header>,
    peer: PeerAddr,
    token: Option<Seq<char>>,
    body_len: int,
    default_limit: usize,
) -> Option<(u16, Seq<char>)> {
    if allowed.len() > 0 && !allowed.contains(method) {
        Some((405, "method not allowed"@))
    } else {
        match auth_problem(route.auth, headers, peer, token) {
            Some(reason) => Some((401, reason)),
            None => {
                let limit = match route.max_body_bytes {
                    Some(n) => n,
                    None => default_limit,
                };
                if body_len > limit {
                    Some((413, "body too large"@))
                } else {
                    None
                }
            },
        }
    }
}

/// Decides whether a request passes.
pub fn gate_request(
    route: &RouteConfig,
    allowed: &Vec<String>,
    method: &str,
    headers: &Vec<Header>,
    peer: PeerAddr,
    token: Option<&str>,
    body_len: usize,
    default_limit: usize,
) -> (r: Gate)
    ensures
        gate_answer(r) == gate_of(
            *route,
            views(allowed@),
            method@,
            headers@,
            peer,
            opt_str(token),
            body_len as int,
            default_limit,
        ),
{
    if allowed.len() > 0 && !contains_text(allowed, method) {
        return Gate::MethodNotAllowed;
    }
    match check(route.auth, headers, peer, token) {
        AuthDecision::Deny(reason) => {
            return Gate::Unauthorized(reason);
        },
        AuthDecision::Allow => {},
    }
    let limit: usize = match route.max_body_bytes {
        Some(n) => n,
        None => default_limit,
    };
    if body_len > limit {
        return Gate::TooLarge;
    }
    Gate::Pass
}

/// The part of a text before the first comma.
pub open spec fn before_comma(s: Seq<char>) -> Seq<char>
    decreases s.len(),
{
    if s.len() == 0 || s[0] == ',' {
        Seq::empty()
    } else {
        seq![s[0]] + before_comma(s.skip(1))
    }
}

/// The first hop that a request was forwarded from, or the address that it comes from.
pub open spec fn client_ip_of(headers: Seq<Header>, peer: Seq<char>) -> Seq<char> {
    match header_position(headers, "x-forwarded-for"@, 0) {
        Some(i) => match headers[i].text {
            Some(text) => {
                let hop = trim(before_comma(text@));
                if hop.len() > 0 {
                    hop
                } else {
                    peer
                }
            },
            None => peer,
        },
        None => peer,
    }
}

proof fn lemma_before_comma(s: Seq<char>, n: int)
    requires
        0 <= n <= s.len(),
        forall|j: int| 0 <= j < n ==> s[j] != ',',
        n < s.len() ==> s[n] == ',',
    ensures
        before_comma(s) == s.take(n),
    decreases n,
{
    if n == 0 {
        assert(s.take(0) =~= Seq::<char>::empty());
    } else {
        assert forall|j: int| 0 <= j < n - 1 implies s.skip(1)[j] != ',' by {
            assert(s.skip(1)[j] == s[j + 1]);
        }
        lemma_before_comma(s.skip(1), n - 1);
        assert(seq![s[0]] + s.skip(1).take(n - 1) =~= s.take(n));
    }
}

/// Tells where a request comes from.
pub fn client_ip(headers: &Vec<Header>, peer: &str) -> (r: String)
    ensures
        r@ == client_ip_of(headers@, peer@),
{
    if let Some(i) = find_header(headers, "x-forwarded-for") {
        if let Some(text) = &headers[i].text {
            let chars = to_chars(text.as_str());
            let mut n: usize = 0;
            while n < chars.len() && chars[n] != ','
                invariant
                    n <= chars@.len(),
                    forall|j: int| 0 <= j < n ==> chars@[j] != ',',
                decreases chars@.len() - n,
            {
                n = n + 1;
            }
            let first = slice_text(&chars, 0, n);
            proof {
                lemma_before_comma(text@, n as int);
                assert(first@ =~= text@.take(n as int));
            }
            let hop = trim_text(first.as_str());
            if !hop.as_str().is_empty() {
                return hop;
            }
        }
    }
    peer.to_owned()
}

/// What the first `n` headers say, by name; the last of a name counts.
pub open spec fn headers_map(headers: Seq<Header>, n: int) -> Map<Seq<char>, Seq<char>>
    decreases n,
{
    if n <= 0 {
        Map::empty()
    } else {
        let rest = headers_map(headers, n - 1);
        match headers[n - 1].text {
            Some(text) => rest.insert(lowercase(headers[n - 1].name@), text@),
            None => rest,
        }
    }
}

/// The headers by their names in lower case.
pub fn lowered_headers(headers: &Vec<Header>) -> (r: Vec<(String, String)>)
    ensures
        pairs_map(r@) == headers_map(headers@, headers@.len() as int),
{
    let mut r: Vec<(String, String)> = Vec::new();
    let mut i: usize = 0;
    assert(pairs_map(r@) =~= Map::<Seq<char>, Seq<char>>::empty());
    while i < headers.len()
        invariant
            i <= headers@.len(),
            pairs_map(r@) == headers_map(headers@, i as int),
        decreases headers@.len() - i,
    {
        if let Some(text) = &headers[i].text {
            let name = to_lower(headers[i].name.as_str());
            set_pair(&mut r, name, text.clone());
        }
        i = i + 1;
    }
    r
}

/// A request that has passed.
pub struct Accepted<'a> {
    pub ts_ms: u64,
    pub body: &'a [u8],
    pub path_params: &'a Vec<(String, String)>,
    pub headers: &'a Vec<Header>,
    /// The address that it comes from.
    pub peer: &'a str,
}

impl<'a> Accepted<'a> {
    /// What the payload of its event is rendered from.
    pub open spec fn context(self, seq_id: u64) -> ContextView {
        ContextView {
            seq_id,
            ts_ms: self.ts_ms,
            body_json: compact_json(self.body@),
            path_params: pairs_map(self.path_params@),
            headers: headers_map(self.headers@, self.headers@.len() as int),
            client_ip: client_ip_of(self.headers@, self.peer@),
        }
    }
}

/// What a route emits.
#[derive(Debug)]
pub enum Emission {
    /// The route does not emit.
    Nothing,
    /// Nobody listens.
    Skipped,
    /// An event, and whether it lacks a body that is not JSON.
    Event { event: RelayEvent, parse_error: bool },
}

/// The channel that a route emits to.
pub open spec fn emission_position(route: RouteConfig, channels: Seq<ChannelHandle>) -> Option<int> {
    match route.emit {
        Some(emit) => handle_position(channels, emit.channel@, 0),
        None => None,
    }
}

/// Makes the event of a request, where the channel of the route has `receivers` subscribers.
pub fn emit(
    route: &RouteConfig,
    registry: &mut ChannelRegistry,
    receivers: usize,
    capture_enabled: bool,
    request: &Accepted,
) -> (r: Emission)
    requires
        emission_position(*route, old(registry).channels@) matches Some(i) ==> old(registry).channels@[i].last_seq
            < u64::MAX,
    ensures
        match emission_position(*route, old(registry).channels@) {
            None => r is Nothing && final(registry).channels@ == old(registry).channels@,
            Some(i) => if receivers == 0 && !capture_enabled {
                r is Skipped && final(registry).channels@ == old(registry).channels@
            } else {
                let seq_id = (old(registry).channels@[i].last_seq + 1) as u64;
                let ctx = request.context(seq_id);
                &&& final(registry).channels@ == old(registry).channels@.update(
                    i,
                    (ChannelHandle { last_seq: seq_id, ..old(registry).channels@[i] }),
                )
                &&& r matches Emission::Event { event, parse_error }
                &&& event.seq_id == seq_id
                &&& event.ts_ms == request.ts_ms
                &&& event.channel@ == route.emit->0.channel@
                &&& event.payload@ == rendered(route.emit->0.payload@, 0, ctx)
                &&& parse_error == lacks_body(route.emit->0.payload@, 0, ctx)
            },
        },
{
    let emit = match &route.emit {
        Some(e) => e,
        None => {
            return Emission::Nothing;
        },
    };
    let at = match registry.position(emit.channel.as_str()) {
        Some(i) => i,
        None => {
            return Emission::Nothing;
        },
    };
    if receivers == 0 && !capture_enabled {
        return Emission::Skipped;
    }
    let seq_id = registry.next_seq(at);
    let ip = client_ip(request.headers, request.peer);
    let headers = lowered_headers(request.headers);
    let ctx = TemplateContext {
        seq_id,
        ts_ms: request.ts_ms,
        body: request.body,
        path_params: request.path_params,
        headers: &headers,
        client_ip: ip.as_str(),
    };
    let mut payload = String::new();
    let outcome = render(emit.payload.as_str(), &ctx, &mut payload);
    assert(ctx.with_body(compact_json(request.body@)) == request.context(seq_id));
    let parse_error = outcome == RenderOutcome::ParseErrorEmittedNull;
    Emission::Event {
        event: RelayEvent { seq_id, ts_ms: request.ts_ms, channel: emit.channel.clone(), payload },
        parse_error,
    }
}

/// The answer of a route.
#[derive(Debug)]
pub struct Answer {
    pub status: u16,
    pub headers: Vec<(String, String)>,
    pub body: String,
}

/// The names of the headers that can be sent, and their values.
pub open spec fn sendable(headers: Seq<(String, String)>) -> Seq<(Seq<char>, Seq<char>)>
    decreases headers.len(),
{
    if headers.len() == 0 {
        Seq::empty()
    } else {
        let rest = sendable(headers.drop_last());
        let (name, value) = headers.last();
        if is_token(encode_utf8(name@)) && encode_utf8(name@).len() <= 65535 && is_header_value(encode_utf8(value@)) {
            rest.push((name@, value@))
        } else {
            rest
        }
    }
}

/// Pairs of texts as mathematical values.
pub open spec fn pair_views(pairs: Seq<(String, String)>) -> Seq<(Seq<char>, Seq<char>)> {
    Seq::new(pairs.len(), |i: int| (pairs[i].0@, pairs[i].1@))
}

/// The status that is sent for a configured one.
pub open spec fn sent_status(status: u16) -> u16 {
    if 100 <= status <= 999 {
        status
    } else {
        500
    }
}

/// Makes the configured answer: an empty one with status 200 where there is none.
pub fn build_response(response: &Option<ResponseConfig>) -> (r: Answer)
    ensures
        match *response {
            None => r.status == 200 && r.headers@.len() == 0 && r.body@ == ""@,
            Some(c) => {
                &&& r.status == sent_status(c.status)
                &&& pair_views(r.headers@) == sendable(c.headers@)
                &&& r.body@ == (match c.body {
                    Some(text) => text@,
                    None => ""@,
                })
            },
        },
{
    match response {
        None => Answer { status: 200, headers: Vec::new(), body: "".to_owned() },
        Some(c) => {
            let mut headers: Vec<(String, String)> = Vec::new();
            let mut i: usize = 0;
            assert(c.headers@.take(0) =~= Seq::<(String, String)>::empty());
            assert(pair_views(headers@) =~= Seq::<(Seq<char>, Seq<char>)>::empty());
            while i < c.headers.len()
                invariant
                    i <= c.headers@.len(),
                    pair_views(headers@) == sendable(c.headers@.take(i as int)),
                decreases c.headers@.len() - i,
            {
                let ghost before = headers@;
                let entry = &c.headers[i];
                assert(c.headers@.take(i + 1).drop_last() =~= c.headers@.take(i as int));
                if valid_header_name(entry.0.as_str()) && valid_header_value(entry.1.as_str()) {
                    headers.push((entry.0.clone(), entry.1.clone()));
                    assert(pair_views(headers@) =~= pair_views(before).push((entry.0@, entry.1@)));
                }
                i = i + 1;
            }
            assert(c.headers@.take(c.headers@.len() as int) =~= c.headers@);
            let body = match &c.body {
                Some(text) => text.clone(),
                None => "".to_owned(),
            };
            let status: u16 = if c.status >= 100 && c.status <= 999 { c.status } else { 500 };
            Answer { status, headers, body }
        },
    }
}

/// A request is refused for its method first, then for what it may not do, then for its length, and
/// passes where none of these holds. A body as long as the limit passes; the limit is the route's own
/// where it has one.
pub proof fn law_requests_are_refused_in_order(
    route: RouteConfig,
    allowed: Seq<Seq<char>>,
    method: Seq<char>,
    headers: Seq<Header>,
    peer: PeerAddr,
    token: Option<Seq<char>>,
    body_len: int,
    default_limit: usize,
)
    ensures
        ({
            let r = gate_of(route, allowed, method, headers, peer, token, body_len, default_limit);
            let problem = auth_problem(route.auth, headers, peer, token);
            let known = allowed.len() == 0 || allowed.contains(method);
            &&& !known ==> r == Some((405u16, "method not allowed"@))
            &&& known && problem is Some ==> r == Some((401u16, problem->0))
            &&& known && problem is None && (route.max_body_bytes matches Some(own) && body_len > own) ==> r == Some(
                (413u16, "body too large"@),
            )
            &&& known && problem is None && route.max_body_bytes is None && body_len > default_limit ==> r == Some(
                (413u16, "body too large"@),
            )
            &&& r is None <==> known && problem is None && (route.max_body_bytes matches Some(own) ==> body_len <= own)
                && (route.max_body_bytes is None ==> body_len <= default_limit)
        }),
{
}

/// A route takes each of its methods in upper case, in order, but for those that are no methods.
pub proof fn law_methods_are_taken_in_upper_case(methods: Seq<String>, method: String)
    ensures
        usable_methods(Seq::empty()) == Seq::<Seq<char>>::empty(),
        is_token(encode_utf8(uppercase(method@))) ==> usable_methods(methods.push(method)) == usable_methods(
            methods,
        ).push(uppercase(method@)),
        !is_token(encode_utf8(uppercase(method@))) ==> usable_methods(methods.push(method)) == usable_methods(methods),
{
    assert(methods.push(method).drop_last() =~= methods);
}

/// A request comes from the first hop that it was forwarded from, without the blanks around it; where
/// it was not forwarded, or that hop is blank, from the address of the connection.
pub proof fn law_the_first_hop_counts(
    headers: Seq<Header>,
    i: int,
    hop: Seq<char>,
    rest: Seq<char>,
    peer: Seq<char>,
)
    requires
        0 <= i < headers.len(),
        headers[i].name@ == "x-forwarded-for"@,
        forall|j: int| 0 <= j < i ==> (#[trigger] headers[j]).name@ != "x-forwarded-for"@,
        !hop.contains(','),
    ensures
        headers[i].text matches Some(text) ==> (text@ == hop + seq![','] + rest || text@ == hop ==> {
            &&& trim(hop).len() > 0 ==> client_ip_of(headers, peer) == trim(hop)
            &&& trim(hop).len() == 0 ==> client_ip_of(headers, peer) == peer
        }),
        headers[i].text is None ==> client_ip_of(headers, peer) == peer,
{
    lemma_forwarded(headers, i, 0);
    let text = hop + seq![','] + rest;
    assert forall|j: int| 0 <= j < hop.len() implies text[j] != ',' && hop[j] != ',' by {
        assert(hop.contains(hop[j]));
    }
    lemma_before_comma(text, hop.len() as int);
    lemma_before_comma(hop, hop.len() as int);
    assert(text.take(hop.len() as int) =~= hop);
    assert(hop.take(hop.len() as int) =~= hop);
}

proof fn lemma_forwarded(headers: Seq<Header>, i: int, n: int)
    requires
        0 <= n <= i < headers.len(),
        headers[i].name@ == "x-forwarded-for"@,
        forall|j: int| 0 <= j < i ==> (#[trigger] headers[j]).name@ != "x-forwarded-for"@,
    ensures
        header_position(headers, "x-forwarded-for"@, n) == Some(i),
    decreases i - n,
{
    if n < i {
        assert(headers[n].name@ != "x-forwarded-for"@);
        lemma_forwarded(headers, i, n + 1);
    }
}

/// A request that was not forwarded comes from the address of the connection.
pub proof fn law_direct_requests_come_from_the_connection(headers: Seq<Header>, peer: Seq<char>)
    requires
        forall|j: int| 0 <= j < headers.len() ==> (#[trigger] headers[j]).name@ != "x-forwarded-for"@,
    ensures
        client_ip_of(headers, peer) == peer,
{
    lemma_not_forwarded(headers, 0);
}

proof fn lemma_not_forwarded(headers: Seq<Header>, n: int)
    requires
        0 <= n,
        forall|j: int| 0 <= j < headers.len() ==> (#[trigger] headers[j]).name@ != "x-forwarded-for"@,
    ensures
        header_position(headers, "x-forwarded-for"@, n) is None,
    decreases headers.len() - n,
{
    if n < headers.len() {
        assert(headers[n].name@ != "x-forwarded-for"@);
        lemma_not_forwarded(headers, n + 1);
    }
}

/// Templates know a header by its name in lower case; the last of a name that can be read counts.
pub proof fn law_the_last_header_of_a_name_counts(headers: Seq<Header>, n: int, name: Seq<char>)
    requires
        0 < n <= headers.len(),
    ensures
        ({
            let last = headers[n - 1];
            let all = headers_map(headers, n);
            let before = headers_map(headers, n - 1);
            &&& last.text matches Some(text) ==> all.dom().contains(lowercase(last.name@)) && all[lowercase(last.name@)]
                == text@
            &&& name != lowercase(last.name@) || last.text is None ==> all.dom().contains(name)
                == before.dom().contains(name) && (before.dom().contains(name) ==> all[name] == before[name])
            &&& !headers_map(headers, 0).dom().contains(name)
        }),
{
}

/// The payload of an event is rendered from the request itself: its moment, its body, the parameters
/// of its path, its headers, and where it comes from; and from the number of the event.
pub proof fn law_events_are_rendered_from_the_request(request: Accepted, seq_id: u64)
    ensures
        ({
            let ctx = request.context(seq_id);
            &&& ctx.seq_id == seq_id
            &&& ctx.ts_ms == request.ts_ms
            &&& ctx.body_json == compact_json(request.body@)
            &&& ctx.path_params == pairs_map(request.path_params@)
            &&& ctx.headers == headers_map(request.headers@, request.headers@.len() as int)
            &&& ctx.client_ip == client_ip_of(request.headers@, request.peer@)
        }),
{
}

/// The configured headers are sent in order but for those that HTTP cannot carry, and a status that
/// HTTP does not have is sent as an error of the service.
pub proof fn law_what_can_be_sent_is_sent(headers: Seq<(String, String)>, header: (String, String), status: u16)
    ensures
        sendable(Seq::empty()) == Seq::<(Seq<char>, Seq<char>)>::empty(),
        ({
            let fits = is_token(encode_utf8(header.0@)) && encode_utf8(header.0@).len() <= 65535 && is_header_value(
                encode_utf8(header.1@),
            );
            &&& fits ==> sendable(headers.push(header)) == sendable(headers).push((header.0@, header.1@))
            &&& !fits ==> sendable(headers.push(header)) == sendable(headers)
        }),
        100 <= status <= 999 ==> sent_status(status) == status,
        status < 100 || status > 999 ==> sent_status(status) == 500,
{
    assert(headers.push(header).drop_last() =~= headers);
}

/// A request that does not pass is answered with the status of what it failed: the method, what it may do,
/// or its length.
pub proof fn law_refusals_have_their_status(reason: &'static str)
    ensures
        gate_answer(Gate::Pass) is None,
        gate_answer(Gate::MethodNotAllowed) == Some((405u16, "method not allowed"@)),
        gate_answer(Gate::Unauthorized(reason)) == Some((401u16, reason@)),
        gate_answer(Gate::TooLarge) == Some((413u16, "body too large"@)),
{
}

/// A route emits to the first channel of the name that it gives, and to none where it gives none.
pub proof fn law_routes_emit_to_the_channel_they_name(route: RouteConfig, channels: Seq<ChannelHandle>)
    ensures
        route.emit is None ==> emission_position(route, channels) is None,
        route.emit matches Some(emit) ==> (match emission_position(route, channels) {
            Some(i) => {
                &&& 0 <= i < channels.len()
                &&& channels[i].name@ == emit.channel@
                &&& forall|j: int| 0 <= j < i ==> (#[trigger] channels[j]).name@ != emit.channel@
            },
            None => forall|j: int| 0 <= j < channels.len() ==> (#[trigger] channels[j]).name@ != emit.channel@,
        }),
{
    if let Some(emit) = route.emit {
        crate::relay::channel::law_channels_are_found_by_name(channels, emit.channel@);
    }
}

} // verus!
