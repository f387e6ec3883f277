//! Who may use a route.
//!
//! A route asks for nothing, for `Authorization: Bearer <token>`, or for that unless the
//! request comes from this machine. Only the address that the connection comes from counts:
//! no forwarding header opens a route.

use crate::relay::config::AuthMode;
use crate::text::{begins_with, slice_text, text_eq, to_chars};
use vstd::prelude::*;
use vstd::string::*;

verus! {

/// Whether a request may go on; if not, why.
#[derive(Debug, Clone, Copy, PartialEq, Eq)]
pub enum AuthDecision {
    Allow,
    Deny(&'static str),
}

/// An internet address.
#[derive(Debug, Clone, Copy, PartialEq, Eq)]
pub enum PeerAddr {
    V4(u8, u8, u8, u8),
    /// The address as one number, most significant group first.
    V6(u128),
}

/// A header of a request: its name in lower case, and its value, or none where the value holds
/// other than visible ASCII characters.
#[derive(Debug)]
pub struct Header {
    pub name: String,
    pub text: Option<String>,
}

/// The first header of that name, from position `n` on.
pub open spec fn header_position(headers: Seq<Header>, name: Seq<char>, n: int) -> Option<int>
    decreases headers.len() - n,
{
    if n >= headers.len() {
        None
    } else if headers[n].name@ == name {
        Some(n)
    } else {
        header_position(headers, name, n + 1)
    }
}

/// Looks for the first header of a name.
pub fn find_header(headers: &Vec<Header>, name: &str) -> (r: Option<usize>)
    ensures
        match r {
            Some(i) => i < headers@.len() && header_position(headers@, name@, 0) == Some(i as int),
            None => header_position(headers@, name@, 0) is None,
        },
{
    let mut i: usize = 0;
    while i < headers.len()
        invariant
            i <= headers@.len(),
            header_position(headers@, name@, 0) == header_position(headers@, name@, i as int),
        decreases headers@.len() - i,
    {
        if text_eq(headers[i].name.as_str(), name) {
            return Some(i);
        }
        i = i + 1;
    }
    None
}

/// Whether an address is `127.0.0.1` or `::1`.
pub open spec fn from_this_machine(peer: PeerAddr) -> bool {
    match peer {
        PeerAddr::V4(a, b, c, d) => a == 127 && b == 0 && c == 0 && d == 1,
        PeerAddr::V6(n) => n == 1,
    }
}

/// Whether a request comes from this machine.
pub fn is_loopback(peer: PeerAddr) -> (r: bool)
    ensures
        r == from_this_machine(peer),
{
    match peer {
        PeerAddr::V4(a, b, c, d) => a == 127 && b == 0 && c == 0 && d == 1,
        PeerAddr::V6(n) => n == 1,
    }
}

/// Whether two byte strings are equal. How long it takes depends on their lengths alone.
pub fn subtle_eq(a: &[u8], b: &[u8]) -> (r: bool)
    ensures
        r == (a@ == b@),
{
    if a.len() != b.len() {
        return false;
    }
    let mut diff: u8 = 0;
    let mut i: usize = 0;
    while i < a.len()
        invariant
            i <= a@.len(),
            a@.len() == b@.len(),
            diff == 0 <==> forall|j: int| 0 <= j < i ==> a@[j] == b@[j],
        decreases a@.len() - i,
    {
        let x: u8 = a[i];
        let y: u8 = b[i];
        let next: u8 = diff | (x ^ y);
        assert(next == 0 <==> (diff == 0 && x == y)) by (bit_vector)
            requires
                next == diff | (x ^ y),
        ;
        diff = next;
        i = i + 1;
    }
    assert(diff == 0 ==> a@ =~= b@);
    diff == 0
}

/// What stands behind `Bearer ` in a header.
pub open spec fn bearer_token(text: Seq<char>) -> Option<Seq<char>> {
    if "Bearer "@.is_prefix_of(text) {
        Some(text.skip(7))
    } else {
        None
    }
}

/// Why a request without loopback privilege is refused, or none where it shows the token.
pub open spec fn bearer_problem(headers: Seq<Header>, expected: Option<Seq<char>>) -> Option<Seq<char>> {
    match expected {
        None => Some("admin token not configured"@),
        Some(token) => match header_position(headers, "authorization"@, 0) {
            None => Some("authorization header required"@),
            Some(i) => match headers[i].text {
                None => Some("authorization header malformed"@),
                Some(text) => match bearer_token(text@) {
                    None => Some("expected `Bearer <token>`"@),
                    Some(shown) => if shown == token {
                        None
                    } else {
                        Some("invalid token"@)
                    },
                },
            },
        },
    }
}

/// Why a request is refused, or none where it may go on.
pub open spec fn auth_problem(
    mode: AuthMode,
    headers: Seq<Header>,
    peer: PeerAddr,
    expected: Option<Seq<char>>,
) -> Option<Seq<char>> {
    match mode {
        AuthMode::Open => None,
        AuthMode::Bearer => bearer_problem(headers, expected),
        AuthMode::LoopbackOrBearer => if from_this_machine(peer) {
            None
        } else {
            bearer_problem(headers, expected)
        },
    }
}

/// A borrowed text that may be absent, as a mathematical value.
pub open spec fn opt_str(o: Option<&str>) -> Option<Seq<char>> {
    match o {
        Some(s) => Some(s@),
        None => None,
    }
}

/// The reason of a refusal.
pub open spec fn refusal(d: AuthDecision) -> Option<Seq<char>> {
    match d {
        AuthDecision::Allow => None,
        AuthDecision::Deny(reason) => Some(reason@),
    }
}

/// Decides on the token that a request shows.
pub fn check_bearer(headers: &Vec<Header>, expected: Option<&str>) -> (r: AuthDecision)
    ensures
        refusal(r) == bearer_problem(headers@, opt_str(expected)),
{
    let token = match expected {
        None => {
            return AuthDecision::Deny("admin token not configured");
        },
        Some(t) => t,
    };
    let at = match find_header(headers, "authorization") {
        None => {
            return AuthDecision::Deny("authorization header required");
        },
        Some(i) => i,
    };
    let text = match &headers[at].text {
        None => {
            return AuthDecision::Deny("authorization header malformed");
        },
        Some(t) => t,
    };
    let chars = to_chars(text.as_str());
    proof {
        reveal_strlit("Bearer ");
    }
    if !begins_with(&chars, "Bearer ") {
        return AuthDecision::Deny("expected `Bearer <token>`");
    }
    let shown = slice_text(&chars, 7, chars.len());
    assert(shown@ =~= text@.skip(7));
    proof {
        vstd::utf8::encode_utf8_decode_utf8(shown@);
        vstd::utf8::encode_utf8_decode_utf8(token@);
    }
    if subtle_eq(shown.as_str().as_bytes(), token.as_bytes()) {
        AuthDecision::Allow
    } else {
        AuthDecision::Deny("invalid token")
    }
}

/// Decides whether a request may use a route.
pub fn check(mode: AuthMode, headers: &Vec<Header>, peer: PeerAddr, expected_token: Option<&str>) -> (r: AuthDecision)
    ensures
        refusal(r) == auth_problem(mode, headers@, peer, opt_str(expected_token)),
{
    match mode {
        AuthMode::Open => AuthDecision::Allow,
        AuthMode::Bearer => check_bearer(headers, expected_token),
        AuthMode::LoopbackOrBearer => {
            if is_loopback(peer) {
                AuthDecision::Allow
            } else {
                check_bearer(headers, expected_token)
            }
        },
    }
}

/// No header but `authorization` opens a route: two requests that agree on it are answered
/// alike.
pub proof fn law_only_authorization_counts(
    mode: AuthMode,
    a: Seq<Header>,
    b: Seq<Header>,
    peer: PeerAddr,
    expected: Option<Seq<char>>,
)
    requires
        header_position(a, "authorization"@, 0) is None == header_position(b, "authorization"@, 0) is None,
        header_position(a, "authorization"@, 0) matches Some(i) ==> header_position(
            b,
            "authorization"@,
            0,
        ) matches Some(j) && a[i].text == b[j].text,
    ensures
        auth_problem(mode, a, peer, expected) == auth_problem(mode, b, peer, expected),
{
}

/// Without a configured token only requests from this machine can use a protected route.
pub proof fn law_no_token_no_access(mode: AuthMode, headers: Seq<Header>, peer: PeerAddr)
    requires
        !(mode is Open),
        mode is LoopbackOrBearer ==> !from_this_machine(peer),
    ensures
        auth_problem(mode, headers, peer, None) == Some("admin token not configured"@),
{
}

/// A request that shows a token opens a route that asks for one exactly where the token is the
/// expected one, whatever else it holds; the first `authorization` header counts.
pub proof fn law_the_right_token_opens_the_route(
    headers: Seq<Header>,
    i: int,
    shown: Seq<char>,
    token: Seq<char>,
    peer: PeerAddr,
)
    requires
        0 <= i < headers.len(),
        headers[i].name@ == "authorization"@,
        forall|j: int| 0 <= j < i ==> (#[trigger] headers[j]).name@ != "authorization"@,
        headers[i].text matches Some(text) && text@ == "Bearer "@ + shown,
    ensures
        auth_problem(AuthMode::Bearer, headers, peer, Some(token)) is None <==> shown == token,
        shown != token ==> auth_problem(AuthMode::Bearer, headers, peer, Some(token)) == Some("invalid token"@),
        shown == token ==> auth_problem(AuthMode::LoopbackOrBearer, headers, peer, Some(token)) is None,
{
    lemma_header_found(headers, "authorization"@, i, 0);
    reveal_strlit("Bearer ");
    let text = "Bearer "@ + shown;
    assert("Bearer "@.is_prefix_of(text));
    assert(text.skip(7) =~= shown);
}

/// The first header of a name is the one that is found.
pub proof fn lemma_header_found(headers: Seq<Header>, name: Seq<char>, i: int, n: int)
    requires
        0 <= n <= i < headers.len(),
        headers[i].name@ == name,
        forall|j: int| 0 <= j < i ==> (#[trigger] headers[j]).name@ != name,
    ensures
        header_position(headers, name, n) == Some(i),
    decreases i - n,
{
    if n < i {
        assert(headers[n].name@ != name);
        lemma_header_found(headers, name, i, n + 1);
    }
}

proof fn lemma_header_missing(headers: Seq<Header>, name: Seq<char>, n: int)
    requires
        0 <= n,
        forall|j: int| 0 <= j < headers.len() ==> (#[trigger] headers[j]).name@ != name,
    ensures
        header_position(headers, name, n) is None,
    decreases headers.len() - n,
{
    if n < headers.len() {
        assert(headers[n].name@ != name);
        lemma_header_missing(headers, name, n + 1);
    }
}

/// A request without a token is told what it lacks: the header, a header that can be read, or the word
/// before the token.
pub proof fn law_requests_without_a_token_are_refused(headers: Seq<Header>, i: int, token: Seq<char>, peer: PeerAddr)
    ensures
        (forall|j: int| 0 <= j < headers.len() ==> (#[trigger] headers[j]).name@ != "authorization"@) ==> auth_problem(
            AuthMode::Bearer,
            headers,
            peer,
            Some(token),
        ) == Some("authorization header required"@),
        0 <= i < headers.len() && headers[i].name@ == "authorization"@ && (forall|j: int|
            0 <= j < i ==> (#[trigger] headers[j]).name@ != "authorization"@) ==> {
            &&& headers[i].text is None ==> auth_problem(AuthMode::Bearer, headers, peer, Some(token)) == Some(
                "authorization header malformed"@,
            )
            &&& headers[i].text matches Some(text) ==> (!"Bearer "@.is_prefix_of(text@) ==> auth_problem(
                AuthMode::Bearer,
                headers,
                peer,
                Some(token),
            ) == Some("expected `Bearer <token>`"@))
        },
{
    if forall|j: int| 0 <= j < headers.len() ==> (#[trigger] headers[j]).name@ != "authorization"@ {
        lemma_header_missing(headers, "authorization"@, 0);
    }
    if 0 <= i < headers.len() && headers[i].name@ == "authorization"@ && (forall|j: int|
        0 <= j < i ==> (#[trigger] headers[j]).name@ != "authorization"@) {
        lemma_header_found(headers, "authorization"@, i, 0);
    }
}

/// An open route asks for nothing. A route that trusts this machine asks nothing of `127.0.0.1` and of
/// `::1`, and of every other address what a route asks that trusts nobody.
pub proof fn law_only_this_machine_is_trusted(
    headers: Seq<Header>,
    expected: Option<Seq<char>>,
    peer: PeerAddr,
)
    ensures
        auth_problem(AuthMode::Open, headers, peer, expected) is None,
        auth_problem(AuthMode::LoopbackOrBearer, headers, PeerAddr::V4(127, 0, 0, 1), expected) is None,
        auth_problem(AuthMode::LoopbackOrBearer, headers, PeerAddr::V6(1), expected) is None,
        peer != PeerAddr::V4(127, 0, 0, 1) && peer != PeerAddr::V6(1) ==> auth_problem(
            AuthMode::LoopbackOrBearer,
            headers,
            peer,
            expected,
        ) == auth_problem(AuthMode::Bearer, headers, peer, expected),
        auth_problem(AuthMode::Bearer, headers, peer, expected) == auth_problem(
            AuthMode::Bearer,
            headers,
            PeerAddr::V6(1),
            expected,
        ),
{
}

} // verus!
