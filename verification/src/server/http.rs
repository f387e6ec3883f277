//! What is decided about requests as such: who may make them, under which label they count, how their
//! time divides, and whether they are recorded.

use crate::relay::auth::{bearer_token, find_header, header_position, lemma_header_found, opt_str, Header};
use crate::server::answer::{refuse, Refusal, RefusalView};
use crate::text::{begins_with, has_part, has_text, slice_text, text_eq, to_chars};
use vstd::prelude::*;
use vstd::string::*;

verus! {

/// What is wrong with a request for what only an administrator may do. A request that was not
/// forwarded comes from this machine or from beside it, and may do it.
pub open spec fn admin_problem(headers: Seq<Header>, token: Option<Seq<char>>) -> Option<RefusalView> {
    if header_position(headers, "x-forwarded-for"@, 0) is None {
        None
    } else {
        match token {
            None => Some(
                RefusalView {
                    status: 403,
                    error:
                        "Admin endpoints are disabled. Set BITDEX_ADMIN_TOKEN env var or admin_token in config to enable."@,
                },
            ),
            Some(expected) => match shown_token(headers) {
                Some(shown) => if shown == expected {
                    None
                } else {
                    Some(RefusalView { status: 401, error: "Invalid admin token"@ })
                },
                None => Some(
                    RefusalView { status: 401, error: "Authorization header required: Bearer <admin_token>"@ },
                ),
            },
        }
    }
}

/// The token that a request shows.
pub open spec fn shown_token(headers: Seq<Header>) -> Option<Seq<char>> {
    match header_position(headers, "authorization"@, 0) {
        Some(i) => match headers[i].text {
            Some(text) => bearer_token(text@),
            None => None,
        },
        None => None,
    }
}

fn find_token(headers: &Vec<Header>) -> (r: Option<String>)
    ensures
        match r {
            Some(t) => shown_token(headers@) == Some(t@),
            None => shown_token(headers@) is None,
        },
{
    let at = match find_header(headers, "authorization") {
        Some(i) => i,
        None => {
            return None;
        },
    };
    match &headers[at].text {
        Some(text) => {
            let chars = to_chars(text.as_str());
            proof {
                reveal_strlit("Bearer ");
            }
            if begins_with(&chars, "Bearer ") {
                let shown = slice_text(&chars, 7, chars.len());
                assert(shown@ =~= text@.skip(7));
                Some(shown)
            } else {
                None
            }
        },
        None => None,
    }
}

/// Lets a request pass that may do what only an administrator may do, and refuses any other.
pub fn require_admin(headers: &Vec<Header>, token: Option<&str>) -> (r: Result<(), Refusal>)
    ensures
        match r {
            Ok(_) => admin_problem(headers@, opt_str(token)) is None,
            Err(e) => admin_problem(headers@, opt_str(token)) == Some(e@),
        },
{
    if find_header(headers, "x-forwarded-for").is_none() {
        return Ok(());
    }
    match token {
        None => Err(
            refuse(
                403,
                "Admin endpoints are disabled. Set BITDEX_ADMIN_TOKEN env var or admin_token in config to enable.",
            ),
        ),
        Some(expected) => match find_token(headers) {
            Some(shown) => if text_eq(shown.as_str(), expected) {
                Ok(())
            } else {
                Err(refuse(401, "Invalid admin token"))
            },
            None => Err(refuse(401, "Authorization header required: Bearer <admin_token>")),
        },
    }
}

/// A request that was not forwarded passes, whatever it shows and whatever token is set.
pub proof fn law_internal_requests_pass(headers: Seq<Header>, token: Option<Seq<char>>)
    requires
        header_position(headers, "x-forwarded-for"@, 0) is None,
    ensures
        admin_problem(headers, token) is None,
{
}

/// A forwarded request passes only where a token is set and the request shows it. Without a token it
/// is forbidden, and with one it is told to show it.
pub proof fn law_forwarded_requests_show_the_token(headers: Seq<Header>, token: Option<Seq<char>>)
    requires
        header_position(headers, "x-forwarded-for"@, 0) is Some,
    ensures
        admin_problem(headers, token) is None <==> token is Some && shown_token(headers) == token,
        admin_problem(headers, token) matches Some(refusal) ==> refusal.status == (if token is None {
            403int
        } else {
            401
        }),
{
}

/// Where the next slash stands, from position `i` on; the end where there is none.
pub open spec fn next_slash(s: Seq<char>, i: int) -> int
    decreases s.len() - i,
{
    if i >= s.len() {
        s.len() as int
    } else if s[i] == '/' {
        i
    } else {
        next_slash(s, i + 1)
    }
}

/// The label that a path counts under: of a path below an index, the name of the index is left out,
/// and of the rest only the first part counts.
pub open spec fn label_of(path: Seq<char>) -> Seq<char> {
    if "/api/indexes/"@.is_prefix_of(path) {
        let slash = next_slash(path, 13);
        if slash < path.len() {
            "/api/indexes/*/"@ + path.subrange(slash + 1, next_slash(path, slash + 1))
        } else {
            "/api/indexes"@
        }
    } else {
        path
    }
}

fn find_slash(chars: &Vec<char>, from: usize) -> (r: usize)
    requires
        from <= chars@.len(),
    ensures
        r == next_slash(chars@, from as int),
        from <= r <= chars@.len(),
{
    let mut i: usize = from;
    while i < chars.len()
        invariant
            from <= i <= chars@.len(),
            next_slash(chars@, from as int) == next_slash(chars@, i as int),
        decreases chars@.len() - i,
    {
        if chars[i] == '/' {
            return i;
        }
        i = i + 1;
    }
    i
}

/// Tells the label that a path counts under.
pub fn path_label(path: &str) -> (r: String)
    ensures
        r@ == label_of(path@),
{
    let chars = to_chars(path);
    let len: usize = chars.len();
    if !begins_with(&chars, "/api/indexes/") {
        return path.to_owned();
    }
    proof {
        reveal_strlit("/api/indexes/");
    }
    let slash = find_slash(&chars, 13);
    if slash < len {
        let end = find_slash(&chars, slash + 1);
        let part = slice_text(&chars, slash + 1, end);
        "/api/indexes/*/".to_owned().concat(part.as_str())
    } else {
        "/api/indexes".to_owned()
    }
}

/// A part of the time of a request.
#[derive(Debug, Clone, Copy, PartialEq, Eq, Structural)]
pub enum Phase {
    /// Until the request reached its handler.
    ToHandler,
    /// Until the engine began.
    ToEngine,
    /// In the engine.
    Engine,
    /// On reading documents.
    DocFetch,
    /// Until the answer was ready.
    ToResponse,
}

/// When a request reached its stages, in nanoseconds after it came; zero for a stage that it did not
/// reach.
#[derive(Debug, Clone, Copy, PartialEq, Eq, Structural)]
pub struct Stages {
    pub handler_entered: u64,
    pub engine_started: u64,
    pub engine_done: u64,
    pub docs_done: u64,
}

/// The last stage that was reached.
pub open spec fn last_stage(s: Stages) -> int {
    let a = if s.docs_done > s.engine_done {
        s.docs_done as int
    } else {
        s.engine_done as int
    };
    let b = if a > s.engine_started {
        a
    } else {
        s.engine_started as int
    };
    if b > s.handler_entered {
        b
    } else {
        s.handler_entered as int
    }
}

/// `s`, and behind it a phase from one stage to the next, where both were reached in this order.
pub open spec fn with_phase(s: Seq<(Phase, u64)>, phase: Phase, from: int, to: int) -> Seq<(Phase, u64)> {
    if to > from && from > 0 {
        s.push((phase, (to - from) as u64))
    } else {
        s
    }
}

/// How the time of a request divides.
pub open spec fn phases_of(s: Stages, total: u64) -> Seq<(Phase, u64)> {
    let none = Seq::<(Phase, u64)>::empty();
    let a = if s.handler_entered > 0 {
        none.push((Phase::ToHandler, s.handler_entered))
    } else {
        none
    };
    let b = with_phase(a, Phase::ToEngine, s.handler_entered as int, s.engine_started as int);
    let c = with_phase(b, Phase::Engine, s.engine_started as int, s.engine_done as int);
    let d = with_phase(c, Phase::DocFetch, s.engine_done as int, s.docs_done as int);
    with_phase(d, Phase::ToResponse, last_stage(s), total as int)
}

fn push_phase(phases: &mut Vec<(Phase, u64)>, phase: Phase, from: u64, to: u64)
    ensures
        final(phases)@ == with_phase(old(phases)@, phase, from as int, to as int),
{
    if to > from && from > 0 {
        phases.push((phase, to - from));
    }
}

/// Tells how the time of a request divides.
pub fn phases(s: Stages, total: u64) -> (r: Vec<(Phase, u64)>)
    ensures
        r@ == phases_of(s, total),
{
    let mut r: Vec<(Phase, u64)> = Vec::new();
    if s.handler_entered > 0 {
        r.push((Phase::ToHandler, s.handler_entered));
    }
    push_phase(&mut r, Phase::ToEngine, s.handler_entered, s.engine_started);
    push_phase(&mut r, Phase::Engine, s.engine_started, s.engine_done);
    push_phase(&mut r, Phase::DocFetch, s.engine_done, s.docs_done);
    let a: u64 = if s.docs_done > s.engine_done { s.docs_done } else { s.engine_done };
    let b: u64 = if a > s.engine_started { a } else { s.engine_started };
    let last: u64 = if b > s.handler_entered { b } else { s.handler_entered };
    push_phase(&mut r, Phase::ToResponse, last, total);
    r
}

/// The time of the phases together.
pub open spec fn time_of(phases: Seq<(Phase, u64)>) -> int
    decreases phases.len(),
{
    if phases.len() == 0 {
        0
    } else {
        time_of(phases.drop_last()) + phases.last().1
    }
}

proof fn lemma_with_phase(s: Seq<(Phase, u64)>, phase: Phase, from: int, to: int)
    requires
        0 < from <= to <= u64::MAX,
    ensures
        time_of(with_phase(s, phase, from, to)) == time_of(s) + to - from,
{
    if to > from {
        assert(s.push((phase, (to - from) as u64)).drop_last() =~= s);
    }
}

/// Of a request that went through its stages in order, the phases make up the whole time, with or
/// without documents.
pub proof fn law_phases_make_up_the_time(s: Stages, total: u64)
    requires
        0 < s.handler_entered <= s.engine_started <= s.engine_done <= total,
        s.docs_done == 0 || s.engine_done <= s.docs_done <= total,
    ensures
        time_of(phases_of(s, total)) == total,
{
    let none = Seq::<(Phase, u64)>::empty();
    let a = none.push((Phase::ToHandler, s.handler_entered));
    assert(a.drop_last() =~= none);
    assert(time_of(none) == 0);
    assert(time_of(a) == s.handler_entered);
    let b = with_phase(a, Phase::ToEngine, s.handler_entered as int, s.engine_started as int);
    lemma_with_phase(a, Phase::ToEngine, s.handler_entered as int, s.engine_started as int);
    let c = with_phase(b, Phase::Engine, s.engine_started as int, s.engine_done as int);
    lemma_with_phase(b, Phase::Engine, s.engine_started as int, s.engine_done as int);
    let d = with_phase(c, Phase::DocFetch, s.engine_done as int, s.docs_done as int);
    if s.docs_done != 0 {
        lemma_with_phase(c, Phase::DocFetch, s.engine_done as int, s.docs_done as int);
    }
    lemma_with_phase(d, Phase::ToResponse, last_stage(s), total as int);
}

/// The times until the handler and from there to the engine, in microseconds.
pub fn stage_micros(s: Stages) -> (r: (u64, u64))
    ensures
        r.0 == s.handler_entered / 1000,
        r.1 == (if s.engine_started > s.handler_entered {
            (s.engine_started - s.handler_entered) as u64
        } else {
            0u64
        }) / 1000,
{
    (s.handler_entered / 1000, s.engine_started.saturating_sub(s.handler_entered) / 1000)
}

/// Whether a request is recorded while requests are being recorded: those that steer the recording,
/// and those for metrics, are not.
pub fn is_recorded(recording: bool, path: &str) -> (r: bool)
    ensures
        r == (recording && !"/debug/capture"@.is_prefix_of(path@) && path@ != "/metrics"@),
{
    if !recording {
        return false;
    }
    let chars = to_chars(path);
    !begins_with(&chars, "/debug/capture") && !text_eq(path, "/metrics")
}

/// Whether the stages of a request are timed.
pub fn is_timed(method: &str, path: &str) -> (r: bool)
    ensures
        r == (method@ == "POST"@ && has_part(path@, "/query"@)),
{
    text_eq(method, "POST") && has_text(path, "/query")
}

/// The token that a request shows is what stands behind `Bearer ` in its first `authorization` header.
/// A header that cannot be read, or that says anything else, shows none.
pub proof fn law_the_shown_token_stands_behind_bearer(headers: Seq<Header>, i: int, token: Seq<char>)
    requires
        0 <= i < headers.len(),
        headers[i].name@ == "authorization"@,
        forall|j: int| 0 <= j < i ==> (#[trigger] headers[j]).name@ != "authorization"@,
    ensures
        headers[i].text matches Some(text) ==> (text@ == "Bearer "@ + token ==> shown_token(headers) == Some(token)),
        headers[i].text matches Some(text) ==> (!"Bearer "@.is_prefix_of(text@) ==> shown_token(headers) is None),
        headers[i].text is None ==> shown_token(headers) is None,
{
    lemma_header_found(headers, "authorization"@, i, 0);
    reveal_strlit("Bearer ");
    let text = "Bearer "@ + token;
    assert("Bearer "@.is_prefix_of(text));
    assert(text.skip(7) =~= token);
}

/// A path below an index counts under its first part alone, whatever the name of the index; a path to
/// an index counts with all of them; any other counts as it is.
pub proof fn law_paths_count_without_the_index(name: Seq<char>, part: Seq<char>, rest: Seq<char>, path: Seq<char>)
    requires
        !name.contains('/'),
        !part.contains('/'),
        rest.len() == 0 || rest[0] == '/',
    ensures
        label_of("/api/indexes/"@ + name + seq!['/'] + part + rest) == "/api/indexes/*/"@ + part,
        label_of("/api/indexes/"@ + name) == "/api/indexes"@,
        !"/api/indexes/"@.is_prefix_of(path) ==> label_of(path) == path,
{
    reveal_strlit("/api/indexes/");
    let head = "/api/indexes/"@;
    let n = name.len() as int;
    let short = head + name;
    assert(head.is_prefix_of(short));
    assert forall|j: int| 13 <= j < short.len() implies short[j] != '/' by {
        assert(short[j] == name[j - 13]);
        assert(name.contains(name[j - 13]));
    }
    lemma_no_slash(short, 13, short.len() as int);
    let long = head + name + seq!['/'] + part + rest;
    assert(head.is_prefix_of(long));
    assert forall|j: int| 13 <= j < 13 + n implies long[j] != '/' by {
        assert(long[j] == name[j - 13]);
        assert(name.contains(name[j - 13]));
    }
    lemma_no_slash(long, 13, 13 + n);
    let from = 14 + n;
    let to = from + part.len();
    assert forall|j: int| from <= j < to implies long[j] != '/' by {
        assert(long[j] == part[j - from]);
        assert(part.contains(part[j - from]));
    }
    lemma_no_slash(long, from, to);
    assert(long.subrange(from, to) =~= part);
}

proof fn lemma_no_slash(s: Seq<char>, i: int, j: int)
    requires
        0 <= i <= j <= s.len(),
        forall|k: int| i <= k < j ==> s[k] != '/',
        j == s.len() || s[j] == '/',
    ensures
        next_slash(s, i) == j,
    decreases j - i,
{
    if i < j {
        lemma_no_slash(s, i + 1, j);
    }
}

/// Of a request that went through its stages one after the other, each phase has the time from its
/// stage to the next. A stage that was not reached leaves its phases out.
pub proof fn law_phases_lie_between_the_stages(s: Stages, total: u64)
    requires
        0 < s.handler_entered < s.engine_started < s.engine_done,
    ensures
        s.engine_done < s.docs_done < total ==> phases_of(s, total) == seq![
            (Phase::ToHandler, s.handler_entered),
            (Phase::ToEngine, (s.engine_started - s.handler_entered) as u64),
            (Phase::Engine, (s.engine_done - s.engine_started) as u64),
            (Phase::DocFetch, (s.docs_done - s.engine_done) as u64),
            (Phase::ToResponse, (total - s.docs_done) as u64),
        ],
        s.docs_done == 0 && s.engine_done < total ==> phases_of(s, total) == seq![
            (Phase::ToHandler, s.handler_entered),
            (Phase::ToEngine, (s.engine_started - s.handler_entered) as u64),
            (Phase::Engine, (s.engine_done - s.engine_started) as u64),
            (Phase::ToResponse, (total - s.engine_done) as u64),
        ],
        phases_of(Stages { handler_entered: 0, engine_started: 0, engine_done: 0, docs_done: 0 }, total) == Seq::<
            (Phase, u64),
        >::empty(),
{
}

} // verus!
