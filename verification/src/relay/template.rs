//! Placeholder substitution for relay payload templates.
//!
//! The tokens are `{seq_id}`, `{ts_ms}`, `{body|json}` (the request body as compact JSON, or
//! `null` where it is not JSON), `{path.<name>}`, `{header.<name>}` and `{client_ip}`. All but
//! `{body|json}` are escaped, so that a template may put them between the quotes of a JSON
//! string. An unknown token stays as it is.

use crate::pairs::{find_value, pairs_map};
use crate::text::{begins_with, dec, decimal, digit_char, digit_to_char, opt_view, slice_text, text_eq, to_chars};
use vstd::prelude::*;
use vstd::string::*;

verus! {

/// What a template can speak of.
pub struct TemplateContext<'a> {
    pub seq_id: u64,
    pub ts_ms: u64,
    pub body: &'a [u8],
    pub path_params: &'a Vec<(String, String)>,
    pub headers: &'a Vec<(String, String)>,
    pub client_ip: &'a str,
}

/// Whether a rendered template is what was asked for.
#[derive(Debug, Clone, Copy, PartialEq, Eq, Structural)]
pub enum RenderOutcome {
    Complete,
    ParseErrorEmittedNull,
}

/// How a character stands inside a JSON string.
pub open spec fn escaped_char(c: char) -> Seq<char> {
    if c == '"' {
        seq!['\\', '"']
    } else if c == '\\' {
        seq!['\\', '\\']
    } else if c == '\n' {
        seq!['\\', 'n']
    } else if c == '\r' {
        seq!['\\', 'r']
    } else if c == '\t' {
        seq!['\\', 't']
    } else if c == '\u{08}' {
        seq!['\\', 'b']
    } else if c == '\u{0c}' {
        seq!['\\', 'f']
    } else if (c as int) < 0x20 {
        seq!['\\', 'u', '0', '0', digit_char(c as int / 16), digit_char(c as int % 16)]
    } else {
        seq![c]
    }
}

/// How a text stands inside a JSON string.
pub open spec fn escaped(s: Seq<char>) -> Seq<char>
    decreases s.len(),
{
    if s.len() == 0 {
        Seq::empty()
    } else {
        escaped(s.drop_last()) + escaped_char(s.last())
    }
}

/// Appends a character as it stands inside a JSON string.
pub fn push_escaped_char(out: &mut String, c: char)
    ensures
        final(out)@ == old(out)@ + escaped_char(c),
{
    let ghost before = out@;
    if c == '"' {
        out.push('\\');
        out.push('"');
    } else if c == '\\' {
        out.push('\\');
        out.push('\\');
    } else if c == '\n' {
        out.push('\\');
        out.push('n');
    } else if c == '\r' {
        out.push('\\');
        out.push('r');
    } else if c == '\t' {
        out.push('\\');
        out.push('t');
    } else if c == '\u{08}' {
        out.push('\\');
        out.push('b');
    } else if c == '\u{0c}' {
        out.push('\\');
        out.push('f');
    } else if (c as u32) < 0x20 {
        out.push('\\');
        out.push('u');
        out.push('0');
        out.push('0');
        out.push(digit_to_char(c as u64 / 16));
        out.push(digit_to_char(c as u64 % 16));
    } else {
        out.push(c);
    }
    assert(out@ =~= before + escaped_char(c));
}

/// Appends a text as it stands inside a JSON string, without the quotes around it.
pub fn push_json_escaped(out: &mut String, s: &str)
    ensures
        final(out)@ == old(out)@ + escaped(s@),
{
    let ghost before = out@;
    let chars = to_chars(s);
    let mut i: usize = 0;
    assert(chars@.take(0) =~= Seq::<char>::empty());
    assert(before + escaped(chars@.take(0)) =~= before);
    while i < chars.len()
        invariant
            i <= chars@.len(),
            out@ == before + escaped(chars@.take(i as int)),
        decreases chars@.len() - i,
    {
        push_escaped_char(out, chars[i]);
        assert(chars@.take(i + 1).drop_last() =~= chars@.take(i as int));
        assert(out@ =~= before + escaped(chars@.take(i + 1)));
        i = i + 1;
    }
    assert(chars@.take(chars@.len() as int) =~= chars@);
}

/// What a template is rendered from.
pub struct ContextView {
    pub seq_id: u64,
    pub ts_ms: u64,
    /// The body as compact JSON, or none where it is not JSON.
    pub body_json: Option<Seq<char>>,
    pub path_params: Map<Seq<char>, Seq<char>>,
    pub headers: Map<Seq<char>, Seq<char>>,
    pub client_ip: Seq<char>,
}

/// The text under `name`, or the empty text.
pub open spec fn value_or_empty(values: Map<Seq<char>, Seq<char>>, name: Seq<char>) -> Seq<char> {
    if values.dom().contains(name) {
        values[name]
    } else {
        Seq::empty()
    }
}

/// What stands for a token, or none where the token is unknown.
pub open spec fn expansion(token: Seq<char>, ctx: ContextView) -> Option<Seq<char>> {
    if token == "seq_id"@ {
        Some(dec(ctx.seq_id as nat))
    } else if token == "ts_ms"@ {
        Some(dec(ctx.ts_ms as nat))
    } else if token == "body|json"@ {
        Some(
            match ctx.body_json {
                Some(text) => text,
                None => "null"@,
            },
        )
    } else if token == "client_ip"@ {
        Some(escaped(ctx.client_ip))
    } else if "path."@.is_prefix_of(token) {
        Some(escaped(value_or_empty(ctx.path_params, token.skip(5))))
    } else if "header."@.is_prefix_of(token) {
        Some(escaped(value_or_empty(ctx.headers, token.skip(7))))
    } else {
        None
    }
}

/// Where the next `}` stands, from position `i` on.
pub open spec fn close_at(s: Seq<char>, i: int) -> Option<int>
    decreases s.len() - i,
{
    if i < 0 || i >= s.len() {
        None
    } else if s[i] == '}' {
        Some(i)
    } else {
        close_at(s, i + 1)
    }
}

/// The token that starts at position `i`, and what stands for it.
pub open spec fn token_at(s: Seq<char>, i: int, ctx: ContextView) -> Option<(int, Seq<char>)> {
    if s[i] == '{' {
        match close_at(s, i + 1) {
            Some(j) => match expansion(s.subrange(i + 1, j), ctx) {
                Some(text) => Some((j, text)),
                None => None,
            },
            None => None,
        }
    } else {
        None
    }
}

/// The template from position `i` on, with what stands for its tokens.
pub open spec fn rendered(s: Seq<char>, i: int, ctx: ContextView) -> Seq<char>
    decreases s.len() - i,
{
    if i < 0 || i >= s.len() {
        Seq::empty()
    } else {
        match token_at(s, i, ctx) {
            Some((j, text)) if i < j < s.len() => text + rendered(s, j + 1, ctx),
            _ => seq![s[i]] + rendered(s, i + 1, ctx),
        }
    }
}

/// Whether the template has, from position `i` on, a token for a body that is not JSON.
pub open spec fn lacks_body(s: Seq<char>, i: int, ctx: ContextView) -> bool
    decreases s.len() - i,
{
    if i < 0 || i >= s.len() {
        false
    } else {
        match token_at(s, i, ctx) {
            Some((j, text)) if i < j < s.len() => {
                (s.subrange(i + 1, j) == "body|json"@ && ctx.body_json is None) || lacks_body(s, j + 1, ctx)
            },
            _ => lacks_body(s, i + 1, ctx),
        }
    }
}

/// Looks for the next `}`.
fn find_close(chars: &Vec<char>, from: usize) -> (r: Option<usize>)
    ensures
        match r {
            Some(j) => from <= j < chars@.len() && close_at(chars@, from as int) == Some(j as int),
            None => close_at(chars@, from as int) is None,
        },
{
    let mut j: usize = from;
    while j < chars.len()
        invariant
            from <= j,
            j <= chars@.len() || j == from,
            close_at(chars@, from as int) == close_at(chars@, j as int),
        decreases chars@.len() - j,
    {
        if chars[j] == '}' {
            return Some(j);
        }
        j = j + 1;
    }
    None
}

/// What stands for the body of a request, as compact JSON.
pub uninterp spec fn compact_json(body: Seq<u8>) -> Option<Seq<char>>;

/// `serde_json::from_slice` into a `serde_json::Value`, and that value's compact form through
/// `Value::to_string`: none where the bytes are not JSON. What the compact form of given bytes
/// is, is left to the name.
#[verifier::external_body]
pub(crate) fn reencode(body: &[u8]) -> (r: Option<String>)
    ensures
        opt_view(r) == compact_json(body@),
{
    serde_json::from_slice::<serde_json::Value>(body).ok().map(|v| v.to_string())
}

impl<'a> TemplateContext<'a> {
    /// What the template is rendered from, with the body as JSON.
    pub open spec fn with_body(self, body_json: Option<Seq<char>>) -> ContextView {
        ContextView {
            seq_id: self.seq_id,
            ts_ms: self.ts_ms,
            body_json,
            path_params: pairs_map(self.path_params@),
            headers: pairs_map(self.headers@),
            client_ip: self.client_ip@,
        }
    }
}

/// Appends what stands for a token. Tells whether the token is known.
fn expand(token: &str, ctx: &TemplateContext, body_json: &Option<String>, out: &mut String) -> (r: bool)
    ensures
        match expansion(token@, ctx.with_body(opt_view(*body_json))) {
            Some(text) => r && final(out)@ == old(out)@ + text,
            None => !r && final(out)@ == old(out)@,
        },
{
    if text_eq(token, "seq_id") {
        let number = decimal(ctx.seq_id);
        out.append(number.as_str());
        return true;
    }
    if text_eq(token, "ts_ms") {
        let number = decimal(ctx.ts_ms);
        out.append(number.as_str());
        return true;
    }
    if text_eq(token, "body|json") {
        match body_json {
            Some(text) => out.append(text.as_str()),
            None => out.append("null"),
        }
        return true;
    }
    if text_eq(token, "client_ip") {
        push_json_escaped(out, ctx.client_ip);
        return true;
    }
    let chars = to_chars(token);
    proof {
        reveal_strlit("path.");
        reveal_strlit("header.");
        reveal_strlit("");
    }
    if begins_with(&chars, "path.") {
        let name = slice_text(&chars, 5, chars.len());
        assert(name@ =~= token@.skip(5));
        let value = match find_value(ctx.path_params, name.as_str()) {
            Some(v) => v.as_str(),
            None => "",
        };
        assert(value@ =~= value_or_empty(pairs_map(ctx.path_params@), name@));
        push_json_escaped(out, value);
        return true;
    }
    if begins_with(&chars, "header.") {
        let name = slice_text(&chars, 7, chars.len());
        assert(name@ =~= token@.skip(7));
        let value = match find_value(ctx.headers, name.as_str()) {
            Some(v) => v.as_str(),
            None => "",
        };
        assert(value@ =~= value_or_empty(pairs_map(ctx.headers@), name@));
        push_json_escaped(out, value);
        return true;
    }
    false
}

/// Renders the template into `out`, where the body is `body_json` as compact JSON, or none
/// where it is not JSON.
pub fn render_with(template: &str, ctx: &TemplateContext, body_json: &Option<String>, out: &mut String) -> (r:
    RenderOutcome)
    ensures
        final(out)@ == rendered(template@, 0, ctx.with_body(opt_view(*body_json))),
        r == (if lacks_body(template@, 0, ctx.with_body(opt_view(*body_json))) {
            RenderOutcome::ParseErrorEmittedNull
        } else {
            RenderOutcome::Complete
        }),
{
    let ghost view = ctx.with_body(opt_view(*body_json));
    let chars = to_chars(template);
    *out = String::new();
    let mut lacking = false;
    let mut i: usize = 0;
    assert(out@ + rendered(chars@, 0, view) =~= rendered(chars@, 0, view));
    while i < chars.len()
        invariant
            i <= chars@.len(),
            chars@ == template@,
            view == ctx.with_body(opt_view(*body_json)),
            out@ + rendered(chars@, i as int, view) == rendered(chars@, 0, view),
            lacks_body(chars@, 0, view) == (lacking || lacks_body(chars@, i as int, view)),
        decreases chars@.len() - i,
    {
        let ghost before = out@;
        if chars[i] == '{' {
            if let Some(close) = find_close(&chars, i + 1) {
                let token = slice_text(&chars, i + 1, close);
                if expand(token.as_str(), ctx, body_json, out) {
                    if text_eq(token.as_str(), "body|json") && body_json.is_none() {
                        lacking = true;
                    }
                    proof {
                        let text = expansion(token@, view)->0;
                        assert(token_at(chars@, i as int, view) == Some((close as int, text)));
                        assert(out@ + rendered(chars@, close + 1, view) =~= before + (text + rendered(
                            chars@,
                            close + 1,
                            view,
                        )));
                    }
                    i = close + 1;
                    continue ;
                }
            }
        }
        assert(token_at(chars@, i as int, view) is None);
        out.push(chars[i]);
        assert(out@ + rendered(chars@, i + 1, view) =~= before + (seq![chars@[i as int]] + rendered(
            chars@,
            i + 1,
            view,
        )));
        i = i + 1;
    }
    assert(out@ + rendered(chars@, i as int, view) =~= out@);
    if lacking {
        RenderOutcome::ParseErrorEmittedNull
    } else {
        RenderOutcome::Complete
    }
}

/// Renders the template into `out`, whatever `out` held before.
pub fn render(template: &str, ctx: &TemplateContext, out: &mut String) -> (r: RenderOutcome)
    ensures
        final(out)@ == rendered(template@, 0, ctx.with_body(compact_json(ctx.body@))),
        r == (if lacks_body(template@, 0, ctx.with_body(compact_json(ctx.body@))) {
            RenderOutcome::ParseErrorEmittedNull
        } else {
            RenderOutcome::Complete
        }),
{
    let body_json = reencode(ctx.body);
    render_with(template, ctx, &body_json, out)
}

/// A text without an opening brace is rendered as it is.
pub proof fn law_plain_templates_stay(s: Seq<char>, i: int, ctx: ContextView)
    requires
        0 <= i <= s.len(),
        forall|j: int| i <= j < s.len() ==> s[j] != '{',
    ensures
        rendered(s, i, ctx) == s.skip(i),
        !lacks_body(s, i, ctx),
    decreases s.len() - i,
{
    if i < s.len() {
        law_plain_templates_stay(s, i + 1, ctx);
        assert(s.skip(i) =~= seq![s[i]] + s.skip(i + 1));
    } else {
        assert(s.skip(i) =~= Seq::<char>::empty());
    }
}

/// The value of a hexadecimal digit, lower case above nine.
pub open spec fn digit_value(c: char) -> Option<int> {
    if '0' <= c <= '9' {
        Some(c as int - '0' as int)
    } else if 'a' <= c <= 'f' {
        Some(c as int - 'a' as int + 10)
    } else {
        None
    }
}

/// The character that stands at the front of the inside of a JSON string, and how many
/// characters it takes there; none where a quote, a control character or a broken escape stands
/// there.
pub open spec fn first_char(t: Seq<char>) -> Option<(char, int)> {
    if t.len() == 0 || t[0] == '"' || (t[0] as int) < 0x20 {
        None
    } else if t[0] != '\\' {
        Some((t[0], 1))
    } else if t.len() < 2 {
        None
    } else if t[1] == '"' || t[1] == '\\' || t[1] == '/' {
        Some((t[1], 2))
    } else if t[1] == 'n' {
        Some(('\n', 2))
    } else if t[1] == 'r' {
        Some(('\r', 2))
    } else if t[1] == 't' {
        Some(('\t', 2))
    } else if t[1] == 'b' {
        Some(('\u{08}', 2))
    } else if t[1] == 'f' {
        Some(('\u{0c}', 2))
    } else if t[1] == 'u' && t.len() >= 6 && t[2] == '0' && t[3] == '0' {
        match (digit_value(t[4]), digit_value(t[5])) {
            (Some(a), Some(b)) => Some(((16 * a + b) as char, 6)),
            _ => None,
        }
    } else {
        None
    }
}

/// The text that stands inside a JSON string, or none where it is not the inside of one.
pub open spec fn unescaped(t: Seq<char>) -> Option<Seq<char>>
    decreases t.len(),
{
    if t.len() == 0 {
        Some(Seq::empty())
    } else {
        match first_char(t) {
            Some((c, n)) => {
                if 0 < n <= t.len() {
                    match unescaped(t.skip(n)) {
                        Some(rest) => Some(seq![c] + rest),
                        None => None,
                    }
                } else {
                    None
                }
            },
            None => None,
        }
    }
}

proof fn lemma_escaped_front(s: Seq<char>)
    requires
        s.len() > 0,
    ensures
        escaped(s) == escaped_char(s[0]) + escaped(s.skip(1)),
    decreases s.len(),
{
    if s.len() == 1 {
        assert(s.drop_last() =~= Seq::<char>::empty());
        assert(s.skip(1) =~= Seq::<char>::empty());
        assert(escaped(s) =~= escaped_char(s[0]) + escaped(s.skip(1)));
    } else {
        lemma_escaped_front(s.drop_last());
        assert(s.drop_last().skip(1) =~= s.skip(1).drop_last());
        assert(escaped(s) =~= escaped_char(s[0]) + escaped(s.skip(1)));
    }
}

proof fn lemma_first_char(c: char, rest: Seq<char>)
    ensures
        first_char(escaped_char(c) + rest) == Some((c, escaped_char(c).len() as int)),
{
    let t = escaped_char(c) + rest;
    assert(escaped_char(c).len() >= 1);
    assert(t[0] == escaped_char(c)[0]);
    if escaped_char(c).len() >= 2 {
        assert(t[1] == escaped_char(c)[1]);
    }
    if escaped_char(c).len() == 6 {
        let a = c as int / 16;
        let b = c as int % 16;
        assert(t[2] == '0' && t[3] == '0' && t[4] == digit_char(a) && t[5] == digit_char(b));
        assert(a == 0 || a == 1);
        assert(digit_value(digit_char(a)) == Some(a));
        assert(digit_value(digit_char(b)) == Some(b));
        assert((16 * a + b) as char == c);
    }
}

/// What was escaped reads back: between quotes it is a JSON string of the text.
pub proof fn law_escaped_text_reads_back(s: Seq<char>)
    ensures
        unescaped(escaped(s)) == Some(s),
    decreases s.len(),
{
    if s.len() == 0 {
        assert(s =~= Seq::<char>::empty());
    } else {
        let t = escaped(s);
        let n = escaped_char(s[0]).len() as int;
        lemma_escaped_front(s);
        lemma_first_char(s[0], escaped(s.skip(1)));
        law_escaped_text_reads_back(s.skip(1));
        assert(t.skip(n) =~= escaped(s.skip(1)));
        assert(seq![s[0]] + s.skip(1) =~= s);
    }
}

/// What stands for each token: the number of the event and its moment in digits, the body as it was
/// encoded or `null`, and the address, the parameters of the path and the headers as they stand inside
/// a JSON string; a parameter or header that is not there is empty. Any other token is unknown.
pub proof fn law_tokens_stand_for_what_they_name(ctx: ContextView, name: Seq<char>)
    ensures
        expansion("seq_id"@, ctx) == Some(dec(ctx.seq_id as nat)),
        expansion("ts_ms"@, ctx) == Some(dec(ctx.ts_ms as nat)),
        ctx.body_json matches Some(text) ==> expansion("body|json"@, ctx) == Some(text),
        ctx.body_json is None ==> expansion("body|json"@, ctx) == Some("null"@),
        expansion("client_ip"@, ctx) == Some(escaped(ctx.client_ip)),
        ctx.path_params.dom().contains(name) ==> expansion("path."@ + name, ctx) == Some(
            escaped(ctx.path_params[name]),
        ),
        !ctx.path_params.dom().contains(name) ==> expansion("path."@ + name, ctx) == Some(Seq::<char>::empty()),
        ctx.headers.dom().contains(name) ==> expansion("header."@ + name, ctx) == Some(escaped(ctx.headers[name])),
        !ctx.headers.dom().contains(name) ==> expansion("header."@ + name, ctx) == Some(Seq::<char>::empty()),
        name.len() > 0 && name[0] != 's' && name[0] != 't' && name[0] != 'b' && name[0] != 'c' && name[0] != 'p'
            && name[0] != 'h' ==> expansion(name, ctx) is None,
        expansion(Seq::empty(), ctx) is None,
{
    reveal_strlit("seq_id");
    reveal_strlit("ts_ms");
    reveal_strlit("body|json");
    reveal_strlit("client_ip");
    reveal_strlit("path.");
    reveal_strlit("header.");
    assert("seq_id"@[0] == 's');
    assert("ts_ms"@[0] == 't');
    assert("body|json"@[0] == 'b');
    assert("client_ip"@[0] == 'c');
    assert("path."@[0] == 'p');
    assert("header."@[0] == 'h');
    let p = "path."@ + name;
    let h = "header."@ + name;
    assert(p[0] == 'p');
    assert(h[0] == 'h');
    assert("path."@.is_prefix_of(p));
    assert("header."@.is_prefix_of(h));
    assert(p.skip(5) =~= name);
    assert(h.skip(7) =~= name);
    assert(!"path."@.is_prefix_of(h)) by {
        if "path."@.is_prefix_of(h) {
            assert(h.subrange(0, 5)[0] == 'h');
        }
    }
    assert(escaped(Seq::empty()) == Seq::<char>::empty());
    if name.len() > 0 && name[0] != 'p' {
        assert(!"path."@.is_prefix_of(name)) by {
            if "path."@.is_prefix_of(name) {
                assert(name.subrange(0, 5)[0] == name[0]);
            }
        }
    }
    if name.len() > 0 && name[0] != 'h' {
        assert(!"header."@.is_prefix_of(name)) by {
            if "header."@.is_prefix_of(name) {
                assert(name.subrange(0, 7)[0] == name[0]);
            }
        }
    }
}

/// A template is rendered from the front: what stands before the first brace stays, a known token
/// between braces becomes what stands for it, and the rest is rendered in the same way; an unknown
/// token stays as it is written. The template lacks a body where such a token asks for one that is not
/// JSON.
pub proof fn law_tokens_are_replaced_in_place(
    before: Seq<char>,
    token: Seq<char>,
    after: Seq<char>,
    ctx: ContextView,
)
    requires
        !before.contains('{'),
        !token.contains('}'),
    ensures
        ({
            let s = before + seq!['{'] + token + seq!['}'] + after;
            &&& expansion(token, ctx) matches Some(text) ==> rendered(s, 0, ctx) == before + text + rendered(
                after,
                0,
                ctx,
            ) && lacks_body(s, 0, ctx) == ((token == "body|json"@ && ctx.body_json is None) || lacks_body(
                after,
                0,
                ctx,
            ))
            &&& expansion(token, ctx) is None && !token.contains('{') ==> rendered(s, 0, ctx) == before + seq!['{']
                + token + seq!['}'] + rendered(after, 0, ctx) && lacks_body(s, 0, ctx) == lacks_body(after, 0, ctx)
        }),
{
    let b = before.len() as int;
    let n = token.len() as int;
    let s = before + seq!['{'] + token + seq!['}'] + after;
    assert forall|j: int| 0 <= j < b implies s[j] != '{' by {
        assert(before.contains(before[j]));
    }
    assert forall|j: int| b < j <= b + n implies s[j] != '}' by {
        assert(s[j] == token[j - b - 1]);
        assert(token.contains(token[j - b - 1]));
    }
    lemma_plain_front(s, 0, b, ctx);
    assert(s.subrange(0, b) =~= before);
    lemma_close_found(s, b + 1, b + n + 1);
    assert(s.subrange(b + 1, b + n + 1) =~= token);
    lemma_rendered_behind(before + seq!['{'] + token + seq!['}'], after, 0, ctx);
    assert(s =~= (before + seq!['{'] + token + seq!['}']) + after);
    if expansion(token, ctx) is Some {
        let text = expansion(token, ctx)->0;
        assert(token_at(s, b, ctx) == Some((b + n + 1, text)));
        assert(before + (text + rendered(after, 0, ctx)) =~= before + text + rendered(after, 0, ctx));
    } else if !token.contains('{') {
        assert(token_at(s, b, ctx) is None);
        assert forall|j: int| b < j < b + n + 2 implies s[j] != '{' by {
            if j <= b + n {
                assert(s[j] == token[j - b - 1]);
                assert(token.contains(token[j - b - 1]));
            }
        }
        lemma_plain_front(s, b + 1, b + n + 2, ctx);
        assert(s.subrange(b + 1, b + n + 2) =~= token + seq!['}']);
        assert(before + (seq!['{'] + ((token + seq!['}']) + rendered(after, 0, ctx))) =~= before + seq!['{'] + token
            + seq!['}'] + rendered(after, 0, ctx));
    }
}

proof fn lemma_plain_front(s: Seq<char>, i: int, j: int, ctx: ContextView)
    requires
        0 <= i <= j <= s.len(),
        forall|k: int| i <= k < j ==> s[k] != '{',
    ensures
        rendered(s, i, ctx) == s.subrange(i, j) + rendered(s, j, ctx),
        lacks_body(s, i, ctx) == lacks_body(s, j, ctx),
    decreases j - i,
{
    if i < j {
        lemma_plain_front(s, i + 1, j, ctx);
        assert(token_at(s, i, ctx) is None);
        assert(s.subrange(i, j) =~= seq![s[i]] + s.subrange(i + 1, j));
        assert(seq![s[i]] + (s.subrange(i + 1, j) + rendered(s, j, ctx)) =~= s.subrange(i, j) + rendered(s, j, ctx));
    } else {
        assert(s.subrange(i, j) + rendered(s, j, ctx) =~= rendered(s, j, ctx));
    }
}

proof fn lemma_close_found(s: Seq<char>, i: int, j: int)
    requires
        0 <= i <= j < s.len(),
        s[j] == '}',
        forall|k: int| i <= k < j ==> s[k] != '}',
    ensures
        close_at(s, i) == Some(j),
    decreases j - i,
{
    if i < j {
        lemma_close_found(s, i + 1, j);
    }
}

proof fn lemma_close_behind(front: Seq<char>, s: Seq<char>, i: int)
    requires
        0 <= i <= s.len(),
    ensures
        close_at(front + s, front.len() + i) == (match close_at(s, i) {
            Some(j) => Some(front.len() + j),
            None => None,
        }),
        close_at(s, i) matches Some(j) ==> i <= j < s.len(),
    decreases s.len() - i,
{
    if i < s.len() {
        lemma_close_behind(front, s, i + 1);
    }
}

proof fn lemma_rendered_behind(front: Seq<char>, s: Seq<char>, i: int, ctx: ContextView)
    requires
        0 <= i <= s.len(),
    ensures
        rendered(front + s, front.len() + i, ctx) == rendered(s, i, ctx),
        lacks_body(front + s, front.len() + i, ctx) == lacks_body(s, i, ctx),
    decreases s.len() - i,
{
    let all = front + s;
    let f = front.len() as int;
    if i < s.len() {
        lemma_close_behind(front, s, i + 1);
        assert(all[f + i] == s[i]);
        match close_at(s, i + 1) {
            Some(j) => {
                assert(all.subrange(f + i + 1, f + j) =~= s.subrange(i + 1, j));
                lemma_rendered_behind(front, s, j + 1, ctx);
            },
            None => {},
        }
        lemma_rendered_behind(front, s, i + 1, ctx);
    }
}

} // verus!
