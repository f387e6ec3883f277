//! `{column}` templates: the pieces of one, and the SQL texts made from them.

use crate::text::{
    dec, decimal, join, join_texts, law_replacement_goes_piece_by_piece, replace_char, replace_char_text, slice_text,
    to_chars, views,
};
use vstd::prelude::*;
use vstd::string::*;

verus! {

/// One piece of a template: a character that stands for itself, or a column name that
/// stood between braces.
pub enum Piece {
    Text(String),
    Column(String),
}

/// A piece as a mathematical value; the text of a character is the sequence of it alone.
pub enum PieceView {
    Text(Seq<char>),
    Column(Seq<char>),
}

impl View for Piece {
    type V = PieceView;

    open spec fn view(&self) -> PieceView {
        match self {
            Piece::Text(c) => PieceView::Text(c@),
            Piece::Column(name) => PieceView::Column(name@),
        }
    }
}

/// The pieces as mathematical values.
pub open spec fn piece_views(pieces: Seq<Piece>) -> Seq<PieceView> {
    Seq::new(pieces.len(), |i: int| pieces[i]@)
}

/// The number of characters in front of the first `}`, or all of them where there is none.
pub open spec fn brace_end(s: Seq<char>) -> nat
    decreases s.len(),
{
    if s.len() == 0 || s[0] == '}' {
        0
    } else {
        1 + brace_end(s.skip(1))
    }
}

/// What follows the column name that `s` starts with: past its `}`, or nothing.
pub open spec fn after_column(s: Seq<char>) -> Seq<char> {
    if brace_end(s) < s.len() {
        s.skip(brace_end(s) as int + 1)
    } else {
        Seq::empty()
    }
}

/// The pieces of the template `s`. A `{` opens a column name that ends at the next `}`, or
/// at the end of the template.
pub open spec fn pieces(s: Seq<char>) -> Seq<PieceView>
    decreases s.len(),
    via pieces_decreases
{
    if s.len() == 0 {
        Seq::empty()
    } else if s[0] == '{' {
        let rest = s.skip(1);
        seq![PieceView::Column(rest.take(brace_end(rest) as int))] + pieces(after_column(rest))
    } else {
        seq![PieceView::Text(seq![s[0]])] + pieces(s.skip(1))
    }
}

#[via_fn]
proof fn pieces_decreases(s: Seq<char>) {
    if s.len() > 0 {
        lemma_brace_end(s.skip(1));
    }
}

proof fn lemma_brace_end(s: Seq<char>)
    ensures
        brace_end(s) <= s.len(),
        brace_end(s) < s.len() ==> s[brace_end(s) as int] == '}',
        forall|i: int| 0 <= i < brace_end(s) ==> s[i] != '}',
    decreases s.len(),
{
    if s.len() > 0 && s[0] != '}' {
        lemma_brace_end(s.skip(1));
        assert forall|i: int| 0 <= i < brace_end(s) implies s[i] != '}' by {
            if i > 0 {
                assert(s[i] == s.skip(1)[i - 1]);
            }
        }
    }
}

proof fn lemma_brace_end_at(s: Seq<char>, n: nat)
    requires
        n <= s.len(),
        forall|i: int| 0 <= i < n ==> s[i] != '}',
        n < s.len() ==> s[n as int] == '}',
    ensures
        brace_end(s) == n,
{
    lemma_brace_end(s);
}

/// The pieces of `template`.
pub fn parse_template(template: &str) -> (r: Vec<Piece>)
    ensures
        piece_views(r@) == pieces(template@),
{
    let v = to_chars(template);
    let mut r: Vec<Piece> = Vec::new();
    let mut i: usize = 0;
    assert(v@.skip(0) =~= v@);
    assert(piece_views(r@) + pieces(v@) =~= pieces(v@));
    while i < v.len()
        invariant
            v@ == template@,
            i <= v@.len(),
            piece_views(r@) + pieces(v@.skip(i as int)) == pieces(template@),
        decreases v@.len() - i,
    {
        let ghost rest = v@.skip(i as int);
        let ghost before = r@;
        if v[i] == '{' {
            let start: usize = i + 1;
            let mut end: usize = start;
            while end < v.len() && v[end] != '}'
                invariant
                    start <= end <= v@.len(),
                    forall|k: int| start <= k < end ==> v@[k] != '}',
                decreases v@.len() - end,
            {
                end = end + 1;
            }
            let name = slice_text(&v, start, end);
            proof {
                let inner = rest.skip(1);
                assert(inner =~= v@.skip(start as int));
                lemma_brace_end_at(inner, (end - start) as nat);
                assert(inner.take(end - start) =~= name@);
                if end < v@.len() {
                    assert(after_column(inner) =~= v@.skip(end + 1));
                } else {
                    assert(after_column(inner) =~= v@.skip(end as int));
                }
            }
            r.push(Piece::Column(name));
            i = if end < v.len() { end + 1 } else { end };
            assert(piece_views(r@) =~= piece_views(before).push(PieceView::Column(name@)));
            assert(piece_views(r@) + pieces(v@.skip(i as int)) =~= piece_views(before) + (
            seq![PieceView::Column(name@)] + pieces(v@.skip(i as int))));
        } else {
            let single = slice_text(&v, i, i + 1);
            assert(single@ =~= seq![v@[i as int]]);
            r.push(Piece::Text(single));
            assert(rest.skip(1) =~= v@.skip(i + 1));
            assert(piece_views(r@) =~= piece_views(before).push(PieceView::Text(seq![v@[i as int]])));
            assert(piece_views(r@) + pieces(v@.skip(i + 1)) =~= piece_views(before) + (
            seq![PieceView::Text(seq![v@[i as int]])] + pieces(v@.skip(i + 1))));
            i = i + 1;
        }
    }
    assert(v@.skip(i as int).len() == 0);
    assert(piece_views(r@) + pieces(v@.skip(i as int)) =~= piece_views(r@));
    r
}

/// A reference to the column `name` of the row `prefix`.
pub open spec fn column_ref(prefix: Seq<char>, name: Seq<char>) -> Seq<char> {
    prefix + ".\""@ + name + "\""@
}

/// Writes a reference to the column `name` of the row `prefix`.
pub fn column_reference(prefix: &str, name: &str) -> (r: String)
    ensures
        r@ == column_ref(prefix@, name@),
{
    prefix.to_owned().concat(".\"").concat(name).concat("\"")
}

/// `s` with each piece written out and each column as a reference into the row `prefix`.
pub open spec fn fill(s: Seq<PieceView>, prefix: Seq<char>) -> Seq<char>
    decreases s.len(),
{
    if s.len() == 0 {
        Seq::empty()
    } else {
        fill(s.drop_last(), prefix) + match s.last() {
            PieceView::Text(c) => c,
            PieceView::Column(name) => column_ref(prefix, name),
        }
    }
}

/// The template `expr` with each `{column}` as a reference into the row `prefix`.
pub open spec fn substituted(expr: Seq<char>, prefix: Seq<char>) -> Seq<char> {
    fill(pieces(expr), prefix)
}

/// Substitutes `{column}` placeholders with `prefix."column"` references.
pub fn substitute_columns(expr: &str, prefix: &str) -> (r: String)
    ensures
        r@ == substituted(expr@, prefix@),
{
    let parts = parse_template(expr);
    let ghost all = piece_views(parts@);
    let mut r = String::new();
    let mut i: usize = 0;
    assert(all.take(0) =~= Seq::<PieceView>::empty());
    while i < parts.len()
        invariant
            i <= parts@.len(),
            all == piece_views(parts@),
            r@ == fill(all.take(i as int), prefix@),
        decreases parts@.len() - i,
    {
        let ghost after = all.take(i + 1);
        let ghost before = r@;
        assert(after.drop_last() =~= all.take(i as int));
        match &parts[i] {
            Piece::Text(c) => {
                r.append(c.as_str());
            },
            Piece::Column(name) => {
                let reference = column_reference(prefix, name.as_str());
                r.append(reference.as_str());
            },
        }
        i = i + 1;
    }
    assert(all.take(all.len() as int) =~= all);
    r
}

/// A template without `{` is left as it is by the substitution, whatever the row.
pub proof fn law_substitution_keeps_plain_text(expr: Seq<char>, prefix: Seq<char>)
    requires
        !expr.contains('{'),
    ensures
        substituted(expr, prefix) == expr,
{
    lemma_plain_pieces(expr);
    lemma_plain_fill(expr, prefix, expr.len());
    assert(expr.take(expr.len() as int) =~= expr);
}

proof fn lemma_plain_pieces(s: Seq<char>)
    requires
        !s.contains('{'),
    ensures
        pieces(s) == Seq::new(s.len(), |i: int| PieceView::Text(seq![s[i]])),
    decreases s.len(),
{
    if s.len() > 0 {
        assert(s[0] != '{');
        assert forall|c: char| s.skip(1).contains(c) implies s.contains(c) by {
            let i = choose|i: int| 0 <= i < s.skip(1).len() && s.skip(1)[i] == c;
            assert(s[i + 1] == c);
        }
        lemma_plain_pieces(s.skip(1));
    }
    assert(pieces(s) =~= Seq::new(s.len(), |i: int| PieceView::Text(seq![s[i]])));
}

proof fn lemma_plain_fill(s: Seq<char>, prefix: Seq<char>, n: nat)
    requires
        n <= s.len(),
    ensures
        fill(Seq::new(n, |i: int| PieceView::Text(seq![s[i]])), prefix) == s.take(n as int),
    decreases n,
{
    let all = Seq::new(n, |i: int| PieceView::Text(seq![s[i]]));
    if n > 0 {
        lemma_plain_fill(s, prefix, (n - 1) as nat);
        assert(all.drop_last() =~= Seq::new((n - 1) as nat, |i: int| PieceView::Text(seq![s[i]])));
        assert(s.take(n as int) =~= s.take(n - 1) + seq![s[n - 1]]);
    } else {
        assert(s.take(0) =~= Seq::empty());
    }
}

/// The references that the columns of `s` become, in order.
pub open spec fn parameters(s: Seq<PieceView>, prefix: Seq<char>) -> Seq<Seq<char>>
    decreases s.len(),
{
    if s.len() == 0 {
        Seq::empty()
    } else {
        match s.last() {
            PieceView::Text(_) => parameters(s.drop_last(), prefix),
            PieceView::Column(name) => parameters(s.drop_last(), prefix).push(
                column_ref(prefix, name),
            ),
        }
    }
}

/// `s` with its n-th column written as `$n`.
pub open spec fn parameterised(s: Seq<PieceView>, prefix: Seq<char>) -> Seq<char>
    decreases s.len(),
{
    if s.len() == 0 {
        Seq::empty()
    } else {
        parameterised(s.drop_last(), prefix) + match s.last() {
            PieceView::Text(c) => c,
            PieceView::Column(_) => "$"@ + dec(parameters(s, prefix).len()),
        }
    }
}

/// Builds an EXECUTE-compatible SQL string with `$N` parameter placeholders, and the list
/// of parameters.
pub fn build_execute_with_params(template: &str, prefix: &str) -> (r: (String, Vec<String>))
    ensures
        r.0@ == parameterised(pieces(template@), prefix@),
        views(r.1@) == parameters(pieces(template@), prefix@),
{
    let parts = parse_template(template);
    let ghost all = piece_views(parts@);
    let mut sql = String::new();
    let mut params: Vec<String> = Vec::new();
    let mut i: usize = 0;
    assert(all.take(0) =~= Seq::<PieceView>::empty());
    assert(views(params@) =~= Seq::<Seq<char>>::empty());
    while i < parts.len()
        invariant
            i <= parts@.len(),
            all == piece_views(parts@),
            sql@ == parameterised(all.take(i as int), prefix@),
            views(params@) == parameters(all.take(i as int), prefix@),
        decreases parts@.len() - i,
    {
        let ghost after = all.take(i + 1);
        let ghost before = sql@;
        let ghost params_before = params@;
        assert(after.drop_last() =~= all.take(i as int));
        match &parts[i] {
            Piece::Text(c) => {
                sql.append(c.as_str());
            },
            Piece::Column(name) => {
                params.push(column_reference(prefix, name.as_str()));
                assert(views(params@) =~= views(params_before).push(column_ref(prefix@, name@)));
                let number = decimal(params.len() as u64);
                let marker = "$".to_owned().concat(number.as_str());
                sql.append(marker.as_str());
            },
        }
        i = i + 1;
    }
    assert(all.take(all.len() as int) =~= all);
    (sql, params)
}

/// The number of columns in `s`.
pub open spec fn columns(s: Seq<PieceView>) -> nat
    decreases s.len(),
{
    if s.len() == 0 {
        0
    } else {
        columns(s.drop_last()) + (if s.last() is Column {
            1nat
        } else {
            0nat
        })
    }
}

/// `s` with the n-th of `texts` for its n-th column.
pub open spec fn refilled(s: Seq<PieceView>, texts: Seq<Seq<char>>) -> Seq<char>
    decreases s.len(),
{
    if s.len() == 0 {
        Seq::empty()
    } else {
        refilled(s.drop_last(), texts) + match s.last() {
            PieceView::Text(c) => c,
            PieceView::Column(_) => texts[columns(s) - 1],
        }
    }
}

/// The first `n` markers: `$1`, `$2` and so on.
pub open spec fn markers(n: nat) -> Seq<Seq<char>> {
    Seq::new(n, |i: int| "$"@ + dec((i + 1) as nat))
}

proof fn lemma_refilled_ignores(s: Seq<PieceView>, a: Seq<Seq<char>>, b: Seq<Seq<char>>)
    requires
        columns(s) <= a.len(),
        columns(s) <= b.len(),
        forall|i: int| 0 <= i < columns(s) ==> a[i] == b[i],
    ensures
        refilled(s, a) == refilled(s, b),
    decreases s.len(),
{
    if s.len() > 0 {
        lemma_refilled_ignores(s.drop_last(), a, b);
    }
}

/// There is one parameter for each column. The statement has the n-th marker where the template has
/// its n-th column, and the n-th parameter put back there gives the plain substitution.
pub proof fn law_parameters_stand_for_columns(s: Seq<PieceView>, prefix: Seq<char>)
    ensures
        parameters(s, prefix).len() == columns(s),
        parameterised(s, prefix) == refilled(s, markers(columns(s))),
        fill(s, prefix) == refilled(s, parameters(s, prefix)),
    decreases s.len(),
{
    if s.len() > 0 {
        let front = s.drop_last();
        law_parameters_stand_for_columns(front, prefix);
        lemma_refilled_ignores(front, markers(columns(front)), markers(columns(s)));
        lemma_refilled_ignores(front, parameters(front, prefix), parameters(s, prefix));
    }
}

/// Whether `c` is a decimal digit.
pub open spec fn is_digit(c: char) -> bool {
    '0' <= c <= '9'
}

/// How many digits `s` begins with.
pub open spec fn digits_in_front(s: Seq<char>) -> nat
    decreases s.len(),
{
    if s.len() == 0 || !is_digit(s[0]) {
        0
    } else {
        1 + digits_in_front(s.skip(1))
    }
}

/// There are no more digits in front than characters.
pub proof fn lemma_digits_fit(s: Seq<char>)
    ensures
        digits_in_front(s) <= s.len(),
    decreases s.len(),
{
    if s.len() > 0 {
        lemma_digits_fit(s.skip(1));
    }
}

/// The number that decimal digits stand for.
pub open spec fn digits_value(s: Seq<char>) -> int
    decreases s.len(),
{
    if s.len() == 0 {
        0
    } else {
        10 * digits_value(s.drop_last()) + (s.last() as int - '0' as int)
    }
}

/// The numbers of the markers in a statement, in order. A marker is a `$` with the digits behind it.
pub open spec fn marker_numbers(sql: Seq<char>) -> Seq<int>
    decreases sql.len(),
{
    if sql.len() == 0 {
        Seq::empty()
    } else if sql[0] == '$' {
        let n = digits_in_front(sql.skip(1)) as int;
        proof {
            lemma_digits_fit(sql.skip(1));
        }
        seq![digits_value(sql.subrange(1, 1 + n))] + marker_numbers(sql.skip(1 + n))
    } else {
        marker_numbers(sql.skip(1))
    }
}

/// A statement with the parameter of its number for each marker.
pub open spec fn put_back(sql: Seq<char>, params: Seq<Seq<char>>) -> Seq<char>
    decreases sql.len(),
{
    if sql.len() == 0 {
        Seq::empty()
    } else if sql[0] == '$' {
        let n = digits_in_front(sql.skip(1)) as int;
        proof {
            lemma_digits_fit(sql.skip(1));
        }
        params[digits_value(sql.subrange(1, 1 + n)) - 1] + put_back(sql.skip(1 + n), params)
    } else {
        seq![sql[0]] + put_back(sql.skip(1), params)
    }
}

/// Whether the markers of a statement can be told from its text: the template has no `$` outside of
/// its columns, and no digit right behind one.
pub open spec fn markers_stand_apart(s: Seq<PieceView>) -> bool {
    &&& forall|i: int| 0 <= i < s.len() ==> (#[trigger] s[i] matches PieceView::Text(c) ==> !c.contains('$'))
    &&& forall|i: int|
        0 < i < s.len() && s[i - 1] is Column ==> (#[trigger] s[i] matches PieceView::Text(c) ==> !is_digit(c[0]))
}

/// Whether each text among the pieces is one character.
pub open spec fn single_characters(s: Seq<PieceView>) -> bool {
    forall|i: int| 0 <= i < s.len() ==> (#[trigger] s[i] matches PieceView::Text(c) ==> c.len() == 1)
}

proof fn lemma_single_characters(s: Seq<char>)
    ensures
        single_characters(pieces(s)),
    decreases s.len(),
{
    if s.len() > 0 {
        let (first, rest) = if s[0] == '{' {
            let inner = s.skip(1);
            lemma_brace_end(inner);
            lemma_single_characters(after_column(inner));
            (PieceView::Column(inner.take(brace_end(inner) as int)), pieces(after_column(inner)))
        } else {
            lemma_single_characters(s.skip(1));
            (PieceView::Text(seq![s[0]]), pieces(s.skip(1)))
        };
        let all = pieces(s);
        assert(all == seq![first] + rest);
        assert forall|i: int| 0 <= i < all.len() implies (#[trigger] all[i] matches PieceView::Text(c) ==> c.len()
            == 1) by {
            if i > 0 {
                assert(all[i] == rest[i - 1]);
            }
        }
    }
}

/// The statement that `s` becomes with its markers numbered from `k + 1` on.
spec fn marked_from(s: Seq<PieceView>, k: nat) -> Seq<char>
    decreases s.len(),
{
    if s.len() == 0 {
        Seq::empty()
    } else {
        match s[0] {
            PieceView::Text(c) => c + marked_from(s.skip(1), k),
            PieceView::Column(_) => "$"@ + dec(k + 1) + marked_from(s.skip(1), k + 1),
        }
    }
}

proof fn lemma_marked_push(s: Seq<PieceView>, p: PieceView, k: nat)
    ensures
        marked_from(s.push(p), k) == marked_from(s, k) + match p {
            PieceView::Text(c) => c,
            PieceView::Column(_) => "$"@ + dec(k + columns(s) + 1),
        },
    decreases s.len(),
{
    let end = match p {
        PieceView::Text(c) => c,
        PieceView::Column(_) => "$"@ + dec(k + columns(s) + 1),
    };
    if s.len() == 0 {
        let none = s.push(p).skip(1);
        assert(none =~= Seq::empty());
        assert(marked_from(none, k) == Seq::<char>::empty());
        assert(marked_from(none, k + 1) == Seq::<char>::empty());
        assert(s.push(p)[0] == p);
        assert(marked_from(s.push(p), k) =~= end);
        assert(marked_from(s, k) + end =~= end);
    } else {
        let rest = s.skip(1);
        assert(s.push(p).skip(1) =~= rest.push(p));
        lemma_columns_front(s);
        match s[0] {
            PieceView::Text(c) => {
                lemma_marked_push(rest, p, k);
                assert(c + (marked_from(rest, k) + end) =~= (c + marked_from(rest, k)) + end);
            },
            PieceView::Column(_) => {
                lemma_marked_push(rest, p, k + 1);
                let mark = "$"@ + dec(k + 1);
                assert(mark + (marked_from(rest, k + 1) + end) =~= (mark + marked_from(rest, k + 1)) + end);
            },
        }
    }
}

proof fn lemma_columns_front(s: Seq<PieceView>)
    requires
        s.len() > 0,
    ensures
        columns(s) == columns(s.skip(1)) + (if s[0] is Column {
            1nat
        } else {
            0nat
        }),
    decreases s.len(),
{
    if s.len() > 1 {
        lemma_columns_front(s.drop_last());
        assert(s.drop_last().skip(1) =~= s.skip(1).drop_last());
    } else {
        assert(s.skip(1) =~= Seq::empty());
        assert(s.drop_last() =~= Seq::empty());
    }
}

proof fn lemma_marked(s: Seq<PieceView>, prefix: Seq<char>)
    ensures
        parameterised(s, prefix) == marked_from(s, 0),
    decreases s.len(),
{
    if s.len() > 0 {
        let front = s.drop_last();
        lemma_marked(front, prefix);
        law_parameters_stand_for_columns(s, prefix);
        lemma_marked_push(front, s.last(), 0);
        assert(front.push(s.last()) =~= s);
    }
}

proof fn lemma_front(s: Seq<PieceView>, prefix: Seq<char>)
    requires
        s.len() > 0,
    ensures
        fill(s, prefix) == (match s[0] {
            PieceView::Text(c) => c,
            PieceView::Column(name) => column_ref(prefix, name),
        }) + fill(s.skip(1), prefix),
        parameters(s, prefix) == (match s[0] {
            PieceView::Text(_) => Seq::<Seq<char>>::empty(),
            PieceView::Column(name) => seq![column_ref(prefix, name)],
        }) + parameters(s.skip(1), prefix),
    decreases s.len(),
{
    let rest = s.skip(1);
    if s.len() > 1 {
        lemma_front(s.drop_last(), prefix);
        assert(s.drop_last().skip(1) =~= rest.drop_last());
    } else {
        assert(rest =~= Seq::empty());
        assert(s.drop_last() =~= Seq::empty());
    }
    assert(fill(s, prefix) =~= (match s[0] {
        PieceView::Text(c) => c,
        PieceView::Column(name) => column_ref(prefix, name),
    }) + fill(rest, prefix));
    assert(parameters(s, prefix) =~= (match s[0] {
        PieceView::Text(_) => Seq::<Seq<char>>::empty(),
        PieceView::Column(name) => seq![column_ref(prefix, name)],
    }) + parameters(rest, prefix));
}

proof fn lemma_dec_digits(n: nat)
    ensures
        dec(n).len() > 0,
        forall|i: int| 0 <= i < dec(n).len() ==> is_digit(#[trigger] dec(n)[i]),
        digits_value(dec(n)) == n,
    decreases n,
{
    if n < 10 {
        assert(dec(n).drop_last() =~= Seq::empty());
        assert(digits_value(dec(n).drop_last()) == 0);
    } else {
        lemma_dec_digits(n / 10);
        assert(dec(n).drop_last() =~= dec(n / 10));
        assert forall|i: int| 0 <= i < dec(n).len() implies is_digit(#[trigger] dec(n)[i]) by {
            if i < dec(n / 10).len() {
                assert(dec(n)[i] == dec(n / 10)[i]);
            }
        }
    }
}

proof fn lemma_digits_in_front(digits: Seq<char>, rest: Seq<char>)
    requires
        forall|i: int| 0 <= i < digits.len() ==> is_digit(#[trigger] digits[i]),
        rest.len() == 0 || !is_digit(rest[0]),
    ensures
        digits_in_front(digits + rest) == digits.len(),
    decreases digits.len(),
{
    if digits.len() > 0 {
        assert((digits + rest).skip(1) =~= digits.skip(1) + rest);
        assert(is_digit(digits[0]));
        assert forall|i: int| 0 <= i < digits.skip(1).len() implies is_digit(#[trigger] digits.skip(1)[i]) by {
            assert(is_digit(digits[i + 1]));
        }
        lemma_digits_in_front(digits.skip(1), rest);
    } else {
        assert(digits + rest =~= rest);
    }
}

proof fn lemma_put_back(s: Seq<PieceView>, prefix: Seq<char>, k: nat, params: Seq<Seq<char>>)
    requires
        markers_stand_apart(s),
        single_characters(s),
        params.len() == k + columns(s),
        params.skip(k as int) == parameters(s, prefix),
    ensures
        put_back(marked_from(s, k), params) == fill(s, prefix),
        marker_numbers(marked_from(s, k)) == Seq::new(columns(s), |i: int| k + 1 + i),
    decreases s.len(),
{
    let numbers = Seq::new(columns(s), |i: int| k + 1 + i);
    if s.len() == 0 {
        assert(marker_numbers(marked_from(s, k)) =~= numbers);
    } else {
        let rest = s.skip(1);
        assert forall|i: int| 0 <= i < rest.len() implies (#[trigger] rest[i] matches PieceView::Text(c) ==> c.len()
            == 1 && !c.contains('$')) by {
            assert(s[i + 1] == rest[i]);
        }
        assert forall|i: int| 0 < i < rest.len() && rest[i - 1] is Column implies (
        #[trigger] rest[i] matches PieceView::Text(c) ==> !is_digit(c[0])) by {
            assert(s[i + 1] == rest[i]);
            assert(s[i] == rest[i - 1]);
        }
        lemma_columns_front(s);
        lemma_front(s, prefix);
        let sql = marked_from(s, k);
        match s[0] {
            PieceView::Text(c) => {
                let tail = marked_from(rest, k);
                assert(parameters(s, prefix) =~= parameters(rest, prefix));
                lemma_put_back(rest, prefix, k, params);
                assert(c.contains(c[0]));
                assert(sql =~= seq![c[0]] + tail);
                assert(sql.skip(1) =~= tail);
                assert(c =~= seq![c[0]]);
            },
            PieceView::Column(name) => {
                reveal_strlit("$");
                let tail = marked_from(rest, k + 1);
                let digits = dec(k + 1);
                let n = digits.len() as int;
                assert(params.skip(k as int)[0] == column_ref(prefix, name));
                assert(params[k as int] == column_ref(prefix, name));
                assert(params.skip((k + 1) as int) =~= params.skip(k as int).skip(1));
                assert(params.skip(k as int).skip(1) =~= parameters(rest, prefix));
                lemma_put_back(rest, prefix, k + 1, params);
                lemma_dec_digits(k + 1);
                assert(tail.len() == 0 || !is_digit(tail[0])) by {
                    if rest.len() > 0 {
                        assert(s[1] == rest[0]);
                        match rest[0] {
                            PieceView::Text(c) => {
                                assert(c.len() == 1);
                                assert(tail[0] == c[0]);
                            },
                            PieceView::Column(_) => {
                                assert(tail[0] == '$');
                            },
                        }
                    }
                }
                lemma_digits_in_front(digits, tail);
                assert(sql[0] == '$');
                assert(sql.skip(1) =~= digits + tail);
                assert(sql.subrange(1, 1 + n) =~= digits);
                assert(sql.skip(1 + n) =~= tail);
                assert(marker_numbers(sql) =~= numbers);
            },
        }
    }
}

/// The statement holds the markers `$1`, `$2` and so on, one for each parameter and in this order,
/// and with each parameter put back for the marker of its number it is the plain substitution. The
/// template must leave the markers readable.
pub proof fn law_parameters_put_back(template: Seq<char>, prefix: Seq<char>)
    requires
        markers_stand_apart(pieces(template)),
    ensures
        ({
            let sql = parameterised(pieces(template), prefix);
            let params = parameters(pieces(template), prefix);
            &&& marker_numbers(sql) == Seq::new(params.len(), |i: int| i + 1)
            &&& put_back(sql, params) == substituted(template, prefix)
        }),
{
    let s = pieces(template);
    let params = parameters(s, prefix);
    lemma_single_characters(template);
    lemma_marked(s, prefix);
    law_parameters_stand_for_columns(s, prefix);
    assert(params.skip(0) =~= params);
    lemma_put_back(s, prefix, 0, params);
    assert(marker_numbers(parameterised(s, prefix)) =~= Seq::new(params.len(), |i: int| i + 1));
}

/// `s` as an SQL string literal.
pub open spec fn quoted(s: Seq<char>) -> Seq<char> {
    "'"@ + replace_char(s, '\'', "''"@) + "'"@
}

/// Writes `s` as an SQL string literal.
pub fn quote(s: &str) -> (r: String)
    ensures
        r@ == quoted(s@),
{
    let doubled = replace_char_text(s, '\'', "''");
    "'".to_owned().concat(doubled.as_str()).concat("'")
}

/// `parts` with the literal `text` behind them, where it holds anything.
pub open spec fn flushed(parts: Seq<Seq<char>>, text: Seq<char>) -> Seq<Seq<char>> {
    if text.len() == 0 { parts } else { parts.push(quoted(text)) }
}

/// The operands of the concatenation that `s` becomes: the finished ones, and the literal
/// text that follows the last column.
pub open spec fn operands(s: Seq<PieceView>, prefix: Seq<char>) -> (Seq<Seq<char>>, Seq<char>)
    decreases s.len(),
{
    if s.len() == 0 {
        (Seq::empty(), Seq::empty())
    } else {
        let (parts, text) = operands(s.drop_last(), prefix);
        match s.last() {
            PieceView::Text(c) => (parts, text + c),
            PieceView::Column(name) => (
                flushed(parts, text).push(column_ref(prefix, name) + "::text"@),
                Seq::empty(),
            ),
        }
    }
}

/// The template as a PG string concatenation.
pub open spec fn concatenation(template: Seq<char>, prefix: Seq<char>) -> Seq<char> {
    let (parts, text) = operands(pieces(template), prefix);
    join(flushed(parts, text), " || "@)
}

/// Builds a PG string concatenation expression from a query template.
pub fn build_query_concatenation(template: &str, prefix: &str) -> (r: String)
    ensures
        r@ == concatenation(template@, prefix@),
{
    let source = parse_template(template);
    let ghost all = piece_views(source@);
    let mut parts: Vec<String> = Vec::new();
    let mut current = String::new();
    let mut i: usize = 0;
    assert(all.take(0) =~= Seq::<PieceView>::empty());
    assert(views(parts@) =~= Seq::<Seq<char>>::empty());
    while i < source.len()
        invariant
            i <= source@.len(),
            all == piece_views(source@),
            operands(all.take(i as int), prefix@) == (views(parts@), current@),
        decreases source@.len() - i,
    {
        let ghost after = all.take(i + 1);
        assert(after.drop_last() =~= all.take(i as int));
        match &source[i] {
            Piece::Text(c) => {
                current.append(c.as_str());
            },
            Piece::Column(name) => {
                let ghost parts_before = views(parts@);
                let ghost text_before = current@;
                if !current.as_str().is_empty() {
                    parts.push(quote(current.as_str()));
                    current = String::new();
                }
                assert(views(parts@) =~= flushed(parts_before, text_before));
                let ghost parts_flushed = parts@;
                let reference = column_reference(prefix, name.as_str());
                parts.push(reference.concat("::text"));
                assert(views(parts@) =~= views(parts_flushed).push(
                    column_ref(prefix@, name@) + "::text"@,
                ));
                assert(current@ =~= Seq::<char>::empty());
            },
        }
        i = i + 1;
    }
    assert(all.take(all.len() as int) =~= all);
    let ghost parts_before = views(parts@);
    if !current.as_str().is_empty() {
        parts.push(quote(current.as_str()));
    }
    assert(views(parts@) =~= flushed(parts_before, current@));
    join_texts(&parts, " || ")
}

/// A template reads from the front: what stands before the first brace stays, the name between the
/// braces becomes a quoted reference to that column of the row, and the rest is read in the same way.
pub proof fn law_columns_become_references(before: Seq<char>, name: Seq<char>, after: Seq<char>, prefix: Seq<char>)
    requires
        !before.contains('{'),
        !name.contains('}'),
    ensures
        substituted(before + seq!['{'] + name + seq!['}'] + after, prefix) == before + prefix + seq!['.', '"'] + name
            + seq!['"'] + substituted(after, prefix),
{
    let inner = name + seq!['}'] + after;
    let template = before + (seq!['{'] + inner);
    assert(before + seq!['{'] + name + seq!['}'] + after =~= template);
    lemma_pieces_behind_text(before, seq!['{'] + inner);
    lemma_column_pieces(name, after);
    let column = seq![PieceView::Column(name)] + pieces(after);
    lemma_front(column, prefix);
    assert(column.skip(1) =~= pieces(after));
    lemma_fill_behind_text(before, column, prefix);
    reveal_strlit(".\"");
    reveal_strlit("\"");
    assert(".\""@ =~= seq!['.', '"']);
    assert("\""@ =~= seq!['"']);
    assert(before + (column_ref(prefix, name) + fill(pieces(after), prefix)) =~= before + prefix + seq!['.', '"'] + name
        + seq!['"'] + substituted(after, prefix));
}

proof fn lemma_column_pieces(name: Seq<char>, after: Seq<char>)
    requires
        !name.contains('}'),
    ensures
        pieces(seq!['{'] + (name + seq!['}'] + after)) == seq![PieceView::Column(name)] + pieces(after),
{
    let inner = name + seq!['}'] + after;
    let text = seq!['{'] + inner;
    assert(text.skip(1) =~= inner);
    assert forall|i: int| 0 <= i < name.len() implies inner[i] != '}' by {
        assert(name.contains(name[i]));
    }
    lemma_brace_end_at(inner, name.len());
    assert(inner.take(name.len() as int) =~= name);
    assert(after_column(inner) =~= after);
}

/// The characters of a text, each as a piece.
pub open spec fn text_pieces(s: Seq<char>) -> Seq<PieceView> {
    Seq::new(s.len(), |i: int| PieceView::Text(seq![s[i]]))
}

proof fn lemma_pieces_behind_text(before: Seq<char>, rest: Seq<char>)
    requires
        !before.contains('{'),
    ensures
        pieces(before + rest) == text_pieces(before) + pieces(rest),
    decreases before.len(),
{
    if before.len() == 0 {
        assert(before + rest =~= rest);
        assert(text_pieces(before) + pieces(rest) =~= pieces(rest));
    } else {
        let s = before + rest;
        assert(before.contains(before[0]));
        assert(s.skip(1) =~= before.skip(1) + rest);
        assert forall|c: char| before.skip(1).contains(c) implies before.contains(c) by {
            let i = choose|i: int| 0 <= i < before.skip(1).len() && before.skip(1)[i] == c;
            assert(before[i + 1] == c);
        }
        lemma_pieces_behind_text(before.skip(1), rest);
        assert(text_pieces(before) =~= seq![PieceView::Text(seq![before[0]])] + text_pieces(before.skip(1)));
        assert(pieces(s) =~= text_pieces(before) + pieces(rest));
    }
}

proof fn lemma_fill_behind_text(before: Seq<char>, rest: Seq<PieceView>, prefix: Seq<char>)
    ensures
        fill(text_pieces(before) + rest, prefix) == before + fill(rest, prefix),
    decreases before.len(),
{
    let s = text_pieces(before) + rest;
    if before.len() == 0 {
        assert(s =~= rest);
        assert(before + fill(rest, prefix) =~= fill(rest, prefix));
    } else {
        lemma_front(s, prefix);
        assert(s.skip(1) =~= text_pieces(before.skip(1)) + rest);
        lemma_fill_behind_text(before.skip(1), rest, prefix);
        assert(seq![before[0]] + (before.skip(1) + fill(rest, prefix)) =~= before + fill(rest, prefix));
    }
}

/// A query with one column becomes the literal before it, the column as text, and the literal behind
/// it, put together in this order; a literal that holds nothing is left out.
pub proof fn law_queries_are_put_together_in_order(
    before: Seq<char>,
    name: Seq<char>,
    after: Seq<char>,
    prefix: Seq<char>,
)
    requires
        !before.contains('{'),
        !name.contains('}'),
        !after.contains('{'),
    ensures
        ({
            let column = prefix + ".\""@ + name + "\""@ + "::text"@;
            let text = concatenation(before + seq!['{'] + name + seq!['}'] + after, prefix);
            &&& before.len() > 0 && after.len() > 0 ==> text == quoted(before) + " || "@ + column + " || "@ + quoted(
                after,
            )
            &&& before.len() > 0 && after.len() == 0 ==> text == quoted(before) + " || "@ + column
            &&& before.len() == 0 && after.len() > 0 ==> text == column + " || "@ + quoted(after)
            &&& before.len() == 0 && after.len() == 0 ==> text == column
        }),
{
    let inner = name + seq!['}'] + after;
    let template = before + (seq!['{'] + inner);
    let column = prefix + ".\""@ + name + "\""@ + "::text"@;
    assert(before + seq!['{'] + name + seq!['}'] + after =~= template);
    lemma_pieces_behind_text(before, seq!['{'] + inner);
    lemma_column_pieces(name, after);
    lemma_pieces_behind_text(after, Seq::empty());
    assert(after + Seq::<char>::empty() =~= after);
    assert(text_pieces(after) + pieces(Seq::empty()) =~= text_pieces(after));
    let head = text_pieces(before).push(PieceView::Column(name));
    let all = head + text_pieces(after);
    assert(pieces(template) =~= all);
    lemma_operands_of_text(Seq::empty(), before, prefix);
    assert(Seq::<PieceView>::empty() + text_pieces(before) =~= text_pieces(before));
    assert(operands(Seq::<PieceView>::empty(), prefix) == (Seq::<Seq<char>>::empty(), Seq::<char>::empty()));
    assert(Seq::<char>::empty() + before =~= before);
    assert(head.drop_last() =~= text_pieces(before));
    let parts = flushed(Seq::empty(), before).push(column);
    assert(operands(head, prefix) == (parts, Seq::<char>::empty()));
    lemma_operands_of_text(head, after, prefix);
    assert(Seq::<char>::empty() + after =~= after);
    let list = flushed(parts, after);
    if before.len() > 0 {
        assert(parts =~= seq![quoted(before), column]);
        lemma_join_two(quoted(before), column, " || "@);
        if after.len() > 0 {
            assert(list =~= seq![quoted(before), column].push(quoted(after)));
            assert(list.drop_last() =~= seq![quoted(before), column]);
        }
    } else {
        assert(parts =~= seq![column]);
        lemma_join_two(column, quoted(after), " || "@);
        if after.len() > 0 {
            assert(list =~= seq![column, quoted(after)]);
        }
    }
}

proof fn lemma_operands_of_text(s: Seq<PieceView>, text: Seq<char>, prefix: Seq<char>)
    ensures
        operands(s + text_pieces(text), prefix) == (operands(s, prefix).0, operands(s, prefix).1 + text),
    decreases text.len(),
{
    let all = s + text_pieces(text);
    if text.len() == 0 {
        assert(all =~= s);
        assert(operands(s, prefix).1 + text =~= operands(s, prefix).1);
    } else {
        lemma_operands_of_text(s, text.drop_last(), prefix);
        assert(all.drop_last() =~= s + text_pieces(text.drop_last()));
        assert(operands(s, prefix).1 + text.drop_last() + seq![text.last()] =~= operands(s, prefix).1 + text);
    }
}

proof fn lemma_join_two(a: Seq<char>, b: Seq<char>, sep: Seq<char>)
    ensures
        join(seq![a], sep) == a,
        join(seq![a, b], sep) == a + sep + b,
{
    assert(seq![a, b].drop_last() =~= seq![a]);
    assert(seq![a].drop_last() =~= Seq::<Seq<char>>::empty());
}

/// A text without a quote becomes a literal as it stands; a quote within it is doubled.
pub proof fn law_quotes_are_doubled(a: Seq<char>, b: Seq<char>)
    requires
        !a.contains('\''),
        !b.contains('\''),
    ensures
        quoted(a) == seq!['\''] + a + seq!['\''],
        quoted(a + seq!['\''] + b) == seq!['\''] + a + seq!['\'', '\''] + b + seq!['\''],
{
    reveal_strlit("'");
    reveal_strlit("''");
    assert("'"@ =~= seq!['\'']);
    assert("''"@ =~= seq!['\'', '\'']);
    law_replacement_goes_piece_by_piece(a, seq!['\''], '\'', "''"@);
    law_replacement_goes_piece_by_piece(a + seq!['\''], b, '\'', "''"@);
}

/// A statement of one column has the first marker for it and the reference as its one parameter.
pub proof fn law_one_column_is_one_parameter(name: Seq<char>, prefix: Seq<char>)
    requires
        !name.contains('}'),
    ensures
        parameterised(pieces(seq!['{'] + name + seq!['}']), prefix) == "$1"@,
        parameters(pieces(seq!['{'] + name + seq!['}']), prefix) == seq![prefix + ".\""@ + name + "\""@],
{
    let none = Seq::<char>::empty();
    lemma_column_pieces(name, none);
    assert(seq!['{'] + (name + seq!['}'] + none) =~= seq!['{'] + name + seq!['}']);
    let s = pieces(seq!['{'] + name + seq!['}']);
    assert(s =~= seq![PieceView::Column(name)]);
    assert(s.drop_last() =~= Seq::<PieceView>::empty());
    assert(parameters(s.drop_last(), prefix) == Seq::<Seq<char>>::empty());
    assert(parameterised(s.drop_last(), prefix) == none);
    assert(parameters(s, prefix) =~= seq![prefix + ".\""@ + name + "\""@]);
    reveal_strlit("$");
    reveal_strlit("$1");
    assert(dec(1) =~= seq!['1']);
    assert(parameterised(s, prefix) =~= "$1"@);
}

} // verus!
