//! Text building blocks shared by the rest of the library.
//!
//! Every function here speaks of a string as the sequence of its characters.

use vstd::prelude::*;
use vstd::string::*;

verus! {

/// `String::push` appends one character at the end.
pub assume_specification[ std::string::String::push ](s: &mut std::string::String, c: char)
    ensures
        final(s)@ == old(s)@.push(c),
;

/// The characters of `s`, in order.
pub fn to_chars(s: &str) -> (v: Vec<char>)
    ensures
        v@ == s@,
{
    let mut v: Vec<char> = Vec::new();
    for c in it: s.chars()
        invariant
            it.seq() == s@,
            v@ == s@.take(it.index() as int),
    {
        v.push(c);
        assert(s@.take(it.index() as int + 1) =~= s@.take(it.index() as int).push(c));
    }
    assert(s@.take(s@.len() as int) =~= s@);
    v
}

/// The characters `lo..hi` of `v` as a string.
pub fn slice_text(v: &Vec<char>, lo: usize, hi: usize) -> (s: String)
    requires
        lo <= hi <= v@.len(),
    ensures
        s@ == v@.subrange(lo as int, hi as int),
{
    let mut s = String::new();
    let mut i: usize = lo;
    assert(v@.subrange(lo as int, lo as int) =~= Seq::<char>::empty());
    while i < hi
        invariant
            lo <= i <= hi <= v@.len(),
            s@ == v@.subrange(lo as int, i as int),
        decreases hi - i,
    {
        s.push(v[i]);
        assert(v@.subrange(lo as int, i + 1) =~= v@.subrange(lo as int, i as int).push(v@[i as int]));
        i = i + 1;
    }
    s
}

/// Whether two strings hold the same characters.
pub fn text_eq(a: &str, b: &str) -> (r: bool)
    ensures
        r == (a@ == b@),
{
    let x = to_chars(a);
    let y = to_chars(b);
    if x.len() != y.len() {
        return false;
    }
    let mut i: usize = 0;
    while i < x.len()
        invariant
            x@ == a@,
            y@ == b@,
            x@.len() == y@.len(),
            i <= x@.len(),
            forall|j: int| 0 <= j < i ==> x@[j] == y@[j],
        decreases x@.len() - i,
    {
        if x[i] != y[i] {
            assert(a@[i as int] != b@[i as int]);
            return false;
        }
        i = i + 1;
    }
    assert(a@ =~= b@);
    true
}

/// The views of a sequence of strings.
pub open spec fn views(parts: Seq<String>) -> Seq<Seq<char>> {
    Seq::new(parts.len(), |i: int| parts[i]@)
}

/// `parts` laid end to end with `sep` between neighbours.
pub open spec fn join(parts: Seq<Seq<char>>, sep: Seq<char>) -> Seq<char>
    decreases parts.len(),
{
    if parts.len() == 0 {
        Seq::empty()
    } else if parts.len() == 1 {
        parts[0]
    } else {
        join(parts.drop_last(), sep) + sep + parts.last()
    }
}

/// Joins `parts` with `sep` between neighbours.
pub fn join_texts(parts: &Vec<String>, sep: &str) -> (r: String)
    ensures
        r@ == join(views(parts@), sep@),
{
    let mut r = String::new();
    let mut i: usize = 0;
    assert(views(parts@).take(0) =~= Seq::<Seq<char>>::empty());
    while i < parts.len()
        invariant
            i <= parts@.len(),
            r@ == join(views(parts@).take(i as int), sep@),
        decreases parts@.len() - i,
    {
        let ghost before = views(parts@).take(i as int);
        let ghost after = views(parts@).take(i + 1);
        assert(after.drop_last() =~= before);
        assert(after.last() == parts@[i as int]@);
        if i == 0 {
            r = parts[i].clone();
        } else {
            r.append(sep);
            r.append(parts[i].as_str());
        }
        i = i + 1;
    }
    assert(views(parts@).take(parts@.len() as int) =~= views(parts@));
    r
}

/// The character of a decimal or hexadecimal digit.
pub open spec fn digit_char(d: int) -> char {
    if d == 0 { '0' } else if d == 1 { '1' } else if d == 2 { '2' } else if d == 3 { '3' }
    else if d == 4 { '4' } else if d == 5 { '5' } else if d == 6 { '6' } else if d == 7 { '7' }
    else if d == 8 { '8' } else if d == 9 { '9' } else if d == 10 { 'a' } else if d == 11 { 'b' }
    else if d == 12 { 'c' } else if d == 13 { 'd' } else if d == 14 { 'e' } else { 'f' }
}

/// The character of the digit `d`, lower case above nine.
pub fn digit_to_char(d: u64) -> (c: char)
    requires
        d < 16,
    ensures
        c == digit_char(d as int),
{
    if d == 0 { '0' } else if d == 1 { '1' } else if d == 2 { '2' } else if d == 3 { '3' }
    else if d == 4 { '4' } else if d == 5 { '5' } else if d == 6 { '6' } else if d == 7 { '7' }
    else if d == 8 { '8' } else if d == 9 { '9' } else if d == 10 { 'a' } else if d == 11 { 'b' }
    else if d == 12 { 'c' } else if d == 13 { 'd' } else if d == 14 { 'e' } else { 'f' }
}

/// `n` in decimal, without leading zeros.
pub open spec fn dec(n: nat) -> Seq<char>
    decreases n,
{
    if n < 10 {
        seq![digit_char(n as int)]
    } else {
        dec(n / 10).push(digit_char((n % 10) as int))
    }
}

/// `n` in decimal, with a minus sign where it is negative.
pub open spec fn dec_int(n: int) -> Seq<char> {
    if n < 0 {
        seq!['-'] + dec((-n) as nat)
    } else {
        dec(n as nat)
    }
}

/// Writes `n` in decimal.
pub fn decimal(n: u64) -> (s: String)
    ensures
        s@ == dec(n as nat),
    decreases n,
{
    if n < 10 {
        let mut s = String::new();
        s.push(digit_to_char(n));
        assert(s@ =~= seq![digit_char(n as int)]);
        s
    } else {
        let mut s = decimal(n / 10);
        s.push(digit_to_char(n % 10));
        s
    }
}

/// Writes `n` in decimal, with its sign.
pub fn decimal_i64(n: i64) -> (s: String)
    ensures
        s@ == dec_int(n as int),
{
    if n < 0 {
        let mut s = String::new();
        s.push('-');
        let magnitude: u64 = (-(n as i128)) as u64;
        let digits = decimal(magnitude);
        s.append(digits.as_str());
        assert(s@ =~= seq!['-'] + dec((-(n as int)) as nat));
        s
    } else {
        decimal(n as u64)
    }
}

/// `s` with each `c` replaced by `with`.
pub open spec fn replace_char(s: Seq<char>, c: char, with: Seq<char>) -> Seq<char>
    decreases s.len(),
{
    if s.len() == 0 {
        Seq::empty()
    } else {
        replace_char(s.drop_last(), c, with) + (if s.last() == c { with } else { seq![s.last()] })
    }
}

/// Replaces each `c` in `s` by `with`.
pub fn replace_char_text(s: &str, c: char, with: &str) -> (r: String)
    ensures
        r@ == replace_char(s@, c, with@),
{
    let v = to_chars(s);
    let mut r = String::new();
    let mut i: usize = 0;
    assert(s@.take(0) =~= Seq::<char>::empty());
    while i < v.len()
        invariant
            i <= v@.len(),
            v@ == s@,
            r@ == replace_char(s@.take(i as int), c, with@),
        decreases v@.len() - i,
    {
        let ghost after = s@.take(i + 1);
        let ghost before = r@;
        assert(after.drop_last() =~= s@.take(i as int));
        if v[i] == c {
            r.append(with);
        } else {
            r.push(v[i]);
            assert(r@ =~= before + seq![v@[i as int]]);
        }
        i = i + 1;
    }
    assert(s@.take(s@.len() as int) =~= s@);
    r
}

/// `s` with each occurrence of `pat` replaced by `with`, found from the left and
/// without overlap.
pub open spec fn replace_text(s: Seq<char>, pat: Seq<char>, with: Seq<char>) -> Seq<char>
    decreases s.len(),
{
    if pat.len() == 0 || s.len() < pat.len() {
        s
    } else if s.take(pat.len() as int) == pat {
        with + replace_text(s.skip(pat.len() as int), pat, with)
    } else {
        seq![s[0]] + replace_text(s.skip(1), pat, with)
    }
}

/// Whether `pat` stands in `v` at position `at`.
pub fn stands_at(v: &Vec<char>, at: usize, pat: &Vec<char>) -> (r: bool)
    requires
        at <= v@.len(),
    ensures
        r == (at + pat@.len() <= v@.len() && v@.subrange(at as int, at + pat@.len()) == pat@),
{
    if v.len() - at < pat.len() {
        return false;
    }
    let mut j: usize = 0;
    while j < pat.len()
        invariant
            j <= pat@.len(),
            at + pat.len() <= v.len(),
            forall|k: int| 0 <= k < j ==> v@[at + k] == pat@[k],
        decreases pat@.len() - j,
    {
        if v[at + j] != pat[j] {
            assert(v@.subrange(at as int, at + pat@.len())[j as int] != pat@[j as int]);
            return false;
        }
        j = j + 1;
    }
    assert(v@.subrange(at as int, at + pat@.len()) =~= pat@);
    true
}

/// Replaces each occurrence of `pat` in `s` by `with`.
pub fn replace_all(s: &str, pat: &str, with: &str) -> (r: String)
    requires
        pat@.len() > 0,
    ensures
        r@ == replace_text(s@, pat@, with@),
{
    let v = to_chars(s);
    let p = to_chars(pat);
    let mut r = String::new();
    let mut i: usize = 0;
    assert(s@.skip(0) =~= s@);
    assert(r@ + replace_text(s@, pat@, with@) =~= replace_text(s@, pat@, with@));
    while i < v.len()
        invariant
            i <= v@.len(),
            v@ == s@,
            p@ == pat@,
            p@.len() > 0,
            r@ + replace_text(s@.skip(i as int), pat@, with@) == replace_text(s@, pat@, with@),
        decreases v@.len() - i,
    {
        let ghost rest = s@.skip(i as int);
        let ghost before = r@;
        if stands_at(&v, i, &p) {
            assert(rest.take(p@.len() as int) =~= v@.subrange(i as int, i + p@.len()));
            assert(rest.skip(p@.len() as int) =~= s@.skip(i + p@.len()));
            r.append(with);
            i = i + p.len();
            assert(r@ + replace_text(s@.skip(i as int), pat@, with@) =~= before + (with@
                + replace_text(s@.skip(i as int), pat@, with@)));
        } else {
            proof {
                if rest.len() < p@.len() {
                    assert(replace_text(rest, pat@, with@) == rest);
                    assert(replace_text(rest.skip(1), pat@, with@) == rest.skip(1));
                    assert(rest =~= seq![rest[0]] + rest.skip(1));
                } else {
                    assert(rest.take(p@.len() as int) =~= v@.subrange(i as int, i + p@.len()));
                }
            }
            assert(rest.skip(1) =~= s@.skip(i + 1));
            r.push(v[i]);
            assert(r@ + replace_text(s@.skip(i + 1), pat@, with@) =~= before + (seq![rest[0]]
                + replace_text(rest.skip(1), pat@, with@)));
            i = i + 1;
        }
    }
    assert(s@.skip(i as int).len() == 0);
    assert(r@ + replace_text(s@.skip(i as int), pat@, with@) =~= r@);
    r
}

/// The characters that Unicode lists as white space.
pub open spec fn is_white(c: char) -> bool {
    ||| '\u{9}' <= c <= '\u{d}'
    ||| c == ' '
    ||| c == '\u{85}'
    ||| c == '\u{a0}'
    ||| c == '\u{1680}'
    ||| '\u{2000}' <= c <= '\u{200a}'
    ||| c == '\u{2028}'
    ||| c == '\u{2029}'
    ||| c == '\u{202f}'
    ||| c == '\u{205f}'
    ||| c == '\u{3000}'
}

/// Whether `c` is white space.
pub fn is_white_char(c: char) -> (r: bool)
    ensures
        r == is_white(c),
{
    ('\u{9}' <= c && c <= '\u{d}') || c == ' ' || c == '\u{85}' || c == '\u{a0}' || c == '\u{1680}'
        || ('\u{2000}' <= c && c <= '\u{200a}') || c == '\u{2028}' || c == '\u{2029}' || c
        == '\u{202f}' || c == '\u{205f}' || c == '\u{3000}'
}

/// `s` without its leading white space.
pub open spec fn trim_start(s: Seq<char>) -> Seq<char>
    decreases s.len(),
{
    if s.len() > 0 && is_white(s[0]) {
        trim_start(s.skip(1))
    } else {
        s
    }
}

/// `s` without its trailing white space.
pub open spec fn trim_end(s: Seq<char>) -> Seq<char>
    decreases s.len(),
{
    if s.len() > 0 && is_white(s.last()) {
        trim_end(s.drop_last())
    } else {
        s
    }
}

/// `s` without the white space at its two ends.
pub open spec fn trim(s: Seq<char>) -> Seq<char> {
    trim_end(trim_start(s))
}

/// The characters `lo..hi` of `v` without the white space at their two ends.
pub fn trim_chars(v: &Vec<char>, lo: usize, hi: usize) -> (r: String)
    requires
        lo <= hi <= v@.len(),
    ensures
        r@ == trim(v@.subrange(lo as int, hi as int)),
{
    let ghost all = v@.subrange(lo as int, hi as int);
    let mut a: usize = lo;
    while a < hi && is_white_char(v[a])
        invariant
            lo <= a <= hi <= v@.len(),
            trim_start(v@.subrange(a as int, hi as int)) == trim_start(all),
        decreases hi - a,
    {
        assert(v@.subrange(a as int, hi as int).skip(1) =~= v@.subrange(a + 1, hi as int));
        a = a + 1;
    }
    let ghost middle = v@.subrange(a as int, hi as int);
    assert(trim_start(all) == middle);
    let mut b: usize = hi;
    while b > a && is_white_char(v[b - 1])
        invariant
            a <= b <= hi <= v@.len(),
            trim_end(v@.subrange(a as int, b as int)) == trim_end(middle),
        decreases b,
    {
        assert(v@.subrange(a as int, b as int).drop_last() =~= v@.subrange(a as int, b - 1));
        b = b - 1;
    }
    slice_text(v, a, b)
}

/// `s` without the white space at its two ends.
pub fn trim_text(s: &str) -> (r: String)
    ensures
        r@ == trim(s@),
{
    let v = to_chars(s);
    assert(v@.subrange(0, v@.len() as int) =~= v@);
    trim_chars(&v, 0, v.len())
}

/// What `str::to_lowercase` returns.
pub uninterp spec fn lowercase(s: Seq<char>) -> Seq<char>;

/// The lower-case form of an ASCII letter; every other character as it is.
pub open spec fn ascii_lower(c: char) -> char {
    if 'A' <= c <= 'Z' { ((c as u32) + 32) as char } else { c }
}

/// `str::to_lowercase`: the result depends on the text alone, and on ASCII text it maps
/// each letter to its lower-case form and keeps the rest.
#[verifier::external_body]
pub(crate) fn to_lower(s: &str) -> (r: String)
    ensures
        r@ == lowercase(s@),
        (forall|i: int| 0 <= i < s@.len() ==> (s@[i] as u32) < 128) ==> r@ == s@.map_values(
            |c: char| ascii_lower(c),
        ),
{
    s.to_lowercase()
}

/// Whether the text `a` stands before `b`, or is equal to it, in the order of code points.
pub open spec fn text_le(a: Seq<char>, b: Seq<char>) -> bool
    decreases a.len(),
{
    if a.len() == 0 {
        true
    } else if b.len() == 0 {
        false
    } else {
        a[0] < b[0] || (a[0] == b[0] && text_le(a.skip(1), b.skip(1)))
    }
}

/// Whether `a` stands before `b`, or is equal to it, in the order of code points.
pub fn text_not_after(a: &str, b: &str) -> (r: bool)
    ensures
        r == text_le(a@, b@),
{
    let x = to_chars(a);
    let y = to_chars(b);
    let mut i: usize = 0;
    assert(x@.skip(0) =~= x@);
    assert(y@.skip(0) =~= y@);
    while i < x.len() && i < y.len() && x[i] == y[i]
        invariant
            x@ == a@,
            y@ == b@,
            i <= x@.len(),
            i <= y@.len(),
            text_le(a@, b@) == text_le(x@.skip(i as int), y@.skip(i as int)),
        decreases x@.len() - i,
    {
        assert(x@.skip(i as int).skip(1) =~= x@.skip(i + 1));
        assert(y@.skip(i as int).skip(1) =~= y@.skip(i + 1));
        i = i + 1;
    }
    if i >= x.len() {
        true
    } else if i >= y.len() {
        false
    } else {
        x[i] < y[i]
    }
}

/// Text order is total.
pub proof fn lemma_text_le_total(a: Seq<char>, b: Seq<char>)
    ensures
        text_le(a, b) || text_le(b, a),
    decreases a.len(),
{
    if a.len() > 0 && b.len() > 0 && a[0] == b[0] {
        lemma_text_le_total(a.skip(1), b.skip(1));
    }
}

/// Text order is transitive.
pub proof fn lemma_text_le_transitive(a: Seq<char>, b: Seq<char>, c: Seq<char>)
    requires
        text_le(a, b),
        text_le(b, c),
    ensures
        text_le(a, c),
    decreases a.len(),
{
    if a.len() > 0 && b.len() > 0 && c.len() > 0 && a[0] == b[0] && b[0] == c[0] {
        lemma_text_le_transitive(a.skip(1), b.skip(1), c.skip(1));
    }
}

/// Two texts that each stand before the other are equal.
pub proof fn lemma_text_le_antisymmetric(a: Seq<char>, b: Seq<char>)
    requires
        text_le(a, b),
        text_le(b, a),
    ensures
        a == b,
    decreases a.len(),
{
    if a.len() > 0 && b.len() > 0 {
        lemma_text_le_antisymmetric(a.skip(1), b.skip(1));
        assert(a =~= seq![a[0]] + a.skip(1));
        assert(b =~= seq![b[0]] + b.skip(1));
    } else {
        assert(a =~= b);
    }
}

/// `s` with `x` put behind every element that does not stand after it, counted from the end.
pub open spec fn insert_text(s: Seq<Seq<char>>, x: Seq<char>) -> Seq<Seq<char>>
    decreases s.len(),
{
    if s.len() == 0 || text_le(s.last(), x) {
        s.push(x)
    } else {
        insert_text(s.drop_last(), x).push(s.last())
    }
}

/// `s` in text order.
pub open spec fn sorted_texts(s: Seq<Seq<char>>) -> Seq<Seq<char>>
    decreases s.len(),
{
    if s.len() == 0 {
        Seq::empty()
    } else {
        insert_text(sorted_texts(s.drop_last()), s.last())
    }
}

/// Whether `s` stands in text order.
pub open spec fn in_text_order(s: Seq<Seq<char>>) -> bool {
    forall|i: int, j: int| 0 <= i <= j < s.len() ==> text_le(s[i], s[j])
}

proof fn lemma_insert_text(s: Seq<Seq<char>>, x: Seq<char>)
    requires
        in_text_order(s),
    ensures
        in_text_order(insert_text(s, x)),
        insert_text(s, x).to_multiset() == s.to_multiset().insert(x),
        insert_text(s, x).len() == s.len() + 1,
        insert_text(s, x).last() == x || (s.len() > 0 && insert_text(s, x).last() == s.last()),
    decreases s.len(),
{
    broadcast use vstd::seq_lib::group_to_multiset_ensures;
    lemma_text_le_total(x, x);
    if s.len() == 0 {
    } else if text_le(s.last(), x) {
        assert forall|i: int, j: int| 0 <= i <= j < s.push(x).len() implies text_le(
            s.push(x)[i],
            s.push(x)[j],
        ) by {
            if j == s.len() && i < s.len() {
                lemma_text_le_transitive(s[i], s.last(), x);
            }
        }
    } else {
        lemma_text_le_total(s.last(), x);
        let front = s.drop_last();
        lemma_insert_text(front, x);
        let t = insert_text(front, x);
        assert(s =~= front.push(s.last()));
        assert forall|i: int, j: int| 0 <= i <= j < t.push(s.last()).len() implies text_le(
            t.push(s.last())[i],
            t.push(s.last())[j],
        ) by {
            if j == t.len() {
                lemma_text_le_total(s.last(), s.last());
                if i < t.len() {
                    assert(text_le(t[i], t.last()));
                    if t.last() != x {
                        assert(text_le(s[s.len() - 2], s[s.len() - 1]));
                    }
                    lemma_text_le_transitive(t[i], t.last(), s.last());
                }
            }
        }
    }
}

/// Sorting puts the texts in order and keeps each as often as it was there.
pub proof fn lemma_sorted_texts(s: Seq<Seq<char>>)
    ensures
        in_text_order(sorted_texts(s)),
        sorted_texts(s).to_multiset() == s.to_multiset(),
        sorted_texts(s).len() == s.len(),
    decreases s.len(),
{
    broadcast use vstd::seq_lib::group_to_multiset_ensures;
    if s.len() > 0 {
        lemma_sorted_texts(s.drop_last());
        lemma_insert_text(sorted_texts(s.drop_last()), s.last());
        assert(s =~= s.drop_last().push(s.last()));
    } else {
        assert(s =~= Seq::empty());
    }
}

proof fn lemma_insert_at(s: Seq<Seq<char>>, x: Seq<char>, p: int)
    requires
        0 <= p <= s.len(),
        p == 0 || text_le(s[p - 1], x),
        forall|j: int| p <= j < s.len() ==> !text_le(s[j], x),
    ensures
        insert_text(s, x) == s.insert(p, x),
    decreases s.len(),
{
    if s.len() == 0 || p == s.len() {
        assert(s.insert(p, x) =~= s.push(x));
    } else {
        assert(!text_le(s[s.len() - 1], x));
        lemma_insert_at(s.drop_last(), x, p);
        assert(s.insert(p, x) =~= s.drop_last().insert(p, x).push(s.last()));
    }
}

/// The texts of `items`, in text order.
pub fn sort_texts(items: &Vec<String>) -> (r: Vec<String>)
    ensures
        views(r@) == sorted_texts(views(items@)),
{
    let mut r: Vec<String> = Vec::new();
    let mut i: usize = 0;
    assert(views(items@).take(0) =~= Seq::<Seq<char>>::empty());
    assert(views(r@) =~= Seq::<Seq<char>>::empty());
    while i < items.len()
        invariant
            i <= items@.len(),
            views(r@) == sorted_texts(views(items@).take(i as int)),
        decreases items@.len() - i,
    {
        let ghost after = views(items@).take(i + 1);
        assert(after.drop_last() =~= views(items@).take(i as int));
        let ghost before = views(r@);
        let x = items[i].clone();
        let mut p: usize = r.len();
        while p > 0 && !text_not_after(r[p - 1].as_str(), x.as_str())
            invariant
                p <= r@.len(),
                before == views(r@),
                forall|j: int| p <= j < before.len() ==> !text_le(before[j], x@),
            decreases p,
        {
            p = p - 1;
        }
        proof {
            lemma_insert_at(before, x@, p as int);
        }
        r.insert(p, x);
        assert(views(r@) =~= before.insert(p as int, x@));
        i = i + 1;
    }
    assert(views(items@).take(items@.len() as int) =~= views(items@));
    r
}

/// Whether one of `items` is `x`.
pub fn contains_text(items: &Vec<String>, x: &str) -> (r: bool)
    ensures
        r == views(items@).contains(x@),
{
    let mut i: usize = 0;
    while i < items.len()
        invariant
            i <= items@.len(),
            forall|j: int| 0 <= j < i ==> views(items@)[j] != x@,
        decreases items@.len() - i,
    {
        if text_eq(items[i].as_str(), x) {
            assert(views(items@)[i as int] == x@);
            return true;
        }
        i = i + 1;
    }
    false
}

/// A copy of `items`.
pub fn clone_texts(items: &Vec<String>) -> (r: Vec<String>)
    ensures
        r@ == items@,
{
    let mut r: Vec<String> = Vec::new();
    let mut i: usize = 0;
    while i < items.len()
        invariant
            i <= items@.len(),
            r@ == items@.take(i as int),
        decreases items@.len() - i,
    {
        r.push(items[i].clone());
        assert(items@.take(i + 1) =~= items@.take(i as int).push(items@[i as int]));
        i = i + 1;
    }
    assert(items@.take(items@.len() as int) =~= items@);
    r
}

/// The view of an optional string.
pub open spec fn opt_view(o: Option<String>) -> Option<Seq<char>> {
    match o {
        Some(s) => Some(s@),
        None => None,
    }
}

/// What the `Debug` form of a text is.
pub uninterp spec fn debug_form(s: Seq<char>) -> Seq<char>;

/// `<str as Debug>::fmt`, through `format!`: the text between double quotes with its special
/// characters escaped. What the escapes are is left to the name.
#[verifier::external_body]
pub(crate) fn debug_text(s: &str) -> (r: String)
    ensures
        r@ == debug_form(s@),
{
    format!("{:?}", s)
}

/// Whether `part` stands somewhere in `text`.
pub open spec fn has_part(text: Seq<char>, part: Seq<char>) -> bool {
    exists|i: int|
        0 <= i && i + part.len() <= text.len() && #[trigger] text.subrange(i, i + part.len()) == part
}

/// A text has itself.
pub proof fn lemma_has_itself(part: Seq<char>)
    ensures
        has_part(part, part),
{
    let i = 0int;
    assert(part.subrange(i, i + part.len()) =~= part);
}

/// What a text has, it has with more text behind it.
pub proof fn lemma_has_part_before(text: Seq<char>, after: Seq<char>, part: Seq<char>)
    requires
        has_part(text, part),
    ensures
        has_part(text + after, part),
{
    let i = choose|i: int|
        0 <= i && i + part.len() <= text.len() && #[trigger] text.subrange(i, i + part.len()) == part;
    assert((text + after).subrange(i, i + part.len()) =~= part);
}

/// What a text has, it has with more text in front of it.
pub proof fn lemma_has_part_behind(before: Seq<char>, text: Seq<char>, part: Seq<char>)
    requires
        has_part(text, part),
    ensures
        has_part(before + text, part),
{
    let i = choose|i: int|
        0 <= i && i + part.len() <= text.len() && #[trigger] text.subrange(i, i + part.len()) == part;
    let k = before.len() + i;
    assert((before + text).subrange(k, k + part.len()) =~= part);
}

/// Whether `v` begins with `start`.
pub fn begins_with(v: &Vec<char>, start: &str) -> (r: bool)
    ensures
        r == start@.is_prefix_of(v@),
{
    let begin = to_chars(start);
    if begin.len() > v.len() {
        return false;
    }
    let mut i: usize = 0;
    while i < begin.len()
        invariant
            i <= begin@.len() <= v@.len(),
            begin@ == start@,
            forall|j: int| 0 <= j < i ==> begin@[j] == v@[j],
        decreases begin@.len() - i,
    {
        if begin[i] != v[i] {
            assert(v@.subrange(0, begin@.len() as int)[i as int] != begin@[i as int]);
            return false;
        }
        i = i + 1;
    }
    assert(begin@ =~= v@.subrange(0, begin@.len() as int));
    true
}

/// Whether `v` ends with `end`.
pub fn ends_with(v: &Vec<char>, end: &str) -> (r: bool)
    ensures
        r == end@.is_suffix_of(v@),
{
    let tail = to_chars(end);
    if tail.len() > v.len() {
        return false;
    }
    let len: usize = v.len();
    let offset: usize = len - tail.len();
    let mut i: usize = 0;
    while i < tail.len()
        invariant
            i <= tail@.len(),
            len == v@.len(),
            offset + tail@.len() == len,
            tail@ == end@,
            forall|j: int| 0 <= j < i ==> tail@[j] == v@[offset + j],
        decreases tail@.len() - i,
    {
        if tail[i] != v[offset + i] {
            assert(v@.subrange(offset as int, v@.len() as int)[i as int] != tail@[i as int]);
            return false;
        }
        i = i + 1;
    }
    assert(tail@ =~= v@.subrange(offset as int, v@.len() as int));
    true
}

/// The upper-case form of a text.
pub uninterp spec fn uppercase(s: Seq<char>) -> Seq<char>;

/// The upper-case form of an ASCII character.
pub open spec fn ascii_upper(c: char) -> char {
    if 'a' <= c <= 'z' {
        (c as int - 32) as char
    } else {
        c
    }
}

/// `str::to_uppercase`. For a text of ASCII characters it is said what it is; for the others it
/// has a name.
#[verifier::external_body]
pub(crate) fn to_upper(s: &str) -> (r: String)
    ensures
        r@ == uppercase(s@),
        (forall|i: int| 0 <= i < s@.len() ==> (#[trigger] s@[i] as int) < 128) ==> r@ == Seq::new(
            s@.len(),
            |i: int| ascii_upper(s@[i]),
        ),
{
    s.to_uppercase()
}

/// Whether `part` stands somewhere in `text`.
pub fn has_text(text: &str, part: &str) -> (r: bool)
    ensures
        r == has_part(text@, part@),
{
    let chars = to_chars(text);
    let pat = to_chars(part);
    if pat.len() > chars.len() {
        return false;
    }
    let last: usize = chars.len() - pat.len();
    let mut i: usize = 0;
    while i <= last
        invariant
            i <= last + 1,
            last + pat@.len() == chars@.len(),
            last < usize::MAX || i <= last,
            chars@ == text@,
            pat@ == part@,
            forall|j: int| 0 <= j < i ==> #[trigger] chars@.subrange(j, j + pat@.len()) != pat@,
        decreases last + 1 - i,
    {
        if stands_at(&chars, i, &pat) {
            return true;
        }
        if i == last {
            return false;
        }
        i = i + 1;
    }
    false
}

/// Replacing a character goes piece by piece: a text without the character stays, the character
/// alone becomes what replaces it, and two texts laid end to end become what each becomes.
pub proof fn law_replacement_goes_piece_by_piece(a: Seq<char>, b: Seq<char>, c: char, with: Seq<char>)
    ensures
        replace_char(a + b, c, with) == replace_char(a, c, with) + replace_char(b, c, with),
        replace_char(seq![c], c, with) == with,
        !a.contains(c) ==> replace_char(a, c, with) == a,
        !b.contains(c) ==> replace_char(b, c, with) == b,
{
    lemma_replaced_behind(a, b, c, with);
    assert(seq![c].drop_last() =~= Seq::<char>::empty());
    assert(replace_char(Seq::<char>::empty(), c, with) == Seq::<char>::empty());
    assert(Seq::<char>::empty() + with =~= with);
    lemma_nothing_replaced(a, c, with);
    lemma_nothing_replaced(b, c, with);
}

proof fn lemma_replaced_behind(a: Seq<char>, b: Seq<char>, c: char, with: Seq<char>)
    ensures
        replace_char(a + b, c, with) == replace_char(a, c, with) + replace_char(b, c, with),
    decreases b.len(),
{
    let s = a + b;
    if b.len() == 0 {
        assert(s =~= a);
        assert(replace_char(a, c, with) + replace_char(b, c, with) =~= replace_char(a, c, with));
    } else {
        lemma_replaced_behind(a, b.drop_last(), c, with);
        assert(s.drop_last() =~= a + b.drop_last());
        assert(replace_char(s, c, with) =~= replace_char(a, c, with) + replace_char(b, c, with));
    }
}

proof fn lemma_nothing_replaced(s: Seq<char>, c: char, with: Seq<char>)
    ensures
        !s.contains(c) ==> replace_char(s, c, with) == s,
    decreases s.len(),
{
    if s.len() > 0 && !s.contains(c) {
        assert forall|x: char| s.drop_last().contains(x) implies s.contains(x) by {
            let i = choose|i: int| 0 <= i < s.drop_last().len() && s.drop_last()[i] == x;
            assert(s[i] == x);
        }
        assert(s.contains(s.last()));
        lemma_nothing_replaced(s.drop_last(), c, with);
        assert(s.drop_last() + seq![s.last()] =~= s);
    }
}

/// Texts are joined from the front: nothing stands before the first, and the separator between any
/// two neighbours.
pub proof fn law_joining_puts_separators_between(parts: Seq<Seq<char>>, a: Seq<char>, b: Seq<char>, sep: Seq<char>)
    ensures
        join(Seq::empty(), sep) == Seq::<char>::empty(),
        join(seq![a], sep) == a,
        join(seq![a, b], sep) == a + sep + b,
        parts.len() > 0 ==> join(parts.push(a), sep) == join(parts, sep) + sep + a,
{
    assert(join(seq![a], sep) == a);
    assert(seq![a, b].drop_last() =~= seq![a]);
    assert(parts.push(a).drop_last() =~= parts);
}

/// The first place at which a text stands is replaced, and the rest is read in the same way.
pub proof fn law_texts_are_replaced_from_the_left(before: Seq<char>, pat: Seq<char>, after: Seq<char>, with: Seq<char>)
    requires
        pat.len() > 0,
        !before.contains(pat[0]),
    ensures
        replace_text(before + pat + after, pat, with) == before + with + replace_text(after, pat, with),
    decreases before.len(),
{
    let s = before + pat + after;
    let n = pat.len() as int;
    if before.len() == 0 {
        assert(s.take(n) =~= pat);
        assert(s.skip(n) =~= after);
        assert(before + with + replace_text(after, pat, with) =~= with + replace_text(after, pat, with));
    } else {
        assert(before.contains(before[0]));
        assert(s.take(n)[0] != pat[0]);
        assert(s.skip(1) =~= before.skip(1) + pat + after);
        assert forall|x: char| before.skip(1).contains(x) implies before.contains(x) by {
            let i = choose|i: int| 0 <= i < before.skip(1).len() && before.skip(1)[i] == x;
            assert(before[i + 1] == x);
        }
        law_texts_are_replaced_from_the_left(before.skip(1), pat, after, with);
        assert(seq![before[0]] + (before.skip(1) + with + replace_text(after, pat, with)) =~= before + with
            + replace_text(after, pat, with));
    }
}

/// A text that begins and ends with something other than white space is not trimmed.
pub proof fn law_trimmed_texts_stay(s: Seq<char>)
    requires
        s.len() > 0,
        !is_white(s[0]),
        !is_white(s.last()),
    ensures
        trim(s) == s,
{
}

/// White space at either end is trimmed away.
pub proof fn law_white_space_is_trimmed(s: Seq<char>, c: char)
    requires
        is_white(c),
    ensures
        trim(seq![c] + s) == trim(s),
        s.len() > 0 && !is_white(s[0]) ==> trim(s + seq![c]) == trim(s),
{
    assert((seq![c] + s).skip(1) =~= s);
    assert((s + seq![c]).drop_last() =~= s);
}

/// A digit of up to fifteen is written with the character in its place of the sixteen.
pub proof fn law_digits_stand_in_their_place(d: int)
    requires
        0 <= d < 16,
    ensures
        digit_char(d) == "0123456789abcdef"@[d],
{
    reveal_strlit("0123456789abcdef");
}

/// A negative number is written as its size with a sign in front, any other without.
pub proof fn law_signs_stand_in_front(n: nat)
    ensures
        dec_int(n as int) == dec(n),
        n > 0 ==> dec_int(-(n as int)) == seq!['-'] + dec(n),
{
}

/// The letters from `A` to `Z` have their small ones thirty-two places on, and back; any other character
/// stays as it is.
pub proof fn law_ascii_letters_change_case(c: char)
    ensures
        'A' <= c <= 'Z' ==> 'a' <= ascii_lower(c) <= 'z' && ascii_lower(c) as int == c as int + 32,
        !('A' <= c <= 'Z') ==> ascii_lower(c) == c,
        'a' <= c <= 'z' ==> 'A' <= ascii_upper(c) <= 'Z' && ascii_upper(c) as int + 32 == c as int,
        !('a' <= c <= 'z') ==> ascii_upper(c) == c,
{
}

/// White space is what has one of these numbers.
pub proof fn law_white_space_goes_by_number(c: char)
    ensures
        is_white(c) <==> {
            let n = c as int;
            9 <= n <= 13 || n == 32 || n == 0x85 || n == 0xa0 || n == 0x1680 || 0x2000 <= n <= 0x200a || n == 0x2028
                || n == 0x2029 || n == 0x202f || n == 0x205f || n == 0x3000
        },
{
}

} // verus!
