//! Lists of named values, read as maps.

use crate::text::text_eq;
use vstd::prelude::*;

verus! {

/// The value under `name`, from position `n` on; the first counts.
pub open spec fn value_of<V: View>(pairs: Seq<(String, V)>, name: Seq<char>, n: int) -> Option<V::V>
    decreases pairs.len() - n,
{
    if n >= pairs.len() {
        None
    } else if pairs[n].0@ == name {
        Some(pairs[n].1@)
    } else {
        value_of(pairs, name, n + 1)
    }
}

/// What the pairs say, as a map.
pub open spec fn pairs_map<V: View>(pairs: Seq<(String, V)>) -> Map<Seq<char>, V::V> {
    Map::new(|name: Seq<char>| value_of(pairs, name, 0) is Some, |name: Seq<char>| value_of(pairs, name, 0)->0)
}

proof fn lemma_value_of_prefix<V: View>(a: Seq<(String, V)>, b: Seq<(String, V)>, name: Seq<char>, n: int, p: int)
    requires
        0 <= n <= p <= a.len(),
        p <= b.len(),
        forall|j: int| n <= j < p ==> (#[trigger] a[j]).0@ != name,
        forall|j: int| n <= j < p ==> (#[trigger] b[j]).0@ != name,
    ensures
        value_of(a, name, n) == value_of(a, name, p),
        value_of(b, name, n) == value_of(b, name, p),
    decreases p - n,
{
    if n < p {
        lemma_value_of_prefix(a, b, name, n + 1, p);
    }
}

proof fn lemma_value_of_same<V: View>(a: Seq<(String, V)>, b: Seq<(String, V)>, name: Seq<char>, n: int)
    requires
        0 <= n,
        a.len() == b.len(),
        forall|j: int|
            n <= j < a.len() ==> (#[trigger] a[j]).0@ == b[j].0@ && (a[j].0@ == name ==> a[j].1@ == b[j].1@),
    ensures
        value_of(a, name, n) == value_of(b, name, n),
    decreases a.len() - n,
{
    if n < a.len() {
        assert(a[n].0@ == b[n].0@);
        lemma_value_of_same(a, b, name, n + 1);
    }
}

proof fn lemma_pairs_map_insert<V: View>(
    before: Seq<(String, V)>,
    after: Seq<(String, V)>,
    name: Seq<char>,
    value: V::V,
)
    requires
        forall|k: Seq<char>| #[trigger]
            value_of(after, k, 0) == (if k == name {
                Some(value)
            } else {
                value_of(before, k, 0)
            }),
    ensures
        pairs_map(after) == pairs_map(before).insert(name, value),
{
    let a = pairs_map(after);
    let b = pairs_map(before).insert(name, value);
    assert forall|k: Seq<char>| #[trigger] a.dom().contains(k) == b.dom().contains(k) by {
        assert(value_of(after, k, 0) == value_of(after, k, 0));
    }
    assert forall|k: Seq<char>| #[trigger] a.dom().contains(k) implies a[k] == b[k] by {
        assert(value_of(after, k, 0) == value_of(after, k, 0));
    }
    assert(a =~= b);
}

/// Sets the value under `name`.
pub fn set_pair<V: View>(pairs: &mut Vec<(String, V)>, name: String, value: V)
    ensures
        pairs_map(final(pairs)@) == pairs_map(old(pairs)@).insert(name@, value@),
{
    let ghost before = pairs@;
    let mut i: usize = 0;
    while i < pairs.len()
        invariant
            i <= pairs@.len(),
            before == old(pairs)@,
            pairs@ == before,
            forall|j: int| 0 <= j < i ==> (#[trigger] before[j]).0@ != name@,
        decreases pairs@.len() - i,
    {
        if text_eq(pairs[i].0.as_str(), name.as_str()) {
            pairs.set(i, (name, value));
            proof {
                let after = pairs@;
                assert forall|k: Seq<char>| #[trigger] value_of(after, k, 0) == (if k == name@ {
                    Some(value@)
                } else {
                    value_of(before, k, 0)
                }) by {
                    if k == name@ {
                        lemma_value_of_prefix(before, after, k, 0, i as int);
                    } else {
                        lemma_value_of_same(before, after, k, 0);
                    }
                }
                lemma_pairs_map_insert(before, after, name@, value@);
            }
            return ;
        }
        i = i + 1;
    }
    pairs.push((name, value));
    proof {
        let after = pairs@;
        assert forall|k: Seq<char>| #[trigger] value_of(after, k, 0) == (if k == name@ {
            Some(value@)
        } else {
            value_of(before, k, 0)
        }) by {
            if k == name@ {
                lemma_value_of_prefix(before, after, k, 0, before.len() as int);
            } else {
                lemma_value_of_push(before, after.last(), k, 0);
            }
        }
        lemma_pairs_map_insert(before, after, name@, value@);
    }
}

proof fn lemma_value_of_push<V: View>(a: Seq<(String, V)>, x: (String, V), name: Seq<char>, n: int)
    requires
        0 <= n <= a.len(),
        x.0@ != name,
    ensures
        value_of(a.push(x), name, n) == value_of(a, name, n),
    decreases a.len() - n,
{
    if n < a.len() {
        lemma_value_of_push(a, x, name, n + 1);
    } else {
        assert(value_of(a.push(x), name, n + 1) is None);
    }
}

/// Looks up the value under `name`.
pub fn find_value<'a, V: View>(pairs: &'a Vec<(String, V)>, name: &str) -> (r: Option<&'a V>)
    ensures
        match r {
            Some(v) => value_of(pairs@, name@, 0) == Some(v@),
            None => value_of(pairs@, name@, 0) is None,
        },
{
    let mut i: usize = 0;
    while i < pairs.len()
        invariant
            i <= pairs@.len(),
            value_of(pairs@, name@, 0) == value_of(pairs@, name@, i as int),
        decreases pairs@.len() - i,
    {
        if text_eq(pairs[i].0.as_str(), name) {
            return Some(&pairs[i].1);
        }
        i = i + 1;
    }
    None
}

/// Lists that hold the same names and values, one for one, say the same.
pub proof fn lemma_same_pairs<V: View>(a: Seq<(String, V)>, b: Seq<(String, V)>)
    requires
        a.len() == b.len(),
        forall|i: int| 0 <= i < a.len() ==> (#[trigger] a[i]).0@ == b[i].0@ && a[i].1@ == b[i].1@,
    ensures
        pairs_map(a) == pairs_map(b),
{
    assert forall|name: Seq<char>| #[trigger] value_of(a, name, 0) == value_of(b, name, 0) by {
        lemma_value_of_same(a, b, name, 0);
    }
    assert forall|name: Seq<char>| #[trigger] pairs_map(a).dom().contains(name) == pairs_map(b).dom().contains(
        name,
    ) by {
        assert(value_of(a, name, 0) == value_of(b, name, 0));
    }
    assert forall|name: Seq<char>| #[trigger] pairs_map(a).dom().contains(name) implies pairs_map(a)[name]
        == pairs_map(b)[name] by {
        assert(value_of(a, name, 0) == value_of(b, name, 0));
    }
    assert(pairs_map(a) =~= pairs_map(b));
}

} // verus!
