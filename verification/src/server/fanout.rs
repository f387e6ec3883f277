//! Replicas of the service, and how a change reaches the others.

use crate::relay::route::pair_views;
use crate::text::{dec, decimal, slice_text, to_chars};
use vstd::prelude::*;
use vstd::string::*;

verus! {

/// The value of a decimal digit.
pub open spec fn decimal_digit(c: char) -> Option<int> {
    if '0' <= c <= '9' {
        Some(c as int - '0' as int)
    } else {
        None
    }
}

/// The number that decimal digits write.
pub open spec fn digits_value(s: Seq<char>) -> Option<int>
    decreases s.len(),
{
    if s.len() == 0 {
        Some(0)
    } else {
        match (digits_value(s.drop_last()), decimal_digit(s.last())) {
            (Some(high), Some(low)) => Some(high * 10 + low),
            _ => None,
        }
    }
}

/// The number that a text writes: one or more digits, with or without a plus in front, up to the
/// greatest number that fits.
pub open spec fn parsed(s: Seq<char>) -> Option<int> {
    let digits = if s.len() > 0 && s[0] == '+' {
        s.skip(1)
    } else {
        s
    };
    match digits_value(digits) {
        Some(n) if digits.len() > 0 && n <= usize::MAX => Some(n),
        _ => None,
    }
}

proof fn lemma_digits_grow(s: Seq<char>, n: int)
    requires
        0 <= n <= s.len(),
        digits_value(s) is Some,
    ensures
        digits_value(s.take(n)) is Some,
        0 <= digits_value(s.take(n))->0 <= digits_value(s)->0,
    decreases s.len(),
{
    if n == s.len() {
        assert(s.take(n) =~= s);
        if s.len() > 0 {
            lemma_digits_grow(s.drop_last(), n - 1);
            assert(s.drop_last().take(n - 1) =~= s.drop_last());
        }
    } else {
        lemma_digits_grow(s.drop_last(), n);
        assert(s.drop_last().take(n) =~= s.take(n));
    }
}

/// Reads a number.
pub fn parse_usize(s: &str) -> (r: Option<usize>)
    ensures
        match r {
            Some(n) => parsed(s@) == Some(n as int),
            None => parsed(s@) is None,
        },
{
    let chars = to_chars(s);
    let start: usize = if chars.len() > 0 && chars[0] == '+' { 1 } else { 0 };
    let ghost digits = if s@.len() > 0 && s@[0] == '+' {
        s@.skip(1)
    } else {
        s@
    };
    assert(digits =~= chars@.skip(start as int));
    if start == chars.len() {
        return None;
    }
    let mut value: usize = 0;
    let mut i: usize = start;
    assert(digits.take(0) =~= Seq::<char>::empty());
    while i < chars.len()
        invariant
            start <= i <= chars@.len(),
            digits == chars@.skip(start as int),
            chars@ == s@,
            digits == (if s@.len() > 0 && s@[0] == '+' {
                s@.skip(1)
            } else {
                s@
            }),
            digits_value(digits.take(i - start)) == Some(value as int),
        decreases chars@.len() - i,
    {
        let c = chars[i];
        let ghost next = digits.take(i + 1 - start);
        assert(next.drop_last() =~= digits.take(i - start));
        assert(next.last() == c);
        if !(c >= '0' && c <= '9') {
            proof {
                if digits_value(digits) is Some {
                    lemma_digits_grow(digits, i + 1 - start);
                }
            }
            return None;
        }
        let d: usize = (c as u32 - '0' as u32) as usize;
        let wide: u128 = value as u128 * 10 + d as u128;
        if wide > usize::MAX as u128 {
            proof {
                if digits_value(digits) is Some {
                    lemma_digits_grow(digits, i + 1 - start);
                }
            }
            return None;
        }
        value = wide as usize;
        i = i + 1;
    }
    assert(digits.take(digits.len() as int) =~= digits);
    Some(value)
}

/// Where the last hyphen stands among the first `n` characters.
pub open spec fn last_hyphen(s: Seq<char>, n: int) -> Option<int>
    decreases n,
{
    if n <= 0 {
        None
    } else if s[n - 1] == '-' {
        Some(n - 1)
    } else {
        last_hyphen(s, n - 1)
    }
}

/// What stands behind the last hyphen, or all of the name.
pub open spec fn last_component(s: Seq<char>) -> Seq<char> {
    match last_hyphen(s, s.len() as int) {
        Some(i) => s.skip(i + 1),
        None => s,
    }
}

/// What stands before the last hyphen, or `bitdex`.
pub open spec fn pod_prefix(s: Seq<char>) -> Seq<char> {
    match last_hyphen(s, s.len() as int) {
        Some(i) => s.take(i),
        None => "bitdex"@,
    }
}

fn find_last_hyphen(chars: &Vec<char>) -> (r: Option<usize>)
    ensures
        match r {
            Some(i) => i < chars@.len() && last_hyphen(chars@, chars@.len() as int) == Some(i as int),
            None => last_hyphen(chars@, chars@.len() as int) is None,
        },
{
    let mut n: usize = chars.len();
    while n > 0
        invariant
            n <= chars@.len(),
            last_hyphen(chars@, chars@.len() as int) == last_hyphen(chars@, n as int),
        decreases n,
    {
        if chars[n - 1] == '-' {
            return Some(n - 1);
        }
        n = n - 1;
    }
    None
}

/// The number of a replica: what stands behind the last hyphen of its name, where that is a number.
pub fn parse_pod_ordinal(pod_name: &str) -> (r: Option<usize>)
    ensures
        match r {
            Some(n) => parsed(last_component(pod_name@)) == Some(n as int),
            None => parsed(last_component(pod_name@)) is None,
        },
{
    let chars = to_chars(pod_name);
    let len: usize = chars.len();
    match find_last_hyphen(&chars) {
        Some(i) => {
            let tail = slice_text(&chars, i + 1, len);
            assert(tail@ =~= pod_name@.skip(i + 1));
            parse_usize(tail.as_str())
        },
        None => parse_usize(pod_name),
    }
}

/// Whether a change goes on to the other replicas: it comes from a user, the own name is known, and
/// there are others.
pub fn should_fan_out(origin: Option<&str>, pod_name: Option<&str>, replicas: Option<usize>) -> (r: bool)
    ensures
        r == (origin is None && pod_name is Some && (replicas matches Some(n) && n > 1)),
{
    origin.is_none() && pod_name.is_some() && match replicas {
        Some(n) => n > 1,
        None => false,
    }
}

/// The name of a replica.
pub open spec fn peer_name(prefix: Seq<char>, i: int) -> Seq<char> {
    prefix + "-"@ + dec(i as nat)
}

/// Where a replica takes changes to an index.
pub open spec fn peer_url(pod: Seq<char>, index: Seq<char>) -> Seq<char> {
    "http://"@ + pod + ".bitdex-headless.bitdex.svc.cluster.local:3000/api/indexes/"@ + index + "/config"@
}

/// The first `n` replicas but the `own`-th, and where they take changes.
pub open spec fn peers(prefix: Seq<char>, own: int, index: Seq<char>, n: int) -> Seq<(Seq<char>, Seq<char>)>
    decreases n,
{
    if n <= 0 {
        Seq::empty()
    } else {
        let before = peers(prefix, own, index, n - 1);
        if n - 1 == own {
            before
        } else {
            let pod = peer_name(prefix, n - 1);
            before.push((pod, peer_url(pod, index)))
        }
    }
}

/// Lists the other replicas, and where they take changes: none where the own name has no number.
pub fn peer_urls(own_name: &str, replicas: usize, index: &str) -> (r: Vec<(String, String)>)
    ensures
        pair_views(r@) == (match parsed(last_component(own_name@)) {
            Some(own) => peers(pod_prefix(own_name@), own, index@, replicas as int),
            None => Seq::<(Seq<char>, Seq<char>)>::empty(),
        }),
{
    let mut r: Vec<(String, String)> = Vec::new();
    assert(pair_views(r@) =~= Seq::<(Seq<char>, Seq<char>)>::empty());
    let own = match parse_pod_ordinal(own_name) {
        Some(n) => n,
        None => {
            return r;
        },
    };
    let chars = to_chars(own_name);
    let prefix = match find_last_hyphen(&chars) {
        Some(i) => {
            let p = slice_text(&chars, 0, i);
            assert(p@ =~= own_name@.take(i as int));
            p
        },
        None => "bitdex".to_owned(),
    };
    let mut i: usize = 0;
    while i < replicas
        invariant
            i <= replicas,
            pair_views(r@) == peers(prefix@, own as int, index@, i as int),
        decreases replicas - i,
    {
        if i != own {
            let ghost before = r@;
            let number = decimal(i as u64);
            let pod = prefix.clone().concat("-").concat(number.as_str());
            let url = "http://".to_owned().concat(pod.as_str()).concat(
                ".bitdex-headless.bitdex.svc.cluster.local:3000/api/indexes/",
            ).concat(index).concat("/config");
            r.push((pod, url));
            assert(pair_views(r@) =~= pair_views(before).push(
                (pod@, url@),
            ));
        }
        i = i + 1;
    }
    r
}

/// What became of a change at a replica.
#[derive(Debug)]
pub struct PeerResult {
    pub pod: String,
    pub ok: bool,
    pub error: Option<String>,
}

/// Tells what became of a change at a replica: why it failed, where there is something to say.
pub fn peer_result(pod: String, ok: bool, error: String) -> (r: PeerResult)
    ensures
        r.pod@ == pod@,
        r.ok == ok,
        match r.error {
            Some(e) => !ok && error@.len() > 0 && e@ == error@,
            None => ok || error@.len() == 0,
        },
{
    let shown = if !ok && !error.as_str().is_empty() { Some(error) } else { None };
    PeerResult { pod, ok, error: shown }
}

/// Whom a change was made for: the own name, where it is known.
pub fn applied_to(pod_name: Option<&str>) -> (r: String)
    ensures
        r@ == (match pod_name {
            Some(n) => n@,
            None => "unknown"@,
        }),
{
    match pod_name {
        Some(n) => n.to_owned(),
        None => "unknown".to_owned(),
    }
}

/// What the answer to a change warns of.
pub fn patch_warning() -> (r: &'static str)
    ensures
        r@ == "in-memory only — does not persist across pod restart. For permanent settings, edit ConfigMap in talos-infra and let Flux reconcile."@,
{
    "in-memory only — does not persist across pod restart. For permanent settings, edit ConfigMap in talos-infra and let Flux reconcile."
}

proof fn lemma_peers_len(prefix: Seq<char>, own: int, index: Seq<char>, n: int)
    requires
        0 <= n,
        0 <= own,
    ensures
        peers(prefix, own, index, n).len() == (if own < n {
            n - 1
        } else {
            n
        }),
    decreases n,
{
    if n > 0 {
        lemma_peers_len(prefix, own, index, n - 1);
    }
}

/// Every replica but the own is told, and the own is not: each is told once.
pub proof fn law_every_other_replica_is_told(prefix: Seq<char>, own: int, index: Seq<char>, n: int, i: int)
    requires
        0 <= i < n,
        0 <= own,
        i != own,
    ensures
        peers(prefix, own, index, n).contains((peer_name(prefix, i), peer_url(peer_name(prefix, i), index))),
        own < n ==> peers(prefix, own, index, n).len() == n - 1,
    decreases n,
{
    lemma_peers_len(prefix, own, index, n);
    let all = peers(prefix, own, index, n);
    let before = peers(prefix, own, index, n - 1);
    let it = (peer_name(prefix, i), peer_url(peer_name(prefix, i), index));
    if i == n - 1 {
        assert(all[all.len() - 1] == it);
    } else {
        law_every_other_replica_is_told(prefix, own, index, n - 1, i);
        let k = choose|k: int| 0 <= k < before.len() && before[k] == it;
        assert(all[k] == it);
    }
}

/// A replica reads its own number and the name of its set back from its name.
pub proof fn law_replicas_know_their_number(prefix: Seq<char>, i: nat)
    requires
        i <= usize::MAX,
    ensures
        parsed(last_component(peer_name(prefix, i as int))) == Some(i as int),
        pod_prefix(peer_name(prefix, i as int)) == prefix,
{
    let digits = dec(i);
    let name = peer_name(prefix, i as int);
    reveal_strlit("-");
    lemma_digits_read_back(i);
    let at = prefix.len() as int;
    assert(name[at] == '-');
    assert forall|j: int| at < j < name.len() implies name[j] != '-' by {
        assert(name[j] == digits[j - at - 1]);
        assert(decimal_digit(digits[j - at - 1]) is Some);
    }
    lemma_hyphen_at(name, at, name.len() as int);
    assert(name.skip(at + 1) =~= digits);
    assert(name.take(at) =~= prefix);
    assert(decimal_digit(digits[0]) is Some);
}

proof fn lemma_digits_read_back(n: nat)
    ensures
        dec(n).len() > 0,
        digits_value(dec(n)) == Some(n as int),
        forall|i: int| 0 <= i < dec(n).len() ==> decimal_digit(#[trigger] dec(n)[i]) is Some,
    decreases n,
{
    let s = dec(n);
    if n < 10 {
        assert(s.drop_last() =~= Seq::<char>::empty());
        assert(digits_value(s.drop_last()) == Some(0int));
    } else {
        lemma_digits_read_back(n / 10);
        assert(s.drop_last() =~= dec(n / 10));
        assert forall|i: int| 0 <= i < s.len() implies decimal_digit(#[trigger] s[i]) is Some by {
            if i < dec(n / 10).len() {
                assert(s[i] == dec(n / 10)[i]);
            }
        }
    }
}

proof fn lemma_hyphen_at(s: Seq<char>, at: int, n: int)
    requires
        0 <= at < n <= s.len(),
        s[at] == '-',
        forall|j: int| at < j < n ==> s[j] != '-',
    ensures
        last_hyphen(s, n) == Some(at),
    decreases n,
{
    if n - 1 > at {
        lemma_hyphen_at(s, at, n - 1);
    }
}

/// The replicas are told in the order of their numbers, the own number left out, each by its name and
/// at its own address, which has the index in it.
pub proof fn law_replicas_are_told_in_order(prefix: Seq<char>, own: int, index: Seq<char>, n: int, k: int)
    requires
        0 <= own,
        0 <= k < peers(prefix, own, index, n).len(),
    ensures
        ({
            let number = if k < own { k } else { k + 1 };
            let pod = prefix + "-"@ + dec(number as nat);
            peers(prefix, own, index, n)[k] == (
                pod,
                "http://"@ + pod + ".bitdex-headless.bitdex.svc.cluster.local:3000/api/indexes/"@ + index + "/config"@,
            )
        }),
    decreases n,
{
    if n > 0 {
        lemma_peers_len(prefix, own, index, n - 1);
        if k < peers(prefix, own, index, n - 1).len() {
            law_replicas_are_told_in_order(prefix, own, index, n - 1, k);
        }
    }
}

/// A name without a number in its last part has none; nor does an empty one or one with other
/// characters than digits behind the hyphen.
pub proof fn law_names_without_a_number(s: Seq<char>, c: char)
    requires
        decimal_digit(c) is None,
    ensures
        parsed(Seq::empty()) is None,
        s.len() > 0 || c != '+' ==> parsed(s.push(c)) is None,
        parsed(seq!['+']) is None,
{
    let t = s.push(c);
    assert(t.drop_last() =~= s);
    assert(digits_value(t) is None);
    if s.len() > 0 {
        assert(t.skip(1).last() == c);
        assert(digits_value(t.skip(1)) is None);
    } else {
        assert(t[0] == c);
    }
    assert(seq!['+'].skip(1) =~= Seq::<char>::empty());
}

/// A name without a hyphen belongs to replicas of the usual prefix.
pub proof fn law_names_without_a_prefix(s: Seq<char>)
    requires
        forall|i: int| 0 <= i < s.len() ==> #[trigger] s[i] != '-',
    ensures
        pod_prefix(s) == "bitdex"@,
        last_component(s) == s,
{
    lemma_no_hyphen(s, s.len() as int);
}

proof fn lemma_no_hyphen(s: Seq<char>, n: int)
    requires
        n <= s.len(),
        forall|i: int| 0 <= i < s.len() ==> #[trigger] s[i] != '-',
    ensures
        last_hyphen(s, n) is None,
    decreases n,
{
    if n > 0 {
        assert(s[n - 1] != '-');
        lemma_no_hyphen(s, n - 1);
    }
}

} // verus!
