//! Prefilter registry: named, precomputed filter bitmaps that are put in place of the
//! clauses they stand for.
//!
//! A prefilter is a named clause set whose bitmap is computed once and kept. When the
//! canonical clauses of a query are a superset of those of a prefilter, they are taken out of
//! the query and one bitmap clause takes their place.
//!
//! A kept bitmap is a snapshot: documents that were deleted since still have their bits in
//! it. The substitution therefore intersects it with the slots that are alive.

use crate::bitmap::{bits, intersection};
use crate::query::{
    clone_clauses, lemma_models, models, same_clauses, value_views, ClauseView, FilterClause, Value,
    ValueView,
};
use crate::text::{
    lemma_text_le_antisymmetric, lemma_text_le_total, lemma_text_le_transitive, text_le, text_not_after,
};
use dashmap::DashMap;
use roaring::RoaringBitmap;
use std::collections::hash_map::RandomState;
use std::sync::Arc;
use vstd::prelude::*;
use vstd::string::*;

verus! {

pub const DEFAULT_REFRESH_INTERVAL_SECS: u64 = 300;

pub const MIN_REFRESH_INTERVAL_SECS: u64 = 30;

pub const MAX_REFRESH_INTERVAL_SECS: u64 = 86_400;

pub const MAX_REGISTERED_PREFILTERS: usize = 32;

/// `s` with `x` put behind every value that is not written after it, counted from the end.
pub open spec fn insert_value(s: Seq<ValueView>, x: ValueView) -> Seq<ValueView>
    decreases s.len(),
{
    if s.len() == 0 || text_le(s.last().text(), x.text()) {
        s.push(x)
    } else {
        insert_value(s.drop_last(), x).push(s.last())
    }
}

/// The values in the order of how they are written.
pub open spec fn sorted_values(s: Seq<ValueView>) -> Seq<ValueView>
    decreases s.len(),
{
    if s.len() == 0 {
        Seq::empty()
    } else {
        insert_value(sorted_values(s.drop_last()), s.last())
    }
}

/// The values without those that compare equal to the one kept before them.
pub open spec fn distinct_values(s: Seq<ValueView>) -> Seq<ValueView>
    decreases s.len(),
{
    if s.len() == 0 {
        Seq::empty()
    } else {
        let kept = distinct_values(s.drop_last());
        if kept.len() > 0 && s.last().same(kept.last()) { kept } else { kept.push(s.last()) }
    }
}

proof fn lemma_insert_value_at(s: Seq<ValueView>, x: ValueView, p: int)
    requires
        0 <= p <= s.len(),
        p == 0 || text_le(s[p - 1].text(), x.text()),
        forall|j: int| p <= j < s.len() ==> !text_le((#[trigger] s[j]).text(), x.text()),
    ensures
        insert_value(s, x) == s.insert(p, x),
    decreases s.len(),
{
    if s.len() == 0 || p == s.len() {
        assert(s.insert(p, x) =~= s.push(x));
    } else {
        assert(!text_le(s[s.len() - 1].text(), x.text()));
        lemma_insert_value_at(s.drop_last(), x, p);
        assert(s.insert(p, x) =~= s.drop_last().insert(p, x).push(s.last()));
    }
}

/// Whether `v` is not written after `text`.
fn written_not_after(v: &Value, text: &str) -> (r: bool)
    ensures
        r == text_le(v@.text(), text@),
{
    let own = v.to_text();
    text_not_after(own.as_str(), text)
}

fn sort_values(values: &Vec<Value>) -> (r: Vec<Value>)
    ensures
        value_views(r@) == sorted_values(value_views(values@)),
{
    let ghost all = value_views(values@);
    let mut r: Vec<Value> = Vec::new();
    let mut i: usize = 0;
    assert(all.take(0) =~= Seq::<ValueView>::empty());
    assert(value_views(r@) =~= Seq::<ValueView>::empty());
    while i < values.len()
        invariant
            i <= values@.len(),
            all == value_views(values@),
            value_views(r@) == sorted_values(all.take(i as int)),
        decreases values@.len() - i,
    {
        assert(all.take(i + 1).drop_last() =~= all.take(i as int));
        let x = values[i].clone();
        let ghost xv = x@;
        let text = x.to_text();
        let ghost before = value_views(r@);
        let mut p: usize = r.len();
        while p > 0 && !written_not_after(&r[p - 1], text.as_str())
            invariant
                p <= r@.len(),
                before == value_views(r@),
                text@ == xv.text(),
                forall|j: int| p <= j < before.len() ==> !text_le((#[trigger] before[j]).text(), xv.text()),
            decreases p,
        {
            p = p - 1;
        }
        proof {
            lemma_insert_value_at(before, xv, p as int);
        }
        r.insert(p, x);
        assert(value_views(r@) =~= before.insert(p as int, xv));
        i = i + 1;
    }
    assert(all.take(all.len() as int) =~= all);
    r
}

fn dedup_values(values: &Vec<Value>) -> (r: Vec<Value>)
    ensures
        value_views(r@) == distinct_values(value_views(values@)),
{
    let ghost all = value_views(values@);
    let mut r: Vec<Value> = Vec::new();
    let mut i: usize = 0;
    assert(all.take(0) =~= Seq::<ValueView>::empty());
    assert(value_views(r@) =~= Seq::<ValueView>::empty());
    while i < values.len()
        invariant
            i <= values@.len(),
            all == value_views(values@),
            value_views(r@) == distinct_values(all.take(i as int)),
        decreases values@.len() - i,
    {
        assert(all.take(i + 1).drop_last() =~= all.take(i as int));
        let ghost before = value_views(r@);
        if r.len() == 0 || !values[i].same_as(&r[r.len() - 1]) {
            let x = values[i].clone();
            let ghost xv = x@;
            r.push(x);
            assert(value_views(r@) =~= before.push(xv));
        }
        i = i + 1;
    }
    assert(all.take(all.len() as int) =~= all);
    r
}

/// `s` with `x` put behind every clause that is not written after it, counted from the end.
pub open spec fn insert_clause(s: Seq<ClauseView>, x: ClauseView) -> Seq<ClauseView>
    decreases s.len(),
{
    if s.len() == 0 || text_le(s.last().text(), x.text()) {
        s.push(x)
    } else {
        insert_clause(s.drop_last(), x).push(s.last())
    }
}

/// The clauses in the order of how they are written.
pub open spec fn sorted_clauses(s: Seq<ClauseView>) -> Seq<ClauseView>
    decreases s.len(),
{
    if s.len() == 0 {
        Seq::empty()
    } else {
        insert_clause(sorted_clauses(s.drop_last()), s.last())
    }
}

/// The clauses without those that compare equal to the one kept before them.
pub open spec fn distinct_clauses(s: Seq<ClauseView>) -> Seq<ClauseView>
    decreases s.len(),
{
    if s.len() == 0 {
        Seq::empty()
    } else {
        let kept = distinct_clauses(s.drop_last());
        if kept.len() > 0 && s.last().same(kept.last()) { kept } else { kept.push(s.last()) }
    }
}

/// The canonical form of a clause: value lists sorted without repeats, a double negation
/// taken away, nested conjunctions flattened, sorted and without repeats.
pub open spec fn canonical(c: ClauseView) -> ClauseView
    decreases c, 0int,
{
    match c {
        ClauseView::In(f, vs) => ClauseView::In(f, distinct_values(sorted_values(vs))),
        ClauseView::NotIn(f, vs) => ClauseView::NotIn(f, distinct_values(sorted_values(vs))),
        ClauseView::Not(inner) => match *inner {
            ClauseView::Not(twice) => canonical(*twice),
            _ => ClauseView::Not(Box::new(canonical(*inner))),
        },
        ClauseView::And(cs) => ClauseView::And(distinct_clauses(sorted_clauses(canonical_conjuncts_all(cs)))),
        ClauseView::Or(cs) => ClauseView::Or(canonical_each(cs)),
        _ => c,
    }
}

/// The canonical forms of the clauses.
pub open spec fn canonical_each(cs: Seq<ClauseView>) -> Seq<ClauseView>
    decreases cs, 0int,
{
    if cs.len() == 0 {
        Seq::empty()
    } else {
        canonical_each(cs.drop_last()).push(canonical(cs.last()))
    }
}

/// The canonical forms of what a clause is the conjunction of. What stands under a double negation
/// stands for itself.
pub open spec fn canonical_conjuncts(c: ClauseView) -> Seq<ClauseView>
    decreases c, 1int,
{
    match c {
        ClauseView::And(cs) => canonical_conjuncts_all(cs),
        ClauseView::Not(inner) => match *inner {
            ClauseView::Not(twice) => canonical_conjuncts(*twice),
            _ => seq![canonical(c)],
        },
        _ => seq![canonical(c)],
    }
}

/// The canonical forms of what all of the clauses are the conjunction of.
pub open spec fn canonical_conjuncts_all(cs: Seq<ClauseView>) -> Seq<ClauseView>
    decreases cs, 0int,
{
    if cs.len() == 0 {
        Seq::empty()
    } else {
        canonical_conjuncts_all(cs.drop_last()) + canonical_conjuncts(cs.last())
    }
}

/// The canonical form of a clause set.
pub open spec fn canonical_set(cs: Seq<ClauseView>) -> Seq<ClauseView> {
    distinct_clauses(sorted_clauses(canonical_conjuncts_all(cs)))
}

proof fn lemma_insert_clause_at(s: Seq<ClauseView>, x: ClauseView, p: int)
    requires
        0 <= p <= s.len(),
        p == 0 || text_le(s[p - 1].text(), x.text()),
        forall|j: int| p <= j < s.len() ==> !text_le((#[trigger] s[j]).text(), x.text()),
    ensures
        insert_clause(s, x) == s.insert(p, x),
    decreases s.len(),
{
    if s.len() == 0 || p == s.len() {
        assert(s.insert(p, x) =~= s.push(x));
    } else {
        assert(!text_le(s[s.len() - 1].text(), x.text()));
        lemma_insert_clause_at(s.drop_last(), x, p);
        assert(s.insert(p, x) =~= s.drop_last().insert(p, x).push(s.last()));
    }
}

/// Whether `c` is not written after `text`.
fn clause_not_after(c: &FilterClause, text: &str) -> (r: bool)
    ensures
        r == text_le(c@.text(), text@),
{
    let own = c.to_text();
    text_not_after(own.as_str(), text)
}

fn sort_clauses(clauses: &Vec<FilterClause>) -> (r: Vec<FilterClause>)
    ensures
        models(r@) == sorted_clauses(models(clauses@)),
{
    let ghost all = models(clauses@);
    let mut r: Vec<FilterClause> = Vec::new();
    let mut i: usize = 0;
    proof {
        lemma_models(clauses@);
    }
    assert(all.take(0) =~= Seq::<ClauseView>::empty());
    assert(models(r@) =~= Seq::<ClauseView>::empty());
    while i < clauses.len()
        invariant
            i <= clauses@.len(),
            all == models(clauses@),
            models(r@) == sorted_clauses(all.take(i as int)),
        decreases clauses@.len() - i,
    {
        proof {
            lemma_models(clauses@);
            lemma_models(r@);
        }
        assert(all.take(i + 1).drop_last() =~= all.take(i as int));
        let x = clauses[i].clone();
        let ghost xv = x@;
        assert(all[i as int] == xv);
        let text = x.to_text();
        let ghost before = models(r@);
        let ghost items = r@;
        let mut p: usize = r.len();
        while p > 0 && !clause_not_after(&r[p - 1], text.as_str())
            invariant
                p <= r@.len(),
                r@ == items,
                before.len() == items.len(),
                forall|j: int| 0 <= j < items.len() ==> #[trigger] before[j] == items[j]@,
                text@ == xv.text(),
                forall|j: int| p <= j < before.len() ==> !text_le((#[trigger] before[j]).text(), xv.text()),
            decreases p,
        {
            assert(before[p - 1] == items[p - 1]@);
            p = p - 1;
        }
        proof {
            if p > 0 {
                assert(before[p - 1] == items[p - 1]@);
            }
            lemma_insert_clause_at(before, xv, p as int);
        }
        r.insert(p, x);
        proof {
            lemma_models(r@);
            assert forall|j: int| 0 <= j < r@.len() implies models(r@)[j] == before.insert(p as int, xv)[j] by {
                if j < p {
                    assert(before[j] == items[j]@);
                } else if j > p {
                    assert(before[j - 1] == items[j - 1]@);
                }
            }
        }
        assert(models(r@) =~= before.insert(p as int, xv));
        i = i + 1;
    }
    assert(all.take(all.len() as int) =~= all);
    r
}

fn push_model(r: &mut Vec<FilterClause>, x: FilterClause)
    ensures
        models(final(r)@) == models(old(r)@).push(x@),
{
    let ghost before = r@;
    r.push(x);
    proof {
        lemma_models(before);
        lemma_models(r@);
        assert forall|j: int| 0 <= j < r@.len() implies models(r@)[j] == models(before).push(x@)[j] by {
            if j < before.len() {
                assert(models(before)[j] == before[j]@);
            }
        }
    }
    assert(models(r@) =~= models(before).push(x@));
}

fn dedup_clauses(clauses: &Vec<FilterClause>) -> (r: Vec<FilterClause>)
    ensures
        models(r@) == distinct_clauses(models(clauses@)),
{
    let ghost all = models(clauses@);
    let mut r: Vec<FilterClause> = Vec::new();
    let mut i: usize = 0;
    proof {
        lemma_models(clauses@);
    }
    assert(all.take(0) =~= Seq::<ClauseView>::empty());
    assert(models(r@) =~= Seq::<ClauseView>::empty());
    while i < clauses.len()
        invariant
            i <= clauses@.len(),
            all == models(clauses@),
            models(r@) == distinct_clauses(all.take(i as int)),
        decreases clauses@.len() - i,
    {
        proof {
            lemma_models(clauses@);
            lemma_models(r@);
        }
        assert(all.take(i + 1).drop_last() =~= all.take(i as int));
        assert(all[i as int] == clauses@[i as int]@);
        let keep = r.len() == 0 || !clauses[i].same_as(&r[r.len() - 1]);
        assert(r@.len() > 0 ==> models(r@).last() == r@.last()@);
        if keep {
            push_model(&mut r, clauses[i].clone());
        }
        i = i + 1;
    }
    assert(all.take(all.len() as int) =~= all);
    r
}

/// Canonicalizes a clause: the values of lists sorted and without repeats, nested conjunctions
/// flattened and sorted, and double negations taken away.
pub fn canonicalize_clause(clause: &FilterClause) -> (r: FilterClause)
    ensures
        r@ == canonical(clause@),
    decreases clause, 0int,
{
    match clause {
        FilterClause::In(field, values) => {
            let sorted = sort_values(values);
            FilterClause::In(field.clone(), dedup_values(&sorted))
        },
        FilterClause::NotIn(field, values) => {
            let sorted = sort_values(values);
            FilterClause::NotIn(field.clone(), dedup_values(&sorted))
        },
        FilterClause::Not(inner) => {
            assert(clause@ == ClauseView::Not(Box::new(inner@)));
            match &**inner {
                FilterClause::Not(twice) => {
                    assert(inner@ == ClauseView::Not(Box::new(twice@)));
                    canonicalize_clause(twice)
                },
                _ => {
                    assert(!(inner@ is Not));
                    FilterClause::Not(Box::new(canonicalize_clause(inner)))
                },
            }
        },
        FilterClause::And(children) => {
            let conjuncts = conjuncts_of_all(children);
            let sorted = sort_clauses(&conjuncts);
            FilterClause::And(dedup_clauses(&sorted))
        },
        FilterClause::Or(children) => FilterClause::Or(canonicalize_each(children)),
        _ => clause.clone(),
    }
}

fn canonicalize_each(clauses: &Vec<FilterClause>) -> (r: Vec<FilterClause>)
    ensures
        models(r@) == canonical_each(models(clauses@)),
    decreases clauses, 0int,
{
    let ghost all = models(clauses@);
    let mut r: Vec<FilterClause> = Vec::new();
    let mut i: usize = 0;
    proof {
        lemma_models(clauses@);
    }
    assert(all.take(0) =~= Seq::<ClauseView>::empty());
    assert(models(r@) =~= Seq::<ClauseView>::empty());
    while i < clauses.len()
        invariant
            i <= clauses@.len(),
            all == models(clauses@),
            models(r@) == canonical_each(all.take(i as int)),
        decreases clauses@.len() - i,
    {
        proof {
            lemma_models(clauses@);
        }
        assert(all.take(i + 1).drop_last() =~= all.take(i as int));
        assert(all[i as int] == clauses@[i as int]@);
        push_model(&mut r, canonicalize_clause(&clauses[i]));
        i = i + 1;
    }
    assert(all.take(all.len() as int) =~= all);
    r
}

fn push_conjuncts(clause: &FilterClause, out: &mut Vec<FilterClause>)
    ensures
        models(final(out)@) == models(old(out)@) + canonical_conjuncts(clause@),
    decreases clause, 1int,
{
    match clause {
        FilterClause::And(children) => {
            push_conjuncts_of_all(children, out);
            return;
        },
        FilterClause::Not(inner) => {
            assert(clause@ == ClauseView::Not(Box::new(inner@)));
            match &**inner {
                FilterClause::Not(twice) => {
                    assert(inner@ == ClauseView::Not(Box::new(twice@)));
                    push_conjuncts(twice, out);
                    return;
                },
                _ => {
                    assert(!(inner@ is Not));
                },
            }
        },
        _ => {},
    }
    let ghost before = models(out@);
    let c = canonicalize_clause(clause);
    let ghost cv = c@;
    push_model(out, c);
    assert(canonical_conjuncts(clause@) == seq![cv]);
    assert(models(out@) =~= before + seq![cv]);
}

fn push_conjuncts_of_all(clauses: &Vec<FilterClause>, out: &mut Vec<FilterClause>)
    ensures
        models(final(out)@) == models(old(out)@) + canonical_conjuncts_all(models(clauses@)),
    decreases clauses, 0int,
{
    let ghost all = models(clauses@);
    let ghost start = models(out@);
    let mut i: usize = 0;
    proof {
        lemma_models(clauses@);
    }
    assert(all.take(0) =~= Seq::<ClauseView>::empty());
    assert(start =~= start + canonical_conjuncts_all(all.take(0)));
    while i < clauses.len()
        invariant
            i <= clauses@.len(),
            all == models(clauses@),
            models(out@) == start + canonical_conjuncts_all(all.take(i as int)),
        decreases clauses@.len() - i,
    {
        proof {
            lemma_models(clauses@);
        }
        assert(all.take(i + 1).drop_last() =~= all.take(i as int));
        assert(all[i as int] == clauses@[i as int]@);
        push_conjuncts(&clauses[i], out);
        assert(models(out@) =~= start + canonical_conjuncts_all(all.take(i + 1)));
        i = i + 1;
    }
    assert(all.take(all.len() as int) =~= all);
}

fn conjuncts_of_all(clauses: &Vec<FilterClause>) -> (r: Vec<FilterClause>)
    ensures
        models(r@) == canonical_conjuncts_all(models(clauses@)),
    decreases clauses, 1int,
{
    let mut r: Vec<FilterClause> = Vec::new();
    assert(models(r@) =~= Seq::<ClauseView>::empty());
    push_conjuncts_of_all(clauses, &mut r);
    assert(models(r@) =~= canonical_conjuncts_all(models(clauses@)));
    r
}

/// Canonicalizes a clause set for structural matching: double negations taken away, nested `And`
/// flattened, also where it stood under a double negation, value lists sorted, children
/// canonicalized, then sorted without repeats. No `And` is left at the top. The children of `Or`
/// keep their order.
pub fn canonicalize_clauses(clauses: &Vec<FilterClause>) -> (r: Vec<FilterClause>)
    ensures
        models(r@) == canonical_set(models(clauses@)),
{
    let conjuncts = conjuncts_of_all(clauses);
    let sorted = sort_clauses(&conjuncts);
    dedup_clauses(&sorted)
}

/// A named precomputed filter result.
#[derive(Debug)]
pub struct PrefilterEntry {
    pub name: String,
    /// Canonical clause set.
    pub clauses: Vec<FilterClause>,
    /// The precomputed bitmap: the conjunction of the clauses.
    pub bitmap: Arc<RoaringBitmap>,
    pub refresh_interval_secs: u64,
    /// Unix seconds of the last successful refresh.
    pub last_refreshed: i64,
    /// Nanoseconds spent on the last compute.
    pub compute_duration_nanos: u64,
    /// Number of slots in the bitmap.
    pub cardinality: u64,
    pub refresh_errors: u64,
    /// How many queries this prefilter was put into.
    pub substitutions: u64,
}

/// An entry as a mathematical value.
pub struct EntryView {
    pub name: Seq<char>,
    pub clauses: Seq<ClauseView>,
    pub slots: Set<u32>,
    pub refresh_interval_secs: u64,
    pub last_refreshed: i64,
    pub compute_duration_nanos: u64,
    pub cardinality: u64,
    pub refresh_errors: u64,
    pub substitutions: u64,
}

impl View for PrefilterEntry {
    type V = EntryView;

    open spec fn view(&self) -> EntryView {
        EntryView {
            name: self.name@,
            clauses: models(self.clauses@),
            slots: bits(*self.bitmap),
            refresh_interval_secs: self.refresh_interval_secs,
            last_refreshed: self.last_refreshed,
            compute_duration_nanos: self.compute_duration_nanos,
            cardinality: self.cardinality,
            refresh_errors: self.refresh_errors,
            substitutions: self.substitutions,
        }
    }
}

impl EntryView {
    /// The count is that of the bitmap, and the interval is within its bounds.
    pub open spec fn wf(self) -> bool {
        &&& self.cardinality == self.slots.len()
        &&& MIN_REFRESH_INTERVAL_SECS <= self.refresh_interval_secs <= MAX_REFRESH_INTERVAL_SECS
    }

    /// The entry with the bitmap of a refresh at `now`.
    pub open spec fn refreshed(self, slots: Set<u32>, compute_duration_nanos: u64, now: i64) -> EntryView {
        EntryView {
            slots,
            cardinality: slots.len() as u64,
            compute_duration_nanos,
            last_refreshed: now,
            ..self
        }
    }

    /// Whether the entry is due for a refresh at `now`.
    pub open spec fn stale(self, now: i64) -> bool {
        now - self.last_refreshed >= self.refresh_interval_secs
    }
}

impl Clone for PrefilterEntry {
    fn clone(&self) -> (r: Self)
        ensures
            r@ == self@,
    {
        PrefilterEntry {
            name: self.name.clone(),
            clauses: clone_clauses(&self.clauses),
            bitmap: self.bitmap.clone(),
            refresh_interval_secs: self.refresh_interval_secs,
            last_refreshed: self.last_refreshed,
            compute_duration_nanos: self.compute_duration_nanos,
            cardinality: self.cardinality,
            refresh_errors: self.refresh_errors,
            substitutions: self.substitutions,
        }
    }
}

impl PrefilterEntry {
    /// Number of slots in the bitmap.
    pub fn cardinality(&self) -> (r: u64)
        ensures
            r == self@.cardinality,
    {
        self.cardinality
    }

    /// Unix seconds of the last successful refresh.
    pub fn last_refreshed(&self) -> (r: i64)
        ensures
            r == self@.last_refreshed,
    {
        self.last_refreshed
    }

    /// Seconds between refreshes.
    pub fn refresh_interval_secs(&self) -> (r: u64)
        ensures
            r == self@.refresh_interval_secs,
    {
        self.refresh_interval_secs
    }

    /// Whole milliseconds spent on the last compute.
    pub fn compute_ms(&self) -> (r: u64)
        ensures
            r == self@.compute_duration_nanos / 1_000_000,
    {
        self.compute_duration_nanos / 1_000_000
    }

    /// How many refreshes failed.
    pub fn refresh_errors(&self) -> (r: u64)
        ensures
            r == self@.refresh_errors,
    {
        self.refresh_errors
    }

    /// How many queries this prefilter was put into.
    pub fn substitutions(&self) -> (r: u64)
        ensures
            r == self@.substitutions,
    {
        self.substitutions
    }

    /// Whether the entry is due for a refresh.
    pub fn is_stale(&self, now_unix: i64) -> (r: bool)
        ensures
            r == self@.stale(now_unix),
    {
        (now_unix as i128) - (self.last_refreshed as i128) >= (self.refresh_interval_secs as i128)
    }

    /// Puts a fresh bitmap in place at `now_unix`. Holders of the old bitmap keep reading it.
    pub fn publish_refresh(&mut self, bitmap: RoaringBitmap, compute_duration_nanos: u64, now_unix: i64)
        ensures
            final(self)@ == old(self)@.refreshed(bits(bitmap), compute_duration_nanos, now_unix),
            final(self)@.cardinality == bits(bitmap).len(),
            old(self)@.wf() ==> final(self)@.wf(),
    {
        let count = bitmap.len();
        self.bitmap = Arc::new(bitmap);
        self.cardinality = count;
        self.compute_duration_nanos = compute_duration_nanos;
        self.last_refreshed = now_unix;
    }
}

/// What a listing says of an entry.
#[derive(Debug, Clone)]
pub struct PrefilterInfo {
    pub name: String,
    pub cardinality: u64,
    pub last_refreshed: i64,
    pub refresh_interval_secs: u64,
    pub last_compute_ms: u64,
    pub refresh_errors: u64,
    pub substitutions: u64,
    pub clauses: Vec<FilterClause>,
}

/// Why a registration was refused.
#[derive(Debug)]
pub enum RegistryError {
    RegistryFull(usize),
    InvalidClauses(String),
}

impl RegistryError {
    /// How the error is written.
    pub open spec fn text(self) -> Seq<char> {
        match self {
            RegistryError::RegistryFull(n) => "prefilter registry full (max="@ + crate::text::dec(n as nat) + ")"@,
            RegistryError::InvalidClauses(s) => "invalid clause set: "@ + s@,
        }
    }

    /// Writes the error.
    pub fn to_text(&self) -> (r: String)
        ensures
            r@ == self.text(),
    {
        match self {
            RegistryError::RegistryFull(n) => {
                let digits = crate::text::decimal(*n as u64);
                "prefilter registry full (max=".to_owned().concat(digits.as_str()).concat(")")
            },
            RegistryError::InvalidClauses(s) => "invalid clause set: ".to_owned().concat(s.as_str()),
        }
    }
}

/// A concurrent map.
#[verifier::external_type_specification]
#[verifier::external_body]
#[verifier::reject_recursive_types(K)]
#[verifier::reject_recursive_types(V)]
#[verifier::reject_recursive_types(S)]
pub struct ExDashMap<K, V, S>(dashmap::DashMap<K, V, S>);

/// The entries that a map holds, by name.
pub uninterp spec fn registered(map: DashMap<String, PrefilterEntry, RandomState>) -> Map<Seq<char>, EntryView>;

/// `DashMap::new` makes a map without entries.
#[verifier::external_body]
fn map_new() -> (r: DashMap<String, PrefilterEntry, RandomState>)
    ensures
        registered(r).dom() == Set::<Seq<char>>::empty(),
{
    DashMap::new()
}

/// `DashMap::insert` puts the value under the key, in place of any that was there.
#[verifier::external_body]
fn map_insert(map: &mut DashMap<String, PrefilterEntry, RandomState>, name: String, entry: PrefilterEntry)
    ensures
        registered(*final(map)) == registered(*old(map)).insert(name@, entry@),
{
    map.insert(name, entry);
}

/// `DashMap::remove` takes the key out, and says whether it was there.
#[verifier::external_body]
fn map_remove(map: &mut DashMap<String, PrefilterEntry, RandomState>, name: &str) -> (r: bool)
    ensures
        registered(*final(map)) == registered(*old(map)).remove(name@),
        r == registered(*old(map)).contains_key(name@),
{
    map.remove(name).is_some()
}

/// `DashMap::get` finds the value under the key; a copy of it is handed out.
#[verifier::external_body]
fn map_get(map: &DashMap<String, PrefilterEntry, RandomState>, name: &str) -> (r: Option<PrefilterEntry>)
    ensures
        r is Some == registered(*map).contains_key(name@),
        r matches Some(e) ==> e@ == registered(*map)[name@],
{
    map.get(name).map(|r| r.value().clone())
}

/// `DashMap::contains_key` says whether the key is there.
#[verifier::external_body]
fn map_contains(map: &DashMap<String, PrefilterEntry, RandomState>, name: &str) -> (r: bool)
    ensures
        r == registered(*map).contains_key(name@),
{
    map.contains_key(name)
}

/// `DashMap::len` is the number of keys.
#[verifier::external_body]
fn map_len(map: &DashMap<String, PrefilterEntry, RandomState>) -> (r: usize)
    ensures
        r == registered(*map).dom().len(),
        (r == 0) == (registered(*map).dom() == Set::<Seq<char>>::empty()),
{
    map.len()
}

/// Whether `list` holds each entry of `map` once, in some order.
pub open spec fn lists_all(list: Seq<PrefilterEntry>, map: Map<Seq<char>, EntryView>) -> bool {
    exists|names: Seq<Seq<char>>|
        {
            &&& names.len() == list.len()
            &&& #[trigger] names.no_duplicates()
            &&& names.to_set() == map.dom()
            &&& forall|i: int| 0 <= i < list.len() ==> #[trigger] list[i]@ == map[names[i]]
        }
}

/// `DashMap::iter` walks every entry once, in no particular order; copies are handed out.
#[verifier::external_body]
fn map_values(map: &DashMap<String, PrefilterEntry, RandomState>) -> (r: Vec<PrefilterEntry>)
    ensures
        lists_all(r@, registered(*map)),
{
    map.iter().map(|r| r.value().clone()).collect()
}

/// The registered prefilters.
pub struct PrefilterRegistry {
    entries: DashMap<String, PrefilterEntry, RandomState>,
    max_entries: usize,
}

/// Whether `name` may be registered: it is there already, or there is room.
pub open spec fn has_room(entries: Map<Seq<char>, EntryView>, max: usize, name: Seq<char>) -> bool {
    entries.contains_key(name) || entries.dom().len() < max
}

/// The refresh interval that a request for `secs` gets.
pub open spec fn clamped_interval(secs: u64) -> u64 {
    if secs < MIN_REFRESH_INTERVAL_SECS {
        MIN_REFRESH_INTERVAL_SECS
    } else if secs > MAX_REFRESH_INTERVAL_SECS {
        MAX_REFRESH_INTERVAL_SECS
    } else {
        secs
    }
}

/// The first of `qcs` from `k` on that compares equal to `p` and is not in `used`.
pub open spec fn first_free(qcs: Seq<ClauseView>, p: ClauseView, used: Seq<int>, k: int) -> Option<int>
    decreases qcs.len() - k,
{
    if k >= qcs.len() {
        None
    } else if !used.contains(k) && qcs[k].same(p) {
        Some(k)
    } else {
        first_free(qcs, p, used, k + 1)
    }
}

/// The query clauses that the first `n` prefilter clauses are matched with, each with the
/// first that is still free.
pub open spec fn matched(pcs: Seq<ClauseView>, qcs: Seq<ClauseView>, n: int) -> Option<Seq<int>>
    decreases n,
{
    if n <= 0 {
        Some(Seq::empty())
    } else {
        match matched(pcs, qcs, n - 1) {
            Some(m) => match first_free(qcs, pcs[n - 1], m, 0) {
                Some(i) => Some(m.push(i)),
                None => None,
            },
            None => None,
        }
    }
}

/// The query clauses that stand for the prefilter clauses `pcs`, if all of them are there.
pub open spec fn subset(pcs: Seq<ClauseView>, qcs: Seq<ClauseView>) -> Option<Seq<int>> {
    if pcs.len() == 0 || pcs.len() > qcs.len() { None } else { matched(pcs, qcs, pcs.len() as int) }
}

/// Whether `list` holds the positions `m`, in ascending order.
pub open spec fn ascending_of(list: Seq<usize>, m: Seq<int>) -> bool {
    &&& list.len() == m.len()
    &&& forall|i: int, j: int| 0 <= i < j < list.len() ==> list[i] < list[j]
    &&& forall|i: int| 0 <= i < list.len() ==> m.contains(#[trigger] list[i] as int)
    &&& forall|x: int| #[trigger] m.contains(x) ==> exists|i: int| 0 <= i < list.len() && list[i] == x
}

proof fn lemma_first_free(qcs: Seq<ClauseView>, p: ClauseView, used: Seq<int>, k: int)
    requires
        0 <= k,
    ensures
        first_free(qcs, p, used, k) matches Some(i) ==> k <= i < qcs.len() && !used.contains(i) && qcs[i].same(p),
    decreases qcs.len() - k,
{
    if k < qcs.len() {
        lemma_first_free(qcs, p, used, k + 1);
    }
}

proof fn lemma_matched(pcs: Seq<ClauseView>, qcs: Seq<ClauseView>, n: int)
    requires
        0 <= n <= pcs.len(),
    ensures
        matched(pcs, qcs, n) matches Some(m) ==> {
            &&& m.len() == n
            &&& m.no_duplicates()
            &&& forall|i: int| 0 <= i < n ==> 0 <= #[trigger] m[i] < qcs.len() && qcs[m[i]].same(pcs[i])
        },
    decreases n,
{
    if n > 0 {
        lemma_matched(pcs, qcs, n - 1);
        match matched(pcs, qcs, n - 1) {
            Some(m) => {
                lemma_first_free(qcs, pcs[n - 1], m, 0);
            },
            None => {},
        }
    }
}

/// Checks whether every clause of `prefilter_clauses` appears in `query_clauses`, both
/// canonical, and returns the matched positions in ascending order.
pub fn subset_match(prefilter_clauses: &Vec<FilterClause>, query_clauses: &Vec<FilterClause>) -> (r: Option<
    Vec<usize>,
>)
    ensures
        match r {
            Some(list) => subset(models(prefilter_clauses@), models(query_clauses@)) is Some && ascending_of(
                list@,
                subset(models(prefilter_clauses@), models(query_clauses@))->0,
            ),
            None => subset(models(prefilter_clauses@), models(query_clauses@)) is None,
        },
{
    let ghost pcs = models(prefilter_clauses@);
    let ghost qcs = models(query_clauses@);
    proof {
        lemma_models(prefilter_clauses@);
        lemma_models(query_clauses@);
    }
    if prefilter_clauses.len() == 0 || prefilter_clauses.len() > query_clauses.len() {
        return None;
    }
    let mut used: Vec<bool> = Vec::new();
    let mut k: usize = 0;
    while k < query_clauses.len()
        invariant
            k <= query_clauses@.len(),
            used@.len() == k,
            forall|j: int| 0 <= j < k ==> !(#[trigger] used@[j]),
        decreases query_clauses@.len() - k,
    {
        used.push(false);
        k = k + 1;
    }
    let ghost mut m: Seq<int> = Seq::empty();
    let mut n: usize = 0;
    while n < prefilter_clauses.len()
        invariant
            n <= prefilter_clauses@.len(),
            pcs == models(prefilter_clauses@),
            qcs == models(query_clauses@),
            pcs.len() == prefilter_clauses@.len(),
            qcs.len() == query_clauses@.len(),
            0 < pcs.len() <= qcs.len(),
            matched(pcs, qcs, n as int) == Some(m),
            used@.len() == qcs.len(),
            forall|j: int| 0 <= j < qcs.len() ==> (#[trigger] used@[j] <==> m.contains(j)),
        decreases prefilter_clauses@.len() - n,
    {
        proof {
            lemma_models(prefilter_clauses@);
            lemma_models(query_clauses@);
        }
        assert(pcs[n as int] == prefilter_clauses@[n as int]@);
        let ghost whole = matched(pcs, qcs, pcs.len() as int);
        let mut i: usize = 0;
        while i < query_clauses.len() && (used[i] || !query_clauses[i].same_as(&prefilter_clauses[n]))
            invariant
                i <= query_clauses@.len(),
                n < prefilter_clauses@.len(),
                used@.len() == qcs.len(),
                qcs.len() == query_clauses@.len(),
                forall|j: int| 0 <= j < qcs.len() ==> #[trigger] qcs[j] == query_clauses@[j]@,
                pcs[n as int] == prefilter_clauses@[n as int]@,
                forall|j: int| 0 <= j < qcs.len() ==> (#[trigger] used@[j] <==> m.contains(j)),
                first_free(qcs, pcs[n as int], m, 0) == first_free(qcs, pcs[n as int], m, i as int),
            decreases query_clauses@.len() - i,
        {
            assert(used@[i as int] <==> m.contains(i as int));
            i = i + 1;
        }
        if i >= query_clauses.len() {
            proof {
                assert(matched(pcs, qcs, n + 1) is None);
                lemma_matched_fails(pcs, qcs, n + 1, pcs.len() as int);
            }
            return None;
        }
        assert(used@[i as int] <==> m.contains(i as int));
        assert(qcs[i as int] == query_clauses@[i as int]@);
        used.set(i, true);
        proof {
            let before = m;
            m = m.push(i as int);
            assert forall|j: int| 0 <= j < qcs.len() implies (#[trigger] used@[j] <==> m.contains(j)) by {
                if j == i {
                    assert(m[before.len() as int] == j);
                } else {
                    if before.contains(j) {
                        let a = choose|a: int| 0 <= a < before.len() && before[a] == j;
                        assert(m[a] == j);
                    }
                    if m.contains(j) {
                        let a = choose|a: int| 0 <= a < m.len() && m[a] == j;
                        assert(before[a] == j);
                    }
                }
            }
        }
        n = n + 1;
    }
    let mut list: Vec<usize> = Vec::new();
    let mut i: usize = 0;
    while i < used.len()
        invariant
            i <= used@.len(),
            used@.len() == qcs.len(),
            forall|j: int| 0 <= j < qcs.len() ==> (#[trigger] used@[j] <==> m.contains(j)),
            forall|a: int, b: int| 0 <= a < b < list@.len() ==> list@[a] < list@[b],
            forall|a: int| 0 <= a < list@.len() ==> (#[trigger] list@[a]) < i && m.contains(list@[a] as int),
            forall|x: int| 0 <= x < i && #[trigger] m.contains(x) ==> exists|a: int| 0 <= a < list@.len() && list@[a] == x,
        decreases used@.len() - i,
    {
        let ghost before = list@;
        assert(used@[i as int] <==> m.contains(i as int));
        if used[i] {
            list.push(i);
            assert forall|x: int| 0 <= x < i + 1 && #[trigger] m.contains(x) implies exists|a: int|
                0 <= a < list@.len() && list@[a] == x by {
                if x == i {
                    assert(list@[before.len() as int] == x);
                } else {
                    let a = choose|a: int| 0 <= a < before.len() && before[a] == x;
                    assert(list@[a] == x);
                }
            }
        }
        i = i + 1;
    }
    proof {
        lemma_matched(pcs, qcs, pcs.len() as int);
        lemma_same_len(list@, m);
    }
    Some(list)
}

proof fn lemma_matched_fails(pcs: Seq<ClauseView>, qcs: Seq<ClauseView>, a: int, b: int)
    requires
        matched(pcs, qcs, a) is None,
        a <= b,
    ensures
        matched(pcs, qcs, b) is None,
    decreases b - a,
{
    if a < b {
        lemma_matched_fails(pcs, qcs, a, b - 1);
        if b <= 0 {
            assert(matched(pcs, qcs, a) is Some);
        }
    }
}

proof fn lemma_same_len(list: Seq<usize>, m: Seq<int>)
    requires
        m.no_duplicates(),
        forall|a: int, b: int| 0 <= a < b < list.len() ==> list[a] < list[b],
        forall|a: int| 0 <= a < list.len() ==> m.contains(#[trigger] list[a] as int),
        forall|x: int| #[trigger] m.contains(x) ==> exists|a: int| 0 <= a < list.len() && list[a] == x,
    ensures
        list.len() == m.len(),
{
    let ints = Seq::new(list.len(), |i: int| list[i] as int);
    assert(ints.no_duplicates()) by {
        assert forall|i: int, j: int| 0 <= i < ints.len() && 0 <= j < ints.len() && i != j implies ints[i]
            != ints[j] by {
            if i < j {
                assert(list[i] < list[j]);
            } else {
                assert(list[j] < list[i]);
            }
        }
    }
    assert(ints.to_set() =~= m.to_set()) by {
        assert forall|x: int| ints.to_set().contains(x) <==> m.to_set().contains(x) by {
            if ints.contains(x) {
                let a = choose|a: int| 0 <= a < ints.len() && ints[a] == x;
                assert(m.contains(list[a] as int));
            }
            if m.contains(x) {
                let a = choose|a: int| 0 <= a < list.len() && list[a] == x;
                assert(ints[a] == x);
            }
        }
    }
    ints.unique_seq_to_set();
    m.unique_seq_to_set();
}

impl PrefilterRegistry {
    /// The registered prefilters, by name.
    pub closed spec fn map(self) -> Map<Seq<char>, EntryView> {
        registered(self.entries)
    }

    /// How many prefilters may be registered.
    pub closed spec fn limit(self) -> usize {
        self.max_entries
    }

    /// No more entries than the limit, each well-formed and under its own name.
    pub open spec fn wf(self) -> bool {
        &&& self.map().dom().finite()
        &&& self.map().dom().len() <= self.limit()
        &&& forall|k: Seq<char>| #[trigger]
            self.map().contains_key(k) ==> self.map()[k].wf() && self.map()[k].name == k
    }

    /// A registry without entries, with room for [`MAX_REGISTERED_PREFILTERS`].
    pub fn new() -> (r: Self)
        ensures
            r.wf(),
            r.map().dom() == Set::<Seq<char>>::empty(),
            r.limit() == MAX_REGISTERED_PREFILTERS,
    {
        PrefilterRegistry::with_limit(MAX_REGISTERED_PREFILTERS)
    }

    /// A registry without entries, with room for `max_entries`.
    pub fn with_limit(max_entries: usize) -> (r: Self)
        ensures
            r.wf(),
            r.map().dom() == Set::<Seq<char>>::empty(),
            r.limit() == max_entries,
    {
        PrefilterRegistry { entries: map_new(), max_entries }
    }

    /// How many prefilters are registered.
    pub fn len(&self) -> (r: usize)
        ensures
            r == self.map().dom().len(),
    {
        map_len(&self.entries)
    }

    /// Whether none is registered.
    pub fn is_empty(&self) -> (r: bool)
        ensures
            r == (self.map().dom() == Set::<Seq<char>>::empty()),
    {
        map_len(&self.entries) == 0
    }

    /// The prefilter named `name`.
    pub fn get(&self, name: &str) -> (r: Option<PrefilterEntry>)
        ensures
            match r {
                Some(e) => self.map().contains_key(name@) && e@ == self.map()[name@],
                None => !self.map().contains_key(name@),
            },
    {
        map_get(&self.entries, name)
    }

    /// Takes the prefilter named `name` out, and says whether it was there.
    pub fn remove(&mut self, name: &str) -> (r: bool)
        requires
            old(self).wf(),
        ensures
            final(self).wf(),
            final(self).limit() == old(self).limit(),
            final(self).map() == old(self).map().remove(name@),
            r == old(self).map().contains_key(name@),
    {
        let r = map_remove(&mut self.entries, name);
        assert(self.map().dom() =~= old(self).map().dom().remove(name@));
        r
    }

    /// Registers a prefilter at `now_unix`. An entry of the same name is replaced. The clauses
    /// are canonicalized first, so that matching is a plain comparison.
    pub fn insert(
        &mut self,
        name: String,
        clauses: Vec<FilterClause>,
        bitmap: RoaringBitmap,
        refresh_interval_secs: u64,
        compute_duration_nanos: u64,
        now_unix: i64,
    ) -> (r: Result<PrefilterEntry, RegistryError>)
        requires
            old(self).wf(),
        ensures
            final(self).wf(),
            final(self).limit() == old(self).limit(),
            match r {
                Ok(e) => {
                    &&& clauses@.len() > 0
                    &&& canonical_set(models(clauses@)).len() > 0
                    &&& has_room(old(self).map(), old(self).limit(), name@)
                    &&& final(self).map() == old(self).map().insert(name@, e@)
                    &&& e@ == (EntryView {
                        name: name@,
                        clauses: canonical_set(models(clauses@)),
                        slots: bits(bitmap),
                        refresh_interval_secs: clamped_interval(refresh_interval_secs),
                        last_refreshed: now_unix,
                        compute_duration_nanos,
                        cardinality: e@.cardinality,
                        refresh_errors: 0,
                        substitutions: 0,
                    })
                    &&& e@.cardinality == bits(bitmap).len()
                },
                Err(RegistryError::InvalidClauses(message)) => {
                    &&& final(self).map() == old(self).map()
                    &&& if clauses@.len() == 0 {
                        message@ == "clause list is empty"@
                    } else {
                        canonical_set(models(clauses@)).len() == 0 && message@
                            == "clauses reduced to empty after canonicalization"@
                    }
                },
                Err(RegistryError::RegistryFull(n)) => {
                    &&& final(self).map() == old(self).map()
                    &&& n == old(self).limit()
                    &&& clauses@.len() > 0
                    &&& canonical_set(models(clauses@)).len() > 0
                    &&& !has_room(old(self).map(), old(self).limit(), name@)
                },
            },
    {
        let interval: u64 = if refresh_interval_secs < MIN_REFRESH_INTERVAL_SECS {
            MIN_REFRESH_INTERVAL_SECS
        } else if refresh_interval_secs > MAX_REFRESH_INTERVAL_SECS {
            MAX_REFRESH_INTERVAL_SECS
        } else {
            refresh_interval_secs
        };
        if clauses.len() == 0 {
            return Err(RegistryError::InvalidClauses("clause list is empty".to_owned()));
        }
        let canonical_clauses = canonicalize_clauses(&clauses);
        proof {
            lemma_models(canonical_clauses@);
        }
        if canonical_clauses.len() == 0 {
            return Err(
                RegistryError::InvalidClauses("clauses reduced to empty after canonicalization".to_owned()),
            );
        }
        if !map_contains(&self.entries, name.as_str()) && map_len(&self.entries) >= self.max_entries {
            return Err(RegistryError::RegistryFull(self.max_entries));
        }
        let cardinality = bitmap.len();
        let entry = PrefilterEntry {
            name: name.clone(),
            clauses: canonical_clauses,
            bitmap: Arc::new(bitmap),
            refresh_interval_secs: interval,
            last_refreshed: now_unix,
            compute_duration_nanos,
            cardinality,
            refresh_errors: 0,
            substitutions: 0,
        };
        let copy = entry.clone();
        map_insert(&mut self.entries, name, entry);
        assert(self.map().dom() =~= old(self).map().dom().insert(name@));
        Ok(copy)
    }

    /// Puts a fresh bitmap in place for the prefilter named `name`, and says whether it is
    /// registered. Holders of the old bitmap keep reading it.
    pub fn publish_refresh(
        &mut self,
        name: &str,
        bitmap: RoaringBitmap,
        compute_duration_nanos: u64,
        now_unix: i64,
    ) -> (r: bool)
        requires
            old(self).wf(),
        ensures
            final(self).wf(),
            final(self).limit() == old(self).limit(),
            r == old(self).map().contains_key(name@),
            final(self).map() == if r {
                old(self).map().insert(
                    name@,
                    old(self).map()[name@].refreshed(bits(bitmap), compute_duration_nanos, now_unix),
                )
            } else {
                old(self).map()
            },
    {
        match map_get(&self.entries, name) {
            Some(found) => {
                let mut entry = found;
                entry.publish_refresh(bitmap, compute_duration_nanos, now_unix);
                let key = entry.name.clone();
                map_insert(&mut self.entries, key, entry);
                assert(self.map().dom() =~= old(self).map().dom());
                true
            },
            None => false,
        }
    }

    /// Counts a refresh that failed for the prefilter named `name`, and says whether it is
    /// registered.
    pub fn record_refresh_error(&mut self, name: &str) -> (r: bool)
        requires
            old(self).wf(),
        ensures
            final(self).wf(),
            final(self).limit() == old(self).limit(),
            r == old(self).map().contains_key(name@),
            final(self).map() == if r {
                old(self).map().insert(name@, failed_once_more(old(self).map()[name@]))
            } else {
                old(self).map()
            },
    {
        match map_get(&self.entries, name) {
            Some(found) => {
                let mut entry = found;
                entry.refresh_errors = if entry.refresh_errors == u64::MAX { 0 } else { entry.refresh_errors + 1 };
                let key = entry.name.clone();
                map_insert(&mut self.entries, key, entry);
                assert(self.map().dom() =~= old(self).map().dom());
                true
            },
            None => false,
        }
    }

    /// Makes room for `limit` prefilters. Where more are registered, as many are taken out as are
    /// too many; those that stay are left as they are.
    pub fn set_limit(&mut self, limit: usize)
        requires
            old(self).wf(),
        ensures
            final(self).wf(),
            final(self).limit() == limit,
            final(self).map().submap_of(old(self).map()),
            final(self).map().dom().len() == (if limit < old(self).map().dom().len() {
                limit as nat
            } else {
                old(self).map().dom().len()
            }),
            limit >= old(self).map().dom().len() ==> final(self).map() == old(self).map(),
    {
        let entries = self.entries();
        let ghost before = self.map();
        let ghost names = choose|names: Seq<Seq<char>>|
            {
                &&& names.len() == entries@.len()
                &&& #[trigger] names.no_duplicates()
                &&& names.to_set() == before.dom()
                &&& forall|i: int| 0 <= i < entries@.len() ==> #[trigger] entries@[i]@ == before[names[i]]
            };
        proof {
            names.unique_seq_to_set();
            assert forall|j: int| 0 <= j < names.len() implies before.contains_key(#[trigger] names[j]) by {
                assert(names.contains(names[j]));
                assert(names.to_set().contains(names[j]));
            }
        }
        let excess: usize = if entries.len() > limit { entries.len() - limit } else { 0 };
        let mut i: usize = 0;
        while i < excess
            invariant
                i <= excess <= entries@.len(),
                before == old(self).map(),
                old(self).wf(),
                names.len() == entries@.len(),
                names.no_duplicates(),
                forall|j: int| 0 <= j < entries@.len() ==> #[trigger] entries@[j]@ == before[names[j]],
                forall|j: int| 0 <= j < names.len() ==> before.contains_key(#[trigger] names[j]),
                self.map().submap_of(before),
                forall|j: int| i <= j < names.len() ==> self.map().contains_key(#[trigger] names[j]),
                self.map().dom().finite(),
                self.map().dom().len() == entries@.len() - i,
                i == 0 ==> self.map() == before,
            decreases excess - i,
        {
            let ghost there = self.map();
            assert(entries@[i as int]@ == before[names[i as int]]);
            assert(before.contains_key(names[i as int]));
            let _ = map_remove(&mut self.entries, entries[i].name.as_str());
            assert(self.map() == there.remove(names[i as int]));
            assert(self.map().dom() =~= there.dom().remove(names[i as int]));
            i = i + 1;
        }
        self.max_entries = limit;
        proof {
            assert forall|k: Seq<char>| #[trigger] self.map().contains_key(k) implies self.map()[k].wf()
                && self.map()[k].name == k by {
                assert(before.contains_key(k));
                assert(self.map()[k] == before[k]);
            }
        }
    }

    /// All registered prefilters, each once.
    pub fn entries(&self) -> (r: Vec<PrefilterEntry>)
        ensures
            lists_all(r@, self.map()),
    {
        map_values(&self.entries)
    }

    /// What there is to say of all registered prefilters, each once.
    pub fn list(&self) -> (r: Vec<PrefilterInfo>)
        ensures
            exists|entries: Seq<PrefilterEntry>|
                {
                    &&& #[trigger] lists_all(entries, self.map())
                    &&& r@.len() == entries.len()
                    &&& forall|i: int| 0 <= i < r@.len() ==> info_of(#[trigger] r@[i], entries[i]@)
                },
    {
        let entries = self.entries();
        let mut r: Vec<PrefilterInfo> = Vec::new();
        let mut i: usize = 0;
        while i < entries.len()
            invariant
                i <= entries@.len(),
                r@.len() == i,
                forall|j: int| 0 <= j < i ==> info_of(#[trigger] r@[j], entries@[j]@),
            decreases entries@.len() - i,
        {
            let e = &entries[i];
            r.push(
                PrefilterInfo {
                    name: e.name.clone(),
                    cardinality: e.cardinality(),
                    last_refreshed: e.last_refreshed(),
                    refresh_interval_secs: e.refresh_interval_secs(),
                    last_compute_ms: e.compute_ms(),
                    refresh_errors: e.refresh_errors(),
                    substitutions: e.substitutions(),
                    clauses: clone_clauses(&e.clauses),
                },
            );
            i = i + 1;
        }
        assert(lists_all(entries@, self.map()));
        r
    }

    /// Finds the registered prefilter whose clauses are all among the canonical query clauses and
    /// that has the most, and the positions of the query clauses that it stands for. Of several with
    /// as many clauses it is the one whose name comes first.
    pub fn find_substitution(&self, canonical_query_clauses: &Vec<FilterClause>) -> (r: Option<
        (PrefilterEntry, Vec<usize>),
    >)
        requires
            self.wf(),
        ensures
            match r {
                Some((e, positions)) => best_match(
                    self.map(),
                    models(canonical_query_clauses@),
                    e@.name,
                ) && e@ == self.map()[e@.name] && ascending_of(
                    positions@,
                    subset(e@.clauses, models(canonical_query_clauses@))->0,
                ),
                None => no_match(self.map(), models(canonical_query_clauses@)),
            },
    {
        let ghost qcs = models(canonical_query_clauses@);
        let entries = self.entries();
        let ghost names = choose|names: Seq<Seq<char>>|
            {
                &&& names.len() == entries@.len()
                &&& #[trigger] names.no_duplicates()
                &&& names.to_set() == self.map().dom()
                &&& forall|i: int| 0 <= i < entries@.len() ==> #[trigger] entries@[i]@ == self.map()[names[i]]
            };
        let mut best: Option<(PrefilterEntry, Vec<usize>)> = None;
        let mut i: usize = 0;
        while i < entries.len()
            invariant
                i <= entries@.len(),
                self.wf(),
                qcs == models(canonical_query_clauses@),
                names.len() == entries@.len(),
                names.to_set() == self.map().dom(),
                forall|j: int| 0 <= j < entries@.len() ==> #[trigger] entries@[j]@ == self.map()[names[j]],
                match best {
                    Some((e, positions)) => {
                        &&& self.map().contains_key(e@.name)
                        &&& e@ == self.map()[e@.name]
                        &&& subset(e@.clauses, qcs) is Some
                        &&& ascending_of(positions@, subset(e@.clauses, qcs)->0)
                        &&& forall|j: int|
                            0 <= j < i ==> (subset((#[trigger] entries@[j])@.clauses, qcs) matches Some(m) ==> (
                            m.len() < positions@.len() || (m.len() == positions@.len() && text_le(
                                e@.name,
                                entries@[j]@.name,
                            ))))
                    },
                    None => forall|j: int| 0 <= j < i ==> subset((#[trigger] entries@[j])@.clauses, qcs) is None,
                },
            decreases entries@.len() - i,
        {
            let e = &entries[i];
            assert(entries@[i as int]@ == self.map()[names[i as int]]);
            assert(names.to_set().contains(names[i as int])) by {
                assert(names.contains(names[i as int]));
            }
            assert(self.map().contains_key(names[i as int]));
            match subset_match(&e.clauses, canonical_query_clauses) {
                Some(positions) => {
                    let better = match &best {
                        None => true,
                        Some((kept, prev)) => positions.len() > prev.len() || (positions.len() == prev.len()
                            && text_not_after(e.name.as_str(), kept.name.as_str())),
                    };
                    if better {
                        proof {
                            let name = e@.name;
                            lemma_text_le_total(name, name);
                            if let Some((kept, prev)) = best {
                                assert forall|j: int| 0 <= j < i implies (subset(
                                    (#[trigger] entries@[j])@.clauses,
                                    qcs,
                                ) matches Some(m) ==> (m.len() < positions@.len() || (m.len() == positions@.len()
                                    && text_le(name, entries@[j]@.name)))) by {
                                    if subset(entries@[j]@.clauses, qcs) is Some && text_le(name, kept@.name)
                                        && text_le(kept@.name, entries@[j]@.name) {
                                        lemma_text_le_transitive(name, kept@.name, entries@[j]@.name);
                                    }
                                }
                            }
                        }
                        best = Some((e.clone(), positions));
                    } else {
                        proof {
                            let (kept, prev) = best->0;
                            lemma_text_le_total(e@.name, kept@.name);
                        }
                    }
                },
                None => {},
            }
            i = i + 1;
        }
        proof {
            assert forall|k: Seq<char>| #[trigger] self.map().contains_key(k) implies exists|j: int|
                0 <= j < entries@.len() && entries@[j]@ == self.map()[k] by {
                assert(names.to_set().contains(k));
                let j = choose|j: int| 0 <= j < names.len() && names[j] == k;
                assert(entries@[j]@ == self.map()[names[j]]);
            }
        }
        best
    }
}

impl Default for PrefilterRegistry {
    fn default() -> (r: Self)
        ensures
            r.wf(),
            r.map().dom() == Set::<Seq<char>>::empty(),
    {
        PrefilterRegistry::new()
    }
}

/// Whether `info` says what there is to say of `e`.
pub open spec fn info_of(info: PrefilterInfo, e: EntryView) -> bool {
    &&& info.name@ == e.name
    &&& info.cardinality == e.cardinality
    &&& info.last_refreshed == e.last_refreshed
    &&& info.refresh_interval_secs == e.refresh_interval_secs
    &&& info.last_compute_ms == e.compute_duration_nanos / 1_000_000
    &&& info.refresh_errors == e.refresh_errors
    &&& info.substitutions == e.substitutions
    &&& models(info.clauses@) == e.clauses
}

/// Whether the clauses of the entry `name` are all among `qcs`, and of the others that have all of
/// theirs there none has more, and none with as many has a name that comes before.
pub open spec fn best_match(map: Map<Seq<char>, EntryView>, qcs: Seq<ClauseView>, name: Seq<char>) -> bool {
    &&& map.contains_key(name)
    &&& subset(map[name].clauses, qcs) is Some
    &&& forall|k: Seq<char>| #[trigger]
        map.contains_key(k) ==> (subset(map[k].clauses, qcs) matches Some(m) ==> {
            let most = subset(map[name].clauses, qcs)->0.len();
            m.len() < most || (m.len() == most && text_le(name, k))
        })
}

/// Whether no entry has all of its clauses among `qcs`.
pub open spec fn no_match(map: Map<Seq<char>, EntryView>, qcs: Seq<ClauseView>) -> bool {
    forall|k: Seq<char>| #[trigger] map.contains_key(k) ==> subset(map[k].clauses, qcs) is None
}

/// The first `n` of the clauses without those at the positions `m`.
pub open spec fn without(qcs: Seq<ClauseView>, m: Seq<int>, n: int) -> Seq<ClauseView>
    decreases n,
{
    if n <= 0 {
        Seq::empty()
    } else if m.contains(n - 1) {
        without(qcs, m, n - 1)
    } else {
        without(qcs, m, n - 1).push(qcs[n - 1])
    }
}

/// The clauses that a query with the canonical clauses `qcs` becomes when the entry `e` is put
/// in: the bitmap of `e`, less the slots that are not alive, then the clauses that `e` does
/// not stand for.
pub open spec fn substituted_clauses(e: EntryView, qcs: Seq<ClauseView>, alive: Set<u32>) -> Seq<ClauseView> {
    seq![
        ClauseView::BucketBitmap {
            field: "__prefilter"@,
            bucket_name: e.name,
            slots: e.slots.intersect(alive),
        },
    ] + without(qcs, subset(e.clauses, qcs)->0, qcs.len() as int)
}

/// The entry with one more failed refresh counted; the count starts over after the last number.
pub open spec fn failed_once_more(e: EntryView) -> EntryView {
    EntryView { refresh_errors: if e.refresh_errors == u64::MAX { 0 } else { (e.refresh_errors + 1) as u64 }, ..e }
}

/// The entry with one more use counted; the count starts over after the last number.
pub open spec fn used_once_more(e: EntryView) -> EntryView {
    EntryView { substitutions: if e.substitutions == u64::MAX { 0 } else { (e.substitutions + 1) as u64 }, ..e }
}

fn has_position(list: &Vec<usize>, x: usize) -> (r: bool)
    ensures
        r == list@.contains(x),
{
    let mut i: usize = 0;
    while i < list.len()
        invariant
            i <= list@.len(),
            forall|j: int| 0 <= j < i ==> list@[j] != x,
        decreases list@.len() - i,
    {
        if list[i] == x {
            return true;
        }
        i = i + 1;
    }
    false
}

/// Puts a registered prefilter into a query. The clauses that it stands for are taken out and
/// one bitmap clause is put in front. Without a match the clauses stay as they are.
pub fn substitute(registry: &mut PrefilterRegistry, query_clauses: &Vec<FilterClause>, alive: &RoaringBitmap) -> (r: (
    Vec<FilterClause>,
    Option<PrefilterEntry>,
))
    requires
        old(registry).wf(),
    ensures
        final(registry).wf(),
        final(registry).limit() == old(registry).limit(),
        match r.1 {
            Some(e) => {
                &&& best_match(old(registry).map(), canonical_set(models(query_clauses@)), e@.name)
                &&& e@ == used_once_more(old(registry).map()[e@.name])
                &&& final(registry).map() == old(registry).map().insert(e@.name, e@)
                &&& models(r.0@) == substituted_clauses(
                    old(registry).map()[e@.name],
                    canonical_set(models(query_clauses@)),
                    bits(*alive),
                )
            },
            None => {
                &&& no_match(old(registry).map(), canonical_set(models(query_clauses@)))
                &&& final(registry).map() == old(registry).map()
                &&& models(r.0@) == models(query_clauses@)
            },
        },
{
    if registry.is_empty() {
        return (clone_clauses(query_clauses), None);
    }
    let canonical_query = canonicalize_clauses(query_clauses);
    let ghost qcs = models(canonical_query@);
    let found = registry.find_substitution(&canonical_query);
    let (entry, positions) = match found {
        Some(x) => x,
        None => {
            return (clone_clauses(query_clauses), None);
        },
    };
    let ghost m = subset(entry@.clauses, qcs)->0;
    let mut out: Vec<FilterClause> = Vec::new();
    assert(models(out@) =~= Seq::<ClauseView>::empty());
    let bucket = FilterClause::BucketBitmap {
        field: "__prefilter".to_owned(),
        bucket_name: entry.name.clone(),
        bitmap: Arc::new(intersection(&entry.bitmap, alive)),
    };
    let ghost head = bucket@;
    push_model(&mut out, bucket);
    assert(models(out@) =~= seq![head] + without(qcs, m, 0));
    let mut i: usize = 0;
    while i < canonical_query.len()
        invariant
            i <= canonical_query@.len(),
            qcs == models(canonical_query@),
            ascending_of(positions@, m),
            models(out@) == seq![head] + without(qcs, m, i as int),
        decreases canonical_query@.len() - i,
    {
        proof {
            lemma_models(canonical_query@);
        }
        assert(qcs[i as int] == canonical_query@[i as int]@);
        let taken = has_position(&positions, i);
        assert(taken == m.contains(i as int)) by {
            if m.contains(i as int) {
                let a = choose|a: int| 0 <= a < positions@.len() && positions@[a] == i as int;
                assert(positions@[a] == i);
            }
            if taken {
                let a = choose|a: int| 0 <= a < positions@.len() && positions@[a] == i;
                assert(m.contains(positions@[a] as int));
            }
        }
        if !taken {
            push_model(&mut out, canonical_query[i].clone());
        }
        assert(models(out@) =~= seq![head] + without(qcs, m, i + 1));
        i = i + 1;
    }
    proof {
        lemma_models(canonical_query@);
    }
    let ghost chosen = entry@;
    let mut used = entry;
    used.substitutions = if used.substitutions == u64::MAX { 0 } else { used.substitutions + 1 };
    let copy = used.clone();
    let key = used.name.clone();
    map_insert(&mut registry.entries, key, used);
    assert(registry.map().dom() =~= old(registry).map().dom().insert(chosen.name));
    assert(old(registry).map().dom().insert(chosen.name) =~= old(registry).map().dom());
    (out, Some(copy))
}

/// Whether a slot matches a clause, where `atom` says which slots match the clauses on one
/// field and one value. `In` is one of its values, and a bitmap holds its slots.
pub open spec fn matches_clause(c: ClauseView, slot: u32, atom: spec_fn(ClauseView, u32) -> bool) -> bool
    decreases c,
{
    match c {
        ClauseView::In(f, vs) => some_value(f, vs, slot, atom),
        ClauseView::NotIn(f, vs) => !some_value(f, vs, slot, atom),
        ClauseView::Not(inner) => !matches_clause(*inner, slot, atom),
        ClauseView::And(cs) => matches_all(cs, slot, atom),
        ClauseView::Or(cs) => matches_some(cs, slot, atom),
        ClauseView::BucketBitmap { field, bucket_name, slots } => slots.contains(slot),
        _ => atom(c, slot),
    }
}

/// Whether a slot has one of the values.
pub open spec fn some_value(f: Seq<char>, vs: Seq<ValueView>, slot: u32, atom: spec_fn(ClauseView, u32) -> bool) -> bool
    decreases vs.len(),
{
    vs.len() > 0 && (some_value(f, vs.drop_last(), slot, atom) || atom(ClauseView::Eq(f, vs.last()), slot))
}

/// Whether a slot matches all of the clauses.
pub open spec fn matches_all(cs: Seq<ClauseView>, slot: u32, atom: spec_fn(ClauseView, u32) -> bool) -> bool
    decreases cs,
{
    cs.len() == 0 || (matches_all(cs.drop_last(), slot, atom) && matches_clause(cs.last(), slot, atom))
}

/// Whether a slot matches one of the clauses.
pub open spec fn matches_some(cs: Seq<ClauseView>, slot: u32, atom: spec_fn(ClauseView, u32) -> bool) -> bool
    decreases cs,
{
    cs.len() > 0 && (matches_some(cs.drop_last(), slot, atom) || matches_clause(cs.last(), slot, atom))
}

/// Whether `atom` treats clauses that compare equal alike.
pub open spec fn respects_equality(atom: spec_fn(ClauseView, u32) -> bool) -> bool {
    forall|a: ClauseView, b: ClauseView, slot: u32| #![trigger atom(a, slot), a.same(b)]
        a.same(b) ==> atom(a, slot) == atom(b, slot)
}

proof fn lemma_same_matches(a: ClauseView, b: ClauseView, slot: u32, atom: spec_fn(ClauseView, u32) -> bool)
    requires
        a.same(b),
        respects_equality(atom),
    ensures
        matches_clause(a, slot, atom) == matches_clause(b, slot, atom),
    decreases a,
{
    match (a, b) {
        (ClauseView::In(f, v), ClauseView::In(g, w)) => lemma_same_value_lists(f, v, w, slot, atom),
        (ClauseView::NotIn(f, v), ClauseView::NotIn(g, w)) => lemma_same_value_lists(f, v, w, slot, atom),
        (ClauseView::Not(c), ClauseView::Not(d)) => lemma_same_matches(*c, *d, slot, atom),
        (ClauseView::And(cs), ClauseView::And(ds)) => lemma_same_lists(cs, ds, slot, atom),
        (ClauseView::Or(cs), ClauseView::Or(ds)) => lemma_same_lists(cs, ds, slot, atom),
        (ClauseView::BucketBitmap { .. }, ClauseView::BucketBitmap { .. }) => {},
        _ => {
            assert(atom(a, slot) == atom(b, slot));
        },
    }
}

proof fn lemma_same_value_lists(
    f: Seq<char>,
    v: Seq<ValueView>,
    w: Seq<ValueView>,
    slot: u32,
    atom: spec_fn(ClauseView, u32) -> bool,
)
    requires
        crate::query::same_values(v, w),
        respects_equality(atom),
    ensures
        some_value(f, v, slot, atom) == some_value(f, w, slot, atom),
    decreases v.len(),
{
    if v.len() > 0 {
        assert(v[v.len() - 1].same(w[w.len() - 1]));
        let x = ClauseView::Eq(f, v.last());
        let y = ClauseView::Eq(f, w.last());
        assert(x.same(y));
        assert(atom(x, slot) == atom(y, slot));
        assert forall|i: int| 0 <= i < v.drop_last().len() implies #[trigger] v.drop_last()[i].same(
            w.drop_last()[i],
        ) by {
            assert(v[i].same(w[i]));
        }
        lemma_same_value_lists(f, v.drop_last(), w.drop_last(), slot, atom);
    }
}

proof fn lemma_same_lists(
    cs: Seq<ClauseView>,
    ds: Seq<ClauseView>,
    slot: u32,
    atom: spec_fn(ClauseView, u32) -> bool,
)
    requires
        same_clauses(cs, ds),
        respects_equality(atom),
    ensures
        matches_all(cs, slot, atom) == matches_all(ds, slot, atom),
        matches_some(cs, slot, atom) == matches_some(ds, slot, atom),
    decreases cs,
{
    if cs.len() > 0 {
        lemma_same_lists(cs.drop_last(), ds.drop_last(), slot, atom);
        lemma_same_matches(cs.last(), ds.last(), slot, atom);
    }
}

proof fn lemma_push_all(cs: Seq<ClauseView>, x: ClauseView, slot: u32, atom: spec_fn(ClauseView, u32) -> bool)
    ensures
        matches_all(cs.push(x), slot, atom) == (matches_all(cs, slot, atom) && matches_clause(x, slot, atom)),
        matches_some(cs.push(x), slot, atom) == (matches_some(cs, slot, atom) || matches_clause(x, slot, atom)),
{
    assert(cs.push(x).drop_last() =~= cs);
}

proof fn lemma_sorted_match(cs: Seq<ClauseView>, slot: u32, atom: spec_fn(ClauseView, u32) -> bool)
    ensures
        matches_all(sorted_clauses(cs), slot, atom) == matches_all(cs, slot, atom),
    decreases cs.len(),
{
    if cs.len() > 0 {
        lemma_sorted_match(cs.drop_last(), slot, atom);
        lemma_insert_match(sorted_clauses(cs.drop_last()), cs.last(), slot, atom);
    }
}

proof fn lemma_insert_match(s: Seq<ClauseView>, x: ClauseView, slot: u32, atom: spec_fn(ClauseView, u32) -> bool)
    ensures
        matches_all(insert_clause(s, x), slot, atom) == (matches_all(s, slot, atom) && matches_clause(x, slot, atom)),
    decreases s.len(),
{
    if s.len() == 0 || text_le(s.last().text(), x.text()) {
        lemma_push_all(s, x, slot, atom);
    } else {
        lemma_insert_match(s.drop_last(), x, slot, atom);
        lemma_push_all(insert_clause(s.drop_last(), x), s.last(), slot, atom);
    }
}

proof fn lemma_distinct_match(cs: Seq<ClauseView>, slot: u32, atom: spec_fn(ClauseView, u32) -> bool)
    requires
        respects_equality(atom),
    ensures
        matches_all(distinct_clauses(cs), slot, atom) == matches_all(cs, slot, atom),
    decreases cs.len(),
{
    if cs.len() > 0 {
        lemma_distinct_match(cs.drop_last(), slot, atom);
        let kept = distinct_clauses(cs.drop_last());
        if kept.len() > 0 && cs.last().same(kept.last()) {
            lemma_same_matches(cs.last(), kept.last(), slot, atom);
        } else {
            lemma_push_all(kept, cs.last(), slot, atom);
        }
    }
}

proof fn lemma_sorted_values_match(f: Seq<char>, vs: Seq<ValueView>, slot: u32, atom: spec_fn(ClauseView, u32) -> bool)
    ensures
        some_value(f, sorted_values(vs), slot, atom) == some_value(f, vs, slot, atom),
    decreases vs.len(),
{
    if vs.len() > 0 {
        lemma_sorted_values_match(f, vs.drop_last(), slot, atom);
        lemma_insert_value_match(f, sorted_values(vs.drop_last()), vs.last(), slot, atom);
    }
}

proof fn lemma_insert_value_match(
    f: Seq<char>,
    s: Seq<ValueView>,
    x: ValueView,
    slot: u32,
    atom: spec_fn(ClauseView, u32) -> bool,
)
    ensures
        some_value(f, insert_value(s, x), slot, atom) == (some_value(f, s, slot, atom) || atom(
            ClauseView::Eq(f, x),
            slot,
        )),
    decreases s.len(),
{
    if s.len() == 0 || text_le(s.last().text(), x.text()) {
        assert(s.push(x).drop_last() =~= s);
    } else {
        lemma_insert_value_match(f, s.drop_last(), x, slot, atom);
        let t = insert_value(s.drop_last(), x);
        assert(t.push(s.last()).drop_last() =~= t);
    }
}

proof fn lemma_distinct_values_match(
    f: Seq<char>,
    vs: Seq<ValueView>,
    slot: u32,
    atom: spec_fn(ClauseView, u32) -> bool,
)
    requires
        respects_equality(atom),
    ensures
        some_value(f, distinct_values(vs), slot, atom) == some_value(f, vs, slot, atom),
    decreases vs.len(),
{
    if vs.len() > 0 {
        lemma_distinct_values_match(f, vs.drop_last(), slot, atom);
        let kept = distinct_values(vs.drop_last());
        if kept.len() > 0 && vs.last().same(kept.last()) {
            let x = ClauseView::Eq(f, vs.last());
            let y = ClauseView::Eq(f, kept.last());
            assert(x.same(y));
            assert(atom(x, slot) == atom(y, slot));
        } else {
            assert(kept.push(vs.last()).drop_last() =~= kept);
        }
    }
}

/// The canonical form of a clause matches what the clause matches.
pub proof fn law_canonical_clause_keeps_meaning(c: ClauseView, slot: u32, atom: spec_fn(ClauseView, u32) -> bool)
    requires
        respects_equality(atom),
    ensures
        matches_clause(canonical(c), slot, atom) == matches_clause(c, slot, atom),
    decreases c, 0int,
{
    match c {
        ClauseView::In(f, vs) => {
            lemma_sorted_values_match(f, vs, slot, atom);
            lemma_distinct_values_match(f, sorted_values(vs), slot, atom);
        },
        ClauseView::NotIn(f, vs) => {
            lemma_sorted_values_match(f, vs, slot, atom);
            lemma_distinct_values_match(f, sorted_values(vs), slot, atom);
        },
        ClauseView::Not(inner) => match *inner {
            ClauseView::Not(twice) => {
                law_canonical_clause_keeps_meaning(*twice, slot, atom);
                assert(matches_clause(*inner, slot, atom) == !matches_clause(*twice, slot, atom));
            },
            _ => {
                law_canonical_clause_keeps_meaning(*inner, slot, atom);
            },
        },
        ClauseView::And(cs) => {
            lemma_conjuncts_match(cs, slot, atom);
            let all = canonical_conjuncts_all(cs);
            lemma_sorted_match(all, slot, atom);
            lemma_distinct_match(sorted_clauses(all), slot, atom);
        },
        ClauseView::Or(cs) => {
            lemma_each_match(cs, slot, atom);
        },
        _ => {},
    }
}

proof fn lemma_each_match(cs: Seq<ClauseView>, slot: u32, atom: spec_fn(ClauseView, u32) -> bool)
    requires
        respects_equality(atom),
    ensures
        matches_some(canonical_each(cs), slot, atom) == matches_some(cs, slot, atom),
    decreases cs, 0int,
{
    if cs.len() > 0 {
        lemma_each_match(cs.drop_last(), slot, atom);
        law_canonical_clause_keeps_meaning(cs.last(), slot, atom);
        lemma_push_all(canonical_each(cs.drop_last()), canonical(cs.last()), slot, atom);
    }
}

proof fn lemma_concat_match(
    a: Seq<ClauseView>,
    b: Seq<ClauseView>,
    slot: u32,
    atom: spec_fn(ClauseView, u32) -> bool,
)
    ensures
        matches_all(a + b, slot, atom) == (matches_all(a, slot, atom) && matches_all(b, slot, atom)),
    decreases b.len(),
{
    if b.len() == 0 {
        assert(a + b =~= a);
    } else {
        lemma_concat_match(a, b.drop_last(), slot, atom);
        assert((a + b).drop_last() =~= a + b.drop_last());
    }
}

proof fn lemma_conjunct_match(c: ClauseView, slot: u32, atom: spec_fn(ClauseView, u32) -> bool)
    requires
        respects_equality(atom),
    ensures
        matches_all(canonical_conjuncts(c), slot, atom) == matches_clause(c, slot, atom),
    decreases c, 1int,
{
    match c {
        ClauseView::And(cs) => {
            lemma_conjuncts_match(cs, slot, atom);
        },
        ClauseView::Not(inner) if *inner is Not => {
            let twice = *(*inner)->Not_0;
            lemma_conjunct_match(twice, slot, atom);
            assert(matches_clause(*inner, slot, atom) == !matches_clause(twice, slot, atom));
        },
        _ => {
            law_canonical_clause_keeps_meaning(c, slot, atom);
            lemma_push_all(Seq::empty(), canonical(c), slot, atom);
            assert(Seq::<ClauseView>::empty().push(canonical(c)) =~= seq![canonical(c)]);
        },
    }
}

proof fn lemma_conjuncts_match(cs: Seq<ClauseView>, slot: u32, atom: spec_fn(ClauseView, u32) -> bool)
    requires
        respects_equality(atom),
    ensures
        matches_all(canonical_conjuncts_all(cs), slot, atom) == matches_all(cs, slot, atom),
    decreases cs, 0int,
{
    if cs.len() > 0 {
        lemma_conjuncts_match(cs.drop_last(), slot, atom);
        lemma_conjunct_match(cs.last(), slot, atom);
        lemma_concat_match(
            canonical_conjuncts_all(cs.drop_last()),
            canonical_conjuncts(cs.last()),
            slot,
            atom,
        );
    }
}

/// A clause set in canonical form matches what the clause set matches.
pub proof fn law_canonical_set_keeps_meaning(
    cs: Seq<ClauseView>,
    slot: u32,
    atom: spec_fn(ClauseView, u32) -> bool,
)
    requires
        respects_equality(atom),
    ensures
        matches_all(canonical_set(cs), slot, atom) == matches_all(cs, slot, atom),
{
    lemma_conjuncts_match(cs, slot, atom);
    let all = canonical_conjuncts_all(cs);
    lemma_sorted_match(all, slot, atom);
    lemma_distinct_match(sorted_clauses(all), slot, atom);
}

proof fn lemma_all_is_each(cs: Seq<ClauseView>, slot: u32, atom: spec_fn(ClauseView, u32) -> bool)
    ensures
        matches_all(cs, slot, atom) <==> forall|i: int| 0 <= i < cs.len() ==> #[trigger] matches_clause(cs[i], slot, atom),
    decreases cs.len(),
{
    if cs.len() > 0 {
        lemma_all_is_each(cs.drop_last(), slot, atom);
        let front = cs.drop_last();
        if matches_all(cs, slot, atom) {
            assert forall|i: int| 0 <= i < cs.len() implies #[trigger] matches_clause(cs[i], slot, atom) by {
                if i < front.len() {
                    assert(matches_clause(front[i], slot, atom));
                }
            }
        }
        if forall|i: int| 0 <= i < cs.len() ==> #[trigger] matches_clause(cs[i], slot, atom) {
            assert forall|i: int| 0 <= i < front.len() implies #[trigger] matches_clause(front[i], slot, atom) by {
                assert(matches_clause(cs[i], slot, atom));
            }
            assert(matches_clause(cs[cs.len() - 1], slot, atom));
        }
    }
}

proof fn lemma_without(
    qcs: Seq<ClauseView>,
    m: Seq<int>,
    n: int,
    slot: u32,
    atom: spec_fn(ClauseView, u32) -> bool,
)
    requires
        0 <= n <= qcs.len(),
    ensures
        matches_all(without(qcs, m, n), slot, atom) <==> forall|i: int|
            0 <= i < n && !m.contains(i) ==> #[trigger] matches_clause(qcs[i], slot, atom),
    decreases n,
{
    if n > 0 {
        lemma_without(qcs, m, n - 1, slot, atom);
        if m.contains(n - 1) {
            assert((forall|i: int| 0 <= i < n && !m.contains(i) ==> #[trigger] matches_clause(qcs[i], slot, atom))
                <==> (forall|i: int|
                0 <= i < n - 1 && !m.contains(i) ==> #[trigger] matches_clause(qcs[i], slot, atom)));
        } else {
            lemma_push_all(without(qcs, m, n - 1), qcs[n - 1], slot, atom);
            if matches_all(without(qcs, m, n), slot, atom) {
                assert forall|i: int| 0 <= i < n && !m.contains(i) implies #[trigger] matches_clause(
                    qcs[i],
                    slot,
                    atom,
                ) by {}
            }
            if forall|i: int| 0 <= i < n && !m.contains(i) ==> #[trigger] matches_clause(qcs[i], slot, atom) {
                assert(matches_clause(qcs[n - 1], slot, atom));
            }
        }
    }
}

/// A slot that is not alive matches no query that a prefilter was put into, whatever the kept
/// bitmap still holds.
pub proof fn law_dead_slots_stay_dead(
    e: EntryView,
    qcs: Seq<ClauseView>,
    alive: Set<u32>,
    slot: u32,
    atom: spec_fn(ClauseView, u32) -> bool,
)
    requires
        !alive.contains(slot),
    ensures
        !matches_all(substituted_clauses(e, qcs, alive), slot, atom),
{
    let out = substituted_clauses(e, qcs, alive);
    lemma_all_is_each(out, slot, atom);
    assert(!matches_clause(out[0], slot, atom));
}

/// Where the bitmap of a prefilter holds, among the slots that are alive, exactly those that
/// match its clauses, a query that it is put into matches the alive slots that it matched
/// before.
pub proof fn law_substitution_keeps_matches(
    e: EntryView,
    query: Seq<ClauseView>,
    alive: Set<u32>,
    slot: u32,
    atom: spec_fn(ClauseView, u32) -> bool,
)
    requires
        respects_equality(atom),
        subset(e.clauses, canonical_set(query)) is Some,
        alive.contains(slot),
        e.slots.contains(slot) == matches_all(e.clauses, slot, atom),
    ensures
        matches_all(substituted_clauses(e, canonical_set(query), alive), slot, atom) == matches_all(
            query,
            slot,
            atom,
        ),
{
    let qcs = canonical_set(query);
    let m = subset(e.clauses, qcs)->0;
    let rest = without(qcs, m, qcs.len() as int);
    let out = substituted_clauses(e, qcs, alive);
    let head = seq![
        ClauseView::BucketBitmap {
            field: "__prefilter"@,
            bucket_name: e.name,
            slots: e.slots.intersect(alive),
        },
    ];
    law_canonical_set_keeps_meaning(query, slot, atom);
    lemma_matched(e.clauses, qcs, e.clauses.len() as int);
    lemma_concat_match(head, rest, slot, atom);
    lemma_all_is_each(head, slot, atom);
    assert(matches_all(head, slot, atom) == e.slots.contains(slot)) by {
        assert(matches_clause(head[0], slot, atom) == e.slots.contains(slot));
    }
    lemma_without(qcs, m, qcs.len() as int, slot, atom);
    lemma_all_is_each(qcs, slot, atom);
    lemma_all_is_each(e.clauses, slot, atom);
    if matches_all(qcs, slot, atom) {
        assert forall|i: int| 0 <= i < e.clauses.len() implies #[trigger] matches_clause(
            e.clauses[i],
            slot,
            atom,
        ) by {
            assert(0 <= m[i] < qcs.len() && qcs[m[i]].same(e.clauses[i]));
            lemma_same_matches(qcs[m[i]], e.clauses[i], slot, atom);
            assert(matches_clause(qcs[m[i]], slot, atom));
        }
    }
    if matches_all(out, slot, atom) {
        assert forall|i: int| 0 <= i < qcs.len() implies #[trigger] matches_clause(qcs[i], slot, atom) by {
            if m.contains(i) {
                let a = choose|a: int| 0 <= a < m.len() && m[a] == i;
                assert(0 <= m[a] < qcs.len() && qcs[m[a]].same(e.clauses[a]));
                lemma_same_matches(qcs[m[a]], e.clauses[a], slot, atom);
                assert(matches_clause(e.clauses[a], slot, atom));
            }
        }
    }
}

/// Clauses that compare equal do so either way round, and to whatever the other compares equal to.
pub proof fn law_equality_is_shared(a: ClauseView, b: ClauseView, c: ClauseView)
    requires
        a.same(b),
    ensures
        b.same(a),
        b.same(c) ==> a.same(c),
    decreases a,
{
    match (a, b) {
        (ClauseView::Not(x), ClauseView::Not(y)) => match c {
            ClauseView::Not(z) => law_equality_is_shared(*x, *y, *z),
            _ => law_equality_is_shared(*x, *y, *y),
        },
        (ClauseView::And(xs), ClauseView::And(ys)) => match c {
            ClauseView::And(zs) => lemma_same_lists_share(xs, ys, zs),
            _ => lemma_same_lists_share(xs, ys, ys),
        },
        (ClauseView::Or(xs), ClauseView::Or(ys)) => match c {
            ClauseView::Or(zs) => lemma_same_lists_share(xs, ys, zs),
            _ => lemma_same_lists_share(xs, ys, ys),
        },
        (ClauseView::In(f, v), ClauseView::In(g, w)) => lemma_same_values_share(v, w),
        (ClauseView::NotIn(f, v), ClauseView::NotIn(g, w)) => lemma_same_values_share(v, w),
        _ => {},
    }
}

proof fn lemma_same_values_share(v: Seq<ValueView>, w: Seq<ValueView>)
    requires
        crate::query::same_values(v, w),
    ensures
        crate::query::same_values(w, v),
        forall|u: Seq<ValueView>| #[trigger]
            crate::query::same_values(w, u) ==> crate::query::same_values(v, u),
{
    assert forall|i: int| 0 <= i < w.len() implies #[trigger] w[i].same(v[i]) by {
        assert(v[i].same(w[i]));
    }
    assert forall|u: Seq<ValueView>| #[trigger] crate::query::same_values(w, u) implies crate::query::same_values(
        v,
        u,
    ) by {
        assert forall|i: int| 0 <= i < v.len() implies #[trigger] v[i].same(u[i]) by {
            assert(v[i].same(w[i]));
            assert(w[i].same(u[i]));
        }
    }
}

proof fn lemma_same_lists_share(xs: Seq<ClauseView>, ys: Seq<ClauseView>, zs: Seq<ClauseView>)
    requires
        same_clauses(xs, ys),
    ensures
        same_clauses(ys, xs),
        same_clauses(ys, zs) ==> same_clauses(xs, zs),
    decreases xs,
{
    if xs.len() > 0 {
        lemma_same_lists_share(xs.drop_last(), ys.drop_last(), zs.drop_last());
        law_equality_is_shared(xs.last(), ys.last(), zs.last());
    }
}

/// The positions of the clauses that compare equal to `p`.
pub open spec fn positions_of(cs: Seq<ClauseView>, p: ClauseView) -> Set<int> {
    Set::new(|i: int| 0 <= i < cs.len() && cs[i].same(p))
}

/// Whether each of the clauses `pcs` is among `qcs`, as often as it is among `pcs`.
pub open spec fn holds_all(qcs: Seq<ClauseView>, pcs: Seq<ClauseView>) -> bool {
    forall|i: int|
        0 <= i < pcs.len() ==> {
            &&& (exists|j: int| positions_of(qcs, #[trigger] pcs[i]).contains(j))
            &&& positions_of(pcs, pcs[i]).len() <= positions_of(qcs, pcs[i]).len()
        }
}

proof fn lemma_positions_finite(cs: Seq<ClauseView>, p: ClauseView)
    ensures
        positions_of(cs, p).finite(),
{
    let all = vstd::set_lib::set_int_range(0, cs.len() as int);
    vstd::set_lib::lemma_int_range(0, cs.len() as int);
    assert(positions_of(cs, p).subset_of(all));
    vstd::set_lib::lemma_len_subset(positions_of(cs, p), all);
}

proof fn lemma_first_free_found(qcs: Seq<ClauseView>, p: ClauseView, used: Seq<int>, k: int, free: int)
    requires
        0 <= k <= free < qcs.len(),
        !used.contains(free),
        qcs[free].same(p),
    ensures
        first_free(qcs, p, used, k) is Some,
    decreases qcs.len() - k,
{
    if !(!used.contains(k) && qcs[k].same(p)) {
        lemma_first_free_found(qcs, p, used, k + 1, free);
    }
}

proof fn lemma_held_is_matched(pcs: Seq<ClauseView>, qcs: Seq<ClauseView>, n: int)
    requires
        holds_all(qcs, pcs),
        0 <= n <= pcs.len(),
    ensures
        matched(pcs, qcs, n) is Some,
    decreases n,
{
    if n > 0 {
        lemma_held_is_matched(pcs, qcs, n - 1);
        lemma_matched(pcs, qcs, n - 1);
        let m = matched(pcs, qcs, n - 1)->0;
        let p = pcs[n - 1];
        let own = positions_of(pcs, p);
        let there = positions_of(qcs, p);
        let j = choose|j: int| there.contains(j);
        law_equality_is_shared(qcs[j], p, p);
        law_equality_is_shared(p, qcs[j], p);
        assert(own.contains(n - 1));
        lemma_positions_finite(pcs, p);
        lemma_positions_finite(qcs, p);
        let earlier = own.remove(n - 1);
        let f = |i: int| if 0 <= i < m.len() { m[i] } else { -1 };
        let image = earlier.map(f);
        vstd::set_lib::lemma_map_size_bound(earlier, image, f);
        if there.subset_of(image) {
            vstd::set_lib::lemma_len_subset(there, image);
            assert(false);
        }
        let free = choose|x: int| there.contains(x) && !image.contains(x);
        if m.contains(free) {
            let a = choose|a: int| 0 <= a < m.len() && m[a] == free;
            assert(qcs[m[a]].same(pcs[a]));
            law_equality_is_shared(qcs[m[a]], pcs[a], p);
            law_equality_is_shared(pcs[a], qcs[m[a]], p);
            assert(earlier.contains(a));
            assert(f(a) == free);
            assert(image.contains(free));
        }
        lemma_first_free_found(qcs, p, m, 0, free);
    }
}

proof fn lemma_matched_is_held(pcs: Seq<ClauseView>, qcs: Seq<ClauseView>)
    requires
        matched(pcs, qcs, pcs.len() as int) is Some,
    ensures
        holds_all(qcs, pcs),
        pcs.len() <= qcs.len(),
{
    lemma_matched(pcs, qcs, pcs.len() as int);
    let m = matched(pcs, qcs, pcs.len() as int)->0;
    assert forall|i: int| 0 <= i < pcs.len() implies {
        &&& (exists|j: int| positions_of(qcs, #[trigger] pcs[i]).contains(j))
        &&& positions_of(pcs, pcs[i]).len() <= positions_of(qcs, pcs[i]).len()
    } by {
        let p = pcs[i];
        assert(qcs[m[i]].same(pcs[i]));
        assert(positions_of(qcs, p).contains(m[i]));
        lemma_positions_finite(pcs, p);
        lemma_positions_finite(qcs, p);
        let own = positions_of(pcs, p);
        let f = |a: int| m[a];
        let image = own.map(f);
        assert(vstd::relations::injective_on(f, own));
        vstd::set_lib::lemma_map_size(own, image, f);
        assert(image.subset_of(positions_of(qcs, p))) by {
            assert forall|x: int| image.contains(x) implies positions_of(qcs, p).contains(x) by {
                let a = choose|a: int| own.contains(a) && f(a) == x;
                assert(qcs[m[a]].same(pcs[a]));
                law_equality_is_shared(qcs[m[a]], pcs[a], p);
            }
        }
        vstd::set_lib::lemma_len_subset(image, positions_of(qcs, p));
    }
    assert(m.to_set().subset_of(vstd::set_lib::set_int_range(0, qcs.len() as int)));
    m.unique_seq_to_set();
    vstd::set_lib::lemma_int_range(0, qcs.len() as int);
    vstd::set_lib::lemma_len_subset(m.to_set(), vstd::set_lib::set_int_range(0, qcs.len() as int));
}

/// A prefilter is put into a query exactly where the canonical clauses of the query hold all of
/// its own.
pub proof fn law_supersets_are_matched(pcs: Seq<ClauseView>, qcs: Seq<ClauseView>)
    requires
        pcs.len() > 0,
    ensures
        subset(pcs, qcs) is Some <==> holds_all(qcs, pcs),
{
    if holds_all(qcs, pcs) {
        lemma_held_is_matched(pcs, qcs, pcs.len() as int);
        lemma_matched_is_held(pcs, qcs);
    }
    if subset(pcs, qcs) is Some {
        lemma_matched_is_held(pcs, qcs);
    }
}

/// Whether the clauses stand in the order of how they are written.
pub open spec fn in_written_order(cs: Seq<ClauseView>) -> bool {
    forall|i: int, j: int| 0 <= i <= j < cs.len() ==> text_le((#[trigger] cs[i]).text(), (#[trigger] cs[j]).text())
}

proof fn lemma_insert_clause(s: Seq<ClauseView>, x: ClauseView)
    requires
        in_written_order(s),
    ensures
        in_written_order(insert_clause(s, x)),
        insert_clause(s, x).to_multiset() == s.to_multiset().insert(x),
        insert_clause(s, x).len() == s.len() + 1,
        insert_clause(s, x).last() == x || (s.len() > 0 && insert_clause(s, x).last() == s.last()),
    decreases s.len(),
{
    broadcast use vstd::seq_lib::group_to_multiset_ensures;

    lemma_text_le_total(x.text(), x.text());
    if s.len() == 0 {
    } else if text_le(s.last().text(), x.text()) {
        assert forall|i: int, j: int| 0 <= i <= j < s.push(x).len() implies text_le(
            (#[trigger] s.push(x)[i]).text(),
            (#[trigger] s.push(x)[j]).text(),
        ) by {
            if j == s.len() && i < s.len() {
                assert(text_le(s[i].text(), s[s.len() - 1].text()));
                lemma_text_le_transitive(s[i].text(), s.last().text(), x.text());
            }
        }
    } else {
        lemma_text_le_total(s.last().text(), x.text());
        let front = s.drop_last();
        assert(in_written_order(front)) by {
            assert forall|i: int, j: int| 0 <= i <= j < front.len() implies text_le(
                (#[trigger] front[i]).text(),
                (#[trigger] front[j]).text(),
            ) by {
                assert(text_le(s[i].text(), s[j].text()));
            }
        }
        lemma_insert_clause(front, x);
        let t = insert_clause(front, x);
        let whole = t.push(s.last());
        assert(s =~= front.push(s.last()));
        assert forall|i: int, j: int| 0 <= i <= j < whole.len() implies text_le(
            (#[trigger] whole[i]).text(),
            (#[trigger] whole[j]).text(),
        ) by {
            if j == t.len() {
                lemma_text_le_total(s.last().text(), s.last().text());
                if i < t.len() {
                    assert(text_le(t[i].text(), t[t.len() - 1].text()));
                    if t.last() != x {
                        assert(text_le(s[s.len() - 2].text(), s[s.len() - 1].text()));
                    }
                    lemma_text_le_transitive(t[i].text(), t.last().text(), s.last().text());
                }
            } else {
                assert(text_le(t[i].text(), t[j].text()));
            }
        }
    }
}

proof fn lemma_sorted_clauses(s: Seq<ClauseView>)
    ensures
        in_written_order(sorted_clauses(s)),
        sorted_clauses(s).to_multiset() == s.to_multiset(),
    decreases s.len(),
{
    broadcast use vstd::seq_lib::group_to_multiset_ensures;

    if s.len() > 0 {
        lemma_sorted_clauses(s.drop_last());
        lemma_insert_clause(sorted_clauses(s.drop_last()), s.last());
        assert(s =~= s.drop_last().push(s.last()));
    } else {
        assert(s =~= Seq::empty());
    }
}

proof fn lemma_distinct_clauses(s: Seq<ClauseView>)
    requires
        in_written_order(s),
    ensures
        in_written_order(distinct_clauses(s)),
        forall|x: ClauseView| #[trigger] distinct_clauses(s).contains(x) ==> s.contains(x),
        forall|i: int|
            0 < i < distinct_clauses(s).len() ==> !(#[trigger] distinct_clauses(s)[i]).same(
                distinct_clauses(s)[i - 1],
            ),
    decreases s.len(),
{
    if s.len() > 0 {
        let front = s.drop_last();
        assert(in_written_order(front)) by {
            assert forall|i: int, j: int| 0 <= i <= j < front.len() implies text_le(
                (#[trigger] front[i]).text(),
                (#[trigger] front[j]).text(),
            ) by {
                assert(text_le(s[i].text(), s[j].text()));
            }
        }
        lemma_distinct_clauses(front);
        let kept = distinct_clauses(front);
        let whole = distinct_clauses(s);
        assert forall|x: ClauseView| #[trigger] whole.contains(x) implies s.contains(x) by {
            let a = choose|a: int| 0 <= a < whole.len() && whole[a] == x;
            if a < kept.len() {
                assert(kept.contains(kept[a]));
                let b = choose|b: int| 0 <= b < front.len() && front[b] == x;
                assert(s[b] == x);
            } else {
                assert(s[s.len() - 1] == x);
            }
        }
        assert forall|i: int, j: int| 0 <= i <= j < whole.len() implies text_le(
            (#[trigger] whole[i]).text(),
            (#[trigger] whole[j]).text(),
        ) by {
            if j < kept.len() {
                assert(text_le(kept[i].text(), kept[j].text()));
            } else {
                assert(whole.contains(whole[i]));
                let b = choose|b: int| 0 <= b < s.len() && s[b] == whole[i];
                assert(text_le(s[b].text(), s[s.len() - 1].text()));
            }
        }
        assert forall|i: int| 0 < i < whole.len() implies !(#[trigger] whole[i]).same(whole[i - 1]) by {
            if i < kept.len() {
                assert(!kept[i].same(kept[i - 1]));
            }
        }
    }
}

/// A canonical clause set stands in the order of how its clauses are written, and no clause compares
/// equal to the one before it.
pub proof fn law_canonical_sets_are_ordered(cs: Seq<ClauseView>)
    ensures
        in_written_order(canonical_set(cs)),
        forall|i: int|
            0 < i < canonical_set(cs).len() ==> !(#[trigger] canonical_set(cs)[i]).same(canonical_set(cs)[i - 1]),
{
    lemma_sorted_clauses(canonical_conjuncts_all(cs));
    lemma_distinct_clauses(sorted_clauses(canonical_conjuncts_all(cs)));
}

/// Whether clauses of `cs` that are written alike are one clause.
pub open spec fn told_apart(cs: Seq<ClauseView>) -> bool {
    forall|x: ClauseView, y: ClauseView|
        #![trigger cs.contains(x), cs.contains(y)]
        cs.contains(x) && cs.contains(y) && x.text() == y.text() ==> x == y
}

proof fn lemma_order_is_unique(a: Seq<ClauseView>, b: Seq<ClauseView>)
    requires
        in_written_order(a),
        in_written_order(b),
        a.to_multiset() == b.to_multiset(),
        told_apart(a),
    ensures
        a == b,
    decreases a.len(),
{
    a.to_multiset_ensures();
    b.to_multiset_ensures();
    if a.len() > 0 {
        let x = a.last();
        let y = b.last();
        assert(a.contains(a[a.len() - 1]));
        assert(b.contains(b[b.len() - 1]));
        assert(b.to_multiset().count(x) > 0);
        assert(a.to_multiset().count(y) > 0);
        let i = choose|i: int| 0 <= i < b.len() && b[i] == x;
        let j = choose|j: int| 0 <= j < a.len() && a[j] == y;
        assert(text_le(b[i].text(), b[b.len() - 1].text()));
        assert(text_le(a[j].text(), a[a.len() - 1].text()));
        lemma_text_le_antisymmetric(x.text(), y.text());
        assert(a.contains(x) && a.contains(y));
        assert(x == y);
        let front = a.drop_last();
        let rest = b.drop_last();
        assert(a.remove(a.len() - 1) =~= front);
        assert(b.remove(b.len() - 1) =~= rest);
        assert(front.to_multiset() =~= rest.to_multiset());
        assert forall|p: int, q: int| 0 <= p <= q < front.len() implies text_le(
            (#[trigger] front[p]).text(),
            (#[trigger] front[q]).text(),
        ) by {
            assert(text_le(a[p].text(), a[q].text()));
        }
        assert forall|p: int, q: int| 0 <= p <= q < rest.len() implies text_le(
            (#[trigger] rest[p]).text(),
            (#[trigger] rest[q]).text(),
        ) by {
            assert(text_le(b[p].text(), b[q].text()));
        }
        assert forall|u: ClauseView, v: ClauseView|
            #![trigger front.contains(u), front.contains(v)]
            front.contains(u) && front.contains(v) && u.text() == v.text() implies u == v by {
            let p = choose|p: int| 0 <= p < front.len() && front[p] == u;
            let q = choose|q: int| 0 <= q < front.len() && front[q] == v;
            assert(a[p] == u && a[q] == v);
            assert(a.contains(u) && a.contains(v));
        }
        lemma_order_is_unique(front, rest);
        assert(a =~= front.push(x));
        assert(b =~= rest.push(y));
    } else {
        assert(a =~= b);
    }
}

proof fn lemma_conjuncts_without(cs: Seq<ClauseView>, k: int)
    requires
        0 <= k < cs.len(),
    ensures
        canonical_conjuncts_all(cs).to_multiset() == canonical_conjuncts_all(cs.remove(k)).to_multiset().add(
            canonical_conjuncts(cs[k]).to_multiset(),
        ),
    decreases cs.len(),
{
    let front = cs.drop_last();
    let own = canonical_conjuncts(cs.last());
    vstd::seq_lib::lemma_multiset_commutative(canonical_conjuncts_all(front), own);
    if k == cs.len() - 1 {
        assert(cs.remove(k) =~= front);
    } else {
        lemma_conjuncts_without(front, k);
        let rest = cs.remove(k);
        assert(rest.drop_last() =~= front.remove(k));
        assert(rest.last() == cs.last());
        vstd::seq_lib::lemma_multiset_commutative(canonical_conjuncts_all(rest.drop_last()), own);
        assert(canonical_conjuncts_all(cs).to_multiset() =~= canonical_conjuncts_all(rest).to_multiset().add(
            canonical_conjuncts(cs[k]).to_multiset(),
        ));
    }
}

proof fn lemma_conjuncts_any_order(a: Seq<ClauseView>, b: Seq<ClauseView>)
    requires
        a.to_multiset() == b.to_multiset(),
    ensures
        canonical_conjuncts_all(a).to_multiset() == canonical_conjuncts_all(b).to_multiset(),
    decreases a.len(),
{
    a.to_multiset_ensures();
    b.to_multiset_ensures();
    if a.len() > 0 {
        let last = a.len() - 1;
        assert(a.contains(a[last]));
        assert(b.to_multiset().count(a[last]) > 0);
        let k = choose|k: int| 0 <= k < b.len() && b[k] == a[last];
        lemma_conjuncts_any_order(a.remove(last), b.remove(k));
        lemma_conjuncts_without(a, last);
        lemma_conjuncts_without(b, k);
    } else {
        assert(a =~= b);
    }
}

/// The order in which the clauses of a set are given does not matter, where clauses that are written
/// alike are one clause.
pub proof fn law_clause_order_does_not_matter(a: Seq<ClauseView>, b: Seq<ClauseView>)
    requires
        a.to_multiset() == b.to_multiset(),
        told_apart(canonical_conjuncts_all(a)),
    ensures
        canonical_set(a) == canonical_set(b),
{
    lemma_conjuncts_any_order(a, b);
    let all = canonical_conjuncts_all(a);
    let sorted = sorted_clauses(all);
    lemma_sorted_clauses(all);
    lemma_sorted_clauses(canonical_conjuncts_all(b));
    all.to_multiset_ensures();
    sorted.to_multiset_ensures();
    assert forall|x: ClauseView, y: ClauseView|
        #![trigger sorted.contains(x), sorted.contains(y)]
        sorted.contains(x) && sorted.contains(y) && x.text() == y.text() implies x == y by {
        assert(all.to_multiset().count(x) > 0);
        assert(all.to_multiset().count(y) > 0);
        assert(all.contains(x) && all.contains(y));
    }
    lemma_order_is_unique(sorted, sorted_clauses(canonical_conjuncts_all(b)));
}

/// A double negation is taken away.
pub proof fn law_double_negations_collapse(c: ClauseView)
    ensures
        canonical(ClauseView::Not(Box::new(ClauseView::Not(Box::new(c))))) == canonical(c),
{
}

/// A conjunction among the clauses of a set stands for the clauses that it is made of.
pub proof fn law_conjunctions_are_flattened(before: Seq<ClauseView>, cs: Seq<ClauseView>)
    ensures
        canonical_set(before.push(ClauseView::And(cs))) == canonical_set(before + cs),
{
    let nested = before.push(ClauseView::And(cs));
    assert(nested.drop_last() =~= before);
    assert(canonical_conjuncts(nested.last()) == canonical_conjuncts_all(cs));
    assert(canonical_conjuncts_all(nested) == canonical_conjuncts_all(before) + canonical_conjuncts_all(cs));
    lemma_conjuncts_of_both(before, cs);
}

proof fn lemma_conjuncts_of_both(a: Seq<ClauseView>, b: Seq<ClauseView>)
    ensures
        canonical_conjuncts_all(a + b) == canonical_conjuncts_all(a) + canonical_conjuncts_all(b),
    decreases b.len(),
{
    if b.len() == 0 {
        assert(a + b =~= a);
        assert(canonical_conjuncts_all(a) + canonical_conjuncts_all(b) =~= canonical_conjuncts_all(a));
    } else {
        lemma_conjuncts_of_both(a, b.drop_last());
        assert((a + b).drop_last() =~= a + b.drop_last());
        assert(canonical_conjuncts_all(a + b) =~= canonical_conjuncts_all(a) + canonical_conjuncts_all(b));
    }
}

/// A clause under a double negation stands among the clauses of a set as it would without.
pub proof fn law_double_negations_vanish_from_sets(before: Seq<ClauseView>, c: ClauseView)
    ensures
        canonical_set(before.push(ClauseView::Not(Box::new(ClauseView::Not(Box::new(c)))))) == canonical_set(
            before.push(c),
        ),
{
    let negated = ClauseView::Not(Box::new(ClauseView::Not(Box::new(c))));
    assert(before.push(negated).drop_last() =~= before);
    assert(before.push(c).drop_last() =~= before);
    assert(canonical_conjuncts(negated) == canonical_conjuncts(c));
}

/// Whether a clause is as it stands in a canonical set: in canonical form, and neither a conjunction
/// nor a double negation.
pub open spec fn settled(c: ClauseView) -> bool {
    &&& canonical(c) == c
    &&& !(c is And)
    &&& !(c matches ClauseView::Not(inner) && *inner is Not)
}

proof fn lemma_sorting_sorted(s: Seq<ClauseView>)
    requires
        in_written_order(s),
    ensures
        sorted_clauses(s) == s,
    decreases s.len(),
{
    if s.len() > 0 {
        let front = s.drop_last();
        assert forall|i: int, j: int| 0 <= i <= j < front.len() implies text_le(
            (#[trigger] front[i]).text(),
            (#[trigger] front[j]).text(),
        ) by {
            assert(text_le(s[i].text(), s[j].text()));
        }
        lemma_sorting_sorted(front);
        if front.len() > 0 {
            assert(text_le(s[s.len() - 2].text(), s[s.len() - 1].text()));
        }
        assert(front.push(s.last()) =~= s);
    } else {
        assert(s =~= Seq::empty());
    }
}

proof fn lemma_distinct_stay(s: Seq<ClauseView>)
    requires
        forall|i: int| 0 < i < s.len() ==> !(#[trigger] s[i]).same(s[i - 1]),
    ensures
        distinct_clauses(s) == s,
    decreases s.len(),
{
    if s.len() > 0 {
        let front = s.drop_last();
        assert forall|i: int| 0 < i < front.len() implies !(#[trigger] front[i]).same(front[i - 1]) by {
            assert(!s[i].same(s[i - 1]));
        }
        lemma_distinct_stay(front);
        if front.len() > 0 {
            assert(!s[s.len() - 1].same(s[s.len() - 2]));
        }
        assert(front.push(s.last()) =~= s);
    } else {
        assert(s =~= Seq::empty());
    }
}

proof fn lemma_insert_value(s: Seq<ValueView>, x: ValueView)
    requires
        forall|i: int| 0 < i < s.len() ==> text_le(s[i - 1].text(), (#[trigger] s[i]).text()),
    ensures
        forall|i: int|
            0 < i < insert_value(s, x).len() ==> text_le(
                insert_value(s, x)[i - 1].text(),
                (#[trigger] insert_value(s, x)[i]).text(),
            ),
        insert_value(s, x).len() == s.len() + 1,
        insert_value(s, x).last() == x || (s.len() > 0 && insert_value(s, x).last() == s.last()),
    decreases s.len(),
{
    if s.len() > 0 && !text_le(s.last().text(), x.text()) {
        lemma_text_le_total(s.last().text(), x.text());
        let front = s.drop_last();
        assert forall|i: int| 0 < i < front.len() implies text_le(
            front[i - 1].text(),
            (#[trigger] front[i]).text(),
        ) by {
            assert(text_le(s[i - 1].text(), s[i].text()));
        }
        lemma_insert_value(front, x);
        let t = insert_value(front, x);
        let whole = t.push(s.last());
        assert forall|i: int| 0 < i < whole.len() implies text_le(
            whole[i - 1].text(),
            (#[trigger] whole[i]).text(),
        ) by {
            if i == t.len() {
                if t.last() != x {
                    assert(text_le(s[s.len() - 2].text(), s[s.len() - 1].text()));
                }
            } else {
                assert(text_le(t[i - 1].text(), t[i].text()));
            }
        }
    } else {
        let whole = s.push(x);
        assert forall|i: int| 0 < i < whole.len() implies text_le(
            whole[i - 1].text(),
            (#[trigger] whole[i]).text(),
        ) by {
            if i < s.len() {
                assert(text_le(s[i - 1].text(), s[i].text()));
            }
        }
    }
}

/// Whether the values stand in the order of how they are written.
pub open spec fn values_in_order(vs: Seq<ValueView>) -> bool {
    forall|i: int| 0 < i < vs.len() ==> text_le(vs[i - 1].text(), (#[trigger] vs[i]).text())
}

proof fn lemma_sorted_values(vs: Seq<ValueView>)
    ensures
        values_in_order(sorted_values(vs)),
    decreases vs.len(),
{
    if vs.len() > 0 {
        lemma_sorted_values(vs.drop_last());
        lemma_insert_value(sorted_values(vs.drop_last()), vs.last());
    }
}

proof fn lemma_distinct_values(vs: Seq<ValueView>)
    requires
        values_in_order(vs),
    ensures
        values_in_order(distinct_values(vs)),
        forall|i: int|
            0 < i < distinct_values(vs).len() ==> !(#[trigger] distinct_values(vs)[i]).same(
                distinct_values(vs)[i - 1],
            ),
        vs.len() > 0 ==> distinct_values(vs).len() > 0 && text_le(
            distinct_values(vs).last().text(),
            vs.last().text(),
        ),
    decreases vs.len(),
{
    if vs.len() > 0 {
        let front = vs.drop_last();
        assert forall|i: int| 0 < i < front.len() implies text_le(
            front[i - 1].text(),
            (#[trigger] front[i]).text(),
        ) by {
            assert(text_le(vs[i - 1].text(), vs[i].text()));
        }
        lemma_distinct_values(front);
        let kept = distinct_values(front);
        let whole = distinct_values(vs);
        lemma_text_le_total(vs.last().text(), vs.last().text());
        if front.len() > 0 {
            assert(text_le(vs[vs.len() - 2].text(), vs[vs.len() - 1].text()));
            lemma_text_le_transitive(kept.last().text(), front.last().text(), vs.last().text());
        } else {
            assert(kept.len() == 0);
        }
        assert forall|i: int| 0 < i < whole.len() implies text_le(whole[i - 1].text(), (#[trigger] whole[i]).text())
            && !whole[i].same(whole[i - 1]) by {
            if i < kept.len() {
                assert(text_le(kept[i - 1].text(), kept[i].text()));
                assert(!kept[i].same(kept[i - 1]));
            }
        }
    }
}

proof fn lemma_values_stay(vs: Seq<ValueView>)
    requires
        values_in_order(vs),
        forall|i: int| 0 < i < vs.len() ==> !(#[trigger] vs[i]).same(vs[i - 1]),
    ensures
        sorted_values(vs) == vs,
        distinct_values(vs) == vs,
    decreases vs.len(),
{
    if vs.len() > 0 {
        let front = vs.drop_last();
        assert forall|i: int| 0 < i < front.len() implies text_le(
            front[i - 1].text(),
            (#[trigger] front[i]).text(),
        ) && !front[i].same(front[i - 1]) by {
            assert(text_le(vs[i - 1].text(), vs[i].text()));
            assert(!vs[i].same(vs[i - 1]));
        }
        lemma_values_stay(front);
        if front.len() > 0 {
            assert(text_le(vs[vs.len() - 2].text(), vs[vs.len() - 1].text()));
            assert(!vs[vs.len() - 1].same(vs[vs.len() - 2]));
        }
        assert(front.push(vs.last()) =~= vs);
    } else {
        assert(vs =~= Seq::empty());
    }
}

/// The canonical form of a canonical clause is that clause.
pub proof fn law_canonical_clause_is_settled(c: ClauseView)
    ensures
        canonical(canonical(c)) == canonical(c),
    decreases c, 0int,
{
    match c {
        ClauseView::In(f, vs) => {
            lemma_sorted_values(vs);
            lemma_distinct_values(sorted_values(vs));
            lemma_values_stay(distinct_values(sorted_values(vs)));
        },
        ClauseView::NotIn(f, vs) => {
            lemma_sorted_values(vs);
            lemma_distinct_values(sorted_values(vs));
            lemma_values_stay(distinct_values(sorted_values(vs)));
        },
        ClauseView::Not(inner) => match *inner {
            ClauseView::Not(twice) => law_canonical_clause_is_settled(*twice),
            _ => {
                law_canonical_clause_is_settled(*inner);
                let once = canonical(*inner);
                assert(!(once is Not));
                assert(canonical(c) == ClauseView::Not(Box::new(once)));
                assert(canonical(canonical(c)) == ClauseView::Not(Box::new(canonical(once))));
            },
        },
        ClauseView::And(cs) => {
            lemma_conjuncts_settled(cs);
            lemma_list_settles(canonical_conjuncts_all(cs));
            let list = distinct_clauses(sorted_clauses(canonical_conjuncts_all(cs)));
            assert(canonical(c) == ClauseView::And(list));
            assert(canonical(ClauseView::And(list)) == ClauseView::And(
                distinct_clauses(sorted_clauses(canonical_conjuncts_all(list))),
            ));
        },
        ClauseView::Or(cs) => {
            lemma_each_settled(cs);
            let list = canonical_each(cs);
            assert(canonical(c) == ClauseView::Or(list));
            assert(canonical(ClauseView::Or(list)) == ClauseView::Or(canonical_each(list)));
        },
        _ => {},
    }
}

proof fn lemma_each_settled(cs: Seq<ClauseView>)
    ensures
        canonical_each(canonical_each(cs)) == canonical_each(cs),
    decreases cs, 0int,
{
    if cs.len() > 0 {
        lemma_each_settled(cs.drop_last());
        law_canonical_clause_is_settled(cs.last());
        let front = canonical_each(cs.drop_last());
        let whole = front.push(canonical(cs.last()));
        assert(canonical_each(cs) == whole);
        assert(whole.drop_last() =~= front);
    }
}

proof fn lemma_conjunct_settled(c: ClauseView)
    ensures
        forall|i: int| 0 <= i < canonical_conjuncts(c).len() ==> settled(#[trigger] canonical_conjuncts(c)[i]),
    decreases c, 1int,
{
    match c {
        ClauseView::And(cs) => {
            lemma_conjuncts_settled(cs);
            let all = canonical_conjuncts_all(cs);
            assert(canonical_conjuncts(c) == all);
            assert(forall|i: int| 0 <= i < all.len() ==> settled(#[trigger] all[i]));
        },
        ClauseView::Not(inner) => match *inner {
            ClauseView::Not(twice) => {
                lemma_conjunct_settled(*twice);
                let own = canonical_conjuncts(*twice);
                assert(canonical_conjuncts(c) == own);
                assert(forall|i: int| 0 <= i < own.len() ==> settled(#[trigger] own[i]));
            },
            _ => {
                law_canonical_clause_is_settled(c);
                assert(canonical(c) == ClauseView::Not(Box::new(canonical(*inner))));
                assert(!(canonical(*inner) is Not));
            },
        },
        _ => {
            law_canonical_clause_is_settled(c);
        },
    }
}

proof fn lemma_conjuncts_settled(cs: Seq<ClauseView>)
    ensures
        forall|i: int|
            0 <= i < canonical_conjuncts_all(cs).len() ==> settled(#[trigger] canonical_conjuncts_all(cs)[i]),
    decreases cs, 0int,
{
    if cs.len() > 0 {
        lemma_conjuncts_settled(cs.drop_last());
        lemma_conjunct_settled(cs.last());
        let front = canonical_conjuncts_all(cs.drop_last());
        let own = canonical_conjuncts(cs.last());
        let all = canonical_conjuncts_all(cs);
        assert(all == front + own);
        assert forall|i: int| 0 <= i < all.len() implies settled(#[trigger] all[i]) by {
            if i < front.len() {
                assert(all[i] == front[i]);
            } else {
                assert(all[i] == own[i - front.len()]);
            }
        }
    }
}

proof fn lemma_settled_conjuncts(cs: Seq<ClauseView>)
    requires
        forall|i: int| 0 <= i < cs.len() ==> settled(#[trigger] cs[i]),
    ensures
        canonical_conjuncts_all(cs) == cs,
    decreases cs.len(),
{
    if cs.len() > 0 {
        let front = cs.drop_last();
        assert forall|i: int| 0 <= i < front.len() implies settled(#[trigger] front[i]) by {
            assert(settled(cs[i]));
        }
        lemma_settled_conjuncts(front);
        assert(settled(cs[cs.len() - 1]));
        assert(canonical_conjuncts(cs.last()) == seq![cs.last()]);
        assert(front + seq![cs.last()] =~= cs);
    } else {
        assert(cs =~= Seq::empty());
    }
}

proof fn lemma_list_settles(all: Seq<ClauseView>)
    requires
        forall|i: int| 0 <= i < all.len() ==> settled(#[trigger] all[i]),
    ensures
        ({
            let list = distinct_clauses(sorted_clauses(all));
            &&& forall|i: int| 0 <= i < list.len() ==> settled(#[trigger] list[i])
            &&& distinct_clauses(sorted_clauses(canonical_conjuncts_all(list))) == list
        }),
{
    let sorted = sorted_clauses(all);
    let list = distinct_clauses(sorted);
    lemma_sorted_clauses(all);
    lemma_distinct_clauses(sorted);
    all.to_multiset_ensures();
    sorted.to_multiset_ensures();
    assert forall|i: int| 0 <= i < list.len() implies settled(#[trigger] list[i]) by {
        assert(list.contains(list[i]));
        assert(sorted.contains(list[i]));
        assert(sorted.to_multiset().count(list[i]) > 0);
        assert(all.contains(list[i]));
        let k = choose|k: int| 0 <= k < all.len() && all[k] == list[i];
        assert(settled(all[k]));
    }
    lemma_settled_conjuncts(list);
    lemma_sorting_sorted(list);
    lemma_distinct_stay(list);
}

/// A canonical clause set is its own canonical form, and holds neither a conjunction nor a double
/// negation.
pub proof fn law_canonical_form_is_settled(cs: Seq<ClauseView>)
    ensures
        canonical_set(canonical_set(cs)) == canonical_set(cs),
        forall|i: int| 0 <= i < canonical_set(cs).len() ==> settled(#[trigger] canonical_set(cs)[i]),
{
    lemma_conjuncts_settled(cs);
    lemma_list_settles(canonical_conjuncts_all(cs));
}

/// Whether each of the clauses compares equal to itself. A clause does, unless it holds a number that
/// is none.
pub open spec fn same_as_themselves(cs: Seq<ClauseView>) -> bool {
    forall|i: int| 0 <= i < cs.len() ==> (#[trigger] cs[i]).same(cs[i])
}

/// A canonical clause set holds no clause twice, where clauses that are written alike are one clause
/// and each compares equal to itself.
pub proof fn law_canonical_sets_hold_no_clause_twice(cs: Seq<ClauseView>)
    requires
        told_apart(canonical_conjuncts_all(cs)),
        same_as_themselves(canonical_conjuncts_all(cs)),
    ensures
        canonical_set(cs).no_duplicates(),
{
    let all = canonical_conjuncts_all(cs);
    let sorted = sorted_clauses(all);
    let list = canonical_set(cs);
    lemma_sorted_clauses(all);
    lemma_distinct_clauses(sorted);
    all.to_multiset_ensures();
    sorted.to_multiset_ensures();
    assert forall|i: int, j: int| 0 <= i < j < list.len() implies list[i] != list[j] by {
        if list[i] == list[j] {
            let x = list[j - 1];
            let y = list[j];
            assert(text_le(list[i].text(), list[j - 1].text()));
            assert(text_le(list[j - 1].text(), list[j].text()));
            lemma_text_le_antisymmetric(x.text(), y.text());
            assert(list.contains(x) && list.contains(y));
            assert(sorted.contains(x) && sorted.contains(y));
            assert(sorted.to_multiset().count(x) > 0 && sorted.to_multiset().count(y) > 0);
            assert(all.contains(x) && all.contains(y));
            assert(x == y);
            let k = choose|k: int| 0 <= k < all.len() && all[k] == y;
            assert(all[k].same(all[k]));
            assert(!list[j].same(list[j - 1]));
        }
    }
}

/// Each of the clauses twice in a row.
pub open spec fn doubled(cs: Seq<ClauseView>) -> Seq<ClauseView>
    decreases cs.len(),
{
    if cs.len() == 0 {
        Seq::empty()
    } else {
        doubled(cs.drop_last()).push(cs.last()).push(cs.last())
    }
}

proof fn lemma_doubled(cs: Seq<ClauseView>)
    requires
        in_written_order(cs),
    ensures
        in_written_order(doubled(cs)),
        doubled(cs).to_multiset() == cs.to_multiset().add(cs.to_multiset()),
        forall|x: ClauseView| #[trigger] doubled(cs).contains(x) ==> cs.contains(x),
    decreases cs.len(),
{
    if cs.len() > 0 {
        let front = cs.drop_last();
        let x = cs.last();
        assert forall|i: int, j: int| 0 <= i <= j < front.len() implies text_le(
            (#[trigger] front[i]).text(),
            (#[trigger] front[j]).text(),
        ) by {
            assert(text_le(cs[i].text(), cs[j].text()));
        }
        lemma_doubled(front);
        let rest = doubled(front);
        let whole = doubled(cs);
        assert(whole == rest.push(x).push(x));
        assert forall|y: ClauseView| #[trigger] whole.contains(y) implies cs.contains(y) by {
            let a = choose|a: int| 0 <= a < whole.len() && whole[a] == y;
            if a < rest.len() {
                assert(rest.contains(rest[a]));
                let b = choose|b: int| 0 <= b < front.len() && front[b] == y;
                assert(cs[b] == y);
            } else {
                assert(cs[cs.len() - 1] == y);
            }
        }
        assert forall|i: int, j: int| 0 <= i <= j < whole.len() implies text_le(
            (#[trigger] whole[i]).text(),
            (#[trigger] whole[j]).text(),
        ) by {
            if j < rest.len() {
                assert(text_le(rest[i].text(), rest[j].text()));
            } else {
                assert(whole.contains(whole[i]));
                let b = choose|b: int| 0 <= b < cs.len() && cs[b] == whole[i];
                assert(text_le(cs[b].text(), cs[cs.len() - 1].text()));
            }
        }
        front.to_multiset_ensures();
        rest.to_multiset_ensures();
        rest.push(x).to_multiset_ensures();
        assert(front.push(x) =~= cs);
        assert(whole.to_multiset() =~= cs.to_multiset().add(cs.to_multiset()));
    } else {
        assert(cs =~= Seq::empty());
        cs.to_multiset_ensures();
        assert(doubled(cs).to_multiset() =~= cs.to_multiset().add(cs.to_multiset()));
    }
}

proof fn lemma_distinct_doubled(cs: Seq<ClauseView>)
    requires
        same_as_themselves(cs),
    ensures
        distinct_clauses(doubled(cs)) == distinct_clauses(cs),
    decreases cs.len(),
{
    if cs.len() > 0 {
        let front = cs.drop_last();
        let x = cs.last();
        assert forall|i: int| 0 <= i < front.len() implies (#[trigger] front[i]).same(front[i]) by {
            assert(cs[i].same(cs[i]));
        }
        lemma_distinct_doubled(front);
        assert(cs[cs.len() - 1].same(cs[cs.len() - 1]));
        let once = doubled(front).push(x);
        let whole = once.push(x);
        assert(doubled(cs) == whole);
        assert(once.drop_last() =~= doubled(front));
        assert(whole.drop_last() =~= once);
        assert(distinct_clauses(once) == distinct_clauses(cs));
        assert(distinct_clauses(whole) == distinct_clauses(once));
    }
}

/// A clause list given twice over has the canonical form of the list given once, where clauses that
/// are written alike are one clause and each compares equal to itself.
pub proof fn law_repeated_clauses_do_not_matter(cs: Seq<ClauseView>)
    requires
        told_apart(canonical_conjuncts_all(cs)),
        same_as_themselves(canonical_conjuncts_all(cs)),
    ensures
        canonical_set(cs + cs) == canonical_set(cs),
{
    let all = canonical_conjuncts_all(cs);
    let twice = canonical_conjuncts_all(cs + cs);
    lemma_conjuncts_of_both(cs, cs);
    vstd::seq_lib::lemma_multiset_commutative(all, all);
    let sorted = sorted_clauses(all);
    lemma_sorted_clauses(all);
    lemma_sorted_clauses(twice);
    lemma_doubled(sorted);
    all.to_multiset_ensures();
    sorted.to_multiset_ensures();
    let pairs = doubled(sorted);
    assert forall|x: ClauseView| #[trigger] sorted.contains(x) implies all.contains(x) by {
        assert(sorted.to_multiset().count(x) > 0);
    }
    assert forall|x: ClauseView, y: ClauseView|
        #![trigger pairs.contains(x), pairs.contains(y)]
        pairs.contains(x) && pairs.contains(y) && x.text() == y.text() implies x == y by {
        assert(all.contains(x) && all.contains(y));
    }
    assert forall|i: int| 0 <= i < sorted.len() implies (#[trigger] sorted[i]).same(sorted[i]) by {
        assert(sorted.contains(sorted[i]));
        let k = choose|k: int| 0 <= k < all.len() && all[k] == sorted[i];
        assert(all[k].same(all[k]));
    }
    lemma_order_is_unique(pairs, sorted_clauses(twice));
    lemma_distinct_doubled(sorted);
}

/// Only one prefilter matches best. So the one that is put into a query is the one that is found for
/// its canonical clauses, and the query becomes the same clauses by either.
pub proof fn law_one_prefilter_matches_best(
    map: Map<Seq<char>, EntryView>,
    qcs: Seq<ClauseView>,
    a: Seq<char>,
    b: Seq<char>,
    alive: Set<u32>,
)
    requires
        best_match(map, qcs, a),
        best_match(map, qcs, b),
    ensures
        a == b,
        substituted_clauses(map[a], qcs, alive) == substituted_clauses(map[b], qcs, alive),
        !no_match(map, qcs),
{
    assert(map.contains_key(a));
    assert(map.contains_key(b));
    lemma_text_le_antisymmetric(a, b);
}

proof fn lemma_conjuncts_hold(cs: Seq<ClauseView>, x: ClauseView)
    ensures
        canonical_conjuncts_all(cs).contains(x) <==> exists|i: int|
            0 <= i < cs.len() && canonical_conjuncts(#[trigger] cs[i]).contains(x),
    decreases cs.len(),
{
    if cs.len() > 0 {
        let front = cs.drop_last();
        let before = canonical_conjuncts_all(front);
        let own = canonical_conjuncts(cs.last());
        let all = canonical_conjuncts_all(cs);
        assert(all == before + own);
        lemma_conjuncts_hold(front, x);
        if all.contains(x) {
            let k = choose|k: int| 0 <= k < all.len() && all[k] == x;
            if k < before.len() {
                assert(before[k] == x);
                let i = choose|i: int| 0 <= i < front.len() && canonical_conjuncts(#[trigger] front[i]).contains(x);
                assert(cs[i] == front[i]);
            } else {
                assert(own[k - before.len()] == x);
                assert(canonical_conjuncts(cs[cs.len() - 1]).contains(x));
            }
        }
        if exists|i: int| 0 <= i < cs.len() && canonical_conjuncts(#[trigger] cs[i]).contains(x) {
            let i = choose|i: int| 0 <= i < cs.len() && canonical_conjuncts(#[trigger] cs[i]).contains(x);
            if i < front.len() {
                assert(front[i] == cs[i]);
                let k = choose|k: int| 0 <= k < before.len() && before[k] == x;
                assert(all[k] == x);
            } else {
                let k = choose|k: int| 0 <= k < own.len() && own[k] == x;
                assert(all[before.len() + k] == x);
            }
        }
    }
}

/// Whether `j` is the last position of `list` whose clause is not written after `x`, and that clause
/// compares equal to `x`.
spec fn stands_for(list: Seq<ClauseView>, x: ClauseView, j: int) -> bool {
    &&& 0 <= j < list.len()
    &&& x.same(list[j])
    &&& text_le(list[j].text(), x.text())
    &&& forall|k: int| j < k < list.len() ==> !text_le((#[trigger] list[k]).text(), x.text())
}

proof fn lemma_stands_for(s: Seq<ClauseView>, x: ClauseView)
    requires
        in_written_order(s),
        told_apart(s),
        same_as_themselves(s),
        s.contains(x),
    ensures
        exists|j: int| stands_for(distinct_clauses(s), x, j),
    decreases s.len(),
{
    let front = s.drop_last();
    let last = s.last();
    assert(s.contains(s[s.len() - 1]));
    assert(s[s.len() - 1].same(s[s.len() - 1]));
    assert forall|i: int, j: int| 0 <= i <= j < front.len() implies text_le(
        (#[trigger] front[i]).text(),
        (#[trigger] front[j]).text(),
    ) by {
        assert(text_le(s[i].text(), s[j].text()));
    }
    lemma_distinct_clauses(front);
    let kept = distinct_clauses(front);
    let whole = distinct_clauses(s);
    if x == last {
        let j = whole.len() - 1;
        if kept.len() > 0 && last.same(kept.last()) {
            assert(kept.contains(kept[kept.len() - 1]));
            let b = choose|b: int| 0 <= b < front.len() && front[b] == kept.last();
            assert(text_le(s[b].text(), s[s.len() - 1].text()));
        } else {
            lemma_text_le_total(x.text(), x.text());
        }
        assert(stands_for(whole, x, j));
    } else {
        let a = choose|a: int| 0 <= a < s.len() && s[a] == x;
        assert(front[a] == x);
        assert(front.contains(x));
        assert forall|u: ClauseView, v: ClauseView|
            #![trigger front.contains(u), front.contains(v)]
            front.contains(u) && front.contains(v) && u.text() == v.text() implies u == v by {
            let i = choose|i: int| 0 <= i < front.len() && front[i] == u;
            let k = choose|k: int| 0 <= k < front.len() && front[k] == v;
            assert(s[i] == u && s[k] == v);
            assert(s.contains(u) && s.contains(v));
        }
        assert forall|i: int| 0 <= i < front.len() implies (#[trigger] front[i]).same(front[i]) by {
            assert(s[i].same(s[i]));
        }
        lemma_stands_for(front, x);
        let j = choose|j: int| stands_for(kept, x, j);
        assert(text_le(s[a].text(), s[s.len() - 1].text()));
        if text_le(last.text(), x.text()) {
            lemma_text_le_antisymmetric(last.text(), x.text());
            assert(s.contains(x) && s.contains(last));
        }
        assert forall|k: int| j < k < whole.len() implies !text_le((#[trigger] whole[k]).text(), x.text()) by {
            if k < kept.len() {
                assert(!text_le(kept[k].text(), x.text()));
            }
        }
        assert(stands_for(whole, x, j));
    }
}

proof fn lemma_canonical_members(cs: Seq<ClauseView>)
    ensures
        in_written_order(sorted_clauses(canonical_conjuncts_all(cs))),
        forall|x: ClauseView| #[trigger]
            sorted_clauses(canonical_conjuncts_all(cs)).contains(x) <==> canonical_conjuncts_all(cs).contains(x),
        forall|x: ClauseView| #[trigger]
            canonical_set(cs).contains(x) ==> canonical_conjuncts_all(cs).contains(x),
{
    let all = canonical_conjuncts_all(cs);
    let sorted = sorted_clauses(all);
    lemma_sorted_clauses(all);
    lemma_distinct_clauses(sorted);
    all.to_multiset_ensures();
    sorted.to_multiset_ensures();
    assert forall|x: ClauseView| #[trigger] sorted.contains(x) <==> all.contains(x) by {
        assert(sorted.to_multiset().count(x) == all.to_multiset().count(x));
    }
}

/// A query that holds every clause a prefilter was registered with is matched by it, in whatever
/// order and among whatever others they stand, where clauses that are written alike are one clause
/// and each compares equal to itself.
pub proof fn law_queries_with_the_clauses_are_matched(pcs: Seq<ClauseView>, query: Seq<ClauseView>)
    requires
        forall|i: int| 0 <= i < pcs.len() ==> query.contains(#[trigger] pcs[i]),
        canonical_set(pcs).len() > 0,
        told_apart(canonical_conjuncts_all(query)),
        same_as_themselves(canonical_conjuncts_all(query)),
    ensures
        subset(canonical_set(pcs), canonical_set(query)) is Some,
{
    let own_all = canonical_conjuncts_all(pcs);
    let all = canonical_conjuncts_all(query);
    let sorted = sorted_clauses(all);
    let cp = canonical_set(pcs);
    let cq = canonical_set(query);
    lemma_canonical_members(pcs);
    lemma_canonical_members(query);
    assert forall|x: ClauseView| #[trigger] own_all.contains(x) implies all.contains(x) by {
        lemma_conjuncts_hold(pcs, x);
        lemma_conjuncts_hold(query, x);
        let i = choose|i: int| 0 <= i < pcs.len() && canonical_conjuncts(#[trigger] pcs[i]).contains(x);
        assert(query.contains(pcs[i]));
        let k = choose|k: int| 0 <= k < query.len() && query[k] == pcs[i];
        assert(canonical_conjuncts(query[k]).contains(x));
    }
    assert forall|x: ClauseView| #[trigger] all.contains(x) implies x.same(x) by {
        let k = choose|k: int| 0 <= k < all.len() && all[k] == x;
        assert(all[k].same(all[k]));
    }
    assert(told_apart(own_all)) by {
        assert forall|x: ClauseView, y: ClauseView|
            #![trigger own_all.contains(x), own_all.contains(y)]
            own_all.contains(x) && own_all.contains(y) && x.text() == y.text() implies x == y by {
            assert(all.contains(x) && all.contains(y));
        }
    }
    assert forall|i: int| 0 <= i < own_all.len() implies (#[trigger] own_all[i]).same(own_all[i]) by {
        assert(own_all.contains(own_all[i]));
        assert(all.contains(own_all[i]));
    }
    law_canonical_sets_are_ordered(pcs);
    assert(told_apart(sorted)) by {
        assert forall|x: ClauseView, y: ClauseView|
            #![trigger sorted.contains(x), sorted.contains(y)]
            sorted.contains(x) && sorted.contains(y) && x.text() == y.text() implies x == y by {
            assert(all.contains(x) && all.contains(y));
        }
    }
    assert forall|i: int| 0 <= i < sorted.len() implies (#[trigger] sorted[i]).same(sorted[i]) by {
        assert(sorted.contains(sorted[i]));
        assert(all.contains(sorted[i]));
    }
    assert forall|a: int| 0 <= a < cp.len() implies exists|j: int| stands_for(cq, #[trigger] cp[a], j) by {
        assert(cp.contains(cp[a]));
        assert(own_all.contains(cp[a]));
        assert(all.contains(cp[a]));
        assert(sorted.contains(cp[a]));
        lemma_stands_for(sorted, cp[a]);
    }
    let f = |a: int| choose|j: int| stands_for(cq, cp[a], j);
    assert forall|a: int| 0 <= a < cp.len() implies stands_for(cq, #[trigger] cp[a], f(a)) by {
        assert(exists|j: int| stands_for(cq, cp[a], j));
    }
    assert forall|i: int| 0 <= i < cp.len() implies {
        &&& (exists|j: int| positions_of(cq, #[trigger] cp[i]).contains(j))
        &&& positions_of(cp, cp[i]).len() <= positions_of(cq, cp[i]).len()
    } by {
        let p = cp[i];
        assert(stands_for(cq, cp[i], f(i)));
        law_equality_is_shared(p, cq[f(i)], p);
        assert(positions_of(cq, p).contains(f(i)));
        let own = positions_of(cp, p);
        let there = positions_of(cq, p);
        lemma_positions_finite(cp, p);
        lemma_positions_finite(cq, p);
        let image = own.map(f);
        assert(vstd::relations::injective_on(f, own)) by {
            assert forall|a: int, b: int| own.contains(a) && own.contains(b) && #[trigger] f(a) == #[trigger] f(b)
                implies a == b by {
                if a < b {
                    lemma_apart_in_order(cp, cq, p, a, b, f(a), f(b - 1), f(b));
                }
                if b < a {
                    lemma_apart_in_order(cp, cq, p, b, a, f(b), f(a - 1), f(a));
                }
            }
        }
        vstd::set_lib::lemma_map_size(own, image, f);
        assert forall|x: int| image.contains(x) implies there.contains(x) by {
            let a = choose|a: int| own.contains(a) && f(a) == x;
            assert(stands_for(cq, cp[a], f(a)));
            law_equality_is_shared(cp[a], cq[x], p);
            law_equality_is_shared(cq[x], cp[a], p);
        }
        vstd::set_lib::lemma_len_subset(image, there);
    }
    law_supersets_are_matched(cp, cq);
}

proof fn lemma_apart_in_order(
    cp: Seq<ClauseView>,
    cq: Seq<ClauseView>,
    p: ClauseView,
    a: int,
    b: int,
    fa: int,
    fz: int,
    fb: int,
)
    requires
        0 <= a < b < cp.len(),
        in_written_order(cp),
        forall|i: int| 0 < i < cp.len() ==> !(#[trigger] cp[i]).same(cp[i - 1]),
        cp[a].same(p),
        cp[b].same(p),
        stands_for(cq, cp[a], fa),
        stands_for(cq, cp[b - 1], fz),
        stands_for(cq, cp[b], fb),
    ensures
        fa < fb,
{
    let z = cp[b - 1];
    assert(!cp[b].same(cp[b - 1]));
    assert(text_le(cp[a].text(), cp[b - 1].text()));
    assert(text_le(cp[b - 1].text(), cp[b].text()));
    lemma_text_le_transitive(cq[fa].text(), cp[a].text(), z.text());
    lemma_text_le_transitive(cq[fz].text(), z.text(), cp[b].text());
    if fz == fb {
        law_equality_is_shared(z, cq[fz], z);
        law_equality_is_shared(cp[b], cq[fb], z);
    }
}

/// A refresh changes the slots, their count, the time that they took and the moment of the entry, and
/// nothing else.
pub proof fn law_a_refresh_changes_the_slots_alone(e: EntryView, slots: Set<u32>, nanos: u64, now: i64)
    requires
        slots.len() <= u64::MAX,
    ensures
        ({
            let r = e.refreshed(slots, nanos, now);
            &&& r.slots == slots
            &&& r.cardinality == slots.len()
            &&& r.compute_duration_nanos == nanos
            &&& r.last_refreshed == now
            &&& r.name == e.name
            &&& r.clauses == e.clauses
            &&& r.refresh_interval_secs == e.refresh_interval_secs
            &&& r.refresh_errors == e.refresh_errors
            &&& r.substitutions == e.substitutions
        }),
{
}

/// An entry is due from the moment on that lies its interval behind its last refresh, and a refresh puts
/// that off by a whole interval.
pub proof fn law_entries_fall_due_after_their_interval(
    e: EntryView,
    slots: Set<u32>,
    nanos: u64,
    now: i64,
    later: i64,
)
    ensures
        e.stale(later) <==> later >= e.last_refreshed + e.refresh_interval_secs,
        e.refreshed(slots, nanos, now).stale(later) <==> later >= now + e.refresh_interval_secs,
        e.wf() ==> !e.refreshed(slots, nanos, now).stale(now),
{
}

/// An interval is kept from half a minute to a day: a shorter one becomes half a minute, a longer one a day.
pub proof fn law_intervals_are_kept_within_bounds(secs: u64)
    ensures
        30 <= clamped_interval(secs) <= 86_400,
        30 <= secs <= 86_400 ==> clamped_interval(secs) == secs,
        secs < 30 ==> clamped_interval(secs) == 30,
        secs > 86_400 ==> clamped_interval(secs) == 86_400,
{
}

/// A name that is registered can always be registered again; another only while there are fewer than the
/// limit.
pub proof fn law_full_registries_take_known_names(entries: Map<Seq<char>, EntryView>, max: usize, name: Seq<char>)
    ensures
        entries.contains_key(name) ==> has_room(entries, max, name),
        !entries.contains_key(name) ==> (has_room(entries, max, name) <==> entries.dom().len() + 1 <= max),
{
}

/// A failed refresh counts as one error, and a use as one use; both leave all else as it is.
pub proof fn law_errors_and_uses_are_counted_apart(e: EntryView)
    ensures
        e.refresh_errors < u64::MAX ==> failed_once_more(e).refresh_errors == e.refresh_errors + 1,
        failed_once_more(e) == (EntryView { refresh_errors: failed_once_more(e).refresh_errors, ..e }),
        e.substitutions < u64::MAX ==> used_once_more(e).substitutions == e.substitutions + 1,
        used_once_more(e) == (EntryView { substitutions: used_once_more(e).substitutions, ..e }),
        e.refresh_errors == u64::MAX ==> failed_once_more(e).refresh_errors == 0,
        e.substitutions == u64::MAX ==> used_once_more(e).substitutions == 0,
{
}

/// A refusal says what was wrong.
pub proof fn law_refusals_are_told_apart(n: usize, message: String)
    ensures
        RegistryError::RegistryFull(n).text() == "prefilter registry full (max="@ + crate::text::dec(n as nat) + ")"@,
        RegistryError::InvalidClauses(message).text() == "invalid clause set: "@ + message@,
{
}

/// A listing tells each number of an entry under its own name, and the time in whole milliseconds.
pub proof fn law_listings_tell_the_entry(info: PrefilterInfo, e: EntryView)
    requires
        info_of(info, e),
    ensures
        info.name@ == e.name,
        info.cardinality == e.cardinality,
        info.last_refreshed == e.last_refreshed,
        info.refresh_interval_secs == e.refresh_interval_secs,
        info.last_compute_ms * 1_000_000 <= e.compute_duration_nanos < (info.last_compute_ms + 1) * 1_000_000,
        info.refresh_errors == e.refresh_errors,
        info.substitutions == e.substitutions,
        models(info.clauses@) == e.clauses,
{
}

/// The prefilter that is put into a query is one that matches, and no other that matches stands for more
/// clauses; of those that stand for as many, none has a name that comes before.
pub proof fn law_the_largest_prefilter_is_taken(
    map: Map<Seq<char>, EntryView>,
    qcs: Seq<ClauseView>,
    name: Seq<char>,
    other: Seq<char>,
)
    requires
        best_match(map, qcs, name),
    ensures
        map.contains_key(name),
        subset(map[name].clauses, qcs) is Some,
        map.contains_key(other) && subset(map[other].clauses, qcs) is Some ==> map[other].clauses.len()
            <= map[name].clauses.len() && (map[other].clauses.len() == map[name].clauses.len() ==> text_le(
            name,
            other,
        )),
        !no_match(map, qcs),
{
    lemma_matched(map[name].clauses, qcs, map[name].clauses.len() as int);
    if map.contains_key(other) && subset(map[other].clauses, qcs) is Some {
        lemma_matched(map[other].clauses, qcs, map[other].clauses.len() as int);
    }
}

/// A query with a prefilter put in starts with the bitmap of that prefilter, under its name and with the
/// alive of its slots; behind it stand the other clauses of the query, in their order.
pub proof fn law_the_bitmap_stands_in_front(e: EntryView, qcs: Seq<ClauseView>, alive: Set<u32>)
    requires
        subset(e.clauses, qcs) is Some,
    ensures
        ({
            let out = substituted_clauses(e, qcs, alive);
            let m = subset(e.clauses, qcs)->0;
            &&& out.len() + e.clauses.len() == qcs.len() + 1
            &&& out[0] matches ClauseView::BucketBitmap { field, bucket_name, slots }
            &&& field == "__prefilter"@
            &&& bucket_name == e.name
            &&& forall|slot: u32| #[trigger] slots.contains(slot) <==> e.slots.contains(slot) && alive.contains(slot)
            &&& out.skip(1) == without(qcs, m, qcs.len() as int)
        }),
{
    let m = subset(e.clauses, qcs)->0;
    let rest = without(qcs, m, qcs.len() as int);
    let out = substituted_clauses(e, qcs, alive);
    assert(out.skip(1) =~= rest);
    lemma_matched(e.clauses, qcs, e.clauses.len() as int);
    lemma_without_len(qcs, m, qcs.len() as int);
    assert(m.filter(|x: int| x < qcs.len()) =~= m) by {
        lemma_filter_all(m, qcs.len() as int);
    }
}

proof fn lemma_filter_all(m: Seq<int>, n: int)
    requires
        forall|i: int| 0 <= i < m.len() ==> #[trigger] m[i] < n,
    ensures
        m.filter(|x: int| x < n) == m,
    decreases m.len(),
{
    reveal(Seq::filter);
    if m.len() > 0 {
        assert forall|i: int| 0 <= i < m.drop_last().len() implies #[trigger] m.drop_last()[i] < n by {
            assert(m[i] < n);
        }
        lemma_filter_all(m.drop_last(), n);
        assert(m.last() < n);
        assert(m.drop_last().push(m.last()) =~= m);
    }
}

proof fn lemma_without_len(qcs: Seq<ClauseView>, m: Seq<int>, n: int)
    requires
        0 <= n <= qcs.len(),
        m.no_duplicates(),
        forall|i: int| 0 <= i < m.len() ==> 0 <= #[trigger] m[i],
    ensures
        without(qcs, m, n).len() + m.filter(|x: int| x < n).len() == n,
    decreases n,
{
    let low = |x: int| x < n;
    if n == 0 {
        lemma_filter_none(m, 0);
    } else {
        lemma_without_len(qcs, m, n - 1);
        lemma_filter_step(m, n - 1);
    }
}

proof fn lemma_filter_none(m: Seq<int>, n: int)
    requires
        forall|i: int| 0 <= i < m.len() ==> n <= #[trigger] m[i],
    ensures
        m.filter(|x: int| x < n).len() == 0,
    decreases m.len(),
{
    reveal(Seq::filter);
    if m.len() > 0 {
        assert forall|i: int| 0 <= i < m.drop_last().len() implies n <= #[trigger] m.drop_last()[i] by {
            assert(n <= m[i]);
        }
        lemma_filter_none(m.drop_last(), n);
        assert(n <= m.last());
    }
}

proof fn lemma_filter_step(m: Seq<int>, n: int)
    requires
        m.no_duplicates(),
    ensures
        m.filter(|x: int| x < n + 1).len() == m.filter(|x: int| x < n).len() + (if m.contains(n) { 1nat } else { 0nat }),
    decreases m.len(),
{
    reveal(Seq::filter);
    if m.len() > 0 {
        let before = m.drop_last();
        lemma_filter_step(before, n);
        if m.last() == n {
            assert(m.contains(n));
            if before.contains(n) {
                let i = choose|i: int| 0 <= i < before.len() && before[i] == n;
                assert(m[i] == m[m.len() - 1]);
            }
        } else {
            if m.contains(n) {
                let i = choose|i: int| 0 <= i < m.len() && m[i] == n;
                assert(before[i] == n);
            }
            if before.contains(n) {
                let i = choose|i: int| 0 <= i < before.len() && before[i] == n;
                assert(m[i] == n);
            }
        }
    }
}

/// A clause that is not stood for stays behind the others that stay; one that is stood for goes.
pub proof fn law_other_clauses_stay_in_order(qcs: Seq<ClauseView>, c: ClauseView, m: Seq<int>)
    ensures
        without(qcs, m, 0).len() == 0,
        m.contains(qcs.len() as int) ==> without(qcs.push(c), m, qcs.len() as int + 1) == without(qcs, m, qcs.len() as int),
        !m.contains(qcs.len() as int) ==> without(qcs.push(c), m, qcs.len() as int + 1) == without(
            qcs,
            m,
            qcs.len() as int,
        ).push(c),
{
    lemma_without_prefix(qcs, c, m, qcs.len() as int);
}

proof fn lemma_without_prefix(qcs: Seq<ClauseView>, c: ClauseView, m: Seq<int>, n: int)
    requires
        0 <= n <= qcs.len(),
    ensures
        without(qcs.push(c), m, n) == without(qcs, m, n),
    decreases n,
{
    if n > 0 {
        lemma_without_prefix(qcs, c, m, n - 1);
    }
}

} // verus!
