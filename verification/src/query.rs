//! Queries: filter clauses, values, sorting and cursors.

use crate::bitmap::{bits, same_slots, share};
use crate::text::{dec, dec_int, decimal, decimal_i64, join, join_texts, text_eq, views};
use crate::time_buckets::{
    apart, find_manager, law_fields_have_their_own_manager, law_other_fields_have_no_manager,
    law_the_nearest_within_tolerance_is_taken, law_windows_are_covered_where_they_can_be, longest, manager_position,
    nearest_bucket, nearest_within, shortest_covering, BucketView, TimeBucketManager,
};
use roaring::RoaringBitmap;
use std::sync::Arc;
use vstd::prelude::*;
use vstd::string::*;

verus! {

/// The order in which results are walked.
#[derive(Debug, Clone, Copy, PartialEq, Eq, Hash, Structural)]
pub enum SortDirection {
    Asc,
    Desc,
}

/// A floating-point number: the bits of its double-precision form, and how it is written.
#[derive(Debug)]
pub struct FloatValue {
    pub bits: u64,
    pub text: String,
}

/// A dynamically-typed value used in filter predicates and cursors.
#[derive(Debug)]
pub enum Value {
    Integer(i64),
    Float(FloatValue),
    Bool(bool),
    String(String),
}

/// A value as a mathematical value.
pub enum ValueView {
    Integer(int),
    Float(u64, Seq<char>),
    Bool(bool),
    String(Seq<char>),
}

impl View for Value {
    type V = ValueView;

    open spec fn view(&self) -> ValueView {
        match self {
            Value::Integer(v) => ValueView::Integer(*v as int),
            Value::Float(v) => ValueView::Float(v.bits, v.text@),
            Value::Bool(v) => ValueView::Bool(*v),
            Value::String(v) => ValueView::String(v@),
        }
    }
}

/// The magnitude part of a double: all but the sign bit.
pub open spec fn magnitude(bits: u64) -> int {
    bits as int % 0x8000_0000_0000_0000
}

/// Whether two doubles compare equal: neither is a NaN, and they are the same number, where
/// the two zeros are one.
pub open spec fn doubles_equal(a: u64, b: u64) -> bool {
    &&& magnitude(a) <= 0x7ff0_0000_0000_0000
    &&& magnitude(b) <= 0x7ff0_0000_0000_0000
    &&& (a == b || (magnitude(a) == 0 && magnitude(b) == 0))
}

impl ValueView {
    /// Whether two values compare equal.
    pub open spec fn same(self, other: ValueView) -> bool {
        match (self, other) {
            (ValueView::Integer(a), ValueView::Integer(b)) => a == b,
            (ValueView::Float(a, _), ValueView::Float(b, _)) => doubles_equal(a, b),
            (ValueView::Bool(a), ValueView::Bool(b)) => a == b,
            (ValueView::String(a), ValueView::String(b)) => a == b,
            _ => false,
        }
    }

    /// How the value is written.
    pub open spec fn text(self) -> Seq<char> {
        match self {
            ValueView::Integer(v) => dec_int(v),
            ValueView::Float(_, text) => text,
            ValueView::Bool(v) => if v { "true"@ } else { "false"@ },
            ValueView::String(v) => v,
        }
    }
}

impl Value {
    /// Writes the value.
    pub fn to_text(&self) -> (r: String)
        ensures
            r@ == self@.text(),
    {
        match self {
            Value::Integer(v) => decimal_i64(*v),
            Value::Float(v) => v.text.clone(),
            Value::Bool(v) => if *v { "true".to_owned() } else { "false".to_owned() },
            Value::String(v) => v.clone(),
        }
    }

    /// Whether two values compare equal.
    pub fn same_as(&self, other: &Value) -> (r: bool)
        ensures
            r == self@.same(other@),
    {
        match (self, other) {
            (Value::Integer(a), Value::Integer(b)) => *a == *b,
            (Value::Float(a), Value::Float(b)) => {
                let ma: u64 = a.bits % 0x8000_0000_0000_0000;
                let mb: u64 = b.bits % 0x8000_0000_0000_0000;
                ma <= 0x7ff0_0000_0000_0000 && mb <= 0x7ff0_0000_0000_0000 && (a.bits == b.bits || (ma == 0 && mb
                    == 0))
            },
            (Value::Bool(a), Value::Bool(b)) => *a == *b,
            (Value::String(a), Value::String(b)) => text_eq(a.as_str(), b.as_str()),
            _ => false,
        }
    }
}

impl Clone for Value {
    fn clone(&self) -> (r: Self)
        ensures
            r@ == self@,
    {
        match self {
            Value::Integer(v) => Value::Integer(*v),
            Value::Float(v) => Value::Float(FloatValue { bits: v.bits, text: v.text.clone() }),
            Value::Bool(v) => Value::Bool(*v),
            Value::String(v) => Value::String(v.clone()),
        }
    }
}

/// The values as mathematical values.
pub open spec fn value_views(values: Seq<Value>) -> Seq<ValueView> {
    Seq::new(values.len(), |i: int| values[i]@)
}

/// How the values are written.
pub open spec fn value_texts(values: Seq<ValueView>) -> Seq<Seq<char>> {
    Seq::new(values.len(), |i: int| values[i].text())
}

/// Whether two lists hold values that compare equal, one for one.
pub open spec fn same_values(a: Seq<ValueView>, b: Seq<ValueView>) -> bool {
    a.len() == b.len() && forall|i: int| 0 <= i < a.len() ==> #[trigger] a[i].same(b[i])
}

/// A copy of `values`.
pub fn clone_values(values: &Vec<Value>) -> (r: Vec<Value>)
    ensures
        value_views(r@) == value_views(values@),
{
    let mut r: Vec<Value> = Vec::new();
    let mut i: usize = 0;
    while i < values.len()
        invariant
            i <= values@.len(),
            r@.len() == i,
            forall|j: int| 0 <= j < i ==> #[trigger] r@[j]@ == values@[j]@,
        decreases values@.len() - i,
    {
        r.push(values[i].clone());
        i = i + 1;
    }
    assert(value_views(r@) =~= value_views(values@));
    r
}

/// Writes each of `values`.
pub fn texts_of_values(values: &Vec<Value>) -> (r: Vec<String>)
    ensures
        views(r@) == value_texts(value_views(values@)),
{
    let mut r: Vec<String> = Vec::new();
    let mut i: usize = 0;
    while i < values.len()
        invariant
            i <= values@.len(),
            r@.len() == i,
            forall|j: int| 0 <= j < i ==> #[trigger] r@[j]@ == values@[j]@.text(),
        decreases values@.len() - i,
    {
        r.push(values[i].to_text());
        i = i + 1;
    }
    assert(views(r@) =~= value_texts(value_views(values@)));
    r
}

fn lists_same(a: &Vec<Value>, b: &Vec<Value>) -> (r: bool)
    ensures
        r == same_values(value_views(a@), value_views(b@)),
{
    if a.len() != b.len() {
        return false;
    }
    let mut i: usize = 0;
    while i < a.len()
        invariant
            i <= a@.len(),
            a@.len() == b@.len(),
            forall|j: int| 0 <= j < i ==> #[trigger] value_views(a@)[j].same(value_views(b@)[j]),
        decreases a@.len() - i,
    {
        if !a[i].same_as(&b[i]) {
            assert(!value_views(a@)[i as int].same(value_views(b@)[i as int]));
            return false;
        }
        i = i + 1;
    }
    true
}

/// A filter clause: a predicate on indexed data.
///
/// - `Eq`, `NotEq`, `In`, `Gt`, `Lt`, `Gte`, `Lte` speak of one field
/// - `And`, `Or`, `Not` compose clauses
/// - `BucketBitmap` is made by the library: a precomputed bitmap under a stable name
#[derive(Debug)]
pub enum FilterClause {
    Eq(String, Value),
    NotEq(String, Value),
    In(String, Vec<Value>),
    NotIn(String, Vec<Value>),
    Gt(String, Value),
    Lt(String, Value),
    Gte(String, Value),
    Lte(String, Value),
    Not(Box<FilterClause>),
    And(Vec<FilterClause>),
    Or(Vec<FilterClause>),
    IsNull(String),
    IsNotNull(String),
    BucketBitmap { field: String, bucket_name: String, bitmap: Arc<RoaringBitmap> },
}

/// A clause as a mathematical value.
pub enum ClauseView {
    Eq(Seq<char>, ValueView),
    NotEq(Seq<char>, ValueView),
    In(Seq<char>, Seq<ValueView>),
    NotIn(Seq<char>, Seq<ValueView>),
    Gt(Seq<char>, ValueView),
    Lt(Seq<char>, ValueView),
    Gte(Seq<char>, ValueView),
    Lte(Seq<char>, ValueView),
    Not(Box<ClauseView>),
    And(Seq<ClauseView>),
    Or(Seq<ClauseView>),
    IsNull(Seq<char>),
    IsNotNull(Seq<char>),
    BucketBitmap { field: Seq<char>, bucket_name: Seq<char>, slots: Set<u32> },
}

impl FilterClause {
    /// The clause as a mathematical value.
    pub open spec fn model(self) -> ClauseView
        decreases self,
    {
        match self {
            FilterClause::Eq(f, v) => ClauseView::Eq(f@, v@),
            FilterClause::NotEq(f, v) => ClauseView::NotEq(f@, v@),
            FilterClause::In(f, v) => ClauseView::In(f@, value_views(v@)),
            FilterClause::NotIn(f, v) => ClauseView::NotIn(f@, value_views(v@)),
            FilterClause::Gt(f, v) => ClauseView::Gt(f@, v@),
            FilterClause::Lt(f, v) => ClauseView::Lt(f@, v@),
            FilterClause::Gte(f, v) => ClauseView::Gte(f@, v@),
            FilterClause::Lte(f, v) => ClauseView::Lte(f@, v@),
            FilterClause::Not(c) => ClauseView::Not(Box::new(c.model())),
            FilterClause::And(cs) => ClauseView::And(models(cs@)),
            FilterClause::Or(cs) => ClauseView::Or(models(cs@)),
            FilterClause::IsNull(f) => ClauseView::IsNull(f@),
            FilterClause::IsNotNull(f) => ClauseView::IsNotNull(f@),
            FilterClause::BucketBitmap { field, bucket_name, bitmap } => ClauseView::BucketBitmap {
                field: field@,
                bucket_name: bucket_name@,
                slots: bits(*bitmap),
            },
        }
    }
}

impl View for FilterClause {
    type V = ClauseView;

    open spec fn view(&self) -> ClauseView {
        self.model()
    }
}

/// The clauses as mathematical values.
pub open spec fn models(clauses: Seq<FilterClause>) -> Seq<ClauseView>
    decreases clauses,
{
    Seq::new(
        clauses.len(),
        |i: int|
            if 0 <= i < clauses.len() {
                clauses[i].model()
            } else {
                arbitrary()
            },
    )
}

impl ClauseView {
    /// How the clause is written.
    pub open spec fn text(self) -> Seq<char>
        decreases self,
    {
        match self {
            ClauseView::Eq(f, v) => f + " = "@ + v.text(),
            ClauseView::NotEq(f, v) => f + " != "@ + v.text(),
            ClauseView::In(f, v) => f + " IN ["@ + join(value_texts(v), ", "@) + "]"@,
            ClauseView::NotIn(f, v) => f + " NOT IN ["@ + join(value_texts(v), ", "@) + "]"@,
            ClauseView::Gt(f, v) => f + " > "@ + v.text(),
            ClauseView::Lt(f, v) => f + " < "@ + v.text(),
            ClauseView::Gte(f, v) => f + " >= "@ + v.text(),
            ClauseView::Lte(f, v) => f + " <= "@ + v.text(),
            ClauseView::Not(c) => "NOT("@ + c.text() + ")"@,
            ClauseView::And(cs) => "("@ + join(clause_texts(cs), " AND "@) + ")"@,
            ClauseView::Or(cs) => "("@ + join(clause_texts(cs), " OR "@) + ")"@,
            ClauseView::IsNull(f) => f + " IS NULL"@,
            ClauseView::IsNotNull(f) => f + " IS NOT NULL"@,
            ClauseView::BucketBitmap { field, bucket_name, slots } => field + " ~bucket("@ + bucket_name + ")"@,
        }
    }

    /// Whether two clauses compare equal: the same shape over the same fields, with values that
    /// compare equal and bitmaps of the same slots.
    pub open spec fn same(self, other: ClauseView) -> bool
        decreases self,
    {
        match (self, other) {
            (ClauseView::Eq(f, v), ClauseView::Eq(g, w)) => f == g && v.same(w),
            (ClauseView::NotEq(f, v), ClauseView::NotEq(g, w)) => f == g && v.same(w),
            (ClauseView::In(f, v), ClauseView::In(g, w)) => f == g && same_values(v, w),
            (ClauseView::NotIn(f, v), ClauseView::NotIn(g, w)) => f == g && same_values(v, w),
            (ClauseView::Gt(f, v), ClauseView::Gt(g, w)) => f == g && v.same(w),
            (ClauseView::Lt(f, v), ClauseView::Lt(g, w)) => f == g && v.same(w),
            (ClauseView::Gte(f, v), ClauseView::Gte(g, w)) => f == g && v.same(w),
            (ClauseView::Lte(f, v), ClauseView::Lte(g, w)) => f == g && v.same(w),
            (ClauseView::Not(c), ClauseView::Not(d)) => c.same(*d),
            (ClauseView::And(cs), ClauseView::And(ds)) => same_clauses(cs, ds),
            (ClauseView::Or(cs), ClauseView::Or(ds)) => same_clauses(cs, ds),
            (ClauseView::IsNull(f), ClauseView::IsNull(g)) => f == g,
            (ClauseView::IsNotNull(f), ClauseView::IsNotNull(g)) => f == g,
            (
                ClauseView::BucketBitmap { field: f, bucket_name: n, slots: s },
                ClauseView::BucketBitmap { field: g, bucket_name: m, slots: t },
            ) => f == g && n == m && s == t,
            _ => false,
        }
    }
}

/// How the clauses are written.
pub open spec fn clause_texts(clauses: Seq<ClauseView>) -> Seq<Seq<char>>
    decreases clauses,
{
    Seq::new(
        clauses.len(),
        |i: int|
            if 0 <= i < clauses.len() {
                clauses[i].text()
            } else {
                arbitrary()
            },
    )
}

/// Whether two lists hold clauses that compare equal, one for one.
pub open spec fn same_clauses(a: Seq<ClauseView>, b: Seq<ClauseView>) -> bool
    decreases a,
{
    a.len() == b.len() && (a.len() == 0 || (same_clauses(a.drop_last(), b.drop_last()) && a.last().same(b.last())))
}

impl FilterClause {
    /// Writes the clause.
    pub fn to_text(&self) -> (r: String)
        ensures
            r@ == self@.text(),
        decreases self,
    {
        match self {
            FilterClause::Eq(f, v) => {
                let t = v.to_text();
                f.clone().concat(" = ").concat(t.as_str())
            },
            FilterClause::NotEq(f, v) => {
                let t = v.to_text();
                f.clone().concat(" != ").concat(t.as_str())
            },
            FilterClause::In(f, v) => {
                let t = texts_of_values(v);
                let j = join_texts(&t, ", ");
                f.clone().concat(" IN [").concat(j.as_str()).concat("]")
            },
            FilterClause::NotIn(f, v) => {
                let t = texts_of_values(v);
                let j = join_texts(&t, ", ");
                f.clone().concat(" NOT IN [").concat(j.as_str()).concat("]")
            },
            FilterClause::Gt(f, v) => {
                let t = v.to_text();
                f.clone().concat(" > ").concat(t.as_str())
            },
            FilterClause::Lt(f, v) => {
                let t = v.to_text();
                f.clone().concat(" < ").concat(t.as_str())
            },
            FilterClause::Gte(f, v) => {
                let t = v.to_text();
                f.clone().concat(" >= ").concat(t.as_str())
            },
            FilterClause::Lte(f, v) => {
                let t = v.to_text();
                f.clone().concat(" <= ").concat(t.as_str())
            },
            FilterClause::Not(c) => {
                let t = c.to_text();
                "NOT(".to_owned().concat(t.as_str()).concat(")")
            },
            FilterClause::And(cs) => {
                let t = texts_of_clauses(cs);
                let j = join_texts(&t, " AND ");
                "(".to_owned().concat(j.as_str()).concat(")")
            },
            FilterClause::Or(cs) => {
                let t = texts_of_clauses(cs);
                let j = join_texts(&t, " OR ");
                "(".to_owned().concat(j.as_str()).concat(")")
            },
            FilterClause::IsNull(f) => f.clone().concat(" IS NULL"),
            FilterClause::IsNotNull(f) => f.clone().concat(" IS NOT NULL"),
            FilterClause::BucketBitmap { field, bucket_name, bitmap: _ } => field.clone().concat(" ~bucket(").concat(
                bucket_name.as_str(),
            ).concat(")"),
        }
    }

    /// Whether two clauses compare equal.
    pub fn same_as(&self, other: &FilterClause) -> (r: bool)
        ensures
            r == self@.same(other@),
        decreases self,
    {
        match (self, other) {
            (FilterClause::Eq(f, v), FilterClause::Eq(g, w)) => text_eq(f.as_str(), g.as_str()) && v.same_as(w),
            (FilterClause::NotEq(f, v), FilterClause::NotEq(g, w)) => text_eq(f.as_str(), g.as_str()) && v.same_as(w),
            (FilterClause::In(f, v), FilterClause::In(g, w)) => text_eq(f.as_str(), g.as_str()) && lists_same(v, w),
            (FilterClause::NotIn(f, v), FilterClause::NotIn(g, w)) => text_eq(f.as_str(), g.as_str()) && lists_same(
                v,
                w,
            ),
            (FilterClause::Gt(f, v), FilterClause::Gt(g, w)) => text_eq(f.as_str(), g.as_str()) && v.same_as(w),
            (FilterClause::Lt(f, v), FilterClause::Lt(g, w)) => text_eq(f.as_str(), g.as_str()) && v.same_as(w),
            (FilterClause::Gte(f, v), FilterClause::Gte(g, w)) => text_eq(f.as_str(), g.as_str()) && v.same_as(w),
            (FilterClause::Lte(f, v), FilterClause::Lte(g, w)) => text_eq(f.as_str(), g.as_str()) && v.same_as(w),
            (FilterClause::Not(c), FilterClause::Not(d)) => c.same_as(d),
            (FilterClause::And(cs), FilterClause::And(ds)) => clauses_same(cs, ds),
            (FilterClause::Or(cs), FilterClause::Or(ds)) => clauses_same(cs, ds),
            (FilterClause::IsNull(f), FilterClause::IsNull(g)) => text_eq(f.as_str(), g.as_str()),
            (FilterClause::IsNotNull(f), FilterClause::IsNotNull(g)) => text_eq(f.as_str(), g.as_str()),
            (
                FilterClause::BucketBitmap { field: f, bucket_name: n, bitmap: s },
                FilterClause::BucketBitmap { field: g, bucket_name: m, bitmap: t },
            ) => text_eq(f.as_str(), g.as_str()) && text_eq(n.as_str(), m.as_str()) && same_slots(s, t),
            _ => false,
        }
    }
}

/// Writes each of `clauses`.
pub fn texts_of_clauses(clauses: &Vec<FilterClause>) -> (r: Vec<String>)
    ensures
        views(r@) == clause_texts(models(clauses@)),
    decreases clauses,
{
    let mut r: Vec<String> = Vec::new();
    let mut i: usize = 0;
    while i < clauses.len()
        invariant
            i <= clauses@.len(),
            r@.len() == i,
            forall|j: int| 0 <= j < i ==> #[trigger] r@[j]@ == clauses@[j]@.text(),
        decreases clauses@.len() - i,
    {
        r.push(clauses[i].to_text());
        i = i + 1;
    }
    assert(views(r@) =~= clause_texts(models(clauses@)));
    r
}

/// The model of a list of clauses is the list of their models.
pub proof fn lemma_models(clauses: Seq<FilterClause>)
    ensures
        models(clauses).len() == clauses.len(),
        forall|i: int| 0 <= i < clauses.len() ==> #[trigger] models(clauses)[i] == clauses[i]@,
{
}

fn clauses_same(a: &Vec<FilterClause>, b: &Vec<FilterClause>) -> (r: bool)
    ensures
        r == same_clauses(models(a@), models(b@)),
    decreases a,
{
    if a.len() != b.len() {
        return false;
    }
    let ghost x = models(a@);
    let ghost y = models(b@);
    proof {
        lemma_models(a@);
        lemma_models(b@);
    }
    let mut r = true;
    let mut i: usize = 0;
    while i < a.len()
        invariant
            i <= a@.len(),
            a@.len() == b@.len(),
            x.len() == a@.len(),
            y.len() == b@.len(),
            forall|j: int| 0 <= j < a@.len() ==> #[trigger] x[j] == a@[j]@,
            forall|j: int| 0 <= j < b@.len() ==> #[trigger] y[j] == b@[j]@,
            r == same_clauses(x.take(i as int), y.take(i as int)),
        decreases a@.len() - i,
    {
        assert(x.take(i + 1).drop_last() =~= x.take(i as int));
        assert(y.take(i + 1).drop_last() =~= y.take(i as int));
        let own = a[i].same_as(&b[i]);
        assert(own == x[i as int].same(y[i as int]));
        r = r && own;
        i = i + 1;
    }
    assert(x.take(x.len() as int) =~= x);
    assert(y.take(y.len() as int) =~= y);
    r
}

impl Clone for FilterClause {
    fn clone(&self) -> (r: Self)
        ensures
            r@ == self@,
        decreases self,
    {
        match self {
            FilterClause::Eq(f, v) => FilterClause::Eq(f.clone(), v.clone()),
            FilterClause::NotEq(f, v) => FilterClause::NotEq(f.clone(), v.clone()),
            FilterClause::In(f, v) => FilterClause::In(f.clone(), clone_values(v)),
            FilterClause::NotIn(f, v) => FilterClause::NotIn(f.clone(), clone_values(v)),
            FilterClause::Gt(f, v) => FilterClause::Gt(f.clone(), v.clone()),
            FilterClause::Lt(f, v) => FilterClause::Lt(f.clone(), v.clone()),
            FilterClause::Gte(f, v) => FilterClause::Gte(f.clone(), v.clone()),
            FilterClause::Lte(f, v) => FilterClause::Lte(f.clone(), v.clone()),
            FilterClause::Not(c) => FilterClause::Not(Box::new((**c).clone())),
            FilterClause::And(cs) => FilterClause::And(clone_clauses(cs)),
            FilterClause::Or(cs) => FilterClause::Or(clone_clauses(cs)),
            FilterClause::IsNull(f) => FilterClause::IsNull(f.clone()),
            FilterClause::IsNotNull(f) => FilterClause::IsNotNull(f.clone()),
            FilterClause::BucketBitmap { field, bucket_name, bitmap } => FilterClause::BucketBitmap {
                field: field.clone(),
                bucket_name: bucket_name.clone(),
                bitmap: share(bitmap),
            },
        }
    }
}

/// A copy of `clauses`.
pub fn clone_clauses(clauses: &Vec<FilterClause>) -> (r: Vec<FilterClause>)
    ensures
        models(r@) == models(clauses@),
    decreases clauses,
{
    let mut r: Vec<FilterClause> = Vec::new();
    let mut i: usize = 0;
    while i < clauses.len()
        invariant
            i <= clauses@.len(),
            r@.len() == i,
            forall|j: int| 0 <= j < i ==> #[trigger] r@[j]@ == clauses@[j]@,
        decreases clauses@.len() - i,
    {
        r.push(clauses[i].clone());
        i = i + 1;
    }
    proof {
        lemma_models(r@);
        lemma_models(clauses@);
    }
    assert(models(r@) =~= models(clauses@)) by {
        assert forall|j: int| 0 <= j < r@.len() implies models(r@)[j] == models(clauses@)[j] by {
            assert(r@[j]@ == clauses@[j]@);
        }
    }
    r
}

/// Sort specification for query results.
#[derive(Debug)]
pub struct SortClause {
    pub field: String,
    pub direction: SortDirection,
}

impl Clone for SortClause {
    fn clone(&self) -> (r: Self)
        ensures
            r == *self,
    {
        SortClause { field: self.field.clone(), direction: self.direction }
    }
}

/// Cursor position for keyset pagination: the last seen sort value and slot.
#[derive(Debug, Clone, Copy, PartialEq, Eq, Structural)]
pub struct CursorPosition {
    pub sort_value: u64,
    pub slot_id: u32,
}

/// A parsed query ready for execution.
#[derive(Debug)]
pub struct BitdexQuery {
    pub filters: Vec<FilterClause>,
    pub sort: Option<SortClause>,
    pub limit: usize,
    pub cursor: Option<CursorPosition>,
    /// Offset-based pagination. Where both are set, the cursor takes precedence.
    pub offset: Option<usize>,
    /// When true, the result cache is neither read nor filled.
    pub skip_cache: bool,
}

impl Clone for BitdexQuery {
    fn clone(&self) -> (r: Self)
        ensures
            models(r.filters@) == models(self.filters@),
            r == (BitdexQuery { filters: r.filters, ..*self }),
    {
        let sort = match &self.sort {
            Some(sort) => Some(sort.clone()),
            None => None,
        };
        BitdexQuery {
            filters: clone_clauses(&self.filters),
            sort,
            limit: self.limit,
            cursor: self.cursor,
            offset: self.offset,
            skip_cache: self.skip_cache,
        }
    }
}

/// The name of a direction.
pub open spec fn direction_text(d: SortDirection) -> Seq<char> {
    match d {
        SortDirection::Asc => "Asc"@,
        SortDirection::Desc => "Desc"@,
    }
}

impl SortDirection {
    /// The name of the direction.
    pub fn name(&self) -> (r: &'static str)
        ensures
            r@ == direction_text(*self),
    {
        match self {
            SortDirection::Asc => "Asc",
            SortDirection::Desc => "Desc",
        }
    }
}

impl BitdexQuery {
    /// How the filters are written.
    pub open spec fn filter_text(self) -> Seq<char> {
        if self.filters@.len() == 0 {
            "WHERE *"@
        } else {
            "WHERE "@ + join(clause_texts(models(self.filters@)), " AND "@)
        }
    }

    /// How the query is written.
    pub open spec fn text(self) -> Seq<char> {
        self.filter_text() + (match self.sort {
            Some(sort) => " ORDER BY "@ + sort.field@ + " "@ + direction_text(sort.direction),
            None => Seq::empty(),
        }) + " LIMIT "@ + dec(self.limit as nat) + (match self.offset {
            Some(n) => " OFFSET "@ + dec(n as nat),
            None => Seq::empty(),
        }) + (match self.cursor {
            Some(c) => " CURSOR(val="@ + dec(c.sort_value as nat) + ", slot="@ + dec(c.slot_id as nat) + ")"@,
            None => Seq::empty(),
        })
    }

    /// Writes the query.
    pub fn to_text(&self) -> (r: String)
        ensures
            r@ == self.text(),
    {
        let filters = if self.filters.len() == 0 {
            "WHERE *".to_owned()
        } else {
            let texts = texts_of_clauses(&self.filters);
            let joined = join_texts(&texts, " AND ");
            "WHERE ".to_owned().concat(joined.as_str())
        };
        let sort = match &self.sort {
            Some(sort) => " ORDER BY ".to_owned().concat(sort.field.as_str()).concat(" ").concat(sort.direction.name()),
            None => String::new(),
        };
        let limit = decimal(self.limit as u64);
        let offset = match self.offset {
            Some(n) => {
                let digits = decimal(n as u64);
                " OFFSET ".to_owned().concat(digits.as_str())
            },
            None => String::new(),
        };
        let cursor = match &self.cursor {
            Some(c) => {
                let value = decimal(c.sort_value);
                let slot = decimal(c.slot_id as u64);
                " CURSOR(val=".to_owned().concat(value.as_str()).concat(", slot=").concat(slot.as_str()).concat(")")
            },
            None => String::new(),
        };
        filters.concat(sort.as_str()).concat(" LIMIT ").concat(limit.as_str()).concat(offset.as_str()).concat(
            cursor.as_str(),
        )
    }
}

/// Errors produced by query parsers.
#[derive(Debug, Clone)]
pub struct ParseError {
    pub message: String,
}

impl ParseError {
    /// An error with the given message.
    pub fn new(message: &str) -> (r: Self)
        ensures
            r.message@ == message@,
    {
        ParseError { message: message.to_owned() }
    }

    /// Writes the error: its message.
    pub fn to_text(&self) -> (r: String)
        ensures
            r@ == self.message@,
    {
        self.message.clone()
    }
}

/// A query parser, which turns raw input into a [`BitdexQuery`].
pub trait QueryParser: Send + Sync {
    /// Parses `input`.
    fn parse(&self, input: &[u8]) -> Result<BitdexQuery, ParseError>;

    /// The content type that the parser reads.
    fn content_type(&self) -> &str;
}

/// Context for bucket snapping.
pub struct BucketSnapContext<'a> {
    /// The bucket managers, each for one field.
    pub managers: &'a Vec<TimeBucketManager>,
    /// Current unix timestamp in seconds.
    pub now_secs: u64,
    /// Snap tolerance as a fraction of the bucket, in millionths.
    pub tolerance_ppm: u64,
    /// If true, queries outside tolerance snap to the nearest bucket instead of matching nothing.
    pub always_snap: bool,
}

/// The window that a bound `ts` asks for: the seconds from it to now, none where it lies ahead, and
/// no more than a number holds.
pub open spec fn window(now: u64, ts: int) -> int {
    if now - ts < 0 {
        0
    } else if now - ts > u64::MAX {
        u64::MAX as int
    } else {
        now - ts
    }
}

fn window_secs(now: u64, ts: i64) -> (r: u64)
    ensures
        r == window(now, ts as int),
{
    let span: i128 = now as i128 - ts as i128;
    if span < 0 {
        0
    } else if span > u64::MAX as i128 {
        u64::MAX
    } else {
        span as u64
    }
}

/// The clause that matches nothing in place of a range on `field`.
pub open spec fn no_bucket(field: Seq<char>) -> ClauseView {
    ClauseView::BucketBitmap { field, bucket_name: "_none"@, slots: Set::empty() }
}

/// What a lower bound `ts` on `field` becomes, where the field has buckets.
pub open spec fn snapped_bound(field: Seq<char>, ts: int, ctx: BucketSnapContext, position: int) -> ClauseView {
    let list = ctx.managers@[position].list();
    let duration = window(ctx.now_secs, ts);
    let choice = match nearest_within(list, duration, ctx.tolerance_ppm as int, list.len() as int) {
        Some(i) => Some(i),
        None => if ctx.always_snap { nearest_bucket(list, duration) } else { None },
    };
    match choice {
        Some(i) => ClauseView::BucketBitmap { field, bucket_name: list[i].name, slots: list[i].slots },
        None => no_bucket(field),
    }
}

/// What a clause becomes: a lower bound on a bucketed field becomes a bucket; `And` and `Or`
/// are gone into; every other clause stays.
pub open spec fn snapped(c: ClauseView, ctx: BucketSnapContext) -> ClauseView
    decreases c,
{
    match c {
        ClauseView::Gt(field, ValueView::Integer(ts)) => match manager_position(ctx.managers@, field, 0) {
            Some(p) => snapped_bound(field, ts, ctx, p),
            None => c,
        },
        ClauseView::Gte(field, ValueView::Integer(ts)) => match manager_position(ctx.managers@, field, 0) {
            Some(p) => snapped_bound(field, ts, ctx, p),
            None => c,
        },
        ClauseView::And(cs) => ClauseView::And(snapped_all(cs, ctx)),
        ClauseView::Or(cs) => ClauseView::Or(snapped_all(cs, ctx)),
        _ => c,
    }
}

/// What each of the clauses becomes.
pub open spec fn snapped_all(cs: Seq<ClauseView>, ctx: BucketSnapContext) -> Seq<ClauseView>
    decreases cs,
{
    Seq::new(
        cs.len(),
        |i: int|
            if 0 <= i < cs.len() {
                snapped(cs[i], ctx)
            } else {
                arbitrary()
            },
    )
}

/// Replaces range filters on bucketed timestamp fields with precomputed bucket clauses.
///
/// A `Gt` or `Gte` on a field with buckets asks for the window from its bound to now. The
/// nearest bucket within tolerance takes its place; outside tolerance it is the bucket that
/// stands in for the window, or nothing at all. `Lt` and `Lte` are not snapped.
pub fn snap_range_clauses(clauses: &Vec<FilterClause>, ctx: &BucketSnapContext) -> (r: Vec<FilterClause>)
    ensures
        models(r@) == snapped_all(models(clauses@), *ctx),
    decreases clauses,
{
    let mut r: Vec<FilterClause> = Vec::new();
    let mut i: usize = 0;
    while i < clauses.len()
        invariant
            i <= clauses@.len(),
            r@.len() == i,
            forall|j: int| 0 <= j < i ==> #[trigger] r@[j]@ == snapped(clauses@[j]@, *ctx),
        decreases clauses@.len() - i,
    {
        r.push(snap_clause(&clauses[i], ctx));
        i = i + 1;
    }
    proof {
        lemma_models(r@);
        lemma_models(clauses@);
        assert forall|j: int| 0 <= j < r@.len() implies models(r@)[j] == snapped_all(models(clauses@), *ctx)[j] by {
            assert(r@[j]@ == snapped(clauses@[j]@, *ctx));
        }
    }
    assert(models(r@) =~= snapped_all(models(clauses@), *ctx));
    r
}

fn snap_bound(field: &String, ts: i64, ctx: &BucketSnapContext, position: usize) -> (r: FilterClause)
    requires
        position < ctx.managers@.len(),
    ensures
        r@ == snapped_bound(field@, ts as int, *ctx, position as int),
{
    let manager = &ctx.managers[position];
    let duration = window_secs(ctx.now_secs, ts);
    let choice = match manager.snap_duration(duration, ctx.tolerance_ppm) {
        Some(i) => Some(i),
        None => if ctx.always_snap { manager.snap_nearest(duration) } else { None },
    };
    match choice {
        Some(i) => {
            let bucket = &manager.buckets[i];
            assert(manager.list()[i as int] == bucket@);
            FilterClause::BucketBitmap {
                field: field.clone(),
                bucket_name: bucket.name.clone(),
                bitmap: share(&bucket.bitmap),
            }
        },
        None => FilterClause::BucketBitmap {
            field: field.clone(),
            bucket_name: "_none".to_owned(),
            bitmap: Arc::new(RoaringBitmap::new()),
        },
    }
}

fn snap_clause(clause: &FilterClause, ctx: &BucketSnapContext) -> (r: FilterClause)
    ensures
        r@ == snapped(clause@, *ctx),
    decreases clause,
{
    match clause {
        FilterClause::Gt(field, Value::Integer(ts)) => match find_manager(ctx.managers, field.as_str()) {
            Some(p) => snap_bound(field, *ts, ctx, p),
            None => clause.clone(),
        },
        FilterClause::Gte(field, Value::Integer(ts)) => match find_manager(ctx.managers, field.as_str()) {
            Some(p) => snap_bound(field, *ts, ctx, p),
            None => clause.clone(),
        },
        FilterClause::And(inner) => FilterClause::And(snap_range_clauses(inner, ctx)),
        FilterClause::Or(inner) => FilterClause::Or(snap_range_clauses(inner, ctx)),
        _ => clause.clone(),
    }
}

/// Snapping clauses that were snapped already changes nothing.
pub proof fn law_snapping_is_idempotent(c: ClauseView, ctx: BucketSnapContext)
    ensures
        snapped(snapped(c, ctx), ctx) == snapped(c, ctx),
    decreases c,
{
    match c {
        ClauseView::And(cs) => lemma_snapping_all(cs, ctx),
        ClauseView::Or(cs) => lemma_snapping_all(cs, ctx),
        _ => {},
    }
}

proof fn lemma_snapping_all(cs: Seq<ClauseView>, ctx: BucketSnapContext)
    ensures
        snapped_all(snapped_all(cs, ctx), ctx) == snapped_all(cs, ctx),
    decreases cs,
{
    let once = snapped_all(cs, ctx);
    assert forall|i: int| 0 <= i < cs.len() implies snapped_all(once, ctx)[i] == once[i] by {
        law_snapping_is_idempotent(cs[i], ctx);
    }
    assert(snapped_all(once, ctx) =~= once);
}

/// Where every window snaps, a lower bound on a field that has a bucket always becomes one
/// of the buckets of that field.
pub proof fn law_always_snap_picks_a_bucket(field: Seq<char>, ts: int, ctx: BucketSnapContext, position: int)
    requires
        ctx.always_snap,
        ctx.managers@[position].list().len() > 0,
    ensures
        exists|i: int|
            0 <= i < ctx.managers@[position].list().len() && snapped_bound(field, ts, ctx, position)
                == (ClauseView::BucketBitmap {
                field,
                bucket_name: (#[trigger] ctx.managers@[position].list()[i]).name,
                slots: ctx.managers@[position].list()[i].slots,
            }),
{
    let list = ctx.managers@[position].list();
    let duration = window(ctx.now_secs, ts);
    let n = list.len() as int;
    lemma_choices_in_range(list, duration, ctx.tolerance_ppm as int, n);
    let choice = match nearest_within(list, duration, ctx.tolerance_ppm as int, n) {
        Some(i) => Some(i),
        None => nearest_bucket(list, duration),
    };
    assert(choice is Some);
    let i = choice->0;
    assert(0 <= i < list.len());
    assert(list[i] == list[i]);
}

proof fn lemma_choices_in_range(list: Seq<BucketView>, duration: int, tolerance_ppm: int, n: int)
    requires
        0 <= n <= list.len(),
    ensures
        nearest_within(list, duration, tolerance_ppm, n) matches Some(i) ==> 0 <= i < n,
        shortest_covering(list, duration, n) matches Some(i) ==> 0 <= i < n,
        longest(list, n) matches Some(i) ==> 0 <= i < n,
        n > 0 ==> longest(list, n) is Some,
    decreases n,
{
    if n > 0 {
        lemma_choices_in_range(list, duration, tolerance_ppm, n - 1);
    }
}

/// Whether a clause is a lower bound on a field with buckets, or a conjunction or disjunction that
/// holds one.
pub open spec fn bounds_bucketed_field(c: ClauseView, ctx: BucketSnapContext) -> bool
    decreases c,
{
    match c {
        ClauseView::Gt(field, ValueView::Integer(_)) => manager_position(ctx.managers@, field, 0) is Some,
        ClauseView::Gte(field, ValueView::Integer(_)) => manager_position(ctx.managers@, field, 0) is Some,
        ClauseView::And(cs) => exists|i: int| 0 <= i < cs.len() && bounds_bucketed_field(#[trigger] cs[i], ctx),
        ClauseView::Or(cs) => exists|i: int| 0 <= i < cs.len() && bounds_bucketed_field(#[trigger] cs[i], ctx),
        _ => false,
    }
}

/// Upper bounds are not snapped: buckets are windows that reach to now.
pub proof fn law_upper_bounds_stay(field: Seq<char>, value: ValueView, ctx: BucketSnapContext)
    ensures
        snapped(ClauseView::Lt(field, value), ctx) == ClauseView::Lt(field, value),
        snapped(ClauseView::Lte(field, value), ctx) == ClauseView::Lte(field, value),
{
}

/// Snapping leaves no lower bound on a field with buckets, and changes no clause without one.
pub proof fn law_only_bucketed_bounds_are_snapped(c: ClauseView, ctx: BucketSnapContext)
    ensures
        !bounds_bucketed_field(snapped(c, ctx), ctx),
        !bounds_bucketed_field(c, ctx) ==> snapped(c, ctx) == c,
    decreases c,
{
    match c {
        ClauseView::And(cs) => {
            lemma_only_bucketed_bounds(cs, ctx);
            let all = snapped_all(cs, ctx);
            assert(snapped(c, ctx) == ClauseView::And(all));
            assert(forall|i: int| 0 <= i < all.len() ==> !bounds_bucketed_field(#[trigger] all[i], ctx));
            assert(!bounds_bucketed_field(ClauseView::And(all), ctx));
        },
        ClauseView::Or(cs) => {
            lemma_only_bucketed_bounds(cs, ctx);
            let all = snapped_all(cs, ctx);
            assert(snapped(c, ctx) == ClauseView::Or(all));
            assert(forall|i: int| 0 <= i < all.len() ==> !bounds_bucketed_field(#[trigger] all[i], ctx));
            assert(!bounds_bucketed_field(ClauseView::Or(all), ctx));
        },
        _ => {},
    }
}

proof fn lemma_only_bucketed_bounds(cs: Seq<ClauseView>, ctx: BucketSnapContext)
    ensures
        forall|i: int| 0 <= i < cs.len() ==> !bounds_bucketed_field(#[trigger] snapped_all(cs, ctx)[i], ctx),
        (forall|i: int| 0 <= i < cs.len() ==> !bounds_bucketed_field(#[trigger] cs[i], ctx)) ==> snapped_all(cs, ctx)
            == cs,
    decreases cs,
{
    let all = snapped_all(cs, ctx);
    assert forall|i: int| 0 <= i < cs.len() implies !bounds_bucketed_field(#[trigger] all[i], ctx) by {
        law_only_bucketed_bounds_are_snapped(cs[i], ctx);
    }
    if forall|i: int| 0 <= i < cs.len() ==> !bounds_bucketed_field(#[trigger] cs[i], ctx) {
        assert forall|i: int| 0 <= i < cs.len() implies all[i] == cs[i] by {
            law_only_bucketed_bounds_are_snapped(cs[i], ctx);
        }
        assert(all =~= cs);
    }
}

/// Whether a clause is the bucket `b` in place of a bound on `field`.
pub open spec fn is_bucket(c: ClauseView, field: Seq<char>, b: BucketView) -> bool {
    c == (ClauseView::BucketBitmap { field, bucket_name: b.name, slots: b.slots })
}

/// A lower bound that includes its end and one that does not ask for the same window: on a field with
/// buckets they become the same clause. A bound that lies ahead asks for no time at all.
pub proof fn law_lower_bounds_snap_alike(field: Seq<char>, ts: int, ctx: BucketSnapContext, p: int)
    requires
        0 <= p < ctx.managers@.len(),
        ctx.managers@[p].field@ == field,
    ensures
        snapped(ClauseView::Gt(field, ValueView::Integer(ts)), ctx) == snapped(
            ClauseView::Gte(field, ValueView::Integer(ts)),
            ctx,
        ),
        ts >= ctx.now_secs ==> snapped(ClauseView::Gt(field, ValueView::Integer(ts)), ctx) == snapped(
            ClauseView::Gt(field, ValueView::Integer(ctx.now_secs as int)),
            ctx,
        ),
{
    lemma_manager_found(ctx.managers@, field, p, 0);
}

proof fn lemma_manager_found(managers: Seq<TimeBucketManager>, field: Seq<char>, p: int, n: int)
    requires
        0 <= n <= p < managers.len(),
        managers[p].field@ == field,
    ensures
        manager_position(managers, field, n) is Some,
    decreases p - n,
{
    if n < p {
        lemma_manager_found(managers, field, p, n + 1);
    }
}

/// Where every window snaps, a whole clause that bounds a field with a bucket from below becomes one
/// of the buckets of that field, whether the clause includes the bound or not.
pub proof fn law_whole_bounds_become_buckets(field: Seq<char>, ts: int, ctx: BucketSnapContext, p: int)
    requires
        ctx.always_snap,
        0 <= p < ctx.managers@.len(),
        ctx.managers@[p].field@ == field,
        forall|q: int| 0 <= q < p ==> (#[trigger] ctx.managers@[q]).field@ != field,
        ctx.managers@[p].buckets@.len() > 0,
    ensures
        exists|i: int|
            0 <= i < ctx.managers@[p].buckets@.len() && is_bucket(
                snapped(ClauseView::Gt(field, ValueView::Integer(ts)), ctx),
                field,
                #[trigger] ctx.managers@[p].buckets@[i]@,
            ),
        exists|i: int|
            0 <= i < ctx.managers@[p].buckets@.len() && is_bucket(
                snapped(ClauseView::Gte(field, ValueView::Integer(ts)), ctx),
                field,
                #[trigger] ctx.managers@[p].buckets@[i]@,
            ),
{
    law_fields_have_their_own_manager(ctx.managers@, field, p, 0);
    law_always_snap_picks_a_bucket(field, ts, ctx, p);
    let list = ctx.managers@[p].list();
    let gt = snapped(ClauseView::Gt(field, ValueView::Integer(ts)), ctx);
    let i = choose|i: int|
        0 <= i < list.len() && gt == (ClauseView::BucketBitmap {
            field,
            bucket_name: (#[trigger] list[i]).name,
            slots: list[i].slots,
        });
    assert(list[i] == ctx.managers@[p].buckets@[i]@);
    assert(is_bucket(gt, field, ctx.managers@[p].buckets@[i]@));
    law_lower_bounds_snap_alike(field, ts, ctx, p);
}

/// What a lower bound on a field becomes, told by the window `age` from the bound to now.
///
/// Where a bucket misses the window by no more than the tolerated part of itself, the nearest of
/// these takes the place of the bound. Where every bucket misses it by more, it is nothing at all, or,
/// where every window snaps, the shortest bucket that covers the window, and the longest there is
/// where none covers it.
pub proof fn law_bounds_become_the_right_bucket(
    field: Seq<char>,
    ts: int,
    age: int,
    k: int,
    ctx: BucketSnapContext,
    p: int,
)
    requires
        0 <= p < ctx.managers@.len(),
        ctx.managers@[p].field@ == field,
        forall|q: int| 0 <= q < p ==> (#[trigger] ctx.managers@[q]).field@ != field,
        0 <= age <= u64::MAX,
        ts + age == ctx.now_secs,
        0 <= k < ctx.managers@[p].list().len(),
    ensures
        ({
            let list = ctx.managers@[p].list();
            let became = snapped(ClauseView::Gt(field, ValueView::Integer(ts)), ctx);
            let close = |j: int| apart(list[j].duration, age) * 1_000_000 <= list[j].duration * ctx.tolerance_ppm;
            &&& close(k) ==> exists|i: int|
                0 <= i < list.len() && is_bucket(became, field, #[trigger] list[i]) && close(i) && apart(
                    list[i].duration,
                    age,
                ) <= apart(list[k].duration, age)
            &&& (forall|j: int| 0 <= j < list.len() ==> !#[trigger] close(j)) && !ctx.always_snap ==> became
                == (ClauseView::BucketBitmap { field, bucket_name: "_none"@, slots: Set::empty() })
            &&& (forall|j: int| 0 <= j < list.len() ==> !#[trigger] close(j)) && ctx.always_snap
                && list[k].duration >= age ==> exists|i: int|
                0 <= i < list.len() && is_bucket(became, field, #[trigger] list[i]) && age <= list[i].duration
                    <= list[k].duration
            &&& (forall|j: int| 0 <= j < list.len() ==> !#[trigger] close(j)) && ctx.always_snap && (forall|j: int|
                0 <= j < list.len() ==> (#[trigger] list[j]).duration < age) ==> exists|i: int|
                0 <= i < list.len() && is_bucket(became, field, #[trigger] list[i]) && list[k].duration
                    <= list[i].duration
        }),
{
    let list = ctx.managers@[p].list();
    let n = list.len() as int;
    let close = |j: int| apart(list[j].duration, age) * 1_000_000 <= list[j].duration * ctx.tolerance_ppm;
    let became = snapped(ClauseView::Gt(field, ValueView::Integer(ts)), ctx);
    law_fields_have_their_own_manager(ctx.managers@, field, p, 0);
    law_the_nearest_within_tolerance_is_taken(list, age, ctx.tolerance_ppm as int, n);
    law_windows_are_covered_where_they_can_be(list, age);
    assert(window(ctx.now_secs, ts) == age);
    match nearest_within(list, age, ctx.tolerance_ppm as int, n) {
        Some(i) => {
            assert(is_bucket(became, field, list[i]));
            assert(close(i));
        },
        None => {
            assert(!close(k));
            if ctx.always_snap {
                let i = nearest_bucket(list, age)->0;
                assert(is_bucket(became, field, list[i]));
                assert(list[k].duration <= list[i].duration || list[i].duration >= age);
            }
        },
    }
}

/// Conjunctions and disjunctions stay what they are, with each part snapped in its place; nothing
/// under a negation is snapped, nor any clause that tells values one by one.
pub proof fn law_parts_are_snapped_in_place(
    cs: Seq<ClauseView>,
    i: int,
    c: ClauseView,
    field: Seq<char>,
    v: ValueView,
    vs: Seq<ValueView>,
    ctx: BucketSnapContext,
)
    requires
        0 <= i < cs.len(),
    ensures
        snapped(ClauseView::And(cs), ctx) matches ClauseView::And(parts) && parts.len() == cs.len() && parts[i]
            == snapped(cs[i], ctx),
        snapped(ClauseView::Or(cs), ctx) matches ClauseView::Or(parts) && parts.len() == cs.len() && parts[i]
            == snapped(cs[i], ctx),
        snapped(ClauseView::Not(Box::new(c)), ctx) == ClauseView::Not(Box::new(c)),
        snapped(ClauseView::Eq(field, v), ctx) == ClauseView::Eq(field, v),
        snapped(ClauseView::NotEq(field, v), ctx) == ClauseView::NotEq(field, v),
        snapped(ClauseView::In(field, vs), ctx) == ClauseView::In(field, vs),
        snapped(ClauseView::NotIn(field, vs), ctx) == ClauseView::NotIn(field, vs),
        snapped(ClauseView::IsNull(field), ctx) == ClauseView::IsNull(field),
        snapped(ClauseView::IsNotNull(field), ctx) == ClauseView::IsNotNull(field),
        !(v is Integer) ==> snapped(ClauseView::Gt(field, v), ctx) == ClauseView::Gt(field, v) && snapped(
            ClauseView::Gte(field, v),
            ctx,
        ) == ClauseView::Gte(field, v),
{
    let all = snapped_all(cs, ctx);
    assert(snapped(ClauseView::And(cs), ctx) == ClauseView::And(all));
    assert(snapped(ClauseView::Or(cs), ctx) == ClauseView::Or(all));
    assert(all[i] == snapped(cs[i], ctx));
}

/// A bound on a field without buckets stays as it is.
pub proof fn law_bounds_without_buckets_stay(field: Seq<char>, v: ValueView, ctx: BucketSnapContext)
    requires
        forall|q: int| 0 <= q < ctx.managers@.len() ==> (#[trigger] ctx.managers@[q]).field@ != field,
    ensures
        snapped(ClauseView::Gt(field, v), ctx) == ClauseView::Gt(field, v),
        snapped(ClauseView::Gte(field, v), ctx) == ClauseView::Gte(field, v),
{
    law_other_fields_have_no_manager(ctx.managers@, field, 0);
}

/// A value is written as it is: a whole number in decimal, a truth value by its name, a text and a double
/// by what they were given as.
pub proof fn law_values_are_written_as_they_are(n: nat, bits: u64, text: Seq<char>)
    ensures
        ValueView::Integer(n as int).text() == dec(n),
        n > 0 ==> ValueView::Integer(-(n as int)).text() == seq!['-'] + dec(n),
        ValueView::Float(bits, text).text() == text,
        ValueView::String(text).text() == text,
        ValueView::Bool(true).text() == "true"@,
        ValueView::Bool(false).text() == "false"@,
{
}

/// A clause is written with its field in front, then the sign of what it asks, then what it compares with.
pub proof fn law_clauses_are_written_with_their_sign(f: Seq<char>, v: ValueView, w: ValueView)
    ensures
        ClauseView::Eq(f, v).text() == f + " = "@ + v.text(),
        ClauseView::NotEq(f, v).text() == f + " != "@ + v.text(),
        ClauseView::Gt(f, v).text() == f + " > "@ + v.text(),
        ClauseView::Gte(f, v).text() == f + " >= "@ + v.text(),
        ClauseView::Lt(f, v).text() == f + " < "@ + v.text(),
        ClauseView::Lte(f, v).text() == f + " <= "@ + v.text(),
        ClauseView::IsNull(f).text() == f + " IS NULL"@,
        ClauseView::IsNotNull(f).text() == f + " IS NOT NULL"@,
        ClauseView::In(f, seq![v]).text() == f + " IN ["@ + v.text() + "]"@,
        ClauseView::In(f, seq![v, w]).text() == f + " IN ["@ + (v.text() + ", "@ + w.text()) + "]"@,
        ClauseView::NotIn(f, seq![v]).text() == f + " NOT IN ["@ + v.text() + "]"@,
        ClauseView::NotIn(f, seq![v, w]).text() == f + " NOT IN ["@ + (v.text() + ", "@ + w.text()) + "]"@,
{
    let one = value_texts(seq![v]);
    let two = value_texts(seq![v, w]);
    assert(join(one, ", "@) == v.text());
    assert(two.drop_last() =~= one);
    assert(join(two, ", "@) == v.text() + ", "@ + w.text());
}

/// Put together clauses are written in brackets, in their order, with the word that puts them together
/// between them; a bitmap is written by the name of its bucket.
pub proof fn law_compositions_are_written_with_their_word(
    c: ClauseView,
    d: ClauseView,
    f: Seq<char>,
    name: Seq<char>,
    slots: Set<u32>,
)
    ensures
        ClauseView::Not(Box::new(c)).text() == "NOT("@ + c.text() + ")"@,
        ClauseView::And(seq![c]).text() == "("@ + c.text() + ")"@,
        ClauseView::Or(seq![c]).text() == "("@ + c.text() + ")"@,
        ClauseView::And(seq![c, d]).text() == "("@ + (c.text() + " AND "@ + d.text()) + ")"@,
        ClauseView::Or(seq![c, d]).text() == "("@ + (c.text() + " OR "@ + d.text()) + ")"@,
        (ClauseView::BucketBitmap { field: f, bucket_name: name, slots }).text() == f + " ~bucket("@ + name + ")"@,
{
    let one = clause_texts(seq![c]);
    let two = clause_texts(seq![c, d]);
    assert(one[0] == c.text());
    assert(two[0] == c.text() && two[1] == d.text());
    assert(two.drop_last() =~= one);
    assert(join(one, " AND "@) == c.text());
    assert(join(one, " OR "@) == c.text());
    assert(join(two, " AND "@) == c.text() + " AND "@ + d.text());
    assert(join(two, " OR "@) == c.text() + " OR "@ + d.text());
    assert(ClauseView::Not(Box::new(c)).text() == "NOT("@ + c.text() + ")"@);
    assert(ClauseView::And(seq![c]).text() == "("@ + join(one, " AND "@) + ")"@);
    assert(ClauseView::Or(seq![c]).text() == "("@ + join(one, " OR "@) + ")"@);
    assert(ClauseView::And(seq![c, d]).text() == "("@ + join(two, " AND "@) + ")"@);
    assert(ClauseView::Or(seq![c, d]).text() == "("@ + join(two, " OR "@) + ")"@);
}

/// A query is written from its filters on: a star where there are none, then the order with its field and
/// direction, the limit, the offset and the cursor, each where it is said.
pub proof fn law_queries_are_written_in_order(q: BitdexQuery)
    ensures
        q.filters@.len() == 0 ==> q.filter_text() == "WHERE *"@,
        q.filters@.len() == 1 ==> q.filter_text() == "WHERE "@ + q.filters@[0]@.text(),
        q.filters@.len() > 1 ==> q.filter_text() == "WHERE "@ + (join(
            clause_texts(models(q.filters@).drop_last()),
            " AND "@,
        ) + " AND "@ + q.filters@.last()@.text()),
        ({
            let bare = BitdexQuery { sort: None, offset: None, cursor: None, ..q };
            &&& bare.text() == q.filter_text() + " LIMIT "@ + dec(q.limit as nat)
            &&& q.sort is None ==> (q.offset matches Some(n) ==> (BitdexQuery { cursor: None, ..q }).text()
                == bare.text() + (" OFFSET "@ + dec(n as nat)))
            &&& q.sort is None && q.offset is None ==> (q.cursor matches Some(c) ==> q.text() == bare.text() + (
            " CURSOR(val="@ + dec(c.sort_value as nat) + ", slot="@ + dec(c.slot_id as nat) + ")"@))
            &&& q.offset is None && q.cursor is None ==> (q.sort matches Some(s) ==> q.text() == q.filter_text() + (
            " ORDER BY "@ + s.field@ + " "@ + (if s.direction is Asc { "Asc"@ } else { "Desc"@ })) + " LIMIT "@
                + dec(q.limit as nat))
        }),
{
    let bare = BitdexQuery { sort: None, offset: None, cursor: None, ..q };
    let none = Seq::<char>::empty();
    lemma_models(q.filters@);
    if q.filters@.len() == 1 {
        let texts = clause_texts(models(q.filters@));
        assert(texts[0] == q.filters@[0]@.text());
        assert(join(texts, " AND "@) == texts[0]);
    }
    if q.filters@.len() > 1 {
        let texts = clause_texts(models(q.filters@));
        assert(texts.last() == q.filters@.last()@.text());
        assert(texts.drop_last() =~= clause_texts(models(q.filters@).drop_last()));
    }
    assert(bare.text() == q.filter_text() + none + " LIMIT "@ + dec(q.limit as nat) + none + none);
    assert(q.filter_text() + none =~= q.filter_text());
    let limited = q.filter_text() + " LIMIT "@ + dec(q.limit as nat);
    assert(limited + none =~= limited);
    if q.sort is None {
        if q.offset is Some {
            let page = BitdexQuery { cursor: None, ..q };
            let offset = " OFFSET "@ + dec(q.offset->0 as nat);
            assert(page.text() == limited + offset + none);
            assert(limited + offset + none =~= limited + offset);
        } else if q.cursor is Some {
            let c = q.cursor->0;
            let cursor = " CURSOR(val="@ + dec(c.sort_value as nat) + ", slot="@ + dec(c.slot_id as nat) + ")"@;
            assert(q.text() == limited + none + cursor);
        }
    } else if q.offset is None && q.cursor is None {
        let s = q.sort->0;
        let order = " ORDER BY "@ + s.field@ + " "@ + direction_text(s.direction);
        let ordered = q.filter_text() + order + " LIMIT "@ + dec(q.limit as nat);
        assert(q.text() == ordered + none + none);
        assert(ordered + none =~= ordered);
    }
}

/// The text of a query with an order, an offset and a cursor says all three, in that order.
pub proof fn law_pages_are_written_whole(q: BitdexQuery, s: SortClause, n: usize, c: CursorPosition)
    requires
        q.sort == Some(s),
        q.offset == Some(n),
        q.cursor == Some(c),
    ensures
        ({
            let order = " ORDER BY "@ + s.field@ + " "@ + (if s.direction is Asc { "Asc"@ } else { "Desc"@ });
            let offset = " OFFSET "@ + dec(n as nat);
            let cursor = " CURSOR(val="@ + dec(c.sort_value as nat) + ", slot="@ + dec(c.slot_id as nat) + ")"@;
            q.text() == q.filter_text() + order + " LIMIT "@ + dec(q.limit as nat) + offset + cursor
        }),
{
}

/// Values compare equal only to values of their kind: whole numbers, truth values and texts to themselves
/// alone, a double to the same double; a NaN compares equal to nothing, and the two zeros are one.
pub proof fn law_values_equal_their_own_kind(v: ValueView, w: ValueView)
    ensures
        v !is Float ==> (v.same(w) <==> v == w),
        v.same(w) ==> w.same(v),
        v matches ValueView::Float(a, _) ==> (w matches ValueView::Float(b, _) ==> {
            &&& a % 0x8000_0000_0000_0000 > 0x7ff0_0000_0000_0000 ==> !v.same(w)
            &&& a == b && a % 0x8000_0000_0000_0000 <= 0x7ff0_0000_0000_0000 ==> v.same(w)
            &&& a == 0 && b == 0x8000_0000_0000_0000 ==> v.same(w)
            &&& a != b && a != 0 && a != 0x8000_0000_0000_0000 ==> !v.same(w)
        }),
        v is Float && w !is Float ==> !v.same(w),
{
}

/// Clauses compare equal only to clauses of their kind, on the same field, with values that compare equal.
pub proof fn law_clauses_equal_their_own_kind(f: Seq<char>, v: ValueView, c: ClauseView)
    ensures
        ClauseView::Eq(f, v).same(c) <==> (c matches ClauseView::Eq(g, w) && f == g && v.same(w)),
        ClauseView::NotEq(f, v).same(c) <==> (c matches ClauseView::NotEq(g, w) && f == g && v.same(w)),
        ClauseView::Gt(f, v).same(c) <==> (c matches ClauseView::Gt(g, w) && f == g && v.same(w)),
        ClauseView::Gte(f, v).same(c) <==> (c matches ClauseView::Gte(g, w) && f == g && v.same(w)),
        ClauseView::Lt(f, v).same(c) <==> (c matches ClauseView::Lt(g, w) && f == g && v.same(w)),
        ClauseView::Lte(f, v).same(c) <==> (c matches ClauseView::Lte(g, w) && f == g && v.same(w)),
        ClauseView::IsNull(f).same(c) <==> c == ClauseView::IsNull(f),
        ClauseView::IsNotNull(f).same(c) <==> c == ClauseView::IsNotNull(f),
{
}

/// Lists and compositions compare equal only where they are of one kind and as long, and each of their
/// parts compares equal to the one in its place; bitmaps only under the same names with the same slots.
pub proof fn law_compositions_equal_part_by_part(
    f: Seq<char>,
    vs: Seq<ValueView>,
    cs: Seq<ClauseView>,
    name: Seq<char>,
    slots: Set<u32>,
    c: ClauseView,
)
    ensures
        ClauseView::In(f, vs).same(c) <==> (c matches ClauseView::In(g, ws) && f == g && vs.len() == ws.len() && (
        forall|i: int| 0 <= i < vs.len() ==> #[trigger] vs[i].same(ws[i]))),
        ClauseView::NotIn(f, vs).same(c) <==> (c matches ClauseView::NotIn(g, ws) && f == g && vs.len() == ws.len()
            && (forall|i: int| 0 <= i < vs.len() ==> #[trigger] vs[i].same(ws[i]))),
        ClauseView::And(cs).same(c) <==> (c matches ClauseView::And(ds) && cs.len() == ds.len() && (forall|i: int|
            0 <= i < cs.len() ==> #[trigger] cs[i].same(ds[i]))),
        ClauseView::Or(cs).same(c) <==> (c matches ClauseView::Or(ds) && cs.len() == ds.len() && (forall|i: int|
            0 <= i < cs.len() ==> #[trigger] cs[i].same(ds[i]))),
        (ClauseView::BucketBitmap { field: f, bucket_name: name, slots }).same(c) <==> c == (
        ClauseView::BucketBitmap { field: f, bucket_name: name, slots }),
{
    match c {
        ClauseView::And(ds) => {
            lemma_same_part_by_part(cs, ds);
            assert(ClauseView::And(cs).same(c) == same_clauses(cs, ds));
        },
        ClauseView::Or(ds) => {
            lemma_same_part_by_part(cs, ds);
            assert(ClauseView::Or(cs).same(c) == same_clauses(cs, ds));
        },
        _ => {},
    }
}

proof fn lemma_same_part_by_part(cs: Seq<ClauseView>, ds: Seq<ClauseView>)
    ensures
        same_clauses(cs, ds) <==> cs.len() == ds.len() && (forall|i: int|
            0 <= i < cs.len() ==> #[trigger] cs[i].same(ds[i])),
    decreases cs.len(),
{
    if cs.len() == ds.len() && cs.len() > 0 {
        let a = cs.drop_last();
        let b = ds.drop_last();
        lemma_same_part_by_part(a, b);
        let n = cs.len() - 1;
        if same_clauses(cs, ds) {
            assert forall|i: int| 0 <= i < cs.len() implies #[trigger] cs[i].same(ds[i]) by {
                if i < n {
                    assert(a[i].same(b[i]));
                }
            }
        }
        if forall|i: int| 0 <= i < cs.len() ==> #[trigger] cs[i].same(ds[i]) {
            assert forall|i: int| 0 <= i < a.len() implies #[trigger] a[i].same(b[i]) by {
                assert(cs[i].same(ds[i]));
            }
            assert(cs[n].same(ds[n]));
        }
    }
}

} // verus!
