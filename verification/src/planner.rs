//! Query planning: the cheapest filter first.

use crate::filter::{field_position, FilterIndex, KeyTable, SlotAllocator};
use crate::pairs::{find_value, pairs_map};
use crate::query::{lemma_models, models, value_views, ClauseView, FilterClause, Value, ValueView};
use crate::text::{lowercase, to_lower};
use vstd::prelude::*;
use vstd::string::*;

verus! {

/// Below this many results an in-memory sort beats the walk over the sort layers.
pub const SORT_FIRST_THRESHOLD: u64 = 1000;

/// What texts stand for, where a plan needs their keys.
pub struct PlannerContext<'a> {
    /// The configured keys of texts, field by field.
    pub string_maps: Option<&'a Vec<(String, KeyTable)>>,
    /// The keys that were given out as texts came in, field by field.
    pub dictionaries: Option<&'a Vec<(String, KeyTable)>>,
}

/// A signed number as a bitmap key: the same 64 bits.
pub open spec fn as_key(v: int) -> int {
    if v < 0 { v + 0x1_0000_0000_0000_0000 } else { v }
}

fn key_bits(v: i64) -> (r: u64)
    ensures
        r == as_key(v as int),
{
    if v < 0 { (v as i128 + 0x1_0000_0000_0000_0000i128) as u64 } else { v as u64 }
}

/// The bitmap key of a value that is its own key: a flag or a whole number.
pub open spec fn direct_key(v: ValueView) -> Option<int> {
    match v {
        ValueView::Bool(b) => Some(if b { 1int } else { 0 }),
        ValueView::Integer(n) => Some(as_key(n)),
        _ => None,
    }
}

/// Converts a value to a bitmap key for cardinality lookups.
pub fn value_to_bitmap_key(val: &Value) -> (r: Option<u64>)
    ensures
        match r {
            Some(k) => direct_key(val@) == Some(k as int),
            None => direct_key(val@) is None,
        },
{
    match val {
        Value::Bool(b) => Some(if *b { 1 } else { 0 }),
        Value::Integer(v) => Some(key_bits(*v)),
        _ => None,
    }
}

/// The key of a text in `maps`, if there is one.
pub open spec fn mapped_key(maps: Option<&Vec<(String, KeyTable)>>, field: Seq<char>, text: Seq<char>) -> Option<int> {
    match maps {
        Some(list) => {
            let tables = pairs_map(list@);
            if tables.dom().contains(field) && tables[field].dom().contains(text) {
                Some(as_key(tables[field][text] as int))
            } else {
                None
            }
        },
        None => None,
    }
}

/// The bitmap key of a value of `field`. A text is looked up in lower case: first among the
/// configured keys, then among those given out.
pub open spec fn resolved_key(field: Seq<char>, v: ValueView, ctx: Option<&PlannerContext>) -> Option<int> {
    match v {
        ValueView::String(s) => match ctx {
            Some(c) => match mapped_key(c.string_maps, field, lowercase(s)) {
                Some(k) => Some(k),
                None => mapped_key(c.dictionaries, field, lowercase(s)),
            },
            None => None,
        },
        _ => direct_key(v),
    }
}

fn find_mapped_key(maps: Option<&Vec<(String, KeyTable)>>, field: &str, text: &str) -> (r: Option<u64>)
    ensures
        match r {
            Some(k) => mapped_key(maps, field@, text@) == Some(k as int),
            None => mapped_key(maps, field@, text@) is None,
        },
{
    match maps {
        Some(list) => match find_value(list, field) {
            Some(table) => match table.find_key(text) {
                Some(k) => Some(key_bits(k)),
                None => None,
            },
            None => None,
        },
        None => None,
    }
}

/// Resolves a value to a bitmap key.
pub fn resolve_value_key(field: &str, val: &Value, ctx: Option<&PlannerContext>) -> (r: Option<u64>)
    ensures
        match r {
            Some(k) => resolved_key(field@, val@, ctx) == Some(k as int),
            None => resolved_key(field@, val@, ctx) is None,
        },
{
    match val {
        Value::String(s) => match ctx {
            Some(c) => {
                let lookup = to_lower(s.as_str());
                match find_mapped_key(c.string_maps, field, lookup.as_str()) {
                    Some(k) => Some(k),
                    None => find_mapped_key(c.dictionaries, field, lookup.as_str()),
                }
            },
            None => None,
        },
        _ => value_to_bitmap_key(val),
    }
}

/// How many slots have a value of a field, where both are known.
pub open spec fn value_count(
    filters: FilterIndex,
    field: Seq<char>,
    v: ValueView,
    ctx: Option<&PlannerContext>,
) -> Option<nat> {
    match field_position(filters.fields@, field, 0) {
        Some(p) => match resolved_key(field, v, ctx) {
            Some(k) => Some(filters.fields@[p].slots_with(k as u64).len()),
            None => None,
        },
        None => None,
    }
}

/// The counts of the first `n` of `values` together; a value without a key counts nothing.
pub open spec fn values_count(
    filters: FilterIndex,
    field: Seq<char>,
    values: Seq<ValueView>,
    ctx: Option<&PlannerContext>,
    n: int,
) -> nat
    decreases n,
{
    if n <= 0 {
        0
    } else {
        values_count(filters, field, values, ctx, n - 1) + match value_count(filters, field, values[n - 1], ctx) {
            Some(c) => c,
            None => 0,
        }
    }
}

/// The lesser of two counts.
pub open spec fn least(a: nat, b: nat) -> nat {
    if a <= b { a } else { b }
}

/// `a - b`, or zero.
pub open spec fn less(a: nat, b: nat) -> nat {
    if a >= b { (a - b) as nat } else { 0 }
}

/// How many documents a clause is expected to match.
///
/// An unknown field or value counts as everything. `In` adds up its values, `And` takes the
/// least of its parts, `Or` adds them up; none is more than what is alive. A range counts as
/// half of what is alive.
pub open spec fn estimate(c: ClauseView, filters: FilterIndex, alive: nat, ctx: Option<&PlannerContext>) -> nat
    decreases c,
{
    match c {
        ClauseView::Eq(f, v) => match value_count(filters, f, v, ctx) {
            Some(n) => n,
            None => alive,
        },
        ClauseView::NotEq(f, v) => match value_count(filters, f, v, ctx) {
            Some(n) => less(alive, n),
            None => alive,
        },
        ClauseView::In(f, vs) => if field_position(filters.fields@, f, 0) is Some {
            least(values_count(filters, f, vs, ctx, vs.len() as int), alive)
        } else {
            alive
        },
        ClauseView::NotIn(f, vs) => if field_position(filters.fields@, f, 0) is Some {
            less(alive, least(values_count(filters, f, vs, ctx, vs.len() as int), alive))
        } else {
            alive
        },
        ClauseView::Not(inner) => less(alive, estimate(*inner, filters, alive, ctx)),
        ClauseView::And(cs) => if cs.len() == 0 { 0 } else { least_of(estimates(cs, filters, alive, ctx)) },
        ClauseView::Or(cs) => least(sum_of(estimates(cs, filters, alive, ctx)), alive),
        ClauseView::Gt(_, _) => alive / 2,
        ClauseView::Lt(_, _) => alive / 2,
        ClauseView::Gte(_, _) => alive / 2,
        ClauseView::Lte(_, _) => alive / 2,
        ClauseView::IsNull(_) => alive,
        ClauseView::IsNotNull(_) => alive,
        ClauseView::BucketBitmap { field, bucket_name, slots } => slots.len(),
    }
}

/// The estimates of the clauses.
pub open spec fn estimates(
    cs: Seq<ClauseView>,
    filters: FilterIndex,
    alive: nat,
    ctx: Option<&PlannerContext>,
) -> Seq<nat>
    decreases cs,
{
    Seq::new(
        cs.len(),
        |i: int|
            if 0 <= i < cs.len() {
                estimate(cs[i], filters, alive, ctx)
            } else {
                arbitrary()
            },
    )
}

/// The sum of the counts.
pub open spec fn sum_of(s: Seq<nat>) -> nat
    decreases s.len(),
{
    if s.len() == 0 { 0 } else { sum_of(s.drop_last()) + s.last() }
}

/// The least of the counts.
pub open spec fn least_of(s: Seq<nat>) -> nat
    decreases s.len(),
{
    if s.len() == 0 {
        0
    } else if s.len() == 1 {
        s[0]
    } else {
        least(least_of(s.drop_last()), s.last())
    }
}

fn capped_count(
    field: &str,
    values: &Vec<Value>,
    filters: &FilterIndex,
    position: usize,
    alive: u64,
    ctx: Option<&PlannerContext>,
) -> (r: u64)
    requires
        position < filters.fields@.len(),
        field_position(filters.fields@, field@, 0) == Some(position as int),
    ensures
        r == least(
            values_count(*filters, field@, value_views(values@), ctx, values@.len() as int),
            alive as nat,
        ),
{
    let ghost vs = value_views(values@);
    let mut total: u64 = 0;
    let mut i: usize = 0;
    while i < values.len()
        invariant
            i <= values@.len(),
            vs == value_views(values@),
            position < filters.fields@.len(),
            field_position(filters.fields@, field@, 0) == Some(position as int),
            total == least(values_count(*filters, field@, vs, ctx, i as int), u64::MAX as nat),
        decreases values@.len() - i,
    {
        assert(vs[i as int] == values@[i as int]@);
        match resolve_value_key(field, &values[i], ctx) {
            Some(key) => {
                let n = filters.fields[position].cardinality(key);
                total = total.saturating_add(n);
            },
            None => {},
        }
        i = i + 1;
    }
    if total <= alive { total } else { alive }
}

/// Estimates the cardinality of a filter clause.
pub fn estimate_cardinality(
    clause: &FilterClause,
    filters: &FilterIndex,
    alive_count: u64,
    ctx: Option<&PlannerContext>,
) -> (r: u64)
    ensures
        r == estimate(clause@, *filters, alive_count as nat, ctx),
    decreases clause,
{
    match clause {
        FilterClause::Eq(field, value) => match filters.get_field(field.as_str()) {
            Some(p) => match resolve_value_key(field.as_str(), value, ctx) {
                Some(key) => filters.fields[p].cardinality(key),
                None => alive_count,
            },
            None => alive_count,
        },
        FilterClause::NotEq(field, value) => match filters.get_field(field.as_str()) {
            Some(p) => match resolve_value_key(field.as_str(), value, ctx) {
                Some(key) => alive_count.saturating_sub(filters.fields[p].cardinality(key)),
                None => alive_count,
            },
            None => alive_count,
        },
        FilterClause::In(field, values) => match filters.get_field(field.as_str()) {
            Some(p) => capped_count(field.as_str(), values, filters, p, alive_count, ctx),
            None => alive_count,
        },
        FilterClause::NotIn(field, values) => match filters.get_field(field.as_str()) {
            Some(p) => alive_count.saturating_sub(capped_count(field.as_str(), values, filters, p, alive_count, ctx)),
            None => alive_count,
        },
        FilterClause::Not(inner) => {
            let n = estimate_cardinality(inner, filters, alive_count, ctx);
            alive_count.saturating_sub(n)
        },
        FilterClause::And(clauses) => {
            let list = estimate_all(clauses, filters, alive_count, ctx);
            smallest(&list)
        },
        FilterClause::Or(clauses) => {
            let list = estimate_all(clauses, filters, alive_count, ctx);
            let total = saturating_sum(&list);
            if total <= alive_count { total } else { alive_count }
        },
        FilterClause::Gt(_, _) => alive_count / 2,
        FilterClause::Lt(_, _) => alive_count / 2,
        FilterClause::Gte(_, _) => alive_count / 2,
        FilterClause::Lte(_, _) => alive_count / 2,
        FilterClause::IsNull(_) => alive_count,
        FilterClause::IsNotNull(_) => alive_count,
        FilterClause::BucketBitmap { field: _, bucket_name: _, bitmap } => bitmap.len(),
    }
}

/// The counts as mathematical values.
pub open spec fn nats(s: Seq<u64>) -> Seq<nat> {
    Seq::new(s.len(), |i: int| s[i] as nat)
}

fn smallest(list: &Vec<u64>) -> (r: u64)
    ensures
        r == least_of(nats(list@)),
{
    if list.len() == 0 {
        return 0;
    }
    let ghost all = nats(list@);
    let mut r: u64 = list[0];
    let mut i: usize = 1;
    assert(all.take(1) =~= seq![list@[0] as nat]);
    while i < list.len()
        invariant
            1 <= i <= list@.len(),
            all == nats(list@),
            r == least_of(all.take(i as int)),
        decreases list@.len() - i,
    {
        assert(all.take(i + 1).drop_last() =~= all.take(i as int));
        if list[i] < r {
            r = list[i];
        }
        i = i + 1;
    }
    assert(all.take(all.len() as int) =~= all);
    r
}

fn saturating_sum(list: &Vec<u64>) -> (r: u64)
    ensures
        r == least(sum_of(nats(list@)), u64::MAX as nat),
{
    let ghost all = nats(list@);
    let mut r: u64 = 0;
    let mut i: usize = 0;
    assert(all.take(0) =~= Seq::<nat>::empty());
    while i < list.len()
        invariant
            i <= list@.len(),
            all == nats(list@),
            r == least(sum_of(all.take(i as int)), u64::MAX as nat),
        decreases list@.len() - i,
    {
        assert(all.take(i + 1).drop_last() =~= all.take(i as int));
        r = r.saturating_add(list[i]);
        i = i + 1;
    }
    assert(all.take(all.len() as int) =~= all);
    r
}

fn estimate_all(
    clauses: &Vec<FilterClause>,
    filters: &FilterIndex,
    alive_count: u64,
    ctx: Option<&PlannerContext>,
) -> (r: Vec<u64>)
    ensures
        nats(r@) == estimates(models(clauses@), *filters, alive_count as nat, ctx),
    decreases clauses,
{
    let mut r: Vec<u64> = Vec::new();
    let mut i: usize = 0;
    while i < clauses.len()
        invariant
            i <= clauses@.len(),
            r@.len() == i,
            forall|j: int|
                0 <= j < i ==> #[trigger] r@[j] == estimate(clauses@[j]@, *filters, alive_count as nat, ctx),
        decreases clauses@.len() - i,
    {
        r.push(estimate_cardinality(&clauses[i], filters, alive_count, ctx));
        i = i + 1;
    }
    proof {
        lemma_models(clauses@);
        let all = estimates(models(clauses@), *filters, alive_count as nat, ctx);
        assert forall|j: int| 0 <= j < r@.len() implies nats(r@)[j] == all[j] by {
            assert(r@[j] == estimate(clauses@[j]@, *filters, alive_count as nat, ctx));
        }
    }
    assert(nats(r@) =~= estimates(models(clauses@), *filters, alive_count as nat, ctx));
    r
}

/// A clause with its estimate.
pub struct Estimated {
    pub clause: ClauseView,
    pub count: nat,
}

/// `s` with `x` put behind every element that is no more costly, counted from the end.
pub open spec fn insert_estimated(s: Seq<Estimated>, x: Estimated) -> Seq<Estimated>
    decreases s.len(),
{
    if s.len() == 0 || s.last().count <= x.count {
        s.push(x)
    } else {
        insert_estimated(s.drop_last(), x).push(s.last())
    }
}

/// `s` ordered by estimate; where two are the same, the one that came first stays first.
pub open spec fn by_estimate(s: Seq<Estimated>) -> Seq<Estimated>
    decreases s.len(),
{
    if s.len() == 0 {
        Seq::empty()
    } else {
        insert_estimated(by_estimate(s.drop_last()), s.last())
    }
}

/// The clauses with their estimates.
pub open spec fn estimated(
    cs: Seq<ClauseView>,
    filters: FilterIndex,
    alive: nat,
    ctx: Option<&PlannerContext>,
) -> Seq<Estimated> {
    Seq::new(cs.len(), |i: int| Estimated { clause: cs[i], count: estimate(cs[i], filters, alive, ctx) })
}

/// The clauses of the list.
pub open spec fn clauses_of(s: Seq<Estimated>) -> Seq<ClauseView> {
    Seq::new(s.len(), |i: int| s[i].clause)
}

/// The pairs as mathematical values.
pub open spec fn pair_views(pairs: Seq<(FilterClause, u64)>) -> Seq<Estimated> {
    Seq::new(pairs.len(), |i: int| Estimated { clause: pairs[i].0@, count: pairs[i].1 as nat })
}

proof fn lemma_insert_at(s: Seq<Estimated>, x: Estimated, p: int)
    requires
        0 <= p <= s.len(),
        p == 0 || s[p - 1].count <= x.count,
        forall|j: int| p <= j < s.len() ==> (#[trigger] s[j]).count > x.count,
    ensures
        insert_estimated(s, x) == s.insert(p, x),
    decreases s.len(),
{
    if s.len() == 0 || p == s.len() {
        assert(s.insert(p, x) =~= s.push(x));
    } else {
        assert(s[s.len() - 1].count > x.count);
        lemma_insert_at(s.drop_last(), x, p);
        assert(s.insert(p, x) =~= s.drop_last().insert(p, x).push(s.last()));
    }
}

fn order_by_estimate(
    clauses: &Vec<FilterClause>,
    filters: &FilterIndex,
    alive_count: u64,
    ctx: Option<&PlannerContext>,
) -> (r: Vec<(FilterClause, u64)>)
    ensures
        pair_views(r@) == by_estimate(estimated(models(clauses@), *filters, alive_count as nat, ctx)),
{
    let ghost all = estimated(models(clauses@), *filters, alive_count as nat, ctx);
    let mut r: Vec<(FilterClause, u64)> = Vec::new();
    let mut i: usize = 0;
    proof {
        lemma_models(clauses@);
    }
    assert(all.take(0) =~= Seq::<Estimated>::empty());
    assert(pair_views(r@) =~= Seq::<Estimated>::empty());
    while i < clauses.len()
        invariant
            i <= clauses@.len(),
            all == estimated(models(clauses@), *filters, alive_count as nat, ctx),
            all.len() == clauses@.len(),
            forall|j: int| 0 <= j < clauses@.len() ==> #[trigger] models(clauses@)[j] == clauses@[j]@,
            pair_views(r@) == by_estimate(all.take(i as int)),
        decreases clauses@.len() - i,
    {
        assert(all.take(i + 1).drop_last() =~= all.take(i as int));
        let count = estimate_cardinality(&clauses[i], filters, alive_count, ctx);
        let copy = clauses[i].clone();
        let ghost x = Estimated { clause: copy@, count: count as nat };
        assert(models(clauses@)[i as int] == clauses@[i as int]@);
        assert(all[i as int] == x);
        let ghost before = pair_views(r@);
        let mut p: usize = r.len();
        while p > 0 && r[p - 1].1 > count
            invariant
                p <= r@.len(),
                before == pair_views(r@),
                x.count == count,
                forall|j: int| p <= j < before.len() ==> (#[trigger] before[j]).count > x.count,
            decreases p,
        {
            p = p - 1;
        }
        proof {
            lemma_insert_at(before, x, p as int);
        }
        r.insert(p, (copy, count));
        assert(pair_views(r@) =~= before.insert(p as int, x));
        i = i + 1;
    }
    assert(all.take(all.len() as int) =~= all);
    r
}

fn strip_estimates(pairs: &Vec<(FilterClause, u64)>) -> (r: Vec<FilterClause>)
    ensures
        models(r@) == clauses_of(pair_views(pairs@)),
{
    let mut r: Vec<FilterClause> = Vec::new();
    let mut i: usize = 0;
    while i < pairs.len()
        invariant
            i <= pairs@.len(),
            r@.len() == i,
            forall|j: int| 0 <= j < i ==> #[trigger] r@[j]@ == pairs@[j].0@,
        decreases pairs@.len() - i,
    {
        r.push(pairs[i].0.clone());
        i = i + 1;
    }
    proof {
        lemma_models(r@);
        assert forall|j: int| 0 <= j < r@.len() implies models(r@)[j] == clauses_of(pair_views(pairs@))[j] by {
            assert(r@[j]@ == pairs@[j].0@);
        }
    }
    assert(models(r@) =~= clauses_of(pair_views(pairs@)));
    r
}

/// A planned query with filter clauses reordered for execution.
pub struct QueryPlan {
    /// Filter clauses, the smallest estimate first.
    pub ordered_clauses: Vec<FilterClause>,
    /// Whether to sort in memory instead of walking the sort layers.
    pub use_simple_sort: bool,
    /// Estimated result size after all filters.
    pub estimated_result_size: u64,
}

/// The size that a plan expects: the least estimate, or everything without clauses.
pub open spec fn planned_size(
    cs: Seq<ClauseView>,
    filters: FilterIndex,
    alive: nat,
    ctx: Option<&PlannerContext>,
) -> nat {
    if cs.len() == 0 { alive } else { by_estimate(estimated(cs, filters, alive, ctx))[0].count }
}

/// Plans query execution by reordering filter clauses by cardinality.
pub fn plan_query(clauses: &Vec<FilterClause>, filters: &FilterIndex, slots: &SlotAllocator) -> (r: QueryPlan)
    ensures
        models(r.ordered_clauses@) == clauses_of(
            by_estimate(estimated(models(clauses@), *filters, slots.alive_slots().len(), None)),
        ),
        r.estimated_result_size == planned_size(models(clauses@), *filters, slots.alive_slots().len(), None),
        r.use_simple_sort == (r.estimated_result_size < SORT_FIRST_THRESHOLD),
        r.use_simple_sort <==> r.estimated_result_size <= 999,
{
    plan_query_with_context(clauses, filters, slots, None)
}

/// Plans query execution, with the keys of texts at hand.
pub fn plan_query_with_context(
    clauses: &Vec<FilterClause>,
    filters: &FilterIndex,
    slots: &SlotAllocator,
    ctx: Option<&PlannerContext>,
) -> (r: QueryPlan)
    ensures
        models(r.ordered_clauses@) == clauses_of(
            by_estimate(estimated(models(clauses@), *filters, slots.alive_slots().len(), ctx)),
        ),
        r.estimated_result_size == planned_size(models(clauses@), *filters, slots.alive_slots().len(), ctx),
        r.use_simple_sort == (r.estimated_result_size < SORT_FIRST_THRESHOLD),
        r.use_simple_sort <==> r.estimated_result_size <= 999,
{
    let alive_count = slots.alive_count();
    proof {
        lemma_models(clauses@);
        lemma_by_estimate(estimated(models(clauses@), *filters, slots.alive_slots().len(), ctx));
    }
    if clauses.len() == 0 {
        let ordered: Vec<FilterClause> = Vec::new();
        assert(models(ordered@) =~= clauses_of(
            by_estimate(estimated(models(clauses@), *filters, slots.alive_slots().len(), ctx)),
        ));
        return QueryPlan {
            ordered_clauses: ordered,
            use_simple_sort: alive_count < SORT_FIRST_THRESHOLD,
            estimated_result_size: alive_count,
        };
    }
    let pairs = order_by_estimate(clauses, filters, alive_count, ctx);
    assert(pair_views(pairs@).len() == pairs@.len());
    assert(pair_views(pairs@)[0].count == pairs@[0].1);
    let estimated_result_size: u64 = pairs[0].1;
    let ordered_clauses = strip_estimates(&pairs);
    QueryPlan {
        ordered_clauses,
        use_simple_sort: estimated_result_size < SORT_FIRST_THRESHOLD,
        estimated_result_size,
    }
}

/// Reorders the clauses of an `And` by cardinality.
pub fn optimize_and_clause(clauses: &Vec<FilterClause>, filters: &FilterIndex, alive_count: u64) -> (r: Vec<
    FilterClause,
>)
    ensures
        models(r@) == clauses_of(by_estimate(estimated(models(clauses@), *filters, alive_count as nat, None))),
{
    let pairs = order_by_estimate(clauses, filters, alive_count, None);
    strip_estimates(&pairs)
}

/// Whether the negated set of a clause is expected to be small: below a tenth of what is alive.
pub open spec fn negates_few(c: ClauseView, filters: FilterIndex, alive: nat) -> bool {
    match c {
        ClauseView::Not(inner) => estimate(*inner, filters, alive, None) < alive / 10,
        ClauseView::NotEq(f, v) => match value_count(filters, f, v, None) {
            Some(n) => n < alive / 10,
            None => false,
        },
        _ => false,
    }
}

/// Checks if a negated clause has a small negated set, which is better subtracted.
pub fn should_use_andnot(clause: &FilterClause, filters: &FilterIndex, alive_count: u64) -> (r: bool)
    ensures
        r == negates_few(clause@, *filters, alive_count as nat),
{
    match clause {
        FilterClause::Not(inner) => {
            let n = estimate_cardinality(inner, filters, alive_count, None);
            n < alive_count / 10
        },
        FilterClause::NotEq(field, value) => match filters.get_field(field.as_str()) {
            Some(p) => match value_to_bitmap_key(value) {
                Some(key) => filters.fields[p].cardinality(key) < alive_count / 10,
                None => false,
            },
            None => false,
        },
        _ => false,
    }
}

proof fn lemma_insert_estimated(s: Seq<Estimated>, x: Estimated)
    requires
        forall|i: int, j: int| 0 <= i <= j < s.len() ==> (#[trigger] s[i]).count <= (#[trigger] s[j]).count,
    ensures
        insert_estimated(s, x).len() == s.len() + 1,
        insert_estimated(s, x).to_multiset() == s.to_multiset().insert(x),
        forall|i: int, j: int|
            0 <= i <= j < s.len() + 1 ==> (#[trigger] insert_estimated(s, x)[i]).count <= (
            #[trigger] insert_estimated(s, x)[j]).count,
        insert_estimated(s, x).last() == x || (s.len() > 0 && insert_estimated(s, x).last() == s.last()),
    decreases s.len(),
{
    broadcast use vstd::seq_lib::group_to_multiset_ensures;
    if s.len() == 0 || s.last().count <= x.count {
    } else {
        let front = s.drop_last();
        lemma_insert_estimated(front, x);
        let t = insert_estimated(front, x);
        assert(s =~= front.push(s.last()));
        assert(insert_estimated(s, x) == t.push(s.last()));
        assert forall|i: int, j: int| 0 <= i <= j < s.len() + 1 implies (#[trigger] t.push(s.last())[i]).count <= (
        #[trigger] t.push(s.last())[j]).count by {
            if j == t.len() && i < t.len() {
                assert(t[i].count <= t[t.len() - 1].count);
                if t.last() != x {
                    assert(s[s.len() - 2].count <= s[s.len() - 1].count);
                }
            }
        }
    }
}

/// Ordering by estimate puts the least first and keeps every clause as often as it was there.
pub proof fn lemma_by_estimate(s: Seq<Estimated>)
    ensures
        by_estimate(s).len() == s.len(),
        by_estimate(s).to_multiset() == s.to_multiset(),
        forall|i: int, j: int|
            0 <= i <= j < s.len() ==> (#[trigger] by_estimate(s)[i]).count <= (#[trigger] by_estimate(s)[j]).count,
    decreases s.len(),
{
    broadcast use vstd::seq_lib::group_to_multiset_ensures;
    if s.len() > 0 {
        lemma_by_estimate(s.drop_last());
        lemma_insert_estimated(by_estimate(s.drop_last()), s.last());
        assert(s =~= s.drop_last().push(s.last()));
    } else {
        assert(s =~= Seq::empty());
    }
}

/// A plan holds the clauses of the query, each as often as the query does, and none before a
/// cheaper one; the size that it expects is at most the estimate of each clause.
pub proof fn law_plans_reorder_only(
    cs: Seq<ClauseView>,
    filters: FilterIndex,
    alive: nat,
    ctx: Option<&PlannerContext>,
)
    ensures
        by_estimate(estimated(cs, filters, alive, ctx)).to_multiset() == estimated(
            cs,
            filters,
            alive,
            ctx,
        ).to_multiset(),
        forall|i: int, j: int|
            0 <= i <= j < cs.len() ==> (#[trigger] by_estimate(estimated(cs, filters, alive, ctx))[i]).count <= (
            #[trigger] by_estimate(estimated(cs, filters, alive, ctx))[j]).count,
        forall|i: int|
            0 <= i < cs.len() ==> planned_size(cs, filters, alive, ctx) <= #[trigger] estimate(
                cs[i],
                filters,
                alive,
                ctx,
            ),
{
    let all = estimated(cs, filters, alive, ctx);
    let ordered = by_estimate(all);
    lemma_by_estimate(all);
    all.to_multiset_ensures();
    ordered.to_multiset_ensures();
    assert forall|i: int| 0 <= i < cs.len() implies planned_size(cs, filters, alive, ctx) <= #[trigger] estimate(
        cs[i],
        filters,
        alive,
        ctx,
    ) by {
        assert(all.contains(all[i]));
        assert(all.to_multiset().count(all[i]) > 0);
        assert(ordered.contains(all[i]));
        let k = choose|k: int| 0 <= k < ordered.len() && ordered[k] == all[i];
        assert(ordered[0].count <= ordered[k].count);
    }
}

/// An estimate of a clause that holds no precomputed bitmap is never more than what is alive,
/// where no value has more slots than are alive.
pub proof fn law_estimates_stay_below_alive(
    c: ClauseView,
    filters: FilterIndex,
    alive: nat,
    ctx: Option<&PlannerContext>,
)
    requires
        !holds_bucket(c),
        forall|p: int, key: u64|
            0 <= p < filters.fields@.len() ==> #[trigger] filters.fields@[p].slots_with(key).len() <= alive,
    ensures
        estimate(c, filters, alive, ctx) <= alive,
    decreases c,
{
    match c {
        ClauseView::And(cs) => {
            if cs.len() > 0 {
                assert forall|i: int| 0 <= i < cs.len() implies #[trigger] estimates(cs, filters, alive, ctx)[i]
                    <= alive by {
                    lemma_no_bucket_in(cs, i);
                    law_estimates_stay_below_alive(cs[i], filters, alive, ctx);
                }
                lemma_least_of(estimates(cs, filters, alive, ctx), alive);
            }
        },
        ClauseView::Eq(f, v) => {
            lemma_position_in_range(filters.fields@, f, 0);
        },
        _ => {},
    }
}

proof fn lemma_position_in_range(fields: Seq<crate::filter::FilterField>, name: Seq<char>, n: int)
    requires
        0 <= n,
    ensures
        field_position(fields, name, n) matches Some(p) ==> 0 <= p < fields.len(),
    decreases fields.len() - n,
{
    if n < fields.len() {
        lemma_position_in_range(fields, name, n + 1);
    }
}

proof fn lemma_least_of(s: Seq<nat>, bound: nat)
    requires
        s.len() > 0,
        forall|i: int| 0 <= i < s.len() ==> #[trigger] s[i] <= bound,
    ensures
        least_of(s) <= bound,
    decreases s.len(),
{
    if s.len() > 1 {
        lemma_least_of(s.drop_last(), bound);
    }
}

/// Whether a clause holds a precomputed bitmap.
pub open spec fn holds_bucket(c: ClauseView) -> bool
    decreases c,
{
    match c {
        ClauseView::BucketBitmap { .. } => true,
        ClauseView::Not(inner) => holds_bucket(*inner),
        ClauseView::And(cs) => some_holds_bucket(cs),
        ClauseView::Or(cs) => some_holds_bucket(cs),
        _ => false,
    }
}

/// Whether one of the clauses holds a precomputed bitmap.
pub open spec fn some_holds_bucket(cs: Seq<ClauseView>) -> bool
    decreases cs,
{
    cs.len() > 0 && (holds_bucket(cs.last()) || some_holds_bucket(cs.drop_last()))
}

proof fn lemma_no_bucket_in(cs: Seq<ClauseView>, i: int)
    requires
        !some_holds_bucket(cs),
        0 <= i < cs.len(),
    ensures
        !holds_bucket(cs[i]),
    decreases cs.len(),
{
    if i < cs.len() - 1 {
        lemma_no_bucket_in(cs.drop_last(), i);
    }
}

/// The estimates of `In` and of `NotIn` with the same values, on a field that there is, make up what
/// is alive between them; so do those of a clause and of its negation, where the clause is not
/// expected to match more than that.
pub proof fn law_a_clause_and_its_negation_make_up_the_whole(
    c: ClauseView,
    f: Seq<char>,
    vs: Seq<ValueView>,
    p: int,
    filters: FilterIndex,
    alive: nat,
    ctx: Option<&PlannerContext>,
)
    requires
        0 <= p < filters.fields@.len(),
        filters.fields@[p].name@ == f,
    ensures
        estimate(ClauseView::In(f, vs), filters, alive, ctx) + estimate(ClauseView::NotIn(f, vs), filters, alive, ctx)
            == alive,
        estimate(c, filters, alive, ctx) <= alive ==> estimate(c, filters, alive, ctx) + estimate(
            ClauseView::Not(Box::new(c)),
            filters,
            alive,
            ctx,
        ) == alive,
        estimate(c, filters, alive, ctx) > alive ==> estimate(ClauseView::Not(Box::new(c)), filters, alive, ctx) == 0,
{
    lemma_position_found(filters.fields@, f, p, 0);
    let inner = ClauseView::Not(Box::new(c));
    assert(estimate(inner, filters, alive, ctx) == less(alive, estimate(c, filters, alive, ctx)));
}

proof fn lemma_position_found(fields: Seq<crate::filter::FilterField>, name: Seq<char>, p: int, n: int)
    requires
        0 <= n <= p < fields.len(),
        fields[p].name@ == name,
    ensures
        field_position(fields, name, n) is Some,
    decreases p - n,
{
    if n < p {
        lemma_position_found(fields, name, p, n + 1);
    }
}

proof fn lemma_position_first(fields: Seq<crate::filter::FilterField>, name: Seq<char>, p: int, n: int)
    requires
        0 <= n <= p < fields.len(),
        fields[p].name@ == name,
        forall|q: int| 0 <= q < p ==> (#[trigger] fields[q]).name@ != name,
    ensures
        field_position(fields, name, n) == Some(p),
    decreases p - n,
{
    if n < p {
        assert(fields[n].name@ != name);
        lemma_position_first(fields, name, p, n + 1);
    }
}

proof fn lemma_position_missing(fields: Seq<crate::filter::FilterField>, name: Seq<char>, n: int)
    requires
        0 <= n,
        forall|q: int| 0 <= q < fields.len() ==> (#[trigger] fields[q]).name@ != name,
    ensures
        field_position(fields, name, n) is None,
    decreases fields.len() - n,
{
    if n < fields.len() {
        assert(fields[n].name@ != name);
        lemma_position_missing(fields, name, n + 1);
    }
}

/// Nothing is known of a field that there is not: every clause of a value of it is expected to match
/// everything.
pub proof fn law_unknown_fields_count_as_everything(
    f: Seq<char>,
    v: ValueView,
    vs: Seq<ValueView>,
    filters: FilterIndex,
    alive: nat,
    ctx: Option<&PlannerContext>,
)
    requires
        forall|q: int| 0 <= q < filters.fields@.len() ==> (#[trigger] filters.fields@[q]).name@ != f,
    ensures
        estimate(ClauseView::Eq(f, v), filters, alive, ctx) == alive,
        estimate(ClauseView::NotEq(f, v), filters, alive, ctx) == alive,
        estimate(ClauseView::In(f, vs), filters, alive, ctx) == alive,
        estimate(ClauseView::NotIn(f, vs), filters, alive, ctx) == alive,
{
    lemma_position_missing(filters.fields@, f, 0);
}

/// A whole number that is not negative is its own key: a clause that asks for it is expected to match
/// exactly the slots that are filed under it, and one that asks for anything else the rest of what
/// is alive. A flag is filed under one or zero.
pub proof fn law_numbers_are_counted_where_they_are_filed(
    f: Seq<char>,
    n: u64,
    flag: bool,
    p: int,
    filters: FilterIndex,
    alive: nat,
    ctx: Option<&PlannerContext>,
)
    requires
        n <= i64::MAX,
        0 <= p < filters.fields@.len(),
        filters.fields@[p].name@ == f,
        forall|q: int| 0 <= q < p ==> (#[trigger] filters.fields@[q]).name@ != f,
    ensures
        estimate(ClauseView::Eq(f, ValueView::Integer(n as int)), filters, alive, ctx)
            == filters.fields@[p].slots_with(n).len(),
        filters.fields@[p].slots_with(n).len() <= alive ==> filters.fields@[p].slots_with(n).len() + estimate(
            ClauseView::NotEq(f, ValueView::Integer(n as int)),
            filters,
            alive,
            ctx,
        ) == alive,
        filters.fields@[p].slots_with(n).len() > alive ==> estimate(
            ClauseView::NotEq(f, ValueView::Integer(n as int)),
            filters,
            alive,
            ctx,
        ) == 0,
        estimate(ClauseView::Eq(f, ValueView::Bool(flag)), filters, alive, ctx) == filters.fields@[p].slots_with(
            if flag {
                1
            } else {
                0
            },
        ).len(),
{
    lemma_position_first(filters.fields@, f, p, 0);
}

/// Negative numbers are filed under their 64 bits: from the top down, so that no two numbers share a
/// key.
pub proof fn law_numbers_have_keys_of_their_own(a: i64, b: i64)
    ensures
        as_key(a as int) == as_key(b as int) ==> a == b,
        a < 0 ==> as_key(a as int) - as_key(-1) == a + 1 && as_key(-1) == u64::MAX,
{
}

/// Values that no slot has are expected nowhere, and everything is expected to be without them.
pub proof fn law_absent_values_match_nothing(
    f: Seq<char>,
    vs: Seq<ValueView>,
    p: int,
    filters: FilterIndex,
    alive: nat,
    ctx: Option<&PlannerContext>,
)
    requires
        0 <= p < filters.fields@.len(),
        filters.fields@[p].name@ == f,
        forall|q: int, key: u64|
            0 <= q < filters.fields@.len() && filters.fields@[q].name@ == f
                ==> #[trigger] filters.fields@[q].slots_with(key).len() == 0,
    ensures
        estimate(ClauseView::In(f, vs), filters, alive, ctx) == 0,
        estimate(ClauseView::NotIn(f, vs), filters, alive, ctx) == alive,
{
    lemma_position_found(filters.fields@, f, p, 0);
    lemma_nothing_counted(filters, f, vs, ctx, vs.len() as int);
}

proof fn lemma_named_at_position(fields: Seq<crate::filter::FilterField>, name: Seq<char>, n: int)
    requires
        0 <= n,
    ensures
        field_position(fields, name, n) matches Some(p) ==> n <= p < fields.len() && fields[p].name@ == name,
    decreases fields.len() - n,
{
    if n < fields.len() {
        lemma_named_at_position(fields, name, n + 1);
    }
}

proof fn lemma_nothing_counted(
    filters: FilterIndex,
    f: Seq<char>,
    vs: Seq<ValueView>,
    ctx: Option<&PlannerContext>,
    n: int,
)
    requires
        forall|q: int, key: u64|
            0 <= q < filters.fields@.len() && filters.fields@[q].name@ == f
                ==> #[trigger] filters.fields@[q].slots_with(key).len() == 0,
    ensures
        values_count(filters, f, vs, ctx, n) == 0,
    decreases n,
{
    if n > 0 {
        lemma_named_at_position(filters.fields@, f, 0);
        lemma_nothing_counted(filters, f, vs, ctx, n - 1);
    }
}

/// One value in a list is counted as the value alone, up to what is alive; a list that is longer by
/// a value is expected to match as much more as the value alone, up to what is alive.
pub proof fn law_lists_add_up_their_values(
    f: Seq<char>,
    vs: Seq<ValueView>,
    v: ValueView,
    p: int,
    filters: FilterIndex,
    alive: nat,
    ctx: Option<&PlannerContext>,
)
    requires
        0 <= p < filters.fields@.len(),
        filters.fields@[p].name@ == f,
        resolved_key(f, v, ctx) is Some,
    ensures
        ({
            let one = estimate(ClauseView::Eq(f, v), filters, alive, ctx);
            let list = estimate(ClauseView::In(f, vs), filters, alive, ctx);
            let longer = estimate(ClauseView::In(f, vs.push(v)), filters, alive, ctx);
            let alone = estimate(ClauseView::In(f, seq![v]), filters, alive, ctx);
            &&& longer == if list + one <= alive { list + one } else { alive }
            &&& alone == if one <= alive { one } else { alive }
        }),
{
    lemma_position_found(filters.fields@, f, p, 0);
    lemma_count_prefix(filters, f, vs, vs.push(v), ctx, vs.len() as int);
    let empty = Seq::<ValueView>::empty();
    assert(values_count(filters, f, empty, ctx, 0) == 0);
    assert(seq![v] =~= empty.push(v));
    lemma_count_prefix(filters, f, empty, seq![v], ctx, 0);
}

proof fn lemma_count_prefix(
    filters: FilterIndex,
    f: Seq<char>,
    a: Seq<ValueView>,
    b: Seq<ValueView>,
    ctx: Option<&PlannerContext>,
    n: int,
)
    requires
        n <= a.len(),
        n <= b.len(),
        forall|i: int| 0 <= i < n ==> a[i] == b[i],
    ensures
        values_count(filters, f, a, ctx, n) == values_count(filters, f, b, ctx, n),
    decreases n,
{
    if n > 0 {
        lemma_count_prefix(filters, f, a, b, ctx, n - 1);
    }
}

/// `And` is expected to match what its most selective part matches: no more than any part, and as
/// much as one of them. `Or` is expected to match as much as each part, up to what is alive.
pub proof fn law_parts_bound_the_whole(
    cs: Seq<ClauseView>,
    i: int,
    filters: FilterIndex,
    alive: nat,
    ctx: Option<&PlannerContext>,
)
    requires
        0 <= i < cs.len(),
    ensures
        estimate(ClauseView::And(cs), filters, alive, ctx) <= estimate(cs[i], filters, alive, ctx),
        exists|k: int|
            0 <= k < cs.len() && estimate(ClauseView::And(cs), filters, alive, ctx) == #[trigger] estimate(
                cs[k],
                filters,
                alive,
                ctx,
            ),
        estimate(cs[i], filters, alive, ctx) <= alive ==> estimate(cs[i], filters, alive, ctx) <= estimate(
            ClauseView::Or(cs),
            filters,
            alive,
            ctx,
        ),
        estimate(cs[i], filters, alive, ctx) >= alive ==> estimate(ClauseView::Or(cs), filters, alive, ctx) == alive,
        estimate(ClauseView::Or(cs), filters, alive, ctx) <= alive,
{
    let all = estimates(cs, filters, alive, ctx);
    assert(all[i] == estimate(cs[i], filters, alive, ctx));
    let k = lemma_least_is_one(all);
    assert(all[k] == estimate(cs[k], filters, alive, ctx));
    lemma_least_below(all, i);
    lemma_sum_above(all, i);
    assert(estimate(ClauseView::And(cs), filters, alive, ctx) == least_of(all));
    assert(estimate(ClauseView::Or(cs), filters, alive, ctx) == least(sum_of(all), alive));
}

/// Two clauses are expected to match together what they match one by one, up to what is alive, where
/// either may match; and the lesser of the two where both must. Without parts nothing is expected.
pub proof fn law_pairs_add_up(
    a: ClauseView,
    b: ClauseView,
    filters: FilterIndex,
    alive: nat,
    ctx: Option<&PlannerContext>,
)
    ensures
        ({
            let x = estimate(a, filters, alive, ctx);
            let y = estimate(b, filters, alive, ctx);
            &&& estimate(ClauseView::Or(seq![a, b]), filters, alive, ctx) == if x + y <= alive { x + y } else { alive }
            &&& estimate(ClauseView::And(seq![a, b]), filters, alive, ctx) == if x <= y { x } else { y }
        }),
        estimate(ClauseView::Or(Seq::empty()), filters, alive, ctx) == 0,
        estimate(ClauseView::And(Seq::empty()), filters, alive, ctx) == 0,
{
    let cs = seq![a, b];
    let all = estimates(cs, filters, alive, ctx);
    assert(all[0] == estimate(a, filters, alive, ctx));
    assert(all[1] == estimate(b, filters, alive, ctx));
    assert(all =~= seq![all[0], all[1]]);
    assert(all.drop_last() =~= seq![all[0]]);
    assert(all.drop_last().drop_last() =~= Seq::<nat>::empty());
    assert(sum_of(all.drop_last().drop_last()) == 0);
    assert(sum_of(all.drop_last()) == all[0]);
    assert(least_of(all.drop_last()) == all[0]);
    assert(estimate(ClauseView::And(cs), filters, alive, ctx) == least_of(all));
    assert(estimate(ClauseView::Or(cs), filters, alive, ctx) == least(sum_of(all), alive));
    let none = estimates(Seq::empty(), filters, alive, ctx);
    assert(none =~= Seq::<nat>::empty());
    assert(sum_of(none) == 0);
    assert(estimate(ClauseView::Or(Seq::empty()), filters, alive, ctx) == least(sum_of(none), alive));
}

proof fn lemma_least_is_one(s: Seq<nat>) -> (k: int)
    requires
        s.len() > 0,
    ensures
        0 <= k < s.len(),
        least_of(s) == s[k],
    decreases s.len(),
{
    if s.len() == 1 {
        0
    } else {
        let j = lemma_least_is_one(s.drop_last());
        if s[j] <= s.last() { j } else { s.len() - 1 }
    }
}

proof fn lemma_least_below(s: Seq<nat>, i: int)
    requires
        0 <= i < s.len(),
    ensures
        least_of(s) <= s[i],
    decreases s.len(),
{
    if s.len() > 1 && i < s.len() - 1 {
        lemma_least_below(s.drop_last(), i);
    }
}

proof fn lemma_sum_above(s: Seq<nat>, i: int)
    requires
        0 <= i < s.len(),
    ensures
        sum_of(s) >= s[i],
    decreases s.len(),
{
    if i < s.len() - 1 {
        lemma_sum_above(s.drop_last(), i);
    }
}

/// A range is expected to match half of what is alive, whichever end it bounds; whether a field holds
/// anything tells nothing; a precomputed bitmap is expected to match the slots that it holds.
pub proof fn law_ranges_match_half(
    f: Seq<char>,
    v: ValueView,
    name: Seq<char>,
    slots: Set<u32>,
    filters: FilterIndex,
    alive: nat,
    ctx: Option<&PlannerContext>,
)
    ensures
        ({
            let half = estimate(ClauseView::Gt(f, v), filters, alive, ctx);
            &&& 2 * half <= alive <= 2 * half + 1
            &&& estimate(ClauseView::Gte(f, v), filters, alive, ctx) == half
            &&& estimate(ClauseView::Lt(f, v), filters, alive, ctx) == half
            &&& estimate(ClauseView::Lte(f, v), filters, alive, ctx) == half
        }),
        estimate(ClauseView::IsNull(f), filters, alive, ctx) == alive,
        estimate(ClauseView::IsNotNull(f), filters, alive, ctx) == alive,
        estimate(ClauseView::BucketBitmap { field: f, bucket_name: name, slots }, filters, alive, ctx) == slots.len(),
{
}

/// A text is known by its key, and how it is written up or down does not matter: what is said of a
/// text holds of it in lower case. The configured keys come before those given out.
pub proof fn law_texts_are_known_by_their_key(f: Seq<char>, text: Seq<char>, lower: Seq<char>, ctx: PlannerContext)
    requires
        lowercase(text) == lower,
        lowercase(lower) == lower,
    ensures
        resolved_key(f, ValueView::String(text), Some(&ctx)) == resolved_key(f, ValueView::String(lower), Some(&ctx)),
        ctx.string_maps matches Some(list) ==> (pairs_map(list@).dom().contains(f) && pairs_map(
            list@,
        )[f].dom().contains(lower) ==> resolved_key(f, ValueView::String(text), Some(&ctx)) == Some(
            as_key(pairs_map(list@)[f][lower] as int),
        )),
        ctx.string_maps is None ==> (ctx.dictionaries matches Some(list) ==> (pairs_map(list@).dom().contains(f)
            && pairs_map(list@)[f].dom().contains(lower) ==> resolved_key(f, ValueView::String(text), Some(&ctx))
            == Some(as_key(pairs_map(list@)[f][lower] as int)))),
        resolved_key(f, ValueView::String(text), None) is None,
{
}

/// A negation is subtracted where what it negates is below a tenth of what is alive. It does not
/// matter how the negation is written; nothing else is subtracted.
pub proof fn law_small_negations_are_subtracted(
    c: ClauseView,
    f: Seq<char>,
    v: ValueView,
    p: int,
    filters: FilterIndex,
    alive: nat,
)
    requires
        0 <= p < filters.fields@.len(),
        filters.fields@[p].name@ == f,
        direct_key(v) is Some,
    ensures
        negates_few(ClauseView::Not(Box::new(c)), filters, alive) <==> 10 * (estimate(c, filters, alive, None) + 1)
            <= alive,
        negates_few(ClauseView::NotEq(f, v), filters, alive) == negates_few(
            ClauseView::Not(Box::new(ClauseView::Eq(f, v))),
            filters,
            alive,
        ),
        !(c is Not) && !(c is NotEq) ==> !negates_few(c, filters, alive),
{
    lemma_position_found(filters.fields@, f, p, 0);
}

/// A plan expects what its most selective clause is expected to match, or everything where it has
/// none.
pub proof fn law_plans_expect_the_least(
    cs: Seq<ClauseView>,
    filters: FilterIndex,
    alive: nat,
    ctx: Option<&PlannerContext>,
)
    ensures
        cs.len() == 0 ==> planned_size(cs, filters, alive, ctx) == alive,
        cs.len() > 0 ==> planned_size(cs, filters, alive, ctx) == estimate(
            ClauseView::And(cs),
            filters,
            alive,
            ctx,
        ),
        cs.len() > 0 ==> planned_size(cs, filters, alive, ctx) == estimate(
            clauses_of(by_estimate(estimated(cs, filters, alive, ctx)))[0],
            filters,
            alive,
            ctx,
        ),
{
    if cs.len() > 0 {
        let all = estimated(cs, filters, alive, ctx);
        let ordered = by_estimate(all);
        lemma_by_estimate(all);
        all.to_multiset_ensures();
        ordered.to_multiset_ensures();
        assert(ordered.contains(ordered[0]));
        assert(all.to_multiset().count(ordered[0]) > 0);
        let k = choose|k: int| 0 <= k < all.len() && all[k] == ordered[0];
        law_plans_reorder_only(cs, filters, alive, ctx);
        law_parts_bound_the_whole(cs, k, filters, alive, ctx);
        let m = choose|m: int|
            0 <= m < cs.len() && estimate(ClauseView::And(cs), filters, alive, ctx) == #[trigger] estimate(
                cs[m],
                filters,
                alive,
                ctx,
            );
        assert(planned_size(cs, filters, alive, ctx) <= estimate(cs[m], filters, alive, ctx));
    }
}

/// Clauses that are expected to match the same stay in the order of the query: those of one estimate
/// are found in a plan as they were given.
pub proof fn law_equal_estimates_keep_their_order(s: Seq<Estimated>, count: nat)
    ensures
        by_estimate(s).filter(|x: Estimated| x.count == count) == s.filter(|x: Estimated| x.count == count),
    decreases s.len(),
{
    reveal(Seq::filter);
    let same = |x: Estimated| x.count == count;
    if s.len() > 0 {
        law_equal_estimates_keep_their_order(s.drop_last(), count);
        lemma_by_estimate(s.drop_last());
        lemma_insert_keeps_order(by_estimate(s.drop_last()), s.last(), count);
        assert(s.filter(same) == s.drop_last().filter(same) + if same(s.last()) {
            seq![s.last()]
        } else {
            Seq::<Estimated>::empty()
        });
    }
    assert(by_estimate(s).filter(same) =~= s.filter(same));
}

proof fn lemma_insert_keeps_order(s: Seq<Estimated>, e: Estimated, count: nat)
    requires
        forall|i: int, j: int| 0 <= i <= j < s.len() ==> (#[trigger] s[i]).count <= (#[trigger] s[j]).count,
    ensures
        insert_estimated(s, e).filter(|x: Estimated| x.count == count) == s.filter(|x: Estimated| x.count == count)
            + if e.count == count {
            seq![e]
        } else {
            Seq::<Estimated>::empty()
        },
    decreases s.len(),
{
    reveal(Seq::filter);
    let same = |x: Estimated| x.count == count;
    let t = insert_estimated(s, e);
    if s.len() == 0 || s.last().count <= e.count {
        assert(t.drop_last() =~= s);
    } else {
        lemma_insert_keeps_order(s.drop_last(), e, count);
        assert(t.drop_last() =~= insert_estimated(s.drop_last(), e));
        assert(t.last() == s.last());
    }
    assert(t.filter(same) =~= s.filter(same) + if e.count == count {
        seq![e]
    } else {
        Seq::<Estimated>::empty()
    });
}

} // verus!
