//! Traces of queries, kept in a bounded buffer.
//!
//! A collector goes along with a query and gathers the time of each phase, the cardinality
//! of each clause and what sorting cost. A finished trace goes into a ring buffer that holds
//! the newest ones.

use crate::calendar::{is_iso, iso_text};
use crate::query::{models, texts_of_values, value_texts, ClauseView, FilterClause, Value, ValueView};
use crate::text::{dec, decimal, join, join_texts, views};
use std::collections::VecDeque;
use std::time::{Duration, Instant, SystemTime, SystemTimeError};
use vstd::prelude::*;
use vstd::string::*;

verus! {

/// How many traces a buffer holds that nothing was said about.
pub const DEFAULT_CAPACITY: usize = 1000;

/// What one query did.
#[derive(Debug)]
pub struct QueryTrace {
    pub ts: String,
    pub index: String,
    pub total_us: u64,
    pub plan_us: u64,
    pub filter_us: u64,
    pub sort_us: u64,
    pub result_count: u64,
    pub cache_hit: bool,
    pub lazy_load_us: u64,
    pub docs_us: u64,
    pub docs_count: u64,
    /// The time spent on waiting for the cache, over the whole query.
    pub cache_lock_us: u64,
    pub clauses: Vec<ClauseTrace>,
    pub sort: Option<SortTrace>,
}

/// What one clause of a query did.
#[derive(Debug)]
pub struct ClauseTrace {
    pub ord: usize,
    pub field: String,
    pub op: String,
    pub values: String,
    pub card: u64,
    pub acc_before: u64,
    pub acc_after: u64,
    pub eval_us: u64,
    pub and_us: u64,
    pub mode: String,
    /// What scanning a range did; none for the other clauses.
    pub range_scan: Option<RangeScanTrace>,
}

/// What evaluating a range did.
#[derive(Debug, Clone, Copy)]
pub struct RangeScanTrace {
    /// How many distinct values of the field were scanned.
    pub values_scanned: usize,
    /// How many bitmaps were combined.
    pub bitmaps_ored: usize,
    /// The time that the scan took, in microseconds.
    pub scan_us: u64,
    /// Whether a time bucket stood in for the scan.
    pub snap_used: bool,
}

/// What sorting did.
#[derive(Debug)]
pub struct SortTrace {
    pub field: String,
    pub dir: String,
    pub input: u64,
    pub output: u64,
    pub time_us: u64,
}

/// A sort trace as a mathematical value.
#[verifier::ext_equal]
pub struct SortTraceView {
    pub field: Seq<char>,
    pub dir: Seq<char>,
    pub input: u64,
    pub output: u64,
    pub time_us: u64,
}

/// A clause trace as a mathematical value.
#[verifier::ext_equal]
pub struct ClauseTraceView {
    pub ord: usize,
    pub field: Seq<char>,
    pub op: Seq<char>,
    pub values: Seq<char>,
    pub card: u64,
    pub acc_before: u64,
    pub acc_after: u64,
    pub eval_us: u64,
    pub and_us: u64,
    pub mode: Seq<char>,
    pub range_scan: Option<RangeScanTrace>,
}

/// A trace as a mathematical value.
#[verifier::ext_equal]
pub struct TraceView {
    pub ts: Seq<char>,
    pub index: Seq<char>,
    pub total_us: u64,
    pub plan_us: u64,
    pub filter_us: u64,
    pub sort_us: u64,
    pub result_count: u64,
    pub cache_hit: bool,
    pub lazy_load_us: u64,
    pub docs_us: u64,
    pub docs_count: u64,
    pub cache_lock_us: u64,
    pub clauses: Seq<ClauseTraceView>,
    pub sort: Option<SortTraceView>,
}

impl View for SortTrace {
    type V = SortTraceView;

    open spec fn view(&self) -> SortTraceView {
        SortTraceView {
            field: self.field@,
            dir: self.dir@,
            input: self.input,
            output: self.output,
            time_us: self.time_us,
        }
    }
}

impl View for ClauseTrace {
    type V = ClauseTraceView;

    open spec fn view(&self) -> ClauseTraceView {
        ClauseTraceView {
            ord: self.ord,
            field: self.field@,
            op: self.op@,
            values: self.values@,
            card: self.card,
            acc_before: self.acc_before,
            acc_after: self.acc_after,
            eval_us: self.eval_us,
            and_us: self.and_us,
            mode: self.mode@,
            range_scan: self.range_scan,
        }
    }
}

/// The clause traces as mathematical values.
pub open spec fn clause_views(clauses: Seq<ClauseTrace>) -> Seq<ClauseTraceView> {
    Seq::new(clauses.len(), |i: int| clauses[i]@)
}

/// A sort trace that may be absent, as a mathematical value.
pub open spec fn sort_view(sort: Option<SortTrace>) -> Option<SortTraceView> {
    match sort {
        Some(s) => Some(s@),
        None => None,
    }
}

impl View for QueryTrace {
    type V = TraceView;

    open spec fn view(&self) -> TraceView {
        TraceView {
            ts: self.ts@,
            index: self.index@,
            total_us: self.total_us,
            plan_us: self.plan_us,
            filter_us: self.filter_us,
            sort_us: self.sort_us,
            result_count: self.result_count,
            cache_hit: self.cache_hit,
            lazy_load_us: self.lazy_load_us,
            docs_us: self.docs_us,
            docs_count: self.docs_count,
            cache_lock_us: self.cache_lock_us,
            clauses: clause_views(self.clauses@),
            sort: sort_view(self.sort),
        }
    }
}

impl Clone for SortTrace {
    fn clone(&self) -> (r: Self)
        ensures
            r@ == self@,
    {
        SortTrace {
            field: self.field.clone(),
            dir: self.dir.clone(),
            input: self.input,
            output: self.output,
            time_us: self.time_us,
        }
    }
}

impl Clone for ClauseTrace {
    fn clone(&self) -> (r: Self)
        ensures
            r@ == self@,
    {
        ClauseTrace {
            ord: self.ord,
            field: self.field.clone(),
            op: self.op.clone(),
            values: self.values.clone(),
            card: self.card,
            acc_before: self.acc_before,
            acc_after: self.acc_after,
            eval_us: self.eval_us,
            and_us: self.and_us,
            mode: self.mode.clone(),
            range_scan: self.range_scan,
        }
    }
}

impl Clone for QueryTrace {
    fn clone(&self) -> (r: Self)
        ensures
            r@ == self@,
    {
        let mut clauses: Vec<ClauseTrace> = Vec::new();
        let mut i: usize = 0;
        while i < self.clauses.len()
            invariant
                i <= self.clauses@.len(),
                clauses@.len() == i,
                forall|j: int| 0 <= j < i ==> #[trigger] clauses@[j]@ == self.clauses@[j]@,
            decreases self.clauses@.len() - i,
        {
            clauses.push(self.clauses[i].clone());
            i = i + 1;
        }
        assert(clause_views(clauses@) =~= clause_views(self.clauses@));
        let sort = match &self.sort {
            Some(s) => Some(s.clone()),
            None => None,
        };
        QueryTrace {
            ts: self.ts.clone(),
            index: self.index.clone(),
            total_us: self.total_us,
            plan_us: self.plan_us,
            filter_us: self.filter_us,
            sort_us: self.sort_us,
            result_count: self.result_count,
            cache_hit: self.cache_hit,
            lazy_load_us: self.lazy_load_us,
            docs_us: self.docs_us,
            docs_count: self.docs_count,
            cache_lock_us: self.cache_lock_us,
            clauses,
            sort,
        }
    }
}

/// A reading of the machine's clock.
#[verifier::external_type_specification]
#[verifier::external_body]
pub struct ExInstant(Instant);

/// `Instant::now`: nothing is claimed of the reading.
pub assume_specification[ Instant::now ]() -> Instant
;

/// A reading of the machine's calendar.
#[verifier::external_type_specification]
#[verifier::external_body]
pub struct ExSystemTime(SystemTime);

/// That a moment lies before another.
#[verifier::external_type_specification]
#[verifier::external_body]
pub struct ExSystemTimeError(SystemTimeError);

/// `Instant::elapsed`: it rests on the clock, and nothing is claimed of the span.
pub assume_specification[ Instant::elapsed ](start: &Instant) -> Duration
;

/// `SystemTime::now`: nothing is claimed of the reading.
pub assume_specification[ SystemTime::now ]() -> SystemTime
;

/// `SystemTime::duration_since` from the start of 1970: it rests on the clock, and nothing is claimed
/// of the span, nor of whether the moment lies before.
#[verifier::external_body]
fn since_epoch(moment: SystemTime) -> Result<Duration, SystemTimeError> {
    moment.duration_since(SystemTime::UNIX_EPOCH)
}

/// `Duration::as_micros`: a span comes from the clock here, and nothing is claimed of its length.
pub assume_specification[ Duration::as_micros ](span: &Duration) -> u128
;

/// `Duration::as_secs`: a span comes from the clock here, and nothing is claimed of its length.
pub assume_specification[ Duration::as_secs ](span: &Duration) -> u64
;

/// `Duration::subsec_millis`: the fraction of a second in milliseconds, always less than a second.
pub assume_specification[ Duration::subsec_millis ](span: &Duration) -> (r: u32)
    ensures
        r < 1000,
;

/// The microseconds since `start`. They rest on the clock.
pub(crate) fn elapsed_us(start: &Instant) -> u64 {
    let span = start.elapsed();
    #[verifier::truncate]
    (span.as_micros() as u64)
}

/// The seconds and milliseconds since the start of 1970, or zero where the clock stands before it.
fn clock() -> (r: (u64, u32))
    ensures
        r.1 < 1000,
{
    match since_epoch(SystemTime::now()) {
        Ok(span) => (span.as_secs(), span.subsec_millis()),
        Err(_) => (0, 0),
    }
}

/// The present moment.
pub fn iso_now() -> (r: String)
    ensures
        exists|secs: int, millis: int|
            0 <= secs <= u64::MAX && 0 <= millis < 1000 && #[trigger] is_iso(r@, secs, millis),
{
    let (secs, millis) = clock();
    iso_text(secs, millis)
}

/// Gathers what a query does while it runs.
pub struct QueryTraceCollector {
    pub start: Instant,
    pub plan_us: u64,
    pub lazy_load_us: u64,
    pub filter_us: u64,
    pub sort_us: u64,
    pub cache_hit: bool,
    pub cache_lock_us: u64,
    pub clauses: Vec<ClauseTrace>,
    pub sort: Option<SortTrace>,
}

impl QueryTraceCollector {
    /// The trace that the collector makes at `ts`, `total_us` after its start.
    pub open spec fn trace(self, index: Seq<char>, result_count: u64, total_us: u64, ts: Seq<char>) -> TraceView {
        TraceView {
            ts,
            index,
            total_us,
            plan_us: self.plan_us,
            filter_us: self.filter_us,
            sort_us: self.sort_us,
            result_count,
            cache_hit: self.cache_hit,
            lazy_load_us: self.lazy_load_us,
            docs_us: 0,
            docs_count: 0,
            cache_lock_us: self.cache_lock_us,
            clauses: clause_views(self.clauses@),
            sort: sort_view(self.sort),
        }
    }

    /// An empty collector that starts now.
    pub fn new() -> (r: Self)
        ensures
            r.plan_us == 0,
            r.lazy_load_us == 0,
            r.filter_us == 0,
            r.sort_us == 0,
            !r.cache_hit,
            r.cache_lock_us == 0,
            r.clauses@.len() == 0,
            r.sort is None,
    {
        QueryTraceCollector {
            start: Instant::now(),
            plan_us: 0,
            lazy_load_us: 0,
            filter_us: 0,
            sort_us: 0,
            cache_hit: false,
            cache_lock_us: 0,
            clauses: Vec::new(),
            sort: None,
        }
    }

    /// Charges a wait for the cache.
    pub fn charge_cache_lock(&mut self, waited_us: u64)
        ensures
            *final(self) == (QueryTraceCollector {
                cache_lock_us: if old(self).cache_lock_us + waited_us > u64::MAX {
                    u64::MAX
                } else {
                    (old(self).cache_lock_us + waited_us) as u64
                },
                ..*old(self)
            }),
    {
        self.cache_lock_us = self.cache_lock_us.saturating_add(waited_us);
    }

    /// Adds what a clause did.
    pub fn record_clause(&mut self, trace: ClauseTrace)
        ensures
            final(self).clauses@ == old(self).clauses@.push(trace),
            *final(self) == (QueryTraceCollector { clauses: final(self).clauses, ..*old(self) }),
    {
        self.clauses.push(trace);
    }

    /// Sets what sorting did.
    pub fn record_sort(&mut self, trace: SortTrace)
        ensures
            *final(self) == (QueryTraceCollector { sort: Some(trace), ..*old(self) }),
    {
        self.sort = Some(trace);
    }

    /// Ends the query at `ts`, `total_us` after its start.
    pub fn finalize_at(self, index: &str, result_count: u64, total_us: u64, ts: String) -> (r: QueryTrace)
        ensures
            r@ == self.trace(index@, result_count, total_us, ts@),
    {
        QueryTrace {
            ts,
            index: index.to_owned(),
            total_us,
            plan_us: self.plan_us,
            filter_us: self.filter_us,
            sort_us: self.sort_us,
            result_count,
            cache_hit: self.cache_hit,
            lazy_load_us: self.lazy_load_us,
            docs_us: 0,
            docs_count: 0,
            cache_lock_us: self.cache_lock_us,
            clauses: self.clauses,
            sort: self.sort,
        }
    }

    /// Ends the query now.
    pub fn finalize(self, index: &str, result_count: u64) -> (r: QueryTrace)
        ensures
            r@ == self.trace(index@, result_count, r.total_us, r.ts@),
            exists|secs: int, millis: int|
                0 <= secs <= u64::MAX && 0 <= millis < 1000 && #[trigger] is_iso(r.ts@, secs, millis),
    {
        let total_us = elapsed_us(&self.start);
        let ts = iso_now();
        self.finalize_at(index, result_count, total_us, ts)
    }
}

/// The last `n` of a list, or all of it where it is shorter.
pub open spec fn last_of<A>(s: Seq<A>, n: int) -> Seq<A> {
    if s.len() <= n {
        s
    } else {
        s.skip(s.len() - n)
    }
}

/// The traces as mathematical values.
pub open spec fn trace_views(traces: Seq<QueryTrace>) -> Seq<TraceView> {
    Seq::new(traces.len(), |i: int| traces[i]@)
}

/// A ring buffer: the newest traces, oldest first.
pub struct TraceBuffer {
    buf: VecDeque<QueryTrace>,
    capacity: usize,
}

impl TraceBuffer {
    /// The traces, oldest first.
    pub closed spec fn traces(self) -> Seq<QueryTrace> {
        self.buf@
    }

    /// How many traces the buffer holds at most.
    pub closed spec fn limit(self) -> usize {
        self.capacity
    }

    /// Whether the buffer keeps to its limit.
    pub open spec fn wf(self) -> bool {
        self.traces().len() <= self.limit()
    }

    /// An empty buffer for `capacity` traces.
    pub fn new(capacity: usize) -> (r: Self)
        ensures
            r.wf(),
            r.traces() == Seq::<QueryTrace>::empty(),
            r.limit() == capacity,
    {
        TraceBuffer { buf: VecDeque::new(), capacity }
    }

    /// Adds a trace, and drops the oldest where the buffer is full.
    pub fn push(&mut self, trace: QueryTrace)
        requires
            old(self).wf(),
            old(self).limit() > 0,
        ensures
            final(self).wf(),
            final(self).limit() == old(self).limit(),
            final(self).traces() == last_of(old(self).traces().push(trace), old(self).limit() as int),
    {
        let ghost before = self.buf@;
        if self.buf.len() >= self.capacity {
            let _ = self.buf.pop_front();
        }
        self.buf.push_back(trace);
        assert(self.buf@ =~= last_of(before.push(trace), self.capacity as int));
    }

    /// The last `n` traces, oldest first.
    pub fn last_n(&self, n: usize) -> (r: Vec<QueryTrace>)
        ensures
            trace_views(r@) == last_of(trace_views(self.traces()), n as int),
    {
        let len: usize = self.buf.len();
        let skip: usize = if len > n { len - n } else { 0 };
        let mut r: Vec<QueryTrace> = Vec::new();
        let mut i: usize = skip;
        while i < len
            invariant
                len == self.buf@.len(),
                skip <= i <= len,
                r@.len() == i - skip,
                forall|j: int| 0 <= j < r@.len() ==> #[trigger] r@[j]@ == self.buf@[j + skip]@,
            decreases len - i,
        {
            r.push(self.buf[i].clone());
            i = i + 1;
        }
        assert(trace_views(r@) =~= last_of(trace_views(self.buf@), n as int));
        r
    }

    /// Changes the limit. Where there are more traces than it allows, the oldest are dropped.
    pub fn resize(&mut self, new_capacity: usize)
        ensures
            final(self).wf(),
            final(self).limit() == new_capacity,
            final(self).traces() == last_of(old(self).traces(), new_capacity as int),
    {
        let ghost all = self.buf@;
        while self.buf.len() > new_capacity
            invariant
                self.buf@.len() <= all.len(),
                self.buf@ == all.skip(all.len() - self.buf@.len()),
                self.buf@.len() < all.len() ==> self.buf@.len() >= new_capacity,
            decreases self.buf@.len(),
        {
            let _ = self.buf.pop_front();
            assert(self.buf@ =~= all.skip(all.len() - self.buf@.len()));
        }
        self.capacity = new_capacity;
    }

    /// The limit.
    pub fn capacity(&self) -> (r: usize)
        ensures
            r == self.limit(),
    {
        self.capacity
    }
}

impl Default for TraceBuffer {
    fn default() -> (r: Self)
        ensures
            r.wf(),
            r.traces() == Seq::<QueryTrace>::empty(),
            r.limit() == DEFAULT_CAPACITY,
    {
        Self::new(DEFAULT_CAPACITY)
    }
}

/// The traces kept on disk: there are none, traces are kept in a `TraceBuffer` only.
pub fn read_traces(_data_dir: &str, _last: usize) -> (r: Vec<QueryTrace>)
    ensures
        r@.len() == 0,
{
    Vec::new()
}

impl ClauseView {
    /// The field that a clause speaks of, or the name of the connective.
    pub open spec fn field_label(self) -> Seq<char>
        decreases self,
    {
        match self {
            ClauseView::Eq(f, _) => f,
            ClauseView::NotEq(f, _) => f,
            ClauseView::In(f, _) => f,
            ClauseView::NotIn(f, _) => f,
            ClauseView::Gt(f, _) => f,
            ClauseView::Lt(f, _) => f,
            ClauseView::Gte(f, _) => f,
            ClauseView::Lte(f, _) => f,
            ClauseView::Not(inner) => inner.field_label(),
            ClauseView::And(_) => "AND"@,
            ClauseView::Or(_) => "OR"@,
            ClauseView::IsNull(f) => f,
            ClauseView::IsNotNull(f) => f,
            ClauseView::BucketBitmap { field, bucket_name, slots } => field,
        }
    }

    /// The operator of a clause.
    pub open spec fn operator(self) -> Seq<char> {
        match self {
            ClauseView::Eq(..) => "Eq"@,
            ClauseView::NotEq(..) => "NotEq"@,
            ClauseView::In(..) => "In"@,
            ClauseView::NotIn(..) => "NotIn"@,
            ClauseView::Gt(..) => "Gt"@,
            ClauseView::Lt(..) => "Lt"@,
            ClauseView::Gte(..) => "Gte"@,
            ClauseView::Lte(..) => "Lte"@,
            ClauseView::Not(..) => "Not"@,
            ClauseView::And(..) => "And"@,
            ClauseView::Or(..) => "Or"@,
            ClauseView::BucketBitmap { .. } => "BucketBitmap"@,
            ClauseView::IsNull(..) => "IsNull"@,
            ClauseView::IsNotNull(..) => "IsNotNull"@,
        }
    }

    /// The values of a clause, in short.
    pub open spec fn values_text(self) -> Seq<char>
        decreases self,
    {
        match self {
            ClauseView::Eq(_, v) => v.text(),
            ClauseView::NotEq(_, v) => v.text(),
            ClauseView::Gt(_, v) => v.text(),
            ClauseView::Lt(_, v) => v.text(),
            ClauseView::Gte(_, v) => v.text(),
            ClauseView::Lte(_, v) => v.text(),
            ClauseView::In(_, vs) => short_list(vs),
            ClauseView::NotIn(_, vs) => short_list(vs),
            ClauseView::Not(inner) => "NOT("@ + inner.values_text() + ")"@,
            ClauseView::And(cs) => dec(cs.len()) + " clauses"@,
            ClauseView::Or(cs) => dec(cs.len()) + " clauses"@,
            ClauseView::BucketBitmap { field, bucket_name, slots } => bucket_name,
            ClauseView::IsNull(_) => ""@,
            ClauseView::IsNotNull(_) => ""@,
        }
    }
}

/// Up to five values in brackets; of more, the first three and how many follow.
pub open spec fn short_list(vs: Seq<ValueView>) -> Seq<char> {
    if vs.len() <= 5 {
        "["@ + join(value_texts(vs), ","@) + "]"@
    } else {
        "["@ + join(value_texts(vs.take(3)), ","@) + ",...+"@ + dec((vs.len() - 3) as nat) + "]"@
    }
}

fn write_short_list(vs: &Vec<Value>) -> (r: String)
    ensures
        r@ == short_list(crate::query::value_views(vs@)),
{
    if vs.len() <= 5 {
        let texts = texts_of_values(vs);
        let list = join_texts(&texts, ",");
        "[".to_owned().concat(list.as_str()).concat("]")
    } else {
        let mut texts: Vec<String> = Vec::new();
        texts.push(vs[0].to_text());
        texts.push(vs[1].to_text());
        texts.push(vs[2].to_text());
        assert(views(texts@) =~= value_texts(crate::query::value_views(vs@).take(3)));
        let list = join_texts(&texts, ",");
        let more = decimal((vs.len() - 3) as u64);
        "[".to_owned().concat(list.as_str()).concat(",...+").concat(more.as_str()).concat("]")
    }
}

impl FilterClause {
    /// The field that the clause speaks of; `AND` or `OR` for those.
    pub fn field_name(&self) -> (r: Option<&str>)
        ensures
            r matches Some(name) && name@ == self@.field_label(),
        decreases self,
    {
        match self {
            FilterClause::Eq(f, _) => Some(f.as_str()),
            FilterClause::NotEq(f, _) => Some(f.as_str()),
            FilterClause::In(f, _) => Some(f.as_str()),
            FilterClause::NotIn(f, _) => Some(f.as_str()),
            FilterClause::Gt(f, _) => Some(f.as_str()),
            FilterClause::Lt(f, _) => Some(f.as_str()),
            FilterClause::Gte(f, _) => Some(f.as_str()),
            FilterClause::Lte(f, _) => Some(f.as_str()),
            FilterClause::BucketBitmap { field, .. } => Some(field.as_str()),
            FilterClause::Not(inner) => inner.field_name(),
            FilterClause::And(_) => Some("AND"),
            FilterClause::Or(_) => Some("OR"),
            FilterClause::IsNull(f) => Some(f.as_str()),
            FilterClause::IsNotNull(f) => Some(f.as_str()),
        }
    }

    /// A short word for the operator.
    pub fn op_name(&self) -> (r: &'static str)
        ensures
            r@ == self@.operator(),
    {
        match self {
            FilterClause::Eq(..) => "Eq",
            FilterClause::NotEq(..) => "NotEq",
            FilterClause::In(..) => "In",
            FilterClause::NotIn(..) => "NotIn",
            FilterClause::Gt(..) => "Gt",
            FilterClause::Lt(..) => "Lt",
            FilterClause::Gte(..) => "Gte",
            FilterClause::Lte(..) => "Lte",
            FilterClause::Not(..) => "Not",
            FilterClause::And(..) => "And",
            FilterClause::Or(..) => "Or",
            FilterClause::BucketBitmap { .. } => "BucketBitmap",
            FilterClause::IsNull(..) => "IsNull",
            FilterClause::IsNotNull(..) => "IsNotNull",
        }
    }

    /// The values of the clause, in short.
    pub fn values_repr(&self) -> (r: String)
        ensures
            r@ == self@.values_text(),
        decreases self,
    {
        match self {
            FilterClause::Eq(_, v) => v.to_text(),
            FilterClause::NotEq(_, v) => v.to_text(),
            FilterClause::Gt(_, v) => v.to_text(),
            FilterClause::Lt(_, v) => v.to_text(),
            FilterClause::Gte(_, v) => v.to_text(),
            FilterClause::Lte(_, v) => v.to_text(),
            FilterClause::In(_, vs) => write_short_list(vs),
            FilterClause::NotIn(_, vs) => write_short_list(vs),
            FilterClause::Not(inner) => {
                let t = inner.values_repr();
                assert(self@ == ClauseView::Not(Box::new(inner@)));
                "NOT(".to_owned().concat(t.as_str()).concat(")")
            },
            FilterClause::And(cs) => {
                assert(self@ == ClauseView::And(models(cs@)));
                assert(models(cs@).len() == cs@.len());
                decimal(cs.len() as u64).concat(" clauses")
            },
            FilterClause::Or(cs) => {
                assert(self@ == ClauseView::Or(models(cs@)));
                assert(models(cs@).len() == cs@.len());
                decimal(cs.len() as u64).concat(" clauses")
            },
            FilterClause::BucketBitmap { bucket_name, .. } => bucket_name.clone(),
            FilterClause::IsNull(_) => "".to_owned(),
            FilterClause::IsNotNull(_) => "".to_owned(),
        }
    }
}

/// A buffer holds the newest of all traces that it was given: dropping what does not fit at each of
/// them leaves what dropping at the end would leave.
pub proof fn law_the_buffer_holds_the_newest<A>(given: Seq<A>, next: A, limit: int)
    requires
        limit > 0,
    ensures
        last_of(last_of(given, limit).push(next), limit) == last_of(given.push(next), limit),
{
    assert(last_of(last_of(given, limit).push(next), limit) =~= last_of(given.push(next), limit));
}

/// A smaller limit drops the oldest traces first, and a larger one brings none back.
pub proof fn law_resizing_drops_the_oldest<A>(given: Seq<A>, limit: int, other: int)
    requires
        limit >= 0,
        other >= 0,
    ensures
        last_of(last_of(given, limit), other) == last_of(given, if other < limit { other } else { limit }),
{
    assert(last_of(last_of(given, limit), other) =~= last_of(given, if other < limit { other } else { limit }));
}

/// A clause is traced under its own field, whatever it asks of it; a negation under that of what it negates,
/// and a composition under its word.
pub proof fn law_clauses_are_traced_under_their_field(
    f: Seq<char>,
    v: ValueView,
    vs: Seq<ValueView>,
    c: ClauseView,
    cs: Seq<ClauseView>,
    name: Seq<char>,
    slots: Set<u32>,
)
    ensures
        ClauseView::Eq(f, v).field_label() == f,
        ClauseView::NotEq(f, v).field_label() == f,
        ClauseView::Gt(f, v).field_label() == f,
        ClauseView::Gte(f, v).field_label() == f,
        ClauseView::Lt(f, v).field_label() == f,
        ClauseView::Lte(f, v).field_label() == f,
        ClauseView::In(f, vs).field_label() == f,
        ClauseView::NotIn(f, vs).field_label() == f,
        ClauseView::IsNull(f).field_label() == f,
        ClauseView::IsNotNull(f).field_label() == f,
        (ClauseView::BucketBitmap { field: f, bucket_name: name, slots }).field_label() == f,
        ClauseView::Not(Box::new(c)).field_label() == c.field_label(),
        ClauseView::And(cs).field_label() == "AND"@,
        ClauseView::Or(cs).field_label() == "OR"@,
{
    assert(ClauseView::Not(Box::new(c)).field_label() == c.field_label());
}

/// A clause is traced by the name of its own kind.
pub proof fn law_clauses_are_traced_by_their_kind(
    f: Seq<char>,
    v: ValueView,
    vs: Seq<ValueView>,
    c: ClauseView,
    cs: Seq<ClauseView>,
    name: Seq<char>,
    slots: Set<u32>,
)
    ensures
        ClauseView::Eq(f, v).operator() == "Eq"@,
        ClauseView::NotEq(f, v).operator() == "NotEq"@,
        ClauseView::Gt(f, v).operator() == "Gt"@,
        ClauseView::Gte(f, v).operator() == "Gte"@,
        ClauseView::Lt(f, v).operator() == "Lt"@,
        ClauseView::Lte(f, v).operator() == "Lte"@,
        ClauseView::In(f, vs).operator() == "In"@,
        ClauseView::NotIn(f, vs).operator() == "NotIn"@,
        ClauseView::IsNull(f).operator() == "IsNull"@,
        ClauseView::IsNotNull(f).operator() == "IsNotNull"@,
        (ClauseView::BucketBitmap { field: f, bucket_name: name, slots }).operator() == "BucketBitmap"@,
        ClauseView::Not(Box::new(c)).operator() == "Not"@,
        ClauseView::And(cs).operator() == "And"@,
        ClauseView::Or(cs).operator() == "Or"@,
{
}

/// A clause is traced with what it compares with: one value as it is written, a composition by how many
/// clauses it has, a negation round what it negates, a bitmap by its bucket.
pub proof fn law_clauses_are_traced_with_their_values(
    f: Seq<char>,
    v: ValueView,
    c: ClauseView,
    cs: Seq<ClauseView>,
    name: Seq<char>,
    slots: Set<u32>,
)
    ensures
        ClauseView::Eq(f, v).values_text() == v.text(),
        ClauseView::NotEq(f, v).values_text() == v.text(),
        ClauseView::Gt(f, v).values_text() == v.text(),
        ClauseView::Gte(f, v).values_text() == v.text(),
        ClauseView::Lt(f, v).values_text() == v.text(),
        ClauseView::Lte(f, v).values_text() == v.text(),
        ClauseView::IsNull(f).values_text().len() == 0,
        ClauseView::IsNotNull(f).values_text().len() == 0,
        (ClauseView::BucketBitmap { field: f, bucket_name: name, slots }).values_text() == name,
        ClauseView::Not(Box::new(c)).values_text() == "NOT("@ + c.values_text() + ")"@,
        ClauseView::And(cs).values_text() == dec(cs.len()) + " clauses"@,
        ClauseView::Or(cs).values_text() == dec(cs.len()) + " clauses"@,
{
    reveal_strlit("");
    assert(ClauseView::Not(Box::new(c)).values_text() == "NOT("@ + c.values_text() + ")"@);
}

/// A list of up to five values is traced whole, and one more value is written behind the others; of a longer
/// list the first three are traced, and how many there are besides.
pub proof fn law_long_lists_are_traced_in_short(f: Seq<char>, vs: Seq<ValueView>, v: ValueView)
    ensures
        ClauseView::In(f, vs).values_text() == ClauseView::NotIn(f, vs).values_text(),
        ClauseView::In(f, seq![v]).values_text() == "["@ + v.text() + "]"@,
        2 <= vs.len() <= 5 ==> ClauseView::In(f, vs).values_text() == "["@ + (join(value_texts(vs.drop_last()), ","@)
            + ","@ + vs.last().text()) + "]"@,
        vs.len() > 5 ==> ClauseView::In(f, vs).values_text() == "["@ + (vs[0].text() + ","@ + vs[1].text() + ","@
            + vs[2].text()) + ",...+"@ + dec((vs.len() - 3) as nat) + "]"@,
{
    let one = value_texts(seq![v]);
    assert(join(one, ","@) == v.text());
    if 2 <= vs.len() <= 5 {
        assert(value_texts(vs).drop_last() =~= value_texts(vs.drop_last()));
    }
    if vs.len() > 5 {
        let three = value_texts(vs.take(3));
        let two = value_texts(vs.take(2));
        let first = value_texts(vs.take(1));
        assert(three.drop_last() =~= two);
        assert(two.drop_last() =~= first);
        assert(join(first, ","@) == vs[0].text());
        assert(join(two, ","@) == vs[0].text() + ","@ + vs[1].text());
    }
}

/// Each number that a collector gathered stands in its trace under its own name; nothing is told of
/// documents, which come later.
pub proof fn law_gathered_numbers_are_traced_as_themselves(
    c: QueryTraceCollector,
    index: Seq<char>,
    count: u64,
    total: u64,
    ts: Seq<char>,
)
    ensures
        ({
            let t = c.trace(index, count, total, ts);
            &&& t.ts == ts
            &&& t.index == index
            &&& t.total_us == total
            &&& t.result_count == count
            &&& t.plan_us == c.plan_us
            &&& t.filter_us == c.filter_us
            &&& t.sort_us == c.sort_us
            &&& t.lazy_load_us == c.lazy_load_us
            &&& t.cache_lock_us == c.cache_lock_us
            &&& t.cache_hit == c.cache_hit
            &&& t.docs_us == 0
            &&& t.docs_count == 0
            &&& t.clauses.len() == c.clauses@.len()
            &&& forall|i: int| 0 <= i < t.clauses.len() ==> #[trigger] t.clauses[i] == c.clauses@[i]@
            &&& c.sort is None ==> t.sort is None
            &&& c.sort matches Some(s) ==> t.sort == Some(s@)
        }),
{
}

/// A trace of a clause or of sorting tells each number under its own name.
pub proof fn law_steps_are_traced_as_themselves(c: ClauseTrace, s: SortTrace)
    ensures
        c@.ord == c.ord,
        c@.field == c.field@,
        c@.op == c.op@,
        c@.values == c.values@,
        c@.card == c.card,
        c@.acc_before == c.acc_before,
        c@.acc_after == c.acc_after,
        c@.eval_us == c.eval_us,
        c@.and_us == c.and_us,
        c@.mode == c.mode@,
        c@.range_scan == c.range_scan,
        s@.field == s.field@,
        s@.dir == s.dir@,
        s@.input == s.input,
        s@.output == s.output,
        s@.time_us == s.time_us,
{
}

/// The last of a list are its end: as many as were asked for, or all of them, and one more given takes the
/// last place.
pub proof fn law_the_last_are_the_end_of_a_list<A>(s: Seq<A>, next: A, n: int)
    requires
        n > 0,
    ensures
        last_of(s, n).len() == if s.len() < n { s.len() as int } else { n },
        last_of(s.push(next), n).last() == next,
        forall|i: int| 0 <= i < last_of(s, n).len() ==> #[trigger] last_of(s, n)[i] == s[s.len() - last_of(s, n).len() + i],
{
}

} // verus!
