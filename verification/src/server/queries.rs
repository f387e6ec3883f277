//! Queries: how many run at once, what is asked of the engine, and what is answered.

use crate::bitmap::bits;
use crate::json::{Json, JsonView};
use crate::pairs::{pairs_map, set_pair};
use crate::prefilter::{
    best_match, canonical_set, no_match, substitute, substituted_clauses, used_once_more, PrefilterRegistry,
};
use crate::query::{models, BitdexQuery, ClauseView, FilterClause};
use crate::query_metrics::{last_of, QueryTrace, TraceBuffer, TraceView};
use crate::relay::capture::{json_quoted, json_string};
use crate::relay::template::{compact_json, reencode};
use crate::server::documents::{format_document, formatted, IncludeDocs, Shape};
use crate::server::schema::StoredDoc;
use crate::text::{dec, decimal};
use roaring::RoaringBitmap;
use vstd::prelude::*;
use vstd::string::*;

verus! {

/// The greatest value so far.
#[derive(Debug, Clone, Copy, PartialEq, Eq, Structural)]
pub struct Peak {
    pub value: i64,
}

impl Peak {
    /// A peak that starts at `value`.
    pub fn new(value: i64) -> (r: Self)
        ensures
            r.value == value,
    {
        Peak { value }
    }

    /// Raises the peak to `value`, where that is greater.
    pub fn raise(&mut self, value: i64)
        ensures
            final(self).value == (if value > old(self).value { value } else { old(self).value }),
    {
        if value > self.value {
            self.value = value;
        }
    }
}

/// The queries that run.
#[derive(Debug, Clone, Copy)]
pub struct QueryGate {
    pub in_flight: i64,
    pub peak: Peak,
    /// How many may run at once; any number where this is zero.
    pub max_concurrency: u32,
}

/// Why a query is turned away: how many run, and how many may.
#[derive(Debug, Clone, Copy, PartialEq, Eq, Structural)]
pub struct Overload {
    pub queries_in_flight: i64,
    pub max_concurrency: u32,
}

impl QueryGate {
    /// No query runs.
    pub fn new(max_concurrency: u32) -> (r: Self)
        ensures
            r.in_flight == 0,
            r.peak.value == 0,
            r.max_concurrency == max_concurrency,
    {
        QueryGate { in_flight: 0, peak: Peak::new(0), max_concurrency }
    }

    /// The queries that run once another has come.
    pub open spec fn entered(self) -> QueryGate {
        let in_flight = (self.in_flight + 1) as i64;
        QueryGate {
            in_flight,
            peak: if in_flight > self.peak.value {
                Peak { value: in_flight }
            } else {
                self.peak
            },
            ..self
        }
    }

    /// The queries that run once one has ended.
    pub open spec fn left(self) -> QueryGate {
        QueryGate { in_flight: (self.in_flight - 1) as i64, ..self }
    }

    /// Counts a query that comes, and turns it away where too many run. A query that is turned away
    /// leaves like any other.
    pub fn enter(&mut self) -> (r: Result<i64, Overload>)
        requires
            old(self).in_flight < i64::MAX,
        ensures
            *final(self) == old(self).entered(),
            match r {
                Ok(n) => n == final(self).in_flight && (old(self).max_concurrency == 0 || n
                    <= old(self).max_concurrency),
                Err(e) => old(self).max_concurrency > 0 && final(self).in_flight > old(self).max_concurrency && e
                    == (Overload {
                    queries_in_flight: final(self).in_flight,
                    max_concurrency: old(self).max_concurrency,
                }),
            },
    {
        self.in_flight = self.in_flight + 1;
        self.peak.raise(self.in_flight);
        if self.max_concurrency > 0 && self.in_flight > self.max_concurrency as i64 {
            Err(Overload { queries_in_flight: self.in_flight, max_concurrency: self.max_concurrency })
        } else {
            Ok(self.in_flight)
        }
    }

    /// Counts a query that has ended.
    pub fn leave(&mut self)
        requires
            old(self).in_flight > i64::MIN,
        ensures
            *final(self) == old(self).left(),
    {
        self.in_flight = self.in_flight - 1;
    }
}

/// A query that comes and goes leaves the count as it was.
pub proof fn law_queries_are_counted_out(gate: QueryGate)
    requires
        gate.in_flight < i64::MAX,
    ensures
        gate.entered().left().in_flight == gate.in_flight,
{
}

/// The peak never falls, and is never less than what runs.
pub proof fn law_the_peak_never_falls(gate: QueryGate)
    requires
        gate.in_flight < i64::MAX,
        gate.peak.value >= gate.in_flight,
    ensures
        gate.entered().peak.value >= gate.peak.value,
        gate.entered().peak.value >= gate.entered().in_flight,
        gate.left().peak.value == gate.peak.value,
{
}

/// The format that a query is read in: the one that is asked for, or else the usual one.
pub fn effective_format<'a>(asked: Option<&'a str>, usual: &'a str) -> (r: &'a str)
    ensures
        r@ == (match asked {
            Some(f) => f@,
            None => usual@,
        }),
{
    match asked {
        Some(f) => f,
        None => usual,
    }
}

/// A query that is ready for the engine.
#[derive(Debug)]
pub struct PreparedQuery {
    pub query: BitdexQuery,
    /// The filters as they were asked for: what is remembered of a query for the next start.
    pub asked_filters: Vec<FilterClause>,
}

/// What prefilters make of filters, and of themselves.
pub open spec fn substitution(
    before: PrefilterRegistry,
    after: PrefilterRegistry,
    asked: Seq<ClauseView>,
    alive: Set<u32>,
    filters: Seq<ClauseView>,
) -> bool {
    ||| {
        &&& no_match(before.map(), canonical_set(asked))
        &&& after.map() == before.map()
        &&& filters == asked
    }
    ||| exists|name: Seq<char>|
        {
            &&& #[trigger] best_match(before.map(), canonical_set(asked), name)
            &&& after.map() == before.map().insert(name, used_once_more(before.map()[name]))
            &&& filters == substituted_clauses(before.map()[name], canonical_set(asked), alive)
        }
}

/// Makes a query ready: where it is asked for, the cache is left alone; and the best prefilter takes
/// the place of the filters that it stands for.
pub fn prepare_query(
    query: BitdexQuery,
    skip_cache: Option<bool>,
    registry: &mut PrefilterRegistry,
    alive: &RoaringBitmap,
) -> (r: PreparedQuery)
    requires
        old(registry).wf(),
    ensures
        final(registry).wf(),
        final(registry).limit() == old(registry).limit(),
        models(r.asked_filters@) == models(query.filters@),
        substitution(
            *old(registry),
            *final(registry),
            models(query.filters@),
            bits(*alive),
            models(r.query.filters@),
        ),
        r.query.skip_cache == (query.skip_cache || skip_cache == Some(true)),
        r.query.sort == query.sort,
        r.query.limit == query.limit,
        r.query.cursor == query.cursor,
        r.query.offset == query.offset,
{
    let (filters, entry) = substitute(registry, &query.filters, alive);
    proof {
        match entry {
            Some(e) => {
                assert(best_match(old(registry).map(), canonical_set(models(query.filters@)), e@.name));
            },
            None => {},
        }
    }
    let skip = query.skip_cache || match skip_cache {
        Some(v) => v,
        None => false,
    };
    PreparedQuery {
        query: BitdexQuery {
            filters,
            sort: query.sort,
            limit: query.limit,
            cursor: query.cursor,
            offset: query.offset,
            skip_cache: skip,
        },
        asked_filters: query.filters,
    }
}

/// Whether a trace is kept: traces are on, and the query took so long, or any time will do.
pub fn keeps_trace(enabled: bool, min_us: u64, total_us: u64) -> (r: bool)
    ensures
        r == (enabled && (min_us == 0 || total_us >= min_us)),
{
    enabled && (min_us == 0 || total_us >= min_us)
}

/// Adds to a trace what reading documents cost.
pub fn with_docs(trace: QueryTrace, docs_us: u64, docs_count: u64) -> (r: QueryTrace)
    ensures
        r@ == (TraceView { docs_us, docs_count, ..trace@ }),
{
    QueryTrace { docs_us, docs_count, ..trace }
}

/// Puts a trace into the buffer, where it is kept.
pub fn record_trace(buffer: &mut TraceBuffer, trace: &QueryTrace, enabled: bool, min_us: u64)
    requires
        old(buffer).wf(),
        old(buffer).limit() > 0,
    ensures
        final(buffer).wf(),
        final(buffer).limit() == old(buffer).limit(),
        if enabled && (min_us == 0 || trace.total_us >= min_us) {
            exists|kept: QueryTrace|
                kept@ == trace@ && final(buffer).traces() == last_of(
                    #[trigger] old(buffer).traces().push(kept),
                    old(buffer).limit() as int,
                )
        } else {
            final(buffer).traces() == old(buffer).traces()
        },
{
    if keeps_trace(enabled, min_us, trace.total_us) {
        let kept = trace.clone();
        buffer.push(kept);
    }
}

/// What is answered for a document that is not there: its number alone.
pub open spec fn bare_document(id: i64) -> Map<Seq<char>, JsonView> {
    Map::empty().insert("id"@, JsonView::Integer(id as int))
}

/// What is answered for a document.
pub open spec fn document_answer(id: i64, doc: Option<StoredDoc>, shape: Shape, selection: IncludeDocs) -> Map<
    Seq<char>,
    JsonView,
> {
    match doc {
        Some(d) => formatted(d, shape, selection, shape.schema.fields@.len() as int),
        None => bare_document(id),
    }
}

/// Makes the answer for a document that is not there.
pub fn make_bare(id: i64) -> (r: Vec<(String, Json)>)
    ensures
        pairs_map(r@) == bare_document(id),
{
    let mut fields: Vec<(String, Json)> = Vec::new();
    assert(pairs_map(fields@) =~= Map::<Seq<char>, JsonView>::empty());
    set_pair(&mut fields, "id".to_owned(), Json::Integer(id));
    fields
}

/// Makes the answers for documents, in the order of their numbers. Where the documents could not be
/// read, each is answered by its number alone; where fewer were read, only as many are answered.
pub fn document_answers(
    ids: &Vec<i64>,
    fetched: &Option<Vec<Option<StoredDoc>>>,
    shape: &Shape,
    selection: &IncludeDocs,
) -> (r: Vec<Vec<(String, Json)>>)
    ensures
        match *fetched {
            Some(docs) => {
                &&& r@.len() == (if docs@.len() < ids@.len() {
                    docs@.len()
                } else {
                    ids@.len()
                })
                &&& forall|i: int|
                    0 <= i < r@.len() ==> pairs_map((#[trigger] r@[i])@) == document_answer(
                        ids@[i],
                        docs@[i],
                        *shape,
                        *selection,
                    )
            },
            None => {
                &&& r@.len() == ids@.len()
                &&& forall|i: int| 0 <= i < r@.len() ==> pairs_map((#[trigger] r@[i])@) == bare_document(ids@[i])
            },
        },
{
    let mut r: Vec<Vec<(String, Json)>> = Vec::new();
    let mut i: usize = 0;
    match fetched {
        Some(docs) => {
            while i < ids.len() && i < docs.len()
                invariant
                    i <= ids@.len(),
                    i <= docs@.len(),
                    r@.len() == i,
                    forall|j: int|
                        0 <= j < i ==> pairs_map((#[trigger] r@[j])@) == document_answer(
                            ids@[j],
                            docs@[j],
                            *shape,
                            *selection,
                        ),
                decreases ids@.len() - i,
            {
                let answer = match &docs[i] {
                    Some(doc) => format_document(doc, shape, selection),
                    None => make_bare(ids[i]),
                };
                r.push(answer);
                i = i + 1;
            }
        },
        None => {
            while i < ids.len()
                invariant
                    i <= ids@.len(),
                    r@.len() == i,
                    forall|j: int| 0 <= j < i ==> pairs_map((#[trigger] r@[j])@) == bare_document(ids@[j]),
                decreases ids@.len() - i,
            {
                r.push(make_bare(ids[i]));
                i = i + 1;
            }
        },
    }
    r
}

/// A query, as those who watch the queries are told of it.
#[derive(Debug, Clone)]
pub struct QueryEvent {
    /// Milliseconds since the start of 1970.
    pub ts_ms: u64,
    /// The index that was asked.
    pub index: String,
    /// The body of the request, as JSON text.
    pub body: String,
    /// Where the request came from, where that is known.
    pub client_meta: Option<String>,
}

impl QueryEvent {
    /// How the event is written as JSON.
    pub open spec fn text(self) -> Seq<char> {
        let head = "{\"ts_ms\":"@ + dec(self.ts_ms as nat) + ",\"index\":"@ + json_quoted(self.index@) + ",\"body\":"@
            + self.body@;
        match self.client_meta {
            Some(meta) => head + ",\"client_meta\":"@ + json_quoted(meta@) + "}"@,
            None => head + "}"@,
        }
    }

    /// Makes the event of a request: its body as compact JSON, or null where it is none.
    pub fn of_request(ts_ms: u64, index: &str, body: &[u8]) -> (r: Self)
        ensures
            r.ts_ms == ts_ms,
            r.index@ == index@,
            r.body@ == (match compact_json(body@) {
                Some(text) => text,
                None => "null"@,
            }),
            r.client_meta is None,
    {
        let text = match reencode(body) {
            Some(t) => t,
            None => "null".to_owned(),
        };
        QueryEvent { ts_ms, index: index.to_owned(), body: text, client_meta: None }
    }

    /// Writes the event as JSON. Where it is not known where the request came from, nothing is said
    /// of it.
    pub fn to_json(&self) -> (r: String)
        ensures
            r@ == self.text(),
    {
        let ts = decimal(self.ts_ms);
        let index = json_string(self.index.as_str());
        let head = "{\"ts_ms\":".to_owned().concat(ts.as_str()).concat(",\"index\":").concat(index.as_str()).concat(
            ",\"body\":",
        ).concat(self.body.as_str());
        match &self.client_meta {
            Some(meta) => {
                let quoted = json_string(meta.as_str());
                head.concat(",\"client_meta\":").concat(quoted.as_str()).concat("}")
            },
            None => head.concat("}"),
        }
    }
}

/// Whether someone who watches the queries of an index, or of all, is told of an event.
pub fn is_watched(event: &QueryEvent, index: Option<&str>) -> (r: bool)
    ensures
        r == (index matches Some(name) ==> event.index@ == name@),
{
    match index {
        Some(name) => crate::text::text_eq(event.index.as_str(), name),
        None => true,
    }
}

/// A query that comes is counted at once, and the peak is raised to the count where that is greater;
/// one that goes lowers the count by one and leaves the peak. The limit stays.
pub proof fn law_queries_are_counted_one_by_one(gate: QueryGate)
    requires
        i64::MIN < gate.in_flight < i64::MAX,
    ensures
        gate.entered().in_flight == gate.in_flight + 1,
        gate.left().in_flight == gate.in_flight - 1,
        gate.peak.value <= gate.in_flight ==> gate.entered().peak.value == gate.in_flight + 1,
        gate.peak.value > gate.in_flight ==> gate.entered().peak.value == gate.peak.value,
        gate.left().peak == gate.peak,
        gate.entered().max_concurrency == gate.max_concurrency,
        gate.left().max_concurrency == gate.max_concurrency,
{
}

/// A document that is not there is answered with its number alone, one that is there with what it
/// holds.
pub proof fn law_missing_documents_are_answered_by_number(
    id: i64,
    doc: StoredDoc,
    shape: Shape,
    selection: IncludeDocs,
    name: Seq<char>,
)
    ensures
        ({
            let bare = document_answer(id, None, shape, selection);
            &&& bare.dom().contains(name) <==> name == "id"@
            &&& bare["id"@] == JsonView::Integer(id as int)
        }),
        document_answer(id, Some(doc), shape, selection) == formatted(
            doc,
            shape,
            selection,
            shape.schema.fields@.len() as int,
        ),
{
}

/// An event is a JSON object of its moment, the index and the body, and of where it came from only
/// where that is known.
pub proof fn law_events_tell_the_query(event: QueryEvent)
    ensures
        ({
            let head = "{\"ts_ms\":"@ + dec(event.ts_ms as nat) + ",\"index\":"@ + json_quoted(event.index@)
                + ",\"body\":"@ + event.body@;
            &&& event.client_meta is None ==> event.text() == head + "}"@
            &&& event.client_meta matches Some(meta) ==> event.text() == head + ",\"client_meta\":"@ + json_quoted(meta@)
                + "}"@
        }),
{
}

/// Filters that no prefilter stands for go to the engine as they were asked, and no prefilter is
/// counted as used; otherwise one that matches best takes the place of its clauses and is counted.
pub proof fn law_prefilters_are_used_or_left(
    before: PrefilterRegistry,
    after: PrefilterRegistry,
    asked: Seq<ClauseView>,
    alive: Set<u32>,
    filters: Seq<ClauseView>,
)
    requires
        substitution(before, after, asked, alive, filters),
    ensures
        no_match(before.map(), canonical_set(asked)) && !(exists|name: Seq<char>| #[trigger]
            best_match(before.map(), canonical_set(asked), name)) ==> filters == asked && after.map() == before.map(),
        !no_match(before.map(), canonical_set(asked)) ==> exists|name: Seq<char>|
            {
                &&& #[trigger] best_match(before.map(), canonical_set(asked), name)
                &&& filters == substituted_clauses(before.map()[name], canonical_set(asked), alive)
                &&& after.map()[name] == used_once_more(before.map()[name])
                &&& forall|other: Seq<char>|
                    other != name && #[trigger] before.map().dom().contains(other) ==> after.map()[other]
                        == before.map()[other]
            },
{
    if !no_match(before.map(), canonical_set(asked)) {
        let name = choose|name: Seq<char>|
            {
                &&& #[trigger] best_match(before.map(), canonical_set(asked), name)
                &&& after.map() == before.map().insert(name, used_once_more(before.map()[name]))
                &&& filters == substituted_clauses(before.map()[name], canonical_set(asked), alive)
            };
        assert(best_match(before.map(), canonical_set(asked), name));
    }
}

} // verus!
