//! Batches of changes to documents, and what is reported of them.

use crate::config::{Config, FilterFieldConfig};
use crate::query::{clone_clauses, models, BitdexQuery, FilterClause, SortClause, SortDirection};
use crate::server::answer::{refuse, Refusal, RefusalView};
use crate::server::schema::{DataSchema, FieldMapping, FieldValueType};
use crate::text::{dec, decimal, text_eq, views};
use vstd::prelude::*;
use vstd::string::*;

verus! {

/// What became of one document of a batch.
#[derive(Debug)]
pub enum DocOutcome {
    Done,
    /// It could not be read: why.
    Unreadable(String),
    /// It is not there to be changed.
    NotAlive(u32),
    /// The engine refused it: why.
    Failed(u32, String),
}

/// How a failure is reported.
pub open spec fn failure_text(i: int, outcome: DocOutcome) -> Option<Seq<char>> {
    match outcome {
        DocOutcome::Done => None,
        DocOutcome::Unreadable(why) => Some("doc["@ + dec(i as nat) + "]: "@ + why@),
        DocOutcome::NotAlive(slot) => Some(
            "doc["@ + dec(i as nat) + "] id="@ + dec(slot as nat) + ": not alive (use upsert for new docs)"@,
        ),
        DocOutcome::Failed(slot, why) => Some("doc["@ + dec(i as nat) + "] id="@ + dec(slot as nat) + ": "@ + why@),
    }
}

/// How many of the first `n` documents are done.
pub open spec fn done_count(outcomes: Seq<DocOutcome>, n: int) -> nat
    decreases n,
{
    if n <= 0 {
        0
    } else {
        done_count(outcomes, n - 1) + (if outcomes[n - 1] is Done {
            1nat
        } else {
            0
        })
    }
}

/// The reports of failures among the first `n` documents.
pub open spec fn failures(outcomes: Seq<DocOutcome>, n: int) -> Seq<Seq<char>>
    decreases n,
{
    if n <= 0 {
        Seq::empty()
    } else {
        match failure_text(n - 1, outcomes[n - 1]) {
            Some(text) => failures(outcomes, n - 1).push(text),
            None => failures(outcomes, n - 1),
        }
    }
}

/// What is reported of a batch.
#[derive(Debug)]
pub struct BatchReport {
    pub done: u64,
    pub errors: Vec<String>,
}

/// Reports a batch.
pub fn report_batch(outcomes: &Vec<DocOutcome>) -> (r: BatchReport)
    ensures
        r.done == done_count(outcomes@, outcomes@.len() as int),
        views(r.errors@) == failures(outcomes@, outcomes@.len() as int),
{
    let mut done: u64 = 0;
    let mut errors: Vec<String> = Vec::new();
    let mut i: usize = 0;
    assert(views(errors@) =~= Seq::<Seq<char>>::empty());
    while i < outcomes.len()
        invariant
            i <= outcomes@.len(),
            done == done_count(outcomes@, i as int),
            done <= i,
            views(errors@) == failures(outcomes@, i as int),
        decreases outcomes@.len() - i,
    {
        let ghost before = views(errors@);
        let at = decimal(i as u64);
        match &outcomes[i] {
            DocOutcome::Done => {
                done = done + 1;
            },
            DocOutcome::Unreadable(why) => {
                errors.push("doc[".to_owned().concat(at.as_str()).concat("]: ").concat(why.as_str()));
                assert(views(errors@) =~= before.push(failure_text(i as int, outcomes@[i as int])->0));
            },
            DocOutcome::NotAlive(slot) => {
                let id = decimal(*slot as u64);
                errors.push(
                    "doc[".to_owned().concat(at.as_str()).concat("] id=").concat(id.as_str()).concat(
                        ": not alive (use upsert for new docs)",
                    ),
                );
                assert(views(errors@) =~= before.push(failure_text(i as int, outcomes@[i as int])->0));
            },
            DocOutcome::Failed(slot, why) => {
                let id = decimal(*slot as u64);
                errors.push(
                    "doc[".to_owned().concat(at.as_str()).concat("] id=").concat(id.as_str()).concat(": ").concat(
                        why.as_str(),
                    ),
                );
                assert(views(errors@) =~= before.push(failure_text(i as int, outcomes@[i as int])->0));
            },
        }
        i = i + 1;
    }
    BatchReport { done, errors }
}

/// Every document of a batch is either done or reported.
pub proof fn law_every_document_is_accounted_for(outcomes: Seq<DocOutcome>, n: int)
    requires
        0 <= n,
    ensures
        done_count(outcomes, n) + failures(outcomes, n).len() == n,
    decreases n,
{
    if n > 0 {
        law_every_document_is_accounted_for(outcomes, n - 1);
    }
}

/// How the first `n` deletions that failed are reported.
pub open spec fn deletion_failures(results: Seq<(u32, Option<String>)>, n: int) -> Seq<Seq<char>>
    decreases n,
{
    if n <= 0 {
        Seq::empty()
    } else {
        match results[n - 1].1 {
            Some(why) => deletion_failures(results, n - 1).push("id="@ + dec(results[n - 1].0 as nat) + ": "@ + why@),
            None => deletion_failures(results, n - 1),
        }
    }
}

/// How many of the first `n` deletions were made.
pub open spec fn deletion_count(results: Seq<(u32, Option<String>)>, n: int) -> nat
    decreases n,
{
    if n <= 0 {
        0
    } else {
        deletion_count(results, n - 1) + (if results[n - 1].1 is None {
            1nat
        } else {
            0
        })
    }
}

/// Reports deletions: each by its number, and why it failed, where it did.
pub fn report_deletions(results: &Vec<(u32, Option<String>)>) -> (r: BatchReport)
    ensures
        r.done == deletion_count(results@, results@.len() as int),
        views(r.errors@) == deletion_failures(results@, results@.len() as int),
{
    let mut done: u64 = 0;
    let mut errors: Vec<String> = Vec::new();
    let mut i: usize = 0;
    assert(views(errors@) =~= Seq::<Seq<char>>::empty());
    while i < results.len()
        invariant
            i <= results@.len(),
            done == deletion_count(results@, i as int),
            done <= i,
            views(errors@) == deletion_failures(results@, i as int),
        decreases results@.len() - i,
    {
        let ghost before = views(errors@);
        let entry = &results[i];
        match &entry.1 {
            Some(why) => {
                let id = decimal(entry.0 as u64);
                let text = "id=".to_owned().concat(id.as_str()).concat(": ").concat(why.as_str());
                errors.push(text);
                assert(views(errors@) =~= before.push(text@));
            },
            None => {
                done = done + 1;
            },
        }
        i = i + 1;
    }
    BatchReport { done, errors }
}

/// The status of the answer to values that were set: all went well, nothing did, or something.
pub fn sync_status(report: &BatchReport) -> (r: u16)
    ensures
        r == (if report.errors@.len() == 0 {
            200u16
        } else if report.done == 0 {
            500
        } else {
            207
        }),
{
    if report.errors.len() == 0 {
        200
    } else if report.done == 0 {
        500
    } else {
        207
    }
}

/// Whether a field holds several values and is kept in the filters alone.
pub open spec fn takes_values(config: Config, schema: DataSchema, field: Seq<char>) -> bool {
    &&& exists|i: int|
        0 <= i < config.filter_fields@.len() && (#[trigger] config.filter_fields@[i]).name@ == field
            && config.filter_fields@[i].multi_value
    &&& exists|i: int|
        0 <= i < schema.fields@.len() && (#[trigger] schema.fields@[i]).target@ == field && schema.fields@[i].filter_only
}

fn has_multi_value(fields: &Vec<FilterFieldConfig>, field: &str) -> (r: bool)
    ensures
        r == exists|i: int| 0 <= i < fields@.len() && (#[trigger] fields@[i]).name@ == field@ && fields@[i].multi_value,
{
    let mut i: usize = 0;
    while i < fields.len()
        invariant
            i <= fields@.len(),
            forall|j: int| 0 <= j < i ==> !((#[trigger] fields@[j]).name@ == field@ && fields@[j].multi_value),
        decreases fields@.len() - i,
    {
        if text_eq(fields[i].name.as_str(), field) && fields[i].multi_value {
            return true;
        }
        i = i + 1;
    }
    false
}

fn has_filter_only(fields: &Vec<FieldMapping>, field: &str) -> (r: bool)
    ensures
        r == exists|i: int| 0 <= i < fields@.len() && (#[trigger] fields@[i]).target@ == field@ && fields@[i].filter_only,
{
    let mut i: usize = 0;
    while i < fields.len()
        invariant
            i <= fields@.len(),
            forall|j: int| 0 <= j < i ==> !((#[trigger] fields@[j]).target@ == field@ && fields@[j].filter_only),
        decreases fields@.len() - i,
    {
        if text_eq(fields[i].target.as_str(), field) && fields[i].filter_only {
            return true;
        }
        i = i + 1;
    }
    false
}

/// Lets values be set for a field that takes them, and refuses any other.
pub fn check_filter_sync(config: &Config, schema: &DataSchema, field: &str) -> (r: Result<(), Refusal>)
    ensures
        match r {
            Ok(_) => takes_values(*config, *schema, field@),
            Err(e) => !takes_values(*config, *schema, field@) && e@ == (RefusalView {
                status: 400,
                error: "Field '"@ + field@ + "' is not a filter_only multi_value field"@,
            }),
        },
{
    if has_multi_value(&config.filter_fields, field) && has_filter_only(&schema.fields, field) {
        Ok(())
    } else {
        Err(
            Refusal {
                status: 400,
                error: "Field '".to_owned().concat(field).concat("' is not a filter_only multi_value field"),
            },
        )
    }
}

/// Whether a schema has fields with dictionaries.
pub fn has_dictionaries(schema: &DataSchema) -> (r: bool)
    ensures
        r == exists|i: int|
            0 <= i < schema.fields@.len() && (#[trigger] schema.fields@[i]).value_type is LowCardinalityString,
{
    let mut i: usize = 0;
    while i < schema.fields.len()
        invariant
            i <= schema.fields@.len(),
            forall|j: int| 0 <= j < i ==> (#[trigger] schema.fields@[j]).value_type !is LowCardinalityString,
        decreases schema.fields@.len() - i,
    {
        if schema.fields[i].value_type == FieldValueType::LowCardinalityString {
            return true;
        }
        i = i + 1;
    }
    false
}

/// Whether the tables of texts are made anew after a batch: dictionaries may have grown.
pub fn refreshes_tables(has_dictionaries: bool, done: u64) -> (r: bool)
    ensures
        r == (has_dictionaries && done > 0),
{
    has_dictionaries && done > 0
}

/// The query that fills the cache for filters and a sort: it asks for one result.
pub fn warm_query(filters: &Vec<FilterClause>, sort: &SortClause) -> (r: BitdexQuery)
    ensures
        models(r.filters@) == models(filters@),
        r.sort matches Some(s) && s.field@ == sort.field@ && s.direction == sort.direction,
        r.limit == 1,
        r.cursor is None,
        r.offset is None,
        !r.skip_cache,
{
    BitdexQuery {
        filters: clone_clauses(filters),
        sort: Some(SortClause { field: sort.field.clone(), direction: sort.direction }),
        limit: 1,
        cursor: None,
        offset: None,
        skip_cache: false,
    }
}

/// What became of a query that should fill the cache.
#[derive(Debug)]
pub enum WarmOutcome {
    /// It ran: whether the cache had it already, and how much it matched.
    Ran { cache_hit: bool, matched: u64 },
    /// It failed: why.
    Failed(String),
}

/// What is reported of such a query.
#[derive(Debug)]
pub struct WarmResultEntry {
    pub query_index: usize,
    pub status: String,
    pub elapsed_us: u64,
    pub matched: u64,
}

/// What is reported of such queries.
#[derive(Debug)]
pub struct WarmResponse {
    pub warmed: usize,
    pub already_cached: usize,
    pub results: Vec<WarmResultEntry>,
}

/// The word for what became of a query.
pub open spec fn warm_status(outcome: WarmOutcome) -> Seq<char> {
    match outcome {
        WarmOutcome::Ran { cache_hit, matched } => if cache_hit {
            "already_cached"@
        } else {
            "warmed"@
        },
        WarmOutcome::Failed(why) => "error: "@ + why@,
    }
}

/// How many of the first `n` queries ran with the cache as `hit` says.
pub open spec fn warm_count(outcomes: Seq<(WarmOutcome, u64)>, hit: bool, n: int) -> nat
    decreases n,
{
    if n <= 0 {
        0
    } else {
        warm_count(outcomes, hit, n - 1) + (if outcomes[n - 1].0 matches WarmOutcome::Ran { cache_hit, .. } && cache_hit
            == hit {
            1nat
        } else {
            0
        })
    }
}

/// Whether an entry reports a query.
pub open spec fn reports(entry: WarmResultEntry, i: int, outcome: (WarmOutcome, u64)) -> bool {
    &&& entry.query_index == i
    &&& entry.status@ == warm_status(outcome.0)
    &&& entry.elapsed_us == outcome.1
    &&& entry.matched == (match outcome.0 {
        WarmOutcome::Ran { cache_hit, matched } => matched,
        WarmOutcome::Failed(_) => 0,
    })
}

/// Reports queries that should fill the cache, each with the time that it took.
pub fn report_warming(outcomes: &Vec<(WarmOutcome, u64)>) -> (r: WarmResponse)
    ensures
        r.warmed == warm_count(outcomes@, false, outcomes@.len() as int),
        r.already_cached == warm_count(outcomes@, true, outcomes@.len() as int),
        r.results@.len() == outcomes@.len(),
        forall|i: int| 0 <= i < r.results@.len() ==> reports(#[trigger] r.results@[i], i, outcomes@[i]),
{
    let mut warmed: usize = 0;
    let mut already_cached: usize = 0;
    let mut results: Vec<WarmResultEntry> = Vec::new();
    let mut i: usize = 0;
    while i < outcomes.len()
        invariant
            i <= outcomes@.len(),
            warmed == warm_count(outcomes@, false, i as int),
            already_cached == warm_count(outcomes@, true, i as int),
            warmed <= i,
            already_cached <= i,
            results@.len() == i,
            forall|j: int| 0 <= j < i ==> reports(#[trigger] results@[j], j, outcomes@[j]),
        decreases outcomes@.len() - i,
    {
        let elapsed_us = outcomes[i].1;
        match &outcomes[i].0 {
            WarmOutcome::Ran { cache_hit, matched } => {
                let status = if *cache_hit {
                    already_cached = already_cached + 1;
                    "already_cached".to_owned()
                } else {
                    warmed = warmed + 1;
                    "warmed".to_owned()
                };
                results.push(WarmResultEntry { query_index: i, status, elapsed_us, matched: *matched });
            },
            WarmOutcome::Failed(why) => {
                let status = "error: ".to_owned().concat(why.as_str());
                results.push(WarmResultEntry { query_index: i, status, elapsed_us, matched: 0 });
            },
        }
        i = i + 1;
    }
    WarmResponse { warmed, already_cached, results }
}

/// The direction that a word asks for: upwards where it says so, or else downwards.
pub fn direction_of(word: Option<&str>) -> (r: SortDirection)
    ensures
        r == (match word {
            Some(w) => if w@ == "Asc"@ || w@ == "asc"@ {
                SortDirection::Asc
            } else {
                SortDirection::Desc
            },
            None => SortDirection::Desc,
        }),
{
    match word {
        Some(w) => if text_eq(w, "Asc") || text_eq(w, "asc") {
            SortDirection::Asc
        } else {
            SortDirection::Desc
        },
        None => SortDirection::Desc,
    }
}

/// Refuses to fill the cache with nothing.
pub fn check_warm(queries: usize) -> (r: Result<(), Refusal>)
    ensures
        match r {
            Ok(_) => queries > 0,
            Err(e) => queries == 0 && e@ == (RefusalView { status: 400, error: "queries array must not be empty"@ }),
        },
{
    if queries == 0 {
        Err(refuse(400, "queries array must not be empty"))
    } else {
        Ok(())
    }
}

/// A document that failed is reported by its place in the batch, and by its number where that is known,
/// with the reason. A document that is done is not reported.
pub proof fn law_failures_are_told_by_their_place(i: nat, slot: u32, why: String)
    ensures
        failure_text(i as int, DocOutcome::Done) is None,
        failure_text(i as int, DocOutcome::Unreadable(why)) == Some("doc["@ + dec(i) + "]: "@ + why@),
        failure_text(i as int, DocOutcome::NotAlive(slot)) == Some(
            "doc["@ + dec(i) + "] id="@ + dec(slot as nat) + ": not alive (use upsert for new docs)"@,
        ),
        failure_text(i as int, DocOutcome::Failed(slot, why)) == Some(
            "doc["@ + dec(i) + "] id="@ + dec(slot as nat) + ": "@ + why@,
        ),
{
}

/// A batch that is longer by a document counts it where it is done, and reports it behind the others
/// where it is not.
pub proof fn law_batches_are_counted_one_by_one(outcomes: Seq<DocOutcome>, n: int)
    requires
        0 <= n < outcomes.len(),
    ensures
        outcomes[n] is Done ==> done_count(outcomes, n + 1) == done_count(outcomes, n) + 1 && failures(outcomes, n + 1)
            == failures(outcomes, n),
        !(outcomes[n] is Done) ==> done_count(outcomes, n + 1) == done_count(outcomes, n) && failures(outcomes, n + 1)
            == failures(outcomes, n).push(failure_text(n, outcomes[n])->0),
        done_count(outcomes, 0) == 0,
        failures(outcomes, 0) == Seq::<Seq<char>>::empty(),
{
}

/// Every deletion is either made or reported, by its number and with the reason.
pub proof fn law_deletions_are_counted_one_by_one(results: Seq<(u32, Option<String>)>, n: int)
    requires
        0 <= n < results.len(),
    ensures
        results[n].1 is None ==> deletion_count(results, n + 1) == deletion_count(results, n) + 1 && deletion_failures(
            results,
            n + 1,
        ) == deletion_failures(results, n),
        results[n].1 matches Some(why) ==> deletion_count(results, n + 1) == deletion_count(results, n)
            && deletion_failures(results, n + 1) == deletion_failures(results, n).push(
            "id="@ + dec(results[n].0 as nat) + ": "@ + why@,
        ),
        deletion_count(results, 0) == 0,
        deletion_failures(results, 0) == Seq::<Seq<char>>::empty(),
{
}

/// A field takes values where a filter field of its name holds several and a mapping of its name is
/// kept in the filters alone; neither is enough by itself.
pub proof fn law_fields_that_take_values(config: Config, schema: DataSchema, field: Seq<char>, i: int, j: int)
    ensures
        0 <= i < config.filter_fields@.len() && config.filter_fields@[i].name@ == field
            && config.filter_fields@[i].multi_value && 0 <= j < schema.fields@.len() && schema.fields@[j].target@
            == field && schema.fields@[j].filter_only ==> takes_values(config, schema, field),
        (forall|k: int|
            0 <= k < config.filter_fields@.len() && (#[trigger] config.filter_fields@[k]).name@ == field
                ==> !config.filter_fields@[k].multi_value) ==> !takes_values(config, schema, field),
        (forall|k: int|
            0 <= k < schema.fields@.len() && (#[trigger] schema.fields@[k]).target@ == field
                ==> !schema.fields@[k].filter_only) ==> !takes_values(config, schema, field),
{
}

/// A query that filled the cache is counted as warmed, one that the cache had as cached, and one that
/// failed as neither; each is reported with its place, its time and what it matched.
pub proof fn law_warming_is_told_apart(outcomes: Seq<(WarmOutcome, u64)>, n: int, entry: WarmResultEntry)
    requires
        0 <= n < outcomes.len(),
    ensures
        ({
            let (outcome, elapsed) = outcomes[n];
            let warmed = warm_count(outcomes, false, n + 1) - warm_count(outcomes, false, n);
            let cached = warm_count(outcomes, true, n + 1) - warm_count(outcomes, true, n);
            &&& outcome matches WarmOutcome::Ran { cache_hit, matched } ==> {
                &&& cache_hit ==> warmed == 0 && cached == 1 && warm_status(outcome) == "already_cached"@
                &&& !cache_hit ==> warmed == 1 && cached == 0 && warm_status(outcome) == "warmed"@
                &&& reports(entry, n, outcomes[n]) ==> entry.matched == matched
            }
            &&& outcome matches WarmOutcome::Failed(why) ==> {
                &&& warmed == 0 && cached == 0
                &&& warm_status(outcome) == "error: "@ + why@
                &&& reports(entry, n, outcomes[n]) ==> entry.matched == 0
            }
            &&& reports(entry, n, outcomes[n]) ==> entry.query_index == n && entry.elapsed_us == elapsed
                && entry.status@ == warm_status(outcome)
        }),
        warm_count(outcomes, true, 0) == 0,
        warm_count(outcomes, false, 0) == 0,
{
}

} // verus!
