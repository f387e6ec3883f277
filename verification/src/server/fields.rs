//! Adding, removing, rebuilding and compacting fields.

use crate::config::{Config, FilterFieldConfig, SortFieldConfig};
use crate::server::answer::{refuse, Refusal, RefusalView};
use crate::text::{contains_text, debug_form, debug_text, join, join_texts, text_eq, views};
use vstd::prelude::*;
use vstd::string::*;

verus! {

/// A field that is known by its name.
pub trait Named: Sized {
    /// The name.
    spec fn title(&self) -> Seq<char>;

    /// The name.
    fn own_name(&self) -> (r: &str)
        ensures
            r@ == self.title(),
    ;

    /// The same field once more.
    fn duplicate(&self) -> (r: Self)
        ensures
            r == *self,
    ;
}

impl Named for FilterFieldConfig {
    open spec fn title(&self) -> Seq<char> {
        self.name@
    }

    fn own_name(&self) -> (r: &str) {
        self.name.as_str()
    }

    fn duplicate(&self) -> (r: Self) {
        FilterFieldConfig { name: self.name.clone(), multi_value: self.multi_value, eager_load: self.eager_load }
    }
}

impl Named for SortFieldConfig {
    open spec fn title(&self) -> Seq<char> {
        self.name@
    }

    fn own_name(&self) -> (r: &str) {
        self.name.as_str()
    }

    fn duplicate(&self) -> (r: Self) {
        SortFieldConfig { name: self.name.clone(), eager_load: self.eager_load }
    }
}

/// The names of fields.
pub open spec fn titles<F: Named>(fields: Seq<F>) -> Seq<Seq<char>> {
    Seq::new(fields.len(), |i: int| fields[i].title())
}

/// Collects the names of fields.
pub fn field_names<F: Named>(fields: &Vec<F>) -> (r: Vec<String>)
    ensures
        views(r@) == titles(fields@),
{
    let mut names: Vec<String> = Vec::new();
    let mut i: usize = 0;
    while i < fields.len()
        invariant
            i <= fields@.len(),
            names@.len() == i,
            forall|j: int| 0 <= j < i ==> (#[trigger] names@[j])@ == fields@[j].title(),
        decreases fields@.len() - i,
    {
        names.push(fields[i].own_name().to_owned());
        i = i + 1;
    }
    assert(views(names@) =~= titles(fields@));
    names
}

/// Whether a field has a name.
pub fn has_name<F: Named>(fields: &Vec<F>, name: &str) -> (r: bool)
    ensures
        r == titles(fields@).contains(name@),
{
    let mut i: usize = 0;
    while i < fields.len()
        invariant
            i <= fields@.len(),
            forall|j: int| 0 <= j < i ==> (#[trigger] fields@[j]).title() != name@,
        decreases fields@.len() - i,
    {
        if text_eq(fields[i].own_name(), name) {
            assert(titles(fields@)[i as int] == name@);
            return true;
        }
        i = i + 1;
    }
    assert forall|j: int| 0 <= j < titles(fields@).len() implies titles(fields@)[j] != name@ by {
        assert(fields@[j].title() != name@);
    }
    false
}

/// The first of some names, from position `n` on, for which it holds that `known` has it.
pub open spec fn first_with(wanted: Seq<Seq<char>>, known: Seq<Seq<char>>, has: bool, n: int) -> Option<Seq<char>>
    decreases wanted.len() - n,
{
    if n >= wanted.len() {
        None
    } else if known.contains(wanted[n]) == has {
        Some(wanted[n])
    } else {
        first_with(wanted, known, has, n + 1)
    }
}

/// Finds the first of some names that the fields have, or that they lack.
pub fn find_with<'a, F: Named>(wanted: &'a Vec<String>, fields: &Vec<F>, has: bool) -> (r: Option<&'a String>)
    ensures
        first_with(views(wanted@), titles(fields@), has, 0) == (match r {
            Some(s) => Some(s@),
            None => None,
        }),
{
    let mut i: usize = 0;
    while i < wanted.len()
        invariant
            i <= wanted@.len(),
            first_with(views(wanted@), titles(fields@), has, 0) == first_with(
                views(wanted@),
                titles(fields@),
                has,
                i as int,
            ),
        decreases wanted@.len() - i,
    {
        assert(views(wanted@)[i as int] == wanted@[i as int]@);
        if has_name(fields, wanted[i].as_str()) == has {
            return Some(&wanted[i]);
        }
        i = i + 1;
    }
    None
}

/// The fields without those that have one of some names.
pub open spec fn lacking<F: Named>(fields: Seq<F>, names: Seq<Seq<char>>) -> Seq<F> {
    fields.filter(|f: F| !names.contains(f.title()))
}

/// Takes the fields away that have one of some names.
pub fn drop_fields<F: Named>(fields: &mut Vec<F>, names: &Vec<String>)
    ensures
        final(fields)@ == lacking(old(fields)@, views(names@)),
{
    let mut kept: Vec<F> = Vec::new();
    let mut i: usize = 0;
    let ghost keep = |f: F| !views(names@).contains(f.title());
    proof {
        reveal(Seq::filter);
        assert(fields@.take(0) =~= Seq::<F>::empty());
    }
    while i < fields.len()
        invariant
            i <= fields@.len(),
            fields@ == old(fields)@,
            keep == (|f: F| !views(names@).contains(f.title())),
            kept@ == fields@.take(i as int).filter(keep),
        decreases fields@.len() - i,
    {
        proof {
            reveal(Seq::filter);
            assert(fields@.take(i + 1).drop_last() =~= fields@.take(i as int));
        }
        if !contains_text(names, fields[i].own_name()) {
            kept.push(fields[i].duplicate());
        }
        i = i + 1;
    }
    assert(fields@.take(i as int) =~= fields@);
    *fields = kept;
}

/// Puts fields behind others.
pub fn append_fields<F: Named>(fields: &mut Vec<F>, added: &Vec<F>)
    ensures
        final(fields)@ == old(fields)@ + added@,
{
    let mut i: usize = 0;
    assert(added@.take(0) =~= Seq::<F>::empty());
    while i < added.len()
        invariant
            i <= added@.len(),
            fields@ == old(fields)@ + added@.take(i as int),
        decreases added@.len() - i,
    {
        fields.push(added[i].duplicate());
        assert(added@.take(i + 1) =~= added@.take(i as int).push(added@[i as int]));
        i = i + 1;
    }
    assert(added@.take(i as int) =~= added@);
}

/// Refuses a request that names no field.
pub fn require_some(filters: usize, sorts: usize) -> (r: Result<(), Refusal>)
    ensures
        match r {
            Ok(_) => filters > 0 || sorts > 0,
            Err(e) => filters == 0 && sorts == 0 && e@ == (RefusalView { status: 400, error: "No fields specified"@ }),
        },
{
    if filters == 0 && sorts == 0 {
        Err(refuse(400, "No fields specified"))
    } else {
        Ok(())
    }
}

/// Whether one configuration differs from another in its fields at most.
pub open spec fn same_but_fields(a: Config, b: Config) -> bool {
    (Config { filter_fields: b.filter_fields, sort_fields: b.sort_fields, ..a }) == b
}

/// Why fields cannot be added: the first filter field, or else sort field, that is there already.
pub open spec fn addition_problem(config: Config, filters: Seq<FilterFieldConfig>, sorts: Seq<SortFieldConfig>) -> Option<
    Seq<char>,
> {
    match first_with(titles(filters), titles(config.filter_fields@), true, 0) {
        Some(name) => Some("Filter field '"@ + name + "' already exists"@),
        None => match first_with(titles(sorts), titles(config.sort_fields@), true, 0) {
            Some(name) => Some("Sort field '"@ + name + "' already exists"@),
            None => None,
        },
    }
}

/// Adds fields, where none of them is there already.
pub fn add_fields(config: &mut Config, filters: &Vec<FilterFieldConfig>, sorts: &Vec<SortFieldConfig>) -> (r: Result<
    (),
    Refusal,
>)
    ensures
        match r {
            Ok(_) => {
                &&& addition_problem(*old(config), filters@, sorts@) is None
                &&& final(config).filter_fields@ == old(config).filter_fields@ + filters@
                &&& final(config).sort_fields@ == old(config).sort_fields@ + sorts@
                &&& same_but_fields(*old(config), *final(config))
            },
            Err(e) => {
                &&& addition_problem(*old(config), filters@, sorts@) matches Some(problem) && e@ == (RefusalView {
                    status: 409,
                    error: problem,
                })
                &&& *final(config) == *old(config)
            },
        },
{
    let filter_names = field_names(filters);
    if let Some(name) = find_with(&filter_names, &config.filter_fields, true) {
        return Err(
            Refusal {
                status: 409,
                error: "Filter field '".to_owned().concat(name.as_str()).concat("' already exists"),
            },
        );
    }
    let sort_names = field_names(sorts);
    if let Some(name) = find_with(&sort_names, &config.sort_fields, true) {
        return Err(
            Refusal { status: 409, error: "Sort field '".to_owned().concat(name.as_str()).concat("' already exists") },
        );
    }
    append_fields(&mut config.filter_fields, filters);
    append_fields(&mut config.sort_fields, sorts);
    Ok(())
}

/// Takes added fields back, where the configuration could not be kept.
pub fn undo_add_fields(config: &mut Config, filters: &Vec<FilterFieldConfig>, sorts: &Vec<SortFieldConfig>)
    ensures
        final(config).filter_fields@ == lacking(old(config).filter_fields@, titles(filters@)),
        final(config).sort_fields@ == lacking(old(config).sort_fields@, titles(sorts@)),
        same_but_fields(*old(config), *final(config)),
{
    let filter_names = field_names(filters);
    let sort_names = field_names(sorts);
    drop_fields(&mut config.filter_fields, &filter_names);
    drop_fields(&mut config.sort_fields, &sort_names);
}

proof fn lemma_first_with_none(wanted: Seq<Seq<char>>, known: Seq<Seq<char>>, has: bool, n: int, i: int)
    requires
        0 <= n <= i < wanted.len(),
        first_with(wanted, known, has, n) is None,
    ensures
        known.contains(wanted[i]) != has,
    decreases wanted.len() - n,
{
    if n < i {
        lemma_first_with_none(wanted, known, has, n + 1, i);
    }
}

proof fn lemma_filter_all<F>(s: Seq<F>, keep: spec_fn(F) -> bool)
    requires
        forall|i: int| 0 <= i < s.len() ==> keep(#[trigger] s[i]),
    ensures
        s.filter(keep) == s,
    decreases s.len(),
{
    reveal(Seq::filter);
    if s.len() > 0 {
        lemma_filter_all(s.drop_last(), keep);
        assert(s.drop_last().push(s.last()) =~= s);
    }
}

proof fn lemma_filter_tail<F>(s: Seq<F>, t: Seq<F>, keep: spec_fn(F) -> bool)
    requires
        forall|i: int| 0 <= i < t.len() ==> !keep(#[trigger] t[i]),
    ensures
        (s + t).filter(keep) == s.filter(keep),
    decreases t.len(),
{
    reveal(Seq::filter);
    if t.len() > 0 {
        lemma_filter_tail(s, t.drop_last(), keep);
        assert((s + t).drop_last() =~= s + t.drop_last());
        assert((s + t).last() == t.last());
    } else {
        assert(s + t =~= s);
    }
}

/// Fields that were added and are taken back leave the fields as they were.
pub proof fn law_taking_back_undoes_adding<F: Named>(fields: Seq<F>, added: Seq<F>)
    requires
        first_with(titles(added), titles(fields), true, 0) is None,
    ensures
        lacking(fields + added, titles(added)) == fields,
{
    let keep = |f: F| !titles(added).contains(f.title());
    assert forall|i: int| 0 <= i < added.len() implies !keep(#[trigger] added[i]) by {
        assert(titles(added)[i] == added[i].title());
    }
    lemma_filter_tail(fields, added, keep);
    assert forall|i: int| 0 <= i < fields.len() implies keep(#[trigger] fields[i]) by {
        assert(titles(fields)[i] == fields[i].title());
        if titles(added).contains(fields[i].title()) {
            let j = choose|j: int| 0 <= j < titles(added).len() && titles(added)[j] == fields[i].title();
            lemma_first_with_none(titles(added), titles(fields), true, 0, j);
            assert(titles(fields).contains(titles(fields)[i]));
        }
    }
    lemma_filter_all(fields, keep);
}

/// Why fields cannot be removed: the first filter field, or else sort field, that is not there.
pub open spec fn removal_problem(config: Config, filters: Seq<Seq<char>>, sorts: Seq<Seq<char>>) -> Option<Seq<char>> {
    match first_with(filters, titles(config.filter_fields@), false, 0) {
        Some(name) => Some("Filter field '"@ + name + "' not found in config"@),
        None => match first_with(sorts, titles(config.sort_fields@), false, 0) {
            Some(name) => Some("Sort field '"@ + name + "' not found in config"@),
            None => None,
        },
    }
}

/// Removes fields, where all of them are there.
pub fn remove_fields(config: &mut Config, filters: &Vec<String>, sorts: &Vec<String>) -> (r: Result<(), Refusal>)
    ensures
        match r {
            Ok(_) => {
                &&& removal_problem(*old(config), views(filters@), views(sorts@)) is None
                &&& final(config).filter_fields@ == lacking(old(config).filter_fields@, views(filters@))
                &&& final(config).sort_fields@ == lacking(old(config).sort_fields@, views(sorts@))
                &&& same_but_fields(*old(config), *final(config))
            },
            Err(e) => {
                &&& removal_problem(*old(config), views(filters@), views(sorts@)) matches Some(problem) && e@ == (
                RefusalView { status: 400, error: problem })
                &&& *final(config) == *old(config)
            },
        },
{
    if let Some(name) = find_with(filters, &config.filter_fields, false) {
        return Err(
            Refusal {
                status: 400,
                error: "Filter field '".to_owned().concat(name.as_str()).concat("' not found in config"),
            },
        );
    }
    if let Some(name) = find_with(sorts, &config.sort_fields, false) {
        return Err(
            Refusal {
                status: 400,
                error: "Sort field '".to_owned().concat(name.as_str()).concat("' not found in config"),
            },
        );
    }
    drop_fields(&mut config.filter_fields, filters);
    drop_fields(&mut config.sort_fields, sorts);
    Ok(())
}

/// No field with a removed name stays.
pub proof fn law_removed_fields_are_gone<F: Named>(fields: Seq<F>, names: Seq<Seq<char>>, i: int)
    requires
        0 <= i < lacking(fields, names).len(),
    ensures
        !names.contains(lacking(fields, names)[i].title()),
    decreases fields.len(),
{
    reveal(Seq::filter);
    let keep = |f: F| !names.contains(f.title());
    assert(fields.len() > 0);
    let shorter = lacking(fields.drop_last(), names);
    if i < shorter.len() {
        law_removed_fields_are_gone(fields.drop_last(), names, i);
    }
}

/// How the names of fields are shown in a message.
pub open spec fn shown_names(names: Seq<Seq<char>>) -> Seq<char> {
    "["@ + join(Seq::new(names.len(), |i: int| debug_form(names[i])), ", "@) + "]"@
}

/// Refuses to add fields that the documents do not have.
pub fn require_known(missing: &Vec<String>) -> (r: Result<(), Refusal>)
    ensures
        match r {
            Ok(_) => missing@.len() == 0,
            Err(e) => missing@.len() > 0 && e@ == (RefusalView {
                status: 400,
                error: "Fields not found in docstore: "@ + shown_names(views(missing@)),
            }),
        },
{
    if missing.len() == 0 {
        return Ok(());
    }
    let mut shown: Vec<String> = Vec::new();
    let mut i: usize = 0;
    while i < missing.len()
        invariant
            i <= missing@.len(),
            shown@.len() == i,
            forall|j: int| 0 <= j < i ==> (#[trigger] shown@[j])@ == debug_form(missing@[j]@),
        decreases missing@.len() - i,
    {
        shown.push(debug_text(missing[i].as_str()));
        i = i + 1;
    }
    assert(views(shown@) =~= Seq::new(views(missing@).len(), |i: int| debug_form(views(missing@)[i])));
    let names = join_texts(&shown, ", ");
    let list = "[".to_owned().concat(names.as_str()).concat("]");
    Err(Refusal { status: 400, error: "Fields not found in docstore: ".to_owned().concat(list.as_str()) })
}

/// Why fields cannot be rebuilt: the first sort field, or else filter field, that is not there.
pub open spec fn rebuild_problem(
    config: Config,
    sorts: Option<Seq<Seq<char>>>,
    filters: Option<Seq<Seq<char>>>,
) -> Option<Seq<char>> {
    match first_with(asked(sorts), titles(config.sort_fields@), false, 0) {
        Some(name) => Some("Unknown sort field: "@ + name),
        None => match first_with(asked(filters), titles(config.filter_fields@), false, 0) {
            Some(name) => Some("Unknown filter field: "@ + name),
            None => None,
        },
    }
}

/// The names asked for; none where nothing is said.
pub open spec fn asked(names: Option<Seq<Seq<char>>>) -> Seq<Seq<char>> {
    match names {
        Some(list) => list,
        None => Seq::empty(),
    }
}

/// A list of texts that may be missing, as a mathematical value.
pub open spec fn list_view(names: Option<Vec<String>>) -> Option<Seq<Seq<char>>> {
    match names {
        Some(list) => Some(views(list@)),
        None => None,
    }
}

/// Lets fields be rebuilt that are there.
pub fn check_rebuild(config: &Config, sorts: &Option<Vec<String>>, filters: &Option<Vec<String>>) -> (r: Result<
    (),
    Refusal,
>)
    ensures
        match r {
            Ok(_) => rebuild_problem(*config, list_view(*sorts), list_view(*filters)) is None,
            Err(e) => rebuild_problem(*config, list_view(*sorts), list_view(*filters)) matches Some(problem) && e@ == (
            RefusalView { status: 400, error: problem }),
        },
{
    if let Some(names) = sorts {
        if let Some(name) = find_with(names, &config.sort_fields, false) {
            return Err(Refusal { status: 400, error: "Unknown sort field: ".to_owned().concat(name.as_str()) });
        }
    }
    if let Some(names) = filters {
        if let Some(name) = find_with(names, &config.filter_fields, false) {
            return Err(Refusal { status: 400, error: "Unknown filter field: ".to_owned().concat(name.as_str()) });
        }
    }
    Ok(())
}

/// What is compacted, and how.
#[derive(Debug, Clone, Copy, PartialEq, Eq, Structural)]
pub struct CompactPlan {
    pub threshold: u32,
    pub workers: usize,
    pub bitmaps: bool,
    pub docs: bool,
}

/// The first target, from position `n` on, that is none.
pub open spec fn bad_target(targets: Seq<Seq<char>>, n: int) -> Option<Seq<char>>
    decreases targets.len() - n,
{
    if n >= targets.len() {
        None
    } else if targets[n] != "bitmaps"@ && targets[n] != "docs"@ {
        Some(targets[n])
    } else {
        bad_target(targets, n + 1)
    }
}

/// Plans a compaction: of everything, or of the targets that are named, by at least one worker and
/// at most 32.
pub fn plan_compaction(targets: &Option<Vec<String>>, threshold: Option<u32>, workers: Option<usize>) -> (r: Result<
    CompactPlan,
    Refusal,
>)
    ensures
        ({
            let named = asked(list_view(*targets));
            match r {
                Ok(plan) => {
                    &&& bad_target(named, 0) is None
                    &&& plan.threshold == (match threshold {
                        Some(t) => t,
                        None => 0,
                    })
                    &&& plan.workers == (match workers {
                        Some(w) => if w < 1 {
                            1
                        } else if w > 32 {
                            32
                        } else {
                            w
                        },
                        None => 4,
                    })
                    &&& plan.bitmaps == (named.len() == 0 || named.contains("bitmaps"@))
                    &&& plan.docs == (named.len() == 0 || named.contains("docs"@))
                },
                Err(e) => bad_target(named, 0) matches Some(target) && e@ == (RefusalView {
                    status: 400,
                    error: "Invalid target '"@ + target + "'. Valid targets: bitmaps, docs"@,
                }),
            }
        }),
{
    let threshold = match threshold {
        Some(t) => t,
        None => 0,
    };
    let workers = match workers {
        Some(w) => if w < 1 {
            1
        } else if w > 32 {
            32
        } else {
            w
        },
        None => 4,
    };
    match targets {
        None => Ok(CompactPlan { threshold, workers, bitmaps: true, docs: true }),
        Some(named) => {
            let mut i: usize = 0;
            while i < named.len()
                invariant
                    i <= named@.len(),
                    list_view(*targets) == Some(views(named@)),
                    bad_target(views(named@), 0) == bad_target(views(named@), i as int),
                decreases named@.len() - i,
            {
                assert(views(named@)[i as int] == named@[i as int]@);
                if !text_eq(named[i].as_str(), "bitmaps") && !text_eq(named[i].as_str(), "docs") {
                    return Err(
                        Refusal {
                            status: 400,
                            error: "Invalid target '".to_owned().concat(named[i].as_str()).concat(
                                "'. Valid targets: bitmaps, docs",
                            ),
                        },
                    );
                }
                i = i + 1;
            }
            let all = named.len() == 0;
            let bitmaps = all || contains_text(named, "bitmaps");
            let docs = all || contains_text(named, "docs");
            Ok(CompactPlan { threshold, workers, bitmaps, docs })
        },
    }
}

/// The most examples that an audit of the buckets gives.
pub const MAX_AUDIT_SAMPLE: usize = 1000;

/// How many examples an audit gives that was asked for so many.
pub fn audit_sample(wanted: usize) -> (r: usize)
    ensures
        r == (if wanted <= 1000 {
            wanted
        } else {
            1000
        }),
{
    if wanted <= MAX_AUDIT_SAMPLE {
        wanted
    } else {
        MAX_AUDIT_SAMPLE
    }
}

/// Removing names takes the fields of these names and leaves the others in their order.
pub proof fn law_other_fields_stay_in_order<F: Named>(fields: Seq<F>, field: F, names: Seq<Seq<char>>)
    ensures
        names.contains(field.title()) ==> lacking(fields.push(field), names) == lacking(fields, names),
        !names.contains(field.title()) ==> lacking(fields.push(field), names) == lacking(fields, names).push(field),
        lacking(Seq::<F>::empty(), names) == Seq::<F>::empty(),
{
    reveal(Seq::filter);
    assert(fields.push(field).drop_last() =~= fields);
}

/// The first of some names that is known, or unknown, is told; none where there is no such name.
pub proof fn law_the_first_such_name_is_told(wanted: Seq<Seq<char>>, known: Seq<Seq<char>>, has: bool, k: int)
    requires
        0 <= k <= wanted.len(),
        forall|i: int| 0 <= i < k ==> known.contains(#[trigger] wanted[i]) != has,
    ensures
        k < wanted.len() && known.contains(wanted[k]) == has ==> first_with(wanted, known, has, 0) == Some(wanted[k]),
        k == wanted.len() ==> first_with(wanted, known, has, 0) is None,
{
    lemma_first_with_from(wanted, known, has, k, 0);
}

proof fn lemma_first_with_from(wanted: Seq<Seq<char>>, known: Seq<Seq<char>>, has: bool, k: int, n: int)
    requires
        0 <= n <= k <= wanted.len(),
        forall|i: int| 0 <= i < k ==> known.contains(#[trigger] wanted[i]) != has,
    ensures
        first_with(wanted, known, has, n) == first_with(wanted, known, has, k),
    decreases k - n,
{
    if n < k {
        assert(known.contains(wanted[n]) != has);
        lemma_first_with_from(wanted, known, has, k, n + 1);
    }
}

/// Fields can be added exactly where none of them is there; the first that is there is told, a filter
/// field before a sort field.
pub proof fn law_only_new_fields_are_added(
    config: Config,
    filters: Seq<FilterFieldConfig>,
    sorts: Seq<SortFieldConfig>,
    k: int,
)
    ensures
        0 <= k < filters.len() && titles(config.filter_fields@).contains(filters[k].name@) && (forall|i: int|
            0 <= i < k ==> !titles(config.filter_fields@).contains((#[trigger] filters[i]).name@)) ==> addition_problem(
            config,
            filters,
            sorts,
        ) == Some("Filter field '"@ + filters[k].name@ + "' already exists"@),
        (forall|i: int|
            0 <= i < filters.len() ==> !titles(config.filter_fields@).contains((#[trigger] filters[i]).name@)) && 0 <= k
            < sorts.len() && titles(config.sort_fields@).contains(sorts[k].name@) && (forall|i: int|
            0 <= i < k ==> !titles(config.sort_fields@).contains((#[trigger] sorts[i]).name@)) ==> addition_problem(
            config,
            filters,
            sorts,
        ) == Some("Sort field '"@ + sorts[k].name@ + "' already exists"@),
        (forall|i: int|
            0 <= i < filters.len() ==> !titles(config.filter_fields@).contains((#[trigger] filters[i]).name@)) && (
        forall|i: int| 0 <= i < sorts.len() ==> !titles(config.sort_fields@).contains((#[trigger] sorts[i]).name@))
            ==> addition_problem(config, filters, sorts) is None,
{
    let fs = titles(filters);
    let ss = titles(sorts);
    let kf = titles(config.filter_fields@);
    let ks = titles(config.sort_fields@);
    if 0 <= k < filters.len() && kf.contains(filters[k].name@) && (forall|i: int|
        0 <= i < k ==> !kf.contains((#[trigger] filters[i]).name@)) {
        assert forall|i: int| 0 <= i < k implies kf.contains(#[trigger] fs[i]) != true by {
            assert(fs[i] == filters[i].name@);
        }
        law_the_first_such_name_is_told(fs, kf, true, k);
    }
    if forall|i: int| 0 <= i < filters.len() ==> !kf.contains((#[trigger] filters[i]).name@) {
        assert forall|i: int| 0 <= i < fs.len() implies kf.contains(#[trigger] fs[i]) != true by {
            assert(fs[i] == filters[i].name@);
        }
        law_the_first_such_name_is_told(fs, kf, true, fs.len() as int);
        if 0 <= k < sorts.len() && ks.contains(sorts[k].name@) && (forall|i: int|
            0 <= i < k ==> !ks.contains((#[trigger] sorts[i]).name@)) {
            assert forall|i: int| 0 <= i < k implies ks.contains(#[trigger] ss[i]) != true by {
                assert(ss[i] == sorts[i].name@);
            }
            law_the_first_such_name_is_told(ss, ks, true, k);
        }
        if forall|i: int| 0 <= i < sorts.len() ==> !ks.contains((#[trigger] sorts[i]).name@) {
            assert forall|i: int| 0 <= i < ss.len() implies ks.contains(#[trigger] ss[i]) != true by {
                assert(ss[i] == sorts[i].name@);
            }
            law_the_first_such_name_is_told(ss, ks, true, ss.len() as int);
        }
    }
}

/// Fields can be removed exactly where all of them are there, and rebuilt exactly where all of them
/// are there; of several that are not, the one that is told is a filter field first where fields are
/// removed, and a sort field first where they are rebuilt.
pub proof fn law_only_known_fields_are_removed_and_rebuilt(
    config: Config,
    filters: Seq<Seq<char>>,
    sorts: Seq<Seq<char>>,
)
    ensures
        ({
            let kf = titles(config.filter_fields@);
            let ks = titles(config.sort_fields@);
            let all_filters = forall|i: int| 0 <= i < filters.len() ==> kf.contains(#[trigger] filters[i]);
            let all_sorts = forall|i: int| 0 <= i < sorts.len() ==> ks.contains(#[trigger] sorts[i]);
            &&& all_filters && all_sorts ==> removal_problem(config, filters, sorts) is None
            &&& all_filters && all_sorts ==> rebuild_problem(config, Some(sorts), Some(filters)) is None
            &&& filters.len() > 0 && !kf.contains(filters[0]) ==> removal_problem(config, filters, sorts) == Some(
                "Filter field '"@ + filters[0] + "' not found in config"@,
            )
            &&& all_filters && sorts.len() > 0 && !ks.contains(sorts[0]) ==> removal_problem(config, filters, sorts)
                == Some("Sort field '"@ + sorts[0] + "' not found in config"@)
            &&& sorts.len() > 0 && !ks.contains(sorts[0]) ==> rebuild_problem(config, Some(sorts), Some(filters))
                == Some("Unknown sort field: "@ + sorts[0])
            &&& all_sorts && filters.len() > 0 && !kf.contains(filters[0]) ==> rebuild_problem(
                config,
                Some(sorts),
                Some(filters),
            ) == Some("Unknown filter field: "@ + filters[0])
            &&& rebuild_problem(config, None, None) is None
        }),
{
    let kf = titles(config.filter_fields@);
    let ks = titles(config.sort_fields@);
    if forall|i: int| 0 <= i < filters.len() ==> kf.contains(#[trigger] filters[i]) {
        law_the_first_such_name_is_told(filters, kf, false, filters.len() as int);
    }
    if forall|i: int| 0 <= i < sorts.len() ==> ks.contains(#[trigger] sorts[i]) {
        law_the_first_such_name_is_told(sorts, ks, false, sorts.len() as int);
    }
    if filters.len() > 0 {
        law_the_first_such_name_is_told(filters, kf, false, 0);
    }
    if sorts.len() > 0 {
        law_the_first_such_name_is_told(sorts, ks, false, 0);
    }
}

/// What can be compacted is the bitmaps and the documents; the first name of anything else is told.
pub proof fn law_only_bitmaps_and_documents_are_compacted(targets: Seq<Seq<char>>, k: int, n: int)
    requires
        0 <= n <= k <= targets.len(),
        forall|i: int| 0 <= i < k ==> (#[trigger] targets[i]) == "bitmaps"@ || targets[i] == "docs"@,
    ensures
        k == targets.len() ==> bad_target(targets, n) is None,
        k < targets.len() && targets[k] != "bitmaps"@ && targets[k] != "docs"@ ==> bad_target(targets, n) == Some(
            targets[k],
        ),
    decreases k - n,
{
    if n < k {
        assert(targets[n] == "bitmaps"@ || targets[n] == "docs"@);
        law_only_bitmaps_and_documents_are_compacted(targets, k, n + 1);
    }
}

/// Names are shown in brackets, in their order, with a comma between them.
pub proof fn law_names_are_shown_in_brackets(a: Seq<char>, b: Seq<char>)
    ensures
        shown_names(seq![a]) == "["@ + debug_form(a) + "]"@,
        shown_names(seq![a, b]) == "["@ + (debug_form(a) + ", "@ + debug_form(b)) + "]"@,
{
    let one = Seq::new(1, |i: int| debug_form(seq![a][i]));
    let two = Seq::new(2, |i: int| debug_form(seq![a, b][i]));
    assert(join(one, ", "@) == debug_form(a));
    assert(two.drop_last() =~= one);
    assert(join(two, ", "@) == debug_form(a) + ", "@ + debug_form(b));
}

} // verus!
