//! Changes to a running configuration.

use crate::config::{
    filter_position, find_filter, find_sort, sort_position, CacheConfig, Config, Double, FilterFieldConfig,
    RangeBucketConfig, SortFieldConfig,
};
use crate::pairs::{find_value, pairs_map};
use crate::prefilter::MAX_REGISTERED_PREFILTERS;
use crate::preset::or_else;
use crate::server::answer::{Refusal, RefusalView};
use crate::text::{clone_texts, contains_text, dec, decimal, text_eq, views};
use vstd::prelude::*;
use vstd::string::*;

verus! {

/// The groups of metrics that cost something to gather.
#[derive(Debug, Clone, Copy, PartialEq, Eq, Structural)]
pub struct MetricGroups {
    pub bitmap_memory: bool,
    pub eviction_stats: bool,
    pub boundstore_disk: bool,
}

/// The groups that are on where those of `listed` are the ones that are `on`.
pub open spec fn groups_of(listed: Seq<Seq<char>>, on: bool) -> MetricGroups {
    MetricGroups {
        bitmap_memory: listed.contains("bitmap_memory"@) == on,
        eviction_stats: listed.contains("eviction_stats"@) == on,
        boundstore_disk: listed.contains("boundstore_disk"@) == on,
    }
}

/// Tells which groups are on where those of `listed` are the ones that are `on`.
pub fn metric_groups(listed: &Vec<String>, on: bool) -> (r: MetricGroups)
    ensures
        r == groups_of(views(listed@), on),
{
    MetricGroups {
        bitmap_memory: contains_text(listed, "bitmap_memory") == on,
        eviction_stats: contains_text(listed, "eviction_stats") == on,
        boundstore_disk: contains_text(listed, "boundstore_disk") == on,
    }
}

/// The groups that a configuration turns on: all but those it turns off; or those that an older
/// configuration turns on; or else all.
pub open spec fn configured_groups(
    disabled: Option<Vec<String>>,
    enabled: Option<Vec<String>>,
) -> MetricGroups {
    match disabled {
        Some(listed) => groups_of(views(listed@), false),
        None => match enabled {
            Some(listed) => groups_of(views(listed@), true),
            None => MetricGroups { bitmap_memory: true, eviction_stats: true, boundstore_disk: true },
        },
    }
}

/// Tells which groups a configuration turns on.
pub fn restore_groups(disabled: &Option<Vec<String>>, enabled: &Option<Vec<String>>) -> (r: MetricGroups)
    ensures
        r == configured_groups(*disabled, *enabled),
{
    match disabled {
        Some(listed) => metric_groups(listed, false),
        None => match enabled {
            Some(listed) => metric_groups(listed, true),
            None => MetricGroups { bitmap_memory: true, eviction_stats: true, boundstore_disk: true },
        },
    }
}

/// A change to the configuration. Only what it says changes.
#[derive(Debug)]
pub struct ConfigPatch {
    pub filter_fields: Option<Vec<(String, FieldPatch)>>,
    pub sort_fields: Option<Vec<(String, FieldPatch)>>,
    pub cache: Option<CachePatch>,
    pub range_buckets: Option<Vec<RangePatch>>,
    pub max_query_concurrency: Option<u32>,
    pub enable_traces: Option<bool>,
    pub trace_min_us: Option<u64>,
    pub trace_buffer_size: Option<usize>,
    pub enabled_metrics: Option<Vec<String>>,
    pub disabled_metrics: Option<Vec<String>>,
    pub query_tee_mode: Option<bool>,
    pub par_iter_min_threshold: Option<usize>,
    pub bitmap_compact_threshold: Option<u32>,
    pub max_registered_prefilters: Option<usize>,
    pub time_bucket_full_rebuild_interval_secs: Option<u64>,
    pub deferred_sweep_interval_secs: Option<u64>,
    pub deferred_sweep_limit: Option<usize>,
}

/// A change to a filter field or to a sort field.
#[derive(Debug, Clone, Copy, PartialEq, Eq, Structural)]
pub struct FieldPatch {
    pub eager_load: Option<bool>,
}

impl View for FieldPatch {
    type V = FieldPatch;

    open spec fn view(&self) -> FieldPatch {
        *self
    }
}

/// A change to a bucket of recent records.
#[derive(Debug)]
pub struct RangePatch {
    pub name: String,
    pub refresh_interval_secs: Option<u64>,
}

/// A change to the configuration of the cache.
#[derive(Debug, Clone, Copy)]
pub struct CachePatch {
    pub max_entries: Option<usize>,
    pub max_bytes: Option<usize>,
    pub initial_capacity: Option<usize>,
    pub max_capacity: Option<usize>,
    pub min_filter_size: Option<usize>,
    pub decay_rate: Option<Double>,
    pub bound_target_size: Option<usize>,
    pub bound_max_size: Option<usize>,
    pub bound_max_count: Option<usize>,
    pub prefetch_threshold: Option<Double>,
    pub max_maintenance_work: Option<usize>,
    pub max_maintenance_ms: Option<u64>,
    pub async_maintenance: Option<bool>,
    pub compound_eval_atom_limit: Option<u32>,
    pub bucket_entry_ttl_secs: Option<u64>,
}

/// Something that a change tells the running engine or the service.
#[derive(Debug)]
pub enum PatchCommand {
    CacheMaxEntries(usize),
    CacheMaxBytes(usize),
    CacheInitialCapacity(usize),
    CacheMaxCapacity(usize),
    CacheMinFilterSize(usize),
    MaxMaintenanceWork(usize),
    MaxMaintenanceMs(u64),
    CompoundEvalAtomLimit(u32),
    BucketEntryTtlSecs(u64),
    TimeBucketRefresh(String, u64),
    MaxQueryConcurrency(u32),
    QueryTeeMode(bool),
    ParIterMinThreshold(usize),
    BitmapCompactThreshold(u32),
    TimeBucketFullRebuildInterval(u64),
    DeferredSweepInterval(u64),
    DeferredSweepLimit(usize),
    MaxRegisteredPrefilters(usize),
    EnableTraces(bool),
    TraceMinUs(u64),
    TraceBufferSize(usize),
    Groups(MetricGroups),
}

/// Such a thing as a mathematical value.
pub enum CommandView {
    CacheMaxEntries(usize),
    CacheMaxBytes(usize),
    CacheInitialCapacity(usize),
    CacheMaxCapacity(usize),
    CacheMinFilterSize(usize),
    MaxMaintenanceWork(usize),
    MaxMaintenanceMs(u64),
    CompoundEvalAtomLimit(u32),
    BucketEntryTtlSecs(u64),
    TimeBucketRefresh(Seq<char>, u64),
    MaxQueryConcurrency(u32),
    QueryTeeMode(bool),
    ParIterMinThreshold(usize),
    BitmapCompactThreshold(u32),
    TimeBucketFullRebuildInterval(u64),
    DeferredSweepInterval(u64),
    DeferredSweepLimit(usize),
    MaxRegisteredPrefilters(usize),
    EnableTraces(bool),
    TraceMinUs(u64),
    TraceBufferSize(usize),
    Groups(MetricGroups),
}

impl View for PatchCommand {
    type V = CommandView;

    open spec fn view(&self) -> CommandView {
        match self {
            PatchCommand::CacheMaxEntries(v) => CommandView::CacheMaxEntries(*v),
            PatchCommand::CacheMaxBytes(v) => CommandView::CacheMaxBytes(*v),
            PatchCommand::CacheInitialCapacity(v) => CommandView::CacheInitialCapacity(*v),
            PatchCommand::CacheMaxCapacity(v) => CommandView::CacheMaxCapacity(*v),
            PatchCommand::CacheMinFilterSize(v) => CommandView::CacheMinFilterSize(*v),
            PatchCommand::MaxMaintenanceWork(v) => CommandView::MaxMaintenanceWork(*v),
            PatchCommand::MaxMaintenanceMs(v) => CommandView::MaxMaintenanceMs(*v),
            PatchCommand::CompoundEvalAtomLimit(v) => CommandView::CompoundEvalAtomLimit(*v),
            PatchCommand::BucketEntryTtlSecs(v) => CommandView::BucketEntryTtlSecs(*v),
            PatchCommand::TimeBucketRefresh(n, v) => CommandView::TimeBucketRefresh(n@, *v),
            PatchCommand::MaxQueryConcurrency(v) => CommandView::MaxQueryConcurrency(*v),
            PatchCommand::QueryTeeMode(v) => CommandView::QueryTeeMode(*v),
            PatchCommand::ParIterMinThreshold(v) => CommandView::ParIterMinThreshold(*v),
            PatchCommand::BitmapCompactThreshold(v) => CommandView::BitmapCompactThreshold(*v),
            PatchCommand::TimeBucketFullRebuildInterval(v) => CommandView::TimeBucketFullRebuildInterval(*v),
            PatchCommand::DeferredSweepInterval(v) => CommandView::DeferredSweepInterval(*v),
            PatchCommand::DeferredSweepLimit(v) => CommandView::DeferredSweepLimit(*v),
            PatchCommand::MaxRegisteredPrefilters(v) => CommandView::MaxRegisteredPrefilters(*v),
            PatchCommand::EnableTraces(v) => CommandView::EnableTraces(*v),
            PatchCommand::TraceMinUs(v) => CommandView::TraceMinUs(*v),
            PatchCommand::TraceBufferSize(v) => CommandView::TraceBufferSize(*v),
            PatchCommand::Groups(v) => CommandView::Groups(*v),
        }
    }
}

/// Such things as mathematical values.
pub open spec fn command_views(commands: Seq<PatchCommand>) -> Seq<CommandView> {
    Seq::new(commands.len(), |i: int| commands[i]@)
}

/// The refusal of a bad request.
pub open spec fn bad_request(error: Seq<char>) -> RefusalView {
    RefusalView { status: 400, error }
}

/// What is wrong with the names of the filter fields, from position `n` on.
pub open spec fn filter_names_problem(
    patches: Seq<(String, FieldPatch)>,
    fields: Seq<FilterFieldConfig>,
    n: int,
) -> Option<Seq<char>>
    decreases patches.len() - n,
{
    if n >= patches.len() {
        None
    } else if filter_position(fields, patches[n].0@, 0) is None {
        Some("Unknown filter field: '"@ + patches[n].0@ + "'"@)
    } else {
        filter_names_problem(patches, fields, n + 1)
    }
}

/// What is wrong with the names of the sort fields, from position `n` on.
pub open spec fn sort_names_problem(
    patches: Seq<(String, FieldPatch)>,
    fields: Seq<SortFieldConfig>,
    n: int,
) -> Option<Seq<char>>
    decreases patches.len() - n,
{
    if n >= patches.len() {
        None
    } else if sort_position(fields, patches[n].0@, 0) is None {
        Some("Unknown sort field: '"@ + patches[n].0@ + "'"@)
    } else {
        sort_names_problem(patches, fields, n + 1)
    }
}

/// What is wrong with the values for the cache.
pub open spec fn cache_problem(patch: CachePatch) -> Option<Seq<char>> {
    match patch.decay_rate {
        Some(d) if d.below_zero() || d.zero() || d.above_one() => Some("cache.decay_rate must be in (0.0, 1.0]"@),
        _ => match patch.prefetch_threshold {
            Some(p) if p.nan() || p.below_zero() || p.above_one() => Some(
                "cache.prefetch_threshold must be in [0.0, 1.0]"@,
            ),
            _ => None,
        },
    }
}

/// What keeps a change from being begun.
pub open spec fn early_problem(patch: ConfigPatch, config: Config) -> Option<Seq<char>> {
    let filters = match patch.filter_fields {
        Some(patches) => filter_names_problem(patches@, config.filter_fields@, 0),
        None => None,
    };
    let sorts = match patch.sort_fields {
        Some(patches) => sort_names_problem(patches@, config.sort_fields@, 0),
        None => None,
    };
    match filters {
        Some(p) => Some(p),
        None => match sorts {
            Some(p) => Some(p),
            None => match patch.cache {
                Some(cache) => cache_problem(cache),
                None => None,
            },
        },
    }
}

/// Checks what has to hold before anything changes.
pub fn check_patch(patch: &ConfigPatch, config: &Config) -> (r: Option<String>)
    ensures
        match r {
            Some(p) => early_problem(*patch, *config) == Some(p@),
            None => early_problem(*patch, *config) is None,
        },
{
    if let Some(patches) = &patch.filter_fields {
        let mut n: usize = 0;
        while n < patches.len()
            invariant
                n <= patches@.len(),
                patch.filter_fields == Some(*patches),
                filter_names_problem(patches@, config.filter_fields@, 0) == filter_names_problem(
                    patches@,
                    config.filter_fields@,
                    n as int,
                ),
            decreases patches@.len() - n,
        {
            if find_filter(&config.filter_fields, patches[n].0.as_str()).is_none() {
                return Some("Unknown filter field: '".to_owned().concat(patches[n].0.as_str()).concat("'"));
            }
            n = n + 1;
        }
    }
    if let Some(patches) = &patch.sort_fields {
        let mut n: usize = 0;
        while n < patches.len()
            invariant
                n <= patches@.len(),
                patch.sort_fields == Some(*patches),
                patch.filter_fields matches Some(filters) ==> filter_names_problem(
                    filters@,
                    config.filter_fields@,
                    0,
                ) is None,
                sort_names_problem(patches@, config.sort_fields@, 0) == sort_names_problem(
                    patches@,
                    config.sort_fields@,
                    n as int,
                ),
            decreases patches@.len() - n,
        {
            if find_sort(&config.sort_fields, patches[n].0.as_str()).is_none() {
                return Some("Unknown sort field: '".to_owned().concat(patches[n].0.as_str()).concat("'"));
            }
            n = n + 1;
        }
    }
    if let Some(cache) = &patch.cache {
        if let Some(d) = cache.decay_rate {
            if d.outside_unit() {
                return Some("cache.decay_rate must be in (0.0, 1.0]".to_owned());
            }
        }
        if let Some(p) = cache.prefetch_threshold {
            if !p.within_closed_unit() {
                return Some("cache.prefetch_threshold must be in [0.0, 1.0]".to_owned());
            }
        }
    }
    None
}

/// A filter field with a change made to it.
pub open spec fn patched_filter(field: FilterFieldConfig, patches: Map<Seq<char>, FieldPatch>) -> FilterFieldConfig {
    if patches.dom().contains(field.name@) && patches[field.name@].eager_load is Some {
        FilterFieldConfig { eager_load: patches[field.name@].eager_load->0, ..field }
    } else {
        field
    }
}

/// A sort field with a change made to it.
pub open spec fn patched_sort(field: SortFieldConfig, patches: Map<Seq<char>, FieldPatch>) -> SortFieldConfig {
    if patches.dom().contains(field.name@) && patches[field.name@].eager_load is Some {
        SortFieldConfig { eager_load: patches[field.name@].eager_load->0, ..field }
    } else {
        field
    }
}

/// The filter fields with changes made to them.
pub open spec fn patched_filters(
    fields: Seq<FilterFieldConfig>,
    patches: Map<Seq<char>, FieldPatch>,
) -> Seq<FilterFieldConfig> {
    Seq::new(fields.len(), |i: int| patched_filter(fields[i], patches))
}

/// The sort fields with changes made to them.
pub open spec fn patched_sorts(
    fields: Seq<SortFieldConfig>,
    patches: Map<Seq<char>, FieldPatch>,
) -> Seq<SortFieldConfig> {
    Seq::new(fields.len(), |i: int| patched_sort(fields[i], patches))
}

/// Those of the first `n` filter fields that were loaded on demand and are now loaded at once.
pub open spec fn new_eager_filters(
    fields: Seq<FilterFieldConfig>,
    patches: Map<Seq<char>, FieldPatch>,
    n: int,
) -> Seq<Seq<char>>
    decreases n,
{
    if n <= 0 {
        Seq::empty()
    } else {
        let before = new_eager_filters(fields, patches, n - 1);
        if patched_filter(fields[n - 1], patches).eager_load && !fields[n - 1].eager_load {
            before.push(fields[n - 1].name@)
        } else {
            before
        }
    }
}

/// Those of the first `n` sort fields that were loaded on demand and are now loaded at once.
pub open spec fn new_eager_sorts(
    fields: Seq<SortFieldConfig>,
    patches: Map<Seq<char>, FieldPatch>,
    n: int,
) -> Seq<Seq<char>>
    decreases n,
{
    if n <= 0 {
        Seq::empty()
    } else {
        let before = new_eager_sorts(fields, patches, n - 1);
        if patched_sort(fields[n - 1], patches).eager_load && !fields[n - 1].eager_load {
            before.push(fields[n - 1].name@)
        } else {
            before
        }
    }
}

/// The changes to fields, by name.
pub open spec fn field_patches(patches: Option<Vec<(String, FieldPatch)>>) -> Map<Seq<char>, FieldPatch> {
    match patches {
        Some(list) => pairs_map(list@),
        None => Map::empty(),
    }
}

fn eager_of(patches: &Option<Vec<(String, FieldPatch)>>, name: &str) -> (r: Option<bool>)
    ensures
        r == (if field_patches(*patches).dom().contains(name@) {
            field_patches(*patches)[name@].eager_load
        } else {
            None
        }),
{
    match patches {
        Some(list) => match find_value(list, name) {
            Some(p) => p.eager_load,
            None => None,
        },
        None => None,
    }
}

/// Changes the filter fields, and tells those that are now loaded at once.
pub fn patch_filters(fields: &mut Vec<FilterFieldConfig>, patches: &Option<Vec<(String, FieldPatch)>>) -> (r: Vec<
    String,
>)
    ensures
        final(fields)@ == patched_filters(old(fields)@, field_patches(*patches)),
        views(r@) == new_eager_filters(old(fields)@, field_patches(*patches), old(fields)@.len() as int),
{
    let ghost before = fields@;
    let ghost map = field_patches(*patches);
    let mut eager: Vec<String> = Vec::new();
    let mut i: usize = 0;
    assert(views(eager@) =~= Seq::<Seq<char>>::empty());
    while i < fields.len()
        invariant
            i <= fields@.len(),
            before == old(fields)@,
            map == field_patches(*patches),
            fields@.len() == before.len(),
            forall|j: int| 0 <= j < i ==> #[trigger] fields@[j] == patched_filter(before[j], map),
            forall|j: int| i <= j < fields@.len() ==> #[trigger] fields@[j] == before[j],
            views(eager@) == new_eager_filters(before, map, i as int),
        decreases fields@.len() - i,
    {
        let ghost told = views(eager@);
        assert(fields@[i as int] == before[i as int]);
        let change = eager_of(patches, fields[i].name.as_str());
        if let Some(e) = change {
            let was = fields[i].eager_load;
            if e && !was {
                eager.push(fields[i].name.clone());
                assert(views(eager@) =~= told.push(before[i as int].name@));
            }
            fields[i].eager_load = e;
        }
        assert(fields@[i as int] == patched_filter(before[i as int], map));
        i = i + 1;
    }
    assert(fields@ =~= patched_filters(before, map));
    eager
}

/// Changes the sort fields, and tells those that are now loaded at once.
pub fn patch_sorts(fields: &mut Vec<SortFieldConfig>, patches: &Option<Vec<(String, FieldPatch)>>) -> (r: Vec<String>)
    ensures
        final(fields)@ == patched_sorts(old(fields)@, field_patches(*patches)),
        views(r@) == new_eager_sorts(old(fields)@, field_patches(*patches), old(fields)@.len() as int),
{
    let ghost before = fields@;
    let ghost map = field_patches(*patches);
    let mut eager: Vec<String> = Vec::new();
    let mut i: usize = 0;
    assert(views(eager@) =~= Seq::<Seq<char>>::empty());
    while i < fields.len()
        invariant
            i <= fields@.len(),
            before == old(fields)@,
            map == field_patches(*patches),
            fields@.len() == before.len(),
            forall|j: int| 0 <= j < i ==> #[trigger] fields@[j] == patched_sort(before[j], map),
            forall|j: int| i <= j < fields@.len() ==> #[trigger] fields@[j] == before[j],
            views(eager@) == new_eager_sorts(before, map, i as int),
        decreases fields@.len() - i,
    {
        let ghost told = views(eager@);
        assert(fields@[i as int] == before[i as int]);
        let change = eager_of(patches, fields[i].name.as_str());
        if let Some(e) = change {
            let was = fields[i].eager_load;
            if e && !was {
                eager.push(fields[i].name.clone());
                assert(views(eager@) =~= told.push(before[i as int].name@));
            }
            fields[i].eager_load = e;
        }
        assert(fields@[i as int] == patched_sort(before[i as int], map));
        i = i + 1;
    }
    assert(fields@ =~= patched_sorts(before, map));
    eager
}

/// The configuration of the cache with a change made to it.
pub open spec fn patched_cache(cache: CacheConfig, patch: CachePatch) -> CacheConfig {
    CacheConfig {
        max_entries: or_else(patch.max_entries, cache.max_entries),
        max_bytes: or_else(patch.max_bytes, cache.max_bytes),
        initial_capacity: or_else(patch.initial_capacity, cache.initial_capacity),
        max_capacity: or_else(patch.max_capacity, cache.max_capacity),
        min_filter_size: or_else(patch.min_filter_size, cache.min_filter_size),
        decay_rate: or_else(patch.decay_rate, cache.decay_rate),
        bound_target_size: or_else(patch.bound_target_size, cache.bound_target_size),
        bound_max_size: or_else(patch.bound_max_size, cache.bound_max_size),
        bound_max_count: or_else(patch.bound_max_count, cache.bound_max_count),
        prefetch_threshold: or_else(patch.prefetch_threshold, cache.prefetch_threshold),
        preload_bounds: cache.preload_bounds,
        max_maintenance_work: or_else(patch.max_maintenance_work, cache.max_maintenance_work),
        max_maintenance_ms: or_else(patch.max_maintenance_ms, cache.max_maintenance_ms),
        async_maintenance: or_else(patch.async_maintenance, cache.async_maintenance),
        compound_eval_atom_limit: or_else(patch.compound_eval_atom_limit, cache.compound_eval_atom_limit),
        bucket_entry_ttl_secs: or_else(patch.bucket_entry_ttl_secs, cache.bucket_entry_ttl_secs),
    }
}

/// `s`, and behind it what `said` tells.
pub open spec fn telling<A>(s: Seq<CommandView>, said: Option<A>, command: spec_fn(A) -> CommandView) -> Seq<
    CommandView,
> {
    match said {
        Some(v) => s.push(command(v)),
        None => s,
    }
}

/// A size that the engine is told.
#[derive(Debug, Clone, Copy)]
pub enum CacheSize {
    MaxEntries,
    MaxBytes,
    InitialCapacity,
    MaxCapacity,
    MinFilterSize,
    MaintenanceWork,
}

/// What the engine is told of a size.
pub open spec fn size_command(kind: CacheSize, v: usize) -> CommandView {
    match kind {
        CacheSize::MaxEntries => CommandView::CacheMaxEntries(v),
        CacheSize::MaxBytes => CommandView::CacheMaxBytes(v),
        CacheSize::InitialCapacity => CommandView::CacheInitialCapacity(v),
        CacheSize::MaxCapacity => CommandView::CacheMaxCapacity(v),
        CacheSize::MinFilterSize => CommandView::CacheMinFilterSize(v),
        CacheSize::MaintenanceWork => CommandView::MaxMaintenanceWork(v),
    }
}

/// What a change to the cache tells the engine, behind `s`.
pub open spec fn cache_commands(s: Seq<CommandView>, patch: CachePatch) -> Seq<CommandView> {
    let s = telling(s, patch.max_entries, |v: usize| size_command(CacheSize::MaxEntries, v));
    let s = telling(s, patch.max_bytes, |v: usize| size_command(CacheSize::MaxBytes, v));
    let s = telling(s, patch.initial_capacity, |v: usize| size_command(CacheSize::InitialCapacity, v));
    let s = telling(s, patch.max_capacity, |v: usize| size_command(CacheSize::MaxCapacity, v));
    let s = telling(s, patch.min_filter_size, |v: usize| size_command(CacheSize::MinFilterSize, v));
    let s = telling(s, patch.max_maintenance_work, |v: usize| size_command(CacheSize::MaintenanceWork, v));
    let s = telling(s, patch.max_maintenance_ms, |v: u64| CommandView::MaxMaintenanceMs(v));
    let s = telling(s, patch.compound_eval_atom_limit, |v: u32| CommandView::CompoundEvalAtomLimit(v));
    telling(s, patch.bucket_entry_ttl_secs, |v: u64| CommandView::BucketEntryTtlSecs(v))
}

fn tell(commands: &mut Vec<PatchCommand>, command: PatchCommand)
    ensures
        command_views(final(commands)@) == command_views(old(commands)@).push(command@),
{
    let ghost before = commands@;
    commands.push(command);
    assert(command_views(commands@) =~= command_views(before).push(command@));
}

fn pick<A: Copy>(said: Option<A>, there: A) -> (r: A)
    ensures
        r == or_else(said, there),
{
    match said {
        Some(v) => v,
        None => there,
    }
}

fn tell_size(commands: &mut Vec<PatchCommand>, said: Option<usize>, kind: CacheSize)
    ensures
        command_views(final(commands)@) == telling(
            command_views(old(commands)@),
            said,
            |v: usize| size_command(kind, v),
        ),
{
    if let Some(v) = said {
        let command = match kind {
            CacheSize::MaxEntries => PatchCommand::CacheMaxEntries(v),
            CacheSize::MaxBytes => PatchCommand::CacheMaxBytes(v),
            CacheSize::InitialCapacity => PatchCommand::CacheInitialCapacity(v),
            CacheSize::MaxCapacity => PatchCommand::CacheMaxCapacity(v),
            CacheSize::MinFilterSize => PatchCommand::CacheMinFilterSize(v),
            CacheSize::MaintenanceWork => PatchCommand::MaxMaintenanceWork(v),
        };
        tell(commands, command);
    }
}

/// Changes the configuration of the cache, and tells the engine.
pub fn patch_cache(cache: &mut CacheConfig, patch: &CachePatch, commands: &mut Vec<PatchCommand>)
    ensures
        *final(cache) == patched_cache(*old(cache), *patch),
        command_views(final(commands)@) == cache_commands(command_views(old(commands)@), *patch),
{
    tell_size(commands, patch.max_entries, CacheSize::MaxEntries);
    tell_size(commands, patch.max_bytes, CacheSize::MaxBytes);
    tell_size(commands, patch.initial_capacity, CacheSize::InitialCapacity);
    tell_size(commands, patch.max_capacity, CacheSize::MaxCapacity);
    tell_size(commands, patch.min_filter_size, CacheSize::MinFilterSize);
    tell_size(commands, patch.max_maintenance_work, CacheSize::MaintenanceWork);
    if let Some(v) = patch.max_maintenance_ms {
        tell(commands, PatchCommand::MaxMaintenanceMs(v));
    }
    if let Some(v) = patch.compound_eval_atom_limit {
        tell(commands, PatchCommand::CompoundEvalAtomLimit(v));
    }
    if let Some(v) = patch.bucket_entry_ttl_secs {
        tell(commands, PatchCommand::BucketEntryTtlSecs(v));
    }
    *cache = CacheConfig {
        max_entries: pick(patch.max_entries, cache.max_entries),
        max_bytes: pick(patch.max_bytes, cache.max_bytes),
        initial_capacity: pick(patch.initial_capacity, cache.initial_capacity),
        max_capacity: pick(patch.max_capacity, cache.max_capacity),
        min_filter_size: pick(patch.min_filter_size, cache.min_filter_size),
        decay_rate: pick(patch.decay_rate, cache.decay_rate),
        bound_target_size: pick(patch.bound_target_size, cache.bound_target_size),
        bound_max_size: pick(patch.bound_max_size, cache.bound_max_size),
        bound_max_count: pick(patch.bound_max_count, cache.bound_max_count),
        prefetch_threshold: pick(patch.prefetch_threshold, cache.prefetch_threshold),
        preload_bounds: cache.preload_bounds,
        max_maintenance_work: pick(patch.max_maintenance_work, cache.max_maintenance_work),
        max_maintenance_ms: pick(patch.max_maintenance_ms, cache.max_maintenance_ms),
        async_maintenance: pick(patch.async_maintenance, cache.async_maintenance),
        compound_eval_atom_limit: pick(patch.compound_eval_atom_limit, cache.compound_eval_atom_limit),
        bucket_entry_ttl_secs: pick(patch.bucket_entry_ttl_secs, cache.bucket_entry_ttl_secs),
    };
}

/// What is wrong with a change to a bucket, where the engine knows the buckets `known`.
pub open spec fn bucket_problem(patch: RangePatch, known: Seq<Seq<char>>) -> Option<Seq<char>> {
    match patch.refresh_interval_secs {
        None => None,
        Some(interval) => if interval == 0 {
            Some("time_buckets bucket '"@ + patch.name@ + "': refresh_interval_secs must be > 0"@)
        } else if !known.contains(patch.name@) {
            Some("Unknown time bucket: '"@ + patch.name@ + "'"@)
        } else {
            None
        },
    }
}

/// The first change to a bucket, from position `n` on, with which something is wrong, and what.
pub open spec fn bucket_stop(patches: Seq<RangePatch>, known: Seq<Seq<char>>, n: int) -> Option<(int, Seq<char>)>
    decreases patches.len() - n,
{
    if n >= patches.len() {
        None
    } else {
        match bucket_problem(patches[n], known) {
            Some(p) => Some((n, p)),
            None => bucket_stop(patches, known, n + 1),
        }
    }
}

/// The first bucket of a name, from position `n` on.
pub open spec fn bucket_position(buckets: Seq<RangeBucketConfig>, name: Seq<char>, n: int) -> Option<int>
    decreases buckets.len() - n,
{
    if n >= buckets.len() {
        None
    } else if buckets[n].name@ == name {
        Some(n)
    } else {
        bucket_position(buckets, name, n + 1)
    }
}

/// The buckets with one change made to them.
pub open spec fn patched_bucket(buckets: Seq<RangeBucketConfig>, patch: RangePatch) -> Seq<RangeBucketConfig> {
    match (patch.refresh_interval_secs, bucket_position(buckets, patch.name@, 0)) {
        (Some(interval), Some(i)) => buckets.update(
            i,
            RangeBucketConfig { refresh_interval_secs: interval, ..buckets[i] },
        ),
        _ => buckets,
    }
}

/// The buckets with the first `n` changes made to them.
pub open spec fn patched_buckets(
    buckets: Seq<RangeBucketConfig>,
    patches: Seq<RangePatch>,
    n: int,
) -> Seq<RangeBucketConfig>
    decreases n,
{
    if n <= 0 {
        buckets
    } else {
        patched_bucket(patched_buckets(buckets, patches, n - 1), patches[n - 1])
    }
}

/// What the first `n` changes to buckets tell the engine, behind `s`.
pub open spec fn bucket_commands(s: Seq<CommandView>, patches: Seq<RangePatch>, n: int) -> Seq<CommandView>
    decreases n,
{
    if n <= 0 {
        s
    } else {
        let before = bucket_commands(s, patches, n - 1);
        match patches[n - 1].refresh_interval_secs {
            Some(interval) => before.push(CommandView::TimeBucketRefresh(patches[n - 1].name@, interval)),
            None => before,
        }
    }
}

/// The buckets, or none.
pub open spec fn bucket_seq(buckets: Option<Vec<RangeBucketConfig>>) -> Option<Seq<RangeBucketConfig>> {
    match buckets {
        Some(list) => Some(list@),
        None => None,
    }
}

/// The buckets, where there are any, with the first `n` changes made to them.
pub open spec fn patched_bucket_seq(
    buckets: Option<Vec<RangeBucketConfig>>,
    patches: Seq<RangePatch>,
    n: int,
) -> Option<Seq<RangeBucketConfig>> {
    match buckets {
        Some(list) => Some(patched_buckets(list@, patches, n)),
        None => None,
    }
}

fn set_interval(buckets: &mut Vec<RangeBucketConfig>, patch: &RangePatch)
    ensures
        final(buckets)@ == patched_bucket(old(buckets)@, *patch),
{
    let ghost before = buckets@;
    if let Some(interval) = patch.refresh_interval_secs {
        let mut i: usize = 0;
        while i < buckets.len()
            invariant
                i <= buckets@.len(),
                before == old(buckets)@,
                buckets@ == before,
                patch.refresh_interval_secs == Some(interval),
                bucket_position(before, patch.name@, 0) == bucket_position(before, patch.name@, i as int),
            decreases buckets@.len() - i,
        {
            if text_eq(buckets[i].name.as_str(), patch.name.as_str()) {
                buckets[i].refresh_interval_secs = interval;
                assert(buckets@ =~= patched_bucket(before, *patch));
                return ;
            }
            i = i + 1;
        }
    }
}

/// Changes the buckets up to the first change with which something is wrong, and tells the engine.
pub fn patch_buckets(
    buckets: &mut Option<Vec<RangeBucketConfig>>,
    patches: &Vec<RangePatch>,
    known: &Vec<String>,
    commands: &mut Vec<PatchCommand>,
) -> (r: Option<String>)
    ensures
        ({
            let stop = bucket_stop(patches@, views(known@), 0);
            let n = match stop {
                Some((k, _)) => k,
                None => patches@.len() as int,
            };
            &&& bucket_seq(*final(buckets)) == patched_bucket_seq(*old(buckets), patches@, n)
            &&& command_views(final(commands)@) == bucket_commands(command_views(old(commands)@), patches@, n)
            &&& match stop {
                Some((_, p)) => r matches Some(text) && text@ == p,
                None => r is None,
            }
        }),
{
    let ghost start = *buckets;
    let ghost told = command_views(commands@);
    let mut n: usize = 0;
    while n < patches.len()
        invariant
            n <= patches@.len(),
            start == *old(buckets),
            told == command_views(old(commands)@),
            bucket_seq(*buckets) == patched_bucket_seq(start, patches@, n as int),
            command_views(commands@) == bucket_commands(told, patches@, n as int),
            bucket_stop(patches@, views(known@), 0) == bucket_stop(patches@, views(known@), n as int),
        decreases patches@.len() - n,
    {
        let patch = &patches[n];
        if let Some(interval) = patch.refresh_interval_secs {
            if interval == 0 {
                return Some(
                    "time_buckets bucket '".to_owned().concat(patch.name.as_str()).concat(
                        "': refresh_interval_secs must be > 0",
                    ),
                );
            }
            if !contains_text(known, patch.name.as_str()) {
                return Some("Unknown time bucket: '".to_owned().concat(patch.name.as_str()).concat("'"));
            }
            tell(commands, PatchCommand::TimeBucketRefresh(patch.name.clone(), interval));
            if let Some(list) = buckets {
                set_interval(list, patch);
            }
        } else {
            assert(patched_bucket_seq(start, patches@, n + 1) == patched_bucket_seq(start, patches@, n as int));
        }
        n = n + 1;
    }
    None
}

/// What a change tells the service before the limit on prefilters is looked at, behind `s`.
pub open spec fn first_settings(s: Seq<CommandView>, patch: ConfigPatch) -> Seq<CommandView> {
    let s = telling(s, patch.max_query_concurrency, |v: u32| CommandView::MaxQueryConcurrency(v));
    let s = telling(s, patch.query_tee_mode, |v: bool| CommandView::QueryTeeMode(v));
    let s = telling(s, patch.par_iter_min_threshold, |v: usize| CommandView::ParIterMinThreshold(v));
    let s = telling(s, patch.bitmap_compact_threshold, |v: u32| CommandView::BitmapCompactThreshold(v));
    let s = telling(
        s,
        patch.time_bucket_full_rebuild_interval_secs,
        |v: u64| CommandView::TimeBucketFullRebuildInterval(v),
    );
    let s = telling(s, patch.deferred_sweep_interval_secs, |v: u64| CommandView::DeferredSweepInterval(v));
    telling(s, patch.deferred_sweep_limit, |v: usize| CommandView::DeferredSweepLimit(v))
}

/// What a change tells the service after that and before the size of the trace buffer is looked at,
/// behind `s`.
pub open spec fn second_settings(s: Seq<CommandView>, patch: ConfigPatch) -> Seq<CommandView> {
    let s = telling(s, patch.max_registered_prefilters, |v: usize| CommandView::MaxRegisteredPrefilters(v));
    let s = telling(s, patch.enable_traces, |v: bool| CommandView::EnableTraces(v));
    telling(s, patch.trace_min_us, |v: u64| CommandView::TraceMinUs(v))
}

/// The groups of metrics that a change sets.
pub open spec fn patched_groups(patch: ConfigPatch) -> Option<MetricGroups> {
    match patch.disabled_metrics {
        Some(listed) => Some(groups_of(views(listed@), false)),
        None => match patch.enabled_metrics {
            Some(listed) => Some(groups_of(views(listed@), true)),
            None => None,
        },
    }
}

/// What a change tells the service at last, behind `s`.
pub open spec fn last_settings(s: Seq<CommandView>, patch: ConfigPatch) -> Seq<CommandView> {
    let s = telling(s, patch.trace_buffer_size, |v: usize| CommandView::TraceBufferSize(v));
    telling(s, patched_groups(patch), |v: MetricGroups| CommandView::Groups(v))
}

/// What is wrong with the limit on prefilters.
pub open spec fn prefilter_problem(patch: ConfigPatch) -> Option<Seq<char>> {
    match patch.max_registered_prefilters {
        Some(v) if v > MAX_REGISTERED_PREFILTERS => Some(
            "max_registered_prefilters must be 0-"@ + dec(MAX_REGISTERED_PREFILTERS as nat) + " (got "@ + dec(
                v as nat,
            ) + ")"@,
        ),
        _ => None,
    }
}

/// What is wrong with the size of the trace buffer.
pub open spec fn trace_problem(patch: ConfigPatch) -> Option<Seq<char>> {
    if patch.trace_buffer_size == Some(0usize) {
        Some("trace_buffer_size must be > 0"@)
    } else {
        None
    }
}

fn tell_first(commands: &mut Vec<PatchCommand>, patch: &ConfigPatch)
    ensures
        command_views(final(commands)@) == first_settings(command_views(old(commands)@), *patch),
{
    if let Some(v) = patch.max_query_concurrency {
        tell(commands, PatchCommand::MaxQueryConcurrency(v));
    }
    if let Some(v) = patch.query_tee_mode {
        tell(commands, PatchCommand::QueryTeeMode(v));
    }
    if let Some(v) = patch.par_iter_min_threshold {
        tell(commands, PatchCommand::ParIterMinThreshold(v));
    }
    if let Some(v) = patch.bitmap_compact_threshold {
        tell(commands, PatchCommand::BitmapCompactThreshold(v));
    }
    if let Some(v) = patch.time_bucket_full_rebuild_interval_secs {
        tell(commands, PatchCommand::TimeBucketFullRebuildInterval(v));
    }
    if let Some(v) = patch.deferred_sweep_interval_secs {
        tell(commands, PatchCommand::DeferredSweepInterval(v));
    }
    if let Some(v) = patch.deferred_sweep_limit {
        tell(commands, PatchCommand::DeferredSweepLimit(v));
    }
}

fn tell_second(commands: &mut Vec<PatchCommand>, patch: &ConfigPatch)
    ensures
        command_views(final(commands)@) == second_settings(command_views(old(commands)@), *patch),
{
    if let Some(v) = patch.max_registered_prefilters {
        tell(commands, PatchCommand::MaxRegisteredPrefilters(v));
    }
    if let Some(v) = patch.enable_traces {
        tell(commands, PatchCommand::EnableTraces(v));
    }
    if let Some(v) = patch.trace_min_us {
        tell(commands, PatchCommand::TraceMinUs(v));
    }
}

fn tell_last(commands: &mut Vec<PatchCommand>, patch: &ConfigPatch)
    ensures
        command_views(final(commands)@) == last_settings(command_views(old(commands)@), *patch),
{
    if let Some(v) = patch.trace_buffer_size {
        tell(commands, PatchCommand::TraceBufferSize(v));
    }
    match &patch.disabled_metrics {
        Some(listed) => tell(commands, PatchCommand::Groups(metric_groups(listed, false))),
        None => match &patch.enabled_metrics {
            Some(listed) => tell(commands, PatchCommand::Groups(metric_groups(listed, true))),
            None => {},
        },
    }
}

/// Texts that may be absent, as mathematical values.
pub open spec fn opt_texts(texts: Option<Vec<String>>) -> Option<Seq<Seq<char>>> {
    match texts {
        Some(list) => Some(views(list@)),
        None => None,
    }
}

/// How far a change goes.
pub enum PatchStop {
    /// Nothing is begun.
    AtOnce,
    /// It ends at a change to a bucket.
    AtBucket(int),
    /// It ends at the limit on prefilters.
    AtPrefilters,
    /// It ends at the size of the trace buffer.
    AtTraces,
    /// It goes all the way.
    Nowhere,
}

/// Where a change ends, and what is wrong there.
pub open spec fn patch_stop(patch: ConfigPatch, config: Config, known: Seq<Seq<char>>) -> (PatchStop, Option<
    RefusalView,
>) {
    match early_problem(patch, config) {
        Some(p) => (PatchStop::AtOnce, Some(bad_request(p))),
        None => match (match patch.range_buckets {
            Some(patches) => bucket_stop(patches@, known, 0),
            None => None,
        }) {
            Some((n, p)) => (PatchStop::AtBucket(n), Some(bad_request(p))),
            None => match prefilter_problem(patch) {
                Some(p) => (PatchStop::AtPrefilters, Some(bad_request(p))),
                None => match trace_problem(patch) {
                    Some(p) => (PatchStop::AtTraces, Some(bad_request(p))),
                    None => (PatchStop::Nowhere, None),
                },
            },
        },
    }
}

/// What a change tells the engine and the service, up to where it ends.
pub open spec fn patch_commands(patch: ConfigPatch, stop: PatchStop) -> Seq<CommandView> {
    let none = Seq::<CommandView>::empty();
    let cache = match patch.cache {
        Some(c) => cache_commands(none, c),
        None => none,
    };
    let n = match (stop, patch.range_buckets) {
        (PatchStop::AtBucket(k), _) => k,
        (_, Some(patches)) => patches@.len() as int,
        (_, None) => 0,
    };
    let buckets = match patch.range_buckets {
        Some(patches) => bucket_commands(cache, patches@, n),
        None => cache,
    };
    let first = first_settings(buckets, patch);
    let second = second_settings(first, patch);
    match stop {
        PatchStop::AtOnce => none,
        PatchStop::AtBucket(_) => buckets,
        PatchStop::AtPrefilters => first,
        PatchStop::AtTraces => second,
        PatchStop::Nowhere => last_settings(second, patch),
    }
}

/// The limit on prefilters and the lists of metrics with a change made to them, up to where it ends.
pub open spec fn late_fields_patched(before: Config, after: Config, patch: ConfigPatch, stop: PatchStop) -> bool {
    let reached = stop is AtTraces || stop is Nowhere;
    &&& after.max_registered_prefilters == (if reached {
        or_else(patch.max_registered_prefilters, before.max_registered_prefilters)
    } else {
        before.max_registered_prefilters
    })
    &&& opt_texts(after.disabled_metrics) == (if stop is Nowhere && patch.disabled_metrics is Some {
        opt_texts(patch.disabled_metrics)
    } else {
        opt_texts(before.disabled_metrics)
    })
    &&& opt_texts(after.enabled_metrics) == (if stop is Nowhere && patch.disabled_metrics is Some {
        None
    } else if stop is Nowhere && patch.enabled_metrics is Some {
        opt_texts(patch.enabled_metrics)
    } else {
        opt_texts(before.enabled_metrics)
    })
}

/// The buckets, the fields and the cache with a change made to them, up to where it ends.
pub open spec fn early_fields_patched(before: Config, after: Config, patch: ConfigPatch, stop: PatchStop) -> bool {
    let filters = field_patches(patch.filter_fields);
    let sorts = field_patches(patch.sort_fields);
    &&& after.filter_fields@ == patched_filters(before.filter_fields@, filters)
    &&& after.sort_fields@ == patched_sorts(before.sort_fields@, sorts)
    &&& after.cache == (match patch.cache {
        Some(c) => patched_cache(before.cache, c),
        None => before.cache,
    })
    &&& bucket_seq(after.range_buckets) == (match patch.range_buckets {
        Some(patches) => patched_bucket_seq(
            before.range_buckets,
            patches@,
            match stop {
                PatchStop::AtBucket(k) => k,
                _ => patches@.len() as int,
            },
        ),
        None => bucket_seq(before.range_buckets),
    })
}

/// Whether `after` is `before` but for what a change can touch.
pub open spec fn untouched_but(before: Config, after: Config) -> bool {
    after == (Config {
        cache: after.cache,
        filter_fields: after.filter_fields,
        sort_fields: after.sort_fields,
        range_buckets: after.range_buckets,
        max_registered_prefilters: after.max_registered_prefilters,
        disabled_metrics: after.disabled_metrics,
        enabled_metrics: after.enabled_metrics,
        ..before
    })
}

/// What came of a change.
#[derive(Debug)]
pub struct PatchResult {
    /// What the engine and the service are told, in this order, also where the change was refused.
    pub commands: Vec<PatchCommand>,
    /// The filter fields that are now loaded at once.
    pub new_eager_filters: Vec<String>,
    /// The sort fields that are now loaded at once.
    pub new_eager_sorts: Vec<String>,
    pub refusal: Option<Refusal>,
}

fn stopped(result: PatchResult, problem: String) -> (r: PatchResult)
    ensures
        r.commands == result.commands,
        r.new_eager_filters == result.new_eager_filters,
        r.new_eager_sorts == result.new_eager_sorts,
        r.refusal matches Some(e) && e@ == bad_request(problem@),
{
    PatchResult { refusal: Some(Refusal { status: 400, error: problem }), ..result }
}

/// Changes a configuration. A change that is refused in the middle leaves what was changed before.
pub fn apply_patch(config: &mut Config, patch: &ConfigPatch, known_buckets: &Vec<String>) -> (r: PatchResult)
    ensures
        ({
            let (stop, refusal) = patch_stop(*patch, *old(config), views(known_buckets@));
            &&& command_views(r.commands@) == patch_commands(*patch, stop)
            &&& match refusal {
                Some(p) => r.refusal matches Some(e) && e@ == p,
                None => r.refusal is None,
            }
            &&& stop is AtOnce ==> *final(config) == *old(config) && r.new_eager_filters@.len() == 0
                && r.new_eager_sorts@.len() == 0
            &&& stop !is AtOnce ==> {
                &&& untouched_but(*old(config), *final(config))
                &&& early_fields_patched(*old(config), *final(config), *patch, stop)
                &&& late_fields_patched(*old(config), *final(config), *patch, stop)
                &&& views(r.new_eager_filters@) == new_eager_filters(
                    old(config).filter_fields@,
                    field_patches(patch.filter_fields),
                    old(config).filter_fields@.len() as int,
                )
                &&& views(r.new_eager_sorts@) == new_eager_sorts(
                    old(config).sort_fields@,
                    field_patches(patch.sort_fields),
                    old(config).sort_fields@.len() as int,
                )
            }
        }),
{
    let mut commands: Vec<PatchCommand> = Vec::new();
    assert(command_views(commands@) =~= Seq::<CommandView>::empty());
    if let Some(problem) = check_patch(patch, config) {
        let result = PatchResult {
            commands,
            new_eager_filters: Vec::new(),
            new_eager_sorts: Vec::new(),
            refusal: None,
        };
        return stopped(result, problem);
    }
    let filters = patch_filters(&mut config.filter_fields, &patch.filter_fields);
    let sorts = patch_sorts(&mut config.sort_fields, &patch.sort_fields);
    if let Some(cache) = &patch.cache {
        patch_cache(&mut config.cache, cache, &mut commands);
    }
    if let Some(patches) = &patch.range_buckets {
        if let Some(problem) = patch_buckets(&mut config.range_buckets, patches, known_buckets, &mut commands) {
            let result = PatchResult {
                commands,
                new_eager_filters: filters,
                new_eager_sorts: sorts,
                refusal: None,
            };
            return stopped(result, problem);
        }
    }
    tell_first(&mut commands, patch);
    if let Some(v) = patch.max_registered_prefilters {
        if v > MAX_REGISTERED_PREFILTERS {
            let most = decimal(MAX_REGISTERED_PREFILTERS as u64);
            let got = decimal(v as u64);
            let problem = "max_registered_prefilters must be 0-".to_owned().concat(most.as_str()).concat(
                " (got ",
            ).concat(got.as_str()).concat(")");
            let result = PatchResult {
                commands,
                new_eager_filters: filters,
                new_eager_sorts: sorts,
                refusal: None,
            };
            return stopped(result, problem);
        }
        config.max_registered_prefilters = v;
    }
    tell_second(&mut commands, patch);
    if let Some(v) = patch.trace_buffer_size {
        if v == 0 {
            let result = PatchResult {
                commands,
                new_eager_filters: filters,
                new_eager_sorts: sorts,
                refusal: None,
            };
            return stopped(result, "trace_buffer_size must be > 0".to_owned());
        }
    }
    tell_last(&mut commands, patch);
    match &patch.disabled_metrics {
        Some(listed) => {
            config.disabled_metrics = Some(clone_texts(listed));
            config.enabled_metrics = None;
        },
        None => match &patch.enabled_metrics {
            Some(listed) => {
                config.enabled_metrics = Some(clone_texts(listed));
            },
            None => {},
        },
    }
    PatchResult { commands, new_eager_filters: filters, new_eager_sorts: sorts, refusal: None }
}

/// A list of groups to turn off counts whatever list of groups to turn on stands beside it, and
/// without either list every group is on.
pub proof fn law_groups_turned_off_come_first(
    disabled: Vec<String>,
    enabled: Option<Vec<String>>,
    patch: ConfigPatch,
)
    requires
        patch.disabled_metrics == Some(disabled),
    ensures
        configured_groups(Some(disabled), enabled) == groups_of(views(disabled@), false),
        patched_groups(patch) == Some(groups_of(views(disabled@), false)),
        configured_groups(None, None) == (MetricGroups {
            bitmap_memory: true,
            eviction_stats: true,
            boundstore_disk: true,
        }),
{
}

/// A change that says nothing changes nothing and tells nothing.
pub proof fn law_empty_patches_change_nothing(patch: ConfigPatch, config: Config, known: Seq<Seq<char>>)
    requires
        patch.filter_fields is None,
        patch.sort_fields is None,
        patch.cache is None,
        patch.range_buckets is None,
        patch.max_query_concurrency is None,
        patch.enable_traces is None,
        patch.trace_min_us is None,
        patch.trace_buffer_size is None,
        patch.enabled_metrics is None,
        patch.disabled_metrics is None,
        patch.query_tee_mode is None,
        patch.par_iter_min_threshold is None,
        patch.bitmap_compact_threshold is None,
        patch.max_registered_prefilters is None,
        patch.time_bucket_full_rebuild_interval_secs is None,
        patch.deferred_sweep_interval_secs is None,
        patch.deferred_sweep_limit is None,
    ensures
        patch_stop(patch, config, known).0 is Nowhere,
        patch_commands(patch, PatchStop::Nowhere) == Seq::<CommandView>::empty(),
        patched_filters(config.filter_fields@, field_patches(patch.filter_fields)) == config.filter_fields@,
        patched_sorts(config.sort_fields@, field_patches(patch.sort_fields)) == config.sort_fields@,
{
    assert(patched_filters(config.filter_fields@, field_patches(patch.filter_fields)) =~= config.filter_fields@);
    assert(patched_sorts(config.sort_fields@, field_patches(patch.sort_fields)) =~= config.sort_fields@);
}

/// A change to the cache that says nothing.
pub open spec fn silent_cache() -> CachePatch {
    CachePatch {
        max_entries: None,
        max_bytes: None,
        initial_capacity: None,
        max_capacity: None,
        min_filter_size: None,
        decay_rate: None,
        bound_target_size: None,
        bound_max_size: None,
        bound_max_count: None,
        prefetch_threshold: None,
        max_maintenance_work: None,
        max_maintenance_ms: None,
        async_maintenance: None,
        compound_eval_atom_limit: None,
        bucket_entry_ttl_secs: None,
    }
}

/// A change that says nothing.
pub open spec fn silent_patch() -> ConfigPatch {
    ConfigPatch {
        filter_fields: None,
        sort_fields: None,
        cache: None,
        range_buckets: None,
        max_query_concurrency: None,
        enable_traces: None,
        trace_min_us: None,
        trace_buffer_size: None,
        enabled_metrics: None,
        disabled_metrics: None,
        query_tee_mode: None,
        par_iter_min_threshold: None,
        bitmap_compact_threshold: None,
        max_registered_prefilters: None,
        time_bucket_full_rebuild_interval_secs: None,
        deferred_sweep_interval_secs: None,
        deferred_sweep_limit: None,
    }
}

/// What a change tells that says `said` of the cache and nothing else.
pub open spec fn told_of_cache(said: CachePatch) -> Seq<CommandView> {
    patch_commands(ConfigPatch { cache: Some(said), ..silent_patch() }, PatchStop::Nowhere)
}

/// A change that says one thing of the cache tells the engine that thing and nothing else: each size,
/// each limit and each time is told as what it is. What the engine reads from the configuration is
/// not told.
pub proof fn law_each_cache_setting_is_told_as_itself(n: usize, m: u64, k: u32, b: bool, d: Double)
    ensures
        told_of_cache((CachePatch { max_entries: Some(n), ..silent_cache() })) == seq![CommandView::CacheMaxEntries(n)],
        told_of_cache((CachePatch { max_bytes: Some(n), ..silent_cache() })) == seq![CommandView::CacheMaxBytes(n)],
        told_of_cache((CachePatch { initial_capacity: Some(n), ..silent_cache() })) == seq![CommandView::CacheInitialCapacity(n)],
        told_of_cache((CachePatch { max_capacity: Some(n), ..silent_cache() })) == seq![CommandView::CacheMaxCapacity(n)],
        told_of_cache((CachePatch { min_filter_size: Some(n), ..silent_cache() })) == seq![CommandView::CacheMinFilterSize(n)],
        told_of_cache((CachePatch { max_maintenance_work: Some(n), ..silent_cache() })) == seq![CommandView::MaxMaintenanceWork(n)],
        told_of_cache((CachePatch { max_maintenance_ms: Some(m), ..silent_cache() })) == seq![CommandView::MaxMaintenanceMs(m)],
        told_of_cache((CachePatch { compound_eval_atom_limit: Some(k), ..silent_cache() })) == seq![CommandView::CompoundEvalAtomLimit(k)],
        told_of_cache((CachePatch { bucket_entry_ttl_secs: Some(m), ..silent_cache() })) == seq![CommandView::BucketEntryTtlSecs(m)],
        told_of_cache((CachePatch { decay_rate: Some(d), ..silent_cache() })) == Seq::<CommandView>::empty(),
        told_of_cache((CachePatch { bound_target_size: Some(n), ..silent_cache() })) == Seq::<CommandView>::empty(),
        told_of_cache((CachePatch { bound_max_size: Some(n), ..silent_cache() })) == Seq::<CommandView>::empty(),
        told_of_cache((CachePatch { bound_max_count: Some(n), ..silent_cache() })) == Seq::<CommandView>::empty(),
        told_of_cache((CachePatch { prefetch_threshold: Some(d), ..silent_cache() })) == Seq::<CommandView>::empty(),
        told_of_cache((CachePatch { async_maintenance: Some(b), ..silent_cache() })) == Seq::<CommandView>::empty(),
{
    assert(told_of_cache((CachePatch { max_entries: Some(n), ..silent_cache() })) =~= seq![CommandView::CacheMaxEntries(n)]);
    assert(told_of_cache((CachePatch { max_bytes: Some(n), ..silent_cache() })) =~= seq![CommandView::CacheMaxBytes(n)]);
    assert(told_of_cache((CachePatch { initial_capacity: Some(n), ..silent_cache() })) =~= seq![CommandView::CacheInitialCapacity(n)]);
    assert(told_of_cache((CachePatch { max_capacity: Some(n), ..silent_cache() })) =~= seq![CommandView::CacheMaxCapacity(n)]);
    assert(told_of_cache((CachePatch { min_filter_size: Some(n), ..silent_cache() })) =~= seq![CommandView::CacheMinFilterSize(n)]);
    assert(told_of_cache((CachePatch { max_maintenance_work: Some(n), ..silent_cache() })) =~= seq![CommandView::MaxMaintenanceWork(n)]);
    assert(told_of_cache((CachePatch { max_maintenance_ms: Some(m), ..silent_cache() })) =~= seq![CommandView::MaxMaintenanceMs(m)]);
    assert(told_of_cache((CachePatch { compound_eval_atom_limit: Some(k), ..silent_cache() })) =~= seq![CommandView::CompoundEvalAtomLimit(k)]);
    assert(told_of_cache((CachePatch { bucket_entry_ttl_secs: Some(m), ..silent_cache() })) =~= seq![CommandView::BucketEntryTtlSecs(m)]);
}

/// A change that says one thing of the cache changes that thing and nothing else.
pub proof fn law_each_cache_setting_is_kept_as_itself(cache: CacheConfig, n: usize, m: u64, k: u32, b: bool, d: Double)
    ensures
        patched_cache(cache, (CachePatch { max_entries: Some(n), ..silent_cache() })) == (CacheConfig { max_entries: n, ..cache }),
        patched_cache(cache, (CachePatch { max_bytes: Some(n), ..silent_cache() })) == (CacheConfig { max_bytes: n, ..cache }),
        patched_cache(cache, (CachePatch { initial_capacity: Some(n), ..silent_cache() })) == (CacheConfig { initial_capacity: n, ..cache }),
        patched_cache(cache, (CachePatch { max_capacity: Some(n), ..silent_cache() })) == (CacheConfig { max_capacity: n, ..cache }),
        patched_cache(cache, (CachePatch { min_filter_size: Some(n), ..silent_cache() })) == (CacheConfig { min_filter_size: n, ..cache }),
        patched_cache(cache, (CachePatch { max_maintenance_work: Some(n), ..silent_cache() })) == (CacheConfig { max_maintenance_work: n, ..cache }),
        patched_cache(cache, (CachePatch { max_maintenance_ms: Some(m), ..silent_cache() })) == (CacheConfig { max_maintenance_ms: m, ..cache }),
        patched_cache(cache, (CachePatch { compound_eval_atom_limit: Some(k), ..silent_cache() })) == (CacheConfig { compound_eval_atom_limit: k, ..cache }),
        patched_cache(cache, (CachePatch { bucket_entry_ttl_secs: Some(m), ..silent_cache() })) == (CacheConfig { bucket_entry_ttl_secs: m, ..cache }),
        patched_cache(cache, (CachePatch { decay_rate: Some(d), ..silent_cache() })) == (CacheConfig { decay_rate: d, ..cache }),
        patched_cache(cache, (CachePatch { bound_target_size: Some(n), ..silent_cache() })) == (CacheConfig { bound_target_size: n, ..cache }),
        patched_cache(cache, (CachePatch { bound_max_size: Some(n), ..silent_cache() })) == (CacheConfig { bound_max_size: n, ..cache }),
        patched_cache(cache, (CachePatch { bound_max_count: Some(n), ..silent_cache() })) == (CacheConfig { bound_max_count: n, ..cache }),
        patched_cache(cache, (CachePatch { prefetch_threshold: Some(d), ..silent_cache() })) == (CacheConfig { prefetch_threshold: d, ..cache }),
        patched_cache(cache, (CachePatch { async_maintenance: Some(b), ..silent_cache() })) == (CacheConfig { async_maintenance: b, ..cache }),
        patched_cache(cache, silent_cache()) == cache,
{
}

proof fn lemma_telling_behind<A>(
    before: Seq<CommandView>,
    s: Seq<CommandView>,
    said: Option<A>,
    command: spec_fn(A) -> CommandView,
)
    ensures
        telling(before + s, said, command) == before + telling(s, said, command),
{
    if let Some(v) = said {
        assert((before + s).push(command(v)) =~= before + s.push(command(v)));
    }
}

proof fn lemma_cache_commands_behind(before: Seq<CommandView>, patch: CachePatch)
    ensures
        cache_commands(before, patch) == before + cache_commands(Seq::empty(), patch),
{
    let s = Seq::<CommandView>::empty();
    assert(before + s =~= before);
    lemma_telling_behind(before, s, patch.max_entries, |v: usize| size_command(CacheSize::MaxEntries, v));
    let s = telling(s, patch.max_entries, |v: usize| size_command(CacheSize::MaxEntries, v));
    lemma_telling_behind(before, s, patch.max_bytes, |v: usize| size_command(CacheSize::MaxBytes, v));
    let s = telling(s, patch.max_bytes, |v: usize| size_command(CacheSize::MaxBytes, v));
    lemma_telling_behind(before, s, patch.initial_capacity, |v: usize| size_command(CacheSize::InitialCapacity, v));
    let s = telling(s, patch.initial_capacity, |v: usize| size_command(CacheSize::InitialCapacity, v));
    lemma_telling_behind(before, s, patch.max_capacity, |v: usize| size_command(CacheSize::MaxCapacity, v));
    let s = telling(s, patch.max_capacity, |v: usize| size_command(CacheSize::MaxCapacity, v));
    lemma_telling_behind(before, s, patch.min_filter_size, |v: usize| size_command(CacheSize::MinFilterSize, v));
    let s = telling(s, patch.min_filter_size, |v: usize| size_command(CacheSize::MinFilterSize, v));
    lemma_telling_behind(before, s, patch.max_maintenance_work, |v: usize| size_command(CacheSize::MaintenanceWork, v));
    let s = telling(s, patch.max_maintenance_work, |v: usize| size_command(CacheSize::MaintenanceWork, v));
    lemma_telling_behind(before, s, patch.max_maintenance_ms, |v: u64| CommandView::MaxMaintenanceMs(v));
    let s = telling(s, patch.max_maintenance_ms, |v: u64| CommandView::MaxMaintenanceMs(v));
    lemma_telling_behind(before, s, patch.compound_eval_atom_limit, |v: u32| CommandView::CompoundEvalAtomLimit(v));
    let s = telling(s, patch.compound_eval_atom_limit, |v: u32| CommandView::CompoundEvalAtomLimit(v));
    lemma_telling_behind(before, s, patch.bucket_entry_ttl_secs, |v: u64| CommandView::BucketEntryTtlSecs(v));
    let s = telling(s, patch.bucket_entry_ttl_secs, |v: u64| CommandView::BucketEntryTtlSecs(v));
}

/// What a change says of the cache is told in one order, and behind what was told before.
pub proof fn law_cache_settings_are_told_in_order(
    before: Seq<CommandView>,
    patch: CachePatch,
    a1: usize,
    a2: usize,
    a3: usize,
    a4: usize,
    a5: usize,
    a6: usize,
    m1: u64,
    k: u32,
    m2: u64,
)
    ensures
        cache_commands(before, patch) == before + cache_commands(Seq::empty(), patch),
        told_of_cache(
            (CachePatch {
                max_entries: Some(a1),
                max_bytes: Some(a2),
                initial_capacity: Some(a3),
                max_capacity: Some(a4),
                min_filter_size: Some(a5),
                max_maintenance_work: Some(a6),
                max_maintenance_ms: Some(m1),
                compound_eval_atom_limit: Some(k),
                bucket_entry_ttl_secs: Some(m2),
                ..silent_cache()
            }),
        ) == seq![
            CommandView::CacheMaxEntries(a1),
            CommandView::CacheMaxBytes(a2),
            CommandView::CacheInitialCapacity(a3),
            CommandView::CacheMaxCapacity(a4),
            CommandView::CacheMinFilterSize(a5),
            CommandView::MaxMaintenanceWork(a6),
            CommandView::MaxMaintenanceMs(m1),
            CommandView::CompoundEvalAtomLimit(k),
            CommandView::BucketEntryTtlSecs(m2),
        ],
{
    lemma_cache_commands_behind(before, patch);
    assert(told_of_cache(
        (CachePatch {
            max_entries: Some(a1),
            max_bytes: Some(a2),
            initial_capacity: Some(a3),
            max_capacity: Some(a4),
            min_filter_size: Some(a5),
            max_maintenance_work: Some(a6),
            max_maintenance_ms: Some(m1),
            compound_eval_atom_limit: Some(k),
            bucket_entry_ttl_secs: Some(m2),
            ..silent_cache()
        }),
    ) =~= seq![
        CommandView::CacheMaxEntries(a1),
        CommandView::CacheMaxBytes(a2),
        CommandView::CacheInitialCapacity(a3),
        CommandView::CacheMaxCapacity(a4),
        CommandView::CacheMinFilterSize(a5),
        CommandView::MaxMaintenanceWork(a6),
        CommandView::MaxMaintenanceMs(m1),
        CommandView::CompoundEvalAtomLimit(k),
        CommandView::BucketEntryTtlSecs(m2),
    ]);
}

/// A change that says one thing of the service tells the service that thing and nothing else.
pub proof fn law_each_setting_is_told_as_itself(n: usize, m: u64, k: u32, b: bool)
    ensures
        patch_commands((ConfigPatch { max_query_concurrency: Some(k), ..silent_patch() }), PatchStop::Nowhere) == seq![
            CommandView::MaxQueryConcurrency(k),
        ],
        patch_commands((ConfigPatch { query_tee_mode: Some(b), ..silent_patch() }), PatchStop::Nowhere) == seq![
            CommandView::QueryTeeMode(b),
        ],
        patch_commands((ConfigPatch { par_iter_min_threshold: Some(n), ..silent_patch() }), PatchStop::Nowhere) == seq![
            CommandView::ParIterMinThreshold(n),
        ],
        patch_commands((ConfigPatch { bitmap_compact_threshold: Some(k), ..silent_patch() }), PatchStop::Nowhere) == seq![
            CommandView::BitmapCompactThreshold(k),
        ],
        patch_commands((ConfigPatch { time_bucket_full_rebuild_interval_secs: Some(m), ..silent_patch() }), PatchStop::Nowhere) == seq![
            CommandView::TimeBucketFullRebuildInterval(m),
        ],
        patch_commands((ConfigPatch { deferred_sweep_interval_secs: Some(m), ..silent_patch() }), PatchStop::Nowhere) == seq![
            CommandView::DeferredSweepInterval(m),
        ],
        patch_commands((ConfigPatch { deferred_sweep_limit: Some(n), ..silent_patch() }), PatchStop::Nowhere) == seq![
            CommandView::DeferredSweepLimit(n),
        ],
        patch_commands((ConfigPatch { max_registered_prefilters: Some(n), ..silent_patch() }), PatchStop::Nowhere) == seq![
            CommandView::MaxRegisteredPrefilters(n),
        ],
        patch_commands((ConfigPatch { enable_traces: Some(b), ..silent_patch() }), PatchStop::Nowhere) == seq![
            CommandView::EnableTraces(b),
        ],
        patch_commands((ConfigPatch { trace_min_us: Some(m), ..silent_patch() }), PatchStop::Nowhere) == seq![
            CommandView::TraceMinUs(m),
        ],
        patch_commands((ConfigPatch { trace_buffer_size: Some(n), ..silent_patch() }), PatchStop::Nowhere) == seq![
            CommandView::TraceBufferSize(n),
        ],
{
    assert(patch_commands((ConfigPatch { max_query_concurrency: Some(k), ..silent_patch() }), PatchStop::Nowhere) =~= seq![
        CommandView::MaxQueryConcurrency(k),
    ]);
    assert(patch_commands((ConfigPatch { query_tee_mode: Some(b), ..silent_patch() }), PatchStop::Nowhere) =~= seq![
        CommandView::QueryTeeMode(b),
    ]);
    assert(patch_commands((ConfigPatch { par_iter_min_threshold: Some(n), ..silent_patch() }), PatchStop::Nowhere) =~= seq![
        CommandView::ParIterMinThreshold(n),
    ]);
    assert(patch_commands((ConfigPatch { bitmap_compact_threshold: Some(k), ..silent_patch() }), PatchStop::Nowhere) =~= seq![
        CommandView::BitmapCompactThreshold(k),
    ]);
    assert(patch_commands((ConfigPatch { time_bucket_full_rebuild_interval_secs: Some(m), ..silent_patch() }), PatchStop::Nowhere) =~= seq![
        CommandView::TimeBucketFullRebuildInterval(m),
    ]);
    assert(patch_commands((ConfigPatch { deferred_sweep_interval_secs: Some(m), ..silent_patch() }), PatchStop::Nowhere) =~= seq![
        CommandView::DeferredSweepInterval(m),
    ]);
    assert(patch_commands((ConfigPatch { deferred_sweep_limit: Some(n), ..silent_patch() }), PatchStop::Nowhere) =~= seq![
        CommandView::DeferredSweepLimit(n),
    ]);
    assert(patch_commands((ConfigPatch { max_registered_prefilters: Some(n), ..silent_patch() }), PatchStop::Nowhere) =~= seq![
        CommandView::MaxRegisteredPrefilters(n),
    ]);
    assert(patch_commands((ConfigPatch { enable_traces: Some(b), ..silent_patch() }), PatchStop::Nowhere) =~= seq![
        CommandView::EnableTraces(b),
    ]);
    assert(patch_commands((ConfigPatch { trace_min_us: Some(m), ..silent_patch() }), PatchStop::Nowhere) =~= seq![
        CommandView::TraceMinUs(m),
    ]);
    assert(patch_commands((ConfigPatch { trace_buffer_size: Some(n), ..silent_patch() }), PatchStop::Nowhere) =~= seq![
        CommandView::TraceBufferSize(n),
    ]);
}

/// A change of settings is taken but for two: more prefilters than there may be, and a buffer of no
/// traces. Each is refused as a bad request, when the settings before it were told.
pub proof fn law_bad_settings_are_refused(patch: ConfigPatch, config: Config, known: Seq<Seq<char>>)
    requires
        patch.filter_fields is None,
        patch.sort_fields is None,
        patch.cache is None,
        patch.range_buckets is None,
    ensures
        ({
            let (stop, refusal) = patch_stop(patch, config, known);
            let crowded = patch.max_registered_prefilters matches Some(n) && n > MAX_REGISTERED_PREFILTERS;
            let bufferless = patch.trace_buffer_size == Some(0usize);
            &&& refusal is None <==> !crowded && !bufferless
            &&& refusal is None <==> stop is Nowhere
            &&& refusal matches Some(e) ==> e.status == 400
            &&& crowded ==> patch_commands(patch, stop) == patch_commands(
                (ConfigPatch {
                    max_registered_prefilters: None,
                    enable_traces: None,
                    trace_min_us: None,
                    trace_buffer_size: None,
                    disabled_metrics: None,
                    enabled_metrics: None,
                    ..patch
                }),
                PatchStop::Nowhere,
            )
            &&& !crowded && bufferless ==> patch_commands(patch, stop) == patch_commands(
                (ConfigPatch { trace_buffer_size: None, disabled_metrics: None, enabled_metrics: None, ..patch }),
                PatchStop::Nowhere,
            )
        }),
{
}

/// A rate of decay is taken where it is above zero and at most one, a share for fetching ahead where
/// it is at least zero and at most one. The bits of the positive doubles are in the order of the
/// doubles; a rate that is no number is let through.
pub proof fn law_shares_lie_in_the_unit(d: Double)
    ensures
        cache_problem((CachePatch { decay_rate: Some(d), ..silent_cache() })) is None <==> {
            ||| 0 < d.bits <= 0x3ff0_0000_0000_0000
            ||| 0x7ff0_0000_0000_0000 < d.bits < 0x8000_0000_0000_0000
            ||| 0xfff0_0000_0000_0000 < d.bits
        },
        cache_problem((CachePatch { prefetch_threshold: Some(d), ..silent_cache() })) is None <==> {
            ||| d.bits <= 0x3ff0_0000_0000_0000
            ||| d.bits == 0x8000_0000_0000_0000
        },
        cache_problem(silent_cache()) is None,
{
}

/// A change that names a field which there is not is refused at once, whatever else it says, and tells
/// nothing.
pub proof fn law_unknown_fields_are_refused_at_once(
    patch: ConfigPatch,
    config: Config,
    known: Seq<Seq<char>>,
    i: int,
)
    requires
        ({
            ||| patch.filter_fields matches Some(list) && 0 <= i < list@.len() && forall|j: int|
                0 <= j < config.filter_fields@.len() ==> (#[trigger] config.filter_fields@[j]).name@ != list@[i].0@
            ||| patch.sort_fields matches Some(list) && 0 <= i < list@.len() && forall|j: int|
                0 <= j < config.sort_fields@.len() ==> (#[trigger] config.sort_fields@[j]).name@ != list@[i].0@
        }),
    ensures
        patch_stop(patch, config, known).0 is AtOnce,
        patch_stop(patch, config, known).1 matches Some(e) && e.status == 400,
        patch_commands(patch, patch_stop(patch, config, known).0) == Seq::<CommandView>::empty(),
{
    if let Some(list) = patch.filter_fields {
        if 0 <= i < list@.len() && forall|j: int|
            0 <= j < config.filter_fields@.len() ==> (#[trigger] config.filter_fields@[j]).name@ != list@[i].0@ {
            lemma_filter_missing(config.filter_fields@, list@[i].0@, 0);
            lemma_filter_name_refused(list@, config.filter_fields@, i, 0);
        }
    }
    if let Some(list) = patch.sort_fields {
        if 0 <= i < list@.len() && forall|j: int|
            0 <= j < config.sort_fields@.len() ==> (#[trigger] config.sort_fields@[j]).name@ != list@[i].0@ {
            lemma_sort_missing(config.sort_fields@, list@[i].0@, 0);
            lemma_sort_name_refused(list@, config.sort_fields@, i, 0);
        }
    }
}

proof fn lemma_filter_missing(fields: Seq<FilterFieldConfig>, name: Seq<char>, n: int)
    requires
        0 <= n,
        forall|j: int| 0 <= j < fields.len() ==> (#[trigger] fields[j]).name@ != name,
    ensures
        filter_position(fields, name, n) is None,
    decreases fields.len() - n,
{
    if n < fields.len() {
        assert(fields[n].name@ != name);
        lemma_filter_missing(fields, name, n + 1);
    }
}

proof fn lemma_sort_missing(fields: Seq<SortFieldConfig>, name: Seq<char>, n: int)
    requires
        0 <= n,
        forall|j: int| 0 <= j < fields.len() ==> (#[trigger] fields[j]).name@ != name,
    ensures
        sort_position(fields, name, n) is None,
    decreases fields.len() - n,
{
    if n < fields.len() {
        assert(fields[n].name@ != name);
        lemma_sort_missing(fields, name, n + 1);
    }
}

proof fn lemma_filter_name_refused(
    patches: Seq<(String, FieldPatch)>,
    fields: Seq<FilterFieldConfig>,
    i: int,
    n: int,
)
    requires
        0 <= n <= i < patches.len(),
        filter_position(fields, patches[i].0@, 0) is None,
    ensures
        filter_names_problem(patches, fields, n) is Some,
    decreases i - n,
{
    if n < i {
        lemma_filter_name_refused(patches, fields, i, n + 1);
    }
}

proof fn lemma_sort_name_refused(patches: Seq<(String, FieldPatch)>, fields: Seq<SortFieldConfig>, i: int, n: int)
    requires
        0 <= n <= i < patches.len(),
        sort_position(fields, patches[i].0@, 0) is None,
    ensures
        sort_names_problem(patches, fields, n) is Some,
    decreases i - n,
{
    if n < i {
        lemma_sort_name_refused(patches, fields, i, n + 1);
    }
}

/// A field that a change speaks of is loaded as the change says; any other stays as it was. Nothing
/// else of a field changes.
pub proof fn law_fields_are_loaded_as_said(
    filters: Seq<FilterFieldConfig>,
    sorts: Seq<SortFieldConfig>,
    patches: Map<Seq<char>, FieldPatch>,
    i: int,
    j: int,
    eager: bool,
)
    requires
        0 <= i < filters.len(),
        0 <= j < sorts.len(),
    ensures
        ({
            let f = patched_filters(filters, patches)[i];
            &&& f.name == filters[i].name
            &&& f.multi_value == filters[i].multi_value
            &&& patches.dom().contains(filters[i].name@) && patches[filters[i].name@].eager_load == Some(eager)
                ==> f.eager_load == eager
            &&& !patches.dom().contains(filters[i].name@) || patches[filters[i].name@].eager_load is None
                ==> f.eager_load == filters[i].eager_load
        }),
        ({
            let s = patched_sorts(sorts, patches)[j];
            &&& s.name == sorts[j].name
            &&& patches.dom().contains(sorts[j].name@) && patches[sorts[j].name@].eager_load == Some(eager)
                ==> s.eager_load == eager
            &&& !patches.dom().contains(sorts[j].name@) || patches[sorts[j].name@].eager_load is None ==> s.eager_load
                == sorts[j].eager_load
        }),
        patched_filters(filters, patches).len() == filters.len(),
        patched_sorts(sorts, patches).len() == sorts.len(),
{
}

/// The filter fields that have to be loaded are those that a change turns from loaded on demand to
/// loaded at once, and no others.
pub proof fn law_newly_eager_filters_are_named(
    fields: Seq<FilterFieldConfig>,
    patches: Map<Seq<char>, FieldPatch>,
    n: int,
    name: Seq<char>,
)
    requires
        0 <= n <= fields.len(),
    ensures
        new_eager_filters(fields, patches, n).contains(name) <==> exists|i: int|
            0 <= i < n && (#[trigger] fields[i]).name@ == name && !fields[i].eager_load && patches.dom().contains(
                name,
            ) && patches[name].eager_load == Some(true),
    decreases n,
{
    if n > 0 {
        law_newly_eager_filters_are_named(fields, patches, n - 1, name);
        let before = new_eager_filters(fields, patches, n - 1);
        let last = fields[n - 1];
        if patched_filter(last, patches).eager_load && !last.eager_load {
            let all = before.push(last.name@);
            assert(all.last() == last.name@);
            if before.contains(name) {
                let k = before.index_of(name);
                assert(all[k] == name);
            }
            if all.contains(name) && name != last.name@ {
                let k = choose|k: int| 0 <= k < all.len() && all[k] == name;
                assert(before[k] == name);
            }
        }
    }
}

/// The sort fields that have to be loaded are those that a change turns from loaded on demand to
/// loaded at once, and no others.
pub proof fn law_newly_eager_sorts_are_named(
    fields: Seq<SortFieldConfig>,
    patches: Map<Seq<char>, FieldPatch>,
    n: int,
    name: Seq<char>,
)
    requires
        0 <= n <= fields.len(),
    ensures
        new_eager_sorts(fields, patches, n).contains(name) <==> exists|i: int|
            0 <= i < n && (#[trigger] fields[i]).name@ == name && !fields[i].eager_load && patches.dom().contains(
                name,
            ) && patches[name].eager_load == Some(true),
    decreases n,
{
    if n > 0 {
        law_newly_eager_sorts_are_named(fields, patches, n - 1, name);
        let before = new_eager_sorts(fields, patches, n - 1);
        let last = fields[n - 1];
        if patched_sort(last, patches).eager_load && !last.eager_load {
            let all = before.push(last.name@);
            assert(all.last() == last.name@);
            if before.contains(name) {
                let k = before.index_of(name);
                assert(all[k] == name);
            }
            if all.contains(name) && name != last.name@ {
                let k = choose|k: int| 0 <= k < all.len() && all[k] == name;
                assert(before[k] == name);
            }
        }
    }
}

/// A change to one bucket is taken where the bucket is known and the interval is not zero. It is then
/// told under the name of the bucket, and the first bucket of that name has the interval; the others
/// stay. A change that gives no interval does nothing.
pub proof fn law_one_bucket_is_changed(
    buckets: Seq<RangeBucketConfig>,
    patch: RangePatch,
    known: Seq<Seq<char>>,
    i: int,
    j: int,
)
    requires
        0 <= i < buckets.len(),
        buckets[i].name@ == patch.name@,
        forall|q: int| 0 <= q < i ==> (#[trigger] buckets[q]).name@ != patch.name@,
        0 <= j < buckets.len(),
    ensures
        bucket_problem(patch, known) is None <==> patch.refresh_interval_secs is None || (
        patch.refresh_interval_secs != Some(0u64) && known.contains(patch.name@)),
        ({
            let after = patched_bucket(buckets, patch);
            &&& after.len() == buckets.len()
            &&& after[j].name == buckets[j].name
            &&& j != i ==> after[j] == buckets[j]
            &&& patch.refresh_interval_secs matches Some(v) ==> after[i].refresh_interval_secs == v
            &&& patch.refresh_interval_secs is None ==> after == buckets
        }),
        patch.refresh_interval_secs matches Some(v) ==> bucket_commands(Seq::empty(), seq![patch], 1) == seq![
            CommandView::TimeBucketRefresh(patch.name@, v),
        ],
        patch.refresh_interval_secs is None ==> bucket_commands(Seq::empty(), seq![patch], 1) == Seq::<
            CommandView,
        >::empty(),
{
    lemma_bucket_found(buckets, patch.name@, i, 0);
    assert(bucket_commands(Seq::empty(), seq![patch], 0) == Seq::<CommandView>::empty());
    if let Some(v) = patch.refresh_interval_secs {
        assert(bucket_commands(Seq::empty(), seq![patch], 1) =~= seq![
            CommandView::TimeBucketRefresh(patch.name@, v),
        ]);
    }
}

proof fn lemma_bucket_found(buckets: Seq<RangeBucketConfig>, name: Seq<char>, i: int, n: int)
    requires
        0 <= n <= i < buckets.len(),
        buckets[i].name@ == name,
        forall|q: int| 0 <= q < i ==> (#[trigger] buckets[q]).name@ != name,
    ensures
        bucket_position(buckets, name, n) == Some(i),
    decreases i - n,
{
    if n < i {
        assert(buckets[n].name@ != name);
        lemma_bucket_found(buckets, name, i, n + 1);
    }
}

/// Changes to buckets are made one after the other up to the first with which something is wrong;
/// where nothing is wrong with any, they are all made.
pub proof fn law_buckets_are_changed_up_to_the_first_problem(patches: Seq<RangePatch>, known: Seq<Seq<char>>, n: int)
    requires
        0 <= n <= patches.len(),
    ensures
        match bucket_stop(patches, known, n) {
            Some((k, p)) => {
                &&& n <= k < patches.len()
                &&& patches[k].refresh_interval_secs is Some
                &&& patches[k].refresh_interval_secs == Some(0u64) || !known.contains(patches[k].name@)
                &&& forall|q: int|
                    n <= q < k ==> (#[trigger] patches[q]).refresh_interval_secs is None || (
                    patches[q].refresh_interval_secs != Some(0u64) && known.contains(patches[q].name@))
            },
            None => forall|q: int|
                n <= q < patches.len() ==> (#[trigger] patches[q]).refresh_interval_secs is None || (
                patches[q].refresh_interval_secs != Some(0u64) && known.contains(patches[q].name@)),
        },
    decreases patches.len() - n,
{
    if n < patches.len() {
        law_buckets_are_changed_up_to_the_first_problem(patches, known, n + 1);
    }
}

/// A group is off where it is listed as off, or where others are listed as on and it is not; each
/// group goes by its own name. Listing the same names as on and as off gives opposite groups.
pub proof fn law_groups_go_by_their_own_name(listed: Seq<Seq<char>>)
    ensures
        groups_of(listed, true).bitmap_memory <==> listed.contains("bitmap_memory"@),
        groups_of(listed, true).eviction_stats <==> listed.contains("eviction_stats"@),
        groups_of(listed, true).boundstore_disk <==> listed.contains("boundstore_disk"@),
        groups_of(listed, false).bitmap_memory == !groups_of(listed, true).bitmap_memory,
        groups_of(listed, false).eviction_stats == !groups_of(listed, true).eviction_stats,
        groups_of(listed, false).boundstore_disk == !groups_of(listed, true).boundstore_disk,
{
}

/// A change of the groups tells the groups that a start with the changed lists would turn on.
pub proof fn law_told_groups_survive_a_restart(before: Config, after: Config, patch: ConfigPatch)
    requires
        late_fields_patched(before, after, patch, PatchStop::Nowhere),
        before.disabled_metrics is None || patch.disabled_metrics is Some,
        patch.disabled_metrics is Some || patch.enabled_metrics is Some,
    ensures
        patched_groups(patch) == Some(configured_groups(after.disabled_metrics, after.enabled_metrics)),
        last_settings(Seq::empty(), (ConfigPatch { trace_buffer_size: None, ..patch })) == seq![
            CommandView::Groups(configured_groups(after.disabled_metrics, after.enabled_metrics)),
        ],
{
    assert(last_settings(Seq::empty(), (ConfigPatch { trace_buffer_size: None, ..patch })) =~= seq![
        CommandView::Groups(configured_groups(after.disabled_metrics, after.enabled_metrics)),
    ]);
}

/// A change that goes through keeps what it says of the limit on prefilters and of the groups, and
/// what it does not speak of stays. One that ends before does not touch them.
pub proof fn law_late_settings_are_kept(before: Config, after: Config, patch: ConfigPatch, stop: PatchStop)
    requires
        late_fields_patched(before, after, patch, stop),
    ensures
        stop is Nowhere ==> {
            &&& patch.max_registered_prefilters matches Some(n) ==> after.max_registered_prefilters == n
            &&& patch.max_registered_prefilters is None ==> after.max_registered_prefilters
                == before.max_registered_prefilters
            &&& patch.disabled_metrics matches Some(off) ==> after.enabled_metrics is None && (
            after.disabled_metrics matches Some(list) && views(list@) == views(off@))
            &&& patch.disabled_metrics is None ==> opt_texts(after.disabled_metrics) == opt_texts(
                before.disabled_metrics,
            ) && (patch.enabled_metrics matches Some(on) ==> (after.enabled_metrics matches Some(list) && views(list@)
                == views(on@)))
        },
        !(stop is Nowhere) ==> opt_texts(after.disabled_metrics) == opt_texts(before.disabled_metrics) && opt_texts(
            after.enabled_metrics,
        ) == opt_texts(before.enabled_metrics),
        stop is AtPrefilters || stop is AtBucket ==> after.max_registered_prefilters
            == before.max_registered_prefilters,
{
}

/// A change to a bucket that is refused is told why: an interval of nothing comes before a name that the
/// engine does not know.
pub proof fn law_bucket_refusals_say_what_is_wrong(patch: RangePatch, known: Seq<Seq<char>>)
    ensures
        patch.refresh_interval_secs == Some(0u64) ==> bucket_problem(patch, known) == Some(
            "time_buckets bucket '"@ + patch.name@ + "': refresh_interval_secs must be > 0"@,
        ),
        patch.refresh_interval_secs is Some && patch.refresh_interval_secs != Some(0u64) && !known.contains(patch.name@)
            ==> bucket_problem(patch, known) == Some("Unknown time bucket: '"@ + patch.name@ + "'"@),
{
}

/// The cache, the fields and the buckets become what a change says of them, and stay where it does not
/// speak of them. The buckets are changed as far as the change comes.
pub proof fn law_early_settings_are_kept(before: Config, after: Config, patch: ConfigPatch, stop: PatchStop)
    requires
        early_fields_patched(before, after, patch, stop),
    ensures
        patch.cache is None ==> after.cache == before.cache,
        patch.cache matches Some(c) ==> after.cache == patched_cache(before.cache, c),
        patch.filter_fields is None ==> after.filter_fields@ == before.filter_fields@,
        patch.filter_fields matches Some(list) ==> after.filter_fields@ == patched_filters(
            before.filter_fields@,
            pairs_map(list@),
        ),
        patch.sort_fields is None ==> after.sort_fields@ == before.sort_fields@,
        patch.sort_fields matches Some(list) ==> after.sort_fields@ == patched_sorts(
            before.sort_fields@,
            pairs_map(list@),
        ),
        patch.range_buckets is None || before.range_buckets is None ==> bucket_seq(after.range_buckets) == bucket_seq(
            before.range_buckets,
        ),
        patch.range_buckets matches Some(list) ==> (before.range_buckets matches Some(buckets) ==> {
            &&& after.range_buckets matches Some(changed)
            &&& stop matches PatchStop::AtBucket(k) ==> changed@ == patched_buckets(buckets@, list@, k)
            &&& stop !is AtBucket ==> changed@ == patched_buckets(buckets@, list@, list@.len() as int)
        }),
{
    let none = Map::<Seq<char>, FieldPatch>::empty();
    assert(patched_filters(before.filter_fields@, none) =~= before.filter_fields@);
    assert(patched_sorts(before.sort_fields@, none) =~= before.sort_fields@);
}

/// Nothing that a change does not speak of in any form changes with it.
pub proof fn law_other_settings_stay(before: Config, after: Config)
    requires
        untouched_but(before, after),
    ensures
        after.flush_interval_us == before.flush_interval_us,
        after.merge_interval_ms == before.merge_interval_ms,
        after.channel_capacity == before.channel_capacity,
        after.compact_threshold_pct == before.compact_threshold_pct,
        after.eviction_sweep_interval == before.eviction_sweep_interval,
        after.max_page_size == before.max_page_size,
{
}

} // verus!
