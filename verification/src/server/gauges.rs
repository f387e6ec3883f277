//! What the service tells of itself in numbers.

use crate::server::patch::MetricGroups;
use vstd::prelude::*;

verus! {

/// A number that the service tells of an index.
#[derive(Debug, Clone, Copy, PartialEq, Eq, Structural)]
pub enum Gauge {
    AliveDocuments,
    SlotHighWater,
    CacheEntries,
    CacheBytes,
    CacheHits,
    CacheMisses,
    CacheInserts,
    CacheUpdates,
    CacheEvictions,
    CacheInvalidations,
    CacheEntriesInitial,
    CacheEntriesExpanded,
    CacheExtensions,
    CacheWallHits,
    CachePrefetches,
    CacheSubstitutedEntries,
    CacheCompoundEntries,
    SnapshotPublishes,
    FlushLastDuration,
    FlushApply,
    FlushCache,
    FlushPublish,
    FlushTimeBucket,
    FlushCompact,
    FlushOpsLog,
    FlushSortPromote,
    UniqueFilterShapes,
    SortWorkItems,
    UniqueFilterShapesMax,
    SortWorkItemsMax,
    WorkerQueueDepth,
    WorkerCycle,
    WorkerCoalesced,
    WorkerDrops,
    WorkerOverBudget,
    BackpressureInvalidations,
    WorkerCycles,
    NeedsRebuild,
    MarkedDeadline,
    MarkedCountBudget,
    MarkedBacklogDrop,
    MarkedAliveChange,
    MarkedFilterInvalidation,
    MarkedCompoundTooLarge,
    RebuildsCompleted,
    EvictedOnOverrun,
    PutFastPath,
    PutSlowPath,
    PendingFields,
    CompactionsSkipped,
    BoundMetaEntries,
    BoundTombstones,
    BoundPendingShards,
    BoundShardLoads,
    BoundTombstonesCreated,
    BoundTombstonesCleaned,
    BoundEntriesRestored,
    BoundBytesWritten,
    BoundBytesRead,
    DocCacheHits,
    DocCacheMisses,
    DocCacheEntries,
    DocCacheBytes,
    DocCacheEvictions,
    DocCacheGenerations,
    BoundDiskBytes,
    SlotBitmapBytes,
}

/// What there is of documents.
#[derive(Debug, Clone, Copy)]
pub struct DocumentStats {
    pub alive: u64,
    pub slots: u64,
}

impl DocumentStats {
    /// The numbers, each with its value.
    pub open spec fn told(self) -> Seq<(Gauge, i64)> {
        seq![
            (Gauge::AliveDocuments, self.alive as i64),
            (Gauge::SlotHighWater, self.slots as i64),
        ]
    }

    /// Lists the numbers.
    pub fn tell(&self) -> (r: Vec<(Gauge, i64)>)
        ensures
            r@ == self.told(),
    {
        let mut r: Vec<(Gauge, i64)> = Vec::new();
        r.push((Gauge::AliveDocuments, self.alive as i64));
        r.push((Gauge::SlotHighWater, self.slots as i64));
        r
    }
}

/// What the cache of results holds and has done.
#[derive(Debug, Clone, Copy)]
pub struct CacheStats {
    pub entries: u64,
    pub memory_bytes: u64,
    pub hits: u64,
    pub misses: u64,
    pub inserts: u64,
    pub updates: u64,
    pub evictions: u64,
    pub invalidations: u64,
    pub entries_initial: u64,
    pub entries_expanded: u64,
    pub extensions: u64,
    pub wall_hits: u64,
    pub prefetches: u64,
    pub substituted: u64,
    pub compound: u64,
}

impl CacheStats {
    /// The numbers, each with its value.
    pub open spec fn told(self) -> Seq<(Gauge, i64)> {
        seq![
            (Gauge::CacheEntries, self.entries as i64),
            (Gauge::CacheBytes, self.memory_bytes as i64),
            (Gauge::CacheHits, self.hits as i64),
            (Gauge::CacheMisses, self.misses as i64),
            (Gauge::CacheInserts, self.inserts as i64),
            (Gauge::CacheUpdates, self.updates as i64),
            (Gauge::CacheEvictions, self.evictions as i64),
            (Gauge::CacheInvalidations, self.invalidations as i64),
            (Gauge::CacheEntriesInitial, self.entries_initial as i64),
            (Gauge::CacheEntriesExpanded, self.entries_expanded as i64),
            (Gauge::CacheExtensions, self.extensions as i64),
            (Gauge::CacheWallHits, self.wall_hits as i64),
            (Gauge::CachePrefetches, self.prefetches as i64),
            (Gauge::CacheSubstitutedEntries, self.substituted as i64),
            (Gauge::CacheCompoundEntries, self.compound as i64),
        ]
    }

    /// Lists the numbers.
    pub fn tell(&self) -> (r: Vec<(Gauge, i64)>)
        ensures
            r@ == self.told(),
    {
        let mut r: Vec<(Gauge, i64)> = Vec::new();
        r.push((Gauge::CacheEntries, self.entries as i64));
        r.push((Gauge::CacheBytes, self.memory_bytes as i64));
        r.push((Gauge::CacheHits, self.hits as i64));
        r.push((Gauge::CacheMisses, self.misses as i64));
        r.push((Gauge::CacheInserts, self.inserts as i64));
        r.push((Gauge::CacheUpdates, self.updates as i64));
        r.push((Gauge::CacheEvictions, self.evictions as i64));
        r.push((Gauge::CacheInvalidations, self.invalidations as i64));
        r.push((Gauge::CacheEntriesInitial, self.entries_initial as i64));
        r.push((Gauge::CacheEntriesExpanded, self.entries_expanded as i64));
        r.push((Gauge::CacheExtensions, self.extensions as i64));
        r.push((Gauge::CacheWallHits, self.wall_hits as i64));
        r.push((Gauge::CachePrefetches, self.prefetches as i64));
        r.push((Gauge::CacheSubstitutedEntries, self.substituted as i64));
        r.push((Gauge::CacheCompoundEntries, self.compound as i64));
        r
    }
}

/// What flushing has done, with times in nanoseconds.
#[derive(Debug, Clone, Copy)]
pub struct FlushStats {
    pub published: u64,
    pub last_nanos: u64,
    pub apply_nanos: u64,
    pub cache_nanos: u64,
    pub publish_nanos: u64,
    pub timebucket_nanos: u64,
    pub compact_nanos: u64,
    pub opslog_nanos: u64,
    pub sort_promote_nanos: u64,
}

impl FlushStats {
    /// The numbers, each with its value.
    pub open spec fn told(self) -> Seq<(Gauge, i64)> {
        seq![
            (Gauge::SnapshotPublishes, self.published as i64),
            (Gauge::FlushLastDuration, self.last_nanos as i64),
            (Gauge::FlushApply, self.apply_nanos as i64),
            (Gauge::FlushCache, self.cache_nanos as i64),
            (Gauge::FlushPublish, self.publish_nanos as i64),
            (Gauge::FlushTimeBucket, self.timebucket_nanos as i64),
            (Gauge::FlushCompact, self.compact_nanos as i64),
            (Gauge::FlushOpsLog, self.opslog_nanos as i64),
            (Gauge::FlushSortPromote, self.sort_promote_nanos as i64),
        ]
    }

    /// Lists the numbers.
    pub fn tell(&self) -> (r: Vec<(Gauge, i64)>)
        ensures
            r@ == self.told(),
    {
        let mut r: Vec<(Gauge, i64)> = Vec::new();
        r.push((Gauge::SnapshotPublishes, self.published as i64));
        r.push((Gauge::FlushLastDuration, self.last_nanos as i64));
        r.push((Gauge::FlushApply, self.apply_nanos as i64));
        r.push((Gauge::FlushCache, self.cache_nanos as i64));
        r.push((Gauge::FlushPublish, self.publish_nanos as i64));
        r.push((Gauge::FlushTimeBucket, self.timebucket_nanos as i64));
        r.push((Gauge::FlushCompact, self.compact_nanos as i64));
        r.push((Gauge::FlushOpsLog, self.opslog_nanos as i64));
        r.push((Gauge::FlushSortPromote, self.sort_promote_nanos as i64));
        r
    }
}

/// What keeping the cache up to date has done.
#[derive(Debug, Clone, Copy)]
pub struct WorkerStats {
    pub unique_shapes: u64,
    pub sort_work_items: u64,
    pub unique_shapes_max: u64,
    pub sort_work_items_max: u64,
    pub queue_depth: u64,
    pub cycle_nanos: u64,
    pub coalesced: u64,
    pub drops: u64,
    pub over_budget: u64,
    pub backpressure: u64,
    pub cycles: u64,
    pub needs_rebuild: u64,
}

impl WorkerStats {
    /// The numbers, each with its value.
    pub open spec fn told(self) -> Seq<(Gauge, i64)> {
        seq![
            (Gauge::UniqueFilterShapes, self.unique_shapes as i64),
            (Gauge::SortWorkItems, self.sort_work_items as i64),
            (Gauge::UniqueFilterShapesMax, self.unique_shapes_max as i64),
            (Gauge::SortWorkItemsMax, self.sort_work_items_max as i64),
            (Gauge::WorkerQueueDepth, self.queue_depth as i64),
            (Gauge::WorkerCycle, self.cycle_nanos as i64),
            (Gauge::WorkerCoalesced, self.coalesced as i64),
            (Gauge::WorkerDrops, self.drops as i64),
            (Gauge::WorkerOverBudget, self.over_budget as i64),
            (Gauge::BackpressureInvalidations, self.backpressure as i64),
            (Gauge::WorkerCycles, self.cycles as i64),
            (Gauge::NeedsRebuild, self.needs_rebuild as i64),
        ]
    }

    /// Lists the numbers.
    pub fn tell(&self) -> (r: Vec<(Gauge, i64)>)
        ensures
            r@ == self.told(),
    {
        let mut r: Vec<(Gauge, i64)> = Vec::new();
        r.push((Gauge::UniqueFilterShapes, self.unique_shapes as i64));
        r.push((Gauge::SortWorkItems, self.sort_work_items as i64));
        r.push((Gauge::UniqueFilterShapesMax, self.unique_shapes_max as i64));
        r.push((Gauge::SortWorkItemsMax, self.sort_work_items_max as i64));
        r.push((Gauge::WorkerQueueDepth, self.queue_depth as i64));
        r.push((Gauge::WorkerCycle, self.cycle_nanos as i64));
        r.push((Gauge::WorkerCoalesced, self.coalesced as i64));
        r.push((Gauge::WorkerDrops, self.drops as i64));
        r.push((Gauge::WorkerOverBudget, self.over_budget as i64));
        r.push((Gauge::BackpressureInvalidations, self.backpressure as i64));
        r.push((Gauge::WorkerCycles, self.cycles as i64));
        r.push((Gauge::NeedsRebuild, self.needs_rebuild as i64));
        r
    }
}

/// Why entries of the cache were marked to be rebuilt, and how many were.
#[derive(Debug, Clone, Copy)]
pub struct RebuildStats {
    pub deadline: u64,
    pub count_budget: u64,
    pub backlog_drop: u64,
    pub alive_change: u64,
    pub filter_invalidation: u64,
    pub compound_too_large: u64,
    pub completed: u64,
    pub evicted_on_overrun: u64,
}

impl RebuildStats {
    /// The numbers, each with its value.
    pub open spec fn told(self) -> Seq<(Gauge, i64)> {
        seq![
            (Gauge::MarkedDeadline, self.deadline as i64),
            (Gauge::MarkedCountBudget, self.count_budget as i64),
            (Gauge::MarkedBacklogDrop, self.backlog_drop as i64),
            (Gauge::MarkedAliveChange, self.alive_change as i64),
            (Gauge::MarkedFilterInvalidation, self.filter_invalidation as i64),
            (Gauge::MarkedCompoundTooLarge, self.compound_too_large as i64),
            (Gauge::RebuildsCompleted, self.completed as i64),
            (Gauge::EvictedOnOverrun, self.evicted_on_overrun as i64),
        ]
    }

    /// Lists the numbers.
    pub fn tell(&self) -> (r: Vec<(Gauge, i64)>)
        ensures
            r@ == self.told(),
    {
        let mut r: Vec<(Gauge, i64)> = Vec::new();
        r.push((Gauge::MarkedDeadline, self.deadline as i64));
        r.push((Gauge::MarkedCountBudget, self.count_budget as i64));
        r.push((Gauge::MarkedBacklogDrop, self.backlog_drop as i64));
        r.push((Gauge::MarkedAliveChange, self.alive_change as i64));
        r.push((Gauge::MarkedFilterInvalidation, self.filter_invalidation as i64));
        r.push((Gauge::MarkedCompoundTooLarge, self.compound_too_large as i64));
        r.push((Gauge::RebuildsCompleted, self.completed as i64));
        r.push((Gauge::EvictedOnOverrun, self.evicted_on_overrun as i64));
        r
    }
}

/// What the stores hold and have done.
#[derive(Debug, Clone, Copy)]
pub struct StoreStats {
    pub put_fast: u64,
    pub put_slow: u64,
    pub pending_fields: u64,
    pub compactions_skipped: u64,
    pub meta_entries: u64,
    pub tombstones: u64,
    pub pending_shards: u64,
    pub shard_loads: u64,
    pub tombstones_created: u64,
    pub tombstones_cleaned: u64,
    pub entries_restored: u64,
    pub bytes_written: u64,
    pub bytes_read: u64,
}

impl StoreStats {
    /// The numbers, each with its value.
    pub open spec fn told(self) -> Seq<(Gauge, i64)> {
        seq![
            (Gauge::PutFastPath, self.put_fast as i64),
            (Gauge::PutSlowPath, self.put_slow as i64),
            (Gauge::PendingFields, self.pending_fields as i64),
            (Gauge::CompactionsSkipped, self.compactions_skipped as i64),
            (Gauge::BoundMetaEntries, self.meta_entries as i64),
            (Gauge::BoundTombstones, self.tombstones as i64),
            (Gauge::BoundPendingShards, self.pending_shards as i64),
            (Gauge::BoundShardLoads, self.shard_loads as i64),
            (Gauge::BoundTombstonesCreated, self.tombstones_created as i64),
            (Gauge::BoundTombstonesCleaned, self.tombstones_cleaned as i64),
            (Gauge::BoundEntriesRestored, self.entries_restored as i64),
            (Gauge::BoundBytesWritten, self.bytes_written as i64),
            (Gauge::BoundBytesRead, self.bytes_read as i64),
        ]
    }

    /// Lists the numbers.
    pub fn tell(&self) -> (r: Vec<(Gauge, i64)>)
        ensures
            r@ == self.told(),
    {
        let mut r: Vec<(Gauge, i64)> = Vec::new();
        r.push((Gauge::PutFastPath, self.put_fast as i64));
        r.push((Gauge::PutSlowPath, self.put_slow as i64));
        r.push((Gauge::PendingFields, self.pending_fields as i64));
        r.push((Gauge::CompactionsSkipped, self.compactions_skipped as i64));
        r.push((Gauge::BoundMetaEntries, self.meta_entries as i64));
        r.push((Gauge::BoundTombstones, self.tombstones as i64));
        r.push((Gauge::BoundPendingShards, self.pending_shards as i64));
        r.push((Gauge::BoundShardLoads, self.shard_loads as i64));
        r.push((Gauge::BoundTombstonesCreated, self.tombstones_created as i64));
        r.push((Gauge::BoundTombstonesCleaned, self.tombstones_cleaned as i64));
        r.push((Gauge::BoundEntriesRestored, self.entries_restored as i64));
        r.push((Gauge::BoundBytesWritten, self.bytes_written as i64));
        r.push((Gauge::BoundBytesRead, self.bytes_read as i64));
        r
    }
}

/// What the cache of documents holds and has done.
#[derive(Debug, Clone, Copy)]
pub struct DocCacheStats {
    pub hits: u64,
    pub misses: u64,
    pub entries: u64,
    pub bytes: u64,
    pub evictions: u64,
    pub generations: u64,
}

impl DocCacheStats {
    /// The numbers, each with its value.
    pub open spec fn told(self) -> Seq<(Gauge, i64)> {
        seq![
            (Gauge::DocCacheHits, self.hits as i64),
            (Gauge::DocCacheMisses, self.misses as i64),
            (Gauge::DocCacheEntries, self.entries as i64),
            (Gauge::DocCacheBytes, self.bytes as i64),
            (Gauge::DocCacheEvictions, self.evictions as i64),
            (Gauge::DocCacheGenerations, self.generations as i64),
        ]
    }

    /// Lists the numbers.
    pub fn tell(&self) -> (r: Vec<(Gauge, i64)>)
        ensures
            r@ == self.told(),
    {
        let mut r: Vec<(Gauge, i64)> = Vec::new();
        r.push((Gauge::DocCacheHits, self.hits as i64));
        r.push((Gauge::DocCacheMisses, self.misses as i64));
        r.push((Gauge::DocCacheEntries, self.entries as i64));
        r.push((Gauge::DocCacheBytes, self.bytes as i64));
        r.push((Gauge::DocCacheEvictions, self.evictions as i64));
        r.push((Gauge::DocCacheGenerations, self.generations as i64));
        r
    }
}

/// What is known of a field that can be filtered by.
#[derive(Debug)]
pub struct FilterMemory {
    pub field: String,
    pub bytes: u64,
    pub count: u64,
}

/// What is known of a field that can be sorted by.
#[derive(Debug)]
pub struct SortMemory {
    pub field: String,
    pub bytes: u64,
}

/// What was thrown out of memory of a field, and what is left there.
#[derive(Debug)]
pub struct Eviction {
    pub field: String,
    pub total: u64,
    pub resident: u64,
}

/// What an engine knows of itself.
#[derive(Debug)]
pub struct EngineStats {
    pub documents: DocumentStats,
    pub cache: CacheStats,
    pub flush: FlushStats,
    pub worker: WorkerStats,
    pub rebuild: RebuildStats,
    pub store: StoreStats,
    pub doc_cache: DocCacheStats,
    /// How much memory the slots take, by the last scan.
    pub slot_bytes: u64,
    pub filter_memory: Vec<FilterMemory>,
    pub sort_memory: Vec<SortMemory>,
    pub eviction: Vec<Eviction>,
    /// How much the cache takes on disk; looked up only where it is told.
    pub disk_bytes: u64,
}

/// The numbers of an index: always those that cost nothing, and of the rest those of the groups that
/// are on.
pub open spec fn index_gauges(s: EngineStats, groups: MetricGroups) -> Seq<(Gauge, i64)> {
    let always = s.documents.told() + s.cache.told() + s.flush.told() + s.worker.told() + s.rebuild.told() + s.store.told() + s.doc_cache.told();
    let disk = if groups.boundstore_disk {
        always.push((Gauge::BoundDiskBytes, s.disk_bytes as i64))
    } else {
        always
    };
    if groups.bitmap_memory {
        disk.push((Gauge::SlotBitmapBytes, s.slot_bytes as i64))
    } else {
        disk
    }
}

/// Lists the numbers of an index.
pub fn tell_index(s: &EngineStats, groups: MetricGroups) -> (r: Vec<(Gauge, i64)>)
    ensures
        r@ == index_gauges(*s, groups),
{
    let mut r = s.documents.tell();
    let mut cache = s.cache.tell();
    r.append(&mut cache);
    let mut flush = s.flush.tell();
    r.append(&mut flush);
    let mut worker = s.worker.tell();
    r.append(&mut worker);
    let mut rebuild = s.rebuild.tell();
    r.append(&mut rebuild);
    let mut store = s.store.tell();
    r.append(&mut store);
    let mut doc_cache = s.doc_cache.tell();
    r.append(&mut doc_cache);
    if groups.boundstore_disk {
        r.push((Gauge::BoundDiskBytes, s.disk_bytes as i64));
    }
    if groups.bitmap_memory {
        r.push((Gauge::SlotBitmapBytes, s.slot_bytes as i64));
    }
    r
}

/// A number that the service tells of a field.
#[derive(Debug, Clone, Copy, PartialEq, Eq, Structural)]
pub enum FieldGauge {
    FilterBitmapBytes,
    FilterBitmapCount,
    SortBitmapBytes,
    EvictionTotal,
    EvictionResident,
}

/// The numbers of the first `n` fields that can be filtered by.
pub open spec fn filter_gauges(fields: Seq<FilterMemory>, n: int) -> Seq<(FieldGauge, Seq<char>, i64)>
    decreases n,
{
    if n <= 0 {
        Seq::empty()
    } else {
        let f = fields[n - 1];
        filter_gauges(fields, n - 1).push((FieldGauge::FilterBitmapBytes, f.field@, f.bytes as i64)).push(
            (FieldGauge::FilterBitmapCount, f.field@, f.count as i64),
        )
    }
}

/// The numbers of the first `n` fields that can be sorted by.
pub open spec fn sort_gauges(fields: Seq<SortMemory>, n: int) -> Seq<(FieldGauge, Seq<char>, i64)>
    decreases n,
{
    if n <= 0 {
        Seq::empty()
    } else {
        let f = fields[n - 1];
        sort_gauges(fields, n - 1).push((FieldGauge::SortBitmapBytes, f.field@, f.bytes as i64))
    }
}

/// The numbers of what was thrown out of memory of the first `n` fields.
pub open spec fn eviction_gauges(fields: Seq<Eviction>, n: int) -> Seq<(FieldGauge, Seq<char>, i64)>
    decreases n,
{
    if n <= 0 {
        Seq::empty()
    } else {
        let f = fields[n - 1];
        eviction_gauges(fields, n - 1).push((FieldGauge::EvictionTotal, f.field@, f.total as i64)).push(
            (FieldGauge::EvictionResident, f.field@, f.resident as i64),
        )
    }
}

/// The numbers of the fields, of the groups that are on.
pub open spec fn field_gauges(s: EngineStats, groups: MetricGroups) -> Seq<(FieldGauge, Seq<char>, i64)> {
    let memory = if groups.bitmap_memory {
        filter_gauges(s.filter_memory@, s.filter_memory@.len() as int) + sort_gauges(
            s.sort_memory@,
            s.sort_memory@.len() as int,
        )
    } else {
        Seq::empty()
    };
    if groups.eviction_stats {
        memory + eviction_gauges(s.eviction@, s.eviction@.len() as int)
    } else {
        memory
    }
}

/// Numbers of fields as mathematical values.
pub open spec fn field_views(told: Seq<(FieldGauge, String, i64)>) -> Seq<(FieldGauge, Seq<char>, i64)> {
    Seq::new(told.len(), |i: int| (told[i].0, told[i].1@, told[i].2))
}

fn push_field(told: &mut Vec<(FieldGauge, String, i64)>, gauge: FieldGauge, field: &String, value: i64)
    ensures
        field_views(final(told)@) == field_views(old(told)@).push((gauge, field@, value)),
{
    told.push((gauge, field.clone(), value));
    assert(field_views(told@) =~= field_views(old(told)@).push((gauge, field@, value)));
}

fn push_memory(told: &mut Vec<(FieldGauge, String, i64)>, s: &EngineStats)
    requires
        old(told)@.len() == 0,
    ensures
        field_views(final(told)@) == filter_gauges(s.filter_memory@, s.filter_memory@.len() as int) + sort_gauges(
            s.sort_memory@,
            s.sort_memory@.len() as int,
        ),
{
    let mut i: usize = 0;
    assert(field_views(told@) =~= Seq::<(FieldGauge, Seq<char>, i64)>::empty());
    while i < s.filter_memory.len()
        invariant
            i <= s.filter_memory@.len(),
            field_views(told@) == filter_gauges(s.filter_memory@, i as int),
        decreases s.filter_memory@.len() - i,
    {
        let f = &s.filter_memory[i];
        push_field(told, FieldGauge::FilterBitmapBytes, &f.field, f.bytes as i64);
        push_field(told, FieldGauge::FilterBitmapCount, &f.field, f.count as i64);
        i = i + 1;
    }
    let ghost filters = filter_gauges(s.filter_memory@, i as int);
    let mut k: usize = 0;
    assert(filters + sort_gauges(s.sort_memory@, 0) =~= filters);
    while k < s.sort_memory.len()
        invariant
            k <= s.sort_memory@.len(),
            field_views(told@) == filters + sort_gauges(s.sort_memory@, k as int),
        decreases s.sort_memory@.len() - k,
    {
        let f = &s.sort_memory[k];
        push_field(told, FieldGauge::SortBitmapBytes, &f.field, f.bytes as i64);
        assert(field_views(told@) =~= filters + sort_gauges(s.sort_memory@, k + 1));
        k = k + 1;
    }
}

fn push_eviction(told: &mut Vec<(FieldGauge, String, i64)>, s: &EngineStats)
    ensures
        field_views(final(told)@) == field_views(old(told)@) + eviction_gauges(s.eviction@, s.eviction@.len() as int),
{
    let ghost before = field_views(told@);
    let mut i: usize = 0;
    assert(before + eviction_gauges(s.eviction@, 0) =~= before);
    while i < s.eviction.len()
        invariant
            i <= s.eviction@.len(),
            field_views(told@) == before + eviction_gauges(s.eviction@, i as int),
        decreases s.eviction@.len() - i,
    {
        let f = &s.eviction[i];
        push_field(told, FieldGauge::EvictionTotal, &f.field, f.total as i64);
        push_field(told, FieldGauge::EvictionResident, &f.field, f.resident as i64);
        assert(field_views(told@) =~= before + eviction_gauges(s.eviction@, i + 1));
        i = i + 1;
    }
}

/// Lists the numbers of the fields.
pub fn tell_fields(s: &EngineStats, groups: MetricGroups) -> (r: Vec<(FieldGauge, String, i64)>)
    ensures
        field_views(r@) == field_gauges(*s, groups),
{
    let mut r: Vec<(FieldGauge, String, i64)> = Vec::new();
    assert(field_views(r@) =~= Seq::<(FieldGauge, Seq<char>, i64)>::empty());
    if groups.bitmap_memory {
        push_memory(&mut r, s);
    }
    if groups.eviction_stats {
        push_eviction(&mut r, s);
    }
    r
}

/// A group that is off is told of nothing, whatever its numbers are.
pub proof fn law_groups_that_are_off_stay_silent(a: EngineStats, b: EngineStats)
    requires
        a.documents == b.documents,
        a.cache == b.cache,
        a.flush == b.flush,
        a.worker == b.worker,
        a.rebuild == b.rebuild,
        a.store == b.store,
        a.doc_cache == b.doc_cache,
    ensures
        ({
            let off = MetricGroups { bitmap_memory: false, eviction_stats: false, boundstore_disk: false };
            &&& index_gauges(a, off) == index_gauges(b, off)
            &&& field_gauges(a, off) == Seq::<(FieldGauge, Seq<char>, i64)>::empty()
        }),
{
}

/// Whether a number is told with this value, and no other of the list is told under its name.
pub open spec fn told_once(told: Seq<(Gauge, i64)>, gauge: Gauge, value: u64) -> bool {
    &&& exists|i: int| 0 <= i < told.len() && #[trigger] told[i] == (gauge, value as i64)
    &&& forall|i: int, j: int|
        0 <= i < told.len() && 0 <= j < told.len() && (#[trigger] told[i]).0 == gauge && (#[trigger] told[j]).0 == gauge
            ==> i == j
}

/// Each number of documents is told once, under its own name.
pub proof fn law_documents_numbers_are_told_as_themselves(s: DocumentStats)
    ensures
        told_once(s.told(), Gauge::AliveDocuments, s.alive),
        told_once(s.told(), Gauge::SlotHighWater, s.slots),
{
    let told = s.told();
    assert(told[0] == (Gauge::AliveDocuments, s.alive as i64));
    assert(told[1] == (Gauge::SlotHighWater, s.slots as i64));
}

/// Each number of the cache of results is told once, under its own name.
pub proof fn law_cache_numbers_are_told_as_themselves(s: CacheStats)
    ensures
        told_once(s.told(), Gauge::CacheEntries, s.entries),
        told_once(s.told(), Gauge::CacheBytes, s.memory_bytes),
        told_once(s.told(), Gauge::CacheHits, s.hits),
        told_once(s.told(), Gauge::CacheMisses, s.misses),
        told_once(s.told(), Gauge::CacheInserts, s.inserts),
        told_once(s.told(), Gauge::CacheUpdates, s.updates),
        told_once(s.told(), Gauge::CacheEvictions, s.evictions),
        told_once(s.told(), Gauge::CacheInvalidations, s.invalidations),
        told_once(s.told(), Gauge::CacheEntriesInitial, s.entries_initial),
        told_once(s.told(), Gauge::CacheEntriesExpanded, s.entries_expanded),
        told_once(s.told(), Gauge::CacheExtensions, s.extensions),
        told_once(s.told(), Gauge::CacheWallHits, s.wall_hits),
        told_once(s.told(), Gauge::CachePrefetches, s.prefetches),
        told_once(s.told(), Gauge::CacheSubstitutedEntries, s.substituted),
        told_once(s.told(), Gauge::CacheCompoundEntries, s.compound),
{
    let told = s.told();
    assert(told[0] == (Gauge::CacheEntries, s.entries as i64));
    assert(told[1] == (Gauge::CacheBytes, s.memory_bytes as i64));
    assert(told[2] == (Gauge::CacheHits, s.hits as i64));
    assert(told[3] == (Gauge::CacheMisses, s.misses as i64));
    assert(told[4] == (Gauge::CacheInserts, s.inserts as i64));
    assert(told[5] == (Gauge::CacheUpdates, s.updates as i64));
    assert(told[6] == (Gauge::CacheEvictions, s.evictions as i64));
    assert(told[7] == (Gauge::CacheInvalidations, s.invalidations as i64));
    assert(told[8] == (Gauge::CacheEntriesInitial, s.entries_initial as i64));
    assert(told[9] == (Gauge::CacheEntriesExpanded, s.entries_expanded as i64));
    assert(told[10] == (Gauge::CacheExtensions, s.extensions as i64));
    assert(told[11] == (Gauge::CacheWallHits, s.wall_hits as i64));
    assert(told[12] == (Gauge::CachePrefetches, s.prefetches as i64));
    assert(told[13] == (Gauge::CacheSubstitutedEntries, s.substituted as i64));
    assert(told[14] == (Gauge::CacheCompoundEntries, s.compound as i64));
}

/// Each number of flushing is told once, under its own name.
pub proof fn law_flush_numbers_are_told_as_themselves(s: FlushStats)
    ensures
        told_once(s.told(), Gauge::SnapshotPublishes, s.published),
        told_once(s.told(), Gauge::FlushLastDuration, s.last_nanos),
        told_once(s.told(), Gauge::FlushApply, s.apply_nanos),
        told_once(s.told(), Gauge::FlushCache, s.cache_nanos),
        told_once(s.told(), Gauge::FlushPublish, s.publish_nanos),
        told_once(s.told(), Gauge::FlushTimeBucket, s.timebucket_nanos),
        told_once(s.told(), Gauge::FlushCompact, s.compact_nanos),
        told_once(s.told(), Gauge::FlushOpsLog, s.opslog_nanos),
        told_once(s.told(), Gauge::FlushSortPromote, s.sort_promote_nanos),
{
    let told = s.told();
    assert(told[0] == (Gauge::SnapshotPublishes, s.published as i64));
    assert(told[1] == (Gauge::FlushLastDuration, s.last_nanos as i64));
    assert(told[2] == (Gauge::FlushApply, s.apply_nanos as i64));
    assert(told[3] == (Gauge::FlushCache, s.cache_nanos as i64));
    assert(told[4] == (Gauge::FlushPublish, s.publish_nanos as i64));
    assert(told[5] == (Gauge::FlushTimeBucket, s.timebucket_nanos as i64));
    assert(told[6] == (Gauge::FlushCompact, s.compact_nanos as i64));
    assert(told[7] == (Gauge::FlushOpsLog, s.opslog_nanos as i64));
    assert(told[8] == (Gauge::FlushSortPromote, s.sort_promote_nanos as i64));
}

/// Each number of keeping the cache up to date is told once, under its own name.
pub proof fn law_worker_numbers_are_told_as_themselves(s: WorkerStats)
    ensures
        told_once(s.told(), Gauge::UniqueFilterShapes, s.unique_shapes),
        told_once(s.told(), Gauge::SortWorkItems, s.sort_work_items),
        told_once(s.told(), Gauge::UniqueFilterShapesMax, s.unique_shapes_max),
        told_once(s.told(), Gauge::SortWorkItemsMax, s.sort_work_items_max),
        told_once(s.told(), Gauge::WorkerQueueDepth, s.queue_depth),
        told_once(s.told(), Gauge::WorkerCycle, s.cycle_nanos),
        told_once(s.told(), Gauge::WorkerCoalesced, s.coalesced),
        told_once(s.told(), Gauge::WorkerDrops, s.drops),
        told_once(s.told(), Gauge::WorkerOverBudget, s.over_budget),
        told_once(s.told(), Gauge::BackpressureInvalidations, s.backpressure),
        told_once(s.told(), Gauge::WorkerCycles, s.cycles),
        told_once(s.told(), Gauge::NeedsRebuild, s.needs_rebuild),
{
    let told = s.told();
    assert(told[0] == (Gauge::UniqueFilterShapes, s.unique_shapes as i64));
    assert(told[1] == (Gauge::SortWorkItems, s.sort_work_items as i64));
    assert(told[2] == (Gauge::UniqueFilterShapesMax, s.unique_shapes_max as i64));
    assert(told[3] == (Gauge::SortWorkItemsMax, s.sort_work_items_max as i64));
    assert(told[4] == (Gauge::WorkerQueueDepth, s.queue_depth as i64));
    assert(told[5] == (Gauge::WorkerCycle, s.cycle_nanos as i64));
    assert(told[6] == (Gauge::WorkerCoalesced, s.coalesced as i64));
    assert(told[7] == (Gauge::WorkerDrops, s.drops as i64));
    assert(told[8] == (Gauge::WorkerOverBudget, s.over_budget as i64));
    assert(told[9] == (Gauge::BackpressureInvalidations, s.backpressure as i64));
    assert(told[10] == (Gauge::WorkerCycles, s.cycles as i64));
    assert(told[11] == (Gauge::NeedsRebuild, s.needs_rebuild as i64));
}

/// Each number of rebuilding is told once, under its own name.
pub proof fn law_rebuild_numbers_are_told_as_themselves(s: RebuildStats)
    ensures
        told_once(s.told(), Gauge::MarkedDeadline, s.deadline),
        told_once(s.told(), Gauge::MarkedCountBudget, s.count_budget),
        told_once(s.told(), Gauge::MarkedBacklogDrop, s.backlog_drop),
        told_once(s.told(), Gauge::MarkedAliveChange, s.alive_change),
        told_once(s.told(), Gauge::MarkedFilterInvalidation, s.filter_invalidation),
        told_once(s.told(), Gauge::MarkedCompoundTooLarge, s.compound_too_large),
        told_once(s.told(), Gauge::RebuildsCompleted, s.completed),
        told_once(s.told(), Gauge::EvictedOnOverrun, s.evicted_on_overrun),
{
    let told = s.told();
    assert(told[0] == (Gauge::MarkedDeadline, s.deadline as i64));
    assert(told[1] == (Gauge::MarkedCountBudget, s.count_budget as i64));
    assert(told[2] == (Gauge::MarkedBacklogDrop, s.backlog_drop as i64));
    assert(told[3] == (Gauge::MarkedAliveChange, s.alive_change as i64));
    assert(told[4] == (Gauge::MarkedFilterInvalidation, s.filter_invalidation as i64));
    assert(told[5] == (Gauge::MarkedCompoundTooLarge, s.compound_too_large as i64));
    assert(told[6] == (Gauge::RebuildsCompleted, s.completed as i64));
    assert(told[7] == (Gauge::EvictedOnOverrun, s.evicted_on_overrun as i64));
}

/// Each number of the stores is told once, under its own name.
pub proof fn law_store_numbers_are_told_as_themselves(s: StoreStats)
    ensures
        told_once(s.told(), Gauge::PutFastPath, s.put_fast),
        told_once(s.told(), Gauge::PutSlowPath, s.put_slow),
        told_once(s.told(), Gauge::PendingFields, s.pending_fields),
        told_once(s.told(), Gauge::CompactionsSkipped, s.compactions_skipped),
        told_once(s.told(), Gauge::BoundMetaEntries, s.meta_entries),
        told_once(s.told(), Gauge::BoundTombstones, s.tombstones),
        told_once(s.told(), Gauge::BoundPendingShards, s.pending_shards),
        told_once(s.told(), Gauge::BoundShardLoads, s.shard_loads),
        told_once(s.told(), Gauge::BoundTombstonesCreated, s.tombstones_created),
        told_once(s.told(), Gauge::BoundTombstonesCleaned, s.tombstones_cleaned),
        told_once(s.told(), Gauge::BoundEntriesRestored, s.entries_restored),
        told_once(s.told(), Gauge::BoundBytesWritten, s.bytes_written),
        told_once(s.told(), Gauge::BoundBytesRead, s.bytes_read),
{
    let told = s.told();
    assert(told[0] == (Gauge::PutFastPath, s.put_fast as i64));
    assert(told[1] == (Gauge::PutSlowPath, s.put_slow as i64));
    assert(told[2] == (Gauge::PendingFields, s.pending_fields as i64));
    assert(told[3] == (Gauge::CompactionsSkipped, s.compactions_skipped as i64));
    assert(told[4] == (Gauge::BoundMetaEntries, s.meta_entries as i64));
    assert(told[5] == (Gauge::BoundTombstones, s.tombstones as i64));
    assert(told[6] == (Gauge::BoundPendingShards, s.pending_shards as i64));
    assert(told[7] == (Gauge::BoundShardLoads, s.shard_loads as i64));
    assert(told[8] == (Gauge::BoundTombstonesCreated, s.tombstones_created as i64));
    assert(told[9] == (Gauge::BoundTombstonesCleaned, s.tombstones_cleaned as i64));
    assert(told[10] == (Gauge::BoundEntriesRestored, s.entries_restored as i64));
    assert(told[11] == (Gauge::BoundBytesWritten, s.bytes_written as i64));
    assert(told[12] == (Gauge::BoundBytesRead, s.bytes_read as i64));
}

/// Each number of the cache of documents is told once, under its own name.
pub proof fn law_doc_cache_numbers_are_told_as_themselves(s: DocCacheStats)
    ensures
        told_once(s.told(), Gauge::DocCacheHits, s.hits),
        told_once(s.told(), Gauge::DocCacheMisses, s.misses),
        told_once(s.told(), Gauge::DocCacheEntries, s.entries),
        told_once(s.told(), Gauge::DocCacheBytes, s.bytes),
        told_once(s.told(), Gauge::DocCacheEvictions, s.evictions),
        told_once(s.told(), Gauge::DocCacheGenerations, s.generations),
{
    let told = s.told();
    assert(told[0] == (Gauge::DocCacheHits, s.hits as i64));
    assert(told[1] == (Gauge::DocCacheMisses, s.misses as i64));
    assert(told[2] == (Gauge::DocCacheEntries, s.entries as i64));
    assert(told[3] == (Gauge::DocCacheBytes, s.bytes as i64));
    assert(told[4] == (Gauge::DocCacheEvictions, s.evictions as i64));
    assert(told[5] == (Gauge::DocCacheGenerations, s.generations as i64));
}

/// The numbers of an index are those of its parts, all of them and in one order, and behind them those
/// of the two groups that cost something, each where its group is on.
pub proof fn law_the_groups_decide_what_is_told(s: EngineStats, groups: MetricGroups)
    ensures
        ({
            let none = MetricGroups { bitmap_memory: false, eviction_stats: false, boundstore_disk: false };
            let always = index_gauges(s, none);
            let told = index_gauges(s, groups);
            let disk = seq![(Gauge::BoundDiskBytes, s.disk_bytes as i64)];
            let slots = seq![(Gauge::SlotBitmapBytes, s.slot_bytes as i64)];
            &&& always == s.documents.told() + s.cache.told() + s.flush.told() + s.worker.told() + s.rebuild.told()
                + s.store.told() + s.doc_cache.told()
            &&& groups.boundstore_disk && groups.bitmap_memory ==> told == always + disk + slots
            &&& groups.boundstore_disk && !groups.bitmap_memory ==> told == always + disk
            &&& !groups.boundstore_disk && groups.bitmap_memory ==> told == always + slots
            &&& !groups.boundstore_disk && !groups.bitmap_memory ==> told == always
        }),
{
    let none = MetricGroups { bitmap_memory: false, eviction_stats: false, boundstore_disk: false };
    let always = index_gauges(s, none);
    let disk = (Gauge::BoundDiskBytes, s.disk_bytes as i64);
    let slots = (Gauge::SlotBitmapBytes, s.slot_bytes as i64);
    assert(always.push(disk) =~= always + seq![disk]);
    assert(always.push(disk).push(slots) =~= always + seq![disk] + seq![slots]);
    assert(always.push(slots) =~= always + seq![slots]);
}

/// Each field is told under its own name: where the group of memory is on, how much a filter field
/// takes and how many bitmaps it has, and how much a sort field takes; where the group of evictions is
/// on, how much was thrown out and how much is left.
pub proof fn law_fields_are_told_under_their_own_name(
    s: EngineStats,
    groups: MetricGroups,
    i: int,
    told: (FieldGauge, Seq<char>, i64),
)
    ensures
        0 <= i < s.filter_memory@.len() && groups.bitmap_memory && (told == (
            FieldGauge::FilterBitmapBytes,
            s.filter_memory@[i].field@,
            s.filter_memory@[i].bytes as i64,
        ) || told == (
            FieldGauge::FilterBitmapCount,
            s.filter_memory@[i].field@,
            s.filter_memory@[i].count as i64,
        )) ==> field_gauges(s, groups).contains(told),
        0 <= i < s.sort_memory@.len() && groups.bitmap_memory && told == (
            FieldGauge::SortBitmapBytes,
            s.sort_memory@[i].field@,
            s.sort_memory@[i].bytes as i64,
        ) ==> field_gauges(s, groups).contains(told),
        0 <= i < s.eviction@.len() && groups.eviction_stats && (told == (
            FieldGauge::EvictionTotal,
            s.eviction@[i].field@,
            s.eviction@[i].total as i64,
        ) || told == (
            FieldGauge::EvictionResident,
            s.eviction@[i].field@,
            s.eviction@[i].resident as i64,
        )) ==> field_gauges(s, groups).contains(told),
        field_gauges(s, groups).len() == (if groups.bitmap_memory {
            2 * s.filter_memory@.len() + s.sort_memory@.len()
        } else {
            0
        }) + (if groups.eviction_stats {
            2 * s.eviction@.len()
        } else {
            0
        }),
{
    let nf = s.filter_memory@.len() as int;
    let ns = s.sort_memory@.len() as int;
    let ne = s.eviction@.len() as int;
    lemma_filter_gauges(s.filter_memory@, nf);
    lemma_sort_gauges(s.sort_memory@, ns);
    lemma_eviction_gauges(s.eviction@, ne);
    let all = field_gauges(s, groups);
    let a = filter_gauges(s.filter_memory@, nf);
    let b = sort_gauges(s.sort_memory@, ns);
    let c = eviction_gauges(s.eviction@, ne);
    let m: int = if groups.bitmap_memory { 2 * nf + ns } else { 0 };
    if 0 <= i < nf && groups.bitmap_memory {
        assert(a[2 * i] == all[2 * i]);
        assert(a[2 * i + 1] == all[2 * i + 1]);
        assert(a.skip(2 * i)[0] == a[2 * i]);
        assert(a.skip(2 * i)[1] == a[2 * i + 1]);
    }
    if 0 <= i < ns && groups.bitmap_memory {
        assert(b[i] == all[2 * nf + i]);
    }
    if 0 <= i < ne && groups.eviction_stats {
        assert(c[2 * i] == all[m + 2 * i]);
        assert(c[2 * i + 1] == all[m + 2 * i + 1]);
        assert(c.skip(2 * i)[0] == c[2 * i]);
        assert(c.skip(2 * i)[1] == c[2 * i + 1]);
    }
}

proof fn lemma_filter_gauges(fields: Seq<FilterMemory>, n: int)
    requires
        0 <= n <= fields.len(),
    ensures
        filter_gauges(fields, n).len() == 2 * n,
        forall|i: int|
            0 <= i < n ==> (#[trigger] filter_gauges(fields, n).skip(2 * i))[0] == (
                FieldGauge::FilterBitmapBytes,
                fields[i].field@,
                fields[i].bytes as i64,
            ) && filter_gauges(fields, n).skip(2 * i)[1] == (
                FieldGauge::FilterBitmapCount,
                fields[i].field@,
                fields[i].count as i64,
            ),
    decreases n,
{
    if n > 0 {
        lemma_filter_gauges(fields, n - 1);
        let before = filter_gauges(fields, n - 1);
        assert forall|i: int| 0 <= i < n - 1 implies (#[trigger] filter_gauges(fields, n).skip(2 * i))[0]
            == before.skip(2 * i)[0] && filter_gauges(fields, n).skip(2 * i)[1] == before.skip(2 * i)[1] by {}
    }
}

proof fn lemma_sort_gauges(fields: Seq<SortMemory>, n: int)
    requires
        0 <= n <= fields.len(),
    ensures
        sort_gauges(fields, n).len() == n,
        forall|i: int|
            0 <= i < n ==> #[trigger] sort_gauges(fields, n)[i] == (
                FieldGauge::SortBitmapBytes,
                fields[i].field@,
                fields[i].bytes as i64,
            ),
    decreases n,
{
    if n > 0 {
        lemma_sort_gauges(fields, n - 1);
        let before = sort_gauges(fields, n - 1);
        assert forall|i: int| 0 <= i < n - 1 implies #[trigger] sort_gauges(fields, n)[i] == before[i] by {}
    }
}

proof fn lemma_eviction_gauges(fields: Seq<Eviction>, n: int)
    requires
        0 <= n <= fields.len(),
    ensures
        eviction_gauges(fields, n).len() == 2 * n,
        forall|i: int|
            0 <= i < n ==> (#[trigger] eviction_gauges(fields, n).skip(2 * i))[0] == (
                FieldGauge::EvictionTotal,
                fields[i].field@,
                fields[i].total as i64,
            ) && eviction_gauges(fields, n).skip(2 * i)[1] == (
                FieldGauge::EvictionResident,
                fields[i].field@,
                fields[i].resident as i64,
            ),
    decreases n,
{
    if n > 0 {
        lemma_eviction_gauges(fields, n - 1);
        let before = eviction_gauges(fields, n - 1);
        assert forall|i: int| 0 <= i < n - 1 implies (#[trigger] eviction_gauges(fields, n).skip(2 * i))[0]
            == before.skip(2 * i)[0] && eviction_gauges(fields, n).skip(2 * i)[1] == before.skip(2 * i)[1] by {}
    }
}

} // verus!
