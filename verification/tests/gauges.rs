use bitdex::server::gauges::{
    tell_fields, tell_index, CacheStats, DocCacheStats, DocumentStats, EngineStats, Eviction, FieldGauge, FilterMemory,
    FlushStats, Gauge, RebuildStats, SortMemory, StoreStats, WorkerStats,
};
use bitdex::server::patch::MetricGroups;

fn stats() -> EngineStats {
    EngineStats {
        documents: DocumentStats { alive: 7, slots: 9 },
        cache: CacheStats {
            entries: 1,
            memory_bytes: 2,
            hits: 3,
            misses: 4,
            inserts: 5,
            updates: 6,
            evictions: 7,
            invalidations: 8,
            entries_initial: 9,
            entries_expanded: 10,
            extensions: 11,
            wall_hits: 12,
            prefetches: 13,
            substituted: 14,
            compound: 15,
        },
        flush: FlushStats {
            published: 1,
            last_nanos: 2,
            apply_nanos: 3,
            cache_nanos: 4,
            publish_nanos: 5,
            timebucket_nanos: 6,
            compact_nanos: 7,
            opslog_nanos: 8,
            sort_promote_nanos: 9,
        },
        worker: WorkerStats {
            unique_shapes: 1,
            sort_work_items: 2,
            unique_shapes_max: 3,
            sort_work_items_max: 4,
            queue_depth: 5,
            cycle_nanos: 6,
            coalesced: 7,
            drops: 8,
            over_budget: 9,
            backpressure: 10,
            cycles: 11,
            needs_rebuild: 12,
        },
        rebuild: RebuildStats {
            deadline: 1,
            count_budget: 2,
            backlog_drop: 3,
            alive_change: 4,
            filter_invalidation: 5,
            compound_too_large: 6,
            completed: 7,
            evicted_on_overrun: 8,
        },
        store: StoreStats {
            put_fast: 1,
            put_slow: 2,
            pending_fields: 3,
            compactions_skipped: 4,
            meta_entries: 5,
            tombstones: 6,
            pending_shards: 7,
            shard_loads: 8,
            tombstones_created: 9,
            tombstones_cleaned: 10,
            entries_restored: 11,
            bytes_written: 12,
            bytes_read: 13,
        },
        doc_cache: DocCacheStats { hits: 1, misses: 2, entries: 3, bytes: 4, evictions: 5, generations: 6 },
        slot_bytes: 70,
        filter_memory: vec![FilterMemory { field: "tags".to_string(), bytes: 80, count: 3 }],
        sort_memory: vec![SortMemory { field: "score".to_string(), bytes: 90 }],
        eviction: vec![Eviction { field: "tags".to_string(), total: 4, resident: 5 }],
        disk_bytes: 60,
    }
}

fn groups(on: bool) -> MetricGroups {
    MetricGroups { bitmap_memory: on, eviction_stats: on, boundstore_disk: on }
}

#[test]
fn every_number_is_told_once() {
    let told = tell_index(&stats(), groups(true));
    assert_eq!(told.len(), 67);
    assert_eq!(told[0], (Gauge::AliveDocuments, 7));
    assert!(told.contains(&(Gauge::MarkedBacklogDrop, 3)));
    assert!(told.contains(&(Gauge::BoundDiskBytes, 60)));
    assert_eq!(told[66], (Gauge::SlotBitmapBytes, 70));
    for (i, (gauge, _)) in told.iter().enumerate() {
        assert!(told.iter().skip(i + 1).all(|(other, _)| other != gauge));
    }
}

#[test]
fn fields_are_told_by_group() {
    let tags = || "tags".to_string();
    assert_eq!(
        tell_fields(&stats(), groups(true)),
        vec![
            (FieldGauge::FilterBitmapBytes, tags(), 80),
            (FieldGauge::FilterBitmapCount, tags(), 3),
            (FieldGauge::SortBitmapBytes, "score".to_string(), 90),
            (FieldGauge::EvictionTotal, tags(), 4),
            (FieldGauge::EvictionResident, tags(), 5),
        ]
    );
    let only = MetricGroups { bitmap_memory: false, eviction_stats: true, boundstore_disk: false };
    assert_eq!(tell_fields(&stats(), only).len(), 2);
    assert!(tell_fields(&stats(), groups(false)).is_empty());
    assert_eq!(tell_index(&stats(), groups(false)).len(), 65);
}
