use bitdex::config::{CacheConfig, Config, Double};
use bitdex::preset::{apply_preset, CacheOverlay, PresetMetadata, PresetOverlay};

fn usual_config() -> Config {
    Config {
        flush_interval_us: 100,
        merge_interval_ms: 5000,
        channel_capacity: 100_000,
        compact_threshold_pct: 25,
        eviction_sweep_interval: 1000,
        max_page_size: 100,
        cache: CacheConfig {
            max_entries: 5000,
            max_bytes: 0,
            initial_capacity: 1000,
            max_capacity: 16000,
            min_filter_size: 0,
            decay_rate: Double { bits: 0.95f64.to_bits() },
            bound_target_size: 10000,
            bound_max_size: 20000,
            bound_max_count: 100,
            prefetch_threshold: Double { bits: 0.95f64.to_bits() },
            preload_bounds: false,
            max_maintenance_work: 1000,
            max_maintenance_ms: 50,
            async_maintenance: false,
            compound_eval_atom_limit: 8,
            bucket_entry_ttl_secs: 300,
        },
        filter_fields: vec![],
        sort_fields: vec![],
        range_buckets: None,
        max_registered_prefilters: 32,
        disabled_metrics: None,
        enabled_metrics: None,
    }
}

fn overlay(name: &str) -> PresetOverlay {
    PresetOverlay {
        metadata: PresetMetadata { name: name.to_string(), description: String::new() },
        flush_interval_us: None,
        merge_interval_ms: None,
        channel_capacity: None,
        compact_threshold_pct: None,
        eviction_sweep_interval: None,
        max_page_size: None,
        cache: None,
        unified_cache: None,
        doc_cache: None,
        shard_store: None,
    }
}

fn cache_overlay() -> CacheOverlay {
    CacheOverlay {
        max_entries: None,
        decay_rate: None,
        bound_target_size: None,
        bound_max_size: None,
        bound_max_count: None,
        prefetch_threshold: None,
        preload_bounds: None,
        max_maintenance_work: None,
        max_maintenance_ms: None,
    }
}

#[test]
fn test_apply_cache_overlay() {
    let mut overlay = overlay("test");
    overlay.cache =
        Some(CacheOverlay { bound_target_size: Some(50000), max_maintenance_ms: Some(5), ..cache_overlay() });
    let mut config = usual_config();
    apply_preset(&mut config, &overlay);
    assert_eq!(config.cache.bound_target_size, 50000);
    assert_eq!(config.cache.max_maintenance_ms, 5);
    assert_eq!(config.cache.bound_max_size, 20000);
}

#[test]
fn test_apply_top_level_overlay() {
    let mut overlay = overlay("test");
    overlay.flush_interval_us = Some(50);
    overlay.merge_interval_ms = Some(2000);
    let mut config = usual_config();
    apply_preset(&mut config, &overlay);
    assert_eq!(config.flush_interval_us, 50);
    assert_eq!(config.merge_interval_ms, 2000);
    assert_eq!(config.channel_capacity, 100_000);
}

#[test]
fn an_empty_preset_changes_nothing() {
    let mut config = usual_config();
    apply_preset(&mut config, &overlay("baseline"));
    assert_eq!(config.flush_interval_us, 100);
    assert_eq!(config.cache, usual_config().cache);
}

#[test]
fn a_preset_settles_at_once() {
    let mut overlay = overlay("fast");
    overlay.channel_capacity = Some(7);
    overlay.max_page_size = Some(9);
    overlay.cache = Some(CacheOverlay {
        max_entries: Some(1),
        decay_rate: Some(Double { bits: 0.5f64.to_bits() }),
        preload_bounds: Some(true),
        ..cache_overlay()
    });
    let mut once = usual_config();
    apply_preset(&mut once, &overlay);
    let mut twice = usual_config();
    apply_preset(&mut twice, &overlay);
    apply_preset(&mut twice, &overlay);
    assert_eq!(once.cache, twice.cache);
    assert_eq!(once.channel_capacity, 7);
    assert_eq!(twice.max_page_size, 9);
    assert_eq!(f64::from_bits(once.cache.decay_rate.bits), 0.5);
}
