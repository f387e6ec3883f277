//! Presets: partial configurations that are laid over a configuration.

use crate::config::{CacheConfig, Config, Double};
use vstd::prelude::*;

verus! {

/// A preset. Only what it says changes the configuration it is laid over.
#[derive(Debug)]
pub struct PresetOverlay {
    /// The name of the preset and what it is for; it changes nothing.
    pub metadata: PresetMetadata,
    pub flush_interval_us: Option<u64>,
    pub merge_interval_ms: Option<u64>,
    pub channel_capacity: Option<usize>,
    pub compact_threshold_pct: Option<u64>,
    pub eviction_sweep_interval: Option<u64>,
    pub max_page_size: Option<usize>,
    pub cache: Option<CacheOverlay>,
    pub unified_cache: Option<UnifiedCacheOverlay>,
    pub doc_cache: Option<DocCacheOverlay>,
    pub shard_store: Option<ShardStoreOverlay>,
}

/// What a preset is called and for.
#[derive(Debug)]
pub struct PresetMetadata {
    pub name: String,
    pub description: String,
}

/// What a preset says of the cache.
#[derive(Debug, Clone, Copy)]
pub struct CacheOverlay {
    pub max_entries: Option<usize>,
    pub decay_rate: Option<Double>,
    pub bound_target_size: Option<usize>,
    pub bound_max_size: Option<usize>,
    pub bound_max_count: Option<usize>,
    pub prefetch_threshold: Option<Double>,
    pub preload_bounds: Option<bool>,
    pub max_maintenance_work: Option<usize>,
    pub max_maintenance_ms: Option<u64>,
}

/// What a preset says of the unified cache.
#[derive(Debug, Clone, Copy)]
pub struct UnifiedCacheOverlay {
    pub max_bytes: Option<usize>,
    pub max_entries: Option<usize>,
    pub initial_capacity: Option<usize>,
    pub max_capacity: Option<usize>,
    pub min_filter_size: Option<usize>,
}

/// What a preset says of the cache of documents.
#[derive(Debug, Clone, Copy)]
pub struct DocCacheOverlay {
    pub max_bytes: Option<u64>,
}

/// What a preset says of the shard store.
#[derive(Debug, Clone, Copy)]
pub struct ShardStoreOverlay {
    pub compact_threshold: Option<u32>,
}

/// What is said, or else what was there.
pub open spec fn or_else<A>(said: Option<A>, there: A) -> A {
    match said {
        Some(v) => v,
        None => there,
    }
}

/// The configuration of the cache with a preset laid over it.
pub open spec fn overlaid_cache(cache: CacheConfig, overlay: CacheOverlay) -> CacheConfig {
    CacheConfig {
        max_entries: or_else(overlay.max_entries, cache.max_entries),
        decay_rate: or_else(overlay.decay_rate, cache.decay_rate),
        bound_target_size: or_else(overlay.bound_target_size, cache.bound_target_size),
        bound_max_size: or_else(overlay.bound_max_size, cache.bound_max_size),
        bound_max_count: or_else(overlay.bound_max_count, cache.bound_max_count),
        prefetch_threshold: or_else(overlay.prefetch_threshold, cache.prefetch_threshold),
        preload_bounds: or_else(overlay.preload_bounds, cache.preload_bounds),
        max_maintenance_work: or_else(overlay.max_maintenance_work, cache.max_maintenance_work),
        max_maintenance_ms: or_else(overlay.max_maintenance_ms, cache.max_maintenance_ms),
        ..cache
    }
}

/// A configuration with a preset laid over it.
pub open spec fn overlaid(config: Config, preset: PresetOverlay) -> Config {
    Config {
        flush_interval_us: or_else(preset.flush_interval_us, config.flush_interval_us),
        merge_interval_ms: or_else(preset.merge_interval_ms, config.merge_interval_ms),
        channel_capacity: or_else(preset.channel_capacity, config.channel_capacity),
        compact_threshold_pct: or_else(preset.compact_threshold_pct, config.compact_threshold_pct),
        eviction_sweep_interval: or_else(preset.eviction_sweep_interval, config.eviction_sweep_interval),
        max_page_size: or_else(preset.max_page_size, config.max_page_size),
        cache: match preset.cache {
            Some(overlay) => overlaid_cache(config.cache, overlay),
            None => config.cache,
        },
        ..config
    }
}

/// Lays a preset over the configuration of the cache.
pub fn apply_cache_overlay(cache: &mut CacheConfig, overlay: &CacheOverlay)
    ensures
        *final(cache) == overlaid_cache(*old(cache), *overlay),
{
    if let Some(v) = overlay.max_entries {
        cache.max_entries = v;
    }
    if let Some(v) = overlay.decay_rate {
        cache.decay_rate = v;
    }
    if let Some(v) = overlay.bound_target_size {
        cache.bound_target_size = v;
    }
    if let Some(v) = overlay.bound_max_size {
        cache.bound_max_size = v;
    }
    if let Some(v) = overlay.bound_max_count {
        cache.bound_max_count = v;
    }
    if let Some(v) = overlay.prefetch_threshold {
        cache.prefetch_threshold = v;
    }
    if let Some(v) = overlay.preload_bounds {
        cache.preload_bounds = v;
    }
    if let Some(v) = overlay.max_maintenance_work {
        cache.max_maintenance_work = v;
    }
    if let Some(v) = overlay.max_maintenance_ms {
        cache.max_maintenance_ms = v;
    }
}

/// Lays a preset over a configuration.
pub fn apply_preset(config: &mut Config, preset: &PresetOverlay)
    ensures
        *final(config) == overlaid(*old(config), *preset),
{
    if let Some(v) = preset.flush_interval_us {
        config.flush_interval_us = v;
    }
    if let Some(v) = preset.merge_interval_ms {
        config.merge_interval_ms = v;
    }
    if let Some(v) = preset.channel_capacity {
        config.channel_capacity = v;
    }
    if let Some(v) = preset.compact_threshold_pct {
        config.compact_threshold_pct = v;
    }
    if let Some(v) = preset.eviction_sweep_interval {
        config.eviction_sweep_interval = v;
    }
    if let Some(v) = preset.max_page_size {
        config.max_page_size = v;
    }
    if let Some(overlay) = &preset.cache {
        apply_cache_overlay(&mut config.cache, overlay);
    }
}

/// A preset that says nothing changes nothing.
pub proof fn law_empty_presets_change_nothing(config: Config, preset: PresetOverlay)
    requires
        preset.flush_interval_us is None,
        preset.merge_interval_ms is None,
        preset.channel_capacity is None,
        preset.compact_threshold_pct is None,
        preset.eviction_sweep_interval is None,
        preset.max_page_size is None,
        preset.cache is None,
    ensures
        overlaid(config, preset) == config,
{
}

/// Laying a preset over a configuration a second time changes nothing more.
pub proof fn law_presets_settle(config: Config, preset: PresetOverlay)
    ensures
        overlaid(overlaid(config, preset), preset) == overlaid(config, preset),
{
}

/// A preset that says nothing of the cache.
pub open spec fn silent_overlay() -> CacheOverlay {
    CacheOverlay {
        max_entries: None,
        decay_rate: None,
        bound_target_size: None,
        bound_max_size: None,
        bound_max_count: None,
        prefetch_threshold: None,
        preload_bounds: None,
        max_maintenance_work: None,
        max_maintenance_ms: None,
    }
}

/// Each thing that a preset says of the cache is laid over that thing and no other.
pub proof fn law_each_cache_setting_is_laid_over_itself(cache: CacheConfig, n: usize, m: u64, b: bool, d: Double)
    ensures
        overlaid_cache(cache, (CacheOverlay { max_entries: Some(n), ..silent_overlay() })) == (CacheConfig {
            max_entries: n,
            ..cache
        }),
        overlaid_cache(cache, (CacheOverlay { decay_rate: Some(d), ..silent_overlay() })) == (CacheConfig {
            decay_rate: d,
            ..cache
        }),
        overlaid_cache(cache, (CacheOverlay { bound_target_size: Some(n), ..silent_overlay() })) == (CacheConfig {
            bound_target_size: n,
            ..cache
        }),
        overlaid_cache(cache, (CacheOverlay { bound_max_size: Some(n), ..silent_overlay() })) == (CacheConfig {
            bound_max_size: n,
            ..cache
        }),
        overlaid_cache(cache, (CacheOverlay { bound_max_count: Some(n), ..silent_overlay() })) == (CacheConfig {
            bound_max_count: n,
            ..cache
        }),
        overlaid_cache(cache, (CacheOverlay { prefetch_threshold: Some(d), ..silent_overlay() })) == (CacheConfig {
            prefetch_threshold: d,
            ..cache
        }),
        overlaid_cache(cache, (CacheOverlay { preload_bounds: Some(b), ..silent_overlay() })) == (CacheConfig {
            preload_bounds: b,
            ..cache
        }),
        overlaid_cache(cache, (CacheOverlay { max_maintenance_work: Some(n), ..silent_overlay() })) == (CacheConfig {
            max_maintenance_work: n,
            ..cache
        }),
        overlaid_cache(cache, (CacheOverlay { max_maintenance_ms: Some(m), ..silent_overlay() })) == (CacheConfig {
            max_maintenance_ms: m,
            ..cache
        }),
        overlaid_cache(cache, silent_overlay()) == cache,
{
}

/// Each thing that a preset says is laid over that thing and no other, whatever else the preset says.
pub proof fn law_each_setting_is_laid_over_itself(config: Config, preset: PresetOverlay, n: usize, m: u64)
    ensures
        overlaid(config, (PresetOverlay { flush_interval_us: Some(m), ..preset })) == (Config {
            flush_interval_us: m,
            ..overlaid(config, preset)
        }),
        overlaid(config, (PresetOverlay { flush_interval_us: None, ..preset })) == (Config {
            flush_interval_us: config.flush_interval_us,
            ..overlaid(config, preset)
        }),
        overlaid(config, (PresetOverlay { merge_interval_ms: Some(m), ..preset })) == (Config {
            merge_interval_ms: m,
            ..overlaid(config, preset)
        }),
        overlaid(config, (PresetOverlay { merge_interval_ms: None, ..preset })) == (Config {
            merge_interval_ms: config.merge_interval_ms,
            ..overlaid(config, preset)
        }),
        overlaid(config, (PresetOverlay { channel_capacity: Some(n), ..preset })) == (Config {
            channel_capacity: n,
            ..overlaid(config, preset)
        }),
        overlaid(config, (PresetOverlay { channel_capacity: None, ..preset })) == (Config {
            channel_capacity: config.channel_capacity,
            ..overlaid(config, preset)
        }),
        overlaid(config, (PresetOverlay { compact_threshold_pct: Some(m), ..preset })) == (Config {
            compact_threshold_pct: m,
            ..overlaid(config, preset)
        }),
        overlaid(config, (PresetOverlay { compact_threshold_pct: None, ..preset })) == (Config {
            compact_threshold_pct: config.compact_threshold_pct,
            ..overlaid(config, preset)
        }),
        overlaid(config, (PresetOverlay { eviction_sweep_interval: Some(m), ..preset })) == (Config {
            eviction_sweep_interval: m,
            ..overlaid(config, preset)
        }),
        overlaid(config, (PresetOverlay { eviction_sweep_interval: None, ..preset })) == (Config {
            eviction_sweep_interval: config.eviction_sweep_interval,
            ..overlaid(config, preset)
        }),
        overlaid(config, (PresetOverlay { max_page_size: Some(n), ..preset })) == (Config {
            max_page_size: n,
            ..overlaid(config, preset)
        }),
        overlaid(config, (PresetOverlay { max_page_size: None, ..preset })) == (Config {
            max_page_size: config.max_page_size,
            ..overlaid(config, preset)
        }),
        preset.cache matches Some(overlay) ==> overlaid(config, preset) == (Config {
            cache: overlaid_cache(config.cache, overlay),
            ..overlaid(config, (PresetOverlay { cache: None, ..preset }))
        }),
        overlaid(config, (PresetOverlay { cache: None, ..preset })).cache == config.cache,
        overlaid(config, (PresetOverlay { unified_cache: None, doc_cache: None, shard_store: None, ..preset }))
            == overlaid(config, preset),
{
}

} // verus!
