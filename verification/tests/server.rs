use bitdex::config::{CacheConfig, Config, Double, FilterFieldConfig, RangeBucketConfig, SortFieldConfig};
use bitdex::json::Json;
use bitdex::query::{FilterClause, SortClause, SortDirection, Value};
use bitdex::relay::auth::Header;
use bitdex::server::answer::{require_index, Refusal};
use bitdex::server::boot::{health_port, stream_enabled, BitdexServer};
use bitdex::server::dumps::{
    dump_kind, is_stale, judge_dump, plan_redump, plan_wipe, restart_endpoint, DumpKind, DumpOutcome, DumpVerdict,
    WipeStep,
};
use bitdex::server::fanout::{
    applied_to, parse_pod_ordinal, parse_usize, patch_warning, peer_result, peer_urls, should_fan_out,
};
use bitdex::server::fields::{
    add_fields, audit_sample, check_rebuild, plan_compaction, remove_fields, require_known, require_some,
    undo_add_fields,
};
use bitdex::server::http::{
    is_recorded, is_timed, path_label, phases, require_admin, stage_micros, Phase, Stages,
};
use bitdex::server::indexes::{
    check_create, check_delete, default_threads, definition_format, find_index_config, first_index, is_valid_name,
    new_dictionaries, note_done, runtime_place, ui_config_candidates, ui_step, DefinitionFormat, DirEntry, Place,
    UiFile, UiStep,
};
use bitdex::server::lookups::{cursor_not_found, cursor_value, readiness, task_not_found};
use bitdex::server::mutations::{
    check_filter_sync, check_warm, direction_of, has_dictionaries, refreshes_tables, report_batch, report_deletions,
    report_warming, sync_status, warm_query, DocOutcome, WarmOutcome,
};
use bitdex::server::patch::{apply_patch, restore_groups, CachePatch, ConfigPatch, FieldPatch, PatchCommand, RangePatch};
use bitdex::server::queries::{
    effective_format, is_watched, keeps_trace, prepare_query, Overload, Peak, QueryEvent, QueryGate,
};
use bitdex::server::schema::{DataSchema, FieldMapping, FieldValueType};
use bitdex::server::string_maps::{
    build_labels, build_reverse_string_maps_with_dicts, build_string_maps_with_dicts, FieldDictionary,
};
use bitdex::server::tasks::{TaskRegistry, TaskStatus, TaskType};
use bitdex::server::wal::{
    after_read, next_step, report_applied, sweep_due, AfterRead, Applied, ApplyReport, ReadOutcome, Retention,
    WalCursor, WalStep,
};

fn said(refusal: Refusal) -> (u16, String) {
    (refusal.status, refusal.error)
}

fn texts(items: &[&str]) -> Vec<String> {
    items.iter().map(|s| s.to_string()).collect()
}

#[test]
fn patch_config_fanout_ordinal_parser() {
    assert_eq!(parse_pod_ordinal("bitdex-0"), Some(0));
    assert_eq!(parse_pod_ordinal("bitdex-1"), Some(1));
    assert_eq!(parse_pod_ordinal("bitdex-12"), Some(12));
    assert_eq!(parse_pod_ordinal("bitdex"), None);
    assert_eq!(parse_pod_ordinal("bitdex-abc"), None);
    assert_eq!(parse_pod_ordinal(""), None);
    assert_eq!(parse_pod_ordinal("my-service-3"), Some(3));
}

#[test]
fn inflight_guard_decrements_on_drop() {
    let mut gate = QueryGate::new(0);
    assert_eq!(gate.enter(), Ok(1));
    assert_eq!(gate.in_flight, 1);
    gate.leave();
    assert_eq!(gate.in_flight, 0);
    assert_eq!(gate.peak.value, 1);
}

#[test]
fn peak_tracking_is_monotonic() {
    let mut peak = Peak::new(0);
    peak.raise(5);
    assert_eq!(peak.value, 5);
    peak.raise(3);
    assert_eq!(peak.value, 5);
    peak.raise(12);
    assert_eq!(peak.value, 12);
    peak.raise(12);
    assert_eq!(peak.value, 12);
}

#[test]
fn peak_tracking_no_toctou_regression() {
    let mut peak = Peak::new(5);
    peak.raise(12);
    peak.raise(10);
    assert_eq!(peak.value, 12);
}

#[test]
fn too_many_queries_are_turned_away() {
    let mut gate = QueryGate::new(2);
    assert_eq!(gate.enter(), Ok(1));
    assert_eq!(gate.enter(), Ok(2));
    assert_eq!(gate.enter(), Err(Overload { queries_in_flight: 3, max_concurrency: 2 }));
    gate.leave();
    gate.leave();
    assert_eq!(gate.enter(), Ok(2));
    assert_eq!(gate.peak.value, 3);
}

#[test]
fn task_registry_start_and_complete() {
    let mut reg = TaskRegistry::new();
    let tid = reg.try_start(TaskType::Load).expect("should start");
    reg.set_progress(tid, 42);

    let info = reg.get(tid).expect("should find active task");
    assert_eq!(info.task_id, tid);
    assert_eq!(info.progress.records_processed, 42);
    assert!(matches!(info.status, TaskStatus::Running));

    reg.set_complete(tid, Some(Json::Object(vec![("ok".to_string(), Json::Bool(true))])));
    let snap = reg.snapshot();
    assert!(snap.active.is_empty());

    let hist = reg.get(tid).expect("should find in history");
    assert!(matches!(hist.status, TaskStatus::Complete));
    match hist.result {
        Some(Json::Object(fields)) => {
            assert_eq!(fields.len(), 1);
            assert_eq!(fields[0].0, "ok");
            assert!(matches!(fields[0].1, Json::Bool(true)));
        }
        other => panic!("expected an object, got {other:?}"),
    }
}

#[test]
fn task_registry_exclusive_tasks_block_each_other() {
    let mut reg = TaskRegistry::new();
    reg.try_start(TaskType::Load).expect("first start should succeed");
    let err = reg.try_start(TaskType::Dump).expect_err("should conflict");
    assert!(matches!(err.task_type, TaskType::Load));
}

#[test]
fn task_registry_compact_blocks_on_mutating() {
    let mut reg = TaskRegistry::new();
    reg.try_start(TaskType::Rebuild).expect("rebuild should start");
    let err = reg.try_start(TaskType::Compact).expect_err("compact should be blocked");
    assert!(matches!(err.task_type, TaskType::Rebuild));
}

#[test]
fn task_registry_mutating_blocks_on_compact() {
    let mut reg = TaskRegistry::new();
    reg.try_start(TaskType::Compact).expect("compact should start");
    let err = reg.try_start(TaskType::Load).expect_err("load should be blocked by compact");
    assert!(matches!(err.task_type, TaskType::Compact));
}

#[test]
fn task_registry_two_compacts_are_exclusive() {
    let mut reg = TaskRegistry::new();
    reg.try_start(TaskType::Compact).expect("first compact");
    let err = reg.try_start(TaskType::Compact).expect_err("second compact should be blocked");
    assert!(matches!(err.task_type, TaskType::Compact));
}

#[test]
fn task_registry_set_error_moves_to_history() {
    let mut reg = TaskRegistry::new();
    let tid = reg.try_start(TaskType::AddFields).expect("start");
    reg.set_error(tid, "something went wrong".to_string());
    let snap = reg.snapshot();
    assert!(snap.active.is_empty());
    let hist = reg.get(tid).expect("in history");
    assert!(matches!(hist.status, TaskStatus::Error));
    assert_eq!(hist.error.as_deref(), Some("something went wrong"));
}

#[test]
fn task_registry_set_saving_changes_status() {
    let mut reg = TaskRegistry::new();
    let tid = reg.try_start(TaskType::Load).expect("start");
    reg.set_saving(tid);
    let info = reg.get(tid).expect("still active");
    assert!(matches!(info.status, TaskStatus::Saving));
}

#[test]
fn task_registry_history_capped_at_20() {
    let mut reg = TaskRegistry::new();
    for _ in 0..25 {
        let tid = reg.try_start(TaskType::Compact).expect("start");
        reg.set_complete(tid, None);
    }
    let snap = reg.snapshot();
    assert_eq!(snap.history.len(), 20);
}

#[test]
fn task_registry_snapshot_active_is_vec() {
    let mut reg = TaskRegistry::new();
    let snap = reg.snapshot();
    assert!(snap.active.is_empty());
    reg.try_start(TaskType::Compact).expect("start");
    let snap = reg.snapshot();
    assert_eq!(snap.active.len(), 1);
}

#[test]
fn task_guard_calls_set_error_on_drop() {
    let mut reg = TaskRegistry::new();
    let tid = reg.try_start(TaskType::Load).expect("start");
    reg.abandon(Some(tid));
    let snap = reg.snapshot();
    assert!(snap.active.is_empty());
    let hist = reg.get(tid).expect("in history");
    assert!(matches!(hist.status, TaskStatus::Error));
    assert_eq!(hist.error.as_deref(), Some("Task panicked"));
    reg.abandon(None);
    assert_eq!(reg.snapshot().history.len(), 1);
}

#[test]
fn the_newest_tasks_are_remembered() {
    let mut reg = TaskRegistry::new();
    let mut last = 0;
    for _ in 0..22 {
        last = reg.try_start(TaskType::Compact).expect("start");
        reg.set_complete(last, None);
    }
    assert_eq!(reg.snapshot().history[0].task_id, last);
    assert!(reg.get(1).is_none());
    assert!(reg.get(3).is_some());
}

#[test]
fn query_event_serializes_correctly() {
    let event = QueryEvent {
        ts_ms: 1_700_000_000_000,
        index: "civitai".to_string(),
        body: r#"{"filters":[]}"#.to_string(),
        client_meta: None,
    };
    let json = event.to_json();
    assert!(json.contains("\"index\":\"civitai\""));
    assert!(json.contains("\"ts_ms\":1700000000000"));
    assert!(!json.contains("client_meta"));
    let value: serde_json::Value = serde_json::from_str(&json).unwrap();
    assert!(value["body"]["filters"].is_array());
}

#[test]
fn query_event_client_meta_included_when_some() {
    let event = QueryEvent {
        ts_ms: 0,
        index: "test".to_string(),
        body: "null".to_string(),
        client_meta: Some("1.2.3.4".to_string()),
    };
    let json = event.to_json();
    assert!(json.contains("\"client_meta\":\"1.2.3.4\""));
}

#[test]
fn query_stream_broadcast_send_and_receive() {
    let (tx, mut rx) = tokio::sync::broadcast::channel::<QueryEvent>(16);
    let event = QueryEvent::of_request(42, "my-index", br#"{"limit": 10}"#);
    tx.send(event).expect("channel has subscriber");
    let received = rx.try_recv().expect("event should be queued");
    assert_eq!(received.ts_ms, 42);
    assert_eq!(received.index, "my-index");
    assert_eq!(received.body, r#"{"limit":10}"#);
}

#[test]
fn query_stream_no_sender_means_no_overhead() {
    let sender: Option<tokio::sync::broadcast::Sender<QueryEvent>> = None;
    if let Some(ref tx) = sender {
        let _ = tx.send(QueryEvent::of_request(0, "x", b""));
        panic!("should not reach here");
    }
}

#[test]
fn watchers_see_the_index_they_ask_for() {
    let event = QueryEvent::of_request(1, "a", b"not json");
    assert_eq!(event.body, "null");
    assert!(is_watched(&event, None));
    assert!(is_watched(&event, Some("a")));
    assert!(!is_watched(&event, Some("b")));
    assert!(stream_enabled(Some("1")));
    assert!(!stream_enabled(Some("0")));
    assert!(!stream_enabled(None));
}

fn config() -> Config {
    Config {
        flush_interval_us: 100,
        merge_interval_ms: 5000,
        channel_capacity: 100_000,
        compact_threshold_pct: 25,
        eviction_sweep_interval: 1000,
        max_page_size: 100,
        cache: CacheConfig {
            max_entries: 5000,
            max_bytes: 0,
            initial_capacity: 1000,
            max_capacity: 16000,
            min_filter_size: 0,
            decay_rate: Double { bits: 0.95f64.to_bits() },
            bound_target_size: 10000,
            bound_max_size: 20000,
            bound_max_count: 100,
            prefetch_threshold: Double { bits: 0.95f64.to_bits() },
            preload_bounds: false,
            max_maintenance_work: 1000,
            max_maintenance_ms: 50,
            async_maintenance: false,
            compound_eval_atom_limit: 8,
            bucket_entry_ttl_secs: 300,
        },
        filter_fields: vec![filter("tags", true), filter("userId", false)],
        sort_fields: vec![sort("score")],
        range_buckets: Some(vec![RangeBucketConfig { name: "24h".to_string(), refresh_interval_secs: 300 }]),
        max_registered_prefilters: 32,
        disabled_metrics: None,
        enabled_metrics: None,
    }
}

fn filter(name: &str, multi_value: bool) -> FilterFieldConfig {
    FilterFieldConfig { name: name.to_string(), multi_value, eager_load: false }
}

fn sort(name: &str) -> SortFieldConfig {
    SortFieldConfig { name: name.to_string(), eager_load: false }
}

fn filter_names(config: &Config) -> Vec<&str> {
    config.filter_fields.iter().map(|f| f.name.as_str()).collect()
}

fn no_patch() -> ConfigPatch {
    ConfigPatch {
        filter_fields: None,
        sort_fields: None,
        cache: None,
        range_buckets: None,
        max_query_concurrency: None,
        enable_traces: None,
        trace_min_us: None,
        trace_buffer_size: None,
        enabled_metrics: None,
        disabled_metrics: None,
        query_tee_mode: None,
        par_iter_min_threshold: None,
        bitmap_compact_threshold: None,
        max_registered_prefilters: None,
        time_bucket_full_rebuild_interval_secs: None,
        deferred_sweep_interval_secs: None,
        deferred_sweep_limit: None,
    }
}

fn no_cache_patch() -> CachePatch {
    CachePatch {
        max_entries: None,
        max_bytes: None,
        initial_capacity: None,
        max_capacity: None,
        min_filter_size: None,
        decay_rate: None,
        bound_target_size: None,
        bound_max_size: None,
        bound_max_count: None,
        prefetch_threshold: None,
        max_maintenance_work: None,
        max_maintenance_ms: None,
        async_maintenance: None,
        compound_eval_atom_limit: None,
        bucket_entry_ttl_secs: None,
    }
}

fn refused(patch: &ConfigPatch) -> (u16, String) {
    said(apply_patch(&mut config(), patch, &texts(&["24h"])).refusal.expect("refused"))
}

#[test]
fn patches_are_refused_for_what_is_wrong() {
    let on = FieldPatch { eager_load: Some(true) };
    let filters = ConfigPatch { filter_fields: Some(vec![("nope".to_string(), on)]), ..no_patch() };
    assert_eq!(refused(&filters), (400, "Unknown filter field: 'nope'".to_string()));
    let sorts = ConfigPatch { sort_fields: Some(vec![("nope".to_string(), on)]), ..no_patch() };
    assert_eq!(refused(&sorts), (400, "Unknown sort field: 'nope'".to_string()));
    let decay = |v: f64| ConfigPatch {
        cache: Some(CachePatch { decay_rate: Some(Double { bits: v.to_bits() }), ..no_cache_patch() }),
        ..no_patch()
    };
    for bad in [0.0, -0.0, -0.5, 1.5] {
        assert_eq!(refused(&decay(bad)).1, "cache.decay_rate must be in (0.0, 1.0]");
    }
    assert!(apply_patch(&mut config(), &decay(1.0), &vec![]).refusal.is_none());
    let prefetch = |v: f64| ConfigPatch {
        cache: Some(CachePatch { prefetch_threshold: Some(Double { bits: v.to_bits() }), ..no_cache_patch() }),
        ..no_patch()
    };
    for bad in [f64::NAN, -0.1, 1.1] {
        assert_eq!(refused(&prefetch(bad)).1, "cache.prefetch_threshold must be in [0.0, 1.0]");
    }
    assert!(apply_patch(&mut config(), &prefetch(0.0), &vec![]).refusal.is_none());
    let bucket = |name: &str, secs: u64| ConfigPatch {
        range_buckets: Some(vec![RangePatch { name: name.to_string(), refresh_interval_secs: Some(secs) }]),
        ..no_patch()
    };
    assert_eq!(refused(&bucket("24h", 0)).1, "time_buckets bucket '24h': refresh_interval_secs must be > 0");
    assert_eq!(refused(&bucket("9d", 5)).1, "Unknown time bucket: '9d'");
    let many = ConfigPatch { max_registered_prefilters: Some(33), ..no_patch() };
    assert_eq!(refused(&many).1, "max_registered_prefilters must be 0-32 (got 33)");
    let none = ConfigPatch { trace_buffer_size: Some(0), ..no_patch() };
    assert_eq!(refused(&none).1, "trace_buffer_size must be > 0");
}

#[test]
fn patches_change_what_they_say() {
    let mut config = config();
    let patch = ConfigPatch {
        filter_fields: Some(vec![("tags".to_string(), FieldPatch { eager_load: Some(true) })]),
        cache: Some(CachePatch { max_entries: Some(9), bound_max_size: Some(7), ..no_cache_patch() }),
        range_buckets: Some(vec![RangePatch { name: "24h".to_string(), refresh_interval_secs: Some(60) }]),
        max_query_concurrency: Some(3),
        disabled_metrics: Some(texts(&["eviction_stats"])),
        ..no_patch()
    };
    let result = apply_patch(&mut config, &patch, &texts(&["24h"]));
    assert!(result.refusal.is_none());
    assert_eq!(result.new_eager_filters, texts(&["tags"]));
    assert!(result.new_eager_sorts.is_empty());
    assert!(config.filter_fields[0].eager_load);
    assert!(!config.filter_fields[1].eager_load);
    assert_eq!(config.cache.max_entries, 9);
    assert_eq!(config.cache.bound_max_size, 7);
    assert_eq!(config.cache.bound_target_size, 10000);
    assert_eq!(config.range_buckets.unwrap()[0].refresh_interval_secs, 60);
    assert_eq!(config.disabled_metrics, Some(texts(&["eviction_stats"])));
    assert!(matches!(result.commands[0], PatchCommand::CacheMaxEntries(9)));
    assert!(matches!(&result.commands[1], PatchCommand::TimeBucketRefresh(name, 60) if name == "24h"));
    assert!(matches!(result.commands[2], PatchCommand::MaxQueryConcurrency(3)));
    match &result.commands[3] {
        PatchCommand::Groups(groups) => {
            assert!(groups.bitmap_memory && !groups.eviction_stats && groups.boundstore_disk)
        }
        other => panic!("expected the groups, got {other:?}"),
    }
    assert_eq!(result.commands.len(), 4);
}

#[test]
fn an_empty_patch_changes_nothing() {
    let mut patched = config();
    let result = apply_patch(&mut patched, &no_patch(), &vec![]);
    assert!(result.refusal.is_none());
    assert!(result.commands.is_empty());
    assert_eq!(patched.cache, config().cache);
    assert_eq!(filter_names(&patched), vec!["tags", "userId"]);
}

#[test]
fn disabled_groups_count_before_enabled_ones() {
    let groups = restore_groups(&Some(texts(&["bitmap_memory"])), &Some(texts(&["bitmap_memory"])));
    assert!(!groups.bitmap_memory && groups.eviction_stats && groups.boundstore_disk);
    let groups = restore_groups(&None, &Some(texts(&["boundstore_disk"])));
    assert!(!groups.bitmap_memory && !groups.eviction_stats && groups.boundstore_disk);
    let groups = restore_groups(&None, &None);
    assert!(groups.bitmap_memory && groups.eviction_stats && groups.boundstore_disk);
}

#[test]
fn changes_reach_every_other_replica() {
    let urls = peer_urls("bitdex-1", 3, "main");
    assert_eq!(urls.len(), 2);
    assert_eq!(urls[0].0, "bitdex-0");
    assert_eq!(
        urls[1].1,
        "http://bitdex-2.bitdex-headless.bitdex.svc.cluster.local:3000/api/indexes/main/config"
    );
    assert!(peer_urls("bitdex", 3, "main").is_empty());
    assert!(should_fan_out(None, Some("bitdex-0"), Some(2)));
    assert!(!should_fan_out(Some("bitdex-1"), Some("bitdex-0"), Some(2)));
    assert!(!should_fan_out(None, None, Some(2)));
    assert!(!should_fan_out(None, Some("bitdex-0"), Some(1)));
    assert_eq!(parse_usize("+7"), Some(7));
    assert_eq!(parse_usize("18446744073709551616"), None);
    assert_eq!(parse_usize(""), None);
    assert_eq!(applied_to(None), "unknown");
    assert!(patch_warning().starts_with("in-memory only"));
    let failed = peer_result("p".to_string(), false, "timeout".to_string());
    assert_eq!(failed.error.as_deref(), Some("timeout"));
    assert!(peer_result("p".to_string(), true, "x".to_string()).error.is_none());
}

#[test]
fn added_fields_can_be_taken_back() {
    let mut config = config();
    let filters = vec![filter("color", false)];
    let sorts = vec![sort("age")];
    assert!(add_fields(&mut config, &filters, &sorts).is_ok());
    assert_eq!(filter_names(&config), vec!["tags", "userId", "color"]);
    assert_eq!(config.sort_fields.len(), 2);
    undo_add_fields(&mut config, &filters, &sorts);
    assert_eq!(filter_names(&config), vec!["tags", "userId"]);
    assert_eq!(config.sort_fields.len(), 1);
    let err = add_fields(&mut config, &vec![filter("tags", false)], &vec![]).unwrap_err();
    assert_eq!(said(err), (409, "Filter field 'tags' already exists".to_string()));
    let err = add_fields(&mut config, &vec![], &vec![sort("score")]).unwrap_err();
    assert_eq!(said(err), (409, "Sort field 'score' already exists".to_string()));
}

#[test]
fn removed_fields_have_to_be_there() {
    let mut config = config();
    let err = remove_fields(&mut config, &texts(&["nope"]), &vec![]).unwrap_err();
    assert_eq!(said(err), (400, "Filter field 'nope' not found in config".to_string()));
    let err = remove_fields(&mut config, &vec![], &texts(&["nope"])).unwrap_err();
    assert_eq!(said(err), (400, "Sort field 'nope' not found in config".to_string()));
    assert!(remove_fields(&mut config, &texts(&["tags"]), &texts(&["score"])).is_ok());
    assert_eq!(filter_names(&config), vec!["userId"]);
    assert!(config.sort_fields.is_empty());
    assert_eq!(said(require_some(0, 0).unwrap_err()), (400, "No fields specified".to_string()));
    assert!(require_some(0, 1).is_ok());
}

#[test]
fn missing_fields_are_named() {
    assert!(require_known(&vec![]).is_ok());
    let err = require_known(&texts(&["a", "b\"c"])).unwrap_err();
    assert_eq!(said(err), (400, "Fields not found in docstore: [\"a\", \"b\\\"c\"]".to_string()));
}

#[test]
fn only_known_fields_are_rebuilt() {
    let config = config();
    assert!(check_rebuild(&config, &None, &None).is_ok());
    let err = check_rebuild(&config, &Some(texts(&["x"])), &Some(texts(&["y"]))).unwrap_err();
    assert_eq!(said(err), (400, "Unknown sort field: x".to_string()));
    let err = check_rebuild(&config, &Some(texts(&["score"])), &Some(texts(&["tags", "y"]))).unwrap_err();
    assert_eq!(said(err), (400, "Unknown filter field: y".to_string()));
}

#[test]
fn compaction_takes_all_or_what_is_named() {
    let plan = plan_compaction(&None, None, None).unwrap();
    assert_eq!((plan.threshold, plan.workers, plan.bitmaps, plan.docs), (0, 4, true, true));
    let plan = plan_compaction(&Some(texts(&["docs"])), Some(5), Some(100)).unwrap();
    assert_eq!((plan.threshold, plan.workers, plan.bitmaps, plan.docs), (5, 32, false, true));
    let plan = plan_compaction(&Some(vec![]), None, Some(0)).unwrap();
    assert_eq!((plan.workers, plan.bitmaps, plan.docs), (1, true, true));
    let err = plan_compaction(&Some(texts(&["docs", "wal"])), None, None).unwrap_err();
    assert_eq!(said(err), (400, "Invalid target 'wal'. Valid targets: bitmaps, docs".to_string()));
    assert_eq!(audit_sample(10_000_000), 1000);
    assert_eq!(audit_sample(7), 7);
}

#[test]
fn batches_tell_what_failed() {
    let outcomes = vec![
        DocOutcome::Done,
        DocOutcome::Unreadable("no id".to_string()),
        DocOutcome::NotAlive(7),
        DocOutcome::Failed(9, "full".to_string()),
        DocOutcome::Done,
    ];
    let report = report_batch(&outcomes);
    assert_eq!(report.done, 2);
    assert_eq!(
        report.errors,
        texts(&["doc[1]: no id", "doc[2] id=7: not alive (use upsert for new docs)", "doc[3] id=9: full"])
    );
    assert_eq!(sync_status(&report), 207);
    assert_eq!(sync_status(&report_batch(&vec![])), 200);
    assert_eq!(sync_status(&report_batch(&vec![DocOutcome::NotAlive(1)])), 500);
    let report = report_deletions(&vec![(4, None), (5, Some("gone".to_string()))]);
    assert_eq!(report.done, 1);
    assert_eq!(report.errors, texts(&["id=5: gone"]));
}

fn mapping(target: &str, value_type: FieldValueType) -> FieldMapping {
    FieldMapping {
        source: target.into(),
        target: target.into(),
        value_type,
        fallback: None,
        string_map: None,
        doc_only: false,
        filter_only: false,
        ms_to_seconds: false,
        truncate_u32: false,
        case_sensitive: false,
        default_value: None,
        nullable: false,
    }
}

fn schema(fields: Vec<FieldMapping>) -> DataSchema {
    DataSchema { id_field: "id".to_string(), schema_version: 1, fields }
}

#[test]
fn values_are_set_where_a_field_takes_them() {
    let only = FieldMapping { filter_only: true, ..mapping("tags", FieldValueType::IntegerArray) };
    let with = schema(vec![only]);
    assert!(check_filter_sync(&config(), &with, "tags").is_ok());
    let err = check_filter_sync(&config(), &with, "userId").unwrap_err();
    assert_eq!(said(err), (400, "Field 'userId' is not a filter_only multi_value field".to_string()));
    let without = schema(vec![mapping("tags", FieldValueType::IntegerArray)]);
    assert!(check_filter_sync(&config(), &without, "tags").is_err());
    assert!(!has_dictionaries(&without));
    let lcs = schema(vec![mapping("model", FieldValueType::LowCardinalityString)]);
    assert!(has_dictionaries(&lcs));
    assert!(refreshes_tables(true, 1));
    assert!(!refreshes_tables(true, 0));
}

#[test]
fn warming_asks_for_one_result() {
    let filters = vec![FilterClause::Eq("a".to_string(), Value::Integer(1))];
    let sort = SortClause { field: "score".to_string(), direction: SortDirection::Asc };
    let query = warm_query(&filters, &sort);
    assert_eq!(query.to_text(), "WHERE a = 1 ORDER BY score Asc LIMIT 1");
    assert!(!query.skip_cache);
    let report = report_warming(&vec![
        (WarmOutcome::Ran { cache_hit: true, matched: 5 }, 10),
        (WarmOutcome::Ran { cache_hit: false, matched: 6 }, 20),
        (WarmOutcome::Failed("boom".to_string()), 30),
    ]);
    assert_eq!((report.warmed, report.already_cached), (1, 1));
    assert_eq!(report.results[0].status, "already_cached");
    assert_eq!(report.results[1].status, "warmed");
    assert_eq!(report.results[1].matched, 6);
    assert_eq!(report.results[2].status, "error: boom");
    assert_eq!((report.results[2].query_index, report.results[2].elapsed_us), (2, 30));
    assert_eq!(said(check_warm(0).unwrap_err()), (400, "queries array must not be empty".to_string()));
    assert_eq!(direction_of(Some("asc")), SortDirection::Asc);
    assert_eq!(direction_of(Some("up")), SortDirection::Desc);
    assert_eq!(direction_of(None), SortDirection::Desc);
}

#[test]
fn queries_are_made_ready() {
    let mut registry = bitdex::prefilter::PrefilterRegistry::new();
    let mut slots = roaring::RoaringBitmap::new();
    slots.insert(3);
    let eq = |f: &str| FilterClause::Eq(f.to_string(), Value::Integer(1));
    registry.insert("safe".to_string(), vec![eq("a")], slots.clone(), 300, 0, 0).unwrap();
    let sort = SortClause { field: "score".to_string(), direction: SortDirection::Desc };
    let query = warm_query(&vec![eq("a"), eq("b")], &sort);
    let prepared = prepare_query(query, Some(true), &mut registry, &slots);
    assert!(prepared.query.skip_cache);
    assert_eq!(prepared.asked_filters.len(), 2);
    assert_eq!(prepared.query.filters[0].to_text(), "__prefilter ~bucket(safe)");
    assert_eq!(prepared.query.filters[1].to_text(), "b = 1");
    assert_eq!(effective_format(None, "bitdex"), "bitdex");
    assert_eq!(effective_format(Some("compact"), "bitdex"), "compact");
    assert!(keeps_trace(true, 0, 0));
    assert!(!keeps_trace(true, 10, 9));
    assert!(!keeps_trace(false, 0, 100));
}

#[test]
fn indexes_are_named_plainly() {
    assert!(is_valid_name("main_index-2"));
    assert!(is_valid_name("größe"));
    assert!(!is_valid_name(""));
    assert!(!is_valid_name("a b"));
    assert!(!is_valid_name("a/b"));
    assert!(is_valid_name(&"x".repeat(64)));
    assert!(!is_valid_name(&"x".repeat(65)));
    assert!(!is_valid_name(&"ß".repeat(33)));
    assert!(check_create("main", false, None).is_ok());
    let err = check_create("", true, None).unwrap_err();
    assert_eq!(said(err), (400, "Invalid index name. Use alphanumeric, underscore, or hyphen.".to_string()));
    let err = check_create("main", true, Some("bad")).unwrap_err();
    assert_eq!(said(err), (409, "An index already exists. Delete it first.".to_string()));
    let err = check_create("main", false, Some("bad")).unwrap_err();
    assert_eq!(said(err), (400, "Invalid config: bad".to_string()));
}

#[test]
fn indexes_are_found_and_deleted() {
    let main = "main".to_string();
    assert!(require_index(Some(&main), "main").is_ok());
    let err = require_index(None, "main").unwrap_err();
    assert_eq!(said(err), (404, "Index 'main' not found".to_string()));
    assert!(check_delete(Some(&main), "main", 0).is_ok());
    assert_eq!(check_delete(Some(&main), "other", 1).unwrap_err().status, 404);
    let err = check_delete(Some(&main), "main", 1).unwrap_err();
    assert_eq!(said(err), (409, "Cannot delete index while a task is running".to_string()));
}

#[test]
fn the_first_definition_is_restored() {
    let entry = |is_dir, has_yaml, has_yml| DirEntry { is_dir, has_yaml, has_yml };
    let entries = vec![entry(false, true, true), entry(true, false, false), entry(true, false, true)];
    assert_eq!(first_index(&entries), Some(2));
    assert_eq!(first_index(&vec![entry(true, false, false)]), None);
    assert_eq!(find_index_config(true, true), Some("config.yaml"));
    assert_eq!(find_index_config(false, true), Some("config.yml"));
    assert_eq!(find_index_config(false, false), None);
    assert_eq!(definition_format("yml"), Ok(DefinitionFormat::Yaml));
    assert_eq!(definition_format("json"), Ok(DefinitionFormat::Json));
    assert_eq!(definition_format("toml"), Err("unsupported index config format: 'toml'".to_string()));
    assert_eq!(runtime_place(true), Place::Data);
    assert_eq!(runtime_place(false), Place::Source);
}

#[test]
fn restored_records_are_in_the_history() {
    let mut tasks = TaskRegistry::new();
    let result = Json::Object(vec![("records_loaded".to_string(), Json::Integer(12))]);
    note_done(&mut tasks, TaskType::Load, 12, result);
    let snap = tasks.snapshot();
    assert!(snap.active.is_empty());
    assert_eq!(snap.history[0].progress.records_processed, 12);
    assert!(matches!(snap.history[0].status, TaskStatus::Complete));
    tasks.try_start(TaskType::Compact).unwrap();
    note_done(&mut tasks, TaskType::Rebuild, 1, Json::Null);
    assert_eq!(tasks.snapshot().history.len(), 1);
}

#[test]
fn new_indexes_begin_with_empty_dictionaries() {
    let fields = vec![
        mapping("model", FieldValueType::LowCardinalityString),
        mapping("n", FieldValueType::Integer),
    ];
    let dictionaries = new_dictionaries(&schema(fields));
    assert_eq!(dictionaries.len(), 1);
    assert_eq!(dictionaries[0].0, "model");
    assert!(dictionaries[0].1.keys.entries.is_empty());
}

#[test]
fn the_interface_is_configured_where_a_file_is() {
    let places = ui_config_candidates();
    assert_eq!(places[0], (Place::Source, "ui-config.yaml"));
    assert_eq!(places[3], (Place::Data, "ui-config.yml"));
    assert!(matches!(ui_step(&UiFile::Missing), UiStep::Next));
    assert!(matches!(ui_step(&UiFile::Unreadable), UiStep::Next));
    assert!(matches!(ui_step(&UiFile::Parsed), UiStep::Serve));
    match ui_step(&UiFile::Broken("line 3".to_string())) {
        UiStep::Refuse(e) => assert_eq!(said(e), (500, "Invalid ui-config YAML: line 3".to_string())),
        other => panic!("expected a refusal, got {other:?}"),
    }
    assert_eq!(default_threads(2), 4);
    assert_eq!(default_threads(12), 6);
    assert_eq!(default_threads(64), 8);
}

#[test]
fn texts_and_numbers_go_both_ways() {
    let kind = FieldMapping {
        string_map: Some(vec![("Image".to_string(), 1), ("VIDEO".to_string(), 2)]),
        ..mapping("kind", FieldValueType::MappedString)
    };
    let exact = FieldMapping {
        string_map: Some(vec![("A".to_string(), 5)]),
        case_sensitive: true,
        ..mapping("exact", FieldValueType::MappedString)
    };
    let model = mapping("model", FieldValueType::LowCardinalityString);
    let fields = schema(vec![kind, exact, model]);
    let dictionary = FieldDictionary {
        keys: bitdex::filter::KeyTable { entries: vec![("sdxl".to_string(), 9)] },
        texts: bitdex::server::schema::TextTable { entries: vec![(9, "SDXL".to_string())] },
    };
    let dictionaries = vec![("model".to_string(), dictionary)];
    let (maps, sensitive) = build_string_maps_with_dicts(&fields, Some(&dictionaries));
    let table = |name: &str| &maps.iter().find(|(n, _)| n == name).unwrap().1;
    assert_eq!(table("kind").find_key("video"), Some(2));
    assert_eq!(table("kind").find_key("VIDEO"), None);
    assert_eq!(table("exact").find_key("A"), Some(5));
    assert_eq!(table("model").find_key("sdxl"), Some(9));
    assert_eq!(sensitive, texts(&["exact"]));
    let reverse = build_reverse_string_maps_with_dicts(&fields, Some(&dictionaries));
    let text = |name: &str, key: i64| {
        let found = reverse.iter().find(|(n, _)| n == name).unwrap();
        found.1.find_text(key).cloned()
    };
    assert_eq!(text("kind", 2).as_deref(), Some("VIDEO"));
    assert_eq!(text("model", 9).as_deref(), Some("SDXL"));
    assert_eq!(text("exact", 6), None);
    let labels = build_labels(&dictionaries, &fields);
    assert_eq!(labels.len(), 3);
    assert_eq!(build_string_maps_with_dicts(&fields, None).0.len(), 2);
}

#[test]
fn cursors_are_set_to_texts() {
    let body = Json::Object(vec![("value".to_string(), Json::Text("12".to_string()))]);
    assert_eq!(cursor_value(&body).unwrap(), "12");
    let number = Json::Object(vec![("value".to_string(), Json::Integer(12))]);
    assert_eq!(said(cursor_value(&number).unwrap_err()), (400, "missing 'value' field".to_string()));
    assert!(cursor_value(&Json::Null).is_err());
    assert_eq!(said(cursor_not_found("wal")), (404, "Cursor 'wal' not found".to_string()));
    assert_eq!(said(task_not_found(5)), (404, "Task 5 not found".to_string()));
    assert_eq!(readiness(true), (200, None));
    assert_eq!(readiness(false).0, 503);
}

#[test]
fn dumps_are_files_or_logs() {
    let text = |s: &str| Json::Text(s.to_string());
    let file = Json::Object(vec![("csv_path".to_string(), text("/a.csv"))]);
    assert!(matches!(dump_kind(&file), DumpKind::File));
    let log = Json::Object(vec![("name".to_string(), text("tags")), ("wal_path".to_string(), text("/w"))]);
    match dump_kind(&log) {
        DumpKind::Log { name, wal_path } => {
            assert_eq!(name, "tags");
            assert_eq!(wal_path.as_deref(), Some("/w"));
        }
        other => panic!("expected a log, got {other:?}"),
    }
    assert!(matches!(dump_kind(&Json::Null), DumpKind::Log { name, wal_path: None } if name == "unknown"));
}

#[test]
fn a_dump_without_rows_has_failed() {
    match judge_dump("tags", DumpOutcome::Processed { rows: 0 }, true) {
        DumpVerdict::DumpFailed { error } => {
            assert_eq!(error, "dump 'tags' processed 0 rows — possible CSV header/column mismatch")
        }
        other => panic!("expected a failure, got {other:?}"),
    }
    let done = judge_dump("tags", DumpOutcome::Processed { rows: 5 }, true);
    assert!(matches!(done, DumpVerdict::Complete { rows: 5, reload: true }));
    let failed = judge_dump("tags", DumpOutcome::Failed("bad".to_string()), true);
    assert!(matches!(failed, DumpVerdict::TaskFailed { error } if error == "bad"));
    let lost = judge_dump("tags", DumpOutcome::Panicked("oops".to_string()), true);
    assert!(matches!(lost, DumpVerdict::TaskFailed { error } if error == "Task panicked: oops"));
    assert!(is_stale(&vec![false, true], false));
    assert!(!is_stale(&vec![false, true], true));
    assert!(!is_stale(&vec![false], false));
}

#[test]
fn starting_over_is_done_once_at_a_time() {
    let main = "main".to_string();
    let plan = plan_redump(Some(&main), "main", false, None, None, None).unwrap();
    assert_eq!(plan.drain_secs, 30);
    assert_eq!(plan.sidecar_url, "http://127.0.0.1:9192");
    let plan =
        plan_redump(Some(&main), "main", false, Some(5), Some("http://a/".to_string()), Some("http://b".to_string()))
            .unwrap();
    assert_eq!((plan.drain_secs, plan.sidecar_url.as_str()), (5, "http://a/"));
    assert_eq!(restart_endpoint("http://a//"), "http://a/internal/restart");
    let err = plan_redump(Some(&main), "x", true, None, None, None).unwrap_err();
    assert_eq!(said(err), (404, "Index 'x' not loaded".to_string()));
    let err = plan_redump(Some(&main), "main", true, None, None, None).unwrap_err();
    assert_eq!(said(err), (409, "redump already in progress".to_string()));
}

#[test]
fn wiping_spares_the_configuration() {
    let steps = plan_wipe();
    assert_eq!(steps.len(), 11);
    assert!(matches!(steps[0], WipeStep::IndexDir("shardstore")));
    assert!(matches!(steps[8], WipeStep::ServiceFile("dumps.json")));
    assert!(matches!(steps[10], WipeStep::Marker(".redump_in_progress")));
    for step in steps {
        match step {
            WipeStep::IndexDir(n) | WipeStep::ServiceDir(n) | WipeStep::ServiceFile(n) | WipeStep::Marker(n) => {
                assert_ne!(n, "config.yaml");
                assert_ne!(n, "ui-config.yaml");
            }
        }
    }
}

fn hdr(name: &str, value: &str) -> Header {
    Header { name: name.to_string(), text: Some(value.to_string()) }
}

#[test]
fn administrators_show_the_token() {
    let outside = || hdr("x-forwarded-for", "1.2.3.4");
    assert!(require_admin(&vec![], None).is_ok());
    assert_eq!(require_admin(&vec![outside()], None).unwrap_err().status, 403);
    let err = require_admin(&vec![outside()], Some("t")).unwrap_err();
    assert_eq!(said(err), (401, "Authorization header required: Bearer <admin_token>".to_string()));
    let err = require_admin(&vec![outside(), hdr("authorization", "Bearer x")], Some("t")).unwrap_err();
    assert_eq!(said(err), (401, "Invalid admin token".to_string()));
    assert!(require_admin(&vec![outside(), hdr("authorization", "Bearer t")], Some("t")).is_ok());
}

#[test]
fn paths_are_labelled_without_the_index() {
    assert_eq!(path_label("/api/indexes/civitai/query"), "/api/indexes/*/query");
    assert_eq!(path_label("/api/indexes/civitai/documents/upsert"), "/api/indexes/*/documents");
    assert_eq!(path_label("/metrics"), "/metrics");
    assert!(is_timed("POST", "/api/indexes/a/query"));
    assert!(!is_timed("GET", "/api/indexes/a/query"));
    assert!(is_recorded(true, "/api/indexes"));
    assert!(!is_recorded(true, "/debug/capture/start"));
    assert!(!is_recorded(true, "/metrics"));
    assert!(!is_recorded(false, "/api/indexes"));
}

#[test]
fn the_time_of_a_request_divides() {
    let s = Stages { handler_entered: 1_000, engine_started: 3_000, engine_done: 10_000, docs_done: 12_000 };
    let parts = phases(s, 20_000);
    assert_eq!(
        parts,
        vec![
            (Phase::ToHandler, 1_000),
            (Phase::ToEngine, 2_000),
            (Phase::Engine, 7_000),
            (Phase::DocFetch, 2_000),
            (Phase::ToResponse, 8_000),
        ]
    );
    assert_eq!(parts.iter().map(|(_, ns)| ns).sum::<u64>(), 20_000);
    assert_eq!(stage_micros(s), (1, 2));
    let none = Stages { handler_entered: 0, engine_started: 0, engine_done: 0, docs_done: 0 };
    assert!(phases(none, 20_000).is_empty());
}

#[test]
fn the_log_is_read_round_by_round() {
    assert_eq!(next_step(true, true), WalStep::Exit);
    assert_eq!(next_step(false, true), WalStep::Pause(100));
    assert_eq!(next_step(false, false), WalStep::Read(10_000));
    let at = WalCursor::new(3, 500);
    let batch = |entries, bytes_read| ReadOutcome::Batch { entries, crc_failures: 0, bytes_read };
    assert_eq!(after_read(batch(4, 100), true, at), AfterRead::Apply);
    let back = AfterRead::Rewind { to: WalCursor::new(3, 400), sleep_ms: 1000 };
    assert_eq!(after_read(batch(4, 100), false, at), back);
    assert_eq!(after_read(batch(0, 0), true, at), AfterRead::Idle { noteworthy: false, sleep_ms: 50 });
    assert_eq!(after_read(batch(0, 9), true, at), AfterRead::Idle { noteworthy: true, sleep_ms: 50 });
    assert_eq!(after_read(ReadOutcome::Failed, true, at), AfterRead::Retry { sleep_ms: 1000 });
    let b = Applied { batch: 4, applied: 2, skipped: 1, errors: 0, crc_failures: 0, slot_counter: 9 };
    match report_applied(b, at) {
        (ApplyReport::Applied(text), true) => {
            assert_eq!(text, "WAL reader: applied=2 skipped=1 errors=0 cursor=3:500")
        }
        other => panic!("expected a report, got {other:?}"),
    }
    assert!(matches!(report_applied(Applied { applied: 0, ..b }, at), (ApplyReport::AllSkipped(_), false)));
    assert!(sweep_due(Some(60), 60, false));
    assert!(!sweep_due(Some(60), 60, true));
    assert!(!sweep_due(Some(0), 60, false));
}

#[test]
fn files_of_the_log_stay_until_they_are_safe() {
    let mut kept = Retention::start(WalCursor::new(3, 0));
    assert_eq!(kept.advance(WalCursor::new(3, 10), Some(WalCursor::new(9, 0))), None);
    assert_eq!(kept.advance(WalCursor::new(5, 10), None), None);
    assert_eq!(kept.advance(WalCursor::new(5, 10), Some(WalCursor::new(3, 99))), None);
    assert_eq!(kept.advance(WalCursor::new(5, 10), Some(WalCursor::new(4, 0))), Some(4));
    assert_eq!(kept.kept_from, 4);
}

#[test]
fn settings_are_built_up() {
    let server = BitdexServer::new("/data".into())
        .with_index_dir("/config".into())
        .with_rebuild(true)
        .with_default_query_format("compact".to_string())
        .with_enable_traces(true)
        .with_trace_buffer_size(5)
        .with_admin_token(Some("t".to_string()))
        .with_max_query_concurrency(8);
    assert_eq!(server.data_dir, std::path::PathBuf::from("/data"));
    assert_eq!(server.index_dir, Some("/config".into()));
    assert!(server.rebuild && server.enable_traces);
    assert_eq!(server.default_query_format.as_deref(), Some("compact"));
    assert_eq!(server.trace_buffer_size, 5);
    assert_eq!(server.admin_token.as_deref(), Some("t"));
    assert_eq!(server.max_query_concurrency, 8);
    assert_eq!(BitdexServer::new("/data".into()).trace_buffer_size, 1000);
    assert_eq!(health_port(3000), 3001);
}

#[test]
fn tasks_are_numbered_one_after_the_other() {
    let mut reg = TaskRegistry::new();
    for expected in 1..=3 {
        assert_eq!(reg.try_start(TaskType::Dump).unwrap(), expected);
        assert_eq!(reg.try_start(TaskType::Load).unwrap_err().task_id, expected);
        reg.set_complete(expected, None);
    }
    assert!(reg.snapshot().active.is_empty());
}
