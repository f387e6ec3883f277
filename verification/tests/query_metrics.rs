use bitdex::query::{FilterClause, Value};
use bitdex::query_metrics::{
    iso_now, read_traces, ClauseTrace, QueryTrace, QueryTraceCollector, SortTrace, TraceBuffer, DEFAULT_CAPACITY,
};

#[test]
fn test_iso_now_format() {
    let ts = iso_now();
    assert!(ts.ends_with('Z'));
    assert_eq!(ts.len(), 24);
    assert_eq!(&ts[4..5], "-");
    assert_eq!(&ts[7..8], "-");
    assert_eq!(&ts[10..11], "T");
}

fn clause_trace() -> ClauseTrace {
    ClauseTrace {
        ord: 0,
        field: "nsfwLevel".into(),
        op: "In".into(),
        values: "[1,2,4]".into(),
        card: 50_000_000,
        acc_before: 0,
        acc_after: 50_000_000,
        eval_us: 100,
        and_us: 0,
        mode: "first".into(),
        range_scan: None,
    }
}

#[test]
fn test_collector_finalize() {
    let mut collector = QueryTraceCollector::new();
    collector.record_clause(clause_trace());
    collector.filter_us = 200;
    let trace = collector.finalize("test-index", 100);
    assert_eq!(trace.index, "test-index");
    assert_eq!(trace.result_count, 100);
    assert_eq!(trace.clauses.len(), 1);
    assert_eq!(trace.clauses[0].field, "nsfwLevel");
}

#[test]
fn test_clause_helpers() {
    let clause = FilterClause::Eq("status".into(), Value::Integer(1));
    assert_eq!(clause.field_name(), Some("status"));
    assert_eq!(clause.op_name(), "Eq");
    assert_eq!(clause.values_repr(), "1");

    let clause = FilterClause::In("tags".into(), vec![Value::Integer(1), Value::Integer(2)]);
    assert_eq!(clause.op_name(), "In");
    assert_eq!(clause.values_repr(), "[1,2]");
}

fn make_trace(n: u64) -> QueryTrace {
    QueryTrace {
        ts: format!("2026-03-14T00:00:0{n}.000Z"),
        index: "test".into(),
        total_us: n * 100,
        plan_us: 0,
        filter_us: 0,
        sort_us: 0,
        result_count: n,
        docs_us: 0,
        docs_count: 0,
        cache_hit: false,
        cache_lock_us: 0,
        clauses: vec![],
        sort: None,
        lazy_load_us: 0,
    }
}

#[test]
fn test_trace_ring_buffer() {
    let mut buf = TraceBuffer::new(3);
    buf.push(make_trace(1));
    buf.push(make_trace(2));
    assert_eq!(buf.last_n(10).len(), 2);
    buf.push(make_trace(3));
    buf.push(make_trace(4));
    let recent = buf.last_n(10);
    assert_eq!(recent.len(), 3);
    assert_eq!(recent[0].result_count, 2);
    assert_eq!(recent[2].result_count, 4);
    let limited = buf.last_n(1);
    assert_eq!(limited.len(), 1);
    assert_eq!(limited[0].result_count, 4);
}

#[test]
fn test_trace_buffer_resize_grow() {
    let mut buf = TraceBuffer::new(2);
    buf.push(make_trace(1));
    buf.push(make_trace(2));
    assert_eq!(buf.capacity(), 2);
    assert_eq!(buf.last_n(10).len(), 2);
    buf.resize(5);
    assert_eq!(buf.capacity(), 5);
    assert_eq!(buf.last_n(10).len(), 2);
    buf.push(make_trace(3));
    buf.push(make_trace(4));
    buf.push(make_trace(5));
    assert_eq!(buf.last_n(10).len(), 5);
}

#[test]
fn test_trace_buffer_resize_shrink() {
    let mut buf = TraceBuffer::new(5);
    for i in 1..=5 {
        buf.push(make_trace(i));
    }
    assert_eq!(buf.last_n(10).len(), 5);
    buf.resize(2);
    assert_eq!(buf.capacity(), 2);
    let traces = buf.last_n(10);
    assert_eq!(traces.len(), 2);
    assert_eq!(traces[0].result_count, 4);
    assert_eq!(traces[1].result_count, 5);
    buf.push(make_trace(6));
    let traces = buf.last_n(10);
    assert_eq!(traces.len(), 2);
    assert_eq!(traces[0].result_count, 5);
    assert_eq!(traces[1].result_count, 6);
}

#[test]
fn the_usual_buffer_keeps_a_thousand() {
    let buf = TraceBuffer::default();
    assert_eq!(buf.capacity(), DEFAULT_CAPACITY);
    assert!(buf.last_n(5).is_empty());
    assert!(read_traces("/data", 5).is_empty());
}

#[test]
fn waiting_for_the_cache_adds_up() {
    let mut collector = QueryTraceCollector::new();
    collector.charge_cache_lock(7);
    collector.charge_cache_lock(5);
    collector.record_sort(SortTrace { field: "score".into(), dir: "Desc".into(), input: 9, output: 3, time_us: 4 });
    let trace = collector.finalize_at("i", 3, 50, "2026-03-14T00:00:00.000Z".into());
    assert_eq!(trace.cache_lock_us, 12);
    assert_eq!(trace.total_us, 50);
    assert_eq!(trace.ts, "2026-03-14T00:00:00.000Z");
    assert_eq!(trace.sort.unwrap().output, 3);
}

#[test]
fn long_lists_of_values_are_cut_short() {
    let values = (0..20).map(Value::Integer).collect();
    let clause = FilterClause::In("tags".into(), values);
    assert_eq!(clause.values_repr(), "[0,1,2,...+17]");
    assert_eq!(FilterClause::Not(Box::new(clause)).values_repr(), "NOT([0,1,2,...+17])");
    assert_eq!(FilterClause::Or(vec![]).values_repr(), "0 clauses");
    assert_eq!(FilterClause::IsNull("a".into()).op_name(), "IsNull");
    assert_eq!(FilterClause::And(vec![]).field_name(), Some("AND"));
}
