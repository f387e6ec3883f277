use bitdex::query::{
    snap_range_clauses, BitdexQuery, BucketSnapContext, CursorPosition, FilterClause, FloatValue, ParseError,
    SortClause, SortDirection, Value,
};
use bitdex::time_buckets::{TimeBucket, TimeBucketManager};
use roaring::RoaringBitmap;
use std::sync::Arc;

const NOW: u64 = 1_700_000_000;

fn make_ctx(managers: &Vec<TimeBucketManager>) -> BucketSnapContext<'_> {
    BucketSnapContext { managers, now_secs: NOW, tolerance_ppm: 100_000, always_snap: true }
}

fn make_manager_with_data() -> TimeBucketManager {
    let data: Vec<(u32, u64)> = vec![
        (1, NOW - 3600),
        (2, NOW - 7200),
        (3, NOW - 43200),
        (4, NOW - 90000),
        (5, NOW - 200000),
        (6, NOW - 500000),
        (7, NOW - 700000),
    ];
    let bucket = |name: &str, duration_secs: u64| {
        let mut slots = RoaringBitmap::new();
        for (slot, ts) in &data {
            if *ts >= NOW - duration_secs {
                slots.insert(*slot);
            }
        }
        TimeBucket { name: name.to_string(), duration_secs, bitmap: Arc::new(slots) }
    };
    TimeBucketManager { field: "sortAt".to_string(), buckets: vec![bucket("24h", 86400), bucket("7d", 604800)] }
}

fn ago(secs: u64) -> Value {
    Value::Integer((NOW - secs) as i64)
}

#[test]
fn test_snap_gt_exact_24h() {
    let managers = vec![make_manager_with_data()];
    let clauses = vec![FilterClause::Gt("sortAt".to_string(), ago(86400))];
    let snapped = snap_range_clauses(&clauses, &make_ctx(&managers));
    assert_eq!(snapped.len(), 1);
    match &snapped[0] {
        FilterClause::BucketBitmap { field, bucket_name, bitmap } => {
            assert_eq!(field, "sortAt");
            assert_eq!(bucket_name, "24h");
            assert_eq!(bitmap.len(), 3);
        }
        other => panic!("expected BucketBitmap, got {:?}", other),
    }
}

#[test]
fn test_snap_gte_7d_within_tolerance() {
    let managers = vec![make_manager_with_data()];
    let clauses = vec![FilterClause::Gte("sortAt".to_string(), ago(590000))];
    let snapped = snap_range_clauses(&clauses, &make_ctx(&managers));
    match &snapped[0] {
        FilterClause::BucketBitmap { bucket_name, .. } => assert_eq!(bucket_name, "7d"),
        other => panic!("expected BucketBitmap, got {:?}", other),
    }
}

#[test]
fn test_snap_nearest_outside_tolerance() {
    let managers = vec![make_manager_with_data()];
    let clauses = vec![FilterClause::Gt("sortAt".to_string(), ago(200000))];
    let snapped = snap_range_clauses(&clauses, &make_ctx(&managers));
    assert!(matches!(&snapped[0], FilterClause::BucketBitmap { bucket_name, .. } if bucket_name == "7d"));
}

#[test]
fn test_snap_nearest_with_always_snap_false() {
    let managers = vec![make_manager_with_data()];
    let ctx = BucketSnapContext {
        managers: &managers,
        now_secs: NOW,
        tolerance_ppm: 100_000,
        always_snap: false,
    };
    let clauses = vec![FilterClause::Gt("sortAt".to_string(), ago(200000))];
    let snapped = snap_range_clauses(&clauses, &ctx);
    assert!(matches!(&snapped[0], FilterClause::BucketBitmap { bitmap, .. } if bitmap.is_empty()));
}

#[test]
fn test_no_snap_unknown_field() {
    let managers = vec![];
    let clauses = vec![FilterClause::Gt("nsfwLevel".to_string(), ago(86400))];
    let snapped = snap_range_clauses(&clauses, &make_ctx(&managers));
    assert!(matches!(&snapped[0], FilterClause::Gt(_, _)));
}

#[test]
fn test_lt_lte_not_snapped() {
    let managers = vec![make_manager_with_data()];
    let lt = FilterClause::Lt("sortAt".to_string(), ago(86400));
    let lte = FilterClause::Lte("sortAt".to_string(), ago(86400));
    let snapped = snap_range_clauses(&vec![lt, lte], &make_ctx(&managers));
    assert!(matches!(&snapped[0], FilterClause::Lt(_, _)));
    assert!(matches!(&snapped[1], FilterClause::Lte(_, _)));
}

#[test]
fn test_snap_inside_and_clause() {
    let managers = vec![make_manager_with_data()];
    let clauses = vec![FilterClause::And(vec![
        FilterClause::Eq("nsfwLevel".to_string(), Value::Integer(1)),
        FilterClause::Gt("sortAt".to_string(), ago(86400)),
    ])];
    let snapped = snap_range_clauses(&clauses, &make_ctx(&managers));
    match &snapped[0] {
        FilterClause::And(inner) => {
            assert!(matches!(&inner[0], FilterClause::Eq(_, _)));
            assert!(matches!(&inner[1], FilterClause::BucketBitmap { .. }));
        }
        other => panic!("expected And, got {:?}", other),
    }
}

#[test]
fn test_non_integer_value_not_snapped() {
    let managers = vec![make_manager_with_data()];
    let one = FloatValue { bits: 1.0f64.to_bits(), text: 1.0f64.to_string() };
    let clauses = vec![FilterClause::Gt("sortAt".to_string(), Value::Float(one))];
    let snapped = snap_range_clauses(&clauses, &make_ctx(&managers));
    assert!(matches!(&snapped[0], FilterClause::Gt(_, _)));
}

#[test]
fn test_filter_clause_construction() {
    let clause = FilterClause::And(vec![
        FilterClause::Eq("nsfwLevel".into(), Value::Integer(1)),
        FilterClause::Or(vec![
            FilterClause::Eq("type".into(), Value::String("image".into())),
            FilterClause::Eq("type".into(), Value::String("video".into())),
        ]),
    ]);
    match clause {
        FilterClause::And(clauses) => assert_eq!(clauses.len(), 2),
        _ => panic!("expected And"),
    }
}

#[test]
fn test_value_display() {
    assert_eq!(Value::Integer(42).to_text(), "42");
    assert_eq!(Value::Bool(true).to_text(), "true");
    assert_eq!(Value::String("hello".into()).to_text(), "hello");
}

#[test]
fn test_parse_error_display() {
    let err = ParseError::new("bad input");
    assert_eq!(err.to_text(), "bad input");
}

#[test]
fn clauses_are_written_as_they_are_read() {
    let field = |n: &str| n.to_string();
    let one = || Value::Integer(1);
    let text = |c: FilterClause| c.to_text();
    assert_eq!(text(FilterClause::Eq(field("a"), one())), "a = 1");
    assert_eq!(text(FilterClause::NotEq(field("a"), one())), "a != 1");
    assert_eq!(text(FilterClause::Gt(field("a"), one())), "a > 1");
    assert_eq!(text(FilterClause::Lte(field("a"), Value::Integer(-7))), "a <= -7");
    assert_eq!(text(FilterClause::IsNull(field("a"))), "a IS NULL");
    assert_eq!(text(FilterClause::IsNotNull(field("a"))), "a IS NOT NULL");
    let list = || vec![one(), Value::Bool(false)];
    assert_eq!(text(FilterClause::In(field("a"), list())), "a IN [1, false]");
    assert_eq!(text(FilterClause::NotIn(field("a"), list())), "a NOT IN [1, false]");
    let both = || vec![FilterClause::Lt(field("a"), one()), FilterClause::Gte(field("b"), one())];
    assert_eq!(text(FilterClause::And(both())), "(a < 1 AND b >= 1)");
    assert_eq!(text(FilterClause::Or(both())), "(a < 1 OR b >= 1)");
    assert_eq!(text(FilterClause::Not(Box::new(FilterClause::Eq(field("a"), one())))), "NOT(a = 1)");
}

#[test]
fn values_of_other_kinds_differ() {
    assert!(Value::Integer(1).same_as(&Value::Integer(1)));
    assert!(!Value::Integer(1).same_as(&Value::Bool(true)));
    let zero = |bits: u64, text: &str| Value::Float(FloatValue { bits, text: text.to_string() });
    assert!(zero(0.0f64.to_bits(), "0").same_as(&zero((-0.0f64).to_bits(), "-0")));
    assert!(!zero(f64::NAN.to_bits(), "NaN").same_as(&zero(f64::NAN.to_bits(), "NaN")));
}

#[test]
fn negations_are_not_snapped() {
    let managers = vec![make_manager_with_data()];
    let clauses = vec![FilterClause::Not(Box::new(FilterClause::Gte("sortAt".to_string(), ago(86_400))))];
    let snapped = snap_range_clauses(&clauses, &make_ctx(&managers));
    assert_eq!(snapped[0].to_text(), clauses[0].to_text());
}

#[test]
fn the_longest_window_covers_what_none_does() {
    let managers = vec![make_manager_with_data()];
    let clauses = vec![FilterClause::Or(vec![FilterClause::Gt("sortAt".to_string(), ago(5_000_000))])];
    let snapped = snap_range_clauses(&clauses, &make_ctx(&managers));
    assert_eq!(snapped[0].to_text(), "(sortAt ~bucket(7d))");
}

#[test]
fn queries_are_written_with_their_sort_and_limit() {
    let query = BitdexQuery {
        filters: vec![FilterClause::Eq("x".into(), Value::Integer(1))],
        sort: Some(SortClause { field: "score".into(), direction: SortDirection::Desc }),
        limit: 50,
        cursor: Some(CursorPosition { sort_value: 100, slot_id: 42 }),
        offset: None,
        skip_cache: false,
    };
    assert_eq!(query.to_text(), "WHERE x = 1 ORDER BY score Desc LIMIT 50 CURSOR(val=100, slot=42)");
    let all = BitdexQuery { filters: vec![], sort: None, limit: 5, cursor: None, offset: Some(10), skip_cache: true };
    assert_eq!(all.to_text(), "WHERE * LIMIT 5 OFFSET 10");
}

#[test]
fn bounds_before_the_epoch_ask_for_the_longest_window() {
    let managers = vec![make_manager_with_data()];
    let bound = |ts: i64| FilterClause::Gt("sortAt".to_string(), Value::Integer(ts));
    let clauses = vec![bound(-1), bound(i64::MIN), bound(i64::MAX)];
    let snapped = snap_range_clauses(&clauses, &make_ctx(&managers));
    assert_eq!(snapped[0].to_text(), "sortAt ~bucket(7d)");
    assert_eq!(snapped[1].to_text(), "sortAt ~bucket(7d)");
    assert_eq!(snapped[2].to_text(), "sortAt ~bucket(24h)");
}
