use bitdex::filter::{FilterIndex, KeyTable, SlotAllocator};
use bitdex::planner::{
    estimate_cardinality, optimize_and_clause, plan_query, plan_query_with_context, resolve_value_key,
    should_use_andnot, value_to_bitmap_key, PlannerContext,
};
use bitdex::query::{FilterClause, Value};

struct TestHarness {
    slots: SlotAllocator,
    filters: FilterIndex,
}

impl TestHarness {
    fn new() -> Self {
        let mut filters = FilterIndex::new();
        for name in ["nsfwLevel", "tagIds", "userId", "onSite"] {
            filters.add_field(name);
        }
        TestHarness { slots: SlotAllocator::new(), filters }
    }

    fn put(&mut self, id: u32, doc: Vec<(&str, Value)>) {
        for (name, value) in doc {
            let key = value_to_bitmap_key(&value).unwrap();
            let position = self.filters.get_field(name).unwrap();
            self.filters.fields[position].insert(key, id);
        }
        self.slots.set_alive(id);
    }
}

fn eq(field: &str, v: i64) -> FilterClause {
    FilterClause::Eq(field.to_string(), Value::Integer(v))
}

fn field_of(clause: &FilterClause) -> &str {
    match clause {
        FilterClause::Eq(field, _) => field,
        _ => panic!("expected an Eq clause"),
    }
}

#[test]
fn test_plan_empty_clauses() {
    let h = TestHarness::new();
    let plan = plan_query(&vec![], &h.filters, &h.slots);
    assert!(plan.ordered_clauses.is_empty());
    assert!(plan.use_simple_sort);
}

#[test]
fn test_plan_orders_by_cardinality() {
    let mut h = TestHarness::new();
    for i in 1..=100u32 {
        let user_id = if i <= 5 { 42 } else { i as i64 + 100 };
        h.put(i, vec![("nsfwLevel", Value::Integer(1)), ("userId", Value::Integer(user_id))]);
    }
    let clauses = vec![eq("nsfwLevel", 1), eq("userId", 42)];
    let plan = plan_query(&clauses, &h.filters, &h.slots);
    assert_eq!(plan.ordered_clauses.len(), 2);
    assert_eq!(field_of(&plan.ordered_clauses[0]), "userId");
    assert_eq!(field_of(&plan.ordered_clauses[1]), "nsfwLevel");
}

#[test]
fn test_plan_small_result_uses_simple_sort() {
    let mut h = TestHarness::new();
    for i in 1..=50u32 {
        h.put(i, vec![("nsfwLevel", Value::Integer(1))]);
    }
    let plan = plan_query(&vec![eq("nsfwLevel", 1)], &h.filters, &h.slots);
    assert!(plan.use_simple_sort);
    assert_eq!(plan.estimated_result_size, 50);
}

#[test]
fn test_plan_large_result_uses_bitmap_sort() {
    let mut h = TestHarness::new();
    for i in 1..=2000u32 {
        h.put(i, vec![("nsfwLevel", Value::Integer(1))]);
    }
    let plan = plan_query(&vec![eq("nsfwLevel", 1)], &h.filters, &h.slots);
    assert!(!plan.use_simple_sort);
    assert_eq!(plan.estimated_result_size, 2000);
}

#[test]
fn test_estimate_not_clause() {
    let mut h = TestHarness::new();
    for i in 1..=100u32 {
        let level = if i <= 5 { 28 } else { 1 };
        h.put(i, vec![("nsfwLevel", Value::Integer(level))]);
    }
    let clause = FilterClause::Not(Box::new(eq("nsfwLevel", 28)));
    let est = estimate_cardinality(&clause, &h.filters, h.slots.alive_count(), None);
    assert_eq!(est, 95);
}

#[test]
fn test_estimate_in_clause() {
    let mut h = TestHarness::new();
    for i in 1..=30u32 {
        h.put(i, vec![("nsfwLevel", Value::Integer((i % 3) as i64))]);
    }
    let clause = FilterClause::In("nsfwLevel".to_string(), vec![Value::Integer(0), Value::Integer(1)]);
    let est = estimate_cardinality(&clause, &h.filters, h.slots.alive_count(), None);
    assert_eq!(est, 20);
}

#[test]
fn test_estimate_and_clause() {
    let mut h = TestHarness::new();
    for i in 1..=100u32 {
        let user_id = if i <= 10 { 42 } else { i as i64 + 1000 };
        h.put(i, vec![("nsfwLevel", Value::Integer(1)), ("userId", Value::Integer(user_id))]);
    }
    let clause = FilterClause::And(vec![eq("nsfwLevel", 1), eq("userId", 42)]);
    let est = estimate_cardinality(&clause, &h.filters, h.slots.alive_count(), None);
    assert_eq!(est, 10);
}

#[test]
fn test_estimate_or_clause() {
    let mut h = TestHarness::new();
    for i in 1..=100u32 {
        let level = if i <= 30 { 1 } else { 2 };
        h.put(i, vec![("nsfwLevel", Value::Integer(level))]);
    }
    let clause = FilterClause::Or(vec![eq("nsfwLevel", 1), eq("nsfwLevel", 2)]);
    let est = estimate_cardinality(&clause, &h.filters, h.slots.alive_count(), None);
    assert_eq!(est, 100);
}

#[test]
fn test_should_use_andnot_small_set() {
    let mut h = TestHarness::new();
    for i in 1..=100u32 {
        let level = if i <= 5 { 28 } else { 1 };
        h.put(i, vec![("nsfwLevel", Value::Integer(level))]);
    }
    let clause = FilterClause::NotEq("nsfwLevel".to_string(), Value::Integer(28));
    assert!(should_use_andnot(&clause, &h.filters, h.slots.alive_count()));
}

#[test]
fn test_should_not_use_andnot_large_set() {
    let mut h = TestHarness::new();
    for i in 1..=100u32 {
        let level = if i <= 50 { 1 } else { 2 };
        h.put(i, vec![("nsfwLevel", Value::Integer(level))]);
    }
    let clause = FilterClause::NotEq("nsfwLevel".to_string(), Value::Integer(1));
    assert!(!should_use_andnot(&clause, &h.filters, h.slots.alive_count()));
}

#[test]
fn test_optimize_and_clause_ordering() {
    let mut h = TestHarness::new();
    for i in 1..=1000u32 {
        let nsfw = if i <= 900 { 1 } else { 2 };
        let user = if i <= 10 { 42 } else { i as i64 };
        h.put(
            i,
            vec![
                ("nsfwLevel", Value::Integer(nsfw)),
                ("userId", Value::Integer(user)),
                ("onSite", Value::Bool(i <= 500)),
            ],
        );
    }
    let clauses = vec![
        eq("nsfwLevel", 1),
        FilterClause::Eq("onSite".to_string(), Value::Bool(true)),
        eq("userId", 42),
    ];
    let optimized = optimize_and_clause(&clauses, &h.filters, h.slots.alive_count());
    assert_eq!(field_of(&optimized[0]), "userId");
    assert_eq!(field_of(&optimized[1]), "onSite");
    assert_eq!(field_of(&optimized[2]), "nsfwLevel");
}

#[test]
fn test_plan_multiple_clause_types() {
    let mut h = TestHarness::new();
    for i in 1..=100u32 {
        let user_id = if i <= 3 { 42 } else { i as i64 };
        h.put(
            i,
            vec![
                ("nsfwLevel", Value::Integer(1)),
                ("tagIds", Value::Integer(100)),
                ("userId", Value::Integer(user_id)),
            ],
        );
    }
    let clauses = vec![eq("nsfwLevel", 1), eq("tagIds", 100), eq("userId", 42)];
    let plan = plan_query(&clauses, &h.filters, &h.slots);
    assert_eq!(field_of(&plan.ordered_clauses[0]), "userId");
    assert!(plan.use_simple_sort);
}

#[test]
fn test_plan_query_no_sort_parameter() {
    let h = TestHarness::new();
    let plan = plan_query(&vec![], &h.filters, &h.slots);
    assert!(plan.ordered_clauses.is_empty());
    assert!(plan.use_simple_sort);
}

#[test]
fn texts_are_looked_up_in_lower_case() {
    let maps = vec![("kind".to_string(), KeyTable { entries: vec![("image".to_string(), 3)] })];
    let given = vec![("kind".to_string(), KeyTable { entries: vec![("video".to_string(), -1)] })];
    let ctx = PlannerContext { string_maps: Some(&maps), dictionaries: Some(&given) };
    let key = |text: &str| resolve_value_key("kind", &Value::String(text.to_string()), Some(&ctx));
    assert_eq!(key("IMAGE"), Some(3));
    assert_eq!(key("Video"), Some(u64::MAX));
    assert_eq!(key("audio"), None);
    assert_eq!(resolve_value_key("kind", &Value::String("image".to_string()), None), None);
    assert_eq!(resolve_value_key("other", &Value::Integer(-1), Some(&ctx)), Some(u64::MAX));
    assert_eq!(value_to_bitmap_key(&Value::Bool(true)), Some(1));
}

#[test]
fn a_text_with_a_key_is_estimated_by_its_slots() {
    let mut h = TestHarness::new();
    for i in 1..=10u32 {
        h.put(i, vec![("userId", Value::Integer(if i <= 4 { 7 } else { 8 }))]);
    }
    let maps = vec![("userId".to_string(), KeyTable { entries: vec![("ann".to_string(), 7)] })];
    let ctx = PlannerContext { string_maps: Some(&maps), dictionaries: None };
    let clause = FilterClause::Eq("userId".to_string(), Value::String("Ann".to_string()));
    assert_eq!(estimate_cardinality(&clause, &h.filters, 10, Some(&ctx)), 4);
    assert_eq!(estimate_cardinality(&clause, &h.filters, 10, None), 10);
    let plan = plan_query_with_context(&vec![clause], &h.filters, &h.slots, Some(&ctx));
    assert_eq!(plan.estimated_result_size, 4);
}

#[test]
fn fields_that_are_not_there_match_everything() {
    let h = TestHarness::new();
    assert_eq!(estimate_cardinality(&eq("missing", 1), &h.filters, 17, None), 17);
    let null = FilterClause::IsNull("userId".to_string());
    assert_eq!(estimate_cardinality(&null, &h.filters, 17, None), 17);
}
