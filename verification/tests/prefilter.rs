use bitdex::prefilter::{
    canonicalize_clause, canonicalize_clauses, subset_match, substitute, PrefilterRegistry, RegistryError,
    MAX_REFRESH_INTERVAL_SECS, MIN_REFRESH_INTERVAL_SECS,
};
use bitdex::query::{FilterClause, Value};
use roaring::RoaringBitmap;

const NOW: i64 = 1_700_000_000;

fn eq(field: &str, val: i64) -> FilterClause {
    FilterClause::Eq(field.into(), Value::Integer(val))
}

fn in_(field: &str, vals: &[i64]) -> FilterClause {
    FilterClause::In(field.into(), vals.iter().map(|v| Value::Integer(*v)).collect())
}

fn same_clauses(a: &[FilterClause], b: &[FilterClause]) -> bool {
    a.len() == b.len() && a.iter().zip(b).all(|(x, y)| x.same_as(y))
}

#[test]
fn canonicalize_sorts_in_values() {
    let c = canonicalize_clause(&in_("x", &[3, 1, 2]));
    assert!(c.same_as(&in_("x", &[1, 2, 3])));
    assert_eq!(c.to_text(), in_("x", &[1, 2, 3]).to_text());
}

#[test]
fn canonicalize_flattens_and() {
    let c = vec![FilterClause::And(vec![eq("a", 1), FilterClause::And(vec![eq("b", 2)])])];
    let canon = canonicalize_clauses(&c);
    assert!(same_clauses(&canon, &[eq("a", 1), eq("b", 2)]));
}

#[test]
fn canonicalize_collapses_double_not() {
    let c = FilterClause::Not(Box::new(FilterClause::Not(Box::new(eq("a", 1)))));
    assert!(canonicalize_clause(&c).same_as(&eq("a", 1)));
}

#[test]
fn canonicalize_sorts_top_level_and_dedupes() {
    let c = vec![eq("b", 2), eq("a", 1), eq("a", 1)];
    let canon = canonicalize_clauses(&c);
    assert_eq!(canon.len(), 2);
    assert_eq!(canon[0].to_text(), "a = 1");
    assert_eq!(canon[1].to_text(), "b = 2");
}

#[test]
fn subset_match_detects_matching_subset() {
    let prefilter = canonicalize_clauses(&vec![eq("a", 1), eq("b", 2)]);
    let query = canonicalize_clauses(&vec![eq("a", 1), eq("b", 2), eq("c", 3)]);
    let m = subset_match(&prefilter, &query).unwrap();
    assert_eq!(m.len(), 2);
}

#[test]
fn subset_match_rejects_partial_overlap() {
    let prefilter = canonicalize_clauses(&vec![eq("a", 1), eq("b", 2)]);
    let query = canonicalize_clauses(&vec![eq("a", 1), eq("c", 3)]);
    assert!(subset_match(&prefilter, &query).is_none());
}

#[test]
fn registry_insert_and_get() {
    let mut reg = PrefilterRegistry::new();
    let mut bm = RoaringBitmap::new();
    bm.insert(42);
    let entry = reg.insert("test".into(), vec![eq("a", 1)], bm, 300, 1_000_000, NOW).unwrap();
    assert_eq!(entry.cardinality(), 1);
    let got = reg.get("test").unwrap();
    assert_eq!(got.cardinality(), 1);
    assert_eq!(got.refresh_interval_secs(), 300);
    assert_eq!(got.compute_ms(), 1);
    assert_eq!(got.last_refreshed(), NOW);
}

#[test]
fn registry_replaces_existing_name() {
    let mut reg = PrefilterRegistry::new();
    let mut bm1 = RoaringBitmap::new();
    bm1.insert(1);
    let mut bm2 = RoaringBitmap::new();
    bm2.insert(2);
    bm2.insert(3);
    reg.insert("x".into(), vec![eq("a", 1)], bm1, 300, 0, NOW).unwrap();
    reg.insert("x".into(), vec![eq("a", 1)], bm2, 300, 0, NOW).unwrap();
    assert_eq!(reg.get("x").unwrap().cardinality(), 2);
    assert_eq!(reg.len(), 1);
}

#[test]
fn registry_enforces_max() {
    let mut reg = PrefilterRegistry::with_limit(2);
    reg.insert("a".into(), vec![eq("x", 1)], RoaringBitmap::new(), 300, 0, NOW).unwrap();
    reg.insert("b".into(), vec![eq("x", 2)], RoaringBitmap::new(), 300, 0, NOW).unwrap();
    let err = reg.insert("c".into(), vec![eq("x", 3)], RoaringBitmap::new(), 300, 0, NOW);
    assert!(matches!(err, Err(RegistryError::RegistryFull(_))));
}

#[test]
fn registry_rejects_empty_clauses() {
    let mut reg = PrefilterRegistry::new();
    let err = reg.insert("x".into(), vec![], RoaringBitmap::new(), 300, 0, NOW);
    assert!(matches!(err, Err(RegistryError::InvalidClauses(_))));
}

#[test]
fn registry_clamps_interval() {
    let mut reg = PrefilterRegistry::new();
    let e1 = reg.insert("a".into(), vec![eq("x", 1)], RoaringBitmap::new(), 5, 0, NOW).unwrap();
    assert_eq!(e1.refresh_interval_secs(), MIN_REFRESH_INTERVAL_SECS);
    let e2 = reg.insert("b".into(), vec![eq("x", 1)], RoaringBitmap::new(), 999_999, 0, NOW).unwrap();
    assert_eq!(e2.refresh_interval_secs(), MAX_REFRESH_INTERVAL_SECS);
}

#[test]
fn find_substitution_prefers_largest_match() {
    let mut reg = PrefilterRegistry::new();
    reg.insert("small".into(), vec![eq("a", 1)], RoaringBitmap::new(), 300, 0, NOW).unwrap();
    reg.insert("big".into(), vec![eq("a", 1), eq("b", 2)], RoaringBitmap::new(), 300, 0, NOW).unwrap();
    let query = canonicalize_clauses(&vec![eq("a", 1), eq("b", 2), eq("c", 3)]);
    let (entry, matched) = reg.find_substitution(&query).unwrap();
    assert_eq!(entry.name, "big");
    assert_eq!(matched.len(), 2);
}

fn alive_all() -> RoaringBitmap {
    let mut bm = RoaringBitmap::new();
    bm.insert_range(0..100u32);
    bm
}

#[test]
fn substitute_replaces_matched_clauses_with_bucket_bitmap() {
    let mut reg = PrefilterRegistry::new();
    let mut bm = RoaringBitmap::new();
    bm.insert(10);
    bm.insert(20);
    reg.insert("safe".into(), vec![eq("a", 1), eq("b", 2)], bm, 300, 0, NOW).unwrap();
    let query = vec![eq("c", 3), eq("a", 1), eq("b", 2)];
    let alive = alive_all();
    let (out, entry) = substitute(&mut reg, &query, &alive);
    let entry = entry.unwrap();
    assert_eq!(entry.name, "safe");
    assert_eq!(out.len(), 2);
    match &out[0] {
        FilterClause::BucketBitmap { bucket_name, bitmap, .. } => {
            assert_eq!(bucket_name, "safe");
            assert_eq!(bitmap.len(), 2);
        }
        other => panic!("expected BucketBitmap first, got {other:?}"),
    }
    match &out[1] {
        FilterClause::Eq(f, _) => assert_eq!(f, "c"),
        other => panic!("expected Eq(c,..), got {other:?}"),
    }
    assert_eq!(reg.get("safe").unwrap().substitutions(), 1);
}

#[test]
fn substitute_excludes_dead_slots_from_stale_prefilter() {
    let mut reg = PrefilterRegistry::new();
    let mut stale = RoaringBitmap::new();
    stale.insert(10);
    stale.insert(20);
    stale.insert(30);
    reg.insert("safe".into(), vec![eq("a", 1)], stale, 300, 0, NOW).unwrap();
    let mut alive = RoaringBitmap::new();
    alive.insert(10);
    alive.insert(30);
    let query = vec![eq("a", 1)];
    let (out, _) = substitute(&mut reg, &query, &alive);
    match &out[0] {
        FilterClause::BucketBitmap { bitmap, .. } => {
            assert_eq!(bitmap.len(), 2, "dead slot 20 must not leak through");
            assert!(bitmap.contains(10));
            assert!(!bitmap.contains(20), "slot 20 was deleted, must not appear");
            assert!(bitmap.contains(30));
        }
        other => panic!("expected BucketBitmap, got {other:?}"),
    }
}

#[test]
fn substitute_is_noop_when_no_match() {
    let mut reg = PrefilterRegistry::new();
    reg.insert("safe".into(), vec![eq("a", 1)], RoaringBitmap::new(), 300, 0, NOW).unwrap();
    let query = vec![eq("b", 2)];
    let alive = alive_all();
    let (out, entry) = substitute(&mut reg, &query, &alive);
    assert!(entry.is_none());
    assert_eq!(out.len(), 1);
}

#[test]
fn substitute_is_noop_on_empty_registry() {
    let mut reg = PrefilterRegistry::new();
    let query = vec![eq("a", 1)];
    let alive = alive_all();
    let (out, entry) = substitute(&mut reg, &query, &alive);
    assert!(entry.is_none());
    assert_eq!(out.len(), 1);
}

#[test]
fn canonicalize_does_not_reorder_or_children() {
    let c1 = FilterClause::Or(vec![eq("a", 1), eq("b", 2)]);
    let c2 = FilterClause::Or(vec![eq("b", 2), eq("a", 1)]);
    assert!(!canonicalize_clause(&c1).same_as(&canonicalize_clause(&c2)));
    assert_ne!(canonicalize_clause(&c1).to_text(), canonicalize_clause(&c2).to_text());
}

#[test]
fn refusals_are_written_out() {
    assert_eq!(RegistryError::RegistryFull(32).to_text(), "prefilter registry full (max=32)");
    let empty = RegistryError::InvalidClauses("clause list is empty".into());
    assert_eq!(empty.to_text(), "invalid clause set: clause list is empty");
}

#[test]
fn empty_conjunctions_leave_nothing_to_register() {
    let mut reg = PrefilterRegistry::new();
    let err = reg.insert("x".into(), vec![FilterClause::And(vec![])], RoaringBitmap::new(), 300, 0, NOW);
    match err {
        Err(RegistryError::InvalidClauses(why)) => {
            assert_eq!(why, "clauses reduced to empty after canonicalization")
        }
        _ => panic!("expected a refusal"),
    }
}

#[test]
fn entries_grow_stale_and_are_refreshed() {
    let mut reg = PrefilterRegistry::new();
    let mut entry = reg.insert("x".into(), vec![eq("a", 1)], RoaringBitmap::new(), 60, 0, NOW).unwrap();
    assert!(!entry.is_stale(NOW + 59));
    assert!(entry.is_stale(NOW + 60));
    let mut bm = RoaringBitmap::new();
    bm.insert(7);
    entry.publish_refresh(bm, 5_000_000, NOW + 60);
    assert_eq!(entry.cardinality(), 1);
    assert_eq!(entry.compute_ms(), 5);
    assert!(!entry.is_stale(NOW + 119));
}

#[test]
fn refreshes_reach_the_registered_entry() {
    let mut reg = PrefilterRegistry::new();
    reg.insert("x".into(), vec![eq("a", 1)], RoaringBitmap::new(), 60, 0, NOW).unwrap();
    reg.insert("y".into(), vec![eq("b", 2)], RoaringBitmap::new(), 60, 0, NOW).unwrap();
    let held = reg.get("x").unwrap();
    let mut bm = RoaringBitmap::new();
    bm.insert(7);
    assert!(reg.publish_refresh("x", bm, 5_000_000, NOW + 60));
    let fresh = reg.get("x").unwrap();
    assert_eq!((fresh.cardinality(), fresh.compute_ms(), fresh.last_refreshed()), (1, 5, NOW + 60));
    assert!(fresh.bitmap.contains(7));
    assert!(held.bitmap.is_empty());
    assert_eq!(reg.get("y").unwrap().last_refreshed(), NOW);
    assert!(!reg.publish_refresh("z", RoaringBitmap::new(), 0, NOW));
    assert_eq!(reg.len(), 2);
}

#[test]
fn removed_prefilters_are_gone() {
    let mut reg = PrefilterRegistry::new();
    assert!(reg.is_empty());
    reg.insert("x".into(), vec![eq("a", 1)], RoaringBitmap::new(), 300, 0, NOW).unwrap();
    let listed = reg.list();
    assert_eq!(listed.len(), 1);
    assert_eq!(listed[0].name, "x");
    assert_eq!(reg.entries().len(), 1);
    assert!(reg.remove("x"));
    assert!(!reg.remove("x"));
    assert!(reg.get("x").is_none());
}

#[test]
fn clauses_in_any_order_have_one_canonical_form() {
    let one = canonicalize_clauses(&vec![eq("c", 3), FilterClause::And(vec![eq("a", 1), in_("b", &[2, 1])])]);
    let other = canonicalize_clauses(&vec![in_("b", &[1, 2]), eq("c", 3), eq("a", 1)]);
    assert!(same_clauses(&one, &other));
    let texts: Vec<String> = one.iter().map(|c| c.to_text()).collect();
    assert_eq!(texts, vec!["a = 1", "b IN [1, 2]", "c = 3"]);
}

#[test]
fn clauses_that_are_asked_for_twice_are_needed_twice() {
    let twice = vec![eq("a", 1), eq("a", 1)];
    assert!(subset_match(&twice, &vec![eq("a", 1), eq("b", 2)]).is_none());
    assert_eq!(subset_match(&twice, &vec![eq("a", 1), eq("b", 2), eq("a", 1)]), Some(vec![0, 2]));
}

#[test]
fn prefilters_are_found_whatever_the_order_of_the_query() {
    let mut reg = PrefilterRegistry::new();
    reg.insert("safe".into(), vec![eq("b", 2), eq("a", 1)], RoaringBitmap::new(), 300, 0, NOW).unwrap();
    for query in [
        vec![eq("a", 1), eq("b", 2), eq("c", 3)],
        vec![eq("c", 3), eq("b", 2), eq("a", 1)],
        vec![FilterClause::And(vec![eq("b", 2), eq("c", 3)]), eq("a", 1)],
    ] {
        let (out, entry) = substitute(&mut reg, &query, &alive_all());
        assert_eq!(entry.unwrap().name, "safe");
        assert_eq!(out.len(), 2);
        assert_eq!(out[1].to_text(), "c = 3");
    }
}

fn not(c: FilterClause) -> FilterClause {
    FilterClause::Not(Box::new(c))
}

#[test]
fn conjunctions_under_double_negations_are_flattened() {
    let both = || FilterClause::And(vec![eq("a", 1), eq("b", 2)]);
    let canon = canonicalize_clauses(&vec![not(not(both()))]);
    assert!(same_clauses(&canon, &[eq("a", 1), eq("b", 2)]));
    let deep = canonicalize_clauses(&vec![FilterClause::And(vec![eq("c", 3), not(not(not(not(both()))))])]);
    assert!(same_clauses(&deep, &[eq("a", 1), eq("b", 2), eq("c", 3)]));
    let once = canonicalize_clauses(&vec![not(both())]);
    assert_eq!(once.len(), 1);
    assert_eq!(once[0].to_text(), "NOT((a = 1 AND b = 2))");

    let mut reg = PrefilterRegistry::new();
    reg.insert("safe".into(), vec![eq("a", 1), eq("b", 2)], RoaringBitmap::new(), 300, 0, NOW).unwrap();
    let (out, entry) = substitute(&mut reg, &vec![not(not(both()))], &alive_all());
    assert_eq!(entry.unwrap().name, "safe");
    assert_eq!(out.len(), 1);
}

#[test]
fn canonical_sets_stay_as_they_are() {
    let mixed = vec![
        not(not(FilterClause::And(vec![in_("b", &[3, 1, 3]), eq("a", 1)]))),
        FilterClause::Or(vec![not(not(eq("z", 1))), FilterClause::And(vec![eq("y", 2), eq("x", 1)])]),
        eq("a", 1),
    ];
    let once = canonicalize_clauses(&mixed);
    assert!(same_clauses(&canonicalize_clauses(&once), &once));
    let mut twice = mixed.clone();
    twice.extend(mixed);
    assert!(same_clauses(&canonicalize_clauses(&twice), &once));
    let texts: Vec<String> = once.iter().map(|c| c.to_text()).collect();
    assert_eq!(texts, vec!["(z = 1 OR (x = 1 AND y = 2))", "a = 1", "b IN [1, 3]"]);
}

#[test]
fn lower_limits_take_prefilters_out() {
    let mut reg = PrefilterRegistry::new();
    for name in ["a", "b", "c"] {
        reg.insert(name.into(), vec![eq(name, 1)], RoaringBitmap::new(), 300, 0, NOW).unwrap();
        substitute(&mut reg, &vec![eq(name, 1)], &alive_all());
    }
    reg.set_limit(5);
    assert_eq!(reg.len(), 3);
    reg.set_limit(2);
    assert_eq!(reg.len(), 2);
    assert!(reg.list().iter().all(|info| info.substitutions == 1));
    let err = reg.insert("d".into(), vec![eq("d", 1)], RoaringBitmap::new(), 300, 0, NOW);
    assert!(matches!(err, Err(RegistryError::RegistryFull(2))));
    reg.set_limit(0);
    assert!(reg.is_empty());
}

#[test]
fn failed_refreshes_are_counted() {
    let mut reg = PrefilterRegistry::new();
    reg.insert("a".into(), vec![eq("a", 1)], RoaringBitmap::new(), 300, 0, NOW).unwrap();
    assert!(reg.record_refresh_error("a"));
    assert!(reg.record_refresh_error("a"));
    assert!(!reg.record_refresh_error("b"));
    assert_eq!(reg.get("a").unwrap().refresh_errors(), 2);
    assert_eq!(reg.list()[0].refresh_errors, 2);
    assert_eq!(reg.len(), 1);
}

#[test]
fn of_equally_good_prefilters_the_first_name_is_taken() {
    for order in [["x", "m", "b"], ["b", "m", "x"], ["m", "b", "x"]] {
        let mut reg = PrefilterRegistry::new();
        for name in order {
            let clause = if name == "m" { eq("a", 1) } else { eq("b", 2) };
            reg.insert(name.into(), vec![clause], RoaringBitmap::new(), 300, 0, NOW).unwrap();
        }
        let query = vec![eq("b", 2), eq("a", 1)];
        let found = reg.find_substitution(&canonicalize_clauses(&query)).unwrap();
        assert_eq!((found.0.name.as_str(), found.1), ("b", vec![1]));
        let (out, entry) = substitute(&mut reg, &query, &alive_all());
        assert_eq!(entry.unwrap().name, "b");
        assert_eq!(out[1].to_text(), "a = 1");
    }
}
