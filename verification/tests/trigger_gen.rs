use bitdex::pg_sync::template::{build_execute_with_params, substitute_columns};
use bitdex::pg_sync::trigger_gen::{
    default_rows_from_id, fan_out_ops_function_name, generate_fan_out_ops_function_sql,
    generate_shared_field_ops_function_sql, generate_trigger_ddl_sql, generate_trigger_functions_sql,
    generate_trigger_sql, parse_track_field, shared_field_ops_function_name, short_hash, trigger_events,
    trigger_name, trigger_type_mask, OnDeleteValue, RowsFrom, SyncConfig, SyncSource, TrackField,
    TriggerComputedField,
};

const ROW: i16 = 1;
const BEFORE: i16 = 2;
const INSERT: i16 = 4;
const DELETE: i16 = 8;
const UPDATE: i16 = 16;

#[test]
fn test_parse_track_field_simple() {
    let (name, insert_expr, template_expr) = parse_track_field("nsfwLevel");
    assert_eq!(name, "nsfwLevel");
    assert_eq!(insert_expr, "\"nsfwLevel\"");
    assert_eq!(template_expr, "{nsfwLevel}");
    assert_eq!(substitute_columns(&template_expr, "OLD"), "OLD.\"nsfwLevel\"");
    assert_eq!(substitute_columns(&template_expr, "NEW"), "NEW.\"nsfwLevel\"");
}

#[test]
fn test_parse_track_field_expression() {
    let (name, insert_expr, template_expr) = parse_track_field("GREATEST({scannedAt}, {createdAt}) as existedAt");
    assert_eq!(name, "existedAt");
    assert_eq!(insert_expr, "GREATEST(\"scannedAt\", \"createdAt\")");
    assert_eq!(template_expr, "GREATEST({scannedAt}, {createdAt})");
    assert_eq!(substitute_columns(&template_expr, "NEW"), "GREATEST(NEW.\"scannedAt\", NEW.\"createdAt\")");
}

#[test]
fn test_substitute_columns() {
    let result = substitute_columns("GREATEST({scannedAt}, {createdAt})", "NEW");
    assert_eq!(result, "GREATEST(NEW.\"scannedAt\", NEW.\"createdAt\")");
}

#[test]
fn test_substitute_columns_simple() {
    let result = substitute_columns("{nsfwLevel}", "OLD");
    assert_eq!(result, "OLD.\"nsfwLevel\"");
}
#[test]
fn test_computed_field_subquery_lookup() {
    let expr = r#"(SELECT extract(epoch from p."publishedAt")::bigint FROM "Post" p WHERE p.id = {postId})"#;
    let substituted = substitute_columns(expr, "NEW");
    assert_eq!(
        substituted,
        r#"(SELECT extract(epoch from p."publishedAt")::bigint FROM "Post" p WHERE p.id = NEW."postId")"#,
    );

    let mut source = test_source("Image");
    source.slot_field = Some("id".into());
    source.sets_alive = true;
    source.track_fields = Some(vec![TrackField::Simple("postId".into())]);
    source.computed_fields = Some(vec![TriggerComputedField {
        target: "publishedAt".into(),
        expression: expr.into(),
        value: None,
    }]);
    let sql = generate_trigger_sql(&source);
    assert!(
        sql.contains(r#"'field', 'publishedAt', 'value', to_jsonb((SELECT extract(epoch from p."publishedAt")::bigint FROM "Post" p WHERE p.id = NEW."postId"))"#),
        "INSERT must emit publishedAt from the Post subquery:\n{sql}"
    );
    assert!(
        sql.contains(r#"WHERE p.id = OLD."postId") IS DISTINCT FROM"#)
            || sql.contains(r#"WHERE p.id = OLD."postId")) IS DISTINCT FROM"#),
        "UPDATE must diff the subquery between OLD and NEW postId:\n{sql}"
    );
}
fn events_from_mask(mask: i16) -> String {

    assert_eq!(mask & ROW, ROW, "every emitted trigger is FOR EACH ROW");
    assert_eq!(mask & BEFORE, 0, "every emitted trigger is AFTER, not BEFORE");

    let mut events = Vec::new();
    if mask & INSERT != 0 { events.push("INSERT"); }
    if mask & UPDATE != 0 { events.push("UPDATE"); }
    if mask & DELETE != 0 { events.push("DELETE"); }
    format!("AFTER {}", events.join(" OR "))
}

#[test]
fn trigger_type_mask_agrees_with_events_clause() {
    let plain = test_source("Image");
    assert_eq!(trigger_events(&plain), "AFTER INSERT OR UPDATE");
    assert_eq!(events_from_mask(trigger_type_mask(&plain)), "AFTER INSERT OR UPDATE");
    let mut with_delete = test_source("Image");
    with_delete.on_delete = Some(OnDeleteValue::Bool(true));
    assert_eq!(trigger_events(&with_delete), "AFTER INSERT OR UPDATE OR DELETE");
    assert_eq!(
        events_from_mask(trigger_type_mask(&with_delete)),
        "AFTER INSERT OR UPDATE OR DELETE"
    );
    let mut join_table = test_source("TagsOnImageNew");
    join_table.field = Some("tagIds".into());
    join_table.value_field = Some("tagId".into());
    assert_eq!(trigger_events(&join_table), "AFTER INSERT OR DELETE");
    assert_eq!(events_from_mask(trigger_type_mask(&join_table)), "AFTER INSERT OR DELETE");
    join_table.on_delete = Some(OnDeleteValue::Bool(true));
    assert_eq!(trigger_events(&join_table), "AFTER INSERT OR DELETE");
    assert_eq!(events_from_mask(trigger_type_mask(&join_table)), "AFTER INSERT OR DELETE");
}
#[test]
fn split_sql_halves_reassemble_to_the_whole() {
    for source in [
        test_source("Image"),
        post_fan_out_per_row_source(),
        image_source_with_sortat(),
    ] {
        let whole = generate_trigger_sql(&source);
        let functions = generate_trigger_functions_sql(&source);
        let ddl = generate_trigger_ddl_sql(&source);

        assert_eq!(whole, format!("{functions}\n{ddl}"));
        assert!(
            !functions.contains("CREATE TRIGGER") && !functions.contains("DROP TRIGGER"),
            "functions half must not carry trigger DDL:\n{functions}"
        );
        assert!(
            ddl.contains("CREATE TRIGGER") && ddl.contains("ENABLE ALWAYS TRIGGER"),
            "DDL half must install and always-enable the trigger:\n{ddl}"
        );
    }
}
fn test_source(table: &str) -> SyncSource {
    SyncSource {
        table: table.into(),
        slot_field: None,
        track_fields: None,
        computed_fields: None,
        field: None,
        value_field: None,
        filter: None,
        sets_alive: false,
        on_delete: None,
        query: None,
        query_source: None,
        table_type: None,
        rows_from: None,
        shared_ops_fields: None,
        join: None,
        expression: None,
        depends_on: None,
    }
}

#[test]
fn test_generate_multi_value_trigger() {
    let source = SyncSource {
        slot_field: Some("imageId".into()),
        field: Some("tagIds".into()),
        value_field: Some("tagId".into()),
        ..test_source("TagsOnImageNew")
    };
    let sql = generate_trigger_sql(&source);
    assert!(sql.contains("CREATE OR REPLACE FUNCTION"));
    assert!(sql.contains("'add'"));
    assert!(sql.contains("'remove'"));
    assert!(sql.contains("tagIds"));
    assert!(sql.contains("ENABLE ALWAYS"));
}

#[test]
fn test_generate_direct_trigger() {
    let source = SyncSource {
        slot_field: Some("id".into()),
        track_fields: Some(vec![
            TrackField::Simple("nsfwLevel".into()),
            TrackField::Simple("type".into()),
        ]),
        sets_alive: true,
        on_delete: Some(OnDeleteValue::String("delete_slot".into())),
        ..test_source("Image")
    };
    let sql = generate_trigger_sql(&source);
    assert!(sql.contains("IS DISTINCT FROM"));
    assert!(sql.contains("nsfwLevel"));
    assert!(sql.contains("delete"));
}

#[test]
fn test_generate_fan_out_trigger() {
    let source = SyncSource {
        track_fields: Some(vec![TrackField::Simple("baseModel".into())]),
        query: Some("modelVersionIds eq {id}".into()),
        ..test_source("ModelVersion")
    };
    let sql = generate_trigger_sql(&source);
    assert!(sql.contains("queryOpSet"));
    assert!(sql.contains("modelVersionIds eq"));
}

#[test]
fn test_trigger_name_includes_hash() {
    let source = SyncSource {
        slot_field: Some("id".into()),
        track_fields: Some(vec![TrackField::Simple("nsfwLevel".into())]),
        ..test_source("Image")
    };
    let name = trigger_name(&source);
    assert!(name.starts_with("bitdex_image_"));
    assert_eq!(name.len(), "bitdex_image_".len() + 8);
}

#[test]
fn test_trigger_hash_changes_with_config() {
    let source1 = SyncSource {
        slot_field: Some("id".into()),
        track_fields: Some(vec![TrackField::Simple("nsfwLevel".into())]),
        ..test_source("Image")
    };
    let source2 = SyncSource {
        track_fields: Some(vec![
            TrackField::Simple("nsfwLevel".into()),
            TrackField::Simple("type".into()),
        ]),
        ..source1.clone()
    };
    let name1 = trigger_name(&source1);
    let name2 = trigger_name(&source2);
    assert_ne!(name1, name2, "Different configs should produce different hashes");
}




#[test]
fn test_expression_in_track_fields() {
    let source = SyncSource {
        slot_field: Some("id".into()),
        track_fields: Some(vec![
            TrackField::Simple("nsfwLevel".into()),
            TrackField::Simple("GREATEST({scannedAt}, {createdAt}) as existedAt".into()),
            TrackField::Simple("({flags} & (1 << 13)) != 0 AND ({flags} & (1 << 2)) = 0 as hasMeta".into()),
        ]),
        sets_alive: true,
        on_delete: Some(OnDeleteValue::String("delete_slot".into())),
        ..test_source("Image")
    };
    let sql = generate_trigger_sql(&source);
    assert!(sql.contains("GREATEST"));
    assert!(sql.contains("existedAt"));
    assert!(sql.contains("hasMeta"));
}

#[test]
fn test_track_field_to_string_mapped_with_expression() {
    let tf = TrackField::Mapped {
        column: Some("publishedAt".into()),
        target: Some("publishedAt".into()),
        expression: Some("extract(epoch from {publishedAt})::bigint".into()),
    };
    let s = tf.to_track_string();
    assert_eq!(s, "extract(epoch from {publishedAt})::bigint as publishedAt");
}

#[test]
fn test_track_field_to_string_mapped_column_only() {
    let tf = TrackField::Mapped {
        column: Some("tagId".into()),
        target: Some("tagIds".into()),
        expression: None,
    };
    let s = tf.to_track_string();
    assert!(s.contains("tagIds"), "Expected 'tagIds' in '{s}'");
}
const SORTAT_EXPR: &str = "COALESCE(extract(epoch from {sortAt})::bigint, \
GREATEST(extract(epoch from (SELECT p.\"publishedAt\" FROM \"Post\" p WHERE p.id = {postId}))::bigint, \
extract(epoch from {scannedAt})::bigint, \
extract(epoch from {createdAt})::bigint)) as sortAt";
fn post_fan_out_per_row_source() -> SyncSource {
    SyncSource {
        table_type: Some("fan_out_per_row".into()),
        rows_from: Some(RowsFrom {
            table: "Image".into(),
            fk: "postId".into(),
            slot: "id".into(),
            parent_key: "id".into(),
        }),
        track_fields: Some(vec![
            TrackField::Simple("extract(epoch from {publishedAt})::bigint as publishedAt".into()),
            TrackField::Simple("{availability}::text as availability".into()),
            TrackField::Mapped {
                column: Some("modelVersionId".into()),
                target: Some("postedToId".into()),
                expression: None,
            },
        ]),
        ..test_source("Post")
    }
}
fn emitted_fields(sql: &str) -> std::collections::HashSet<String> {
    let mut out = std::collections::HashSet::new();
    let marker = "'field', '";
    let mut rest = sql;
    while let Some(pos) = rest.find(marker) {
        let after = &rest[pos + marker.len()..];
        if let Some(end) = after.find('\'') {
            out.insert(after[..end].to_string());
        }
        rest = after;
    }
    out
}
#[test]
fn test_fan_out_per_row_snapshot() {
    let sql = generate_trigger_sql(&post_fan_out_per_row_source());
    assert!(sql.contains(r#"CREATE TRIGGER"#));
    assert!(sql.contains("AFTER INSERT OR UPDATE ON \"Post\""), "events:\n{sql}");
    assert!(!sql.contains("DELETE"), "per-row fan-out must not handle DELETE:\n{sql}");
    assert!(
        sql.contains(r#"INSERT INTO "BitdexOps" (entity_id, ops)"#),
        "must insert per-row ops:\n{sql}"
    );
    assert!(
        sql.contains(r#"SELECT c."id", _ops FROM "Image" c WHERE c."postId" = NEW."id""#),
        "must enumerate child rows transactionally:\n{sql}"
    );
    assert!(
        !sql.contains("queryOpSet"),
        "per-row fan-out must not emit queryOpSet:\n{sql}"
    );
    assert!(sql.contains("IF TG_OP = 'INSERT' THEN"));
    assert!(sql.contains("ELSIF TG_OP = 'UPDATE' THEN"));
    assert!(sql.contains("IS DISTINCT FROM"), "UPDATE must diff parent fields:\n{sql}");
    assert!(
        sql.contains("IF jsonb_array_length(_ops) > 0 THEN"),
        "UPDATE must skip empty diffs:\n{sql}"
    );
    assert!(
        sql.contains(r#"CREATE OR REPLACE FUNCTION bitdex_post_fanout_ops(_p "Post") RETURNS jsonb"#),
        "shared ops function must be generated:\n{sql}"
    );
    assert!(sql.contains("LANGUAGE sql STABLE"), "ops function must be STABLE sql:\n{sql}");
    assert!(
        sql.contains("_ops := bitdex_post_fanout_ops(NEW);"),
        "INSERT path must call the shared ops function:\n{sql}"
    );
}
#[test]
fn test_fan_out_per_row_shared_ops_function_parity() {
    let source = post_fan_out_per_row_source();
    let rows = source.rows_from.as_ref().unwrap();
    assert_eq!(fan_out_ops_function_name(&source), "bitdex_post_fanout_ops");

    let fn_sql = generate_fan_out_ops_function_sql(&source, rows);
    for expected in ["publishedAt", "availability", "postedToId"] {
        assert!(fn_sql.contains(expected), "function dropped '{expected}':\n{fn_sql}");
    }
    assert!(fn_sql.contains(r#"extract(epoch from _p."publishedAt")::bigint"#), "{fn_sql}");
    assert!(fn_sql.contains(r#"_p."availability"::text"#), "{fn_sql}");
    assert!(fn_sql.contains(r#"to_jsonb(_p."modelVersionId")"#), "{fn_sql}");
    let trigger_sql = generate_trigger_sql(&source);
    assert!(
        trigger_sql.contains(&fn_sql),
        "trigger SQL's embedded ops function diverged from the standalone \
         generator output — the single-builder guarantee is broken.\n\
         standalone:\n{fn_sql}\ntrigger:\n{trigger_sql}"
    );
    assert!(
        trigger_sql.contains(&format!("_ops := {}(NEW);", fan_out_ops_function_name(&source))),
        "trigger INSERT path must call the function by its helper-derived name:\n{trigger_sql}"
    );
}
#[test]
fn test_fan_out_per_row_retains_full_payload() {
    let sql = generate_trigger_sql(&post_fan_out_per_row_source());
    let fields = emitted_fields(&sql);
    for expected in ["publishedAt", "availability", "postedToId"] {
        assert!(
            fields.contains(expected),
            "per-row fan-out dropped '{expected}' (payload must be retained per PR-M1); got {fields:?}\n{sql}"
        );
    }
    assert!(
        sql.contains(r#"extract(epoch from NEW."publishedAt")::bigint"#),
        "publishedAt must be emitted as an epoch bigint:\n{sql}"
    );
}
#[test]
fn test_fan_out_publishedat_future_guard() {
    let source = post_fan_out_per_row_source();
    let rows = source.rows_from.as_ref().unwrap();
    let fn_sql = generate_fan_out_ops_function_sql(&source, rows);
    assert!(
        fn_sql.contains(r#"CASE WHEN _p."publishedAt" IS NULL OR _p."publishedAt" > now()"#),
        "INSERT publishedAt must be guarded on NULL/future:\n{fn_sql}"
    );
    assert!(
        fn_sql.contains(r#"THEN jsonb_build_object('op', 'remove', 'field', 'publishedAt'"#),
        "future/null publishedAt must emit a remove:\n{fn_sql}"
    );
    assert!(
        fn_sql.contains(r#"ELSE jsonb_build_object('op', 'set', 'field', 'publishedAt'"#),
        "past publishedAt must emit a set:\n{fn_sql}"
    );
    assert!(
        !fn_sql.contains(r#"CASE WHEN _p."availability""#)
            && !fn_sql.contains(r#"CASE WHEN _p."modelVersionId""#),
        "only publishedAt may be guarded; other fields must be unconditional:\n{fn_sql}"
    );
    assert!(
        fn_sql.contains(r#"jsonb_build_object('op', 'set', 'field', 'availability'"#),
        "availability must remain an unconditional set:\n{fn_sql}"
    );
    let trigger_sql = generate_trigger_sql(&source);
    assert!(
        trigger_sql.contains(r#"CASE WHEN NEW."publishedAt" IS NULL OR NEW."publishedAt" > now()"#),
        "UPDATE new-side publishedAt must be guarded on NULL/future:\n{trigger_sql}"
    );
    assert!(
        trigger_sql.contains(&format!(
            "jsonb_build_object('op', 'remove', 'field', 'publishedAt', 'value', \
             to_jsonb({}))",
            r#"extract(epoch from OLD."publishedAt")::bigint"#
        )),
        "the publish arm must still remove the OLD publishedAt value:\n{trigger_sql}"
    );
    assert!(
        !trigger_sql.contains(r#"CASE WHEN NEW."availability""#),
        "only publishedAt may be guarded on the UPDATE new-side:\n{trigger_sql}"
    );
}
#[test]
fn test_fan_out_publishedat_schedule_emits_old_side_then_new() {
    let trigger_sql = generate_trigger_sql(&post_fan_out_per_row_source());

    let old_remove = format!(
        "jsonb_build_object('op', 'remove', 'field', 'publishedAt', 'value', to_jsonb({}))",
        r#"extract(epoch from OLD."publishedAt")::bigint"#
    );
    let new_remove = format!(
        "jsonb_build_object('op', 'remove', 'field', 'publishedAt', 'value', to_jsonb({}))",
        r#"extract(epoch from NEW."publishedAt")::bigint"#
    );
    let new_set = format!(
        "jsonb_build_object('op', 'set', 'field', 'publishedAt', 'value', to_jsonb({}))",
        r#"extract(epoch from NEW."publishedAt")::bigint"#
    );
    let update_at = trigger_sql
        .find("ELSIF TG_OP = 'UPDATE' THEN")
        .unwrap_or_else(|| panic!("no UPDATE branch:\n{trigger_sql}"));
    let update_branch = &trigger_sql[update_at..];
    let block_start = update_branch
        .find(r#"IF (extract(epoch from OLD."publishedAt")::bigint)"#)
        .unwrap_or_else(|| panic!("no publishedAt UPDATE block:\n{update_branch}"));
    let block = &update_branch[block_start..];
    let block_end = block
        .find("END IF;")
        .unwrap_or_else(|| panic!("publishedAt block unterminated:\n{block}"));
    let block = &block[..block_end];
    let case_at = block
        .find("CASE WHEN")
        .unwrap_or_else(|| panic!("guarded CASE missing:\n{block}"));
    let before_case = &block[..case_at];
    assert!(
        before_case.contains(&old_remove),
        "the old-side remove must be emitted unconditionally, before the \
         guard — it is what clears the previous value's sort bits:\n{block}"
    );
    let old_at = block.find(&old_remove).expect("old-side remove");
    let new_at = block
        .find(&new_remove)
        .unwrap_or_else(|| panic!("guarded new-side remove missing:\n{block}"));
    assert!(
        old_at < new_at,
        "the NEW-side op must be emitted LAST — the engine reads the last op \
         on this field as the schedule:\n{block}"
    );
    assert!(
        block.contains(&new_set),
        "the already-past arm must still be a set:\n{block}"
    );
    assert_eq!(
        block.matches("'field', 'publishedAt'").count(),
        3,
        "exactly three publishedAt ops: the old-side remove plus the two \
         arms of the guarded new side:\n{block}"
    );
}
fn image_source_with_sortat() -> SyncSource {
    SyncSource {
        slot_field: Some("id".into()),
        track_fields: Some(vec![
            TrackField::Simple("nsfwLevel".into()),
            TrackField::Simple(SORTAT_EXPR.into()),
        ]),
        shared_ops_fields: Some(vec!["sortAt".into()]),
        sets_alive: true,
        on_delete: Some(OnDeleteValue::String("delete_slot".into())),
        ..test_source("Image")
    }
}
#[test]
fn test_computed_publishedat_guarded_on_update_not_insert() {
    let source = SyncSource {
        slot_field: Some("id".into()),
        track_fields: Some(vec![TrackField::Simple("nsfwLevel".into())]),
        computed_fields: Some(vec![
            TriggerComputedField {
                target: "publishedAt".into(),
                expression:
                    r#"(SELECT extract(epoch from p."publishedAt")::bigint FROM "Post" p WHERE p.id = {postId})"#
                        .into(),
                value: None,
            },
            TriggerComputedField {
                target: "existedAt".into(),
                expression: "GREATEST(extract(epoch from {scannedAt})::bigint, extract(epoch from {createdAt})::bigint)".into(),
                value: None,
            },
        ]),
        sets_alive: true,
        ..test_source("Image")
    };
    let sql = generate_trigger_sql(&source);

    let insert_at = sql.find("IF TG_OP = 'INSERT' THEN").expect("INSERT branch");
    let update_at = sql[insert_at..]
        .find("  ELSE\n    _ops := '[]'::jsonb;\n")
        .map(|i| i + insert_at)
        .expect("UPDATE branch");
    assert!(insert_at < update_at, "unexpected branch order:\n{sql}");
    let insert_branch = &sql[insert_at..update_at];
    let update_branch = &sql[update_at..];
    assert!(
        insert_branch.contains("jsonb_build_object('op', 'set', 'field', 'publishedAt'"),
        "INSERT must emit a plain publishedAt set:\n{insert_branch}"
    );
    assert!(
        !insert_branch.contains("CASE WHEN"),
        "INSERT must NOT be guarded — the future set is what defers the \
         slot:\n{insert_branch}"
    );
    assert!(
        update_branch.contains("extract(epoch from now())::bigint"),
        "UPDATE publishedAt must be guarded against future values:\n{update_branch}"
    );
    let case_at = update_branch
        .find("CASE WHEN")
        .expect("guarded CASE in the UPDATE branch");
    assert!(
        update_branch[..case_at].contains(
            "jsonb_build_object('op', 'remove', 'field', 'publishedAt'"
        ),
        "the old-side remove must be emitted before the guard — it is what \
         clears the previous value's sort bits:\n{update_branch}"
    );
    let case_body = &update_branch[case_at..];
    let else_at = case_body.find("ELSE").expect("ELSE arm");
    let then_arm = &case_body[..else_at];
    assert_eq!(
        then_arm.matches("jsonb_build_object('op'").count(),
        1,
        "future/null arm must emit exactly one op:\n{then_arm}"
    );
    assert!(
        then_arm.contains("'op', 'remove', 'field', 'publishedAt'"),
        "future/null arm must be a remove:\n{then_arm}"
    );
    assert!(
        update_branch.contains(
            "jsonb_build_object('op', 'set', 'field', 'existedAt'"
        ),
        "non-guarded computed fields keep the plain pair:\n{update_branch}"
    );
    assert_eq!(
        update_branch.matches("CASE WHEN").count(),
        1,
        "only publishedAt may be guarded:\n{update_branch}"
    );
}

#[test]
fn test_image_sortat_target_name_seconds_and_coalesce() {
    let source = image_source_with_sortat();
    let sql = generate_trigger_sql(&source);
    assert!(emitted_fields(&sql).contains("sortAt"), "{sql}");
    assert!(!emitted_fields(&sql).contains("sortAtUnix"), "must NOT emit the source name:\n{sql}");
    assert!(!sql.contains("* 1000"), "sortAt must be seconds, not ms:\n{sql}");
    assert!(
        sql.contains("_ops := _ops || bitdex_image_sortat_ops(NEW);"),
        "INSERT must call the shared sortat ops function:\n{sql}"
    );
    assert!(
        sql.contains(r#"COALESCE(extract(epoch from _i."sortAt")::bigint"#),
        "shared function body must be row-parameterized (_i), not NEW/OLD:\n{sql}"
    );
    assert!(
        sql.contains(r#"FROM "Post" p WHERE p.id = _i."postId""#),
        "fallback must read Post.publishedAt per-image:\n{sql}"
    );
    assert!(
        sql.contains(r#"COALESCE(extract(epoch from NEW."sortAt")::bigint"#),
        "UPDATE must diff the NEW resolution:\n{sql}"
    );
    assert!(
        sql.contains(r#"COALESCE(extract(epoch from OLD."sortAt")::bigint"#),
        "UPDATE must diff the OLD resolution:\n{sql}"
    );
    assert!(
        sql.contains(r#"WHERE p.id = OLD."postId""#),
        "UPDATE fallback must resolve against OLD row:\n{sql}"
    );
}
#[test]
fn test_image_sortat_shared_ops_function_parity() {
    let source = image_source_with_sortat();
    assert_eq!(
        shared_field_ops_function_name("Image", "sortAt"),
        "bitdex_image_sortat_ops"
    );

    let fn_sql = generate_shared_field_ops_function_sql(&source, "sortAt")
        .expect("sortAt is tracked, must resolve");
    assert!(fn_sql.contains(r#"CREATE OR REPLACE FUNCTION bitdex_image_sortat_ops(_i "Image") RETURNS jsonb"#), "{fn_sql}");
    assert!(fn_sql.contains("LANGUAGE sql STABLE"), "{fn_sql}");
    assert!(fn_sql.contains("'field', 'sortAt'"), "{fn_sql}");
    assert!(!fn_sql.contains("* 1000"), "shared function must emit seconds:\n{fn_sql}");
    let trigger_sql = generate_trigger_sql(&source);
    assert!(
        trigger_sql.contains(&fn_sql),
        "trigger SQL's embedded sortat ops function diverged from the \
         standalone generator output.\nstandalone:\n{fn_sql}\ntrigger:\n{trigger_sql}"
    );
    assert!(
        trigger_sql.contains(&format!(
            "_ops := _ops || {}(NEW);",
            shared_field_ops_function_name("Image", "sortAt"),
        )),
        "trigger INSERT path must call the function by its helper-derived name:\n{trigger_sql}"
    );
}
#[test]
fn test_post_fanout_and_image_fields_disjoint() {
    let post_sql = generate_trigger_sql(&post_fan_out_per_row_source());

    let image = SyncSource {
        track_fields: Some(vec![
            TrackField::Simple("nsfwLevel".into()),
            TrackField::Simple("{type}::text as type".into()),
            TrackField::Simple("postId".into()),
            TrackField::Simple(SORTAT_EXPR.into()),
        ]),
        ..image_source_with_sortat()
    };
    let image_sql = generate_trigger_sql(&image);

    let post_fields = emitted_fields(&post_sql);
    let image_fields = emitted_fields(&image_sql);
    assert!(!post_fields.is_empty() && !image_fields.is_empty());

    let overlap: Vec<_> = post_fields.intersection(&image_fields).collect();
    assert!(
        overlap.is_empty(),
        "Post fan-out and Image trigger emit overlapping field(s) {overlap:?} — \
         double-emission would be LIFO-resolved nondeterministically.\n\
         Post: {post_fields:?}\nImage: {image_fields:?}"
    );
}

fn image_rows() -> RowsFrom {
    RowsFrom {
        table: "Image".into(),
        fk: "postId".into(),
        slot: default_rows_from_id(),
        parent_key: default_rows_from_id(),
    }
}

fn published_at() -> Option<Vec<TrackField>> {
    Some(vec![TrackField::Simple("publishedAt".into())])
}

#[test]
fn test_fan_out_per_row_type_without_rows_from_rejected() {
    let source = SyncSource {
        table_type: Some("fan_out_per_row".into()),
        track_fields: published_at(),
        ..test_source("Post")
    };
    let err = SyncConfig::from_sources(vec![source]).unwrap_err();
    assert!(err.contains("Post"), "{err}");
    assert!(err.contains("rows_from"), "{err}");
}

#[test]
fn test_rows_from_without_matching_type_rejected() {
    let source = SyncSource {
        rows_from: Some(image_rows()),
        track_fields: published_at(),
        ..test_source("Post")
    };
    let err = SyncConfig::from_sources(vec![source]).unwrap_err();
    assert!(err.contains("fan_out_per_row"), "{err}");
}

#[test]
fn test_rows_from_combined_with_field_rejected() {
    let source = SyncSource {
        table_type: Some("fan_out_per_row".into()),
        field: Some("tagIds".into()),
        value_field: Some("tagId".into()),
        rows_from: Some(image_rows()),
        ..test_source("Post")
    };
    let err = SyncConfig::from_sources(vec![source]).unwrap_err();
    assert!(err.contains("field"), "{err}");
}

#[test]
fn test_rows_from_combined_with_query_rejected() {
    let source = SyncSource {
        table_type: Some("fan_out_per_row".into()),
        query: Some("postId eq {id}".into()),
        rows_from: Some(image_rows()),
        track_fields: published_at(),
        ..test_source("Post")
    };
    let err = SyncConfig::from_sources(vec![source]).unwrap_err();
    assert!(err.contains("query"), "{err}");
}

#[test]
fn test_fan_out_per_row_valid_config_parses() {
    let source = SyncSource {
        table_type: Some("fan_out_per_row".into()),
        rows_from: Some(image_rows()),
        track_fields: published_at(),
        ..test_source("Post")
    };
    assert!(SyncConfig::from_sources(vec![source]).is_ok());
}

#[test]
fn test_shared_ops_fields_unknown_target_rejected() {
    let source = SyncSource {
        slot_field: Some("id".into()),
        sets_alive: true,
        track_fields: Some(vec![TrackField::Simple("nsfwLevel".into())]),
        shared_ops_fields: Some(vec!["doesNotExist".into()]),
        ..test_source("Image")
    };
    let err = SyncConfig::from_sources(vec![source]).unwrap_err();
    assert!(err.contains("doesNotExist"), "error must name the bad field: {err}");
}

#[test]
fn rows_from_drives_the_per_row_body() {
    assert_eq!(default_rows_from_id(), "id");
    let source = SyncSource {
        table_type: Some("fan_out_per_row".into()),
        rows_from: Some(image_rows()),
        track_fields: Some(vec![
            TrackField::Mapped {
                column: Some("publishedAt".into()),
                target: Some("publishedAt".into()),
                expression: Some("extract(epoch from {publishedAt})::bigint".into()),
            },
            TrackField::Mapped {
                column: Some("availability".into()),
                target: Some("availability".into()),
                expression: Some("{availability}::text".into()),
            },
            TrackField::Mapped {
                column: Some("modelVersionId".into()),
                target: Some("postedToId".into()),
                expression: None,
            },
        ]),
        ..test_source("Post")
    };
    let sql = generate_trigger_sql(&source);
    assert!(sql.contains(r#"FROM "Image" c WHERE c."postId" = NEW."id""#), "{sql}");
    assert!(!sql.contains("queryOpSet"), "{sql}");
}

#[test]
fn on_delete_reads_as_a_deletion() {
    assert!(OnDeleteValue::Bool(true).is_delete());
    assert!(!OnDeleteValue::Bool(false).is_delete());
    assert!(OnDeleteValue::String("delete_slot".into()).is_delete());
}

#[test]
fn short_hash_is_eight_hex_digits() {
    let a = short_hash("one");
    let b = short_hash("two");
    assert_eq!(a.len(), 8);
    assert!(a.chars().all(|c| c.is_ascii_hexdigit()));
    assert_ne!(a, b);
    assert_eq!(a, short_hash("one"));
}

#[test]
fn shared_names_drop_the_unix_ending_in_any_case() {
    assert_eq!(shared_field_ops_function_name("Image", "sortAtUnix"), "bitdex_image_sortat_ops");
    assert_eq!(shared_field_ops_function_name("Image", "sortAtUNIX"), "bitdex_image_sortat_ops");
}

#[test]
fn column_parameters_are_collected_in_order() {
    let (text, params) = build_execute_with_params("a eq {x} and b eq {y}", "NEW");
    assert_eq!(text, "a eq $1 and b eq $2");
    assert_eq!(params, vec!["NEW.\"x\"".to_string(), "NEW.\"y\"".to_string()]);
}

#[test]
fn parameters_put_back_give_the_plain_substitution() {
    let template = "SELECT json_agg(x) FROM t WHERE a = {id} AND b IN ({ids}, {id}) AND c = {last}";
    let (mut sql, params) = build_execute_with_params(template, "NEW");
    assert_eq!(sql, "SELECT json_agg(x) FROM t WHERE a = $1 AND b IN ($2, $3) AND c = $4");
    assert_eq!(params, vec!["NEW.\"id\"", "NEW.\"ids\"", "NEW.\"id\"", "NEW.\"last\""]);
    for (i, param) in params.iter().enumerate() {
        sql = sql.replace(&format!("${}", i + 1), param);
    }
    assert_eq!(sql, substitute_columns(template, "NEW"));
}
