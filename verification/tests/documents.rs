use bitdex::json::{value_to_json, Json};
use bitdex::query::{FloatValue, Value};
use bitdex::server::documents::{document_reply, format_document, IncludeDocs, Shape};
use bitdex::server::queries::document_answers;
use bitdex::server::schema::{
    DataSchema, FieldMapping, FieldValue, FieldValueType, SchemaDefaults, StoredDoc, TextTable,
};

fn plain(json: &Json) -> serde_json::Value {
    match json {
        Json::Null => serde_json::Value::Null,
        Json::Bool(b) => serde_json::Value::from(*b),
        Json::Integer(i) => serde_json::Value::from(*i),
        Json::Unsigned(i) => serde_json::Value::from(*i),
        Json::Float(f) => serde_json::Value::from(f64::from_bits(f.bits)),
        Json::Text(s) => serde_json::Value::from(s.as_str()),
        Json::List(items) => serde_json::Value::Array(items.iter().map(plain).collect()),
        Json::Object(fields) => object(fields),
    }
}

fn object(fields: &[(String, Json)]) -> serde_json::Value {
    serde_json::Value::Object(fields.iter().map(|(name, value)| (name.clone(), plain(value))).collect())
}

fn json(text: &str) -> serde_json::Value {
    serde_json::from_str(text).unwrap()
}

fn mapping(source: &str, target: &str, value_type: FieldValueType) -> FieldMapping {
    FieldMapping {
        source: source.into(),
        target: target.into(),
        value_type,
        fallback: None,
        string_map: None,
        doc_only: false,
        filter_only: false,
        ms_to_seconds: false,
        truncate_u32: false,
        case_sensitive: false,
        default_value: None,
        nullable: false,
    }
}

fn make_schema(fields: Vec<FieldMapping>) -> DataSchema {
    DataSchema { id_field: "id".to_string(), schema_version: 1, fields }
}

fn single(value: Value) -> FieldValue {
    FieldValue::Single(value)
}

fn make_stored_doc(fields: Vec<(&str, FieldValue)>) -> StoredDoc {
    StoredDoc { fields: fields.into_iter().map(|(k, v)| (k.to_string(), v)).collect(), schema_version: 0 }
}

fn format_with(
    doc: &StoredDoc,
    schema: &DataSchema,
    reverse_maps: &Vec<(String, TextTable)>,
    selection: &IncludeDocs,
    registry: &Vec<SchemaDefaults>,
) -> serde_json::Value {
    let shape = Shape { schema, reverse_maps, registry };
    object(&format_document(doc, &shape, selection))
}

fn format_all(doc: &StoredDoc, schema: &DataSchema) -> serde_json::Value {
    format_with(doc, schema, &vec![], &IncludeDocs::All, &vec![])
}

#[test]
fn test_format_document_source_ne_target() {
    let schema = make_schema(vec![FieldMapping {
        ms_to_seconds: true,
        ..mapping("publishedAtUnix", "publishedAt", FieldValueType::Integer)
    }]);
    let doc = make_stored_doc(vec![
        ("id", single(Value::Integer(42))),
        ("publishedAtUnix", single(Value::Integer(1487255090000))),
    ]);
    let result = format_all(&doc, &schema);
    assert_eq!(result["publishedAt"], json("1487255090"));
}

#[test]
fn test_format_document_target_name_lookup() {
    let schema = make_schema(vec![FieldMapping {
        ms_to_seconds: true,
        ..mapping("publishedAtUnix", "publishedAt", FieldValueType::Integer)
    }]);
    let doc = make_stored_doc(vec![
        ("id", single(Value::Integer(42))),
        ("publishedAt", single(Value::Integer(1487255090))),
    ]);
    let result = format_all(&doc, &schema);
    assert_eq!(result["publishedAt"], json("1487255090"));
}

#[test]
fn test_format_document_no_ms_conversion_when_not_configured() {
    let schema = make_schema(vec![FieldMapping {
        default_value: Some(Json::Integer(0)),
        ..mapping("reactionCount", "reactionCount", FieldValueType::Integer)
    }]);
    let doc = make_stored_doc(vec![
        ("id", single(Value::Integer(1))),
        ("reactionCount", single(Value::Integer(42))),
    ]);
    let result = format_all(&doc, &schema);
    assert_eq!(result["reactionCount"], json("42"));
}

#[test]
fn test_format_document_missing_field_uses_default() {
    let schema = make_schema(vec![FieldMapping {
        default_value: Some(Json::Integer(0)),
        ..mapping("reactionCount", "reactionCount", FieldValueType::Integer)
    }]);
    let doc = make_stored_doc(vec![("id", single(Value::Integer(1)))]);
    let result = format_all(&doc, &schema);
    assert_eq!(result["reactionCount"], json("0"));
}

#[test]
fn test_format_document_missing_field_no_default_returns_type_zero() {
    let schema = make_schema(vec![mapping("sortAt", "sortAt", FieldValueType::Integer)]);
    let doc = make_stored_doc(vec![("id", single(Value::Integer(1)))]);
    let result = format_all(&doc, &schema);
    assert_eq!(result["sortAt"], json("0"));
}

#[test]
fn test_format_document_boolean_field() {
    let schema = make_schema(vec![FieldMapping {
        default_value: Some(Json::Bool(false)),
        ..mapping("hasMeta", "hasMeta", FieldValueType::Boolean)
    }]);
    let doc = make_stored_doc(vec![("id", single(Value::Integer(1))), ("hasMeta", single(Value::Bool(true)))]);
    let result = format_all(&doc, &schema);
    assert_eq!(result["hasMeta"], json("true"));
}

#[test]
fn test_format_document_multi_value_array() {
    let schema = make_schema(vec![FieldMapping {
        default_value: Some(Json::List(vec![])),
        ..mapping("tagIds", "tagIds", FieldValueType::IntegerArray)
    }]);
    let doc = make_stored_doc(vec![
        ("id", single(Value::Integer(1))),
        ("tagIds", FieldValue::Multi(vec![Value::Integer(10), Value::Integer(20)])),
    ]);
    let result = format_all(&doc, &schema);
    assert_eq!(result["tagIds"], json("[10, 20]"));
}

#[test]
fn test_format_document_filter_only_excluded() {
    let schema = make_schema(vec![
        mapping("nsfwLevel", "nsfwLevel", FieldValueType::Integer),
        FieldMapping {
            filter_only: true,
            default_value: Some(Json::List(vec![])),
            ..mapping("collectionIds", "collectionIds", FieldValueType::IntegerArray)
        },
    ]);
    let doc = make_stored_doc(vec![("id", single(Value::Integer(1))), ("nsfwLevel", single(Value::Integer(1)))]);
    let result = format_all(&doc, &schema);
    assert_eq!(result["nsfwLevel"], json("1"));
    assert_eq!(result["collectionIds"], json("[]"));
}

#[test]
fn test_format_document_mapped_string_reverse() {
    let schema = make_schema(vec![FieldMapping {
        string_map: Some(vec![("image".to_string(), 1), ("video".to_string(), 2)]),
        ..mapping("type", "type", FieldValueType::MappedString)
    }]);
    let doc = make_stored_doc(vec![("id", single(Value::Integer(1))), ("type", single(Value::Integer(1)))]);
    let table = TextTable { entries: vec![(1, "image".to_string()), (2, "video".to_string())] };
    let reverse_maps = vec![("type".to_string(), table)];
    let result = format_with(&doc, &schema, &reverse_maps, &IncludeDocs::All, &vec![]);
    assert_eq!(result["type"], json("\"image\""));
}

#[test]
fn test_format_document_mapped_string_unknown_value() {
    let schema = make_schema(vec![FieldMapping {
        string_map: Some(vec![("image".to_string(), 1)]),
        ..mapping("type", "type", FieldValueType::MappedString)
    }]);
    let doc = make_stored_doc(vec![("id", single(Value::Integer(1))), ("type", single(Value::Integer(999)))]);
    let reverse_maps = vec![("type".to_string(), TextTable { entries: vec![(1, "image".to_string())] })];
    let result = format_with(&doc, &schema, &reverse_maps, &IncludeDocs::All, &vec![]);
    assert!(result["type"].is_null(), "Unknown MappedString should be null");
    assert!(result.get("type").is_some());
}

#[test]
fn test_format_document_exists_boolean_true() {
    let schema = make_schema(vec![mapping("publishedAtUnix", "isPublished", FieldValueType::ExistsBoolean)]);
    let doc = make_stored_doc(vec![("id", single(Value::Integer(1))), ("isPublished", single(Value::Bool(true)))]);
    let result = format_all(&doc, &schema);
    assert_eq!(result["isPublished"], json("true"));
}

#[test]
fn test_format_document_exists_boolean_missing_defaults_false() {
    let schema = make_schema(vec![mapping("publishedAtUnix", "isPublished", FieldValueType::ExistsBoolean)]);
    let doc = make_stored_doc(vec![("id", single(Value::Integer(1)))]);
    let result = format_all(&doc, &schema);
    assert_eq!(result["isPublished"], json("false"));
}

#[test]
fn test_format_document_string_doc_only() {
    let schema = make_schema(vec![FieldMapping { doc_only: true, ..mapping("url", "url", FieldValueType::String) }]);
    let doc = make_stored_doc(vec![
        ("id", single(Value::Integer(1))),
        ("url", single(Value::String("https://example.com/img.jpg".into()))),
    ]);
    let result = format_all(&doc, &schema);
    assert_eq!(result["url"], json("\"https://example.com/img.jpg\""));
}

#[test]
fn test_format_document_field_selection() {
    let schema = make_schema(vec![
        mapping("nsfwLevel", "nsfwLevel", FieldValueType::Integer),
        mapping("userId", "userId", FieldValueType::Integer),
    ]);
    let doc = make_stored_doc(vec![
        ("id", single(Value::Integer(1))),
        ("nsfwLevel", single(Value::Integer(4))),
        ("userId", single(Value::Integer(42))),
    ]);
    let selection = IncludeDocs::Fields(vec!["nsfwLevel".to_string()]);
    let result = format_with(&doc, &schema, &vec![], &selection, &vec![]);
    assert_eq!(result["nsfwLevel"], json("4"));
    assert!(result.get("userId").is_none(), "userId should be excluded by field selection");
    assert_eq!(result["id"], json("1"));
}

#[test]
fn test_format_document_schema_version_historical_defaults() {
    let schema = make_schema(vec![FieldMapping {
        default_value: Some(Json::Integer(99)),
        ..mapping("newField", "newField", FieldValueType::Integer)
    }]);
    let mut doc = make_stored_doc(vec![("id", single(Value::Integer(1)))]);
    doc.schema_version = 2;
    let registry = vec![SchemaDefaults { version: 2, values: vec![("newField".to_string(), Json::Integer(42))] }];
    let result = format_with(&doc, &schema, &vec![], &IncludeDocs::All, &registry);
    assert_eq!(result["newField"], json("42"));
}

#[test]
fn test_format_document_truncate_u32_legacy_alias() {
    let schema = make_schema(vec![FieldMapping {
        truncate_u32: true,
        ..mapping("oldTimestampMs", "oldTimestamp", FieldValueType::Integer)
    }]);
    let doc = make_stored_doc(vec![
        ("id", single(Value::Integer(1))),
        ("oldTimestampMs", single(Value::Integer(1487255090000))),
    ]);
    let result = format_all(&doc, &schema);
    assert_eq!(result["oldTimestamp"], json("1487255090"));
}

#[test]
fn what_is_asked_for_follows_the_flag() {
    assert!(IncludeDocs::from_flag(false).is_none());
    assert!(matches!(IncludeDocs::from_flag(true), IncludeDocs::All));
    assert!(IncludeDocs::default().is_none());
    let names = IncludeDocs::from_names(vec!["a".to_string()]);
    assert!(matches!(names, IncludeDocs::Fields(list) if list == vec!["a".to_string()]));
}

#[test]
fn documents_that_are_gone_answer_with_their_number() {
    let schema = make_schema(vec![mapping("a", "a", FieldValueType::Integer)]);
    let registry = vec![];
    let reverse_maps = vec![];
    let shape = Shape { schema: &schema, reverse_maps: &reverse_maps, registry: &registry };
    let there = make_stored_doc(vec![("id", single(Value::Integer(7))), ("a", single(Value::Integer(5)))]);
    let docs = Some(vec![Some(there), None]);
    let answers = document_answers(&vec![7, 8], &docs, &shape, &IncludeDocs::All);
    assert_eq!(object(&answers[0]), json(r#"{"id": 7, "a": 5}"#));
    assert_eq!(object(&answers[1]), json(r#"{"id": 8}"#));
    let failed = document_answers(&vec![7, 8], &None, &shape, &IncludeDocs::All);
    assert_eq!(object(&failed[0]), json(r#"{"id": 7}"#));
}

#[test]
fn one_document_is_found_or_refused() {
    let schema = make_schema(vec![]);
    let (registry, reverse_maps) = (vec![], vec![]);
    let shape = Shape { schema: &schema, reverse_maps: &reverse_maps, registry: &registry };
    let there = Ok(Some(make_stored_doc(vec![("id", single(Value::Integer(7)))])));
    let found = document_reply(&there, &shape, &IncludeDocs::All, "not found").unwrap();
    assert_eq!(object(&found), json(r#"{"id": 7}"#));
    let gone = document_reply(&Ok(None), &shape, &IncludeDocs::All, "not found").unwrap_err();
    assert_eq!((gone.status, gone.error.as_str()), (404, "not found"));
    let broken = document_reply(&Err("disk".to_string()), &shape, &IncludeDocs::All, "x").unwrap_err();
    assert_eq!((broken.status, broken.error.as_str()), (500, "disk"));
}

#[test]
fn doubles_without_a_json_form_become_null() {
    let shown = |x: f64| value_to_json(&Value::Float(FloatValue { bits: x.to_bits(), text: x.to_string() }));
    assert!(matches!(shown(f64::NAN), Json::Null));
    assert!(matches!(shown(f64::INFINITY), Json::Null));
    assert!(matches!(shown(f64::NEG_INFINITY), Json::Null));
    assert_eq!(plain(&shown(f64::MAX)), serde_json::Value::from(f64::MAX));
    assert_eq!(plain(&shown(-1.5)), serde_json::Value::from(-1.5));
    assert_eq!(plain(&value_to_json(&Value::Integer(7))), serde_json::Value::from(7));
}

#[test]
fn whole_numbers_beyond_the_signed_ones_are_kept() {
    assert_eq!(plain(&Json::Unsigned(u64::MAX).clone()), serde_json::Value::from(u64::MAX));
}
