//! Documents as they are answered.

use crate::json::{json_of_value, list_model, value_to_json, Json, JsonView};
use crate::pairs::{find_value, pairs_map, set_pair};
use crate::query::{value_views, Value, ValueView};
use crate::server::answer::{refuse, Refusal, RefusalView};
use crate::server::schema::{
    DataSchema, FieldMapping, FieldValue, FieldValueType, FieldValueView, SchemaDefaults, StoredDoc, TextTable,
};
use crate::text::{contains_text, views};
use vstd::prelude::*;
use vstd::string::*;

verus! {

/// Which fields of documents are asked for.
#[derive(Debug, Clone)]
pub enum IncludeDocs {
    Nothing,
    All,
    Fields(Vec<String>),
}

impl Default for IncludeDocs {
    fn default() -> (r: Self)
        ensures
            r is Nothing,
    {
        IncludeDocs::Nothing
    }
}

impl IncludeDocs {
    /// What `true` and `false` ask for.
    pub fn from_flag(flag: bool) -> (r: Self)
        ensures
            flag ==> r is All,
            !flag ==> r is Nothing,
    {
        if flag {
            IncludeDocs::All
        } else {
            IncludeDocs::Nothing
        }
    }

    /// What a list of names asks for: everything where a star is among them, nothing where it
    /// is empty.
    pub fn from_names(names: Vec<String>) -> (r: Self)
        ensures
            if views(names@).contains("*"@) {
                r is All
            } else if names@.len() == 0 {
                r is Nothing
            } else {
                r == IncludeDocs::Fields(names)
            },
    {
        if contains_text(&names, "*") {
            IncludeDocs::All
        } else if names.len() == 0 {
            IncludeDocs::Nothing
        } else {
            IncludeDocs::Fields(names)
        }
    }

    /// Whether no documents are asked for.
    pub fn is_none(&self) -> (r: bool)
        ensures
            r == (self is Nothing),
    {
        match self {
            IncludeDocs::Nothing => true,
            _ => false,
        }
    }

    /// Every field.
    pub fn all() -> (r: Self)
        ensures
            r is All,
    {
        IncludeDocs::All
    }

    /// Whether a field is asked for.
    pub open spec fn selects(self, name: Seq<char>) -> bool {
        match self {
            IncludeDocs::Nothing => false,
            IncludeDocs::All => true,
            IncludeDocs::Fields(names) => views(names@).contains(name),
        }
    }

    fn wants(&self, name: &str) -> (r: bool)
        ensures
            r == self.selects(name@),
    {
        match self {
            IncludeDocs::Nothing => false,
            IncludeDocs::All => true,
            IncludeDocs::Fields(names) => contains_text(names, name),
        }
    }
}

/// Values as JSON.
pub open spec fn json_of_values(vs: Seq<ValueView>) -> Seq<JsonView> {
    Seq::new(vs.len(), |i: int| json_of_value(vs[i]))
}

/// What a document holds under a field, as JSON.
pub open spec fn json_of_field(v: FieldValueView) -> JsonView {
    match v {
        FieldValueView::Single(v) => json_of_value(v),
        FieldValueView::Multi(vs) => JsonView::List(json_of_values(vs)),
    }
}

/// Makes JSON of what a document holds under a field.
pub fn field_value_to_json(fv: &FieldValue) -> (r: Json)
    ensures
        r@ == json_of_field(fv@),
{
    match fv {
        FieldValue::Single(v) => value_to_json(v),
        FieldValue::Multi(vs) => {
            let mut items: Vec<Json> = Vec::new();
            let mut i: usize = 0;
            while i < vs.len()
                invariant
                    i <= vs@.len(),
                    items@.len() == i,
                    forall|j: int| 0 <= j < i ==> #[trigger] items@[j]@ == json_of_value(vs@[j]@),
                decreases vs@.len() - i,
            {
                items.push(value_to_json(&vs[i]));
                i = i + 1;
            }
            proof {
                crate::json::lemma_list_model(items@);
                assert forall|j: int| 0 <= j < items@.len() implies list_model(items@)[j] == json_of_values(
                    value_views(vs@),
                )[j] by {
                    assert(items@[j]@ == json_of_value(vs@[j]@));
                }
            }
            assert(list_model(items@) =~= json_of_values(value_views(vs@)));
            let r = Json::List(items);
            assert(r@ == JsonView::List(list_model(items@)));
            r
        },
    }
}

/// What a field whose texts are kept as numbers holds, with the text in place of the number; null
/// where no text has the number.
pub open spec fn reversed(v: FieldValueView, texts: Map<i64, Seq<char>>) -> JsonView {
    match v {
        FieldValueView::Single(ValueView::Integer(key)) => if texts.dom().contains(key as i64) {
            JsonView::Text(texts[key as i64])
        } else {
            JsonView::Null
        },
        _ => json_of_field(v),
    }
}

/// Puts the text in place of the number that a field holds.
pub fn reverse_map_value(fv: &FieldValue, table: &TextTable) -> (r: Json)
    ensures
        r@ == reversed(fv@, table@),
{
    match fv {
        FieldValue::Single(Value::Integer(key)) => match table.find_text(*key) {
            Some(text) => Json::Text(text.clone()),
            None => Json::Null,
        },
        other => field_value_to_json(other),
    }
}

/// The defaults of a version, from position `n` on.
pub open spec fn defaults_position(registry: Seq<SchemaDefaults>, version: u8, n: int) -> Option<int>
    decreases registry.len() - n,
{
    if n >= registry.len() {
        None
    } else if registry[n].version == version {
        Some(n)
    } else {
        defaults_position(registry, version, n + 1)
    }
}

fn find_defaults(registry: &Vec<SchemaDefaults>, version: u8) -> (r: Option<usize>)
    ensures
        match r {
            Some(i) => i < registry@.len() && defaults_position(registry@, version, 0) == Some(i as int),
            None => defaults_position(registry@, version, 0) is None,
        },
{
    let mut i: usize = 0;
    while i < registry.len()
        invariant
            i <= registry@.len(),
            defaults_position(registry@, version, 0) == defaults_position(registry@, version, i as int),
        decreases registry@.len() - i,
    {
        if registry[i].version == version {
            return Some(i);
        }
        i = i + 1;
    }
    None
}

/// What a field holds that nothing was said about.
pub open spec fn default_of_type(t: FieldValueType) -> JsonView {
    match t {
        FieldValueType::Integer => JsonView::Integer(0),
        FieldValueType::MappedString => JsonView::Null,
        FieldValueType::LowCardinalityString => JsonView::Null,
        FieldValueType::Boolean => JsonView::Bool(false),
        FieldValueType::ExistsBoolean => JsonView::Bool(false),
        FieldValueType::String => JsonView::Text(""@),
        FieldValueType::IntegerArray => JsonView::List(Seq::empty()),
    }
}

/// What a field holds by default: what the schema says, or else what its type says.
pub open spec fn default_of_field(mapping: FieldMapping) -> JsonView {
    match mapping.default_value {
        Some(v) => v@,
        None => default_of_type(mapping.value_type),
    }
}

/// Makes the default of a type.
pub fn default_json_for_type(t: FieldValueType) -> (r: Json)
    ensures
        r@ == default_of_type(t),
{
    match t {
        FieldValueType::Integer => Json::Integer(0),
        FieldValueType::MappedString => Json::Null,
        FieldValueType::LowCardinalityString => Json::Null,
        FieldValueType::Boolean => Json::Bool(false),
        FieldValueType::ExistsBoolean => Json::Bool(false),
        FieldValueType::String => Json::Text("".to_owned()),
        FieldValueType::IntegerArray => {
            let items: Vec<Json> = Vec::new();
            assert(list_model(items@) =~= Seq::<JsonView>::empty());
            let r = Json::List(items);
            assert(r@ == JsonView::List(list_model(items@)));
            r
        },
    }
}

/// Makes the default of a field.
pub fn default_json_for_field(mapping: &FieldMapping) -> (r: Json)
    ensures
        r@ == default_of_field(*mapping),
{
    match &mapping.default_value {
        Some(v) => v.clone(),
        None => default_json_for_type(mapping.value_type),
    }
}

/// Milliseconds in whole seconds, towards zero.
pub open spec fn whole_seconds(ms: int) -> int {
    if ms >= 0 {
        ms / 1000
    } else {
        -((-ms) / 1000)
    }
}

/// A number of milliseconds in seconds; anything else, also a number beyond `i64`, as it is.
pub open spec fn in_seconds(v: JsonView) -> JsonView {
    match v {
        JsonView::Integer(ms) if ms <= i64::MAX => JsonView::Integer(whole_seconds(ms)),
        _ => v,
    }
}

fn to_seconds(v: Json) -> (r: Json)
    ensures
        r@ == in_seconds(v@),
{
    match v {
        Json::Integer(ms) => {
            if ms >= 0 {
                Json::Integer(ms / 1000)
            } else {
                let magnitude: i128 = -(ms as i128) / 1000;
                Json::Integer((-magnitude) as i64)
            }
        },
        Json::Unsigned(ms) if ms <= i64::MAX as u64 => Json::Unsigned(ms / 1000),
        other => other,
    }
}

/// What is known beside a document.
pub struct Shape<'a> {
    pub schema: &'a DataSchema,
    pub reverse_maps: &'a Vec<(String, TextTable)>,
    pub registry: &'a Vec<SchemaDefaults>,
}

/// What a field holds, as it is answered: where the field's texts are kept as numbers and there is
/// a table for it, the text.
pub open spec fn shown(v: FieldValueView, mapping: FieldMapping, reverse_maps: Seq<(String, TextTable)>) -> JsonView {
    let keyed = mapping.value_type is MappedString || mapping.value_type is LowCardinalityString;
    let tables = pairs_map(reverse_maps);
    if keyed && tables.dom().contains(mapping.target@) {
        reversed(v, tables[mapping.target@])
    } else {
        json_of_field(v)
    }
}

/// The defaults that a document goes by: those of its version, where that is another than the
/// schema's and known.
pub open spec fn past_defaults(doc: StoredDoc, shape: Shape) -> Option<Map<Seq<char>, JsonView>> {
    if doc.schema_version != 0 && doc.schema_version != shape.schema.schema_version {
        match defaults_position(shape.registry@, doc.schema_version, 0) {
            Some(i) => Some(pairs_map(shape.registry@[i].values@)),
            None => None,
        }
    } else {
        None
    }
}

/// What a document answers for a field. Under the target name the value is as it should be; under
/// the source name it may still be in milliseconds. A field that is not there holds its default.
pub open spec fn answered(doc: StoredDoc, mapping: FieldMapping, shape: Shape) -> JsonView {
    let held = pairs_map(doc.fields@);
    if held.dom().contains(mapping.target@) {
        shown(held[mapping.target@], mapping, shape.reverse_maps@)
    } else if held.dom().contains(mapping.source@) {
        let raw = shown(held[mapping.source@], mapping, shape.reverse_maps@);
        if mapping.converts_ms() {
            in_seconds(raw)
        } else {
            raw
        }
    } else {
        match past_defaults(doc, shape) {
            Some(past) if past.dom().contains(mapping.target@) => past[mapping.target@],
            _ => default_of_field(mapping),
        }
    }
}

/// What a document answers for its number and the first `n` fields of the schema that are asked
/// for.
pub open spec fn formatted(doc: StoredDoc, shape: Shape, selection: IncludeDocs, n: int) -> Map<Seq<char>, JsonView>
    decreases n,
{
    if n <= 0 {
        let held = pairs_map(doc.fields@);
        if held.dom().contains("id"@) {
            Map::empty().insert("id"@, json_of_field(held["id"@]))
        } else {
            Map::empty()
        }
    } else {
        let before = formatted(doc, shape, selection, n - 1);
        let mapping = shape.schema.fields@[n - 1];
        if selection.selects(mapping.target@) {
            before.insert(mapping.target@, answered(doc, mapping, shape))
        } else {
            before
        }
    }
}

fn show(fv: &FieldValue, mapping: &FieldMapping, reverse_maps: &Vec<(String, TextTable)>) -> (r: Json)
    ensures
        r@ == shown(fv@, *mapping, reverse_maps@),
{
    if mapping.value_type == FieldValueType::MappedString || mapping.value_type
        == FieldValueType::LowCardinalityString {
        if let Some(table) = find_value(reverse_maps, mapping.target.as_str()) {
            return reverse_map_value(fv, table);
        }
    }
    field_value_to_json(fv)
}

fn answer(doc: &StoredDoc, mapping: &FieldMapping, shape: &Shape) -> (r: Json)
    ensures
        r@ == answered(*doc, *mapping, *shape),
{
    if let Some(fv) = find_value(&doc.fields, mapping.target.as_str()) {
        return show(fv, mapping, shape.reverse_maps);
    }
    if let Some(fv) = find_value(&doc.fields, mapping.source.as_str()) {
        let raw = show(fv, mapping, shape.reverse_maps);
        return if mapping.should_convert_ms() { to_seconds(raw) } else { raw };
    }
    if doc.schema_version != 0 && doc.schema_version != shape.schema.schema_version {
        if let Some(i) = find_defaults(shape.registry, doc.schema_version) {
            if let Some(v) = find_value(&shape.registry[i].values, mapping.target.as_str()) {
                return v.clone();
            }
        }
    }
    default_json_for_field(mapping)
}

/// Makes the answer for a document: its number, and the fields that are asked for, each with its
/// value or its default.
pub fn format_document(doc: &StoredDoc, shape: &Shape, selection: &IncludeDocs) -> (r: Vec<(String, Json)>)
    ensures
        pairs_map(r@) == formatted(*doc, *shape, *selection, shape.schema.fields@.len() as int),
{
    let mut fields: Vec<(String, Json)> = Vec::new();
    assert(pairs_map(fields@) =~= Map::<Seq<char>, JsonView>::empty());
    if let Some(id) = find_value(&doc.fields, "id") {
        set_pair(&mut fields, "id".to_owned(), field_value_to_json(id));
    }
    let mut n: usize = 0;
    while n < shape.schema.fields.len()
        invariant
            n <= shape.schema.fields@.len(),
            pairs_map(fields@) == formatted(*doc, *shape, *selection, n as int),
        decreases shape.schema.fields@.len() - n,
    {
        let mapping = &shape.schema.fields[n];
        if selection.wants(mapping.target.as_str()) {
            let value = answer(doc, mapping, shape);
            set_pair(&mut fields, mapping.target.clone(), value);
        }
        n = n + 1;
    }
    fields
}

/// A document answers for every field that is asked for, whether it holds it or not.
pub proof fn law_answers_have_the_full_shape(doc: StoredDoc, shape: Shape, selection: IncludeDocs, n: int, k: int)
    requires
        0 <= k < n <= shape.schema.fields@.len(),
        selection.selects(shape.schema.fields@[k].target@),
    ensures
        formatted(doc, shape, selection, n).dom().contains(shape.schema.fields@[k].target@),
    decreases n,
{
    if k < n - 1 {
        law_answers_have_the_full_shape(doc, shape, selection, n - 1, k);
    }
}

/// A document answers for nothing but its number and the fields that are asked for.
pub proof fn law_answers_hold_what_is_asked_for(
    doc: StoredDoc,
    shape: Shape,
    selection: IncludeDocs,
    n: int,
    name: Seq<char>,
)
    requires
        n <= shape.schema.fields@.len(),
        formatted(doc, shape, selection, n).dom().contains(name),
    ensures
        name == "id"@ || selection.selects(name),
    decreases n,
{
    if n > 0 && name != "id"@ && !(selection.selects(shape.schema.fields@[n - 1].target@) && name
        == shape.schema.fields@[n - 1].target@) {
        law_answers_hold_what_is_asked_for(doc, shape, selection, n - 1, name);
    }
}

/// Answers a request for one document: with the document, that there is none, or why it could not be
/// read.
pub fn document_reply(
    found: &Result<Option<StoredDoc>, String>,
    shape: &Shape,
    selection: &IncludeDocs,
    missing: &str,
) -> (r: Result<Vec<(String, Json)>, Refusal>)
    ensures
        match (r, *found) {
            (Ok(fields), Ok(Some(doc))) => pairs_map(fields@) == formatted(
                doc,
                *shape,
                *selection,
                shape.schema.fields@.len() as int,
            ),
            (Err(e), Ok(None)) => e@ == (RefusalView { status: 404, error: missing@ }),
            (Err(e), Err(why)) => e@ == (RefusalView { status: 500, error: why@ }),
            _ => false,
        },
{
    match found {
        Ok(Some(doc)) => Ok(format_document(doc, shape, selection)),
        Ok(None) => Err(refuse(404, missing)),
        Err(why) => Err(refuse(500, why.as_str())),
    }
}

/// A field whose texts are kept as numbers is answered with the text that its table has for the
/// number, never with the number; a number that no text has is answered with null. It does not
/// matter which of the two kinds of such fields it is, nor under which of its names the document
/// holds the number.
pub proof fn law_kept_texts_are_answered_as_texts(doc: StoredDoc, mapping: FieldMapping, shape: Shape, key: i64)
    requires
        mapping.value_type is MappedString || mapping.value_type is LowCardinalityString,
        pairs_map(shape.reverse_maps@).dom().contains(mapping.target@),
        ({
            let held = pairs_map(doc.fields@);
            let kept = FieldValueView::Single(ValueView::Integer(key as int));
            ||| held.dom().contains(mapping.target@) && held[mapping.target@] == kept
            ||| !held.dom().contains(mapping.target@) && held.dom().contains(mapping.source@)
                && held[mapping.source@] == kept
        }),
    ensures
        ({
            let texts = pairs_map(shape.reverse_maps@)[mapping.target@];
            let r = answered(doc, mapping, shape);
            &&& texts.dom().contains(key) ==> r == JsonView::Text(texts[key])
            &&& !texts.dom().contains(key) ==> r is Null
            &&& !(r is Integer)
        }),
{
}

/// A field of any other kind is answered as it is held, whatever tables there are; so is a field whose
/// texts are kept as numbers but that has no table, and what such a field holds beside one number.
pub proof fn law_other_values_are_answered_as_they_are(
    doc: StoredDoc,
    mapping: FieldMapping,
    shape: Shape,
    v: FieldValueView,
)
    requires
        pairs_map(doc.fields@).dom().contains(mapping.target@),
        pairs_map(doc.fields@)[mapping.target@] == v,
        !(mapping.value_type is MappedString || mapping.value_type is LowCardinalityString) || !pairs_map(
            shape.reverse_maps@,
        ).dom().contains(mapping.target@) || !(v matches FieldValueView::Single(ValueView::Integer(_))),
    ensures
        ({
            let r = answered(doc, mapping, shape);
            &&& v matches FieldValueView::Single(ValueView::Integer(n)) ==> r == JsonView::Integer(n)
            &&& v matches FieldValueView::Single(ValueView::Bool(b)) ==> r == JsonView::Bool(b)
            &&& v matches FieldValueView::Single(ValueView::String(s)) ==> r == JsonView::Text(s)
            &&& v matches FieldValueView::Multi(vs) ==> r matches JsonView::List(items) && items.len() == vs.len()
                && forall|i: int|
                0 <= i < vs.len() ==> ((#[trigger] vs[i]) matches ValueView::Integer(n) ==> items[i]
                    == JsonView::Integer(n)) && (vs[i] matches ValueView::String(s) ==> items[i] == JsonView::Text(s))
                    && (vs[i] matches ValueView::Bool(b) ==> items[i] == JsonView::Bool(b))
        }),
{
}

/// What stands under the target name is answered as it is; a number that stands under the source name
/// alone is still in milliseconds where the field converts them, and is answered in whole seconds,
/// short of the milliseconds by less than a second and on the same side of zero.
pub proof fn law_milliseconds_are_answered_in_seconds(doc: StoredDoc, mapping: FieldMapping, shape: Shape, ms: i64)
    requires
        mapping.value_type is Integer,
        !pairs_map(doc.fields@).dom().contains(mapping.target@),
        pairs_map(doc.fields@).dom().contains(mapping.source@),
        pairs_map(doc.fields@)[mapping.source@] == FieldValueView::Single(ValueView::Integer(ms as int)),
    ensures
        !mapping.ms_to_seconds && !mapping.truncate_u32 ==> answered(doc, mapping, shape) == JsonView::Integer(
            ms as int,
        ),
        mapping.ms_to_seconds || mapping.truncate_u32 ==> {
            &&& answered(doc, mapping, shape) matches JsonView::Integer(s) && -1000 < ms - 1000 * s < 1000 && (ms >= 0
                ==> ms - 1000 * s >= 0) && (ms <= 0 ==> ms - 1000 * s <= 0)
        },
{
}

/// A field that a document does not hold is answered with a default: that of the version of the
/// document where this is another than the schema's, not zero, and has one; otherwise the one that
/// the schema gives the field; otherwise that of its type, which is zero, null, false, the empty text
/// or the empty list.
pub proof fn law_missing_fields_are_answered_with_defaults(
    doc: StoredDoc,
    mapping: FieldMapping,
    shape: Shape,
    i: int,
)
    requires
        !pairs_map(doc.fields@).dom().contains(mapping.target@),
        !pairs_map(doc.fields@).dom().contains(mapping.source@),
        0 <= i < shape.registry@.len(),
        forall|j: int| 0 <= j < i ==> (#[trigger] shape.registry@[j]).version != shape.registry@[i].version,
    ensures
        ({
            let r = answered(doc, mapping, shape);
            let past = pairs_map(shape.registry@[i].values@);
            let older = doc.schema_version == shape.registry@[i].version && doc.schema_version
                != shape.schema.schema_version && doc.schema_version != 0;
            &&& older && past.dom().contains(mapping.target@) ==> r == past[mapping.target@]
            &&& (doc.schema_version == 0 || doc.schema_version == shape.schema.schema_version || (older
                && !past.dom().contains(mapping.target@))) ==> {
                &&& mapping.default_value matches Some(v) ==> r == v@
                &&& mapping.default_value is None ==> {
                    &&& mapping.value_type is Integer ==> r == JsonView::Integer(0)
                    &&& mapping.value_type is MappedString || mapping.value_type is LowCardinalityString ==> r is Null
                    &&& mapping.value_type is Boolean || mapping.value_type is ExistsBoolean ==> r == JsonView::Bool(
                        false,
                    )
                    &&& mapping.value_type is String ==> r == JsonView::Text(Seq::<char>::empty())
                    &&& mapping.value_type is IntegerArray ==> r == JsonView::List(Seq::<JsonView>::empty())
                }
            }
        }),
{
    if doc.schema_version == shape.registry@[i].version {
        lemma_defaults_found(shape.registry@, doc.schema_version, i, 0);
    }
    reveal_strlit("");
    assert(""@ =~= Seq::<char>::empty());
}

proof fn lemma_defaults_found(registry: Seq<SchemaDefaults>, version: u8, i: int, n: int)
    requires
        0 <= n <= i < registry.len(),
        registry[i].version == version,
        forall|j: int| 0 <= j < i ==> (#[trigger] registry[j]).version != version,
    ensures
        defaults_position(registry, version, n) == Some(i),
    decreases i - n,
{
    if n < i {
        assert(registry[n].version != version);
        lemma_defaults_found(registry, version, i, n + 1);
    }
}

/// Under the target name of a field that is asked for, a document answers for that field and no
/// other; under `id` it answers what it holds there, where no field of the schema has that name.
pub proof fn law_fields_are_answered_under_their_own_name(
    doc: StoredDoc,
    shape: Shape,
    selection: IncludeDocs,
    n: int,
    k: int,
)
    requires
        0 <= k < n <= shape.schema.fields@.len(),
        selection.selects(shape.schema.fields@[k].target@),
        forall|j: int| k < j < n ==> (#[trigger] shape.schema.fields@[j]).target@ != shape.schema.fields@[k].target@,
    ensures
        formatted(doc, shape, selection, n)[shape.schema.fields@[k].target@] == answered(
            doc,
            shape.schema.fields@[k],
            shape,
        ),
    decreases n,
{
    if k < n - 1 {
        law_fields_are_answered_under_their_own_name(doc, shape, selection, n - 1, k);
    }
}

/// Under `id` a document answers the number that it holds there, whatever is asked for.
pub proof fn law_the_number_is_always_answered(
    doc: StoredDoc,
    shape: Shape,
    selection: IncludeDocs,
    n: int,
    id: i64,
)
    requires
        0 <= n <= shape.schema.fields@.len(),
        pairs_map(doc.fields@).dom().contains("id"@),
        pairs_map(doc.fields@)["id"@] == FieldValueView::Single(ValueView::Integer(id as int)),
        forall|j: int| 0 <= j < n ==> (#[trigger] shape.schema.fields@[j]).target@ != "id"@,
    ensures
        formatted(doc, shape, selection, n).dom().contains("id"@),
        formatted(doc, shape, selection, n)["id"@] == JsonView::Integer(id as int),
    decreases n,
{
    if n > 0 {
        law_the_number_is_always_answered(doc, shape, selection, n - 1, id);
        assert(shape.schema.fields@[n - 1].target@ != "id"@);
    }
}

/// A request for nothing asks for no field, one for everything for each, and a list for those that it
/// names.
pub proof fn law_fields_are_asked_for_by_name(names: Vec<String>, name: Seq<char>)
    ensures
        !IncludeDocs::Nothing.selects(name),
        IncludeDocs::All.selects(name),
        IncludeDocs::Fields(names).selects(name) <==> exists|i: int| 0 <= i < names@.len() && (#[trigger] names@[i])@ == name,
{
    let list = views(names@);
    if list.contains(name) {
        let i = choose|i: int| 0 <= i < list.len() && list[i] == name;
        assert(names@[i]@ == name);
    }
    if exists|i: int| 0 <= i < names@.len() && (#[trigger] names@[i])@ == name {
        let i = choose|i: int| 0 <= i < names@.len() && (#[trigger] names@[i])@ == name;
        assert(list[i] == name);
    }
}

} // verus!
