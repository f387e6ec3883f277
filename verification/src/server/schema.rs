//! The shape of documents.

use crate::json::Json;
use crate::query::{value_views, Value, ValueView};
use vstd::prelude::*;

verus! {

/// What the values of a field are.
#[derive(Debug, Clone, Copy, PartialEq, Eq, Structural)]
pub enum FieldValueType {
    Integer,
    Boolean,
    String,
    /// A text that is kept as a number by a fixed table.
    MappedString,
    /// A text that is kept as a number by a growing dictionary.
    LowCardinalityString,
    IntegerArray,
    /// Whether another field is there.
    ExistsBoolean,
}

/// How a field of incoming documents becomes a field of the index.
#[derive(Debug, Clone)]
pub struct FieldMapping {
    pub source: std::string::String,
    pub target: std::string::String,
    pub value_type: FieldValueType,
    pub fallback: Option<std::string::String>,
    pub string_map: Option<Vec<(std::string::String, i64)>>,
    pub doc_only: bool,
    pub filter_only: bool,
    pub ms_to_seconds: bool,
    /// An older name for `ms_to_seconds`.
    pub truncate_u32: bool,
    pub case_sensitive: bool,
    pub default_value: Option<Json>,
    pub nullable: bool,
}

impl FieldMapping {
    /// Whether values come in milliseconds and are kept in seconds.
    pub open spec fn converts_ms(self) -> bool {
        self.ms_to_seconds || self.truncate_u32
    }

    /// Whether values come in milliseconds and are kept in seconds.
    pub fn should_convert_ms(&self) -> (r: bool)
        ensures
            r == self.converts_ms(),
    {
        self.ms_to_seconds || self.truncate_u32
    }
}

/// The fields of an index, and the version of their defaults.
#[derive(Debug, Clone)]
pub struct DataSchema {
    pub id_field: std::string::String,
    pub schema_version: u8,
    pub fields: Vec<FieldMapping>,
}

/// What a document holds under a field.
#[derive(Debug)]
pub enum FieldValue {
    Single(Value),
    Multi(Vec<Value>),
}

/// What a document holds under a field, as a mathematical value.
pub enum FieldValueView {
    Single(ValueView),
    Multi(Seq<ValueView>),
}

impl View for FieldValue {
    type V = FieldValueView;

    open spec fn view(&self) -> FieldValueView {
        match self {
            FieldValue::Single(v) => FieldValueView::Single(v@),
            FieldValue::Multi(vs) => FieldValueView::Multi(value_views(vs@)),
        }
    }
}

/// A document as it is kept: without the fields that hold their default.
#[derive(Debug)]
pub struct StoredDoc {
    pub fields: Vec<(std::string::String, FieldValue)>,
    /// The version of the defaults; zero for documents from before there were versions.
    pub schema_version: u8,
}

/// The text of a number, from position `n` on; the first counts.
pub open spec fn text_of_key(entries: Seq<(i64, std::string::String)>, key: i64, n: int) -> Option<Seq<char>>
    decreases entries.len() - n,
{
    if n >= entries.len() {
        None
    } else if entries[n].0 == key {
        Some(entries[n].1@)
    } else {
        text_of_key(entries, key, n + 1)
    }
}

/// The texts of the numbers of one field.
#[derive(Debug)]
pub struct TextTable {
    pub entries: Vec<(i64, std::string::String)>,
}

impl View for TextTable {
    type V = Map<i64, Seq<char>>;

    open spec fn view(&self) -> Map<i64, Seq<char>> {
        Map::new(
            |key: i64| text_of_key(self.entries@, key, 0) is Some,
            |key: i64| text_of_key(self.entries@, key, 0)->0,
        )
    }
}

impl TextTable {
    /// Looks up the text of a number.
    pub fn find_text(&self, key: i64) -> (r: Option<&std::string::String>)
        ensures
            match r {
                Some(text) => self@.dom().contains(key) && self@[key] == text@,
                None => !self@.dom().contains(key),
            },
    {
        let mut i: usize = 0;
        while i < self.entries.len()
            invariant
                i <= self.entries@.len(),
                text_of_key(self.entries@, key, 0) == text_of_key(self.entries@, key, i as int),
            decreases self.entries@.len() - i,
        {
            if self.entries[i].0 == key {
                return Some(&self.entries[i].1);
            }
            i = i + 1;
        }
        None
    }
}

/// The defaults of one version.
#[derive(Debug)]
pub struct SchemaDefaults {
    pub version: u8,
    pub values: Vec<(std::string::String, Json)>,
}

/// A number has the text of its first entry in a table, and none where the table does not name it.
pub proof fn law_the_first_text_of_a_number_counts(table: TextTable, key: i64)
    ensures
        forall|i: int|
            0 <= i < table.entries@.len() && (#[trigger] table.entries@[i]).0 == key && (forall|j: int|
                0 <= j < i ==> (#[trigger] table.entries@[j]).0 != key) ==> table@.contains_key(key) && table@[key]
                == table.entries@[i].1@,
        (forall|i: int| 0 <= i < table.entries@.len() ==> (#[trigger] table.entries@[i]).0 != key)
            ==> !table@.contains_key(key),
{
    assert forall|i: int|
        0 <= i < table.entries@.len() && (#[trigger] table.entries@[i]).0 == key && (forall|j: int|
            0 <= j < i ==> (#[trigger] table.entries@[j]).0 != key) implies table@.contains_key(key) && table@[key]
        == table.entries@[i].1@ by {
        lemma_first_text(table.entries@, i, key, 0);
    }
    if forall|i: int| 0 <= i < table.entries@.len() ==> (#[trigger] table.entries@[i]).0 != key {
        lemma_no_text(table.entries@, key, 0);
    }
}

proof fn lemma_first_text(entries: Seq<(i64, std::string::String)>, i: int, key: i64, n: int)
    requires
        0 <= n <= i < entries.len(),
        entries[i].0 == key,
        forall|j: int| 0 <= j < i ==> (#[trigger] entries[j]).0 != key,
    ensures
        text_of_key(entries, key, n) == Some(entries[i].1@),
    decreases i - n,
{
    if n < i {
        lemma_first_text(entries, i, key, n + 1);
    }
}

proof fn lemma_no_text(entries: Seq<(i64, std::string::String)>, key: i64, n: int)
    requires
        0 <= n,
        forall|j: int| 0 <= j < entries.len() ==> (#[trigger] entries[j]).0 != key,
    ensures
        text_of_key(entries, key, n) is None,
    decreases entries.len() - n,
{
    if n < entries.len() {
        lemma_no_text(entries, key, n + 1);
    }
}

/// Either of the two names for it makes a field come in milliseconds; without them it does not.
pub proof fn law_both_names_convert_milliseconds(field: FieldMapping)
    ensures
        (FieldMapping { ms_to_seconds: true, ..field }).converts_ms(),
        (FieldMapping { truncate_u32: true, ..field }).converts_ms(),
        !(FieldMapping { ms_to_seconds: false, truncate_u32: false, ..field }).converts_ms(),
{
}

} // verus!
