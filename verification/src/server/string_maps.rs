//! The tables of fields whose texts are kept as numbers.

use crate::filter::KeyTable;
use crate::pairs::{find_value, lemma_same_pairs, pairs_map, set_pair};
use crate::server::schema::{text_of_key, DataSchema, FieldMapping, FieldValueType, TextTable};
use crate::text::{contains_text, lowercase, to_lower, views};
use vstd::prelude::*;
use vstd::string::*;

verus! {

/// A dictionary that has given numbers to texts, both ways.
#[derive(Debug)]
pub struct FieldDictionary {
    pub keys: KeyTable,
    pub texts: TextTable,
}

/// A dictionary as a mathematical value.
#[verifier::ext_equal]
pub struct DictionaryView {
    pub keys: Map<Seq<char>, i64>,
    pub texts: Map<i64, Seq<char>>,
}

impl View for FieldDictionary {
    type V = DictionaryView;

    open spec fn view(&self) -> DictionaryView {
        DictionaryView { keys: self.keys@, texts: self.texts@ }
    }
}

/// The dictionaries by field; none where there are no dictionaries at all.
pub open spec fn dictionaries_map(dictionaries: Option<&Vec<(String, FieldDictionary)>>) -> Map<
    Seq<char>,
    DictionaryView,
> {
    match dictionaries {
        Some(list) => pairs_map(list@),
        None => Map::empty(),
    }
}

/// The first `n` texts in lower case, with their numbers; the last of a text counts.
pub open spec fn lowered(entries: Seq<(String, i64)>, n: int) -> Map<Seq<char>, i64>
    decreases n,
{
    if n <= 0 {
        Map::empty()
    } else {
        lowered(entries, n - 1).insert(lowercase(entries[n - 1].0@), entries[n - 1].1)
    }
}

/// The table that a mapping has: as it was configured where case counts, or else in lower case; a
/// dictionary's where the field has one.
pub open spec fn table_of(mapping: FieldMapping, dictionaries: Map<Seq<char>, DictionaryView>) -> Option<
    Map<Seq<char>, i64>,
> {
    if mapping.value_type is MappedString {
        match mapping.string_map {
            Some(entries) => if mapping.case_sensitive {
                Some(pairs_map(entries@))
            } else {
                Some(lowered(entries@, entries@.len() as int))
            },
            None => None,
        }
    } else if mapping.value_type is LowCardinalityString && dictionaries.dom().contains(mapping.target@) {
        Some(dictionaries[mapping.target@].keys)
    } else {
        None
    }
}

/// The tables of the first `n` fields.
pub open spec fn tables(
    fields: Seq<FieldMapping>,
    dictionaries: Map<Seq<char>, DictionaryView>,
    n: int,
) -> Map<Seq<char>, Map<Seq<char>, i64>>
    decreases n,
{
    if n <= 0 {
        Map::empty()
    } else {
        let before = tables(fields, dictionaries, n - 1);
        match table_of(fields[n - 1], dictionaries) {
            Some(table) => before.insert(fields[n - 1].target@, table),
            None => before,
        }
    }
}

/// Whether case counts for the texts of a field.
pub open spec fn keeps_case(mapping: FieldMapping) -> bool {
    mapping.value_type is MappedString && mapping.string_map is Some && mapping.case_sensitive
}

/// Those of the first `n` fields for which case counts.
pub open spec fn case_sensitive_fields(fields: Seq<FieldMapping>, n: int) -> Set<Seq<char>>
    decreases n,
{
    if n <= 0 {
        Set::empty()
    } else if keeps_case(fields[n - 1]) {
        case_sensitive_fields(fields, n - 1).insert(fields[n - 1].target@)
    } else {
        case_sensitive_fields(fields, n - 1)
    }
}

/// A copy of a table.
fn clone_table(entries: &Vec<(String, i64)>) -> (r: KeyTable)
    ensures
        r@ == pairs_map(entries@),
{
    let mut copy: Vec<(String, i64)> = Vec::new();
    let mut i: usize = 0;
    while i < entries.len()
        invariant
            i <= entries@.len(),
            copy@.len() == i,
            forall|j: int| 0 <= j < i ==> (#[trigger] copy@[j]).0@ == entries@[j].0@ && copy@[j].1 == entries@[j].1,
        decreases entries@.len() - i,
    {
        copy.push((entries[i].0.clone(), entries[i].1));
        i = i + 1;
    }
    proof {
        lemma_same_pairs(copy@, entries@);
    }
    KeyTable { entries: copy }
}

/// A table in lower case.
fn lower_table(entries: &Vec<(String, i64)>) -> (r: KeyTable)
    ensures
        r@ == lowered(entries@, entries@.len() as int),
{
    let mut lower: Vec<(String, i64)> = Vec::new();
    let mut i: usize = 0;
    assert(pairs_map(lower@) =~= Map::<Seq<char>, i64>::empty());
    while i < entries.len()
        invariant
            i <= entries@.len(),
            pairs_map(lower@) == lowered(entries@, i as int),
        decreases entries@.len() - i,
    {
        let text = to_lower(entries[i].0.as_str());
        set_pair(&mut lower, text, entries[i].1);
        i = i + 1;
    }
    KeyTable { entries: lower }
}

fn make_table(mapping: &FieldMapping, dictionaries: Option<&Vec<(String, FieldDictionary)>>) -> (r: Option<KeyTable>)
    ensures
        match r {
            Some(table) => table_of(*mapping, dictionaries_map(dictionaries)) == Some(table@),
            None => table_of(*mapping, dictionaries_map(dictionaries)) is None,
        },
{
    if mapping.value_type == FieldValueType::MappedString {
        match &mapping.string_map {
            Some(entries) => if mapping.case_sensitive {
                Some(clone_table(entries))
            } else {
                Some(lower_table(entries))
            },
            None => None,
        }
    } else if mapping.value_type == FieldValueType::LowCardinalityString {
        match dictionaries {
            Some(list) => match find_value(list, mapping.target.as_str()) {
                Some(dictionary) => Some(clone_table(&dictionary.keys.entries)),
                None => None,
            },
            None => None,
        }
    } else {
        None
    }
}

/// Makes the tables of the fields, and tells for which of them case counts.
pub fn build_string_maps_with_dicts(
    schema: &DataSchema,
    dictionaries: Option<&Vec<(String, FieldDictionary)>>,
) -> (r: (Vec<(String, KeyTable)>, Vec<String>))
    ensures
        pairs_map(r.0@) == tables(schema.fields@, dictionaries_map(dictionaries), schema.fields@.len() as int),
        views(r.1@).to_set() == case_sensitive_fields(schema.fields@, schema.fields@.len() as int),
        views(r.1@).no_duplicates(),
{
    let mut maps: Vec<(String, KeyTable)> = Vec::new();
    let mut sensitive: Vec<String> = Vec::new();
    let mut i: usize = 0;
    assert(pairs_map(maps@) =~= Map::<Seq<char>, Map<Seq<char>, i64>>::empty());
    assert(views(sensitive@).to_set() =~= Set::<Seq<char>>::empty());
    while i < schema.fields.len()
        invariant
            i <= schema.fields@.len(),
            pairs_map(maps@) == tables(schema.fields@, dictionaries_map(dictionaries), i as int),
            views(sensitive@).to_set() == case_sensitive_fields(schema.fields@, i as int),
            views(sensitive@).no_duplicates(),
        decreases schema.fields@.len() - i,
    {
        let mapping = &schema.fields[i];
        if mapping.value_type == FieldValueType::MappedString && mapping.string_map.is_some()
            && mapping.case_sensitive {
            let ghost before = views(sensitive@);
            if !contains_text(&sensitive, mapping.target.as_str()) {
                sensitive.push(mapping.target.clone());
                proof {
                    let after = views(sensitive@);
                    assert(after =~= before.push(mapping.target@));
                    assert forall|x: Seq<char>| after.to_set().contains(x) == before.to_set().insert(
                        mapping.target@,
                    ).contains(x) by {
                        if x == mapping.target@ {
                            assert(after[before.len() as int] == x);
                        } else if before.contains(x) {
                            let j = choose|j: int| 0 <= j < before.len() && before[j] == x;
                            assert(after[j] == x);
                        }
                    }
                    assert(after.to_set() =~= before.to_set().insert(mapping.target@));
                }
            } else {
                assert(before.to_set().insert(mapping.target@) =~= before.to_set());
            }
        }
        if let Some(table) = make_table(mapping, dictionaries) {
            set_pair(&mut maps, mapping.target.clone(), table);
        }
        i = i + 1;
    }
    (maps, sensitive)
}

/// The text that has a number in a table, from position `n` on.
pub open spec fn text_with_key(entries: Seq<(String, i64)>, key: i64, n: int) -> Option<Seq<char>>
    decreases entries.len() - n,
{
    if n >= entries.len() {
        None
    } else if entries[n].1 == key {
        Some(entries[n].0@)
    } else {
        text_with_key(entries, key, n + 1)
    }
}

/// A table read the other way.
pub open spec fn turned(entries: Seq<(String, i64)>) -> Map<i64, Seq<char>> {
    Map::new(
        |key: i64| text_with_key(entries, key, 0) is Some,
        |key: i64| text_with_key(entries, key, 0)->0,
    )
}

proof fn lemma_turned(entries: Seq<(String, i64)>, texts: Seq<(i64, String)>, key: i64, n: int)
    requires
        0 <= n,
        texts.len() == entries.len(),
        forall|j: int| 0 <= j < texts.len() ==> (#[trigger] texts[j]).0 == entries[j].1 && texts[j].1@
            == entries[j].0@,
    ensures
        text_of_key(texts, key, n) == text_with_key(entries, key, n),
    decreases texts.len() - n,
{
    if n < texts.len() {
        assert(texts[n].0 == entries[n].1);
        lemma_turned(entries, texts, key, n + 1);
    }
}

/// Reads a table the other way.
pub fn turn(entries: &Vec<(String, i64)>) -> (r: TextTable)
    ensures
        r@ == turned(entries@),
{
    let mut texts: Vec<(i64, String)> = Vec::new();
    let mut i: usize = 0;
    while i < entries.len()
        invariant
            i <= entries@.len(),
            texts@.len() == i,
            forall|j: int|
                0 <= j < i ==> (#[trigger] texts@[j]).0 == entries@[j].1 && texts@[j].1@ == entries@[j].0@,
        decreases entries@.len() - i,
    {
        texts.push((entries[i].1, entries[i].0.clone()));
        i = i + 1;
    }
    let r = TextTable { entries: texts };
    proof {
        assert forall|key: i64| #[trigger] r@.dom().contains(key) == turned(entries@).dom().contains(key) by {
            lemma_turned(entries@, texts@, key, 0);
        }
        assert forall|key: i64| #[trigger] r@.dom().contains(key) implies r@[key] == turned(entries@)[key] by {
            lemma_turned(entries@, texts@, key, 0);
        }
        assert(r@ =~= turned(entries@));
    }
    r
}

/// A copy of a table of texts.
fn clone_texts_table(table: &TextTable) -> (r: TextTable)
    ensures
        r@ == table@,
{
    let mut entries: Vec<(i64, String)> = Vec::new();
    let mut i: usize = 0;
    while i < table.entries.len()
        invariant
            i <= table.entries@.len(),
            entries@.len() == i,
            forall|j: int|
                0 <= j < i ==> (#[trigger] entries@[j]).0 == table.entries@[j].0 && entries@[j].1@
                    == table.entries@[j].1@,
        decreases table.entries@.len() - i,
    {
        entries.push((table.entries[i].0, table.entries[i].1.clone()));
        i = i + 1;
    }
    let r = TextTable { entries };
    proof {
        assert forall|key: i64| #[trigger] r@.dom().contains(key) == table@.dom().contains(key) by {
            lemma_same_texts(entries@, table.entries@, key, 0);
        }
        assert forall|key: i64| #[trigger] r@.dom().contains(key) implies r@[key] == table@[key] by {
            lemma_same_texts(entries@, table.entries@, key, 0);
        }
        assert(r@ =~= table@);
    }
    r
}

proof fn lemma_same_texts(a: Seq<(i64, String)>, b: Seq<(i64, String)>, key: i64, n: int)
    requires
        0 <= n,
        a.len() == b.len(),
        forall|j: int| 0 <= j < a.len() ==> (#[trigger] a[j]).0 == b[j].0 && a[j].1@ == b[j].1@,
    ensures
        text_of_key(a, key, n) == text_of_key(b, key, n),
    decreases a.len() - n,
{
    if n < a.len() {
        assert(a[n].0 == b[n].0);
        lemma_same_texts(a, b, key, n + 1);
    }
}

/// The texts of the numbers of a field: of its configured table, with the case of the texts as it
/// was given, or of its dictionary.
pub open spec fn texts_of(mapping: FieldMapping, dictionaries: Map<Seq<char>, DictionaryView>) -> Option<
    Map<i64, Seq<char>>,
> {
    if mapping.value_type is MappedString {
        match mapping.string_map {
            Some(entries) => Some(turned(entries@)),
            None => None,
        }
    } else if mapping.value_type is LowCardinalityString && dictionaries.dom().contains(mapping.target@) {
        Some(dictionaries[mapping.target@].texts)
    } else {
        None
    }
}

/// The texts of the numbers of the first `n` fields.
pub open spec fn reverse_tables(
    fields: Seq<FieldMapping>,
    dictionaries: Map<Seq<char>, DictionaryView>,
    n: int,
) -> Map<Seq<char>, Map<i64, Seq<char>>>
    decreases n,
{
    if n <= 0 {
        Map::empty()
    } else {
        let before = reverse_tables(fields, dictionaries, n - 1);
        match texts_of(fields[n - 1], dictionaries) {
            Some(table) => before.insert(fields[n - 1].target@, table),
            None => before,
        }
    }
}

fn make_texts(mapping: &FieldMapping, dictionaries: Option<&Vec<(String, FieldDictionary)>>) -> (r: Option<TextTable>)
    ensures
        match r {
            Some(table) => texts_of(*mapping, dictionaries_map(dictionaries)) == Some(table@),
            None => texts_of(*mapping, dictionaries_map(dictionaries)) is None,
        },
{
    if mapping.value_type == FieldValueType::MappedString {
        match &mapping.string_map {
            Some(entries) => Some(turn(entries)),
            None => None,
        }
    } else if mapping.value_type == FieldValueType::LowCardinalityString {
        match dictionaries {
            Some(list) => match find_value(list, mapping.target.as_str()) {
                Some(dictionary) => Some(clone_texts_table(&dictionary.texts)),
                None => None,
            },
            None => None,
        }
    } else {
        None
    }
}

/// Makes the tables that give the texts of numbers.
pub fn build_reverse_string_maps_with_dicts(
    schema: &DataSchema,
    dictionaries: Option<&Vec<(String, FieldDictionary)>>,
) -> (r: Vec<(String, TextTable)>)
    ensures
        pairs_map(r@) == reverse_tables(schema.fields@, dictionaries_map(dictionaries), schema.fields@.len() as int),
{
    let mut maps: Vec<(String, TextTable)> = Vec::new();
    let mut i: usize = 0;
    assert(pairs_map(maps@) =~= Map::<Seq<char>, Map<i64, Seq<char>>>::empty());
    while i < schema.fields.len()
        invariant
            i <= schema.fields@.len(),
            pairs_map(maps@) == reverse_tables(schema.fields@, dictionaries_map(dictionaries), i as int),
        decreases schema.fields@.len() - i,
    {
        let mapping = &schema.fields[i];
        if let Some(table) = make_texts(mapping, dictionaries) {
            set_pair(&mut maps, mapping.target.clone(), table);
        }
        i = i + 1;
    }
    maps
}

/// The texts of the first `n` dictionaries, by field; the first of a field counts.
pub open spec fn dictionary_labels(dictionaries: Seq<(String, FieldDictionary)>, n: int) -> Map<
    Seq<char>,
    Map<i64, Seq<char>>,
>
    decreases n,
{
    if n <= 0 {
        Map::empty()
    } else {
        let before = dictionary_labels(dictionaries, n - 1);
        let (field, dictionary) = dictionaries[n - 1];
        if before.dom().contains(field@) {
            before
        } else {
            before.insert(field@, dictionary.texts@)
        }
    }
}

/// The texts that can be shown for the numbers of the fields: those of the dictionaries, and for
/// the other fields those of the tables that the first `n` of them were given.
pub open spec fn labels(
    dictionaries: Seq<(String, FieldDictionary)>,
    fields: Seq<FieldMapping>,
    n: int,
) -> Map<Seq<char>, Map<i64, Seq<char>>>
    decreases n,
{
    if n <= 0 {
        dictionary_labels(dictionaries, dictionaries.len() as int)
    } else {
        let before = labels(dictionaries, fields, n - 1);
        match fields[n - 1].string_map {
            Some(entries) if !before.dom().contains(fields[n - 1].target@) => before.insert(
                fields[n - 1].target@,
                turned(entries@),
            ),
            _ => before,
        }
    }
}

/// Makes what can be shown for the numbers of the fields.
pub fn build_labels(dictionaries: &Vec<(String, FieldDictionary)>, schema: &DataSchema) -> (r: Vec<(String, TextTable)>)
    ensures
        pairs_map(r@) == labels(dictionaries@, schema.fields@, schema.fields@.len() as int),
{
    let mut result: Vec<(String, TextTable)> = Vec::new();
    let mut i: usize = 0;
    assert(pairs_map(result@) =~= Map::<Seq<char>, Map<i64, Seq<char>>>::empty());
    while i < dictionaries.len()
        invariant
            i <= dictionaries@.len(),
            pairs_map(result@) == dictionary_labels(dictionaries@, i as int),
        decreases dictionaries@.len() - i,
    {
        let entry = &dictionaries[i];
        if find_value(&result, entry.0.as_str()).is_none() {
            set_pair(&mut result, entry.0.clone(), clone_texts_table(&entry.1.texts));
        }
        i = i + 1;
    }
    let mut n: usize = 0;
    while n < schema.fields.len()
        invariant
            n <= schema.fields@.len(),
            pairs_map(result@) == labels(dictionaries@, schema.fields@, n as int),
        decreases schema.fields@.len() - n,
    {
        let mapping = &schema.fields[n];
        if let Some(entries) = &mapping.string_map {
            if find_value(&result, mapping.target.as_str()).is_none() {
                set_pair(&mut result, mapping.target.clone(), turn(entries));
            }
        }
        n = n + 1;
    }
    result
}

/// A dictionary's own texts are shown for its field, whatever else the schema says of it.
pub proof fn law_dictionaries_come_first(
    dictionaries: Seq<(String, FieldDictionary)>,
    fields: Seq<FieldMapping>,
    n: int,
    field: Seq<char>,
)
    requires
        dictionary_labels(dictionaries, dictionaries.len() as int).dom().contains(field),
    ensures
        labels(dictionaries, fields, n).dom().contains(field),
        labels(dictionaries, fields, n)[field] == dictionary_labels(dictionaries, dictionaries.len() as int)[field],
    decreases n,
{
    if n > 0 {
        law_dictionaries_come_first(dictionaries, fields, n - 1, field);
    }
}

/// A text that a table gives a number reads back from the number, where no other text has it.
pub proof fn law_texts_read_back(entries: Seq<(String, i64)>, i: int)
    requires
        0 <= i < entries.len(),
        forall|j: int| 0 <= j < entries.len() && j != i ==> (#[trigger] entries[j]).1 != entries[i].1,
    ensures
        turned(entries).dom().contains(entries[i].1),
        turned(entries)[entries[i].1] == entries[i].0@,
{
    lemma_first_with_key(entries, entries[i].1, 0, i);
}

proof fn lemma_first_with_key(entries: Seq<(String, i64)>, key: i64, n: int, i: int)
    requires
        0 <= n <= i < entries.len(),
        entries[i].1 == key,
        forall|j: int| 0 <= j < entries.len() && j != i ==> (#[trigger] entries[j]).1 != key,
    ensures
        text_with_key(entries, key, n) == Some(entries[i].0@),
    decreases i - n,
{
    if n < i {
        assert(entries[n].1 != key);
        lemma_first_with_key(entries, key, n + 1, i);
    }
}

/// A configured text has its number under its own spelling where case counts, and in lower case where
/// it does not; the last of several spellings counts there. A field with a dictionary has the numbers
/// of the dictionary, and any other field has no table.
pub proof fn law_fields_have_the_numbers_of_their_texts(
    mapping: FieldMapping,
    dictionaries: Map<Seq<char>, DictionaryView>,
)
    ensures
        mapping.value_type is MappedString && mapping.case_sensitive ==> (mapping.string_map matches Some(entries)
            ==> table_of(mapping, dictionaries) == Some(pairs_map(entries@))),
        mapping.value_type is MappedString && !mapping.case_sensitive ==> (mapping.string_map matches Some(entries) ==> (
        entries@.len() > 0 ==> (table_of(mapping, dictionaries) matches Some(table) && table.dom().contains(
            lowercase(entries@.last().0@),
        ) && table[lowercase(entries@.last().0@)] == entries@.last().1))),
        mapping.value_type is MappedString && mapping.string_map is None ==> table_of(mapping, dictionaries) is None,
        mapping.value_type is LowCardinalityString && dictionaries.dom().contains(mapping.target@) ==> table_of(
            mapping,
            dictionaries,
        ) == Some(dictionaries[mapping.target@].keys),
        mapping.value_type is LowCardinalityString && !dictionaries.dom().contains(mapping.target@) ==> table_of(
            mapping,
            dictionaries,
        ) is None,
        !(mapping.value_type is MappedString) && !(mapping.value_type is LowCardinalityString) ==> table_of(
            mapping,
            dictionaries,
        ) is None,
{
}

/// Texts are lowered one by one: each has its number in lower case, and a later one of the same
/// spelling takes its place.
pub proof fn law_texts_are_lowered_one_by_one(entries: Seq<(String, i64)>, n: int, text: Seq<char>)
    requires
        0 <= n < entries.len(),
    ensures
        ({
            let all = lowered(entries, n + 1);
            let before = lowered(entries, n);
            let own = lowercase(entries[n].0@);
            &&& all.dom().contains(own) && all[own] == entries[n].1
            &&& text != own ==> all.dom().contains(text) == before.dom().contains(text) && (before.dom().contains(text)
                ==> all[text] == before[text])
        }),
        !lowered(entries, 0).dom().contains(text),
{
}

/// The tables stand under the target names of their fields; the last field of a name that has a table
/// counts. The same holds of the tables that give texts back.
pub proof fn law_tables_stand_under_their_field(
    fields: Seq<FieldMapping>,
    dictionaries: Map<Seq<char>, DictionaryView>,
    n: int,
    k: int,
)
    requires
        0 <= k < n <= fields.len(),
        forall|j: int| k < j < n ==> (#[trigger] fields[j]).target@ != fields[k].target@,
    ensures
        table_of(fields[k], dictionaries) matches Some(table) ==> tables(fields, dictionaries, n).dom().contains(
            fields[k].target@,
        ) && tables(fields, dictionaries, n)[fields[k].target@] == table,
        texts_of(fields[k], dictionaries) matches Some(table) ==> reverse_tables(fields, dictionaries, n).dom().contains(
            fields[k].target@,
        ) && reverse_tables(fields, dictionaries, n)[fields[k].target@] == table,
        keeps_case(fields[k]) ==> case_sensitive_fields(fields, n).contains(fields[k].target@),
    decreases n,
{
    if k < n - 1 {
        law_tables_stand_under_their_field(fields, dictionaries, n - 1, k);
    }
}

/// Case counts for the fields that have a configured table and say so, and for no others.
pub proof fn law_case_counts_where_it_is_said(fields: Seq<FieldMapping>, n: int, target: Seq<char>)
    requires
        0 <= n <= fields.len(),
    ensures
        case_sensitive_fields(fields, n).contains(target) <==> exists|i: int|
            0 <= i < n && (#[trigger] fields[i]).target@ == target && fields[i].value_type is MappedString
                && fields[i].string_map is Some && fields[i].case_sensitive,
    decreases n,
{
    if n > 0 {
        law_case_counts_where_it_is_said(fields, n - 1, target);
    }
}

/// The number of a text gives the text back as it was configured, whether case counts or not; the
/// first of several texts of one number counts. A field with a dictionary has the texts of the
/// dictionary, and any other field has none.
pub proof fn law_numbers_give_their_texts(
    mapping: FieldMapping,
    dictionaries: Map<Seq<char>, DictionaryView>,
    i: int,
)
    ensures
        mapping.value_type is MappedString ==> (mapping.string_map matches Some(entries) ==> (0 <= i < entries@.len() && (
        forall|j: int| 0 <= j < i ==> (#[trigger] entries@[j]).1 != entries@[i].1) ==> (texts_of(
            mapping,
            dictionaries,
        ) matches Some(texts) && texts.dom().contains(entries@[i].1) && texts[entries@[i].1] == entries@[i].0@))),
        mapping.value_type is LowCardinalityString && dictionaries.dom().contains(mapping.target@) ==> texts_of(
            mapping,
            dictionaries,
        ) == Some(dictionaries[mapping.target@].texts),
        !(mapping.value_type is MappedString) && !(mapping.value_type is LowCardinalityString) ==> texts_of(
            mapping,
            dictionaries,
        ) is None,
{
    if let Some(entries) = mapping.string_map {
        if 0 <= i < entries@.len() && (forall|j: int| 0 <= j < i ==> (#[trigger] entries@[j]).1 != entries@[i].1) {
            lemma_first_of_key(entries@, entries@[i].1, 0, i);
        }
    }
}

proof fn lemma_first_of_key(entries: Seq<(String, i64)>, key: i64, n: int, i: int)
    requires
        0 <= n <= i < entries.len(),
        entries[i].1 == key,
        forall|j: int| 0 <= j < i ==> (#[trigger] entries[j]).1 != key,
    ensures
        text_with_key(entries, key, n) == Some(entries[i].0@),
    decreases i - n,
{
    if n < i {
        assert(entries[n].1 != key);
        lemma_first_of_key(entries, key, n + 1, i);
    }
}

/// The labels of a field are the texts of its dictionary where it has one, and otherwise those of the
/// table that the first field of its name was configured with, whatever its type.
pub proof fn law_labels_come_from_dictionaries_or_tables(
    dictionaries: Seq<(String, FieldDictionary)>,
    fields: Seq<FieldMapping>,
    n: int,
    k: int,
)
    requires
        0 <= k < n <= fields.len(),
        !dictionary_labels(dictionaries, dictionaries.len() as int).dom().contains(fields[k].target@),
        forall|j: int| 0 <= j < k ==> (#[trigger] fields[j]).target@ != fields[k].target@ || fields[j].string_map is None,
    ensures
        fields[k].string_map matches Some(entries) ==> labels(dictionaries, fields, n).dom().contains(fields[k].target@)
            && labels(dictionaries, fields, n)[fields[k].target@] == turned(entries@),
    decreases n,
{
    if k < n - 1 {
        law_labels_come_from_dictionaries_or_tables(dictionaries, fields, n - 1, k);
    } else {
        lemma_no_label_yet(dictionaries, fields, k, k);
    }
}

proof fn lemma_no_label_yet(dictionaries: Seq<(String, FieldDictionary)>, fields: Seq<FieldMapping>, n: int, k: int)
    requires
        0 <= n <= k < fields.len(),
        !dictionary_labels(dictionaries, dictionaries.len() as int).dom().contains(fields[k].target@),
        forall|j: int| 0 <= j < k ==> (#[trigger] fields[j]).target@ != fields[k].target@ || fields[j].string_map is None,
    ensures
        !labels(dictionaries, fields, n).dom().contains(fields[k].target@),
    decreases n,
{
    if n > 0 {
        lemma_no_label_yet(dictionaries, fields, n - 1, k);
        assert(fields[n - 1].target@ != fields[k].target@ || fields[n - 1].string_map is None);
    }
}

/// A dictionary's labels are its own texts; the first dictionary of a field counts.
pub proof fn law_dictionaries_label_their_field(dictionaries: Seq<(String, FieldDictionary)>, n: int, k: int)
    requires
        0 <= k < n <= dictionaries.len(),
        forall|j: int| 0 <= j < k ==> (#[trigger] dictionaries[j]).0@ != dictionaries[k].0@,
    ensures
        dictionary_labels(dictionaries, n).dom().contains(dictionaries[k].0@),
        dictionary_labels(dictionaries, n)[dictionaries[k].0@] == dictionaries[k].1.texts@,
    decreases n,
{
    if k < n - 1 {
        law_dictionaries_label_their_field(dictionaries, n - 1, k);
    } else {
        lemma_no_dictionary_yet(dictionaries, k, k);
    }
}

proof fn lemma_no_dictionary_yet(dictionaries: Seq<(String, FieldDictionary)>, n: int, k: int)
    requires
        0 <= n <= k < dictionaries.len(),
        forall|j: int| 0 <= j < k ==> (#[trigger] dictionaries[j]).0@ != dictionaries[k].0@,
    ensures
        !dictionary_labels(dictionaries, n).dom().contains(dictionaries[k].0@),
    decreases n,
{
    if n > 0 {
        lemma_no_dictionary_yet(dictionaries, n - 1, k);
        assert(dictionaries[n - 1].0@ != dictionaries[k].0@);
    }
}

} // verus!
