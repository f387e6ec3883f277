//! Trigger SQL for the tables that feed the index.
//!
//! A sync source describes one PostgreSQL table. From it come the PL/pgSQL trigger function
//! that writes ops into the `BitdexOps` table, and the DDL that installs the trigger.
//!
//! **Direct tables** (the slot is a column):
//! - `track_fields`: scalar fields, remove/set pairs where the value changes
//! - `field` + `value_field`: multi-value join tables, add/remove
//! - `on_delete`: a delete op
//! - `sets_alive`: only such a table can create new alive slots
//!
//! **Fan-out tables** (slots resolved by a query, or child row by child row):
//! - `query`: query template with `{column}` placeholders
//! - `query_source`: optional subquery for values of another table
//! - `rows_from`: the child table whose rows are enumerated inside the transaction

use crate::pg_sync::template::{
    build_execute_with_params, build_query_concatenation, column_ref, column_reference, concatenation,
    law_columns_become_references, law_one_column_is_one_parameter, law_substitution_keeps_plain_text, parameterised, parameters, pieces,
    substitute_columns, substituted,
};
use crate::text::{
    ascii_lower, clone_texts, contains_text, debug_form, debug_text, digit_char, digit_to_char, has_part, is_white,
    join, join_texts, law_joining_puts_separators_between, law_replacement_goes_piece_by_piece,
    law_texts_are_replaced_from_the_left, law_trimmed_texts_stay, lemma_has_itself, lemma_has_part_before,
    lemma_has_part_behind, lemma_sorted_texts, lowercase, opt_view, replace_all, replace_char, replace_char_text,
    replace_text, slice_text, sort_texts, sorted_texts, text_eq, to_chars, to_lower, trim, trim_chars, trim_text,
    views,
};
use std::collections::hash_map::DefaultHasher;
use std::hash::{Hash, Hasher};
use vstd::prelude::*;
use vstd::std_specs::hash::DefaultHasherAdditionalSpecFns;
use vstd::string::*;

verus! {

/// An entry in a trigger's `track_fields` list: a plain field name, or a map
/// of column, target and expression.
#[derive(Debug, Clone)]
pub enum TrackField {
    /// Plain field name (column = target, no expression).
    Simple(String),
    /// Structured field with optional column, target and expression.
    Mapped { column: Option<String>, target: Option<String>, expression: Option<String> },
}

impl TrackField {
    /// The field name of a structured entry: its target, else its column.
    pub open spec fn mapped_name(column: Option<String>, target: Option<String>) -> Seq<char> {
        match target {
            Some(t) => t@,
            None => match column {
                Some(c) => c@,
                None => "unknown"@,
            },
        }
    }

    /// The entry in the one-line form `expression as name`.
    pub open spec fn track_text(self) -> Seq<char> {
        match self {
            TrackField::Simple(s) => s@,
            TrackField::Mapped { column, target, expression } => {
                let name = Self::mapped_name(column, target);
                match expression {
                    Some(e) => e@ + " as "@ + name,
                    None => if column is Some && target is Some && column->0@ != target->0@ {
                        "{"@ + column->0@ + "} as "@ + name
                    } else {
                        name
                    },
                }
            },
        }
    }

    /// Converts to the one-line form that [`parse_track_field`] reads.
    pub fn to_track_string(&self) -> (r: String)
        ensures
            r@ == self.track_text(),
    {
        match self {
            TrackField::Simple(s) => s.clone(),
            TrackField::Mapped { column, target, expression } => {
                let name = match target {
                    Some(t) => t.clone(),
                    None => match column {
                        Some(c) => c.clone(),
                        None => "unknown".to_owned(),
                    },
                };
                match expression {
                    Some(e) => e.clone().concat(" as ").concat(name.as_str()),
                    None => match column {
                        Some(c) => match target {
                            Some(t) => {
                                if text_eq(c.as_str(), t.as_str()) {
                                    name
                                } else {
                                    "{".to_owned().concat(c.as_str()).concat("} as ").concat(name.as_str())
                                }
                            },
                            None => name,
                        },
                        None => name,
                    },
                }
            },
        }
    }
}

/// Computed field of a trigger.
#[derive(Debug, Clone)]
pub struct TriggerComputedField {
    pub target: String,
    pub expression: String,
    pub value: Option<String>,
}

/// Child-row source of a `fan_out_per_row` trigger.
///
/// The trigger enumerates the child rows inside the owning transaction, so the match set
/// cannot be partial, early, or resolved again later.
#[derive(Debug, Clone)]
pub struct RowsFrom {
    /// Child table the per-row ops are emitted for.
    pub table: String,
    /// Foreign-key column on the child table.
    pub fk: String,
    /// Child column that maps to the slot.
    pub slot: String,
    /// Parent key column that the foreign key references.
    pub parent_key: String,
}

/// The column that `slot` and `parent_key` of a [`RowsFrom`] name where the config is silent.
pub fn default_rows_from_id() -> (r: String)
    ensures
        r@ == "id"@,
{
    "id".to_owned()
}

/// A value that is a flag or the text `delete_slot`.
#[derive(Debug, Clone)]
pub enum OnDeleteValue {
    Bool(bool),
    String(String),
}

impl OnDeleteValue {
    /// Whether deletion emits a delete op.
    pub open spec fn deletes(self) -> bool {
        match self {
            OnDeleteValue::Bool(b) => b,
            OnDeleteValue::String(s) => s@ == "delete_slot"@ || s@ == "true"@,
        }
    }

    /// Returns true if deletion should emit a delete op.
    pub fn is_delete(&self) -> (r: bool)
        ensures
            r == self.deletes(),
    {
        match self {
            OnDeleteValue::Bool(b) => *b,
            OnDeleteValue::String(s) => text_eq(s.as_str(), "delete_slot") || text_eq(s.as_str(), "true"),
        }
    }
}

/// A sync source definition.
#[derive(Debug, Clone)]
pub struct SyncSource {
    /// Table name.
    pub table: String,
    /// For direct tables: column that maps to the slot.
    pub slot_field: Option<String>,
    /// For direct tables: scalar fields to track.
    pub track_fields: Option<Vec<TrackField>>,
    /// Computed fields.
    pub computed_fields: Option<Vec<TriggerComputedField>>,
    /// For multi-value join tables: the index field.
    pub field: Option<String>,
    /// For multi-value join tables: the column that holds the value.
    pub value_field: Option<String>,
    /// Optional SQL filter.
    pub filter: Option<String>,
    /// If true, INSERT sets the alive bit on new slots.
    pub sets_alive: bool,
    /// Whether DELETE emits a delete op.
    pub on_delete: Option<OnDeleteValue>,
    /// For fan-out tables: query template with `{column}` placeholders.
    pub query: Option<String>,
    /// For fan-out tables: subquery for values that are not on the table.
    pub query_source: Option<String>,
    /// `fan_out`, `fan_out_per_row`, or nothing for direct and join tables.
    pub table_type: Option<String>,
    /// For `fan_out_per_row` tables: the child table and its foreign key.
    pub rows_from: Option<RowsFrom>,
    /// Target fields whose `set` op stands in a named function of its own.
    pub shared_ops_fields: Option<Vec<String>>,
    /// JOIN clause for fan-out triggers.
    pub join: Option<String>,
    /// SQL expression for slot resolution.
    pub expression: Option<String>,
    /// Tables that are loaded before this one.
    pub depends_on: Option<Vec<String>>,
}

/// Full sync config.
#[derive(Debug, Clone)]
pub struct SyncConfig {
    pub sync_sources: Vec<SyncSource>,
}

/// A field name with the template of its value.
pub struct FieldTemplate {
    pub name: String,
    pub template: String,
}

/// A field name with the template of its value, as mathematical values.
pub struct FieldText {
    pub name: Seq<char>,
    pub template: Seq<char>,
}

impl View for FieldTemplate {
    type V = FieldText;

    open spec fn view(&self) -> FieldText {
        FieldText { name: self.name@, template: self.template@ }
    }
}

/// The fields as mathematical values.
pub open spec fn template_views(fields: Seq<FieldTemplate>) -> Seq<FieldText> {
    Seq::new(fields.len(), |i: int| fields[i]@)
}

/// Whether ` as ` stands in `s` at position `p`, in any case of its letters.
pub open spec fn as_at(s: Seq<char>, p: int) -> bool {
    &&& 0 <= p
    &&& p + 4 <= s.len()
    &&& s[p] == ' '
    &&& ascii_lower(s[p + 1]) == 'a'
    &&& ascii_lower(s[p + 2]) == 's'
    &&& s[p + 3] == ' '
}

/// The last position below `n` at which ` as ` stands in `s`, or `-1`.
pub open spec fn last_as(s: Seq<char>, n: int) -> int
    decreases n,
{
    if n <= 0 {
        -1
    } else if as_at(s, n - 1) {
        n - 1
    } else {
        last_as(s, n - 1)
    }
}

/// The field name of a track string: what follows the last ` as `, else all of it.
pub open spec fn track_name(s: Seq<char>) -> Seq<char> {
    let p = last_as(s, s.len() as int);
    if p < 0 { s } else { trim(s.subrange(p + 4, s.len() as int)) }
}

/// The value template of a track string: what precedes the last ` as `, else the column.
pub open spec fn track_template(s: Seq<char>) -> Seq<char> {
    let p = last_as(s, s.len() as int);
    if p < 0 { "{"@ + s + "}"@ } else { trim(s.subrange(0, p)) }
}

/// The value expression of a track string without a row: each brace becomes a double quote.
pub open spec fn track_insert(s: Seq<char>) -> Seq<char> {
    let p = last_as(s, s.len() as int);
    if p < 0 {
        "\""@ + s + "\""@
    } else {
        replace_char(replace_char(trim(s.subrange(0, p)), '{', "\""@), '}', "\""@)
    }
}

fn is_letter(c: char, lower: char, upper: char) -> (r: bool)
    requires
        'a' <= lower <= 'z',
        upper as u32 + 32 == lower as u32,
    ensures
        r == (ascii_lower(c) == lower),
{
    c == lower || c == upper
}

/// Parses a track string into `(field_name, insert_expr, template_expr)`.
pub fn parse_track_field(field: &str) -> (r: (String, String, String))
    ensures
        r.0@ == track_name(field@),
        r.1@ == track_insert(field@),
        r.2@ == track_template(field@),
{
    let v = to_chars(field);
    let mut n: usize = v.len();
    while n > 0
        invariant
            v@ == field@,
            n <= v@.len(),
            last_as(field@, n as int) == last_as(field@, field@.len() as int),
        decreases n,
    {
        let p: usize = n - 1;
        if v.len() - p >= 4 && v[p] == ' ' && is_letter(v[p + 1], 'a', 'A') && is_letter(v[p + 2], 's', 'S') && v[p + 3]
            == ' ' {
            let expr = trim_chars(&v, 0, p);
            let alias = trim_chars(&v, p + 4, v.len());
            let opened = replace_char_text(expr.as_str(), '{', "\"");
            let insert_sql = replace_char_text(opened.as_str(), '}', "\"");
            return (alias, insert_sql, expr);
        }
        n = n - 1;
    }
    let insert_sql = "\"".to_owned().concat(field).concat("\"");
    let template = "{".to_owned().concat(field).concat("}");
    (field.to_owned(), insert_sql, template)
}

impl SyncSource {
    /// The fields that the source follows.
    pub open spec fn track_list(self) -> Seq<FieldText> {
        match self.track_fields {
            Some(list) => Seq::new(
                list@.len(),
                |i: int|
                    FieldText {
                        name: track_name(list@[i].track_text()),
                        template: track_template(list@[i].track_text()),
                    },
            ),
            None => Seq::empty(),
        }
    }

    /// The computed fields, each by its target and expression.
    pub open spec fn computed(self) -> Seq<FieldText> {
        Seq::new(
            self.computed_list().len(),
            |i: int|
                FieldText {
                    name: self.computed_list()[i].target@,
                    template: self.computed_list()[i].expression@,
                },
        )
    }

    /// The computed fields.
    pub open spec fn computed_list(self) -> Seq<TriggerComputedField> {
        match self.computed_fields {
            Some(list) => list@,
            None => Seq::empty(),
        }
    }

    /// The fields that have an op function of their own.
    pub open spec fn shared(self) -> Seq<Seq<char>> {
        match self.shared_ops_fields {
            Some(list) => views(list@),
            None => Seq::empty(),
        }
    }

    /// Whether DELETE emits a delete op.
    pub open spec fn deletes(self) -> bool {
        match self.on_delete {
            Some(v) => v.deletes(),
            None => false,
        }
    }

    fn track_templates(&self) -> (r: Vec<FieldTemplate>)
        ensures
            template_views(r@) == self.track_list(),
    {
        let mut r: Vec<FieldTemplate> = Vec::new();
        match &self.track_fields {
            Some(list) => {
                let mut i: usize = 0;
                while i < list.len()
                    invariant
                        i <= list@.len(),
                        self.track_fields == Some(*list),
                        template_views(r@) == self.track_list().take(i as int),
                    decreases list@.len() - i,
                {
                    let line = list[i].to_track_string();
                    let (name, _insert, template) = parse_track_field(line.as_str());
                    let ghost before = r@;
                    r.push(FieldTemplate { name, template });
                    assert(template_views(r@) =~= template_views(before).push(self.track_list()[i as int]));
                    assert(self.track_list().take(i + 1) =~= self.track_list().take(i as int).push(
                        self.track_list()[i as int],
                    ));
                    i = i + 1;
                }
                assert(self.track_list().take(list@.len() as int) =~= self.track_list());
            },
            None => {},
        }
        assert(template_views(r@) =~= self.track_list());
        r
    }

    fn computed_templates(&self) -> (r: Vec<FieldTemplate>)
        ensures
            template_views(r@) == self.computed(),
    {
        let mut r: Vec<FieldTemplate> = Vec::new();
        match &self.computed_fields {
            Some(list) => {
                let mut i: usize = 0;
                while i < list.len()
                    invariant
                        i <= list@.len(),
                        self.computed_fields == Some(*list),
                        template_views(r@) == self.computed().take(i as int),
                    decreases list@.len() - i,
                {
                    let ghost before = r@;
                    r.push(FieldTemplate { name: list[i].target.clone(), template: list[i].expression.clone() });
                    assert(template_views(r@) =~= template_views(before).push(self.computed()[i as int]));
                    assert(self.computed().take(i + 1) =~= self.computed().take(i as int).push(
                        self.computed()[i as int],
                    ));
                    i = i + 1;
                }
                assert(self.computed().take(list@.len() as int) =~= self.computed());
            },
            None => {},
        }
        assert(template_views(r@) =~= self.computed());
        r
    }

    fn shared_names(&self) -> (r: Vec<String>)
        ensures
            views(r@) == self.shared(),
    {
        match &self.shared_ops_fields {
            Some(list) => clone_texts(list),
            None => {
                let r: Vec<String> = Vec::new();
                assert(views(r@) =~= self.shared());
                r
            },
        }
    }

    fn has_delete(&self) -> (r: bool)
        ensures
            r == self.deletes(),
    {
        match &self.on_delete {
            Some(v) => v.is_delete(),
            None => false,
        }
    }
}

/// What a hasher has been fed once the text `s` was hashed into one that had been fed `fed`.
pub uninterp spec fn fed_with_text(fed: Seq<Seq<u8>>, s: Seq<char>) -> Seq<Seq<u8>>;

/// `<str as Hash>::hash`: what it feeds the hasher depends on the text alone.
#[verifier::external_body]
fn hash_text(s: &str, state: &mut DefaultHasher)
    ensures
        final(state)@ == fed_with_text(old(state)@, s@),
{
    s.hash(state)
}

/// The upper half of `h` as eight hexadecimal digits.
pub open spec fn upper_hex(h: u64) -> Seq<char> {
    let top = h as int / 0x1_0000_0000;
    seq![
        digit_char(top / 0x1000_0000 % 16),
        digit_char(top / 0x100_0000 % 16),
        digit_char(top / 0x10_0000 % 16),
        digit_char(top / 0x1_0000 % 16),
        digit_char(top / 0x1000 % 16),
        digit_char(top / 0x100 % 16),
        digit_char(top / 0x10 % 16),
        digit_char(top % 16),
    ]
}

/// The short hash of the text `s`.
pub open spec fn short_hash_of(s: Seq<char>) -> Seq<char> {
    upper_hex(DefaultHasher::spec_finish(fed_with_text(Seq::empty(), s)))
}

/// Computes a short hash of a string: the first eight of the sixteen hexadecimal digits.
pub fn short_hash(s: &str) -> (r: String)
    ensures
        r@ == short_hash_of(s@),
        r@.len() == 8,
{
    let mut hasher = DefaultHasher::new();
    hash_text(s, &mut hasher);
    let h: u64 = hasher.finish();
    let top: u64 = h / 0x1_0000_0000;
    let mut r = String::new();
    r.push(digit_to_char(top / 0x1000_0000 % 16));
    r.push(digit_to_char(top / 0x100_0000 % 16));
    r.push(digit_to_char(top / 0x10_0000 % 16));
    r.push(digit_to_char(top / 0x1_0000 % 16));
    r.push(digit_to_char(top / 0x1000 % 16));
    r.push(digit_to_char(top / 0x100 % 16));
    r.push(digit_to_char(top / 0x10 % 16));
    r.push(digit_to_char(top % 16));
    assert(r@ =~= upper_hex(h));
    r
}

/// The name of the shared op function of a `fan_out_per_row` source.
pub open spec fn fan_out_function(table: Seq<char>) -> Seq<char> {
    "bitdex_"@ + lowercase(table) + "_fanout_ops"@
}

/// Stable name of the shared per-row op function of a `fan_out_per_row` source, such as
/// `bitdex_post_fanout_ops`. It holds no hash, so a caller of the function finds it under
/// the same name when the config changes.
pub fn fan_out_ops_function_name(source: &SyncSource) -> (r: String)
    ensures
        r@ == fan_out_function(source.table@),
{
    let table = to_lower(source.table.as_str());
    "bitdex_".to_owned().concat(table.as_str()).concat("_fanout_ops")
}

/// Whether `s` ends in `unix`, in any case of its letters.
pub open spec fn ends_in_unix(s: Seq<char>) -> bool {
    let n = s.len();
    &&& n >= 4
    &&& ascii_lower(s[n - 4]) == 'u'
    &&& ascii_lower(s[n - 3]) == 'n'
    &&& ascii_lower(s[n - 2]) == 'i'
    &&& ascii_lower(s[n - 1]) == 'x'
}

/// `s` without a trailing `unix`.
pub open spec fn without_unix(s: Seq<char>) -> Seq<char> {
    if ends_in_unix(s) { s.subrange(0, s.len() - 4) } else { s }
}

/// The name of the shared op function of one field.
pub open spec fn field_function(table: Seq<char>, target: Seq<char>) -> Seq<char> {
    "bitdex_"@ + lowercase(table) + "_"@ + lowercase(without_unix(target)) + "_ops"@
}

/// Stable name of the shared op function of one field, such as `bitdex_image_sortat_ops`
/// for the field `sortAtUnix` of the table `Image`. A trailing `Unix`, in any case, is
/// stripped from the target.
pub fn shared_field_ops_function_name(table: &str, target_field: &str) -> (r: String)
    ensures
        r@ == field_function(table@, target_field@),
{
    let v = to_chars(target_field);
    let n: usize = v.len();
    let stripped = if n >= 4 && is_letter(v[n - 4], 'u', 'U') && is_letter(v[n - 3], 'n', 'N') && is_letter(
        v[n - 2],
        'i',
        'I',
    ) && is_letter(v[n - 1], 'x', 'X') {
        slice_text(&v, 0, n - 4)
    } else {
        target_field.to_owned()
    };
    let table_part = to_lower(table);
    let field_part = to_lower(stripped.as_str());
    "bitdex_".to_owned().concat(table_part.as_str()).concat("_").concat(field_part.as_str()).concat("_ops")
}

/// The JSON object of one op.
pub open spec fn op_object(op: Seq<char>, field: Seq<char>, value: Seq<char>) -> Seq<char> {
    "jsonb_build_object('op', '"@ + op + "', 'field', '"@ + field + "', 'value', to_jsonb("@ + value + "))"@
}

fn op_object_text(op: &str, field: &str, value: &str) -> (r: String)
    ensures
        r@ == op_object(op@, field@, value@),
{
    "jsonb_build_object('op', '".to_owned().concat(op).concat("', 'field', '").concat(field).concat(
        "', 'value', to_jsonb(",
    ).concat(value).concat("))")
}

/// Field whose `set` is held back while its value is NULL or in the future.
///
/// A future `publishedAt` is a scheduling event. A `set` of it would make the slot visible
/// at once, so the ops carry a `remove` until the value has passed.
pub const FUTURE_GUARDED_FIELD: &'static str = "publishedAt";

/// Where a remove/set pair is emitted from, which decides how the guarded field is held back.
#[derive(Clone, Copy)]
pub enum Guard {
    /// No field is guarded.
    Never,
    /// The value is an epoch number: it is compared with the epoch of now.
    Epoch,
    /// The column of the new row is a timestamp: it is compared with now.
    Timestamp,
}

/// The element for the new value of a field that changed.
pub open spec fn new_side(guard: Guard, field: Seq<char>, new: Seq<char>) -> Seq<char> {
    if guard is Epoch && field == "publishedAt"@ {
        "        CASE WHEN COALESCE(("@ + new + ") > extract(epoch from now())::bigint, TRUE)\n          THEN "@
            + op_object("remove"@, field, new) + "\n          ELSE "@ + op_object("set"@, field, new)
            + "\n        END"@
    } else if guard is Timestamp && field == "publishedAt"@ {
        "        CASE WHEN NEW.\""@ + field + "\" IS NULL OR NEW.\""@ + field + "\" > now()\n          THEN "@
            + op_object("remove"@, field, new) + "\n          ELSE "@ + op_object("set"@, field, new)
            + "\n        END"@
    } else {
        "        "@ + op_object("set"@, field, new)
    }
}

fn new_side_text(guard: Guard, field: &str, new: &str) -> (r: String)
    ensures
        r@ == new_side(guard, field@, new@),
{
    let set = op_object_text("set", field, new);
    let guarded = text_eq(field, FUTURE_GUARDED_FIELD);
    if guarded && matches!(guard, Guard::Epoch) {
        let remove = op_object_text("remove", field, new);
        "        CASE WHEN COALESCE((".to_owned().concat(new).concat(
            ") > extract(epoch from now())::bigint, TRUE)\n          THEN ",
        ).concat(remove.as_str()).concat("\n          ELSE ").concat(set.as_str()).concat("\n        END")
    } else if guarded && matches!(guard, Guard::Timestamp) {
        let remove = op_object_text("remove", field, new);
        "        CASE WHEN NEW.\"".to_owned().concat(field).concat("\" IS NULL OR NEW.\"").concat(field).concat(
            "\" > now()\n          THEN ",
        ).concat(remove.as_str()).concat("\n          ELSE ").concat(set.as_str()).concat("\n        END")
    } else {
        "        ".to_owned().concat(set.as_str())
    }
}

/// The statement that emits the ops of a field where its value changed: the `remove` of the
/// old value, then the element for the new one.
pub open spec fn change_block(guard: Guard, t: FieldText) -> Seq<char> {
    let old_value = substituted(t.template, "OLD"@);
    let new_value = substituted(t.template, "NEW"@);
    "    IF ("@ + old_value + ") IS DISTINCT FROM ("@ + new_value
        + ") THEN\n      _ops := _ops || jsonb_build_array(\n        "@ + op_object("remove"@, t.name, old_value)
        + ",\n"@ + new_side(guard, t.name, new_value) + "\n      );\n    END IF;\n"@
}

/// The statements for all of `list`.
pub open spec fn change_blocks(guard: Guard, list: Seq<FieldText>) -> Seq<char>
    decreases list.len(),
{
    if list.len() == 0 {
        Seq::empty()
    } else {
        change_blocks(guard, list.drop_last()) + change_block(guard, list.last())
    }
}

fn change_block_text(guard: Guard, t: &FieldTemplate) -> (r: String)
    ensures
        r@ == change_block(guard, t@),
{
    let old_value = substitute_columns(t.template.as_str(), "OLD");
    let new_value = substitute_columns(t.template.as_str(), "NEW");
    let remove = op_object_text("remove", t.name.as_str(), old_value.as_str());
    let side = new_side_text(guard, t.name.as_str(), new_value.as_str());
    "    IF (".to_owned().concat(old_value.as_str()).concat(") IS DISTINCT FROM (").concat(new_value.as_str()).concat(
        ") THEN\n      _ops := _ops || jsonb_build_array(\n        ",
    ).concat(remove.as_str()).concat(",\n").concat(side.as_str()).concat("\n      );\n    END IF;\n")
}

fn change_blocks_text(guard: Guard, list: &Vec<FieldTemplate>) -> (r: String)
    ensures
        r@ == change_blocks(guard, template_views(list@)),
{
    let mut r = String::new();
    let mut i: usize = 0;
    let ghost all = template_views(list@);
    assert(all.take(0) =~= Seq::<FieldText>::empty());
    while i < list.len()
        invariant
            i <= list@.len(),
            all == template_views(list@),
            r@ == change_blocks(guard, all.take(i as int)),
        decreases list@.len() - i,
    {
        assert(all.take(i + 1).drop_last() =~= all.take(i as int));
        let block = change_block_text(guard, &list[i]);
        r.append(block.as_str());
        i = i + 1;
    }
    assert(all.take(all.len() as int) =~= all);
    r
}

/// The `set` ops of a new row for those of `list` that have no op function of their own.
pub open spec fn insert_ops(list: Seq<FieldText>, shared: Seq<Seq<char>>) -> Seq<Seq<char>>
    decreases list.len(),
{
    if list.len() == 0 {
        Seq::empty()
    } else if shared.contains(list.last().name) {
        insert_ops(list.drop_last(), shared)
    } else {
        insert_ops(list.drop_last(), shared).push(
            "      "@ + op_object("set"@, list.last().name, substituted(list.last().template, "NEW"@)),
        )
    }
}

fn push_insert_ops(ops: &mut Vec<String>, list: &Vec<FieldTemplate>, shared: &Vec<String>)
    ensures
        views(final(ops)@) == views(old(ops)@) + insert_ops(template_views(list@), views(shared@)),
{
    let mut i: usize = 0;
    let ghost start = views(ops@);
    let ghost all = template_views(list@);
    assert(all.take(0) =~= Seq::<FieldText>::empty());
    assert(views(ops@) =~= start + insert_ops(all.take(0), views(shared@)));
    while i < list.len()
        invariant
            i <= list@.len(),
            all == template_views(list@),
            views(ops@) == start + insert_ops(all.take(i as int), views(shared@)),
        decreases list@.len() - i,
    {
        assert(all.take(i + 1).drop_last() =~= all.take(i as int));
        if !contains_text(shared, list[i].name.as_str()) {
            let new_value = substitute_columns(list[i].template.as_str(), "NEW");
            let object = op_object_text("set", list[i].name.as_str(), new_value.as_str());
            let ghost before = views(ops@);
            let line = "      ".to_owned().concat(object.as_str());
            let ghost text = line@;
            ops.push(line);
            assert(views(ops@) =~= before.push(text));
            assert(views(ops@) =~= start + insert_ops(all.take(i + 1), views(shared@)));
        }
        i = i + 1;
    }
    assert(all.take(all.len() as int) =~= all);
}

/// The ops of a new row of a direct table.
pub open spec fn direct_insert_ops(source: SyncSource) -> Seq<Seq<char>> {
    (if source.sets_alive {
        seq!["      jsonb_build_object('op', 'alive')"@]
    } else {
        Seq::empty()
    }) + insert_ops(source.track_list(), source.shared()) + insert_ops(source.computed(), source.shared())
}

/// The assignment of the ops of a new row.
pub open spec fn insert_assignment(ops: Seq<Seq<char>>) -> Seq<char> {
    if ops.len() == 0 {
        "    _ops := '[]'::jsonb;\n"@
    } else {
        "    _ops := jsonb_build_array(\n"@ + join(ops, ",\n"@) + "\n    );\n"@
    }
}

fn direct_insert_assignment(source: &SyncSource) -> (r: String)
    ensures
        r@ == insert_assignment(direct_insert_ops(*source)),
{
    let shared = source.shared_names();
    let tracks = source.track_templates();
    let computed = source.computed_templates();
    let mut ops: Vec<String> = Vec::new();
    if source.sets_alive {
        ops.push("      jsonb_build_object('op', 'alive')".to_owned());
    }
    let ghost alive = views(ops@);
    assert(alive =~= if source.sets_alive {
        seq!["      jsonb_build_object('op', 'alive')"@]
    } else {
        Seq::empty()
    });
    push_insert_ops(&mut ops, &tracks, &shared);
    push_insert_ops(&mut ops, &computed, &shared);
    assert(views(ops@) == direct_insert_ops(*source));
    if ops.len() == 0 {
        "    _ops := '[]'::jsonb;\n".to_owned()
    } else {
        let joined = join_texts(&ops, ",\n");
        "    _ops := jsonb_build_array(\n".to_owned().concat(joined.as_str()).concat("\n    );\n")
    }
}

/// The calls that merge in the ops of the shared fields `names`.
pub open spec fn shared_calls(table: Seq<char>, names: Seq<Seq<char>>) -> Seq<char>
    decreases names.len(),
{
    if names.len() == 0 {
        Seq::empty()
    } else {
        shared_calls(table, names.drop_last()) + "    _ops := _ops || "@ + field_function(table, names.last())
            + "(NEW);\n"@
    }
}

fn shared_calls_text(table: &str, names: &Vec<String>) -> (r: String)
    ensures
        r@ == shared_calls(table@, views(names@)),
{
    let mut r = String::new();
    let mut i: usize = 0;
    let ghost all = views(names@);
    assert(all.take(0) =~= Seq::<Seq<char>>::empty());
    while i < names.len()
        invariant
            i <= names@.len(),
            all == views(names@),
            r@ == shared_calls(table@, all.take(i as int)),
        decreases names@.len() - i,
    {
        assert(all.take(i + 1).drop_last() =~= all.take(i as int));
        let function = shared_field_ops_function_name(table, names[i].as_str());
        r.append("    _ops := _ops || ");
        r.append(function.as_str());
        r.append("(NEW);\n");
        i = i + 1;
    }
    assert(all.take(all.len() as int) =~= all);
    r
}

/// The text in `o`, or `default` where there is none.
pub open spec fn text_or(o: Option<String>, default: Seq<char>) -> Seq<char> {
    match o {
        Some(s) => s@,
        None => default,
    }
}

fn text_or_default(o: &Option<String>, default: &str) -> (r: String)
    ensures
        r@ == text_or(*o, default@),
{
    match o {
        Some(s) => s.clone(),
        None => default.to_owned(),
    }
}

/// The DELETE branch of a direct table.
pub open spec fn direct_delete(source: SyncSource) -> Seq<char> {
    if source.deletes() {
        "  ELSIF TG_OP = 'DELETE' THEN\n    INSERT INTO \"BitdexOps\" (entity_id, ops) VALUES (OLD.\""@ + text_or(
            source.slot_field,
            "id"@,
        ) + "\", '[{\"op\":\"delete\"}]'::jsonb);\n    RETURN OLD;\n"@
    } else {
        Seq::empty()
    }
}

/// The function body of a direct table.
pub open spec fn direct_body(source: SyncSource) -> Seq<char> {
    let slot = text_or(source.slot_field, "id"@);
    "DECLARE\n  _ops jsonb;\nBEGIN\n  IF TG_OP = 'INSERT' THEN\n"@ + insert_assignment(direct_insert_ops(source))
        + shared_calls(source.table@, sorted_texts(source.shared()))
        + "    INSERT INTO \"BitdexOps\" (entity_id, ops) VALUES (NEW.\""@ + slot + "\", _ops);\n    RETURN NEW;\n"@
        + direct_delete(source) + "  ELSE\n    _ops := '[]'::jsonb;\n"@ + change_blocks(
        Guard::Never,
        source.track_list(),
    ) + change_blocks(Guard::Epoch, source.computed())
        + "    IF jsonb_array_length(_ops) > 0 THEN\n      INSERT INTO \"BitdexOps\" (entity_id, ops) VALUES (NEW.\""@
        + slot + "\", _ops);\n    END IF;\n    RETURN NEW;\n  END IF;\nEND;"@
}

/// Generates the body for direct tables.
pub fn generate_direct_body(source: &SyncSource) -> (r: String)
    ensures
        r@ == direct_body(*source),
{
    let slot = text_or_default(&source.slot_field, "id");
    let assignment = direct_insert_assignment(source);
    let mut names = source.shared_names();
    names = sort_texts(&names);
    let calls = shared_calls_text(source.table.as_str(), &names);
    let deletion = if source.has_delete() {
        "  ELSIF TG_OP = 'DELETE' THEN\n    INSERT INTO \"BitdexOps\" (entity_id, ops) VALUES (OLD.\"".to_owned().concat(
            slot.as_str(),
        ).concat("\", '[{\"op\":\"delete\"}]'::jsonb);\n    RETURN OLD;\n")
    } else {
        String::new()
    };
    let tracks = source.track_templates();
    let computed = source.computed_templates();
    let track_changes = change_blocks_text(Guard::Never, &tracks);
    let computed_changes = change_blocks_text(Guard::Epoch, &computed);
    "DECLARE\n  _ops jsonb;\nBEGIN\n  IF TG_OP = 'INSERT' THEN\n".to_owned().concat(assignment.as_str()).concat(
        calls.as_str(),
    ).concat("    INSERT INTO \"BitdexOps\" (entity_id, ops) VALUES (NEW.\"").concat(slot.as_str()).concat(
        "\", _ops);\n    RETURN NEW;\n",
    ).concat(deletion.as_str()).concat("  ELSE\n    _ops := '[]'::jsonb;\n").concat(track_changes.as_str()).concat(
        computed_changes.as_str(),
    ).concat(
        "    IF jsonb_array_length(_ops) > 0 THEN\n      INSERT INTO \"BitdexOps\" (entity_id, ops) VALUES (NEW.\"",
    ).concat(slot.as_str()).concat("\", _ops);\n    END IF;\n    RETURN NEW;\n  END IF;\nEND;")
}

/// The filter of a join table, opened for the row `row`.
pub open spec fn filter_open(source: SyncSource, row: Seq<char>) -> Seq<char> {
    match source.filter {
        Some(f) => "    IF "@ + substituted(f@, row) + " THEN\n"@,
        None => Seq::empty(),
    }
}

fn filter_open_text(source: &SyncSource, row: &str) -> (r: String)
    ensures
        r@ == filter_open(*source, row@),
{
    match &source.filter {
        Some(f) => {
            let condition = substitute_columns(f.as_str(), row);
            "    IF ".to_owned().concat(condition.as_str()).concat(" THEN\n")
        },
        None => String::new(),
    }
}

/// The end of the filter of a join table.
pub open spec fn filter_close(source: SyncSource) -> Seq<char> {
    if source.filter is Some { "    END IF;\n"@ } else { Seq::empty() }
}

/// The value of a computed field of a join table for the row `row`.
pub open spec fn computed_value(source: SyncSource, cf: TriggerComputedField, row: Seq<char>) -> Seq<char> {
    match cf.value {
        Some(v) => substituted(v@, row),
        None => column_ref(row, text_or(source.value_field, "id"@)),
    }
}

/// The statement that emits the `op` of a computed field of a join table for the row `row`.
pub open spec fn computed_block(
    source: SyncSource,
    cf: TriggerComputedField,
    row: Seq<char>,
    op: Seq<char>,
) -> Seq<char> {
    "    IF "@ + substituted(cf.expression@, row)
        + " THEN\n      INSERT INTO \"BitdexOps\" (entity_id, ops)\n      VALUES ("@ + column_ref(
        row,
        text_or(source.slot_field, "imageId"@),
    ) + ", jsonb_build_array(\n        "@ + op_object(op, cf.target@, computed_value(source, cf, row))
        + "\n      ));\n    END IF;\n"@
}

/// The statements for the first `n` computed fields of a join table.
pub open spec fn computed_blocks(source: SyncSource, n: int, row: Seq<char>, op: Seq<char>) -> Seq<char>
    decreases n,
{
    if n <= 0 {
        Seq::empty()
    } else {
        computed_blocks(source, n - 1, row, op) + computed_block(source, source.computed_list()[n - 1], row, op)
    }
}

fn computed_block_text(source: &SyncSource, cf: &TriggerComputedField, row: &str, op: &str) -> (r: String)
    ensures
        r@ == computed_block(*source, *cf, row@, op@),
{
    let condition = substitute_columns(cf.expression.as_str(), row);
    let slot = text_or_default(&source.slot_field, "imageId");
    let slot_ref = column_reference(row, slot.as_str());
    let value = match &cf.value {
        Some(v) => substitute_columns(v.as_str(), row),
        None => {
            let column = text_or_default(&source.value_field, "id");
            column_reference(row, column.as_str())
        },
    };
    let object = op_object_text(op, cf.target.as_str(), value.as_str());
    "    IF ".to_owned().concat(condition.as_str()).concat(
        " THEN\n      INSERT INTO \"BitdexOps\" (entity_id, ops)\n      VALUES (",
    ).concat(slot_ref.as_str()).concat(", jsonb_build_array(\n        ").concat(object.as_str()).concat(
        "\n      ));\n    END IF;\n",
    )
}

fn computed_blocks_text(source: &SyncSource, row: &str, op: &str) -> (r: String)
    ensures
        r@ == computed_blocks(*source, source.computed_list().len() as int, row@, op@),
{
    let mut r = String::new();
    match &source.computed_fields {
        Some(list) => {
            let mut i: usize = 0;
            while i < list.len()
                invariant
                    i <= list@.len(),
                    source.computed_fields == Some(*list),
                    r@ == computed_blocks(*source, i as int, row@, op@),
                decreases list@.len() - i,
            {
                let block = computed_block_text(source, &list[i], row, op);
                r.append(block.as_str());
                i = i + 1;
            }
        },
        None => {},
    }
    r
}

/// The statement that emits the op of a join row.
pub open spec fn join_op(source: SyncSource, field: Seq<char>, row: Seq<char>, op: Seq<char>) -> Seq<char> {
    "    INSERT INTO \"BitdexOps\" (entity_id, ops)\n    VALUES ("@ + column_ref(
        row,
        text_or(source.slot_field, "imageId"@),
    ) + ", jsonb_build_array(\n      "@ + op_object(
        op,
        field,
        column_ref(row, text_or(source.value_field, "id"@)),
    ) + "\n    ));\n"@
}

fn join_op_text(source: &SyncSource, field: &str, row: &str, op: &str) -> (r: String)
    ensures
        r@ == join_op(*source, field@, row@, op@),
{
    let slot = text_or_default(&source.slot_field, "imageId");
    let slot_ref = column_reference(row, slot.as_str());
    let value = text_or_default(&source.value_field, "id");
    let value_ref = column_reference(row, value.as_str());
    let object = op_object_text(op, field, value_ref.as_str());
    "    INSERT INTO \"BitdexOps\" (entity_id, ops)\n    VALUES (".to_owned().concat(slot_ref.as_str()).concat(
        ", jsonb_build_array(\n      ",
    ).concat(object.as_str()).concat("\n    ));\n")
}

/// The function body of a multi-value join table.
pub open spec fn multi_value_body(source: SyncSource, field: Seq<char>) -> Seq<char> {
    let n = source.computed_list().len() as int;
    "BEGIN\n  IF TG_OP = 'INSERT' THEN\n"@ + filter_open(source, "NEW"@) + join_op(source, field, "NEW"@, "add"@)
        + filter_close(source) + computed_blocks(source, n, "NEW"@, "add"@)
        + "    RETURN NEW;\n  ELSIF TG_OP = 'DELETE' THEN\n"@ + filter_open(source, "OLD"@) + join_op(
        source,
        field,
        "OLD"@,
        "remove"@,
    ) + filter_close(source) + computed_blocks(source, n, "OLD"@, "remove"@)
        + "    RETURN OLD;\n  END IF;\n  RETURN COALESCE(NEW, OLD);\nEND;"@
}

/// Generates the body for multi-value join tables.
///
/// Such tables only have INSERT and DELETE: INSERT emits an `add` op, DELETE a `remove` op.
pub fn generate_multi_value_body(source: &SyncSource, field: &str) -> (r: String)
    ensures
        r@ == multi_value_body(*source, field@),
{
    let insert_filter = filter_open_text(source, "NEW");
    let delete_filter = filter_open_text(source, "OLD");
    let close = if source.filter.is_some() { "    END IF;\n".to_owned() } else { String::new() };
    let added = join_op_text(source, field, "NEW", "add");
    let removed = join_op_text(source, field, "OLD", "remove");
    let insert_computed = computed_blocks_text(source, "NEW", "add");
    let delete_computed = computed_blocks_text(source, "OLD", "remove");
    "BEGIN\n  IF TG_OP = 'INSERT' THEN\n".to_owned().concat(insert_filter.as_str()).concat(added.as_str()).concat(
        close.as_str(),
    ).concat(insert_computed.as_str()).concat("    RETURN NEW;\n  ELSIF TG_OP = 'DELETE' THEN\n").concat(
        delete_filter.as_str(),
    ).concat(removed.as_str()).concat(close.as_str()).concat(delete_computed.as_str()).concat(
        "    RETURN OLD;\n  END IF;\n  RETURN COALESCE(NEW, OLD);\nEND;",
    )
}

/// The USING clause of the parameters `params`.
pub open spec fn using_clause(params: Seq<Seq<char>>) -> Seq<char> {
    if params.len() == 0 { Seq::empty() } else { " USING "@ + join(params, ", "@) }
}

/// The statements that build the query of a fan-out source from the new row.
pub open spec fn query_block(source: SyncSource) -> Seq<char> {
    let template = text_or(source.query, ""@);
    match source.expression {
        Some(e) => {
            "    EXECUTE '"@ + replace_char(parameterised(pieces(e@), "NEW"@), '\'', "''"@)
                + "' INTO _source_result"@ + using_clause(parameters(pieces(e@), "NEW"@)) + ";\n    _query := '"@
                + replace_text(template, "{ids}"@, "' || _source_result::text || '"@) + "';\n"@
        },
        None => match source.query_source {
            Some(q) => {
                "    EXECUTE format('SELECT ("@ + replace_char(substituted(q@, "NEW"@), '\'', "''"@)
                    + ")') INTO _source_result;\n    _query := "@ + concatenation(template, "NEW"@) + ";\n"@
            },
            None => "    _query := "@ + concatenation(template, "NEW"@) + ";\n"@,
        },
    }
}

fn query_block_text(source: &SyncSource) -> (r: String)
    ensures
        r@ == query_block(*source),
{
    let template = text_or_default(&source.query, "");
    match &source.expression {
        Some(e) => {
            let (sql, params) = build_execute_with_params(e.as_str(), "NEW");
            let escaped = replace_char_text(sql.as_str(), '\'', "''");
            let using = if params.len() == 0 {
                String::new()
            } else {
                let list = join_texts(&params, ", ");
                " USING ".to_owned().concat(list.as_str())
            };
            proof {
                reveal_strlit("{ids}");
            }
            let query = replace_all(template.as_str(), "{ids}", "' || _source_result::text || '");
            "    EXECUTE '".to_owned().concat(escaped.as_str()).concat("' INTO _source_result").concat(
                using.as_str(),
            ).concat(";\n    _query := '").concat(query.as_str()).concat("';\n")
        },
        None => {
            let query = build_query_concatenation(template.as_str(), "NEW");
            match &source.query_source {
                Some(q) => {
                    let sql = substitute_columns(q.as_str(), "NEW");
                    let escaped = replace_char_text(sql.as_str(), '\'', "''");
                    "    EXECUTE format('SELECT (".to_owned().concat(escaped.as_str()).concat(
                        ")') INTO _source_result;\n    _query := ",
                    ).concat(query.as_str()).concat(";\n")
                },
                None => "    _query := ".to_owned().concat(query.as_str()).concat(";\n"),
            }
        },
    }
}

/// The function body of a query-resolved fan-out table.
pub open spec fn fan_out_body(source: SyncSource) -> Seq<char> {
    "DECLARE\n  _ops jsonb;\n  _query text;\n"@ + (if source.query_source is Some || source.expression is Some {
        "  _source_result jsonb;\n"@
    } else {
        Seq::empty()
    }) + "BEGIN\n  IF TG_OP = 'INSERT' THEN\n"@ + query_block(source) + "    _ops := jsonb_build_array(\n"@ + join(
        insert_ops(source.track_list(), Seq::empty()),
        ",\n"@,
    )
        + "\n    );\n    INSERT INTO \"BitdexOps\" (entity_id, ops) VALUES (NEW.id, jsonb_build_array(\n        jsonb_build_object('op', 'queryOpSet', 'query', _query, 'ops', _ops)\n      ));\n    RETURN NEW;\n  ELSIF TG_OP = 'UPDATE' THEN\n"@
        + query_block(source) + "    _ops := '[]'::jsonb;\n"@ + change_blocks(Guard::Never, source.track_list())
        + "    IF jsonb_array_length(_ops) > 0 THEN\n      INSERT INTO \"BitdexOps\" (entity_id, ops) VALUES (NEW.id, jsonb_build_array(\n        jsonb_build_object('op', 'queryOpSet', 'query', _query, 'ops', _ops)\n      ));\n    END IF;\n    RETURN NEW;\n  END IF;\n  RETURN COALESCE(NEW, OLD);\nEND;"@
}

/// Generates the body for query-resolved fan-out tables.
pub fn generate_fan_out_body(source: &SyncSource) -> (r: String)
    ensures
        r@ == fan_out_body(*source),
{
    let result_variable = if source.query_source.is_some() || source.expression.is_some() {
        "  _source_result jsonb;\n".to_owned()
    } else {
        String::new()
    };
    let query = query_block_text(source);
    let tracks = source.track_templates();
    let none: Vec<String> = Vec::new();
    let mut ops: Vec<String> = Vec::new();
    assert(views(none@) =~= Seq::<Seq<char>>::empty());
    push_insert_ops(&mut ops, &tracks, &none);
    assert(views(ops@) =~= insert_ops(source.track_list(), Seq::empty()));
    let joined = join_texts(&ops, ",\n");
    let changes = change_blocks_text(Guard::Never, &tracks);
    "DECLARE\n  _ops jsonb;\n  _query text;\n".to_owned().concat(result_variable.as_str()).concat(
        "BEGIN\n  IF TG_OP = 'INSERT' THEN\n",
    ).concat(query.as_str()).concat("    _ops := jsonb_build_array(\n").concat(joined.as_str()).concat(
        "\n    );\n    INSERT INTO \"BitdexOps\" (entity_id, ops) VALUES (NEW.id, jsonb_build_array(\n        jsonb_build_object('op', 'queryOpSet', 'query', _query, 'ops', _ops)\n      ));\n    RETURN NEW;\n  ELSIF TG_OP = 'UPDATE' THEN\n",
    ).concat(query.as_str()).concat("    _ops := '[]'::jsonb;\n").concat(changes.as_str()).concat(
        "    IF jsonb_array_length(_ops) > 0 THEN\n      INSERT INTO \"BitdexOps\" (entity_id, ops) VALUES (NEW.id, jsonb_build_array(\n        jsonb_build_object('op', 'queryOpSet', 'query', _query, 'ops', _ops)\n      ));\n    END IF;\n    RETURN NEW;\n  END IF;\n  RETURN COALESCE(NEW, OLD);\nEND;",
    )
}

/// One element of the payload of a per-row fan-out.
pub open spec fn payload_element(field: Seq<char>, parent: Seq<char>, value: Seq<char>) -> Seq<char> {
    if field == "publishedAt"@ {
        "    CASE WHEN "@ + column_ref(parent, field) + " IS NULL OR "@ + column_ref(parent, field)
            + " > now()\n      THEN "@ + op_object("remove"@, field, value) + "\n      ELSE "@ + op_object(
            "set"@,
            field,
            value,
        ) + "\n    END"@
    } else {
        "    "@ + op_object("set"@, field, value)
    }
}

/// Builds a single op element for a fan-out `set` payload.
///
/// For most fields this is an unconditional `set`. For [`FUTURE_GUARDED_FIELD`] it is a
/// `CASE` that emits a `remove` when the parent's value is NULL or in the future.
pub fn fan_out_set_op_element(field_name: &str, parent_row: &str, value_expr: &str) -> (r: String)
    ensures
        r@ == payload_element(field_name@, parent_row@, value_expr@),
{
    let set = op_object_text("set", field_name, value_expr);
    if text_eq(field_name, FUTURE_GUARDED_FIELD) {
        let column = column_reference(parent_row, field_name);
        let remove = op_object_text("remove", field_name, value_expr);
        "    CASE WHEN ".to_owned().concat(column.as_str()).concat(" IS NULL OR ").concat(column.as_str()).concat(
            " > now()\n      THEN ",
        ).concat(remove.as_str()).concat("\n      ELSE ").concat(set.as_str()).concat("\n    END")
    } else {
        "    ".to_owned().concat(set.as_str())
    }
}

/// The payload elements for `list`, read from the row `parent`.
pub open spec fn payload(list: Seq<FieldText>, parent: Seq<char>) -> Seq<Seq<char>> {
    Seq::new(
        list.len(),
        |i: int| payload_element(list[i].name, parent, substituted(list[i].template, parent)),
    )
}

/// The definition of the shared op function of a per-row fan-out.
pub open spec fn fan_out_ops_function(source: SyncSource) -> Seq<char> {
    "CREATE OR REPLACE FUNCTION "@ + fan_out_function(source.table@) + "(_p \""@ + source.table@
        + "\") RETURNS jsonb AS $$\n  SELECT jsonb_build_array(\n"@ + join(payload(source.track_list(), "_p"@), ",\n"@)
        + "\n  );\n$$ LANGUAGE sql STABLE;\n"@
}

/// Generates the shared op function of a `fan_out_per_row` source, the single builder of
/// the per-row payload.
pub fn generate_fan_out_ops_function_sql(source: &SyncSource, rows: &RowsFrom) -> (r: String)
    ensures
        r@ == fan_out_ops_function(*source),
{
    let name = fan_out_ops_function_name(source);
    let tracks = source.track_templates();
    let ghost list = source.track_list();
    let mut ops: Vec<String> = Vec::new();
    let mut i: usize = 0;
    while i < tracks.len()
        invariant
            i <= tracks@.len(),
            template_views(tracks@) == list,
            views(ops@) == payload(list, "_p"@).take(i as int),
        decreases tracks@.len() - i,
    {
        assert(list[i as int] == tracks@[i as int]@);
        let value = substitute_columns(tracks[i].template.as_str(), "_p");
        let element = fan_out_set_op_element(tracks[i].name.as_str(), "_p", value.as_str());
        let ghost before = views(ops@);
        let ghost text = element@;
        ops.push(element);
        assert(views(ops@) =~= before.push(text));
        assert(payload(list, "_p"@).take(i + 1) =~= payload(list, "_p"@).take(i as int).push(text));
        i = i + 1;
    }
    assert(views(ops@) =~= payload(list, "_p"@));
    let joined = join_texts(&ops, ",\n");
    "CREATE OR REPLACE FUNCTION ".to_owned().concat(name.as_str()).concat("(_p \"").concat(source.table.as_str()).concat(
        "\") RETURNS jsonb AS $$\n  SELECT jsonb_build_array(\n",
    ).concat(joined.as_str()).concat("\n  );\n$$ LANGUAGE sql STABLE;\n")
}

/// The template of the first of `list` with the name `name`.
pub open spec fn first_template(list: Seq<FieldText>, name: Seq<char>) -> Option<Seq<char>>
    decreases list.len(),
{
    if list.len() == 0 {
        None
    } else if list[0].name == name {
        Some(list[0].template)
    } else {
        first_template(list.skip(1), name)
    }
}

fn find_template(list: &Vec<FieldTemplate>, name: &str) -> (r: Option<String>)
    ensures
        opt_view(r) == first_template(template_views(list@), name@),
{
    let mut i: usize = 0;
    let ghost all = template_views(list@);
    assert(all.skip(0) =~= all);
    while i < list.len()
        invariant
            i <= list@.len(),
            all == template_views(list@),
            first_template(all, name@) == first_template(all.skip(i as int), name@),
        decreases list@.len() - i,
    {
        assert(all.skip(i as int)[0] == list@[i as int]@);
        if text_eq(list[i].name.as_str(), name) {
            return Some(list[i].template.clone());
        }
        assert(all.skip(i as int).skip(1) =~= all.skip(i + 1));
        i = i + 1;
    }
    None
}

/// The value template that a shared field resolves to: that of a tracking entry, else that
/// of a computed field.
pub open spec fn shared_template(source: SyncSource, target: Seq<char>) -> Option<Seq<char>> {
    match first_template(source.track_list(), target) {
        Some(t) => Some(t),
        None => first_template(source.computed(), target),
    }
}

/// The definition of the shared op function of one field with the value template `template`.
pub open spec fn field_ops_function(table: Seq<char>, target: Seq<char>, template: Seq<char>) -> Seq<char> {
    "CREATE OR REPLACE FUNCTION "@ + field_function(table, target) + "(_i \""@ + table
        + "\") RETURNS jsonb AS $$\n  SELECT jsonb_build_array(\n    "@ + op_object(
        "set"@,
        target,
        substituted(template, "_i"@),
    ) + "\n  );\n$$ LANGUAGE sql STABLE;\n"@
}

/// What is said of a shared field that the source does not know.
pub open spec fn unknown_shared(table: Seq<char>, target: Seq<char>) -> Seq<char> {
    "sync source \""@ + table + "\": shared_ops_fields entry \""@ + target
        + "\" not found in track_fields or computed_fields"@
}

/// Generates the shared op function of one field, the single builder of its op. A field
/// that is neither followed nor computed is an error.
pub fn generate_shared_field_ops_function_sql(source: &SyncSource, target_field: &str) -> (r: Result<String, String>)
    ensures
        match r {
            Ok(sql) => shared_template(*source, target_field@) is Some && sql@ == field_ops_function(
                source.table@,
                target_field@,
                shared_template(*source, target_field@)->0,
            ),
            Err(e) => shared_template(*source, target_field@) is None && e@ == unknown_shared(
                source.table@,
                target_field@,
            ),
        },
{
    let tracks = source.track_templates();
    let computed = source.computed_templates();
    let found = match find_template(&tracks, target_field) {
        Some(t) => Some(t),
        None => find_template(&computed, target_field),
    };
    match found {
        Some(template) => {
            let value = substitute_columns(template.as_str(), "_i");
            let name = shared_field_ops_function_name(source.table.as_str(), target_field);
            let object = op_object_text("set", target_field, value.as_str());
            Ok(
                "CREATE OR REPLACE FUNCTION ".to_owned().concat(name.as_str()).concat("(_i \"").concat(
                    source.table.as_str(),
                ).concat("\") RETURNS jsonb AS $$\n  SELECT jsonb_build_array(\n    ").concat(object.as_str()).concat(
                    "\n  );\n$$ LANGUAGE sql STABLE;\n",
                ),
            )
        },
        None => Err(
            "sync source \"".to_owned().concat(source.table.as_str()).concat("\": shared_ops_fields entry \"").concat(
                target_field,
            ).concat("\" not found in track_fields or computed_fields"),
        ),
    }
}

/// The enumeration of the child rows.
pub open spec fn child_rows(rows: RowsFrom) -> Seq<char> {
    "SELECT c.\""@ + rows.slot@ + "\", _ops FROM \""@ + rows.table@ + "\" c WHERE c.\""@ + rows.fk@ + "\" = NEW.\""@
        + rows.parent_key@ + "\""@
}

/// The function body of a per-row fan-out table.
pub open spec fn fan_out_per_row_body(source: SyncSource, rows: RowsFrom) -> Seq<char> {
    "DECLARE\n  _ops jsonb;\nBEGIN\n  IF TG_OP = 'INSERT' THEN\n    _ops := "@ + fan_out_function(source.table@)
        + "(NEW);\n    INSERT INTO \"BitdexOps\" (entity_id, ops)\n      "@ + child_rows(rows)
        + ";\n    RETURN NEW;\n  ELSIF TG_OP = 'UPDATE' THEN\n    _ops := '[]'::jsonb;\n"@ + change_blocks(
        Guard::Timestamp,
        source.track_list(),
    )
        + "    IF jsonb_array_length(_ops) > 0 THEN\n      INSERT INTO \"BitdexOps\" (entity_id, ops)\n        "@
        + child_rows(rows) + ";\n    END IF;\n    RETURN NEW;\n  END IF;\n  RETURN COALESCE(NEW, OLD);\nEND;"@
}

/// Generates the body for per-row fan-out tables.
///
/// INSERT emits the payload of the shared op function for each child row. UPDATE emits
/// remove/set pairs for the fields of the parent row that changed, the new side last.
pub fn generate_fan_out_per_row_body(source: &SyncSource, rows: &RowsFrom) -> (r: String)
    ensures
        r@ == fan_out_per_row_body(*source, *rows),
{
    let enumeration = "SELECT c.\"".to_owned().concat(rows.slot.as_str()).concat("\", _ops FROM \"").concat(
        rows.table.as_str(),
    ).concat("\" c WHERE c.\"").concat(rows.fk.as_str()).concat("\" = NEW.\"").concat(
        rows.parent_key.as_str(),
    ).concat("\"");
    let function = fan_out_ops_function_name(source);
    let tracks = source.track_templates();
    let changes = change_blocks_text(Guard::Timestamp, &tracks);
    "DECLARE\n  _ops jsonb;\nBEGIN\n  IF TG_OP = 'INSERT' THEN\n    _ops := ".to_owned().concat(
        function.as_str(),
    ).concat("(NEW);\n    INSERT INTO \"BitdexOps\" (entity_id, ops)\n      ").concat(enumeration.as_str()).concat(
        ";\n    RETURN NEW;\n  ELSIF TG_OP = 'UPDATE' THEN\n    _ops := '[]'::jsonb;\n",
    ).concat(changes.as_str()).concat(
        "    IF jsonb_array_length(_ops) > 0 THEN\n      INSERT INTO \"BitdexOps\" (entity_id, ops)\n        ",
    ).concat(enumeration.as_str()).concat(
        ";\n    END IF;\n    RETURN NEW;\n  END IF;\n  RETURN COALESCE(NEW, OLD);\nEND;",
    )
}

/// The function body of a source. A join field comes first, then child rows, then a query;
/// a source with none of them is a direct table.
pub open spec fn trigger_body(source: SyncSource) -> Seq<char> {
    match source.field {
        Some(f) => multi_value_body(source, f@),
        None => match source.rows_from {
            Some(rows) => fan_out_per_row_body(source, rows),
            None => if source.query is Some { fan_out_body(source) } else { direct_body(source) },
        },
    }
}

/// Generates the PL/pgSQL function body for a sync source.
pub fn generate_trigger_body(source: &SyncSource) -> (r: String)
    ensures
        r@ == trigger_body(*source),
{
    match &source.field {
        Some(field) => generate_multi_value_body(source, field.as_str()),
        None => match &source.rows_from {
            Some(rows) => generate_fan_out_per_row_body(source, rows),
            None => {
                if source.query.is_some() {
                    generate_fan_out_body(source)
                } else {
                    generate_direct_body(source)
                }
            },
        },
    }
}

/// The name that a source's trigger and trigger function go by.
pub open spec fn hashed_name(source: SyncSource) -> Seq<char> {
    "bitdex_"@ + lowercase(source.table@) + "_"@ + short_hash_of(trigger_body(source))
}

fn hashed_name_text(source: &SyncSource) -> (r: String)
    ensures
        r@ == hashed_name(*source),
{
    let body = generate_trigger_body(source);
    let hash = short_hash(body.as_str());
    let table = to_lower(source.table.as_str());
    "bitdex_".to_owned().concat(table.as_str()).concat("_").concat(hash.as_str())
}

/// Generates the trigger function name with the hash of the body for reconciliation.
/// Format: `bitdex_{table}_{hash8}`.
pub fn trigger_function_name(source: &SyncSource) -> (r: String)
    ensures
        r@ == hashed_name(*source),
{
    hashed_name_text(source)
}

/// Generates the trigger name.
pub fn trigger_name(source: &SyncSource) -> (r: String)
    ensures
        r@ == hashed_name(*source),
{
    hashed_name_text(source)
}

impl SyncSource {
    /// Whether the trigger fires on DELETE.
    pub open spec fn fires_on_delete(self) -> bool {
        self.field is Some || self.deletes()
    }

    /// Whether the trigger fires on UPDATE. The rows of a join table are never updated.
    pub open spec fn fires_on_update(self) -> bool {
        self.field is None
    }
}

/// The firing events, as the `AFTER` clause.
pub open spec fn events_clause(source: SyncSource) -> Seq<char> {
    if !source.fires_on_update() {
        "AFTER INSERT OR DELETE"@
    } else if source.fires_on_delete() {
        "AFTER INSERT OR UPDATE OR DELETE"@
    } else {
        "AFTER INSERT OR UPDATE"@
    }
}

/// The firing events, as the bits of `pg_trigger.tgtype`: row 1, insert 4, delete 8, update 16.
pub open spec fn events_mask(source: SyncSource) -> int {
    1 + 4 + (if source.fires_on_delete() { 8int } else { 0 }) + (if source.fires_on_update() { 16int } else { 0 })
}

/// The trigger's firing events, as the `AFTER ...` clause text.
///
/// Paired with [`trigger_type_mask`], which describes the same events as bits.
pub fn trigger_events(source: &SyncSource) -> (r: &'static str)
    ensures
        r@ == events_clause(*source),
{
    if source.field.is_some() {
        "AFTER INSERT OR DELETE"
    } else if source.has_delete() {
        "AFTER INSERT OR UPDATE OR DELETE"
    } else {
        "AFTER INSERT OR UPDATE"
    }
}

/// The same events as [`trigger_events`], encoded as `pg_trigger.tgtype`. Every trigger is
/// `AFTER ... FOR EACH ROW`, so the BEFORE bit is never set and the ROW bit always is.
pub fn trigger_type_mask(source: &SyncSource) -> (r: i16)
    ensures
        r == events_mask(*source),
{
    let row: i16 = 1;
    let insert: i16 = 4;
    let delete: i16 = 8;
    let update: i16 = 16;
    if source.field.is_some() {
        row + insert + delete
    } else if source.has_delete() {
        row + insert + update + delete
    } else {
        row + insert + update
    }
}

/// The definitions of the op functions of the shared fields `names`.
pub open spec fn shared_functions(source: SyncSource, names: Seq<Seq<char>>) -> Seq<char>
    decreases names.len(),
{
    if names.len() == 0 {
        Seq::empty()
    } else {
        shared_functions(source, names.drop_last()) + field_ops_function(
            source.table@,
            names.last(),
            shared_template(source, names.last())->0,
        ) + "\n"@
    }
}

/// Whether every shared field of the source resolves.
pub open spec fn shared_resolve(source: SyncSource) -> bool {
    forall|i: int| 0 <= i < source.shared().len() ==> shared_template(source, #[trigger] source.shared()[i]) is Some
}

/// The definition of the shared op function of a per-row fan-out, where the source is one.
pub open spec fn rows_function(source: SyncSource) -> Seq<char> {
    if source.rows_from is Some { fan_out_ops_function(source) + "\n"@ } else { Seq::empty() }
}

/// The function definitions that a trigger depends on.
pub open spec fn trigger_functions(source: SyncSource) -> Seq<char> {
    rows_function(source) + shared_functions(source, source.shared()) + "CREATE OR REPLACE FUNCTION "@ + hashed_name(
        source,
    ) + "() RETURNS trigger AS $$\n"@ + trigger_body(source) + "\n$$ LANGUAGE plpgsql;\n"@
}

/// The DDL that installs the trigger.
pub open spec fn trigger_ddl(source: SyncSource) -> Seq<char> {
    let name = hashed_name(source);
    "DROP TRIGGER IF EXISTS "@ + name + " ON \""@ + source.table@ + "\";\nCREATE TRIGGER "@ + name + " "@
        + events_clause(source) + " ON \""@ + source.table@ + "\"\n  FOR EACH ROW EXECUTE FUNCTION "@ + name
        + "();\nALTER TABLE \""@ + source.table@ + "\" ENABLE ALWAYS TRIGGER "@ + name + ";\n"@
}

/// Generates the function definitions that a trigger depends on: the shared op functions
/// and the trigger function itself. These lock no table, so they are safe on every boot.
pub fn generate_trigger_functions_sql(source: &SyncSource) -> (r: String)
    requires
        shared_resolve(*source),
    ensures
        r@ == trigger_functions(*source),
{
    let name = trigger_function_name(source);
    let body = generate_trigger_body(source);
    let rows_part = match &source.rows_from {
        Some(rows) => {
            let sql = generate_fan_out_ops_function_sql(source, rows);
            sql.concat("\n")
        },
        None => String::new(),
    };
    let names = source.shared_names();
    let mut shared = String::new();
    let mut i: usize = 0;
    let ghost all = source.shared();
    assert(all.take(0) =~= Seq::<Seq<char>>::empty());
    while i < names.len()
        invariant
            i <= names@.len(),
            all == views(names@),
            all == source.shared(),
            shared_resolve(*source),
            shared@ == shared_functions(*source, all.take(i as int)),
        decreases names@.len() - i,
    {
        assert(all.take(i + 1).drop_last() =~= all.take(i as int));
        assert(source.shared()[i as int] == names@[i as int]@);
        match generate_shared_field_ops_function_sql(source, names[i].as_str()) {
            Ok(sql) => {
                shared.append(sql.as_str());
                shared.append("\n");
            },
            Err(_e) => {
                assert(false);
            },
        }
        i = i + 1;
    }
    assert(all.take(all.len() as int) =~= all);
    rows_part.concat(shared.as_str()).concat("CREATE OR REPLACE FUNCTION ").concat(name.as_str()).concat(
        "() RETURNS trigger AS $$\n",
    ).concat(body.as_str()).concat("\n$$ LANGUAGE plpgsql;\n")
}

/// Generates the trigger DDL alone: drop, create, and mark ENABLE ALWAYS. Every statement
/// of it locks the source table.
pub fn generate_trigger_ddl_sql(source: &SyncSource) -> (r: String)
    ensures
        r@ == trigger_ddl(*source),
{
    let name = trigger_name(source);
    let function = trigger_function_name(source);
    let events = trigger_events(source);
    "DROP TRIGGER IF EXISTS ".to_owned().concat(name.as_str()).concat(" ON \"").concat(source.table.as_str()).concat(
        "\";\nCREATE TRIGGER ",
    ).concat(name.as_str()).concat(" ").concat(events).concat(" ON \"").concat(source.table.as_str()).concat(
        "\"\n  FOR EACH ROW EXECUTE FUNCTION ",
    ).concat(function.as_str()).concat("();\nALTER TABLE \"").concat(source.table.as_str()).concat(
        "\" ENABLE ALWAYS TRIGGER ",
    ).concat(name.as_str()).concat(";\n")
}

/// Generates the full SQL of a sync source: the functions, then the trigger DDL.
pub fn generate_trigger_sql(source: &SyncSource) -> (r: String)
    requires
        shared_resolve(*source),
    ensures
        r@ == trigger_functions(*source) + "\n"@ + trigger_ddl(*source),
{
    let functions = generate_trigger_functions_sql(source);
    let ddl = generate_trigger_ddl_sql(source);
    functions.concat("\n").concat(ddl.as_str())
}

/// The first of the shared fields `names` that does not resolve.
pub open spec fn first_unresolved(source: SyncSource, names: Seq<Seq<char>>) -> Option<Seq<char>>
    decreases names.len(),
{
    if names.len() == 0 {
        None
    } else if shared_template(source, names[0]) is None {
        Some(names[0])
    } else {
        first_unresolved(source, names.skip(1))
    }
}

/// The `Debug` form of an optional text.
pub open spec fn debug_option(o: Option<String>) -> Seq<char> {
    match o {
        Some(s) => "Some("@ + debug_form(s@) + ")"@,
        None => "None"@,
    }
}

/// What is wrong with a source, if anything.
pub open spec fn source_error(source: SyncSource) -> Option<Seq<char>> {
    let per_row = source.table_type is Some && source.table_type->0@ == "fan_out_per_row"@;
    let head = "sync source \""@ + source.table@;
    if per_row && source.rows_from is None {
        Some(head + "\": type: fan_out_per_row requires `rows_from`"@)
    } else if source.rows_from is Some && !per_row {
        Some(
            head + "\": `rows_from` is set but type is not fan_out_per_row (got "@ + debug_option(source.table_type)
                + ") — set `type: fan_out_per_row` explicitly"@,
        )
    } else if source.rows_from is Some && trim(source.rows_from->0.table@).len() == 0 {
        Some(head + "\": rows_from.table must not be empty"@)
    } else if source.rows_from is Some && trim(source.rows_from->0.fk@).len() == 0 {
        Some(head + "\": rows_from.fk must not be empty"@)
    } else if source.rows_from is Some && source.field is Some {
        Some(
            head
                + "\": `rows_from` cannot be combined with `field` (multi-value join dispatch takes priority and would silently ignore rows_from)"@,
        )
    } else if source.rows_from is Some && source.query is Some {
        Some(
            head
                + "\": `rows_from` cannot be combined with `query` — pick one fan-out mechanism (fan_out_per_row via rows_from, or fan_out via query)"@,
        )
    } else {
        match first_unresolved(source, source.shared()) {
            Some(name) => Some(unknown_shared(source.table@, name)),
            None => None,
        }
    }
}

impl SyncSource {
    /// Structural validation of combinations that [`generate_trigger_body`] would resolve in
    /// silence: a source with child rows and a join field or a query would lose its child rows.
    pub fn validate(&self) -> (r: Result<(), String>)
        ensures
            match r {
                Ok(()) => source_error(*self) is None,
                Err(e) => source_error(*self) == Some(e@),
            },
    {
        let per_row = match &self.table_type {
            Some(t) => text_eq(t.as_str(), "fan_out_per_row"),
            None => false,
        };
        let head = "sync source \"".to_owned().concat(self.table.as_str());
        match &self.rows_from {
            None => {
                if per_row {
                    return Err(head.concat("\": type: fan_out_per_row requires `rows_from`"));
                }
            },
            Some(rows) => {
                if !per_row {
                    let got = match &self.table_type {
                        Some(t) => {
                            let form = debug_text(t.as_str());
                            "Some(".to_owned().concat(form.as_str()).concat(")")
                        },
                        None => "None".to_owned(),
                    };
                    return Err(
                        head.concat("\": `rows_from` is set but type is not fan_out_per_row (got ").concat(
                            got.as_str(),
                        ).concat(") — set `type: fan_out_per_row` explicitly"),
                    );
                }
                let table = trim_text(rows.table.as_str());
                if table.as_str().is_empty() {
                    return Err(head.concat("\": rows_from.table must not be empty"));
                }
                let fk = trim_text(rows.fk.as_str());
                if fk.as_str().is_empty() {
                    return Err(head.concat("\": rows_from.fk must not be empty"));
                }
                if self.field.is_some() {
                    return Err(
                        head.concat(
                            "\": `rows_from` cannot be combined with `field` (multi-value join dispatch takes priority and would silently ignore rows_from)",
                        ),
                    );
                }
                if self.query.is_some() {
                    return Err(
                        head.concat(
                            "\": `rows_from` cannot be combined with `query` — pick one fan-out mechanism (fan_out_per_row via rows_from, or fan_out via query)",
                        ),
                    );
                }
            },
        }
        let names = self.shared_names();
        let ghost all = self.shared();
        let mut i: usize = 0;
        assert(all.skip(0) =~= all);
        while i < names.len()
            invariant
                i <= names@.len(),
                all == views(names@),
                all == self.shared(),
                first_unresolved(*self, all) == first_unresolved(*self, all.skip(i as int)),
                source_error(*self) == match first_unresolved(*self, all) {
                    Some(name) => Some(unknown_shared(self.table@, name)),
                    None => None,
                },
            decreases names@.len() - i,
        {
            assert(all.skip(i as int)[0] == names@[i as int]@);
            match generate_shared_field_ops_function_sql(self, names[i].as_str()) {
                Ok(_sql) => {},
                Err(e) => {
                    return Err(e);
                },
            }
            assert(all.skip(i as int).skip(1) =~= all.skip(i + 1));
            i = i + 1;
        }
        Ok(())
    }
}

/// The error of the first of `sources` that has one.
pub open spec fn first_source_error(sources: Seq<SyncSource>) -> Option<Seq<char>>
    decreases sources.len(),
{
    if sources.len() == 0 {
        None
    } else if source_error(sources[0]) is Some {
        source_error(sources[0])
    } else {
        first_source_error(sources.skip(1))
    }
}

impl SyncConfig {
    /// A config of `sources`, each of which is validated; the first that is structurally
    /// invalid is the error.
    pub fn from_sources(sources: Vec<SyncSource>) -> (r: Result<SyncConfig, String>)
        ensures
            match r {
                Ok(config) => first_source_error(sources@) is None && config.sync_sources@ == sources@,
                Err(e) => first_source_error(sources@) == Some(e@),
            },
    {
        let mut i: usize = 0;
        assert(sources@.skip(0) =~= sources@);
        while i < sources.len()
            invariant
                i <= sources@.len(),
                first_source_error(sources@) == first_source_error(sources@.skip(i as int)),
            decreases sources@.len() - i,
        {
            assert(sources@.skip(i as int)[0] == sources@[i as int]);
            match sources[i].validate() {
                Ok(()) => {},
                Err(e) => {
                    return Err(e);
                },
            }
            assert(sources@.skip(i as int).skip(1) =~= sources@.skip(i + 1));
            i = i + 1;
        }
        Ok(SyncConfig { sync_sources: sources })
    }
}

/// The events clause and the mask are two encodings of one fact: two sources have the same
/// clause exactly where they have the same mask, and the mask has the bits of the events.
pub proof fn law_mask_agrees_with_events_clause(a: SyncSource, b: SyncSource)
    ensures
        (events_clause(a) == events_clause(b)) <==> (events_mask(a) == events_mask(b)),
        events_mask(a) % 2 == 1,
        events_mask(a) / 2 % 2 == 0,
        events_mask(a) / 4 % 2 == 1,
        (events_mask(a) / 8 % 2 == 1) <==> a.fires_on_delete(),
        (events_mask(a) / 16 % 2 == 1) <==> a.fires_on_update(),
{
    reveal_strlit("AFTER INSERT OR DELETE");
    reveal_strlit("AFTER INSERT OR UPDATE OR DELETE");
    reveal_strlit("AFTER INSERT OR UPDATE");
    assert("AFTER INSERT OR DELETE"@[16] == 'D');
    assert("AFTER INSERT OR UPDATE"@[16] == 'U');
    assert("AFTER INSERT OR DELETE"@.len() == 22);
    assert("AFTER INSERT OR UPDATE OR DELETE"@.len() == 32);
    assert("AFTER INSERT OR UPDATE"@.len() == 22);
}

/// A source that passes validation has every shared field resolved, so its SQL can be made.
pub proof fn law_valid_sources_generate(source: SyncSource)
    requires
        source_error(source) is None,
    ensures
        shared_resolve(source),
{
    lemma_first_unresolved(source, source.shared());
}

proof fn lemma_first_unresolved(source: SyncSource, names: Seq<Seq<char>>)
    requires
        first_unresolved(source, names) is None,
    ensures
        forall|i: int| 0 <= i < names.len() ==> shared_template(source, #[trigger] names[i]) is Some,
    decreases names.len(),
{
    if names.len() > 0 {
        lemma_first_unresolved(source, names.skip(1));
        assert forall|i: int| 0 <= i < names.len() implies shared_template(source, #[trigger] names[i]) is Some by {
            if i > 0 {
                assert(names[i] == names.skip(1)[i - 1]);
            }
        }
    }
}

/// A trigger goes by the same name as long as its table and its body stay as they are, and the shared
/// op functions as long as the table does, so that whoever calls them by name still finds them.
pub proof fn law_names_follow_what_they_name(a: SyncSource, b: SyncSource, target: Seq<char>)
    requires
        a.table@ == b.table@,
    ensures
        trigger_body(a) == trigger_body(b) ==> hashed_name(a) == hashed_name(b),
        fan_out_function(a.table@) == fan_out_function(b.table@),
        field_function(a.table@, target) == field_function(b.table@, target),
{
}

/// A valid source with child rows is dispatched to the per-row body: neither a join field
/// nor a query takes its place.
pub proof fn law_valid_rows_from_is_never_ignored(source: SyncSource)
    requires
        source_error(source) is None,
        source.rows_from is Some,
    ensures
        trigger_body(source) == fan_out_per_row_body(source, source.rows_from->0),
{
}

/// The trigger SQL of a per-row fan-out defines the shared op function exactly as its own
/// generator writes it, and the trigger calls it under its stable name.
pub proof fn law_fan_out_function_parity(source: SyncSource)
    requires
        source.rows_from is Some,
        source.field is None,
    ensures
        has_part(trigger_functions(source), fan_out_ops_function(source)),
        has_part(trigger_body(source), "    _ops := "@ + fan_out_function(source.table@) + "(NEW);\n"@),
{
    let sql = fan_out_ops_function(source);
    lemma_has_itself(sql);
    lemma_has_part_before(sql, "\n"@, sql);
    let definitions = rows_function(source) + shared_functions(source, source.shared());
    lemma_has_part_before(rows_function(source), shared_functions(source, source.shared()), sql);
    lemma_trigger_functions_have(source, sql);

    let rows = source.rows_from->0;
    let call = "    _ops := "@ + fan_out_function(source.table@) + "(NEW);\n"@;
    let t0 = "DECLARE\n  _ops jsonb;\nBEGIN\n  IF TG_OP = 'INSERT' THEN\n    _ops := "@ + fan_out_function(
        source.table@,
    ) + "(NEW);\n    INSERT INTO \"BitdexOps\" (entity_id, ops)\n      "@;
    lemma_per_row_call(fan_out_function(source.table@));
    let t1 = t0 + child_rows(rows);
    lemma_has_part_before(t0, child_rows(rows), call);
    let t2 = t1 + ";\n    RETURN NEW;\n  ELSIF TG_OP = 'UPDATE' THEN\n    _ops := '[]'::jsonb;\n"@;
    lemma_has_part_before(
        t1,
        ";\n    RETURN NEW;\n  ELSIF TG_OP = 'UPDATE' THEN\n    _ops := '[]'::jsonb;\n"@,
        call,
    );
    let t3 = t2 + change_blocks(Guard::Timestamp, source.track_list());
    lemma_has_part_before(t2, change_blocks(Guard::Timestamp, source.track_list()), call);
    let t4 = t3 + "    IF jsonb_array_length(_ops) > 0 THEN\n      INSERT INTO \"BitdexOps\" (entity_id, ops)\n        "@;
    lemma_has_part_before(
        t3,
        "    IF jsonb_array_length(_ops) > 0 THEN\n      INSERT INTO \"BitdexOps\" (entity_id, ops)\n        "@,
        call,
    );
    let t5 = t4 + child_rows(rows);
    lemma_has_part_before(t4, child_rows(rows), call);
    lemma_has_part_before(
        t5,
        ";\n    END IF;\n    RETURN NEW;\n  END IF;\n  RETURN COALESCE(NEW, OLD);\nEND;"@,
        call,
    );
}

proof fn lemma_per_row_call(function: Seq<char>)
    ensures
        has_part(
            "DECLARE\n  _ops jsonb;\nBEGIN\n  IF TG_OP = 'INSERT' THEN\n    _ops := "@ + function
                + "(NEW);\n    INSERT INTO \"BitdexOps\" (entity_id, ops)\n      "@,
            "    _ops := "@ + function + "(NEW);\n"@,
        ),
{
    let open = "DECLARE\n  _ops jsonb;\nBEGIN\n  IF TG_OP = 'INSERT' THEN\n    _ops := "@;
    let close = "(NEW);\n    INSERT INTO \"BitdexOps\" (entity_id, ops)\n      "@;
    let call = "    _ops := "@ + function + "(NEW);\n"@;
    let head = open.subrange(0, open.len() - "    _ops := "@.len());
    let tail = close.subrange("(NEW);\n"@.len() as int, close.len() as int);
    assert(open =~= head + "    _ops := "@) by {
        reveal_strlit("DECLARE\n  _ops jsonb;\nBEGIN\n  IF TG_OP = 'INSERT' THEN\n    _ops := ");
        reveal_strlit("    _ops := ");
    }
    assert(close =~= "(NEW);\n"@ + tail) by {
        reveal_strlit("(NEW);\n    INSERT INTO \"BitdexOps\" (entity_id, ops)\n      ");
        reveal_strlit("(NEW);\n");
    }
    assert(open + function + close =~= head + (call + tail));
    lemma_has_itself(call);
    lemma_has_part_before(call, tail, call);
    lemma_has_part_behind(head, call + tail, call);
}

proof fn lemma_trigger_functions_have(source: SyncSource, part: Seq<char>)
    requires
        has_part(rows_function(source) + shared_functions(source, source.shared()), part),
    ensures
        has_part(trigger_functions(source), part),
{
    let t0 = rows_function(source) + shared_functions(source, source.shared());
    let t1 = t0 + "CREATE OR REPLACE FUNCTION "@;
    lemma_has_part_before(t0, "CREATE OR REPLACE FUNCTION "@, part);
    let t2 = t1 + hashed_name(source);
    lemma_has_part_before(t1, hashed_name(source), part);
    let t3 = t2 + "() RETURNS trigger AS $$\n"@;
    lemma_has_part_before(t2, "() RETURNS trigger AS $$\n"@, part);
    let t4 = t3 + trigger_body(source);
    lemma_has_part_before(t3, trigger_body(source), part);
    lemma_has_part_before(t4, "\n$$ LANGUAGE plpgsql;\n"@, part);
}

proof fn lemma_shared_functions_have(source: SyncSource, names: Seq<Seq<char>>, i: int)
    requires
        0 <= i < names.len(),
    ensures
        has_part(
            shared_functions(source, names),
            field_ops_function(source.table@, names[i], shared_template(source, names[i])->0),
        ),
    decreases names.len(),
{
    let part = field_ops_function(source.table@, names[i], shared_template(source, names[i])->0);
    let front = shared_functions(source, names.drop_last());
    let own = field_ops_function(source.table@, names.last(), shared_template(source, names.last())->0);
    if i == names.len() - 1 {
        lemma_has_itself(part);
        lemma_has_part_behind(front, part, part);
    } else {
        lemma_shared_functions_have(source, names.drop_last(), i);
        lemma_has_part_before(front, own, part);
    }
    lemma_has_part_before(front + own, "\n"@, part);
}

proof fn lemma_shared_calls_have(table: Seq<char>, names: Seq<Seq<char>>, i: int)
    requires
        0 <= i < names.len(),
    ensures
        has_part(
            shared_calls(table, names),
            "    _ops := _ops || "@ + field_function(table, names[i]) + "(NEW);\n"@,
        ),
    decreases names.len(),
{
    let part = "    _ops := _ops || "@ + field_function(table, names[i]) + "(NEW);\n"@;
    let front = shared_calls(table, names.drop_last());
    let own = "    _ops := _ops || "@ + field_function(table, names.last()) + "(NEW);\n"@;
    assert(shared_calls(table, names) =~= front + own);
    if i == names.len() - 1 {
        lemma_has_itself(part);
        lemma_has_part_behind(front, part, part);
    } else {
        lemma_shared_calls_have(table, names.drop_last(), i);
        lemma_has_part_before(front, own, part);
    }
}

/// The trigger SQL defines the op function of each shared field exactly as its own generator
/// writes it; the trigger of a direct table calls it under its stable name, and does not
/// build the `set` op of that field itself.
pub proof fn law_shared_function_parity(source: SyncSource, i: int)
    requires
        0 <= i < source.shared().len(),
    ensures
        has_part(
            trigger_functions(source),
            field_ops_function(
                source.table@,
                source.shared()[i],
                shared_template(source, source.shared()[i])->0,
            ),
        ),
        has_part(
            direct_body(source),
            "    _ops := _ops || "@ + field_function(source.table@, source.shared()[i]) + "(NEW);\n"@,
        ),
        forall|list: Seq<FieldText>, t: FieldText|
            t.name == source.shared()[i] ==> #[trigger] insert_ops(list.push(t), source.shared()) == insert_ops(
                list,
                source.shared(),
            ),
{
    let names = source.shared();
    let part = field_ops_function(source.table@, names[i], shared_template(source, names[i])->0);
    lemma_shared_functions_have(source, names, i);
    lemma_has_part_behind(rows_function(source), shared_functions(source, names), part);
    lemma_trigger_functions_have(source, part);
    lemma_direct_body_calls(source, i);
    assert forall|list: Seq<FieldText>, t: FieldText| t.name == names[i] implies #[trigger] insert_ops(
        list.push(t),
        names,
    ) == insert_ops(list, names) by {
        assert(list.push(t).drop_last() =~= list);
        assert(names.contains(t.name));
    }
}

proof fn lemma_direct_body_calls(source: SyncSource, i: int)
    requires
        0 <= i < source.shared().len(),
    ensures
        has_part(
            direct_body(source),
            "    _ops := _ops || "@ + field_function(source.table@, source.shared()[i]) + "(NEW);\n"@,
        ),
{
    let names = source.shared();
    let sorted = sorted_texts(names);
    lemma_sorted_texts(names);
    names.to_multiset_ensures();
    sorted.to_multiset_ensures();
    assert(names.contains(names[i]));
    assert(names.to_multiset().count(names[i]) > 0);
    assert(sorted.contains(names[i]));
    let k = choose|k: int| 0 <= k < sorted.len() && sorted[k] == names[i];
    lemma_shared_calls_have(source.table@, sorted, k);
    let call = "    _ops := _ops || "@ + field_function(source.table@, names[i]) + "(NEW);\n"@;
    let calls = shared_calls(source.table@, sorted);
    let slot = text_or(source.slot_field, "id"@);
    let t0 = "DECLARE\n  _ops jsonb;\nBEGIN\n  IF TG_OP = 'INSERT' THEN\n"@ + insert_assignment(
        direct_insert_ops(source),
    );
    let t1 = t0 + calls;
    lemma_has_part_behind(t0, calls, call);
    let t2 = t1 + "    INSERT INTO \"BitdexOps\" (entity_id, ops) VALUES (NEW.\""@;
    lemma_has_part_before(t1, "    INSERT INTO \"BitdexOps\" (entity_id, ops) VALUES (NEW.\""@, call);
    let t3 = t2 + slot;
    lemma_has_part_before(t2, slot, call);
    let t4 = t3 + "\", _ops);\n    RETURN NEW;\n"@;
    lemma_has_part_before(t3, "\", _ops);\n    RETURN NEW;\n"@, call);
    let t5 = t4 + direct_delete(source);
    lemma_has_part_before(t4, direct_delete(source), call);
    let t6 = t5 + "  ELSE\n    _ops := '[]'::jsonb;\n"@;
    lemma_has_part_before(t5, "  ELSE\n    _ops := '[]'::jsonb;\n"@, call);
    let t7 = t6 + change_blocks(Guard::Never, source.track_list());
    lemma_has_part_before(t6, change_blocks(Guard::Never, source.track_list()), call);
    let t8 = t7 + change_blocks(Guard::Epoch, source.computed());
    lemma_has_part_before(t7, change_blocks(Guard::Epoch, source.computed()), call);
    let t9 = t8
        + "    IF jsonb_array_length(_ops) > 0 THEN\n      INSERT INTO \"BitdexOps\" (entity_id, ops) VALUES (NEW.\""@;
    lemma_has_part_before(
        t8,
        "    IF jsonb_array_length(_ops) > 0 THEN\n      INSERT INTO \"BitdexOps\" (entity_id, ops) VALUES (NEW.\""@,
        call,
    );
    let t10 = t9 + slot;
    lemma_has_part_before(t9, slot, call);
    lemma_has_part_before(t10, "\", _ops);\n    END IF;\n    RETURN NEW;\n  END IF;\nEND;"@, call);
}

/// In the ops of a changed field the `remove` of the old value comes first and the element
/// for the new value last, guarded or not.
pub proof fn law_new_side_is_emitted_last(guard: Guard, t: FieldText)
    ensures
        exists|head: Seq<char>|
            change_block(guard, t) == #[trigger] (head + op_object("remove"@, t.name, substituted(t.template, "OLD"@)))
                + ",\n"@ + new_side(guard, t.name, substituted(t.template, "NEW"@)) + "\n      );\n    END IF;\n"@,
{
    let old_value = substituted(t.template, "OLD"@);
    let new_value = substituted(t.template, "NEW"@);
    let head = "    IF ("@ + old_value + ") IS DISTINCT FROM ("@ + new_value
        + ") THEN\n      _ops := _ops || jsonb_build_array(\n        "@;
    assert(change_block(guard, t) == (head + op_object("remove"@, t.name, old_value)) + ",\n"@ + new_side(
        guard,
        t.name,
        new_value,
    ) + "\n      );\n    END IF;\n"@);
}

/// Where the guard applies, the `set` of the new value stands only in the ELSE branch of a
/// test for a value that is missing or in the future; the other branch removes it.
pub proof fn law_future_values_are_not_set(guard: Guard, new: Seq<char>)
    requires
        guard is Epoch || guard is Timestamp,
    ensures
        exists|test: Seq<char>|
            new_side(guard, "publishedAt"@, new) == #[trigger] (test + op_object("remove"@, "publishedAt"@, new))
                + "\n          ELSE "@ + op_object("set"@, "publishedAt"@, new) + "\n        END"@,
{
    let field = "publishedAt"@;
    let test = if guard is Epoch {
        "        CASE WHEN COALESCE(("@ + new + ") > extract(epoch from now())::bigint, TRUE)\n          THEN "@
    } else {
        "        CASE WHEN NEW.\""@ + field + "\" IS NULL OR NEW.\""@ + field + "\" > now()\n          THEN "@
    };
    assert(new_side(guard, field, new) == (test + op_object("remove"@, field, new)) + "\n          ELSE "@ + op_object(
        "set"@,
        field,
        new,
    ) + "\n        END"@);
}

/// What the trigger of a join table does with the row `row`, under its filter and with its computed
/// fields.
pub open spec fn join_branch(source: SyncSource, field: Seq<char>, row: Seq<char>, op: Seq<char>) -> Seq<char> {
    filter_open(source, row) + join_op(source, field, row, op) + filter_close(source) + computed_blocks(
        source,
        source.computed_list().len() as int,
        row,
        op,
    )
}

/// DELETE undoes what INSERT does: it removes for the old row what INSERT adds for the new one, under
/// the same filter and for the same computed fields.
pub proof fn law_deletes_mirror_inserts(source: SyncSource, field: Seq<char>)
    ensures
        multi_value_body(source, field) == "BEGIN\n  IF TG_OP = 'INSERT' THEN\n"@ + join_branch(
            source,
            field,
            "NEW"@,
            "add"@,
        ) + "    RETURN NEW;\n  ELSIF TG_OP = 'DELETE' THEN\n"@ + join_branch(source, field, "OLD"@, "remove"@)
            + "    RETURN OLD;\n  END IF;\n  RETURN COALESCE(NEW, OLD);\nEND;"@,
{
    assert(multi_value_body(source, field) =~= "BEGIN\n  IF TG_OP = 'INSERT' THEN\n"@ + join_branch(
        source,
        field,
        "NEW"@,
        "add"@,
    ) + "    RETURN NEW;\n  ELSIF TG_OP = 'DELETE' THEN\n"@ + join_branch(source, field, "OLD"@, "remove"@)
        + "    RETURN OLD;\n  END IF;\n  RETURN COALESCE(NEW, OLD);\nEND;"@);
}

/// The row of a join table is recorded under its slot: the statement for a row names the slot column
/// of that row as the entity, and the value column of that row inside the op. Where the source names
/// no slot column it is `imageId`, and where it names no value column it is `id`.
pub proof fn law_join_rows_are_recorded_under_their_slot(
    source: SyncSource,
    field: Seq<char>,
    row: Seq<char>,
    op: Seq<char>,
    slot: Seq<char>,
    value: Seq<char>,
)
    requires
        source.slot_field matches Some(s) ==> slot == s@,
        source.slot_field is None ==> slot == "imageId"@,
        source.value_field matches Some(s) ==> value == s@,
        source.value_field is None ==> value == "id"@,
    ensures
        join_op(source, field, row, op) == "    INSERT INTO \"BitdexOps\" (entity_id, ops)\n    VALUES ("@ + row
            + ".\""@ + slot + "\""@ + ", jsonb_build_array(\n      "@ + "jsonb_build_object('op', '"@ + op
            + "', 'field', '"@ + field + "', 'value', to_jsonb("@ + row + ".\""@ + value + "\""@ + "))"@
            + "\n    ));\n"@,
{
    assert(join_op(source, field, row, op) =~= "    INSERT INTO \"BitdexOps\" (entity_id, ops)\n    VALUES ("@ + row
        + ".\""@ + slot + "\""@ + ", jsonb_build_array(\n      "@ + "jsonb_build_object('op', '"@ + op
        + "', 'field', '"@ + field + "', 'value', to_jsonb("@ + row + ".\""@ + value + "\""@ + "))"@
        + "\n    ));\n"@);
}

/// The trigger of a join table without a filter and without computed fields, written out: a new row
/// adds its value to the slot that it names, an old row takes its value away from it.
pub proof fn law_join_triggers_add_and_remove(
    source: SyncSource,
    field: Seq<char>,
    slot: Seq<char>,
    value: Seq<char>,
)
    requires
        source.slot_field matches Some(s) ==> slot == s@,
        source.slot_field is None ==> slot == "imageId"@,
        source.value_field matches Some(s) ==> value == s@,
        source.value_field is None ==> value == "id"@,
        source.filter is None,
        source.computed_fields is None,
    ensures
        ({
            let added = "    INSERT INTO \"BitdexOps\" (entity_id, ops)\n    VALUES ("@ + "NEW"@ + ".\""@ + slot
                + "\""@ + ", jsonb_build_array(\n      "@ + "jsonb_build_object('op', '"@ + "add"@ + "', 'field', '"@
                + field + "', 'value', to_jsonb("@ + "NEW"@ + ".\""@ + value + "\""@ + "))"@ + "\n    ));\n"@;
            let removed = "    INSERT INTO \"BitdexOps\" (entity_id, ops)\n    VALUES ("@ + "OLD"@ + ".\""@ + slot
                + "\""@ + ", jsonb_build_array(\n      "@ + "jsonb_build_object('op', '"@ + "remove"@
                + "', 'field', '"@ + field + "', 'value', to_jsonb("@ + "OLD"@ + ".\""@ + value + "\""@ + "))"@
                + "\n    ));\n"@;
            multi_value_body(source, field) == "BEGIN\n  IF TG_OP = 'INSERT' THEN\n"@ + added
                + "    RETURN NEW;\n  ELSIF TG_OP = 'DELETE' THEN\n"@ + removed
                + "    RETURN OLD;\n  END IF;\n  RETURN COALESCE(NEW, OLD);\nEND;"@
        }),
{
    law_join_rows_are_recorded_under_their_slot(source, field, "NEW"@, "add"@, slot, value);
    law_join_rows_are_recorded_under_their_slot(source, field, "OLD"@, "remove"@, slot, value);
    let n = source.computed_list().len() as int;
    assert(computed_blocks(source, n, "NEW"@, "add"@) == Seq::<char>::empty());
    assert(computed_blocks(source, n, "OLD"@, "remove"@) == Seq::<char>::empty());
    let added = join_op(source, field, "NEW"@, "add"@);
    let removed = join_op(source, field, "OLD"@, "remove"@);
    assert(multi_value_body(source, field) =~= "BEGIN\n  IF TG_OP = 'INSERT' THEN\n"@ + added
        + "    RETURN NEW;\n  ELSIF TG_OP = 'DELETE' THEN\n"@ + removed
        + "    RETURN OLD;\n  END IF;\n  RETURN COALESCE(NEW, OLD);\nEND;"@);
}

/// Whether a source follows one plain column and nothing else.
pub open spec fn follows_one_column(source: SyncSource, column: Seq<char>) -> bool {
    &&& source.track_fields matches Some(list) && list@.len() == 1 && (list@[0] matches TrackField::Simple(name)
        && name@ == column)
    &&& !column.contains(' ')
    &&& !column.contains('}')
}

proof fn lemma_one_column(source: SyncSource, column: Seq<char>)
    requires
        follows_one_column(source, column),
    ensures
        source.track_list() == seq![FieldText { name: column, template: "{"@ + column + "}"@ }],
{
    lemma_no_as(column, column.len() as int);
    assert(source.track_list() =~= seq![FieldText { name: column, template: "{"@ + column + "}"@ }]);
}

proof fn lemma_no_as(s: Seq<char>, n: int)
    requires
        n <= s.len(),
        !s.contains(' '),
    ensures
        last_as(s, n) == -1,
    decreases n,
{
    if n > 0 {
        assert(s.contains(s[n - 1]));
        lemma_no_as(s, n - 1);
    }
}

/// A column between braces stands for that column of the row.
pub proof fn law_a_braced_name_is_a_column(column: Seq<char>, row: Seq<char>)
    requires
        !column.contains('}'),
    ensures
        substituted("{"@ + column + "}"@, row) == row + ".\""@ + column + "\""@,
{
    reveal_strlit("{");
    reveal_strlit("}");
    reveal_strlit(".\"");
    reveal_strlit("\"");
    assert("{"@ =~= seq!['{']);
    assert("}"@ =~= seq!['}']);
    assert(".\""@ =~= seq!['.', '"']);
    assert("\""@ =~= seq!['"']);
    let none = Seq::<char>::empty();
    law_columns_become_references(none, column, none, row);
    law_substitution_keeps_plain_text(none, row);
    assert(none + seq!['{'] + column + seq!['}'] + none =~= "{"@ + column + "}"@);
    assert(none + row + seq!['.', '"'] + column + seq!['"'] + none =~= row + ".\""@ + column + "\""@);
}

/// A column that changed is written out: where the old and the new value differ, the old value is
/// removed from the field and the new one is set.
pub proof fn law_changed_columns_are_removed_and_set(name: Seq<char>, column: Seq<char>)
    requires
        !column.contains('}'),
    ensures
        ({
            let old_value = "OLD"@ + ".\""@ + column + "\""@;
            let new_value = "NEW"@ + ".\""@ + column + "\""@;
            change_block(Guard::Never, FieldText { name, template: "{"@ + column + "}"@ }) == "    IF ("@ + old_value
                + ") IS DISTINCT FROM ("@ + new_value + ") THEN\n      _ops := _ops || jsonb_build_array(\n        "@
                + ("jsonb_build_object('op', '"@ + "remove"@ + "', 'field', '"@ + name + "', 'value', to_jsonb("@
                + old_value + "))"@) + ",\n"@ + ("        "@ + ("jsonb_build_object('op', '"@ + "set"@
                + "', 'field', '"@ + name + "', 'value', to_jsonb("@ + new_value + "))"@))
                + "\n      );\n    END IF;\n"@
        }),
{
    law_a_braced_name_is_a_column(column, "OLD"@);
    law_a_braced_name_is_a_column(column, "NEW"@);
}

/// The guard holds back `publishedAt` and no other field: from a computed value it sets only what is
/// not ahead of now and is there at all, from the new row only what is there and not ahead of now. In
/// either case it removes what it does not set. Every other field is set.
pub proof fn law_only_publishing_is_held_back(guard: Guard, name: Seq<char>, value: Seq<char>)
    ensures
        ({
            let remove = "jsonb_build_object('op', '"@ + "remove"@ + "', 'field', '"@ + name + "', 'value', to_jsonb("@
                + value + "))"@;
            let set = "jsonb_build_object('op', '"@ + "set"@ + "', 'field', '"@ + name + "', 'value', to_jsonb("@
                + value + "))"@;
            &&& name != "publishedAt"@ || guard is Never ==> new_side(guard, name, value) == "        "@ + set
            &&& name == "publishedAt"@ && guard is Epoch ==> new_side(guard, name, value)
                == "        CASE WHEN COALESCE(("@ + value
                + ") > extract(epoch from now())::bigint, TRUE)\n          THEN "@ + remove + "\n          ELSE "@ + set
                + "\n        END"@
            &&& name == "publishedAt"@ && guard is Timestamp ==> new_side(guard, name, value)
                == "        CASE WHEN NEW.\""@ + name + "\" IS NULL OR NEW.\""@ + name
                + "\" > now()\n          THEN "@ + remove + "\n          ELSE "@ + set + "\n        END"@
        }),
{
}

/// The trigger of a direct table that follows one column, written out. A new row is recorded under its
/// slot, as alive where the source says so, with the column set; a row that goes is recorded as
/// deleted where the source says so; any other change of the column is recorded as removed and set,
/// and nothing is recorded where nothing changed. Where the source names no slot column it is `id`.
pub proof fn law_direct_triggers_follow_their_column(source: SyncSource, column: Seq<char>, slot: Seq<char>)
    requires
        follows_one_column(source, column),
        source.slot_field matches Some(s) ==> slot == s@,
        source.slot_field is None ==> slot == "id"@,
        source.computed_fields is None,
        source.shared_ops_fields is None,
    ensures
        ({
            let old_value = "OLD"@ + ".\""@ + column + "\""@;
            let new_value = "NEW"@ + ".\""@ + column + "\""@;
            let remove = "jsonb_build_object('op', '"@ + "remove"@ + "', 'field', '"@ + column
                + "', 'value', to_jsonb("@ + old_value + "))"@;
            let set = "jsonb_build_object('op', '"@ + "set"@ + "', 'field', '"@ + column + "', 'value', to_jsonb("@
                + new_value + "))"@;
            let alive = if source.sets_alive {
                "      jsonb_build_object('op', 'alive')"@ + ",\n"@
            } else {
                Seq::<char>::empty()
            };
            let deletion = if source.on_delete == Some(OnDeleteValue::Bool(true)) {
                "  ELSIF TG_OP = 'DELETE' THEN\n    INSERT INTO \"BitdexOps\" (entity_id, ops) VALUES (OLD.\""@ + slot
                    + "\", '[{\"op\":\"delete\"}]'::jsonb);\n    RETURN OLD;\n"@
            } else {
                Seq::<char>::empty()
            };
            (source.on_delete is None || source.on_delete == Some(OnDeleteValue::Bool(true)) || source.on_delete
                == Some(OnDeleteValue::Bool(false))) ==> direct_body(source)
                == "DECLARE\n  _ops jsonb;\nBEGIN\n  IF TG_OP = 'INSERT' THEN\n"@
                + ("    _ops := jsonb_build_array(\n"@ + (alive + ("      "@ + set)) + "\n    );\n"@)
                + "    INSERT INTO \"BitdexOps\" (entity_id, ops) VALUES (NEW.\""@ + slot
                + "\", _ops);\n    RETURN NEW;\n"@ + deletion + "  ELSE\n    _ops := '[]'::jsonb;\n"@ + ("    IF ("@
                + old_value + ") IS DISTINCT FROM ("@ + new_value
                + ") THEN\n      _ops := _ops || jsonb_build_array(\n        "@ + remove + ",\n"@ + ("        "@ + set)
                + "\n      );\n    END IF;\n"@)
                + "    IF jsonb_array_length(_ops) > 0 THEN\n      INSERT INTO \"BitdexOps\" (entity_id, ops) VALUES (NEW.\""@
                + slot + "\", _ops);\n    END IF;\n    RETURN NEW;\n  END IF;\nEND;"@
        }),
{
    let template = "{"@ + column + "}"@;
    let t = FieldText { name: column, template };
    lemma_one_column(source, column);
    lemma_one_change(Guard::Never, t);
    law_changed_columns_are_removed_and_set(column, column);
    law_a_braced_name_is_a_column(column, "NEW"@);
    lemma_one_insert(t, source.shared());
    let set = "      "@ + op_object("set"@, column, substituted(template, "NEW"@));
    let ops = direct_insert_ops(source);
    assert(insert_ops(source.computed(), source.shared()) == Seq::<Seq<char>>::empty());
    if source.sets_alive {
        assert(ops =~= seq!["      jsonb_build_object('op', 'alive')"@, set]);
    } else {
        assert(ops =~= seq![set]);
    }
    law_joining_puts_separators_between(Seq::empty(), "      jsonb_build_object('op', 'alive')"@, set, ",\n"@);
    law_joining_puts_separators_between(Seq::empty(), set, set, ",\n"@);
    assert(Seq::<char>::empty() + set =~= set);
    lemma_sorted_texts(source.shared());
    assert(sorted_texts(source.shared()) =~= Seq::<Seq<char>>::empty());
    assert(shared_calls(source.table@, sorted_texts(source.shared())) == Seq::<char>::empty());
    assert(change_blocks(Guard::Epoch, source.computed()) == Seq::<char>::empty());
    let head = "DECLARE\n  _ops jsonb;\nBEGIN\n  IF TG_OP = 'INSERT' THEN\n"@ + insert_assignment(ops);
    assert(head + Seq::<char>::empty() =~= head);
    let middle = head + "    INSERT INTO \"BitdexOps\" (entity_id, ops) VALUES (NEW.\""@ + slot
        + "\", _ops);\n    RETURN NEW;\n"@ + direct_delete(source) + "  ELSE\n    _ops := '[]'::jsonb;\n"@
        + change_block(Guard::Never, t);
    assert(middle + Seq::<char>::empty() =~= middle);
}

proof fn lemma_one_change(guard: Guard, t: FieldText)
    ensures
        change_blocks(guard, seq![t]) == change_block(guard, t),
        change_blocks(guard, Seq::empty()) == Seq::<char>::empty(),
{
    assert(seq![t].drop_last() =~= Seq::<FieldText>::empty());
    assert(change_blocks(guard, Seq::empty()) == Seq::<char>::empty());
    assert(Seq::<char>::empty() + change_block(guard, t) =~= change_block(guard, t));
}

proof fn lemma_one_insert(t: FieldText, shared: Seq<Seq<char>>)
    requires
        !shared.contains(t.name),
    ensures
        insert_ops(seq![t], shared) == seq!["      "@ + op_object("set"@, t.name, substituted(t.template, "NEW"@))],
{
    assert(seq![t].drop_last() =~= Seq::<FieldText>::empty());
    assert(insert_ops(Seq::empty(), shared) == Seq::<Seq<char>>::empty());
    assert(insert_ops(seq![t], shared) =~= seq![
        "      "@ + op_object("set"@, t.name, substituted(t.template, "NEW"@)),
    ]);
}

/// A computed field of a join table is recorded under the slot of the row as well, under its own
/// condition, with its own value where it has one and with the value column of the row where not.
pub proof fn law_computed_join_fields_are_recorded_under_the_slot(
    source: SyncSource,
    cf: TriggerComputedField,
    row: Seq<char>,
    op: Seq<char>,
    slot: Seq<char>,
    value: Seq<char>,
)
    requires
        source.slot_field matches Some(s) ==> slot == s@,
        source.slot_field is None ==> slot == "imageId"@,
        cf.value matches Some(v) ==> value == substituted(v@, row),
        cf.value is None ==> (source.value_field matches Some(s) ==> value == row + ".\""@ + s@ + "\""@),
        cf.value is None ==> (source.value_field is None ==> value == row + ".\""@ + "id"@ + "\""@),
    ensures
        computed_block(source, cf, row, op) == "    IF "@ + substituted(cf.expression@, row)
            + " THEN\n      INSERT INTO \"BitdexOps\" (entity_id, ops)\n      VALUES ("@ + (row + ".\""@ + slot
            + "\""@) + ", jsonb_build_array(\n        "@ + ("jsonb_build_object('op', '"@ + op + "', 'field', '"@
            + cf.target@ + "', 'value', to_jsonb("@ + value + "))"@) + "\n      ));\n    END IF;\n"@,
{
}

/// The filter of a join table is put to the row that is recorded, and guards the row's own op; the
/// computed fields, each with its own condition, stand outside it. Every computed field is there, in
/// order.
pub proof fn law_filters_guard_the_row(source: SyncSource, field: Seq<char>, condition: Seq<char>, row: Seq<char>, op: Seq<char>)
    requires
        source.filter matches Some(f) && f@ == condition,
    ensures
        ({
            let n = source.computed_list().len() as int;
            &&& join_branch(source, field, row, op) == ("    IF "@ + substituted(condition, row) + " THEN\n"@) + join_op(
                source,
                field,
                row,
                op,
            ) + "    END IF;\n"@ + computed_blocks(source, n, row, op)
            &&& join_branch((SyncSource { filter: None, ..source }), field, row, op) == join_op(source, field, row, op)
                + computed_blocks(source, n, row, op)
            &&& n > 0 ==> computed_blocks(source, n, row, op) == computed_blocks(source, n - 1, row, op)
                + computed_block(source, source.computed_list()[n - 1], row, op)
            &&& computed_blocks(source, 0, row, op) == Seq::<char>::empty()
        }),
{
    let bare = SyncSource { filter: None, ..source };
    let n = source.computed_list().len() as int;
    lemma_computed_blocks_ignore_filters(source, bare, n, row, op);
    let own = join_op(source, field, row, op);
    assert(join_op(bare, field, row, op) == own);
    assert(Seq::<char>::empty() + own =~= own);
    assert(own + Seq::<char>::empty() =~= own);
}

proof fn lemma_computed_blocks_ignore_filters(a: SyncSource, b: SyncSource, n: int, row: Seq<char>, op: Seq<char>)
    requires
        b == (SyncSource { filter: None, ..a }),
    ensures
        computed_blocks(a, n, row, op) == computed_blocks(b, n, row, op),
    decreases n,
{
    if n > 0 {
        lemma_computed_blocks_ignore_filters(a, b, n - 1, row, op);
    }
}

/// Each followed field of a new row is set, in the order in which the source lists them, to the value
/// of its template on that row; none is left out where none has an op function of its own.
pub proof fn law_new_rows_set_every_field(list: Seq<FieldText>, i: int)
    requires
        0 <= i < list.len(),
    ensures
        insert_ops(list, Seq::empty()).len() == list.len(),
        insert_ops(list, Seq::empty())[i] == "      "@ + ("jsonb_build_object('op', '"@ + "set"@ + "', 'field', '"@
            + list[i].name + "', 'value', to_jsonb("@ + substituted(list[i].template, "NEW"@) + "))"@),
    decreases list.len(),
{
    lemma_insert_count(list);
    if i < list.len() - 1 {
        law_new_rows_set_every_field(list.drop_last(), i);
    } else {
        lemma_insert_count(list.drop_last());
    }
}

proof fn lemma_insert_count(list: Seq<FieldText>)
    ensures
        insert_ops(list, Seq::empty()).len() == list.len(),
    decreases list.len(),
{
    if list.len() > 0 {
        lemma_insert_count(list.drop_last());
    }
}

/// The ops of a new row come in one order: that it is alive, then what is followed, then what is
/// computed.
pub proof fn law_new_rows_are_alive_first(source: SyncSource)
    ensures
        source.sets_alive ==> direct_insert_ops(source).len() > 0 && direct_insert_ops(source)[0]
            == "      jsonb_build_object('op', 'alive')"@,
        source.sets_alive ==> direct_insert_ops(source).skip(1) == direct_insert_ops(
            (SyncSource { sets_alive: false, ..source }),
        ),
        !source.sets_alive && source.computed_fields is None ==> direct_insert_ops(source) == insert_ops(
            source.track_list(),
            source.shared(),
        ),
        !source.sets_alive && source.track_fields is None ==> direct_insert_ops(source) == insert_ops(
            source.computed(),
            source.shared(),
        ),
        !source.sets_alive ==> direct_insert_ops(source) == direct_insert_ops(
            (SyncSource { computed_fields: None, ..source }),
        ) + direct_insert_ops((SyncSource { track_fields: None, ..source })),
{
    let quiet = SyncSource { sets_alive: false, ..source };
    let followed = SyncSource { computed_fields: None, ..source };
    let computed = SyncSource { track_fields: None, ..source };
    assert(insert_ops(Seq::empty(), source.shared()) == Seq::<Seq<char>>::empty());
    assert(quiet.track_list() =~= source.track_list());
    assert(quiet.computed() =~= source.computed());
    assert(followed.track_list() =~= source.track_list());
    assert(followed.computed() =~= Seq::<FieldText>::empty());
    assert(computed.computed() =~= source.computed());
    assert(computed.track_list() =~= Seq::<FieldText>::empty());
    assert(source.computed_fields is None ==> source.computed() =~= Seq::<FieldText>::empty());
    let a = insert_ops(source.track_list(), source.shared());
    let b = insert_ops(source.computed(), source.shared());
    let none = Seq::<Seq<char>>::empty();
    assert(direct_insert_ops(quiet) =~= a + b);
    assert(none + a + none =~= a);
    assert(none + none + b =~= b);
    if source.sets_alive {
        assert(direct_insert_ops(source).skip(1) =~= a + b);
    }
}

/// The rows of a per-row fan-out are the rows of the child table whose key is that of the new parent,
/// each recorded under its own slot column.
pub proof fn law_child_rows_are_those_of_the_parent(rows: RowsFrom)
    ensures
        child_rows(rows) == "SELECT c.\""@ + rows.slot@ + "\", _ops FROM \""@ + rows.table@ + "\" c WHERE c.\""@
            + rows.fk@ + "\" = NEW.\""@ + rows.parent_key@ + "\""@,
{
}

/// The trigger of a per-row fan-out that follows one column, written out. A new parent gives every
/// child row the payload of the shared function, a changed one gives every child row the change.
pub proof fn law_per_row_triggers_reach_every_child(source: SyncSource, rows: RowsFrom, column: Seq<char>)
    requires
        follows_one_column(source, column),
        column != "publishedAt"@,
    ensures
        ({
            let children = "SELECT c.\""@ + rows.slot@ + "\", _ops FROM \""@ + rows.table@ + "\" c WHERE c.\""@
                + rows.fk@ + "\" = NEW.\""@ + rows.parent_key@ + "\""@;
            let old_value = "OLD"@ + ".\""@ + column + "\""@;
            let new_value = "NEW"@ + ".\""@ + column + "\""@;
            let remove = "jsonb_build_object('op', '"@ + "remove"@ + "', 'field', '"@ + column
                + "', 'value', to_jsonb("@ + old_value + "))"@;
            let set = "jsonb_build_object('op', '"@ + "set"@ + "', 'field', '"@ + column + "', 'value', to_jsonb("@
                + new_value + "))"@;
            fan_out_per_row_body(source, rows)
                == "DECLARE\n  _ops jsonb;\nBEGIN\n  IF TG_OP = 'INSERT' THEN\n    _ops := "@ + ("bitdex_"@ + lowercase(
                source.table@,
            ) + "_fanout_ops"@) + "(NEW);\n    INSERT INTO \"BitdexOps\" (entity_id, ops)\n      "@ + children
                + ";\n    RETURN NEW;\n  ELSIF TG_OP = 'UPDATE' THEN\n    _ops := '[]'::jsonb;\n"@ + ("    IF ("@
                + old_value + ") IS DISTINCT FROM ("@ + new_value
                + ") THEN\n      _ops := _ops || jsonb_build_array(\n        "@ + remove + ",\n"@ + ("        "@ + set)
                + "\n      );\n    END IF;\n"@)
                + "    IF jsonb_array_length(_ops) > 0 THEN\n      INSERT INTO \"BitdexOps\" (entity_id, ops)\n        "@
                + children + ";\n    END IF;\n    RETURN NEW;\n  END IF;\n  RETURN COALESCE(NEW, OLD);\nEND;"@
        }),
{
    let t = FieldText { name: column, template: "{"@ + column + "}"@ };
    lemma_one_column(source, column);
    lemma_one_change(Guard::Timestamp, t);
    law_a_braced_name_is_a_column(column, "OLD"@);
    law_a_braced_name_is_a_column(column, "NEW"@);
    law_only_publishing_is_held_back(Guard::Timestamp, column, substituted(t.template, "NEW"@));
}

/// A per-row fan-out holds back `publishedAt` by the new row's own column, a direct table holds it
/// back among its computed fields and not among those it follows.
pub proof fn law_guards_stand_where_they_belong(source: SyncSource, rows: RowsFrom, t: FieldText)
    requires
        source.track_list() == seq![t],
    ensures
        has_part(fan_out_per_row_body(source, rows), new_side(Guard::Timestamp, t.name, substituted(t.template, "NEW"@))),
        source.computed_fields is None ==> has_part(
            direct_body(source),
            new_side(Guard::Never, t.name, substituted(t.template, "NEW"@)),
        ),
        source.query is Some ==> has_part(
            fan_out_body(source),
            new_side(Guard::Never, t.name, substituted(t.template, "NEW"@)),
        ),
{
    lemma_one_change(Guard::Timestamp, t);
    lemma_one_change(Guard::Never, t);
    let timed = new_side(Guard::Timestamp, t.name, substituted(t.template, "NEW"@));
    lemma_change_has_side(Guard::Timestamp, t);
    let block = change_block(Guard::Timestamp, t);
    let a = "DECLARE\n  _ops jsonb;\nBEGIN\n  IF TG_OP = 'INSERT' THEN\n    _ops := "@ + fan_out_function(source.table@)
        + "(NEW);\n    INSERT INTO \"BitdexOps\" (entity_id, ops)\n      "@ + child_rows(rows)
        + ";\n    RETURN NEW;\n  ELSIF TG_OP = 'UPDATE' THEN\n    _ops := '[]'::jsonb;\n"@;
    lemma_has_part_behind(a, block, timed);
    let b = "    IF jsonb_array_length(_ops) > 0 THEN\n      INSERT INTO \"BitdexOps\" (entity_id, ops)\n        "@;
    lemma_has_part_before(a + block, b, timed);
    lemma_has_part_before(a + block + b, child_rows(rows), timed);
    let c = ";\n    END IF;\n    RETURN NEW;\n  END IF;\n  RETURN COALESCE(NEW, OLD);\nEND;"@;
    lemma_has_part_before(a + block + b + child_rows(rows), c, timed);

    let side = new_side(Guard::Never, t.name, substituted(t.template, "NEW"@));
    lemma_change_has_side(Guard::Never, t);
    let plain = change_block(Guard::Never, t);
    let slot = text_or(source.slot_field, "id"@);
    let d = "DECLARE\n  _ops jsonb;\nBEGIN\n  IF TG_OP = 'INSERT' THEN\n"@ + insert_assignment(
        direct_insert_ops(source),
    ) + shared_calls(source.table@, sorted_texts(source.shared()))
        + "    INSERT INTO \"BitdexOps\" (entity_id, ops) VALUES (NEW.\""@ + slot + "\", _ops);\n    RETURN NEW;\n"@
        + direct_delete(source) + "  ELSE\n    _ops := '[]'::jsonb;\n"@;
    lemma_has_part_behind(d, plain, side);
    let e = change_blocks(Guard::Epoch, source.computed());
    lemma_has_part_before(d + plain, e, side);
    let g = "    IF jsonb_array_length(_ops) > 0 THEN\n      INSERT INTO \"BitdexOps\" (entity_id, ops) VALUES (NEW.\""@;
    lemma_has_part_before(d + plain + e, g, side);
    lemma_has_part_before(d + plain + e + g, slot, side);
    let h = "\", _ops);\n    END IF;\n    RETURN NEW;\n  END IF;\nEND;"@;
    lemma_has_part_before(d + plain + e + g + slot, h, side);

    let i = "DECLARE\n  _ops jsonb;\n  _query text;\n"@ + (if source.query_source is Some || source.expression is Some {
        "  _source_result jsonb;\n"@
    } else {
        Seq::empty()
    }) + "BEGIN\n  IF TG_OP = 'INSERT' THEN\n"@ + query_block(source) + "    _ops := jsonb_build_array(\n"@ + join(
        insert_ops(source.track_list(), Seq::empty()),
        ",\n"@,
    )
        + "\n    );\n    INSERT INTO \"BitdexOps\" (entity_id, ops) VALUES (NEW.id, jsonb_build_array(\n        jsonb_build_object('op', 'queryOpSet', 'query', _query, 'ops', _ops)\n      ));\n    RETURN NEW;\n  ELSIF TG_OP = 'UPDATE' THEN\n"@
        + query_block(source) + "    _ops := '[]'::jsonb;\n"@;
    lemma_has_part_behind(i, plain, side);
    lemma_has_part_before(
        i + plain,
        "    IF jsonb_array_length(_ops) > 0 THEN\n      INSERT INTO \"BitdexOps\" (entity_id, ops) VALUES (NEW.id, jsonb_build_array(\n        jsonb_build_object('op', 'queryOpSet', 'query', _query, 'ops', _ops)\n      ));\n    END IF;\n    RETURN NEW;\n  END IF;\n  RETURN COALESCE(NEW, OLD);\nEND;"@,
        side,
    );
}

proof fn lemma_change_has_side(guard: Guard, t: FieldText)
    ensures
        has_part(change_block(guard, t), new_side(guard, t.name, substituted(t.template, "NEW"@))),
{
    let old_value = substituted(t.template, "OLD"@);
    let new_value = substituted(t.template, "NEW"@);
    let side = new_side(guard, t.name, new_value);
    let head = "    IF ("@ + old_value + ") IS DISTINCT FROM ("@ + new_value
        + ") THEN\n      _ops := _ops || jsonb_build_array(\n        "@ + op_object("remove"@, t.name, old_value) + ",\n"@;
    lemma_has_itself(side);
    lemma_has_part_behind(head, side, side);
    lemma_has_part_before(head + side, "\n      );\n    END IF;\n"@, side);
}

/// The payload of a per-row fan-out sets each field from the parent row; only `publishedAt` is set
/// under a condition, and is removed where the parent has none or one that is ahead.
pub proof fn law_payloads_set_from_the_parent(name: Seq<char>, parent: Seq<char>, value: Seq<char>)
    ensures
        ({
            let remove = "jsonb_build_object('op', '"@ + "remove"@ + "', 'field', '"@ + name + "', 'value', to_jsonb("@
                + value + "))"@;
            let set = "jsonb_build_object('op', '"@ + "set"@ + "', 'field', '"@ + name + "', 'value', to_jsonb("@
                + value + "))"@;
            let own = parent + ".\""@ + name + "\""@;
            &&& name != "publishedAt"@ ==> payload_element(name, parent, value) == "    "@ + set
            &&& name == "publishedAt"@ ==> payload_element(name, parent, value) == "    CASE WHEN "@ + own
                + " IS NULL OR "@ + own + " > now()\n      THEN "@ + remove + "\n      ELSE "@ + set + "\n    END"@
        }),
{
}

/// The shared function of a per-row fan-out takes a parent row and builds the payload from that row
/// alone, field by field.
pub proof fn law_fan_out_functions_read_their_argument(source: SyncSource, column: Seq<char>)
    requires
        follows_one_column(source, column),
        column != "publishedAt"@,
    ensures
        fan_out_ops_function(source) == "CREATE OR REPLACE FUNCTION "@ + ("bitdex_"@ + lowercase(source.table@)
            + "_fanout_ops"@) + "(_p \""@ + source.table@
            + "\") RETURNS jsonb AS $$\n  SELECT jsonb_build_array(\n"@ + ("    "@ + ("jsonb_build_object('op', '"@
            + "set"@ + "', 'field', '"@ + column + "', 'value', to_jsonb("@ + ("_p"@ + ".\""@ + column + "\""@)
            + "))"@)) + "\n  );\n$$ LANGUAGE sql STABLE;\n"@,
{
    lemma_one_column(source, column);
    law_a_braced_name_is_a_column(column, "_p"@);
    let list = payload(source.track_list(), "_p"@);
    assert(list =~= seq![
        payload_element(column, "_p"@, "_p"@ + ".\""@ + column + "\""@),
    ]);
    law_joining_puts_separators_between(Seq::empty(), list[0], list[0], ",\n"@);
}

/// The shared function of one field takes a row of the table and builds the op of that field from
/// that row alone. Its name has the table and the field in lower case, without a trailing `unix`.
pub proof fn law_field_functions_read_their_argument(table: Seq<char>, target: Seq<char>, column: Seq<char>)
    requires
        !column.contains('}'),
    ensures
        field_ops_function(table, target, "{"@ + column + "}"@) == "CREATE OR REPLACE FUNCTION "@ + field_function(
            table,
            target,
        ) + "(_i \""@ + table + "\") RETURNS jsonb AS $$\n  SELECT jsonb_build_array(\n    "@ + (
        "jsonb_build_object('op', '"@ + "set"@ + "', 'field', '"@ + target + "', 'value', to_jsonb("@ + ("_i"@ + ".\""@
            + column + "\""@) + "))"@) + "\n  );\n$$ LANGUAGE sql STABLE;\n"@,
        field_function(table, target + seq!['U', 'n', 'i', 'x']) == "bitdex_"@ + lowercase(table) + "_"@ + lowercase(
            target,
        ) + "_ops"@,
        (target.len() < 4 || target.last() != 'x' && target.last() != 'X') ==> field_function(table, target)
            == "bitdex_"@ + lowercase(table) + "_"@ + lowercase(target) + "_ops"@,
{
    law_a_braced_name_is_a_column(column, "_i"@);
    let long = target + seq!['U', 'n', 'i', 'x'];
    assert(long.subrange(0, long.len() - 4) =~= target);
}

/// A shared field has the template of the first followed field of its name, and that of a computed
/// field only where no followed field has the name; a name that neither has is an error.
pub proof fn law_followed_fields_come_before_computed_ones(source: SyncSource, target: Seq<char>, i: int)
    ensures
        0 <= i < source.track_list().len() && source.track_list()[i].name == target && (forall|j: int|
            0 <= j < i ==> (#[trigger] source.track_list()[j]).name != target) ==> shared_template(source, target)
            == Some(source.track_list()[i].template),
        (forall|j: int| 0 <= j < source.track_list().len() ==> (#[trigger] source.track_list()[j]).name != target) && 0
            <= i < source.computed().len() && source.computed()[i].name == target && (forall|j: int|
            0 <= j < i ==> (#[trigger] source.computed()[j]).name != target) ==> shared_template(source, target)
            == Some(source.computed()[i].template),
        (forall|j: int| 0 <= j < source.track_list().len() ==> (#[trigger] source.track_list()[j]).name != target) && (
        forall|j: int| 0 <= j < source.computed().len() ==> (#[trigger] source.computed()[j]).name != target)
            ==> shared_template(source, target) is None,
{
    lemma_first_template(source.track_list(), target, i);
    lemma_first_template(source.computed(), target, i);
}

proof fn lemma_first_template(list: Seq<FieldText>, name: Seq<char>, i: int)
    ensures
        0 <= i < list.len() && list[i].name == name && (forall|j: int| 0 <= j < i ==> (#[trigger] list[j]).name != name)
            ==> first_template(list, name) == Some(list[i].template),
        (forall|j: int| 0 <= j < list.len() ==> (#[trigger] list[j]).name != name) ==> first_template(list, name)
            is None,
    decreases list.len(),
{
    if list.len() > 0 {
        let rest = list.skip(1);
        lemma_first_template(rest, name, i - 1);
        if 0 < i < list.len() && list[i].name == name && (forall|j: int|
            0 <= j < i ==> (#[trigger] list[j]).name != name) {
            assert(list[0].name != name);
            assert(rest[i - 1] == list[i]);
            assert forall|j: int| 0 <= j < i - 1 implies (#[trigger] rest[j]).name != name by {
                assert(list[j + 1].name != name);
            }
        }
        if forall|j: int| 0 <= j < list.len() ==> (#[trigger] list[j]).name != name {
            assert(list[0].name != name);
            assert forall|j: int| 0 <= j < rest.len() implies (#[trigger] rest[j]).name != name by {
                assert(list[j + 1].name != name);
            }
        }
    }
}

/// Which events a trigger fires on, as the clause and as the mask: a join table on inserts and
/// deletes, a table whose deletions are recorded on all three, any other on inserts and updates.
pub proof fn law_triggers_fire_on_what_they_record(source: SyncSource)
    ensures
        source.field is Some ==> events_clause(source) == "AFTER INSERT OR DELETE"@ && events_mask(source) == 13,
        source.field is None && (source.on_delete matches Some(OnDeleteValue::Bool(b)) && b) ==> events_clause(source)
            == "AFTER INSERT OR UPDATE OR DELETE"@ && events_mask(source) == 29,
        source.field is None && (source.on_delete matches Some(OnDeleteValue::String(s)) && (s@ == "delete_slot"@ || s@
            == "true"@)) ==> events_clause(source) == "AFTER INSERT OR UPDATE OR DELETE"@ && events_mask(source) == 29,
        source.field is None && (source.on_delete is None || (source.on_delete matches Some(OnDeleteValue::Bool(b))
            && !b) || (source.on_delete matches Some(OnDeleteValue::String(s)) && s@ != "delete_slot"@ && s@
            != "true"@)) ==> events_clause(source) == "AFTER INSERT OR UPDATE"@ && events_mask(source) == 21,
{
}

/// A trigger is dropped, made anew, and enabled always, under one name and on the source's own table;
/// it calls the function of that name, which has the trigger's body.
pub proof fn law_triggers_are_installed_on_their_table(source: SyncSource)
    ensures
        ({
            let name = "bitdex_"@ + lowercase(source.table@) + "_"@ + short_hash_of(trigger_body(source));
            &&& trigger_ddl(source) == "DROP TRIGGER IF EXISTS "@ + name + " ON \""@ + source.table@
                + "\";\nCREATE TRIGGER "@ + name + " "@ + events_clause(source) + " ON \""@ + source.table@
                + "\"\n  FOR EACH ROW EXECUTE FUNCTION "@ + name + "();\nALTER TABLE \""@ + source.table@
                + "\" ENABLE ALWAYS TRIGGER "@ + name + ";\n"@
            &&& source.rows_from is None && source.shared_ops_fields is None ==> trigger_functions(source)
                == "CREATE OR REPLACE FUNCTION "@ + name + "() RETURNS trigger AS $$\n"@ + trigger_body(source)
                + "\n$$ LANGUAGE plpgsql;\n"@
        }),
{
    assert(shared_functions(source, Seq::empty()) == Seq::<char>::empty());
    let head = "CREATE OR REPLACE FUNCTION "@;
    assert(Seq::<char>::empty() + Seq::<char>::empty() + head =~= head);
}

/// Which body a source has: a field makes it a join table whatever else it says, then child rows make
/// it a per-row fan-out, then a query makes it a fan-out by query; without any of them it is direct.
pub proof fn law_each_source_has_its_kind_of_body(source: SyncSource)
    ensures
        source.field matches Some(f) ==> trigger_body(source) == multi_value_body(source, f@),
        source.field is None ==> (source.rows_from matches Some(rows) ==> trigger_body(source) == fan_out_per_row_body(
            source,
            rows,
        )),
        source.field is None && source.rows_from is None && source.query is Some ==> trigger_body(source)
            == fan_out_body(source),
        source.field is None && source.rows_from is None && source.query is None ==> trigger_body(source)
            == direct_body(source),
{
}

/// When a source is valid: it has child rows exactly where it says that it is a per-row fan-out; the
/// child table and its key are named; neither a join field nor a query stands beside the child rows;
/// and every field with an op function of its own is one that the source follows or computes.
pub proof fn law_valid_sources(source: SyncSource)
    ensures
        source_error(source) is None <==> {
            &&& source.rows_from is Some <==> (source.table_type matches Some(t) && t@ == "fan_out_per_row"@)
            &&& source.rows_from matches Some(rows) ==> trim(rows.table@).len() > 0 && trim(rows.fk@).len() > 0
                && source.field is None && source.query is None
            &&& forall|i: int|
                0 <= i < source.shared().len() ==> shared_template(source, #[trigger] source.shared()[i]) is Some
        },
{
    lemma_unresolved_iff(source, source.shared());
}

proof fn lemma_unresolved_iff(source: SyncSource, names: Seq<Seq<char>>)
    ensures
        first_unresolved(source, names) is None <==> forall|i: int|
            0 <= i < names.len() ==> shared_template(source, #[trigger] names[i]) is Some,
    decreases names.len(),
{
    if names.len() > 0 {
        lemma_unresolved_iff(source, names.skip(1));
        assert(names[0] == names[0]);
        assert forall|i: int| 0 < i < names.len() implies names[i] == names.skip(1)[i - 1] by {}
        if forall|i: int| 0 <= i < names.len() ==> shared_template(source, #[trigger] names[i]) is Some {
            assert forall|i: int| 0 <= i < names.skip(1).len() implies shared_template(
                source,
                #[trigger] names.skip(1)[i],
            ) is Some by {
                assert(shared_template(source, names[i + 1]) is Some);
            }
        }
        if first_unresolved(source, names) is None {
            lemma_first_unresolved(source, names);
        }
    }
}

/// A list of sources is taken where each is valid; otherwise it is refused for the first that is not.
pub proof fn law_the_first_bad_source_is_told(sources: Seq<SyncSource>, k: int)
    requires
        0 <= k <= sources.len(),
        forall|i: int| 0 <= i < k ==> source_error(#[trigger] sources[i]) is None,
    ensures
        k < sources.len() && source_error(sources[k]) is Some ==> first_source_error(sources) == source_error(sources[k]),
        k == sources.len() ==> first_source_error(sources) is None,
    decreases k,
{
    if k > 0 {
        assert(source_error(sources[0]) is None);
        let rest = sources.skip(1);
        assert forall|i: int| 0 <= i < k - 1 implies source_error(#[trigger] rest[i]) is None by {
            assert(source_error(sources[i + 1]) is None);
        }
        law_the_first_bad_source_is_told(rest, k - 1);
    }
}

/// An entry that gives an expression and a target follows the target with the value of the expression;
/// one that gives a column and a target follows the target with that column; one that gives a single
/// name follows the column of that name under that name.
pub proof fn law_entries_follow_what_they_name(entry: TrackField, e: Seq<char>, c: Seq<char>, t: Seq<char>)
    requires
        t.len() > 0,
        !t.contains(' '),
        !is_white(t[0]),
        !is_white(t.last()),
        e.len() > 0,
        !is_white(e[0]),
        !is_white(e.last()),
        !c.contains(' '),
        c != t,
    ensures
        ({
            let s = entry.track_text();
            &&& entry matches TrackField::Mapped { column, target: Some(x), expression: Some(y) } ==> (x@ == t && y@
                == e ==> track_name(s) == t && track_template(s) == e && track_insert(s) == replace_char(
                replace_char(e, '{', "\""@),
                '}',
                "\""@,
            ))
            &&& entry matches TrackField::Mapped { column: Some(z), target: Some(x), expression: None } ==> (x@ == t
                && z@ == c ==> track_name(s) == t && track_template(s) == "{"@ + c + "}"@)
            &&& entry matches TrackField::Mapped { column: Some(z), target: None, expression: None } ==> (z@ == c
                ==> track_name(s) == c && track_template(s) == "{"@ + c + "}"@ && track_insert(s) == "\""@ + c
                + "\""@)
            &&& entry matches TrackField::Mapped { column: None, target: Some(x), expression: None } ==> (x@ == t
                ==> track_name(s) == t && track_template(s) == "{"@ + t + "}"@)
            &&& entry matches TrackField::Simple(x) ==> (x@ == t ==> track_name(s) == t && track_template(s) == "{"@ + t
                + "}"@ && track_insert(s) == "\""@ + t + "\""@)
        }),
{
    lemma_no_as(c, c.len() as int);
    lemma_no_as(t, t.len() as int);
    lemma_as_splits(e, t);
    law_trimmed_texts_stay(e);
    law_trimmed_texts_stay(t);
    reveal_strlit("{");
    reveal_strlit("}");
    let braced = "{"@ + c + "}"@;
    lemma_as_splits(braced, t);
    law_trimmed_texts_stay(braced);
    reveal_strlit("} as ");
    reveal_strlit(" as ");
    assert("{"@ + c + "} as "@ + t =~= braced + " as "@ + t);
}

proof fn lemma_as_splits(e: Seq<char>, t: Seq<char>)
    requires
        !t.contains(' '),
    ensures
        ({
            let s = e + " as "@ + t;
            &&& last_as(s, s.len() as int) == e.len()
            &&& s.subrange(0, e.len() as int) == e
            &&& s.subrange(e.len() as int + 4, s.len() as int) == t
        }),
{
    reveal_strlit(" as ");
    let s = e + " as "@ + t;
    assert(s.subrange(0, e.len() as int) =~= e);
    assert(s.subrange(e.len() as int + 4, s.len() as int) =~= t);
    lemma_as_found(s, e.len() as int, t, s.len() as int);
}

proof fn lemma_as_found(s: Seq<char>, p: int, t: Seq<char>, n: int)
    requires
        0 <= p,
        p + 4 <= s.len(),
        as_at(s, p),
        s.subrange(p + 4, s.len() as int) == t,
        !t.contains(' '),
        p < n <= s.len(),
    ensures
        last_as(s, n) == p,
    decreases n,
{
    if n - 1 > p {
        assert(!as_at(s, n - 1)) by {
            if as_at(s, n - 1) {
                if n - 1 >= p + 4 {
                    assert(t[n - 1 - p - 4] == ' ');
                    assert(t.contains(' '));
                } else if n - 1 == p + 3 {
                    assert(t[2] == s[n - 1 + 3]);
                    assert(t.contains(t[2]));
                }
            }
        }
        lemma_as_found(s, p, t, n - 1);
    }
}

/// The trigger of a fan-out by query that follows one column, written out: the ops go to the slots
/// that the query finds, and with a change only where something changed.
pub proof fn law_query_triggers_hand_on_their_query(source: SyncSource, column: Seq<char>, query: Seq<char>)
    requires
        follows_one_column(source, column),
        source.query matches Some(q) && q@ == query,
        source.expression is None,
        source.query_source is None,
    ensures
        ({
            let old_value = "OLD"@ + ".\""@ + column + "\""@;
            let new_value = "NEW"@ + ".\""@ + column + "\""@;
            let remove = "jsonb_build_object('op', '"@ + "remove"@ + "', 'field', '"@ + column
                + "', 'value', to_jsonb("@ + old_value + "))"@;
            let set = "jsonb_build_object('op', '"@ + "set"@ + "', 'field', '"@ + column + "', 'value', to_jsonb("@
                + new_value + "))"@;
            let finds = "    _query := "@ + concatenation(query, "NEW"@) + ";\n"@;
            fan_out_body(source) == "DECLARE\n  _ops jsonb;\n  _query text;\n"@
                + "BEGIN\n  IF TG_OP = 'INSERT' THEN\n"@ + finds + "    _ops := jsonb_build_array(\n"@ + ("      "@ + set)
                + "\n    );\n    INSERT INTO \"BitdexOps\" (entity_id, ops) VALUES (NEW.id, jsonb_build_array(\n        jsonb_build_object('op', 'queryOpSet', 'query', _query, 'ops', _ops)\n      ));\n    RETURN NEW;\n  ELSIF TG_OP = 'UPDATE' THEN\n"@
                + finds + "    _ops := '[]'::jsonb;\n"@ + ("    IF ("@ + old_value + ") IS DISTINCT FROM ("@ + new_value
                + ") THEN\n      _ops := _ops || jsonb_build_array(\n        "@ + remove + ",\n"@ + ("        "@ + set)
                + "\n      );\n    END IF;\n"@)
                + "    IF jsonb_array_length(_ops) > 0 THEN\n      INSERT INTO \"BitdexOps\" (entity_id, ops) VALUES (NEW.id, jsonb_build_array(\n        jsonb_build_object('op', 'queryOpSet', 'query', _query, 'ops', _ops)\n      ));\n    END IF;\n    RETURN NEW;\n  END IF;\n  RETURN COALESCE(NEW, OLD);\nEND;"@
        }),
{
    let t = FieldText { name: column, template: "{"@ + column + "}"@ };
    lemma_one_column(source, column);
    lemma_one_change(Guard::Never, t);
    law_changed_columns_are_removed_and_set(column, column);
    law_a_braced_name_is_a_column(column, "NEW"@);
    lemma_one_insert(t, Seq::empty());
    let set = "      "@ + op_object("set"@, column, substituted(t.template, "NEW"@));
    law_joining_puts_separators_between(Seq::empty(), set, set, ",\n"@);
    let head = "DECLARE\n  _ops jsonb;\n  _query text;\n"@;
    assert(head + Seq::<char>::empty() =~= head);
}

/// A query whose ids come from an expression runs the expression with the columns of the new row as
/// parameters, and puts what it finds in the place of `{ids}`. One whose values come from a subquery
/// runs the subquery on the new row first. Quotes are doubled where SQL stands within a literal.
pub proof fn law_queries_take_their_values_from_the_new_row(
    source: SyncSource,
    before: Seq<char>,
    after: Seq<char>,
    column: Seq<char>,
)
    requires
        source.query matches Some(q) && q@ == before + "{ids}"@ + after,
        !before.contains('{'),
        !after.contains('{'),
        !column.contains('}'),
    ensures
        source.expression matches Some(e) ==> (e@ == "{"@ + column + "}"@ ==> query_block(source) == "    EXECUTE '"@
            + "$1"@ + "' INTO _source_result"@ + (" USING "@ + ("NEW"@ + ".\""@ + column + "\""@))
            + ";\n    _query := '"@ + (before + "' || _source_result::text || '"@ + after) + "';\n"@),
        source.query_source matches Some(q) ==> (source.expression is None && !q@.contains('{') && !q@.contains('\'')
            ==> query_block(source) == "    EXECUTE format('SELECT ("@ + q@
            + ")') INTO _source_result;\n    _query := "@ + concatenation(before + "{ids}"@ + after, "NEW"@) + ";\n"@),
{
    reveal_strlit("{ids}");
    law_texts_are_replaced_from_the_left(before, "{ids}"@, after, "' || _source_result::text || '"@);
    lemma_no_ids(after, "' || _source_result::text || '"@);
    if let Some(e) = source.expression {
        if e@ == "{"@ + column + "}"@ {
            let none = Seq::<char>::empty();
            reveal_strlit("{");
            reveal_strlit("}");
            law_one_column_is_one_parameter(column, "NEW"@);
            assert(e@ =~= seq!['{'] + column + seq!['}']);
            reveal_strlit("$1");
            law_replacement_goes_piece_by_piece("$1"@, none, '\'', "''"@);
            law_joining_puts_separators_between(
                Seq::empty(),
                "NEW"@ + ".\""@ + column + "\""@,
                none,
                ", "@,
            );
        }
    } else {
        if let Some(q) = source.query_source {
            if !q@.contains('{') && !q@.contains('\'') {
                law_substitution_keeps_plain_text(q@, "NEW"@);
                law_replacement_goes_piece_by_piece(q@, Seq::empty(), '\'', "''"@);
            }
        }
    }
}

proof fn lemma_no_ids(s: Seq<char>, with: Seq<char>)
    requires
        !s.contains('{'),
    ensures
        replace_text(s, "{ids}"@, with) == s,
    decreases s.len(),
{
    reveal_strlit("{ids}");
    let pat = "{ids}"@;
    if s.len() >= pat.len() {
        assert(s.contains(s[0]));
        assert(s.take(pat.len() as int)[0] != pat[0]);
        assert forall|x: char| s.skip(1).contains(x) implies s.contains(x) by {
            let i = choose|i: int| 0 <= i < s.skip(1).len() && s.skip(1)[i] == x;
            assert(s[i + 1] == x);
        }
        lemma_no_ids(s.skip(1), with);
        assert(seq![s[0]] + s.skip(1) =~= s);
    }
}

/// The functions of a table go by its name in lower case; that of a field by the name of the field in lower
/// case too, without a trailing `Unix`.
pub proof fn law_functions_go_by_table_and_field(table: Seq<char>, target: Seq<char>)
    ensures
        fan_out_function(table) == "bitdex_"@ + lowercase(table) + "_fanout_ops"@,
        field_function(table, target + "Unix"@) == "bitdex_"@ + lowercase(table) + "_"@ + lowercase(target) + "_ops"@,
        target.len() < 4 ==> field_function(table, target) == "bitdex_"@ + lowercase(table) + "_"@ + lowercase(target)
            + "_ops"@,
{
    reveal_strlit("Unix");
    let whole = target + "Unix"@;
    assert(ends_in_unix(whole));
    assert(whole.subrange(0, whole.len() - 4) =~= target);
}

/// A short hash has eight digits: those of the upper half of the hash, from the highest on.
pub proof fn law_short_hashes_are_the_upper_digits(h: u64, low: u64)
    requires
        low < 0x1_0000_0000,
    ensures
        upper_hex(h).len() == 8,
        upper_hex((h / 0x1_0000_0000 * 0x1_0000_0000 + low) as u64) == upper_hex(h),
        h < 0x1_0000_0000 ==> upper_hex(h) == Seq::new(8, |i: int| '0'),
        upper_hex(h)[0] == digit_char(h as int / 0x1000_0000_0000_0000),
        upper_hex(h)[1] == digit_char(h as int / 0x100_0000_0000_0000 % 16),
        upper_hex(h)[2] == digit_char(h as int / 0x10_0000_0000_0000 % 16),
        upper_hex(h)[3] == digit_char(h as int / 0x1_0000_0000_0000 % 16),
        upper_hex(h)[4] == digit_char(h as int / 0x1000_0000_0000 % 16),
        upper_hex(h)[5] == digit_char(h as int / 0x100_0000_0000 % 16),
        upper_hex(h)[6] == digit_char(h as int / 0x10_0000_0000 % 16),
        upper_hex(h)[7] == digit_char(h as int / 0x1_0000_0000 % 16),
{
    let other = (h / 0x1_0000_0000 * 0x1_0000_0000 + low) as u64;
    assert(other as int / 0x1_0000_0000 == h as int / 0x1_0000_0000);
    if h < 0x1_0000_0000 {
        assert(upper_hex(h) =~= Seq::new(8, |i: int| '0'));
    }
}

/// A deletion removes the slot where it is said with a truth value or with one of two words.
pub proof fn law_deletions_are_said_in_four_ways(word: String, source: SyncSource)
    ensures
        OnDeleteValue::Bool(true).deletes(),
        !OnDeleteValue::Bool(false).deletes(),
        OnDeleteValue::String(word).deletes() <==> (word@ == "delete_slot"@ || word@ == "true"@),
        source.on_delete is None ==> !source.deletes(),
        source.on_delete matches Some(v) ==> source.deletes() == v.deletes(),
{
}

/// A structured entry goes by its target, else by its column, else it is unknown; its value is its
/// expression, else its column under the name of its target.
pub proof fn law_structured_entries_have_a_name(column: String, target: String, expression: String)
    ensures
        TrackField::mapped_name(Some(column), Some(target)) == target@,
        TrackField::mapped_name(None, Some(target)) == target@,
        TrackField::mapped_name(Some(column), None) == column@,
        TrackField::mapped_name(None, None) == "unknown"@,
        (TrackField::Mapped { column: Some(column), target: None, expression: None }).track_text() == column@,
        (TrackField::Mapped { column: None, target: Some(target), expression: Some(expression) }).track_text()
            == expression@ + " as "@ + target@,
        (TrackField::Mapped { column: None, target: None, expression: None }).track_text() == "unknown"@,
        column@ != target@ ==> (TrackField::Mapped {
            column: Some(column),
            target: Some(target),
            expression: None,
        }).track_text() == "{"@ + column@ + "} as "@ + target@,
        column@ == target@ ==> (TrackField::Mapped {
            column: Some(column),
            target: Some(target),
            expression: None,
        }).track_text() == target@,
{
}

/// A shared field that its source does not know is told with the table and the field, in that order; an
/// absent text is told as none.
pub proof fn law_unknown_names_are_told(table: Seq<char>, target: Seq<char>, word: String)
    ensures
        unknown_shared(table, target) == "sync source \""@ + table + "\": shared_ops_fields entry \""@ + target
            + "\" not found in track_fields or computed_fields"@,
        debug_option(None) == "None"@,
        debug_option(Some(word)) == "Some("@ + debug_form(word@) + ")"@,
{
}

/// An entry that starts with ` as ` has a name and an empty value.
pub proof fn law_entries_may_have_no_value(s: Seq<char>)
    requires
        as_at(s, 0),
        forall|p: int| 0 < p < s.len() ==> !#[trigger] as_at(s, p),
    ensures
        track_name(s) == trim(s.subrange(4, s.len() as int)),
        track_template(s) == trim(Seq::empty()),
{
    lemma_only_first_as(s, s.len() as int);
    assert(s.subrange(0, 0) =~= Seq::empty());
}

proof fn lemma_only_first_as(s: Seq<char>, n: int)
    requires
        0 < n <= s.len(),
        as_at(s, 0),
        forall|p: int| 0 < p < s.len() ==> !#[trigger] as_at(s, p),
    ensures
        last_as(s, n) == 0,
    decreases n,
{
    if n > 1 {
        assert(!as_at(s, n - 1));
        lemma_only_first_as(s, n - 1);
    }
}

} // verus!
