//! Indexes: making, finding, restoring and deleting them.

use crate::config::Config;
use crate::filter::KeyTable;
use crate::json::{Json, JsonView};
use crate::pairs::{pairs_map, set_pair};
use crate::server::answer::{index_not_found, is_current, refuse, require_index, Refusal, RefusalView};
use crate::server::schema::{DataSchema, FieldMapping, FieldValueType, TextTable};
use crate::server::string_maps::{DictionaryView, FieldDictionary};
use crate::server::tasks::{following, remembered, TaskProgress, TaskRegistry, TaskStatus, TaskType, TaskView};
use crate::text::{text_eq, to_chars};
use vstd::prelude::*;
use vstd::string::*;

verus! {

/// What an index is: its name, its configuration and the shape of its documents.
#[derive(Debug, Clone)]
pub struct IndexDefinition {
    pub name: String,
    pub config: Config,
    pub data_schema: DataSchema,
}

/// How a definition is written.
#[derive(Debug, Clone, Copy, PartialEq, Eq, Structural)]
pub enum DefinitionFormat {
    Yaml,
    Json,
}

/// The format that a file's extension tells.
pub fn definition_format(extension: &str) -> (r: Result<DefinitionFormat, String>)
    ensures
        match r {
            Ok(DefinitionFormat::Yaml) => extension@ == "yaml"@ || extension@ == "yml"@,
            Ok(DefinitionFormat::Json) => extension@ == "json"@,
            Err(e) => {
                &&& extension@ != "yaml"@ && extension@ != "yml"@ && extension@ != "json"@
                &&& e@ == "unsupported index config format: '"@ + extension@ + "'"@
            },
        },
{
    proof {
        reveal_strlit("yaml");
        reveal_strlit("yml");
        reveal_strlit("json");
    }
    if text_eq(extension, "yaml") || text_eq(extension, "yml") {
        Ok(DefinitionFormat::Yaml)
    } else if text_eq(extension, "json") {
        Ok(DefinitionFormat::Json)
    } else {
        Err("unsupported index config format: '".to_owned().concat(extension).concat("'"))
    }
}

/// The file that holds the definition, by which files are there.
pub fn find_index_config(has_yaml: bool, has_yml: bool) -> (r: Option<&'static str>)
    ensures
        match r {
            Some(file) => file@ == (if has_yaml {
                "config.yaml"@
            } else {
                "config.yml"@
            }) && (has_yaml || has_yml),
            None => !has_yaml && !has_yml,
        },
{
    if has_yaml {
        Some("config.yaml")
    } else if has_yml {
        Some("config.yml")
    } else {
        None
    }
}

/// What stands in the directory of definitions.
#[derive(Debug, Clone, Copy, PartialEq, Eq, Structural)]
pub struct DirEntry {
    pub is_dir: bool,
    pub has_yaml: bool,
    pub has_yml: bool,
}

/// Whether an entry is an index.
pub open spec fn is_index(entry: DirEntry) -> bool {
    entry.is_dir && (entry.has_yaml || entry.has_yml)
}

/// The index that is restored: the first that has a definition.
pub fn first_index(entries: &Vec<DirEntry>) -> (r: Option<usize>)
    ensures
        match r {
            Some(i) => {
                &&& i < entries@.len()
                &&& is_index(entries@[i as int])
                &&& forall|j: int| 0 <= j < i ==> !is_index(#[trigger] entries@[j])
            },
            None => forall|j: int| 0 <= j < entries@.len() ==> !is_index(#[trigger] entries@[j]),
        },
{
    let mut i: usize = 0;
    while i < entries.len()
        invariant
            i <= entries@.len(),
            forall|j: int| 0 <= j < i ==> !is_index(#[trigger] entries@[j]),
        decreases entries@.len() - i,
    {
        let entry = entries[i];
        if entry.is_dir && find_index_config(entry.has_yaml, entry.has_yml).is_some() {
            return Some(i);
        }
        i = i + 1;
    }
    None
}

/// Whether a character is a letter or a digit, as Unicode has it.
pub uninterp spec fn alphanumeric(c: char) -> bool;

/// `char::is_alphanumeric`: whether Unicode counts the character among the letters or the numbers.
/// Of the ASCII characters these are the letters and the digits; which of the others are is left to
/// the name.
#[verifier::external_body]
fn is_alphanumeric(c: char) -> (r: bool)
    ensures
        r == alphanumeric(c),
        c <= '\u{7f}' ==> r == ('0' <= c <= '9' || 'A' <= c <= 'Z' || 'a' <= c <= 'z'),
{
    c.is_alphanumeric()
}

/// Whether a character may stand in the name of an index.
pub open spec fn name_char(c: char) -> bool {
    alphanumeric(c) || c == '_' || c == '-'
}

/// The longest name of an index, in bytes.
pub const MAX_NAME_BYTES: usize = 64;

/// Whether a text may name an index.
pub open spec fn valid_name(name: Seq<char>) -> bool {
    &&& 0 < name.len()
    &&& vstd::utf8::encode_utf8(name).len() <= 64
    &&& forall|i: int| 0 <= i < name.len() ==> name_char(#[trigger] name[i])
}

/// Whether all characters may stand in the name of an index.
pub fn all_name_chars(v: &Vec<char>) -> (r: bool)
    ensures
        r == forall|i: int| 0 <= i < v@.len() ==> name_char(#[trigger] v@[i]),
{
    let mut i: usize = 0;
    while i < v.len()
        invariant
            i <= v@.len(),
            forall|j: int| 0 <= j < i ==> name_char(#[trigger] v@[j]),
        decreases v@.len() - i,
    {
        let c = v[i];
        if !(is_alphanumeric(c) || c == '_' || c == '-') {
            return false;
        }
        i = i + 1;
    }
    true
}

/// Whether a text may name an index.
pub fn is_valid_name(name: &str) -> (r: bool)
    ensures
        r == valid_name(name@),
{
    let bytes: usize = name.as_bytes().len();
    if bytes > MAX_NAME_BYTES {
        return false;
    }
    let v = to_chars(name);
    v.len() > 0 && all_name_chars(&v)
}

/// Why an index cannot be made: its name will not do, there is one already, or its configuration is
/// wrong.
pub open spec fn creation_problem(name: Seq<char>, exists_one: bool, config_error: Option<Seq<char>>) -> Option<
    RefusalView,
> {
    if !valid_name(name) {
        Some(RefusalView { status: 400, error: "Invalid index name. Use alphanumeric, underscore, or hyphen."@ })
    } else if exists_one {
        Some(RefusalView { status: 409, error: "An index already exists. Delete it first."@ })
    } else {
        match config_error {
            Some(e) => Some(RefusalView { status: 400, error: "Invalid config: "@ + e }),
            None => None,
        }
    }
}

/// Lets an index be made.
pub fn check_create(name: &str, exists_one: bool, config_error: Option<&str>) -> (r: Result<(), Refusal>)
    ensures
        ({
            let problem = creation_problem(
                name@,
                exists_one,
                match config_error {
                    Some(e) => Some(e@),
                    None => None,
                },
            );
            match r {
                Ok(_) => problem is None,
                Err(e) => problem == Some(e@),
            }
        }),
{
    if !is_valid_name(name) {
        return Err(refuse(400, "Invalid index name. Use alphanumeric, underscore, or hyphen."));
    }
    if exists_one {
        return Err(refuse(409, "An index already exists. Delete it first."));
    }
    match config_error {
        Some(e) => Err(Refusal { status: 400, error: "Invalid config: ".to_owned().concat(e) }),
        None => Ok(()),
    }
}

/// A dictionary without texts.
pub open spec fn empty_dictionary() -> DictionaryView {
    DictionaryView { keys: Map::empty(), texts: Map::empty() }
}

/// Makes a dictionary without texts.
pub fn make_dictionary() -> (r: FieldDictionary)
    ensures
        r@ == empty_dictionary(),
{
    let d = FieldDictionary {
        keys: KeyTable { entries: Vec::new() },
        texts: TextTable { entries: Vec::new() },
    };
    assert(d.keys@ =~= Map::<Seq<char>, i64>::empty());
    assert(d.texts@ =~= Map::<i64, Seq<char>>::empty());
    d
}

/// The dictionaries that the first `n` fields begin with.
pub open spec fn first_dictionaries(fields: Seq<FieldMapping>, n: int) -> Map<Seq<char>, DictionaryView>
    decreases n,
{
    if n <= 0 {
        Map::empty()
    } else if fields[n - 1].value_type is LowCardinalityString {
        first_dictionaries(fields, n - 1).insert(fields[n - 1].target@, empty_dictionary())
    } else {
        first_dictionaries(fields, n - 1)
    }
}

/// Makes the dictionaries of a new index.
pub fn new_dictionaries(schema: &DataSchema) -> (r: Vec<(String, FieldDictionary)>)
    ensures
        pairs_map(r@) == first_dictionaries(schema.fields@, schema.fields@.len() as int),
{
    let mut dictionaries: Vec<(String, FieldDictionary)> = Vec::new();
    assert(pairs_map(dictionaries@) =~= Map::<Seq<char>, DictionaryView>::empty());
    let mut i: usize = 0;
    while i < schema.fields.len()
        invariant
            i <= schema.fields@.len(),
            pairs_map(dictionaries@) == first_dictionaries(schema.fields@, i as int),
        decreases schema.fields@.len() - i,
    {
        let mapping = &schema.fields[i];
        if mapping.value_type == FieldValueType::LowCardinalityString {
            set_pair(&mut dictionaries, mapping.target.clone(), make_dictionary());
        }
        i = i + 1;
    }
    dictionaries
}

/// Lets an index be deleted that is there and has no task running.
pub fn check_delete(current: Option<&String>, name: &str, active_tasks: usize) -> (r: Result<(), Refusal>)
    ensures
        match r {
            Ok(_) => is_current(current, name@) && active_tasks == 0,
            Err(e) => {
                ||| !is_current(current, name@) && e@ == index_not_found(name@)
                ||| is_current(current, name@) && active_tasks > 0 && e@ == (RefusalView {
                    status: 409,
                    error: "Cannot delete index while a task is running"@,
                })
            },
        },
{
    require_index(current, name)?;
    if active_tasks > 0 {
        return Err(refuse(409, "Cannot delete index while a task is running"));
    }
    Ok(())
}

/// Where a file of an index stands.
#[derive(Debug, Clone, Copy, PartialEq, Eq, Structural)]
pub enum Place {
    /// With the definitions.
    Source,
    /// With the data.
    Data,
}

/// Where the configuration of the user interface is looked for, in order.
pub fn ui_config_candidates() -> (r: Vec<(Place, &'static str)>)
    ensures
        r@ == seq![
            (Place::Source, "ui-config.yaml"),
            (Place::Source, "ui-config.yml"),
            (Place::Data, "ui-config.yaml"),
            (Place::Data, "ui-config.yml"),
        ],
{
    let mut places: Vec<(Place, &'static str)> = Vec::new();
    places.push((Place::Source, "ui-config.yaml"));
    places.push((Place::Source, "ui-config.yml"));
    places.push((Place::Data, "ui-config.yaml"));
    places.push((Place::Data, "ui-config.yml"));
    places
}

/// What was found where the configuration was looked for.
#[derive(Debug)]
pub enum UiFile {
    Missing,
    Unreadable,
    /// It is no YAML: why.
    Broken(String),
    Parsed,
}

/// What follows from what was found.
#[derive(Debug)]
pub enum UiStep {
    /// Look at the next place.
    Next,
    /// Answer with what the file holds.
    Serve,
    Refuse(Refusal),
}

/// Decides what follows from what was found in one place.
pub fn ui_step(file: &UiFile) -> (r: UiStep)
    ensures
        match file {
            UiFile::Missing | UiFile::Unreadable => r is Next,
            UiFile::Parsed => r is Serve,
            UiFile::Broken(why) => r matches UiStep::Refuse(e) && e@ == (RefusalView {
                status: 500,
                error: "Invalid ui-config YAML: "@ + why@,
            }),
        },
{
    match file {
        UiFile::Missing | UiFile::Unreadable => UiStep::Next,
        UiFile::Parsed => UiStep::Serve,
        UiFile::Broken(why) => UiStep::Refuse(
            Refusal { status: 500, error: "Invalid ui-config YAML: ".to_owned().concat(why.as_str()) },
        ),
    }
}

/// Where the runtime data of an index stands: with the definition, unless definitions come from
/// elsewhere.
pub fn runtime_place(has_index_dir: bool) -> (r: Place)
    ensures
        r == (if has_index_dir {
            Place::Data
        } else {
            Place::Source
        }),
{
    if has_index_dir {
        Place::Data
    } else {
        Place::Source
    }
}

/// Enters work into the history that was done before there was anyone to ask about it. Where a task
/// is active nothing is entered.
pub fn note_done(tasks: &mut TaskRegistry, task_type: TaskType, records: u64, result: Json)
    requires
        old(tasks).wf(),
    ensures
        final(tasks).wf(),
        final(tasks).active_tasks() == old(tasks).active_tasks(),
        if old(tasks).active_tasks().dom() == Set::<u64>::empty() {
            &&& final(tasks).next() == following(old(tasks).next())
            &&& exists|elapsed_us: u64|
                final(tasks).past() == #[trigger] remembered(
                    old(tasks).past(),
                    done_task(old(tasks).next(), task_type, records, elapsed_us, result@),
                )
        } else {
            final(tasks).next() == old(tasks).next() && final(tasks).past() == old(tasks).past()
        },
{
    let ghost before = *tasks;
    match tasks.try_start(task_type) {
        Ok(id) => {
            tasks.set_progress(id, records);
            let ghost running = *tasks;
            tasks.set_complete(id, Some(result));
            proof {
                assert(tasks.active_tasks() =~= before.active_tasks());
                let task = running.active_tasks()[id];
                let elapsed_us = choose|elapsed_us: u64|
                    tasks.past() == remembered(
                        running.past(),
                        TaskView {
                            status: TaskStatus::Complete,
                            result: Some(result@),
                            ..#[trigger] running.active_tasks()[id].info(elapsed_us)
                        },
                    );
                assert(done_task(id, task_type, records, elapsed_us, result@) == (TaskView {
                    status: TaskStatus::Complete,
                    result: Some(result@),
                    ..running.active_tasks()[id].info(elapsed_us)
                }));
            }
        },
        Err(_) => {},
    }
}

/// A finished task.
pub open spec fn done_task(
    id: u64,
    task_type: TaskType,
    records: u64,
    elapsed_us: u64,
    result: JsonView,
) -> TaskView {
    TaskView {
        task_id: id,
        task_type,
        status: TaskStatus::Complete,
        progress: TaskProgress { records_processed: records, total_estimate: None },
        elapsed_us,
        result: Some(result),
        error: None,
    }
}

/// How many threads load a file where nobody says, by how many the machine has.
pub fn default_threads(logical: usize) -> (r: usize)
    ensures
        r == (if logical / 2 < 4 {
            4
        } else if logical / 2 > 8 {
            8
        } else {
            logical / 2
        }),
{
    let half: usize = logical / 2;
    if half < 4 {
        4
    } else if half > 8 {
        8
    } else {
        half
    }
}

/// How many records are loaded at a time where nobody says.
pub const DEFAULT_CHUNK_SIZE: usize = 500_000;

/// How many documents are stored at a time where nobody says.
pub const DEFAULT_DOCSTORE_BATCH_SIZE: usize = 100_000;

/// How many threads write where nobody says.
pub const DEFAULT_MAX_WRITER_THREADS: usize = 4;

/// An index is refused for its name first, then because there is one, then for its configuration; a
/// name holds 1 to 64 bytes, and no character that is no letter, digit, underscore or hyphen.
pub proof fn law_indexes_are_refused_in_order(name: Seq<char>, there: bool, error: Option<Seq<char>>, i: int)
    ensures
        name.len() == 0 || vstd::utf8::encode_utf8(name).len() > 64 ==> (creation_problem(name, there, error) matches Some(e)
            && e.status == 400),
        0 <= i < name.len() && !alphanumeric(name[i]) && name[i] != '_' && name[i] != '-' ==> !valid_name(name) && (
        creation_problem(name, there, error) matches Some(e) && e.status == 400),
        valid_name(name) && there ==> (creation_problem(name, there, error) matches Some(e) && e.status == 409),
        valid_name(name) && !there ==> (error matches Some(why) ==> (creation_problem(name, there, error) matches Some(e)
            && e.status == 400 && e.error == "Invalid config: "@ + why)),
        valid_name(name) && !there && error is None ==> creation_problem(name, there, error) is None,
{
    if 0 <= i < name.len() && valid_name(name) {
        assert(name_char(name[i]));
    }
}

/// A new index has an empty dictionary for each field whose texts are kept by one, and for no other.
pub proof fn law_fields_of_few_texts_get_dictionaries(fields: Seq<FieldMapping>, n: int, target: Seq<char>)
    requires
        0 <= n <= fields.len(),
    ensures
        first_dictionaries(fields, n).dom().contains(target) <==> exists|i: int|
            0 <= i < n && (#[trigger] fields[i]).target@ == target && fields[i].value_type is LowCardinalityString,
        first_dictionaries(fields, n).dom().contains(target) ==> first_dictionaries(fields, n)[target].keys
            == Map::<Seq<char>, i64>::empty() && first_dictionaries(fields, n)[target].texts == Map::<
            i64,
            Seq<char>,
        >::empty(),
    decreases n,
{
    if n > 0 {
        law_fields_of_few_texts_get_dictionaries(fields, n - 1, target);
    }
}

/// Work that was done before anyone could ask is remembered as complete, under its number and with
/// what came of it.
pub proof fn law_done_work_is_complete(id: u64, task_type: TaskType, records: u64, elapsed_us: u64, result: JsonView)
    ensures
        ({
            let task = done_task(id, task_type, records, elapsed_us, result);
            &&& task.task_id == id
            &&& task.task_type == task_type
            &&& task.status is Complete
            &&& task.progress.records_processed == records
            &&& task.progress.total_estimate is None
            &&& task.elapsed_us == elapsed_us
            &&& task.result == Some(result)
            &&& task.error is None
        }),
{
}

/// A directory is an index where it holds a definition under either ending; a file never is.
pub proof fn law_directories_with_a_definition_are_indexes(has_yaml: bool, has_yml: bool)
    ensures
        is_index(DirEntry { is_dir: true, has_yaml, has_yml }) <==> has_yaml || has_yml,
        !is_index(DirEntry { is_dir: false, has_yaml, has_yml }),
{
}

} // verus!
