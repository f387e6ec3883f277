//! Short questions and their answers.

use crate::json::{Json, JsonView};
use crate::pairs::{find_value, pairs_map};
use crate::server::answer::{refuse, Refusal, RefusalView};
use crate::text::{dec, decimal};
use vstd::prelude::*;
use vstd::string::*;

verus! {

/// The text that an object has under a name.
pub open spec fn text_field(body: Json, name: Seq<char>) -> Option<Seq<char>> {
    match body {
        Json::Object(fields) => if pairs_map(fields@).contains_key(name) {
            match pairs_map(fields@)[name] {
                JsonView::Text(s) => Some(s),
                _ => None,
            }
        } else {
            None
        },
        _ => None,
    }
}

/// Whether an object has a name.
pub open spec fn has_field(body: Json, name: Seq<char>) -> bool {
    body matches Json::Object(fields) && pairs_map(fields@).contains_key(name)
}

/// Looks up the text that an object has under a name.
pub fn find_text_field<'a>(body: &'a Json, name: &str) -> (r: Option<&'a String>)
    ensures
        text_field(*body, name@) == (match r {
            Some(s) => Some(s@),
            None => None,
        }),
{
    match body {
        Json::Object(fields) => match find_value(fields, name) {
            Some(Json::Text(s)) => Some(s),
            _ => None,
        },
        _ => None,
    }
}

/// Tells whether an object has a name.
pub fn is_field(body: &Json, name: &str) -> (r: bool)
    ensures
        r == has_field(*body, name@),
{
    match body {
        Json::Object(fields) => find_value(fields, name).is_some(),
        _ => false,
    }
}

/// Reads the value that a cursor is set to.
pub fn cursor_value(body: &Json) -> (r: Result<String, Refusal>)
    ensures
        match r {
            Ok(value) => text_field(*body, "value"@) == Some(value@),
            Err(e) => text_field(*body, "value"@) is None && e@ == (RefusalView {
                status: 400,
                error: "missing 'value' field"@,
            }),
        },
{
    match find_text_field(body, "value") {
        Some(value) => Ok(value.clone()),
        None => Err(refuse(400, "missing 'value' field")),
    }
}

/// Refuses to tell a cursor that is not there.
pub fn cursor_not_found(name: &str) -> (r: Refusal)
    ensures
        r@ == (RefusalView { status: 404, error: "Cursor '"@ + name@ + "' not found"@ }),
{
    Refusal { status: 404, error: "Cursor '".to_owned().concat(name).concat("' not found") }
}

/// Refuses to tell of a task that is not there.
pub fn task_not_found(id: u64) -> (r: Refusal)
    ensures
        r@ == (RefusalView { status: 404, error: "Task "@ + dec(id as nat) + " not found"@ }),
{
    let number = decimal(id);
    Refusal { status: 404, error: "Task ".to_owned().concat(number.as_str()).concat(" not found") }
}

/// The answer to whether the service can take requests: the status, and why not.
pub fn readiness(marked: bool) -> (r: (u16, Option<&'static str>))
    ensures
        marked ==> r.0 == 200 && r.1 is None,
        !marked ==> r.0 == 503 && (r.1 matches Some(why) && why@
            == "dump pipeline pending — pg-sync has not written .ready marker"@),
{
    if marked {
        (200, None)
    } else {
        (503, Some("dump pipeline pending — pg-sync has not written .ready marker"))
    }
}

/// A text is read from an object where the name that is asked for stands for a text, from there alone.
pub proof fn law_texts_are_read_by_name(fields: Vec<(String, Json)>, body: Json, name: Seq<char>, text: Seq<char>)
    ensures
        text_field(Json::Object(fields), name) == Some(text) <==> pairs_map(fields@).contains_key(name) && pairs_map(
            fields@,
        )[name] == JsonView::Text(text),
        has_field(Json::Object(fields), name) <==> pairs_map(fields@).contains_key(name),
        text_field(body, name) is Some ==> has_field(body, name),
        body !is Object ==> text_field(body, name) is None && !has_field(body, name),
{
}

} // verus!
