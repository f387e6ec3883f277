//! Refusals.

use crate::text::text_eq;
use vstd::prelude::*;
use vstd::string::*;

verus! {

/// An answer that tells what is wrong: a status and a message.
#[derive(Debug)]
pub struct Refusal {
    pub status: u16,
    pub error: String,
}

/// A refusal as a mathematical value.
#[verifier::ext_equal]
pub struct RefusalView {
    pub status: u16,
    pub error: Seq<char>,
}

impl View for Refusal {
    type V = RefusalView;

    open spec fn view(&self) -> RefusalView {
        RefusalView { status: self.status, error: self.error@ }
    }
}

/// The refusal of a request for an index that is not there.
pub open spec fn index_not_found(name: Seq<char>) -> RefusalView {
    RefusalView { status: 404, error: "Index '"@ + name + "' not found"@ }
}

/// Whether a request is for the index that is there.
pub open spec fn is_current(current: Option<&String>, name: Seq<char>) -> bool {
    current matches Some(there) && there@ == name
}

/// Lets a request pass that is for the index that is there, and refuses any other.
pub fn require_index(current: Option<&String>, name: &str) -> (r: Result<(), Refusal>)
    ensures
        match r {
            Ok(_) => is_current(current, name@),
            Err(e) => !is_current(current, name@) && e@ == index_not_found(name@),
        },
{
    if let Some(there) = current {
        if text_eq(there.as_str(), name) {
            return Ok(());
        }
    }
    Err(Refusal { status: 404, error: "Index '".to_owned().concat(name).concat("' not found") })
}

/// Refuses with a status and a message.
pub fn refuse(status: u16, error: &str) -> (r: Refusal)
    ensures
        r@ == (RefusalView { status, error: error@ }),
{
    Refusal { status, error: error.to_owned() }
}

/// A request is for the index that is there where it gives its name; for any other, and where none is
/// there, the index is not found.
pub proof fn law_only_the_index_that_is_there_is_found(there: &String, name: Seq<char>)
    ensures
        is_current(Some(there), there@),
        is_current(Some(there), name) ==> name == there@,
        !is_current(None, name),
        index_not_found(name).status == 404,
        index_not_found(name).error == "Index '"@ + name + "' not found"@,
{
}

} // verus!
