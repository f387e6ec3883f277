//! JSON values.

use crate::query::{magnitude, FloatValue, Value, ValueView};
use vstd::prelude::*;

verus! {

/// A JSON value. A whole number beyond `i64` is unsigned, and a number that is no integer is kept as
/// the double it is.
#[derive(Debug)]
pub enum Json {
    Null,
    Bool(bool),
    Integer(i64),
    Unsigned(u64),
    Float(FloatValue),
    Text(String),
    List(Vec<Json>),
    Object(Vec<(String, Json)>),
}

/// A JSON value as a mathematical value.
pub enum JsonView {
    Null,
    Bool(bool),
    Integer(int),
    Float(u64, Seq<char>),
    Text(Seq<char>),
    List(Seq<JsonView>),
    Object(Seq<(Seq<char>, JsonView)>),
}

impl Json {
    /// The value as a mathematical value.
    pub open spec fn model(self) -> JsonView
        decreases self,
    {
        match self {
            Json::Null => JsonView::Null,
            Json::Bool(b) => JsonView::Bool(b),
            Json::Integer(i) => JsonView::Integer(i as int),
            Json::Unsigned(i) => JsonView::Integer(i as int),
            Json::Float(f) => JsonView::Float(f.bits, f.text@),
            Json::Text(s) => JsonView::Text(s@),
            Json::List(items) => JsonView::List(list_model(items@)),
            Json::Object(fields) => JsonView::Object(object_model(fields@)),
        }
    }
}

/// The values of a list as mathematical values.
pub open spec fn list_model(items: Seq<Json>) -> Seq<JsonView>
    decreases items,
{
    Seq::new(
        items.len(),
        |i: int|
            if 0 <= i < items.len() {
                items[i].model()
            } else {
                arbitrary()
            },
    )
}

/// The fields of an object as mathematical values.
pub open spec fn object_model(fields: Seq<(String, Json)>) -> Seq<(Seq<char>, JsonView)>
    decreases fields,
{
    Seq::new(
        fields.len(),
        |i: int|
            if 0 <= i < fields.len() {
                (fields[i].0@, fields[i].1.model())
            } else {
                arbitrary()
            },
    )
}

impl View for Json {
    type V = JsonView;

    open spec fn view(&self) -> JsonView {
        self.model()
    }
}

impl Clone for Json {
    fn clone(&self) -> (r: Self)
        ensures
            r@ == self@,
        decreases self,
    {
        match self {
            Json::Null => Json::Null,
            Json::Bool(b) => Json::Bool(*b),
            Json::Integer(i) => Json::Integer(*i),
            Json::Unsigned(i) => Json::Unsigned(*i),
            Json::Float(f) => Json::Float(FloatValue { bits: f.bits, text: f.text.clone() }),
            Json::Text(s) => Json::Text(s.clone()),
            Json::List(items) => Json::List(clone_list(items)),
            Json::Object(fields) => Json::Object(clone_object(fields)),
        }
    }
}

/// The model of a list holds the models of its values.
pub proof fn lemma_list_model(items: Seq<Json>)
    ensures
        list_model(items).len() == items.len(),
        forall|i: int| 0 <= i < items.len() ==> #[trigger] list_model(items)[i] == items[i]@,
{
}

/// The model of an object holds the models of its fields.
pub proof fn lemma_object_model(fields: Seq<(String, Json)>)
    ensures
        object_model(fields).len() == fields.len(),
        forall|i: int| 0 <= i < fields.len() ==> #[trigger] object_model(fields)[i] == (fields[i].0@, fields[i].1@),
{
}

/// A copy of a list.
pub fn clone_list(items: &Vec<Json>) -> (r: Vec<Json>)
    ensures
        list_model(r@) == list_model(items@),
    decreases items,
{
    let mut r: Vec<Json> = Vec::new();
    let mut i: usize = 0;
    while i < items.len()
        invariant
            i <= items@.len(),
            r@.len() == i,
            forall|j: int| 0 <= j < i ==> #[trigger] r@[j]@ == items@[j]@,
        decreases items@.len() - i,
    {
        r.push(items[i].clone());
        i = i + 1;
    }
    proof {
        lemma_list_model(r@);
        lemma_list_model(items@);
        assert forall|j: int| 0 <= j < r@.len() implies list_model(r@)[j] == list_model(items@)[j] by {
            assert(r@[j]@ == items@[j]@);
        }
    }
    assert(list_model(r@) =~= list_model(items@));
    r
}

/// A copy of the fields of an object.
pub fn clone_object(fields: &Vec<(String, Json)>) -> (r: Vec<(String, Json)>)
    ensures
        object_model(r@) == object_model(fields@),
    decreases fields,
{
    let mut r: Vec<(String, Json)> = Vec::new();
    let mut i: usize = 0;
    while i < fields.len()
        invariant
            i <= fields@.len(),
            r@.len() == i,
            forall|j: int| 0 <= j < i ==> (#[trigger] r@[j]).0@ == fields@[j].0@ && r@[j].1@ == fields@[j].1@,
        decreases fields@.len() - i,
    {
        r.push((fields[i].0.clone(), fields[i].1.clone()));
        i = i + 1;
    }
    proof {
        lemma_object_model(r@);
        lemma_object_model(fields@);
        assert forall|j: int| 0 <= j < r@.len() implies object_model(r@)[j] == object_model(fields@)[j] by {
            assert(r@[j].0@ == fields@[j].0@ && r@[j].1@ == fields@[j].1@);
        }
    }
    assert(object_model(r@) =~= object_model(fields@));
    r
}

/// A value as JSON. A double that is no finite number has no JSON form, and becomes null.
pub open spec fn json_of_value(v: ValueView) -> JsonView {
    match v {
        ValueView::Integer(i) => JsonView::Integer(i),
        ValueView::Float(bits, text) => if magnitude(bits) >= 0x7ff0_0000_0000_0000 {
            JsonView::Null
        } else {
            JsonView::Float(bits, text)
        },
        ValueView::Bool(b) => JsonView::Bool(b),
        ValueView::String(s) => JsonView::Text(s),
    }
}

/// Makes a value JSON.
pub fn value_to_json(v: &Value) -> (r: Json)
    ensures
        r@ == json_of_value(v@),
{
    match v {
        Value::Integer(i) => Json::Integer(*i),
        Value::Float(f) => if f.bits % 0x8000_0000_0000_0000 >= 0x7ff0_0000_0000_0000 {
            Json::Null
        } else {
            Json::Float(FloatValue { bits: f.bits, text: f.text.clone() })
        },
        Value::Bool(b) => Json::Bool(*b),
        Value::String(s) => Json::Text(s.clone()),
    }
}

/// A value keeps its kind in JSON, and two values that become the same JSON were the same value,
/// but for the doubles that are no finite numbers.
pub proof fn law_values_keep_their_kind_in_json(v: ValueView, w: ValueView)
    ensures
        v is Integer <==> json_of_value(v) is Integer,
        v is Bool <==> json_of_value(v) is Bool,
        v is String <==> json_of_value(v) is Text,
        json_of_value(v) !is Null && json_of_value(v) == json_of_value(w) ==> v == w,
        json_of_value(v) is Null ==> (v matches ValueView::Float(bits, _) && bits % 0x8000_0000_0000_0000
            >= 0x7ff0_0000_0000_0000),
        v matches ValueView::Float(bits, _) ==> (bits % 0x8000_0000_0000_0000 < 0x7ff0_0000_0000_0000
            ==> json_of_value(v) is Float),
{
}

/// What JSON is made of a value holds the number, the truth or the text of that value.
pub proof fn law_values_are_held_as_they_are(i: int, bits: u64, text: Seq<char>, b: bool)
    ensures
        json_of_value(ValueView::Integer(i)) == JsonView::Integer(i),
        json_of_value(ValueView::Bool(b)) == JsonView::Bool(b),
        json_of_value(ValueView::String(text)) == JsonView::Text(text),
        bits < 0x7ff0_0000_0000_0000 ==> json_of_value(ValueView::Float(bits, text)) == JsonView::Float(bits, text),
        bits == 0x7ff0_0000_0000_0000 ==> json_of_value(ValueView::Float(bits, text)) is Null,
{
}

} // verus!
