//! The JSON-like output values of a conversion: an executable tree type
//! together with its mathematical model.

use vstd::prelude::*;

verus! {

/// `serde_json::Number` carries the numeric payload of a JSON float. The
/// library never looks inside it; it is produced by the trusted float
/// classifier and handed through to the caller.
#[verifier::external_type_specification]
#[verifier::external_body]
pub struct ExNumber(serde_json::Number);

/// Mathematical model of a JSON value. Object entries are in key-insertion
/// order; keys are sequences of characters.
pub enum JsonModel {
    Null,
    Bool(bool),
    Int(u64),
    Float(serde_json::Number),
    Str(Seq<char>),
    Array(Seq<JsonModel>),
    Object(Seq<(Seq<char>, JsonModel)>),
}

/// A JSON value: the result of converting an XML element tree.
/// Objects are ordered key-value lists that preserve first-insertion order;
/// keys are unique within one object.
#[derive(Debug, PartialEq)]
pub enum JsonValue {
    Null,
    Bool(bool),
    Int(u64),
    Float(serde_json::Number),
    Str(String),
    Array(Vec<JsonValue>),
    Object(Vec<(String, JsonValue)>),
}

impl JsonValue {
    /// The model of this value.
    pub open spec fn model(self) -> JsonModel
        decreases self, 1int, 0int,
    {
        match self {
            JsonValue::Null => JsonModel::Null,
            JsonValue::Bool(b) => JsonModel::Bool(b),
            JsonValue::Int(n) => JsonModel::Int(n),
            JsonValue::Float(x) => JsonModel::Float(x),
            JsonValue::Str(s) => JsonModel::Str(s@),
            JsonValue::Array(a) => {
                proof {
                    assert(decreases_to!(self => a));
                }
                JsonModel::Array(array_models(a, 0))
            },
            JsonValue::Object(o) => {
                proof {
                    assert(decreases_to!(self => o));
                }
                JsonModel::Object(object_models(o, 0))
            },
        }
    }
}

/// The models of the elements of `a` from index `i` on.
pub open spec fn array_models(a: Vec<JsonValue>, i: int) -> Seq<JsonModel>
    decreases a, 0int, a@.len() - i,
{
    if i < 0 || i >= a@.len() {
        Seq::empty()
    } else {
        proof {
            assert(decreases_to!(a => a@));
            assert(decreases_to!(a@ => a@[i]));
        }
        seq![a@[i].model()] + array_models(a, i + 1)
    }
}

/// The models of the entries of `o` from index `i` on.
pub open spec fn object_models(o: Vec<(String, JsonValue)>, i: int) -> Seq<(Seq<char>, JsonModel)>
    decreases o, 0int, o@.len() - i,
{
    if i < 0 || i >= o@.len() {
        Seq::empty()
    } else {
        proof {
            assert(decreases_to!(o => o@));
            assert(decreases_to!(o@ => o@[i]));
            assert(decreases_to!(o@[i] => o@[i].1));
        }
        seq![(o@[i].0@, o@[i].1.model())] + object_models(o, i + 1)
    }
}

/// The model of an object: its entries from the start.
pub open spec fn object_model(o: Vec<(String, JsonValue)>) -> Seq<(Seq<char>, JsonModel)> {
    object_models(o, 0)
}

/// `array_models` lists the models of the elements, index by index.
pub proof fn lemma_array_models_props(a: Vec<JsonValue>, i: int)
    requires
        0 <= i <= a@.len(),
    ensures
        array_models(a, i).len() == a@.len() - i,
        forall|j: int| 0 <= j < a@.len() - i ==> array_models(a, i)[j] == a@[i + j].model(),
    decreases a@.len() - i,
{
    if i < a@.len() {
        lemma_array_models_props(a, i + 1);
    }
}

/// `object_models` lists the models of the entries, index by index.
pub proof fn lemma_object_models_props(o: Vec<(String, JsonValue)>, i: int)
    requires
        0 <= i <= o@.len(),
    ensures
        object_models(o, i).len() == o@.len() - i,
        forall|j: int| 0 <= j < o@.len() - i ==> object_models(o, i)[j] == (
            o@[i + j].0@,
            o@[i + j].1.model(),
        ),
    decreases o@.len() - i,
{
    if i < o@.len() {
        lemma_object_models_props(o, i + 1);
    }
}

/// The model of an optional value; `None` marks an element that the
/// conversion dropped.
pub open spec fn option_model(r: Option<JsonValue>) -> Option<JsonModel> {
    match r {
        Option::Some(v) => Option::Some(v.model()),
        Option::None => Option::None,
    }
}

} // verus!
