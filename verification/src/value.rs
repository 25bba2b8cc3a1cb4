//! The generic structured value tree that the decoder inspects.
//!
//! Concrete wire formats (JSON, TOML, ...) are parsed outside this crate and
//! handed in as a `Value`; the decoder only ever looks at the structural kind
//! of a node (scalar, sequence, mapping), never at wire syntax.

use vstd::prelude::*;

verus! {

broadcast use vstd::std_specs::vec::group_vec_axioms;

/// A format-agnostic structured value: scalar, sequence, or mapping.
///
/// Mappings are kept as a vector of key/value pairs so that no entry order
/// is invented by this crate; duplicate keys are tolerated on input and the
/// later entry wins on decode.
#[derive(Debug, PartialEq, Eq)]
pub enum Value {
    Null,
    Bool(bool),
    Int(i64),
    Text(String),
    List(Vec<Value>),
    Record(Vec<(String, Value)>),
}

/// The mathematical shape of a `Value`: strings become character sequences,
/// vectors become sequences.
pub enum ValueModel {
    Null,
    Bool(bool),
    Int(int),
    Text(Seq<char>),
    List(Seq<ValueModel>),
    Record(Seq<(Seq<char>, ValueModel)>),
}

/// The shapes of the elements of a sequence value.
pub open spec fn list_model(items: Seq<Value>) -> Seq<ValueModel>
    decreases items,
{
    Seq::new(
        items.len(),
        |i: int|
            if 0 <= i < items.len() {
                items[i].deep_view()
            } else {
                ValueModel::Null
            },
    )
}

/// The shapes of the entries of a mapping value.
pub open spec fn record_model(entries: Seq<(String, Value)>) -> Seq<(Seq<char>, ValueModel)>
    decreases entries,
{
    Seq::new(
        entries.len(),
        |i: int|
            if 0 <= i < entries.len() {
                (entries[i].0@, entries[i].1.deep_view())
            } else {
                (Seq::empty(), ValueModel::Null)
            },
    )
}

impl DeepView for Value {
    type V = ValueModel;

    open spec fn deep_view(&self) -> ValueModel
        decreases self,
    {
        match self {
            Value::Null => ValueModel::Null,
            Value::Bool(b) => ValueModel::Bool(*b),
            Value::Int(i) => ValueModel::Int(*i as int),
            Value::Text(s) => ValueModel::Text(s@),
            Value::List(items) => ValueModel::List(list_model(items@)),
            Value::Record(entries) => ValueModel::Record(record_model(entries@)),
        }
    }
}

/// Whether a value model is a plain string scalar.
pub open spec fn is_text(v: ValueModel) -> bool {
    v is Text
}

/// The characters of a string scalar (empty for any other shape).
pub open spec fn text_of(v: ValueModel) -> Seq<char> {
    match v {
        ValueModel::Text(s) => s,
        _ => Seq::empty(),
    }
}

} // verus!
