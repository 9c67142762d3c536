//! Flattened JSON values and their CSV text form.
//!
//! A flattened object maps keys to values that carry no further nesting: JSON
//! scalars, or containers that were empty in the input and were preserved by
//! configuration. `render_spec` fixes the text each such value contributes to
//! a CSV field.

use vstd::prelude::*;

verus! {

/// A value of a flattened JSON object: a scalar, or an empty container.
///
/// Numbers are carried in their canonical decimal text form, exactly as the
/// JSON serializer prints them, so that no floating-point value is ever held.
#[derive(Debug)]
pub enum FlatValue {
    Null,
    Bool(bool),
    Number(String),
    Text(String),
    EmptyArray,
    EmptyObject,
}

/// The mathematical model of a `FlatValue`: the same shape over `Seq<char>`.
pub enum ValueModel {
    Null,
    Bool(bool),
    Number(Seq<char>),
    Text(Seq<char>),
    EmptyArray,
    EmptyObject,
}

impl View for FlatValue {
    type V = ValueModel;

    open spec fn view(&self) -> ValueModel {
        match self {
            FlatValue::Null => ValueModel::Null,
            FlatValue::Bool(b) => ValueModel::Bool(*b),
            FlatValue::Number(s) => ValueModel::Number(s@),
            FlatValue::Text(s) => ValueModel::Text(s@),
            FlatValue::EmptyArray => ValueModel::EmptyArray,
            FlatValue::EmptyObject => ValueModel::EmptyObject,
        }
    }
}

/// No key occurs twice among the entries of one flattened object.
pub open spec fn distinct_keys(m: Seq<(Seq<char>, ValueModel)>) -> bool {
    forall|i: int, j: int| 0 <= i < j < m.len() ==> m[i].0 != m[j].0
}

/// The CSV field text of a flattened value: strings verbatim, numbers and
/// booleans in their canonical text form, and the empty string for `null` and
/// for preserved empty containers.
pub open spec fn render_spec(v: ValueModel) -> Seq<char> {
    match v {
        ValueModel::Null => Seq::empty(),
        ValueModel::Bool(b) => if b {
            "true"@
        } else {
            "false"@
        },
        ValueModel::Number(s) => s,
        ValueModel::Text(s) => s,
        ValueModel::EmptyArray => Seq::empty(),
        ValueModel::EmptyObject => Seq::empty(),
    }
}

/// Rendering reproduces a scalar's canonical text form: strings verbatim,
/// numbers their decimal text, booleans their literal text; `null` and the
/// preserved empty containers all render as the empty field.
pub proof fn lemma_render_round_trip(s: Seq<char>)
    ensures
        render_spec(ValueModel::Text(s)) == s,
        render_spec(ValueModel::Number(s)) == s,
        render_spec(ValueModel::Bool(true)) == "true"@,
        render_spec(ValueModel::Bool(false)) == "false"@,
        render_spec(ValueModel::Null) == Seq::<char>::empty(),
        render_spec(ValueModel::EmptyArray) == Seq::<char>::empty(),
        render_spec(ValueModel::EmptyObject) == Seq::<char>::empty(),
{
}

/// Renders one flattened value as CSV field text.
pub fn render_value(v: &FlatValue) -> (r: String)
    ensures
        r@ == render_spec(v@),
{
    match v {
        FlatValue::Null => String::new(),
        FlatValue::Bool(b) => {
            if *b {
                String::from_str("true")
            } else {
                String::from_str("false")
            }
        },
        FlatValue::Number(s) => s.clone(),
        FlatValue::Text(s) => s.clone(),
        FlatValue::EmptyArray => String::new(),
        FlatValue::EmptyObject => String::new(),
    }
}

} // verus!
