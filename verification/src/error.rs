//! Errors of a conversion.

use vstd::prelude::*;

verus! {

/// Everything that can go wrong while converting JSON objects to CSV.
///
/// Outside failures carry the reporting crate's message text. A
/// `FlattenedKeysCollision` is this crate's own finding: two keys that should
/// be different end up looking the same after flattening.
#[derive(Debug)]
pub enum Error {
    /// The flattening collaborator rejected a value.
    Flattening(String),
    /// Two distinct keys collapsed into one caller-facing key.
    FlattenedKeysCollision,
    /// The CSV writer failed.
    WrittingCSV(String),
    /// The input byte stream is not well-formed JSON.
    ParsingJson(String),
    /// Reading or writing the spill storage failed.
    InputOutput(String),
}

} // verus!
