//! Flattening configuration.
//!
//! `Flattener` holds the caller's flattening choices: the key separator, the
//! array formatting style, and whether empty arrays and objects survive
//! flattening. A conversion never flattens with this configuration directly:
//! it derives a safe twin whose separator and array markers are reserved
//! control-picture characters, so that collisions caused purely by the
//! caller's separator choice remain detectable. `transform_key_spec` is the
//! mapping from a safe key back to the caller-facing key.

use vstd::prelude::*;
use crate::replace::{replace_seq, replace_str};

verus! {

/// How array positions appear inside flattened keys.
#[derive(Debug, Clone)]
pub enum ArrayFormatting {
    /// The position is joined with the key separator: `{"a": ["b"]}` gives `a.0`.
    Plain,
    /// The position is surrounded by `start` and `end`: `{"a": ["b"]}` gives `a[0]`.
    Surrounded { start: String, end: String },
}

/// The model of an `ArrayFormatting`: the same shape over `Seq<char>`.
pub enum FormattingModel {
    Plain,
    Surrounded { start: Seq<char>, end: Seq<char> },
}

impl View for ArrayFormatting {
    type V = FormattingModel;

    open spec fn view(&self) -> FormattingModel {
        match self {
            ArrayFormatting::Plain => FormattingModel::Plain,
            ArrayFormatting::Surrounded { start, end } => FormattingModel::Surrounded {
                start: start@,
                end: end@,
            },
        }
    }
}

/// The flattening configuration: separator, array formatting, and whether
/// empty arrays and objects are preserved.
#[derive(Debug, Clone)]
pub struct Flattener {
    pub key_separator: String,
    pub array_formatting: ArrayFormatting,
    pub preserve_empty_arrays: bool,
    pub preserve_empty_objects: bool,
}

/// The model of a `Flattener`.
pub struct FlattenerModel {
    pub key_separator: Seq<char>,
    pub array_formatting: FormattingModel,
    pub preserve_empty_arrays: bool,
    pub preserve_empty_objects: bool,
}

impl View for Flattener {
    type V = FlattenerModel;

    open spec fn view(&self) -> FlattenerModel {
        FlattenerModel {
            key_separator: self.key_separator@,
            array_formatting: self.array_formatting@,
            preserve_empty_arrays: self.preserve_empty_arrays,
            preserve_empty_objects: self.preserve_empty_objects,
        }
    }
}

impl Flattener {
    /// The default configuration: separator `.`, plain array formatting,
    /// empty arrays and objects dropped.
    pub fn new() -> (r: Self)
        ensures
            r@.key_separator == "."@,
            r@.array_formatting is Plain,
            !r@.preserve_empty_arrays,
            !r@.preserve_empty_objects,
    {
        Flattener {
            key_separator: String::from_str("."),
            array_formatting: ArrayFormatting::Plain,
            preserve_empty_arrays: false,
            preserve_empty_objects: false,
        }
    }

    /// Replaces the key separator.
    pub fn set_key_separator(self, key_separator: &str) -> (r: Self)
        ensures
            r@ == (FlattenerModel { key_separator: key_separator@, ..self@ }),
    {
        Flattener { key_separator: String::from_str(key_separator), ..self }
    }

    /// Replaces the array formatting style.
    pub fn set_array_formatting(self, array_formatting: ArrayFormatting) -> (r: Self)
        ensures
            r@ == (FlattenerModel { array_formatting: array_formatting@, ..self@ }),
    {
        Flattener { array_formatting, ..self }
    }

    /// Chooses whether empty arrays `[]` are preserved.
    pub fn set_preserve_empty_arrays(self, value: bool) -> (r: Self)
        ensures
            r@ == (FlattenerModel { preserve_empty_arrays: value, ..self@ }),
    {
        Flattener { preserve_empty_arrays: value, ..self }
    }

    /// Chooses whether empty objects `{}` are preserved.
    pub fn set_preserve_empty_objects(self, value: bool) -> (r: Self)
        ensures
            r@ == (FlattenerModel { preserve_empty_objects: value, ..self@ }),
    {
        Flattener { preserve_empty_objects: value, ..self }
    }
}

/// The reserved key separator used while flattening.
pub fn reserved_separator() -> (r: &'static str)
    ensures
        r@ == "\u{241D}"@,
{
    "\u{241D}"
}

/// The reserved start marker for surrounded array formatting.
pub fn reserved_start() -> (r: &'static str)
    ensures
        r@ == "\u{241E}"@,
{
    "\u{241E}"
}

/// The reserved end marker for surrounded array formatting.
pub fn reserved_end() -> (r: &'static str)
    ensures
        r@ == "\u{241F}"@,
{
    "\u{241F}"
}

/// The safe twin of a configuration: the same choices, with the separator and
/// (for `Surrounded`) the markers replaced by the reserved characters. The
/// array formatting variant never changes.
pub open spec fn safe_model(m: FlattenerModel) -> FlattenerModel {
    FlattenerModel {
        key_separator: "\u{241D}"@,
        array_formatting: match m.array_formatting {
            FormattingModel::Plain => FormattingModel::Plain,
            FormattingModel::Surrounded { .. } => FormattingModel::Surrounded {
                start: "\u{241E}"@,
                end: "\u{241F}"@,
            },
        },
        preserve_empty_arrays: m.preserve_empty_arrays,
        preserve_empty_objects: m.preserve_empty_objects,
    }
}

/// Maps a key produced under the safe configuration back to the caller-facing
/// form: the reserved separator becomes the caller's separator, and for
/// `Surrounded` formatting the reserved end and start markers become the
/// caller's markers, end before start.
pub open spec fn transform_key_spec(m: FlattenerModel, k: Seq<char>) -> Seq<char> {
    let k1 = replace_seq(k, "\u{241D}"@, m.key_separator);
    match m.array_formatting {
        FormattingModel::Plain => k1,
        FormattingModel::Surrounded { start, end } => replace_seq(
            replace_seq(k1, "\u{241F}"@, end),
            "\u{241E}"@,
            start,
        ),
    }
}

/// Maps one key from its safe form to the caller-facing form.
pub fn transform_key_str(cfg: &Flattener, key: &str) -> (r: String)
    ensures
        r@ == transform_key_spec(cfg@, key@),
{
    proof {
        lemma_reserved_len();
    }
    let k1 = replace_str(key, reserved_separator(), cfg.key_separator.as_str());
    match &cfg.array_formatting {
        ArrayFormatting::Plain => k1,
        ArrayFormatting::Surrounded { start, end } => {
            let k2 = replace_str(k1.as_str(), reserved_end(), end.as_str());
            replace_str(k2.as_str(), reserved_start(), start.as_str())
        },
    }
}

/// The reserved characters are single characters; their string forms have
/// length one.
pub proof fn lemma_reserved_len()
    ensures
        "\u{241D}"@.len() == 1,
        "\u{241E}"@.len() == 1,
        "\u{241F}"@.len() == 1,
{
    reveal_strlit("\u{241D}");
    reveal_strlit("\u{241E}");
    reveal_strlit("\u{241F}");
}

} // verus!
