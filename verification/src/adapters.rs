//! Trusted adapters over the outside crates and the standard library.
//!
//! Every executable function here is `external_body`: its contract is
//! believed, not proved, and each body only makes the named outside call and
//! converts values one for one. The uninterpreted spec functions name what an
//! opaque outside value holds (`entries_model`, `writer_rows`, `spool_bytes`)
//! or what a deterministic outside computation returns (`csv_encoding`).

use vstd::prelude::*;
use crate::config::{Flattener, FlattenerModel};
use crate::config::ArrayFormatting;
use crate::value::{FlatValue, ValueModel, distinct_keys};

verus! {

//
// serde_json values and parsing
//

#[verifier::external_type_specification]
#[verifier::external_body]
pub struct ExJsonValue(serde_json::Value);

#[verifier::external_type_specification]
#[verifier::external_body]
pub struct ExJsonMapIntoIter(serde_json::map::IntoIter);

/// The entries a flattened object's iterator will yield, in order, with each
/// value read as the scalar-or-empty-container it is.
pub uninterp spec fn entries_model(it: serde_json::map::IntoIter) -> Seq<(Seq<char>, ValueModel)>;

/// What one decoding step finds in the byte stream: the next value ends at
/// the given offset, or only whitespace remains, or the bytes are malformed.
pub enum StreamStep {
    Next(int),
    End,
    Fail,
}

/// The outcome of decoding one JSON value from `input` at byte `start`: a
/// function of the bytes alone.
pub uninterp spec fn json_step(input: Seq<u8>, start: int) -> StreamStep;

/// The JSON value that such a successful step decodes to: a function of the
/// bytes alone.
pub uninterp spec fn json_step_value(input: Seq<u8>, start: int) -> serde_json::Value;

/// Relies on serde_json::Deserializer::from_slice and StreamDeserializer:
/// decodes the next whitespace- or adjacency-separated JSON value from
/// `input` starting at byte `start`, and `byte_offset` reports how far the
/// stream advanced. Decoding is deterministic over the bytes, and a
/// successful step always makes progress.
#[verifier::external_body]
pub fn json_next(input: &Vec<u8>, start: usize) -> (r: Result<
    Option<(serde_json::Value, usize)>,
    String,
>)
    requires
        start <= input@.len(),
    ensures
        r matches Ok(Some(p)) ==> start < p.1 <= input@.len() && json_step(input@, start as int)
            == StreamStep::Next(p.1 as int) && p.0 == json_step_value(input@, start as int),
        r matches Ok(None) ==> json_step(input@, start as int) == StreamStep::End,
        r is Err ==> json_step(input@, start as int) == StreamStep::Fail,
{
    let rest = &input[start..];
    let mut it = serde_json::Deserializer::from_slice(rest).into_iter::<serde_json::Value>();
    match it.next() {
        None => Ok(None),
        Some(Ok(v)) => Ok(Some((v, start + it.byte_offset()))),
        Some(Err(e)) => Err(e.to_string()),
    }
}

//
// flatten_json_object
//

/// Whether flattening `v` under `cfg` succeeds: a function of the arguments
/// alone.
pub uninterp spec fn flattens_ok(cfg: FlattenerModel, v: serde_json::Value) -> bool;

/// The flat object that flattening `v` under `cfg` produces, as the sequence
/// of its entries in iteration order: a function of the arguments alone (the
/// flattened map iterates sorted by key).
pub uninterp spec fn flatten_model(cfg: FlattenerModel, v: serde_json::Value) -> Seq<
    (Seq<char>, ValueModel),
>;

/// Relies on flatten_json_object::Flattener::flatten: a pure function of the
/// configuration and the value, which succeeds exactly when the value is a
/// JSON object (that flattens without overwriting a key), and then produces
/// a JSON object whose keys are distinct; the returned iterator hands its
/// entries out. The flattener is built to carry exactly the choices in
/// `cfg`.
#[verifier::external_body]
pub fn flatten_entries(cfg: &Flattener, value: &serde_json::Value) -> (r: Result<
    serde_json::map::IntoIter,
    String,
>)
    ensures
        r is Ok <==> flattens_ok(cfg@, *value),
        r matches Ok(it) ==> entries_model(it) == flatten_model(cfg@, *value) && distinct_keys(
            entries_model(it),
        ),
{
    let mut f = flatten_json_object::Flattener::new()
        .set_key_separator(cfg.key_separator.as_str())
        .set_preserve_empty_arrays(cfg.preserve_empty_arrays)
        .set_preserve_empty_objects(cfg.preserve_empty_objects);
    if let ArrayFormatting::Surrounded { start, end } = &cfg.array_formatting {
        let (s, e) = (start.clone(), end.clone());
        f = f.set_array_formatting(flatten_json_object::ArrayFormatting::Surrounded { start: s, end: e });
    }
    match f.flatten(value) {
        Ok(serde_json::Value::Object(m)) => Ok(m.into_iter()),
        // flatten wraps its map in Value::Object on every success, so this
        // arm is unreachable; an empty object keeps the conversion total.
        Ok(_) => Ok(serde_json::Map::new().into_iter()),
        Err(e) => Err(e.to_string()),
    }
}

/// Relies on serde_json::map::IntoIter::next: yields the first remaining
/// entry, converting the value one variant to one variant; containers here
/// are the preserved empty ones.
#[verifier::external_body]
pub fn entries_next(it: &mut serde_json::map::IntoIter) -> (r: Option<(String, FlatValue)>)
    ensures
        entries_model(*old(it)).len() == 0 ==> r is None && entries_model(*final(it))
            == entries_model(*old(it)),
        entries_model(*old(it)).len() > 0 ==> (match r {
            Some(p) => p.0@ == entries_model(*old(it))[0].0 && p.1@ == entries_model(*old(it))[0].1
                && entries_model(*final(it)) == entries_model(*old(it)).drop_first(),
            None => false,
        }),
{
    it.next().map(|(k, v)| (k, match v {
        serde_json::Value::Null => FlatValue::Null,
        serde_json::Value::Bool(b) => FlatValue::Bool(b),
        serde_json::Value::Number(n) => FlatValue::Number(n.to_string()),
        serde_json::Value::String(s) => FlatValue::Text(s),
        serde_json::Value::Array(_) => FlatValue::EmptyArray,
        serde_json::Value::Object(_) => FlatValue::EmptyObject,
    }))
}

//
// csv
//

/// A CSV writer over an in-memory buffer. The csv crate's writer type takes
/// its sink as a trait-bounded parameter that cannot be declared to the
/// verifier, so the writer is held opaquely in a field instead.
#[verifier::external_body]
pub struct CsvWriter {
    inner: csv::Writer<Vec<u8>>,
}

/// The records written to a CSV writer so far, each a row of fields.
pub uninterp spec fn writer_rows(w: CsvWriter) -> Seq<Seq<Seq<char>>>;

/// The field delimiter a CSV writer was built with.
pub uninterp spec fn writer_delim(w: CsvWriter) -> u8;

/// The writer stands between records: no partially written record is
/// pending. A failed write leaves this unknown.
pub uninterp spec fn writer_ok(w: CsvWriter) -> bool;

/// The bytes the csv crate produces for these rows under this delimiter:
/// fields joined by the delimiter and quoted as needed, one `\n`-terminated
/// line per row.
pub uninterp spec fn csv_encoding(rows: Seq<Seq<Seq<char>>>, delimiter: u8) -> Seq<u8>;

/// Relies on csv::WriterBuilder: a fresh writer over an in-memory buffer,
/// with the given field delimiter and nothing written yet.
#[verifier::external_body]
pub fn csv_writer_new(delimiter: u8) -> (w: CsvWriter)
    ensures
        writer_rows(w) == Seq::<Seq<Seq<char>>>::empty(),
        writer_delim(w) == delimiter,
        writer_ok(w),
{
    CsvWriter { inner: csv::WriterBuilder::new().delimiter(delimiter).from_writer(Vec::new()) }
}

/// Relies on csv::Writer::write_record: appends exactly one record. With the
/// in-memory sink, which never fails, the only failure is a record whose
/// field count differs from the first record's (the writer is built
/// non-flexible).
#[verifier::external_body]
pub fn csv_write_record(w: &mut CsvWriter, record: &Vec<String>) -> (r: Result<(), String>)
    requires
        writer_ok(*old(w)),
    ensures
        r is Ok <==> (writer_rows(*old(w)).len() == 0 || record@.len() == writer_rows(
            *old(w),
        )[0].len()),
        r is Ok ==> writer_rows(*final(w)) == writer_rows(*old(w)).push(record.deep_view())
            && writer_delim(*final(w)) == writer_delim(*old(w)) && writer_ok(*final(w)),
{
    w.inner.write_record(record).map_err(|e| e.to_string())
}

/// Relies on csv::Writer::into_inner: flushing the writer yields exactly the
/// CSV encoding of the records written. Flushing only writes to the
/// in-memory sink, which never fails.
#[verifier::external_body]
pub fn csv_into_bytes(w: CsvWriter) -> (r: Result<Vec<u8>, String>)
    requires
        writer_ok(w),
    ensures
        r is Ok,
        r matches Ok(bytes) ==> bytes@ == csv_encoding(writer_rows(w), writer_delim(w)),
{
    w.inner.into_inner().map_err(|e| e.to_string())
}

//
// tempfile spill storage
//

#[verifier::external_type_specification]
#[verifier::external_body]
pub struct ExSpooledTempFile(tempfile::SpooledTempFile);

/// The bytes held by a spill file, in write order.
pub uninterp spec fn spool_bytes(f: tempfile::SpooledTempFile) -> Seq<u8>;

/// The current read/write position of a spill file.
pub uninterp spec fn spool_pos(f: tempfile::SpooledTempFile) -> int;

/// Relies on tempfile::SpooledTempFile::new: an empty buffer that rolls over
/// to a temporary file on disk beyond `max_memory` bytes, and is removed by
/// the operating system when dropped.
#[verifier::external_body]
pub fn spool_new(max_memory: usize) -> (f: tempfile::SpooledTempFile)
    ensures
        spool_bytes(f) == Seq::<u8>::empty(),
        spool_pos(f) == 0,
{
    tempfile::SpooledTempFile::new(max_memory)
}

/// Relies on std::io::Write::write_all on SpooledTempFile: appends the whole
/// buffer at the current position, which the caller keeps at the end.
#[verifier::external_body]
pub fn spool_append(f: &mut tempfile::SpooledTempFile, buf: &Vec<u8>) -> (r: Result<(), String>)
    requires
        spool_pos(*old(f)) == spool_bytes(*old(f)).len(),
    ensures
        r is Ok ==> spool_bytes(*final(f)) == spool_bytes(*old(f)) + buf@ && spool_pos(*final(f))
            == spool_bytes(*final(f)).len(),
{
    std::io::Write::write_all(f, buf.as_slice()).map_err(|e| e.to_string())
}

/// Relies on std::io::Seek::seek on SpooledTempFile: rewinds to the start
/// without touching the contents.
#[verifier::external_body]
pub fn spool_rewind(f: &mut tempfile::SpooledTempFile) -> (r: Result<(), String>)
    ensures
        r is Ok ==> spool_bytes(*final(f)) == spool_bytes(*old(f)) && spool_pos(*final(f)) == 0,
{
    std::io::Seek::seek(f, std::io::SeekFrom::Start(0)).map(|_| ()).map_err(|e| e.to_string())
}

/// Relies on std::io::Read::read_to_end on SpooledTempFile: reads everything
/// from the current position to the end.
#[verifier::external_body]
pub fn spool_read_to_end(f: &mut tempfile::SpooledTempFile) -> (r: Result<Vec<u8>, String>)
    requires
        0 <= spool_pos(*old(f)) <= spool_bytes(*old(f)).len(),
    ensures
        r matches Ok(v) ==> v@ == spool_bytes(*old(f)).skip(spool_pos(*old(f))) && spool_bytes(
            *final(f),
        ) == spool_bytes(*old(f)) && spool_pos(*final(f)) == spool_bytes(*old(f)).len(),
{
    let mut v = Vec::new();
    match std::io::Read::read_to_end(f, &mut v) {
        Ok(_) => Ok(v),
        Err(e) => Err(e.to_string()),
    }
}

//
// std strings
//

/// Relies on String::push: appends exactly one character at the end.
#[verifier::external_body]
pub fn push_char(s: &mut String, c: char)
    ensures
        final(s)@ == old(s)@.push(c),
{
    s.push(c);
}

/// Relies on String::from_utf8: succeeds exactly on valid UTF-8 input and
/// returns the string the bytes decode to.
#[verifier::external_body]
pub fn string_from_utf8(bytes: Vec<u8>) -> (r: Option<String>)
    ensures
        r is Some <==> vstd::utf8::valid_utf8(bytes@),
        r matches Some(s) ==> s@ == vstd::utf8::decode_utf8(bytes@),
{
    String::from_utf8(bytes).ok()
}

} // verus!
