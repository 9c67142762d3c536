//! Converts JSON objects into CSV rows.
//!
//! Given an array of JSON values, or a byte buffer that contains JSON objects
//! one after the other, this library produces CSV output with one row per
//! object. Nested objects and arrays are first flattened into objects whose
//! keys encode the original path; the flattening itself is delegated to the
//! `flatten_json_object` crate, and CSV quoting to the `csv` crate.
//!
//! The CSV headers are the union of all the keys of the flattened objects,
//! sorted lexicographically by their caller-facing text. Two keys that should
//! be different but end up looking the same after flattening (for example
//! `{"a": {"b": 1}}` together with `{"a.b": 2}` under the separator `.`) are
//! reported as a collision error instead of being silently merged. Flattening
//! runs with reserved control-picture separators and the keys are mapped back
//! afterwards, which is what makes such collisions detectable.

use vstd::prelude::*;

pub mod adapters;
pub mod config;
pub mod engine;
pub mod error;
pub mod headers;
pub mod lex;
pub mod replace;
pub mod spill;
pub mod value;

pub use config::ArrayFormatting;
pub use config::Flattener;
pub use error::Error;

verus! {

use crate::adapters::{flatten_entries, entries_next, entries_model, flatten_model, flattens_ok,
    json_next, json_step, json_step_value, StreamStep, spool_new, spool_append, spool_rewind,
    spool_read_to_end, spool_bytes, spool_pos};
use crate::config::FlattenerModel;
use crate::engine::cells_view;
use crate::spill::{enc_records, enc_record, rec_bounded, encode_record_vec, decode_record,
    lemma_enc_records_split, lemma_enc_records_first};
use crate::config::{safe_model, transform_key_spec, transform_key_str, reserved_separator,
    reserved_start, reserved_end};
use crate::engine::{obj_view, objs_view, objs_cells_view, all_keys, obj_keys, public_keys,
    has_collision, public_cells, outcome_ok, header_seq_ok, to_public_cells, emit_csv,
    observe_headers, lemma_all_keys_finite};
use crate::headers::HeaderSet;
use crate::value::{FlatValue, ValueModel, distinct_keys};

broadcast use vstd::set::group_set_axioms;

/// How many spill bytes stay in memory before rolling over to a temporary
/// file on disk.
pub const SPOOL_MEMORY_LIMIT: usize = 8388608;

/// The flat objects a sequence of JSON values stands for when flattened
/// under `cfg`.
pub open spec fn flat_models(cfg: FlattenerModel, vals: Seq<serde_json::Value>) -> Seq<
    Seq<(Seq<char>, ValueModel)>,
> {
    vals.map_values(|v: serde_json::Value| flatten_model(cfg, v))
}

/// Every value of the sequence flattens successfully under `cfg`.
pub open spec fn all_flatten_ok(cfg: FlattenerModel, vals: Seq<serde_json::Value>) -> bool {
    forall|i: int| 0 <= i < vals.len() ==> flattens_ok(cfg, #[trigger] vals[i])
}

/// The JSON values the byte stream decodes to from position `pos`, paired
/// with whether the stream ends cleanly rather than in malformed bytes.
pub open spec fn decode_list(input: Seq<u8>, pos: int) -> (Seq<serde_json::Value>, bool)
    decreases input.len() - pos,
        when 0 <= pos <= input.len()
{
    match json_step(input, pos) {
        StreamStep::End => (Seq::empty(), true),
        StreamStep::Fail => (Seq::empty(), false),
        StreamStep::Next(p) => {
            if pos < p <= input.len() {
                let rest = decode_list(input, p);
                (seq![json_step_value(input, pos)] + rest.0, rest.1)
            } else {
                (Seq::empty(), false)
            }
        },
    }
}

/// The values the whole byte stream decodes to.
pub open spec fn stream_values(input: Seq<u8>) -> Seq<serde_json::Value> {
    decode_list(input, 0).0
}

/// Whether the whole byte stream is well-formed JSON.
pub open spec fn stream_clean(input: Seq<u8>) -> bool {
    decode_list(input, 0).1
}

/// Flattens one JSON value under `cfg` and collects the entries of the
/// resulting flat object, exactly the model of the flattening. The error is
/// the flattening crate's message.
pub fn flatten_one_object(cfg: &Flattener, value: &serde_json::Value) -> (r: Result<
    Vec<(String, FlatValue)>,
    String,
>)
    ensures
        r is Ok <==> flattens_ok(cfg@, *value),
        r matches Ok(m) ==> obj_view(m@) == flatten_model(cfg@, *value) && distinct_keys(
            obj_view(m@),
        ),
{
    let mut it = match flatten_entries(cfg, value) {
        Ok(it) => it,
        Err(e) => {
            return Err(e);
        },
    };
    let ghost full = entries_model(it);
    let mut m: Vec<(String, FlatValue)> = Vec::new();
    loop
        invariant_except_break
            obj_view(m@) + entries_model(it) =~= full,
            distinct_keys(full),
        ensures
            obj_view(m@) =~= full,
        decreases entries_model(it).len(),
    {
        let ghost before = entries_model(it);
        match entries_next(&mut it) {
            None => {
                proof {
                    assert(obj_view(m@) + entries_model(it) =~= obj_view(m@));
                }
                break;
            },
            Some(p) => {
                let ghost prev = m@;
                m.push(p);
                proof {
                    assert(obj_view(prev).len() + before.len() == full.len());
                    assert(m@ == prev.push(p));
                    assert(obj_view(m@) + entries_model(it) =~= full) by {
                        let lhs = obj_view(m@) + entries_model(it);
                        assert forall|j: int| 0 <= j < full.len() implies lhs[j] == full[j] by {
                            let k = obj_view(prev).len() as int;
                            if j < k {
                                assert(m@[j] == prev[j]);
                                assert((obj_view(prev) + before)[j] == full[j]);
                            } else if j == k {
                                assert(m@[j] == p);
                                assert((obj_view(prev) + before)[j] == full[j]);
                                assert(before[0] == full[j]);
                            } else {
                                assert((obj_view(prev) + before)[j] == full[j]);
                                assert(before[j - k] == full[j]);
                                assert(entries_model(it)[j - k - 1] == before[j - k]);
                            }
                        }
                    }
                }
            },
        }
    }
    Ok(m)
}

/// The converter. It holds the caller's flattening configuration and the
/// derived safe twin that the flattening actually runs with.
pub struct Json2Csv {
    /// The safe configuration, with reserved separators.
    pub flattener: Flattener,
    /// The configuration provided by the caller.
    pub original_flattener: Flattener,
}

impl Json2Csv {
    /// The safe twin carries reserved separators and the caller's choices.
    pub open spec fn wf(&self) -> bool {
        self.flattener@ == safe_model(self.original_flattener@)
    }

    /// Creates a converter with the flattening configuration provided.
    ///
    /// The separators are replaced with reserved control-picture characters
    /// (not expected in ordinary input) so that collisions such as the one
    /// between `{"a": {"b": 1}}` and `{"a.b": 2}` under separator `.` are
    /// detected rather than silently merged.
    pub fn new(flattener: Flattener) -> (r: Self)
        ensures
            r.wf(),
            r.original_flattener@ == flattener@,
    {
        let safe = match &flattener.array_formatting {
            ArrayFormatting::Plain => Flattener {
                key_separator: String::from_str(reserved_separator()),
                array_formatting: ArrayFormatting::Plain,
                preserve_empty_arrays: flattener.preserve_empty_arrays,
                preserve_empty_objects: flattener.preserve_empty_objects,
            },
            ArrayFormatting::Surrounded { .. } => Flattener {
                key_separator: String::from_str(reserved_separator()),
                array_formatting: ArrayFormatting::Surrounded {
                    start: String::from_str(reserved_start()),
                    end: String::from_str(reserved_end()),
                },
                preserve_empty_arrays: flattener.preserve_empty_arrays,
                preserve_empty_objects: flattener.preserve_empty_objects,
            },
        };
        Json2Csv { flattener: safe, original_flattener: flattener }
    }

    /// Maps a key from the reserved separators back to the caller's.
    pub fn transform_key(&self, key: &str) -> (r: String)
        ensures
            r@ == transform_key_spec(self.original_flattener@, key@),
    {
        transform_key_str(&self.original_flattener, key)
    }

    /// The flat objects this converter's safe flattening gives the values.
    pub open spec fn value_objs(&self, vals: Seq<serde_json::Value>) -> Seq<
        Seq<(Seq<char>, ValueModel)>,
    > {
        flat_models(safe_model(self.original_flattener@), vals)
    }

    /// Every one of the values flattens successfully under the safe
    /// configuration.
    pub open spec fn values_flatten(&self, vals: Seq<serde_json::Value>) -> bool {
        all_flatten_ok(safe_model(self.original_flattener@), vals)
    }

    /// Flattens each object of the array and renders one CSV row per object,
    /// returning the CSV bytes.
    ///
    /// The headers are the union of all the keys of the flattened objects,
    /// sorted. Succeeds exactly when every value flattens and no two keys
    /// collapse into the same caller-facing key; an input that yields no
    /// keys at all produces no output.
    pub fn convert_from_array(self, objects: &Vec<serde_json::Value>, delimiter: u8) -> (r: Result<
        Vec<u8>,
        Error,
    >)
        requires
            self.wf(),
        ensures
            r is Ok <==> self.values_flatten(objects@) && !has_collision(
                self.original_flattener@,
                self.value_objs(objects@),
            ),
            r matches Ok(bytes) ==> outcome_ok(
                self.original_flattener@,
                self.value_objs(objects@),
                delimiter,
                bytes@,
            ),
            r matches Err(e) ==> e is Flattening || e is FlattenedKeysCollision,
            (r matches Err(e) && e is Flattening) <==> !self.values_flatten(objects@),
            (r matches Err(e) && e is FlattenedKeysCollision) <==> self.values_flatten(objects@)
                && has_collision(self.original_flattener@, self.value_objs(objects@)),
    {
        let ghost safe = safe_model(self.original_flattener@);
        let mut fobjs: Vec<Vec<(String, FlatValue)>> = Vec::new();
        let n = objects.len();
        let mut i: usize = 0;
        while i < n
            invariant
                i <= n,
                n == objects@.len(),
                fobjs@.len() == i,
                safe == self.flattener@,
                safe == safe_model(self.original_flattener@),
                objs_view(fobjs@) =~= flat_models(safe, objects@.take(i as int)),
                forall|j: int| 0 <= j < i ==> flattens_ok(safe, #[trigger] objects@[j]),
            decreases n - i,
        {
            match flatten_one_object(&self.flattener, &objects[i]) {
                Ok(m) => {
                    let ghost prev = fobjs@;
                    fobjs.push(m);
                    proof {
                        let lhs = objs_view(fobjs@);
                        let rhs = flat_models(safe, objects@.take(i + 1));
                        assert(objs_view(prev).len() == i as int);
                        assert(prev.len() == i as int);
                        assert forall|k: int| 0 <= k < i + 1 implies lhs[k] == rhs[k] by {
                            if k < i {
                                assert(fobjs@[k] == prev[k]);
                                assert(objs_view(prev)[k] == flat_models(
                                    safe,
                                    objects@.take(i as int),
                                )[k]);
                            } else {
                                assert(fobjs@[k] == m);
                            }
                        }
                        assert(lhs =~= rhs);
                    }
                },
                Err(e) => {
                    proof {
                        assert(!flattens_ok(safe, objects@[i as int]));
                        assert(!self.values_flatten(objects@));
                    }
                    return Err(Error::Flattening(e));
                },
            }
            i += 1;
        }
        proof {
            assert(objects@.take(n as int) =~= objects@);
            assert(objs_view(fobjs@) == self.value_objs(objects@));
            assert(self.values_flatten(objects@));
        }
        let r = convert_flat(&self.original_flattener, &fobjs, delimiter);
        proof {
            if r is Ok {
                let bytes = r->Ok_0;
                assert(outcome_ok(
                    self.original_flattener@,
                    objs_view(fobjs@),
                    delimiter,
                    bytes@,
                ));
            }
        }
        r
    }

    /// Flattens the JSON objects in the byte stream, transforming each of
    /// them into a CSV row, and returns the CSV bytes.
    ///
    /// The input holds JSON objects one immediately after the other or
    /// separated by whitespace. Rendered rows are spilled to transient
    /// storage between the header-discovery pass and the row-emission pass,
    /// so the flattened objects never all sit in memory at once; the storage
    /// rolls over to a temporary file beyond `SPOOL_MEMORY_LIMIT` bytes and
    /// is released when the conversion returns, whatever the outcome.
    ///
    /// On success the output is the table of the decoded values, exactly as
    /// `convert_from_array` produces it; an input that decodes cleanly,
    /// flattens throughout and has no collision fails only if the spill
    /// storage does, and a stream of plain whitespace succeeds outright with
    /// empty output.
    pub fn convert_from_reader(self, input: &Vec<u8>, delimiter: u8) -> (r: Result<Vec<u8>, Error>)
        requires
            self.wf(),
        ensures
            r matches Ok(bytes) ==> stream_clean(input@) && self.values_flatten(
                stream_values(input@),
            ) && outcome_ok(
                self.original_flattener@,
                self.value_objs(stream_values(input@)),
                delimiter,
                bytes@,
            ),
            stream_clean(input@) && self.values_flatten(stream_values(input@)) && !has_collision(
                self.original_flattener@,
                self.value_objs(stream_values(input@)),
            ) ==> r is Ok || (r matches Err(e) && e is InputOutput),
            stream_clean(input@) && stream_values(input@).len() == 0 ==> (r matches Ok(bytes)
                && bytes@ == Seq::<u8>::empty()),
            r matches Err(e) ==> e is ParsingJson || e is Flattening || e is FlattenedKeysCollision
                || e is InputOutput,
            (r matches Err(e) && e is ParsingJson) ==> !stream_clean(input@)
                && self.values_flatten(stream_values(input@)),
            (r matches Err(e) && e is Flattening) ==> !self.values_flatten(stream_values(input@)),
            (r matches Err(e) && e is FlattenedKeysCollision) ==> stream_clean(input@)
                && self.values_flatten(stream_values(input@)) && has_collision(
                self.original_flattener@,
                self.value_objs(stream_values(input@)),
            ),
    {
        let ghost cfg = self.original_flattener@;
        let ghost safe = safe_model(cfg);
        let mut spool = spool_new(SPOOL_MEMORY_LIMIT);
        let mut safe_set = HeaderSet::new();
        let mut public_set = HeaderSet::new();
        let mut count: usize = 0;
        let mut pos: usize = 0;
        let ghost mut vals_done: Seq<serde_json::Value> = Seq::empty();
        let ghost mut objs: Seq<Seq<(Seq<char>, ValueModel)>> = Seq::empty();
        let ghost mut recs: Seq<Seq<(Seq<char>, Seq<char>)>> = Seq::empty();
        proof {
            assert(all_keys(objs) =~= Set::<Seq<char>>::empty());
            assert(public_keys(cfg, all_keys(objs)) =~= Set::<Seq<char>>::empty());
            assert(stream_values(input@) =~= vals_done + decode_list(input@, 0).0);
            assert(objs =~= flat_models(safe, vals_done));
        }
        // First pass: discover headers, spill one rendered record per object.
        loop
            invariant_except_break
                pos <= input@.len(),
                count <= pos,
                safe_set.wf(),
                public_set.wf(),
                safe_set.key_set() == all_keys(objs),
                public_set.key_set() == public_keys(cfg, all_keys(objs)),
                cfg == self.original_flattener@,
                safe == safe_model(cfg),
                self.wf(),
                stream_values(input@) == vals_done + decode_list(input@, pos as int).0,
                stream_clean(input@) == decode_list(input@, pos as int).1,
                forall|j: int| 0 <= j < vals_done.len() ==> flattens_ok(
                    safe,
                    #[trigger] vals_done[j],
                ),
                objs == flat_models(safe, vals_done),
                spool_pos(spool) == spool_bytes(spool).len(),
                spool_bytes(spool) == enc_records(recs),
                recs =~= objs.map_values(
                    |o: Seq<(Seq<char>, ValueModel)>| public_cells(cfg, o),
                ),
                forall|t: int| 0 <= t < recs.len() ==> rec_bounded(#[trigger] recs[t]),
                count == recs.len(),
                objs.len() == recs.len(),
                vals_done.len() == recs.len(),
            ensures
                safe_set.wf(),
                public_set.wf(),
                safe_set.key_set() == all_keys(objs),
                public_set.key_set() == public_keys(cfg, all_keys(objs)),
                cfg == self.original_flattener@,
                safe == safe_model(cfg),
                stream_values(input@) == vals_done,
                stream_clean(input@),
                forall|j: int| 0 <= j < vals_done.len() ==> flattens_ok(
                    safe,
                    #[trigger] vals_done[j],
                ),
                objs == flat_models(safe, vals_done),
                spool_pos(spool) == spool_bytes(spool).len(),
                spool_bytes(spool) == enc_records(recs),
                recs =~= objs.map_values(
                    |o: Seq<(Seq<char>, ValueModel)>| public_cells(cfg, o),
                ),
                forall|t: int| 0 <= t < recs.len() ==> rec_bounded(#[trigger] recs[t]),
                count == recs.len(),
                objs.len() == recs.len(),
                vals_done.len() == recs.len(),
            decreases input@.len() - pos,
        {
            let ghost pos0 = pos as int;
            match json_next(input, pos) {
                Err(e) => {
                    proof {
                        assert(decode_list(input@, pos0) == (
                            Seq::<serde_json::Value>::empty(),
                            false,
                        ));
                        assert(stream_values(input@) =~= vals_done);
                        assert(self.values_flatten(stream_values(input@)));
                        assert(!stream_clean(input@));
                    }
                    return Err(Error::ParsingJson(e));
                },
                Ok(None) => {
                    proof {
                        assert(decode_list(input@, pos0) == (
                            Seq::<serde_json::Value>::empty(),
                            true,
                        ));
                        assert(stream_values(input@) =~= vals_done);
                    }
                    break;
                },
                Ok(Some((v, p2))) => {
                    proof {
                        assert(json_step(input@, pos0) == StreamStep::Next(p2 as int));
                        assert(decode_list(input@, pos0).0 == seq![json_step_value(input@, pos0)]
                            + decode_list(input@, p2 as int).0);
                        assert(decode_list(input@, pos0).1 == decode_list(input@, p2 as int).1);
                        assert(decode_list(input@, pos0).0[0] == v);
                        assert(stream_values(input@) =~= vals_done.push(v) + decode_list(
                            input@,
                            p2 as int,
                        ).0);
                        assert(stream_values(input@)[vals_done.len() as int] == v);
                        assert(stream_values(input@).len() > vals_done.len());
                    }
                    pos = p2;
                    let fobj = match flatten_one_object(&self.flattener, &v) {
                        Ok(m) => m,
                        Err(e) => {
                            proof {
                                assert(!flattens_ok(safe, v));
                                assert(!self.values_flatten(stream_values(input@)));
                            }
                            return Err(Error::Flattening(e));
                        },
                    };
                    observe_headers(&self.original_flattener, &mut safe_set, &mut public_set, &fobj);
                    let cells = to_public_cells(&self.original_flattener, &fobj);
                    let rec_bytes = encode_record_vec(&cells);
                    match spool_append(&mut spool, &rec_bytes) {
                        Ok(_) => (),
                        Err(e) => {
                            proof {
                                assert(stream_values(input@).len() > 0);
                            }
                            return Err(Error::InputOutput(e));
                        },
                    }
                    count += 1;
                    proof {
                        let o = obj_view(fobj@);
                        let c = cells_view(cells@);
                        let prev_vals = vals_done;
                        let prev_objs = objs;
                        let prev_recs = recs;
                        vals_done = vals_done.push(v);
                        objs = objs.push(o);
                        recs = recs.push(c);
                        assert(objs.drop_last() =~= prev_objs);
                        assert(objs.last() == o);
                        assert(all_keys(objs) == all_keys(prev_objs).union(obj_keys(o)));
                        assert(recs.drop_last() =~= prev_recs);
                        assert(recs.last() == c);
                        assert(enc_records(recs) == enc_records(prev_recs) + enc_record(c));
                        assert(stream_values(input@) =~= vals_done + decode_list(
                            input@,
                            p2 as int,
                        ).0);
                        assert(objs =~= flat_models(safe, vals_done)) by {
                            assert forall|t: int| 0 <= t < objs.len() implies objs[t]
                                == flat_models(safe, vals_done)[t] by {
                                if t < prev_objs.len() {
                                    assert(objs[t] == prev_objs[t]);
                                    assert(vals_done[t] == prev_vals[t]);
                                    assert(prev_objs[t] == flat_models(safe, prev_vals)[t]);
                                } else {
                                    assert(o == flatten_model(safe, v));
                                }
                            }
                        }
                        assert(recs =~= objs.map_values(
                            |ob: Seq<(Seq<char>, ValueModel)>| public_cells(cfg, ob),
                        )) by {
                            let f = |ob: Seq<(Seq<char>, ValueModel)>| public_cells(cfg, ob);
                            assert forall|t: int| 0 <= t < recs.len() implies recs[t]
                                == objs.map_values(f)[t] by {
                                if t < prev_recs.len() {
                                    assert(recs[t] == prev_recs[t]);
                                    assert(objs[t] == prev_objs[t]);
                                    assert(prev_recs[t] == prev_objs.map_values(f)[t]);
                                }
                            }
                        }
                    }
                },
            }
        }
        // If no headers were found there is nothing to write at all.
        let n_public = public_set.len();
        let n_safe = safe_set.len();
        proof {
            lemma_all_keys_finite(objs);
            if n_public == 0 {
                public_set.key_set().lemma_len0_is_empty();
                if !all_keys(objs).is_empty() {
                    let k = all_keys(objs).choose();
                    assert(public_keys(cfg, all_keys(objs)).contains(
                        transform_key_spec(cfg, k),
                    ));
                    assert(false);
                }
            }
        }
        if n_public == 0 {
            let res: Result<Vec<u8>, Error> = Ok(Vec::new());
            proof {
                assert(res->Ok_0@ =~= Seq::<u8>::empty());
                assert(outcome_ok(self.original_flattener@, objs, delimiter, res->Ok_0@));
            }
            return res;
        }
        proof {
            assert(!all_keys(objs).is_empty()) by {
                if all_keys(objs).is_empty() {
                    assert(public_keys(cfg, all_keys(objs)) =~= Set::<Seq<char>>::empty());
                }
            }
            assert(stream_values(input@).len() > 0) by {
                let k = all_keys(objs).choose();
                assert(all_keys(objs).contains(k));
                if objs.len() == 0 {
                    assert(all_keys(objs).is_empty());
                }
            }
        }
        // Two distinct keys collapsed into one caller-facing key: a collision.
        if n_safe != n_public {
            proof {
                assert(has_collision(self.original_flattener@, objs));
            }
            return Err(Error::FlattenedKeysCollision);
        }
        proof {
            assert(!has_collision(cfg, objs));
        }
        // Second pass: read the spilled records back and emit the table.
        match spool_rewind(&mut spool) {
            Ok(_) => (),
            Err(e) => {
                return Err(Error::InputOutput(e));
            },
        }
        let all = match spool_read_to_end(&mut spool) {
            Ok(v) => v,
            Err(e) => {
                return Err(Error::InputOutput(e));
            },
        };
        proof {
            assert(all@ =~= enc_records(recs));
        }
        let mut rendered: Vec<Vec<(String, String)>> = Vec::new();
        let mut p: usize = 0;
        let mut idx: usize = 0;
        proof {
            assert(recs.take(0) =~= Seq::<Seq<(Seq<char>, Seq<char>)>>::empty());
            assert(objs_cells_view(rendered@) =~= recs.take(0));
        }
        while idx < count
            invariant
                idx <= count,
                count == recs.len(),
                all@ == enc_records(recs),
                forall|t: int| 0 <= t < recs.len() ==> rec_bounded(#[trigger] recs[t]),
                p == enc_records(recs.take(idx as int)).len(),
                p <= all@.len(),
                objs_cells_view(rendered@) =~= recs.take(idx as int),
            decreases count - idx,
        {
            proof {
                lemma_enc_records_split(recs, idx as int);
                lemma_enc_records_first(recs.skip(idx as int));
                assert(recs.skip(idx as int)[0] == recs[idx as int]);
                let head = enc_records(recs.take(idx as int));
                let tail = enc_records(recs.skip(idx as int));
                assert(all@.skip(p as int) =~= tail);
                assert(enc_record(recs[idx as int]).is_prefix_of(all@.skip(p as int))) by {
                    let one = enc_record(recs[idx as int]);
                    assert(tail == one + enc_records(recs.skip(idx as int).drop_first()));
                    assert forall|k: int| 0 <= k < one.len() implies all@.skip(p as int)[k]
                        == one[k] by {
                        assert(tail[k] == one[k]);
                    }
                }
            }
            let (cells, p2) = decode_record(&all, p, Ghost(recs[idx as int]));
            let ghost prevr = rendered@;
            rendered.push(cells);
            p = p2;
            proof {
                let t = recs.take(idx + 1);
                assert(t.drop_last() =~= recs.take(idx as int));
                assert(t.last() == recs[idx as int]);
                assert(enc_records(t) == enc_records(recs.take(idx as int)) + enc_record(
                    recs[idx as int],
                ));
                lemma_enc_records_split(recs, idx + 1);
                assert(p <= all@.len());
                assert(objs_cells_view(prevr).len() == idx as int);
                assert(prevr.len() == idx as int);
                assert forall|k: int| 0 <= k < idx + 1 implies objs_cells_view(rendered@)[k]
                    == t[k] by {
                    if k < idx {
                        assert(rendered@[k] == prevr[k]);
                        assert(objs_cells_view(prevr)[k] == recs.take(idx as int)[k]);
                    } else {
                        assert(rendered@[k] == cells);
                    }
                }
                assert(objs_cells_view(rendered@) =~= t);
            }
            idx += 1;
        }
        proof {
            assert(recs.take(count as int) =~= recs);
        }
        let bytes = emit_csv(&public_set.keys, &rendered, delimiter);
        let res: Result<Vec<u8>, Error> = Ok(bytes);
        proof {
            let headers = crate::engine::strings_view(public_set.keys@);
            assert(headers == public_set@);
            assert(header_seq_ok(cfg, objs, headers)) by {
                assert forall|k: Seq<char>| headers.contains(k) implies public_keys(
                    cfg,
                    all_keys(objs),
                ).contains(k) by {}
                assert forall|k: Seq<char>| public_keys(cfg, all_keys(objs)).contains(
                    k,
                ) implies headers.contains(k) by {
                    assert(public_set.key_set().contains(k));
                }
            }
            assert(objs_cells_view(rendered@) =~= objs.map_values(
                |o: Seq<(Seq<char>, ValueModel)>| public_cells(cfg, o),
            ));
            assert(outcome_ok(self.original_flattener@, objs, delimiter, res->Ok_0@));
        }
        res
    }
}

/// The two conversion paths produce byte-identical output for the same
/// logical input: when the byte stream decodes to the very values handed to
/// the array path, any outputs meeting the two entry points' success
/// contracts under one converter and delimiter are equal.
pub proof fn lemma_paths_agree(
    c: Json2Csv,
    vals: Seq<serde_json::Value>,
    input: Seq<u8>,
    delimiter: u8,
    array_bytes: Seq<u8>,
    stream_bytes: Seq<u8>,
)
    requires
        stream_values(input) == vals,
        outcome_ok(c.original_flattener@, c.value_objs(vals), delimiter, array_bytes),
        outcome_ok(
            c.original_flattener@,
            c.value_objs(stream_values(input)),
            delimiter,
            stream_bytes,
        ),
    ensures
        array_bytes == stream_bytes,
{
    crate::engine::lemma_outcome_deterministic(
        c.original_flattener@,
        c.value_objs(vals),
        delimiter,
        array_bytes,
        stream_bytes,
    );
}

/// Accumulates the headers of the flattened objects, checks for collisions,
/// and renders the table: the shared second half of both conversion paths.
///
/// Succeeds exactly when no collision exists, with the CSV bytes of the
/// table; objects without any key at all produce the empty output.
pub fn convert_flat(cfg: &Flattener, fobjs: &Vec<Vec<(String, FlatValue)>>, delimiter: u8) -> (r:
    Result<Vec<u8>, Error>)
    ensures
        r matches Ok(bytes) ==> outcome_ok(cfg@, objs_view(fobjs@), delimiter, bytes@),
        r is Ok <==> !has_collision(cfg@, objs_view(fobjs@)),
        r matches Err(e) ==> e is FlattenedKeysCollision,
        all_keys(objs_view(fobjs@)).is_empty() ==> (r matches Ok(bytes2) && bytes2@ == Seq::<
            u8,
        >::empty()),
{
    let ghost objs = objs_view(fobjs@);
    let mut safe_set = HeaderSet::new();
    let mut public_set = HeaderSet::new();
    let n = fobjs.len();
    let mut i: usize = 0;
    proof {
        assert(all_keys(objs.take(0)) =~= Set::<Seq<char>>::empty());
        assert(public_keys(cfg@, all_keys(objs.take(0))) =~= Set::<Seq<char>>::empty());
    }
    while i < n
        invariant
            i <= n,
            n == fobjs@.len(),
            objs == objs_view(fobjs@),
            objs.len() == n,
            safe_set.wf(),
            public_set.wf(),
            safe_set.key_set() == all_keys(objs.take(i as int)),
            public_set.key_set() == public_keys(cfg@, all_keys(objs.take(i as int))),
        decreases n - i,
    {
        let obj = &fobjs[i];
        observe_headers(cfg, &mut safe_set, &mut public_set, obj);
        proof {
            let next = objs.take(i + 1);
            assert(next.drop_last() =~= objs.take(i as int));
            assert(next.last() == obj_view(obj@));
            assert(safe_set.key_set() =~= all_keys(objs.take(i + 1)));
        }
        i += 1;
    }
    proof {
        assert(objs.take(n as int) =~= objs);
    }
    // If no headers were found there is nothing to write at all.
    let n_public = public_set.len();
    let n_safe = safe_set.len();
    proof {
        lemma_all_keys_finite(objs);
        if n_public == 0 {
            public_set.key_set().lemma_len0_is_empty();
            if !all_keys(objs).is_empty() {
                let k = all_keys(objs).choose();
                assert(public_keys(cfg@, all_keys(objs)).contains(
                    transform_key_spec(cfg@, k),
                ));
                assert(false);
            }
            assert(!has_collision(cfg@, objs));
        }
    }
    if n_public == 0 {
        let res: Result<Vec<u8>, Error> = Ok(Vec::new());
        proof {
            assert(res->Ok_0@ =~= Seq::<u8>::empty());
            assert(outcome_ok(cfg@, objs, delimiter, res->Ok_0@));
        }
        return res;
    }
    proof {
        assert(!all_keys(objs).is_empty()) by {
            if all_keys(objs).is_empty() {
                assert(public_keys(cfg@, all_keys(objs)) =~= Set::<Seq<char>>::empty());
            }
        }
    }
    // Two distinct keys collapsed into one caller-facing key: a collision.
    if n_safe != n_public {
        return Err(Error::FlattenedKeysCollision);
    }
    proof {
        assert(!has_collision(cfg@, objs));
    }
    let mut rendered: Vec<Vec<(String, String)>> = Vec::new();
    let mut i: usize = 0;
    while i < n
        invariant
            i <= n,
            n == fobjs@.len(),
            objs == objs_view(fobjs@),
            objs.len() == n,
            objs_cells_view(rendered@) =~= objs.take(i as int).map_values(
                |o: Seq<(Seq<char>, ValueModel)>| public_cells(cfg@, o),
            ),
        decreases n - i,
    {
        let ghost prev = rendered@;
        let cells = to_public_cells(cfg, &fobjs[i]);
        rendered.push(cells);
        proof {
            let fc = |o: Seq<(Seq<char>, ValueModel)>| public_cells(cfg@, o);
            let lhs = objs_cells_view(rendered@);
            let rhs = objs.take(i + 1).map_values(fc);
            assert(objs_cells_view(prev).len() == i as int);
            assert(prev.len() == i as int);
            assert forall|k: int| 0 <= k < i + 1 implies lhs[k] == rhs[k] by {
                if k < i {
                    assert(rendered@[k] == prev[k]);
                    assert(objs_cells_view(prev)[k] == objs.take(i as int).map_values(fc)[k]);
                } else {
                    assert(rendered@[k] == cells);
                }
            }
            assert(lhs =~= rhs);
        }
        i += 1;
    }
    proof {
        assert(objs.take(n as int) =~= objs);
        assert(objs_cells_view(rendered@) =~= objs.map_values(
            |o: Seq<(Seq<char>, ValueModel)>| public_cells(cfg@, o),
        ));
    }
    let bytes = emit_csv(&public_set.keys, &rendered, delimiter);
    let res: Result<Vec<u8>, Error> = Ok(bytes);
    proof {
        let headers = crate::engine::strings_view(public_set.keys@);
        assert(headers == public_set@);
        assert(header_seq_ok(cfg@, objs, headers)) by {
            assert forall|k: Seq<char>| headers.contains(k) implies public_keys(
                cfg@,
                all_keys(objs),
            ).contains(k) by {}
            assert forall|k: Seq<char>| public_keys(cfg@, all_keys(objs)).contains(
                k,
            ) implies headers.contains(k) by {
                assert(public_set.key_set().contains(k));
            }
        }
        assert(outcome_ok(cfg@, objs, delimiter, res->Ok_0@));
    }
    res
}

} // verus!
