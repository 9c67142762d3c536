//! The conversion engine.
//!
//! The specification side models a conversion as a function of the flattened
//! objects: the key set across all objects, its caller-facing image, the
//! collision condition, and the rows of the final table. The executable side
//! builds records aligned to the final header set and feeds them to the CSV
//! writer.

use vstd::prelude::*;
use vstd::set_lib::lemma_map_size;
use vstd::relations::injective_on;
use crate::adapters::{CsvWriter, csv_writer_new, csv_write_record, csv_into_bytes, csv_encoding,
    writer_rows, writer_delim, writer_ok};
use crate::config::{Flattener, FlattenerModel, transform_key_spec, transform_key_str};
use crate::headers::{sorted_strict, HeaderSet};
use crate::value::{FlatValue, ValueModel, render_spec, render_value, distinct_keys};

verus! {

broadcast use vstd::set::group_set_axioms;

//
// Views of the executable data
//

/// The model of one flattened object held as a vector of entries.
pub open spec fn obj_view(m: Seq<(String, FlatValue)>) -> Seq<(Seq<char>, ValueModel)> {
    m.map_values(|p: (String, FlatValue)| (p.0@, p.1@))
}

/// The model of a sequence of flattened objects.
pub open spec fn objs_view(v: Seq<Vec<(String, FlatValue)>>) -> Seq<Seq<(Seq<char>, ValueModel)>> {
    v.map_values(|o: Vec<(String, FlatValue)>| obj_view(o@))
}

/// The model of one rendered object: caller-facing key and field text.
pub open spec fn cells_view(m: Seq<(String, String)>) -> Seq<(Seq<char>, Seq<char>)> {
    m.map_values(|p: (String, String)| (p.0@, p.1@))
}

/// The model of a sequence of rendered objects.
pub open spec fn objs_cells_view(v: Seq<Vec<(String, String)>>) -> Seq<Seq<(Seq<char>, Seq<char>)>> {
    v.map_values(|o: Vec<(String, String)>| cells_view(o@))
}

/// The model of a vector of strings.
pub open spec fn strings_view(v: Seq<String>) -> Seq<Seq<char>> {
    v.map_values(|s: String| s@)
}

//
// Key sets and the collision condition
//

/// The set of keys of one flattened object.
pub open spec fn obj_keys(m: Seq<(Seq<char>, ValueModel)>) -> Set<Seq<char>>
    decreases m.len(),
{
    if m.len() == 0 {
        Set::empty()
    } else {
        obj_keys(m.drop_last()).insert(m.last().0)
    }
}

/// The union of the key sets of all flattened objects.
pub open spec fn all_keys(objs: Seq<Seq<(Seq<char>, ValueModel)>>) -> Set<Seq<char>>
    decreases objs.len(),
{
    if objs.len() == 0 {
        Set::empty()
    } else {
        all_keys(objs.drop_last()).union(obj_keys(objs.last()))
    }
}

/// The caller-facing image of a key set.
pub open spec fn public_keys(cfg: FlattenerModel, keys: Set<Seq<char>>) -> Set<Seq<char>> {
    keys.map(|k: Seq<char>| transform_key_spec(cfg, k))
}

/// Two distinct keys collapsed into one caller-facing key.
pub open spec fn has_collision(cfg: FlattenerModel, objs: Seq<Seq<(Seq<char>, ValueModel)>>) -> bool {
    public_keys(cfg, all_keys(objs)).len() != all_keys(objs).len()
}

pub proof fn lemma_obj_keys_finite(m: Seq<(Seq<char>, ValueModel)>)
    ensures
        obj_keys(m).finite(),
        forall|k: Seq<char>| obj_keys(m).contains(k) <==> exists|j: int|
            0 <= j < m.len() && #[trigger] m[j].0 == k,
    decreases m.len(),
{
    if m.len() > 0 {
        lemma_obj_keys_finite(m.drop_last());
        assert forall|k: Seq<char>| obj_keys(m).contains(k) implies exists|j: int|
            0 <= j < m.len() && #[trigger] m[j].0 == k by {
            if k == m.last().0 {
                assert(m[m.len() - 1].0 == k);
            } else {
                let j = choose|j: int| 0 <= j < m.drop_last().len() && #[trigger] m.drop_last()[j].0
                    == k;
                assert(m[j].0 == k);
            }
        }
        assert forall|k: Seq<char>| (exists|j: int| 0 <= j < m.len() && #[trigger] m[j].0 == k)
            implies obj_keys(m).contains(k) by {
            let j = choose|j: int| 0 <= j < m.len() && #[trigger] m[j].0 == k;
            if j < m.len() - 1 {
                assert(m.drop_last()[j].0 == k);
            }
        }
    }
}

pub proof fn lemma_all_keys_finite(objs: Seq<Seq<(Seq<char>, ValueModel)>>)
    ensures
        all_keys(objs).finite(),
        forall|k: Seq<char>| all_keys(objs).contains(k) <==> exists|i: int|
            0 <= i < objs.len() && #[trigger] obj_keys(objs[i]).contains(k),
    decreases objs.len(),
{
    if objs.len() > 0 {
        lemma_all_keys_finite(objs.drop_last());
        lemma_obj_keys_finite(objs.last());
        assert forall|k: Seq<char>| all_keys(objs).contains(k) implies exists|i: int|
            0 <= i < objs.len() && #[trigger] obj_keys(objs[i]).contains(k) by {
            if all_keys(objs.drop_last()).contains(k) {
                let i = choose|i: int| 0 <= i < objs.drop_last().len() && #[trigger] obj_keys(
                    objs.drop_last()[i],
                ).contains(k);
                assert(obj_keys(objs[i]).contains(k));
            } else {
                assert(obj_keys(objs[objs.len() - 1]).contains(k));
            }
        }
        assert forall|k: Seq<char>| (exists|i: int| 0 <= i < objs.len() && #[trigger] obj_keys(
            objs[i],
        ).contains(k)) implies all_keys(objs).contains(k) by {
            let i = choose|i: int| 0 <= i < objs.len() && #[trigger] obj_keys(objs[i]).contains(k);
            if i < objs.len() - 1 {
                assert(objs.drop_last()[i] == objs[i]);
                assert(all_keys(objs.drop_last()).contains(k));
            }
        }
    }
}

/// The collision condition holds exactly when the key transform identifies
/// two distinct keys of the input: set sizes diverge precisely on a true
/// collision in the caller-facing key space.
pub proof fn lemma_collision_characterization(
    cfg: FlattenerModel,
    objs: Seq<Seq<(Seq<char>, ValueModel)>>,
)
    ensures
        has_collision(cfg, objs) <==> exists|k1: Seq<char>, k2: Seq<char>|
            #![trigger transform_key_spec(cfg, k1), transform_key_spec(cfg, k2)]
            all_keys(objs).contains(k1) && all_keys(objs).contains(k2) && k1 != k2
                && transform_key_spec(cfg, k1) == transform_key_spec(cfg, k2),
{
    lemma_all_keys_finite(objs);
    let keys = all_keys(objs);
    let f = |k: Seq<char>| transform_key_spec(cfg, k);
    if exists|k1: Seq<char>, k2: Seq<char>|
        #![trigger transform_key_spec(cfg, k1), transform_key_spec(cfg, k2)]
        keys.contains(k1) && keys.contains(k2) && k1 != k2 && transform_key_spec(cfg, k1)
            == transform_key_spec(cfg, k2) {
        let (k1, k2) = choose|k1: Seq<char>, k2: Seq<char>|
            #![trigger transform_key_spec(cfg, k1), transform_key_spec(cfg, k2)]
            keys.contains(k1) && keys.contains(k2) && k1 != k2 && transform_key_spec(cfg, k1)
                == transform_key_spec(cfg, k2);
        assert(f(k1) == f(k2));
        assert(keys.map(f) =~= keys.remove(k1).map(f)) by {
            assert forall|x: Seq<char>| keys.map(f).contains(x) implies keys.remove(k1).map(
                f,
            ).contains(x) by {
                let y = choose|y: Seq<char>| keys.contains(y) && f(y) == x;
                if y == k1 {
                    assert(keys.remove(k1).contains(k2) && f(k2) == x);
                } else {
                    assert(keys.remove(k1).contains(y));
                }
            }
            assert forall|x: Seq<char>| keys.remove(k1).map(f).contains(x) implies keys.map(
                f,
            ).contains(x) by {
                let y = choose|y: Seq<char>| keys.remove(k1).contains(y) && f(y) == x;
                assert(keys.contains(y));
            }
        }
        vstd::set_lib::lemma_map_size_bound(keys.remove(k1), keys.remove(k1).map(f), f);
        assert(keys.remove(k1).len() == keys.len() - 1);
        assert(public_keys(cfg, keys).len() <= keys.len() - 1);
        assert(has_collision(cfg, objs));
    } else {
        assert(injective_on(f, keys)) by {
            assert forall|x: Seq<char>, y: Seq<char>|
                #![trigger f(x), f(y)]
                keys.contains(x) && keys.contains(y) && f(x) == f(y) implies x == y by {
                assert(f(x) == transform_key_spec(cfg, x));
                assert(f(y) == transform_key_spec(cfg, y));
            }
        }
        lemma_map_size(keys, keys.map(f), f);
        assert(!has_collision(cfg, objs));
    }
}

//
// Rows
//

/// The rendered form of one flattened object: keys mapped to the caller's
/// separators, values rendered to their field text.
pub open spec fn public_cells(cfg: FlattenerModel, m: Seq<(Seq<char>, ValueModel)>) -> Seq<
    (Seq<char>, Seq<char>),
> {
    m.map_values(|p: (Seq<char>, ValueModel)| (transform_key_spec(cfg, p.0), render_spec(p.1)))
}

/// The field text for one header: the value of the last matching entry, or
/// the empty string when the object has no such key.
pub open spec fn cell_lookup(cells: Seq<(Seq<char>, Seq<char>)>, k: Seq<char>) -> Seq<char>
    decreases cells.len(),
{
    if cells.len() == 0 {
        Seq::empty()
    } else if cells.last().0 == k {
        cells.last().1
    } else {
        cell_lookup(cells.drop_last(), k)
    }
}

/// One data row: one field per header, in header order.
pub open spec fn row_for(headers: Seq<Seq<char>>, cells: Seq<(Seq<char>, Seq<char>)>) -> Seq<
    Seq<char>,
> {
    headers.map_values(|h: Seq<char>| cell_lookup(cells, h))
}

/// The whole table: the header row, then one data row per object in input
/// order.
pub open spec fn table_rows(
    headers: Seq<Seq<char>>,
    objs: Seq<Seq<(Seq<char>, Seq<char>)>>,
) -> Seq<Seq<Seq<char>>> {
    seq![headers] + objs.map_values(|c: Seq<(Seq<char>, Seq<char>)>| row_for(headers, c))
}

/// Every data row is as long as the header row.
pub proof fn lemma_row_len(headers: Seq<Seq<char>>, objs: Seq<Seq<(Seq<char>, Seq<char>)>>)
    ensures
        forall|i: int| 0 <= i < table_rows(headers, objs).len() ==> #[trigger] table_rows(
            headers,
            objs,
        )[i].len() == headers.len(),
        table_rows(headers, objs).len() == objs.len() + 1,
{
}

//
// The header row as a whole
//

/// `headers` is the header row of the conversion: strictly sorted, holding
/// exactly the caller-facing forms of the keys of the input.
pub open spec fn header_seq_ok(
    cfg: FlattenerModel,
    objs: Seq<Seq<(Seq<char>, ValueModel)>>,
    headers: Seq<Seq<char>>,
) -> bool {
    &&& sorted_strict(headers)
    &&& forall|k: Seq<char>| headers.contains(k) <==> public_keys(cfg, all_keys(objs)).contains(k)
}

/// What a successful conversion returns for the flattened objects `objs`:
/// nothing at all when no keys were found, and otherwise the CSV encoding of
/// the table under the sorted header row.
pub open spec fn outcome_ok(
    cfg: FlattenerModel,
    objs: Seq<Seq<(Seq<char>, ValueModel)>>,
    delimiter: u8,
    bytes: Seq<u8>,
) -> bool {
    if all_keys(objs).is_empty() {
        bytes == Seq::<u8>::empty()
    } else {
        &&& !has_collision(cfg, objs)
        &&& exists|headers: Seq<Seq<char>>|
            #[trigger] header_seq_ok(cfg, objs, headers) && bytes == csv_encoding(
                table_rows(headers, objs.map_values(|m| public_cells(cfg, m))),
                delimiter,
            )
    }
}

/// The header row is fully characterized by the input: it is strictly
/// sorted, free of duplicates, holds exactly the caller-facing forms of the
/// flattened keys, and no other sequence satisfies the same description.
pub proof fn lemma_header_row(
    cfg: FlattenerModel,
    objs: Seq<Seq<(Seq<char>, ValueModel)>>,
    headers: Seq<Seq<char>>,
)
    requires
        header_seq_ok(cfg, objs, headers),
    ensures
        sorted_strict(headers),
        headers.no_duplicates(),
        forall|k: Seq<char>| headers.contains(k) <==> exists|k0: Seq<char>|
            all_keys(objs).contains(k0) && #[trigger] transform_key_spec(cfg, k0) == k,
        forall|h2: Seq<Seq<char>>| #[trigger] header_seq_ok(cfg, objs, h2) ==> h2 == headers,
{
    crate::headers::lemma_sorted_no_dup(headers);
    let f = |k0: Seq<char>| transform_key_spec(cfg, k0);
    assert forall|k: Seq<char>| headers.contains(k) implies exists|k0: Seq<char>|
        all_keys(objs).contains(k0) && #[trigger] transform_key_spec(cfg, k0) == k by {
        assert(public_keys(cfg, all_keys(objs)).contains(k));
        let k0 = choose|k0: Seq<char>| all_keys(objs).contains(k0) && f(k0) == k;
        assert(transform_key_spec(cfg, k0) == k);
    }
    assert forall|k: Seq<char>|
        (exists|k0: Seq<char>| all_keys(objs).contains(k0) && #[trigger] transform_key_spec(
            cfg,
            k0,
        ) == k) implies headers.contains(k) by {
        let k0 = choose|k0: Seq<char>| all_keys(objs).contains(k0) && #[trigger] transform_key_spec(
            cfg,
            k0,
        ) == k;
        assert(f(k0) == k);
        assert(public_keys(cfg, all_keys(objs)).contains(k));
    }
    assert forall|h2: Seq<Seq<char>>| #[trigger] header_seq_ok(cfg, objs, h2) implies h2
        == headers by {
        crate::headers::lemma_sorted_same_set(h2, headers);
    }
}

/// A successful conversion has exactly one possible output for given
/// flattened objects, configuration and delimiter: the array and the
/// streaming path, whose contracts both speak of `outcome_ok` over the same
/// objects, therefore return byte-identical CSV, and the output does not
/// depend on the order in which keys were encountered.
pub proof fn lemma_outcome_deterministic(
    cfg: FlattenerModel,
    objs: Seq<Seq<(Seq<char>, ValueModel)>>,
    delimiter: u8,
    b1: Seq<u8>,
    b2: Seq<u8>,
)
    requires
        outcome_ok(cfg, objs, delimiter, b1),
        outcome_ok(cfg, objs, delimiter, b2),
    ensures
        b1 == b2,
{
    if !all_keys(objs).is_empty() {
        let rows = objs.map_values(|m: Seq<(Seq<char>, ValueModel)>| public_cells(cfg, m));
        let h1 = choose|headers: Seq<Seq<char>>|
            #[trigger] header_seq_ok(cfg, objs, headers) && b1 == csv_encoding(
                table_rows(headers, rows),
                delimiter,
            );
        let h2 = choose|headers: Seq<Seq<char>>|
            #[trigger] header_seq_ok(cfg, objs, headers) && b2 == csv_encoding(
                table_rows(headers, rows),
                delimiter,
            );
        crate::headers::lemma_sorted_same_set(h1, h2);
    }
}

/// An input with no retained keys at all produces zero bytes of output.
pub proof fn lemma_empty_outcome(
    cfg: FlattenerModel,
    objs: Seq<Seq<(Seq<char>, ValueModel)>>,
    delimiter: u8,
    bytes: Seq<u8>,
)
    requires
        outcome_ok(cfg, objs, delimiter, bytes),
        all_keys(objs).is_empty(),
    ensures
        bytes == Seq::<u8>::empty(),
{
}

//
// Header observation
//

/// Feeds one flattened object into the two header sets: each key in its safe
/// form, and its caller-facing form.
pub fn observe_headers(
    cfg: &Flattener,
    safe_set: &mut HeaderSet,
    public_set: &mut HeaderSet,
    obj: &Vec<(String, FlatValue)>,
)
    requires
        old(safe_set).wf(),
        old(public_set).wf(),
        old(public_set).key_set() == public_keys(cfg@, old(safe_set).key_set()),
    ensures
        final(safe_set).wf(),
        final(public_set).wf(),
        final(safe_set).key_set() == old(safe_set).key_set().union(obj_keys(obj_view(obj@))),
        final(public_set).key_set() == public_keys(cfg@, final(safe_set).key_set()),
{
    let ghost base = safe_set.key_set();
    let m = obj.len();
    let mut j: usize = 0;
    proof {
        assert(obj_keys(obj_view(obj@).take(0)) =~= Set::<Seq<char>>::empty());
        assert(safe_set.key_set() =~= base.union(obj_keys(obj_view(obj@).take(0))));
    }
    while j < m
        invariant
            j <= m,
            m == obj@.len(),
            safe_set.wf(),
            public_set.wf(),
            safe_set.key_set() == base.union(obj_keys(obj_view(obj@).take(j as int))),
            public_set.key_set() == public_keys(cfg@, safe_set.key_set()),
        decreases m - j,
    {
        let key = obj[j].0.clone();
        let pub_key = transform_key_str(cfg, key.as_str());
        let ghost safe_before = safe_set.key_set();
        safe_set.insert(key);
        public_set.insert(pub_key);
        proof {
            let tail = obj_view(obj@).take(j + 1);
            assert(tail.drop_last() =~= obj_view(obj@).take(j as int));
            assert(tail.last() == (obj@[j as int].0@, obj@[j as int].1@));
            assert(safe_set.key_set() =~= base.union(obj_keys(tail)));
            let f = |k: Seq<char>| transform_key_spec(cfg@, k);
            safe_before.lemma_set_map_insert_commute(obj@[j as int].0@, f);
            assert(public_set.key_set() =~= public_keys(cfg@, safe_set.key_set()));
        }
        j += 1;
    }
    proof {
        assert(obj_view(obj@).take(m as int) =~= obj_view(obj@));
    }
}

//
// Executable row building
//

/// Renders one flattened object: each key mapped to its caller-facing form,
/// each value to its field text.
pub fn to_public_cells(cfg: &Flattener, obj: &Vec<(String, FlatValue)>) -> (r: Vec<
    (String, String),
>)
    ensures
        cells_view(r@) == public_cells(cfg@, obj_view(obj@)),
{
    let mut r: Vec<(String, String)> = Vec::new();
    let n = obj.len();
    let mut i: usize = 0;
    while i < n
        invariant
            i <= n,
            n == obj.len(),
            cells_view(r@) =~= public_cells(cfg@, obj_view(obj@).take(i as int)),
        decreases n - i,
    {
        let ghost prev = r@;
        let key = transform_key_str(cfg, obj[i].0.as_str());
        let cell = render_value(&obj[i].1);
        r.push((key, cell));
        proof {
            assert(obj_view(obj@).len() == n as int);
            assert(cells_view(prev).len() == i as int);
            assert(prev.len() == i as int);
            assert(r@ == prev.push((key, cell)));
            let lhs = cells_view(r@);
            let rhs = public_cells(cfg@, obj_view(obj@).take(i + 1));
            assert forall|j: int| 0 <= j < i + 1 implies lhs[j] == rhs[j] by {
                if j < i {
                    assert(r@[j] == prev[j]);
                    assert(cells_view(prev)[j] == public_cells(
                        cfg@,
                        obj_view(obj@).take(i as int),
                    )[j]);
                } else {
                    assert(r@[j] == (key, cell));
                    assert(obj_view(obj@).take(i + 1)[j] == (obj@[j].0@, obj@[j].1@));
                }
            }
            assert(lhs =~= rhs);
        }
        i += 1;
    }
    proof {
        assert(obj_view(obj@).take(n as int) =~= obj_view(obj@));
    }
    r
}

/// The field text of `h` in one rendered object: the last matching entry
/// wins; absence gives the empty string.
fn lookup_cell(cells: &Vec<(String, String)>, h: &String) -> (r: String)
    ensures
        r@ == cell_lookup(cells_view(cells@), h@),
{
    let mut i = cells.len();
    proof {
        assert(cells_view(cells@).take(i as int) =~= cells_view(cells@));
    }
    while i > 0
        invariant
            i <= cells.len(),
            cell_lookup(cells_view(cells@), h@) == cell_lookup(
                cells_view(cells@).take(i as int),
                h@,
            ),
        decreases i,
    {
        i -= 1;
        let hit = crate::lex::str_eq(cells[i].0.as_str(), h.as_str());
        proof {
            assert(cells_view(cells@).take(i + 1).last() == cells_view(cells@)[i as int]);
            assert(cells_view(cells@).take(i + 1).drop_last() =~= cells_view(cells@).take(i as int));
        }
        if hit {
            return cells[i].1.clone();
        }
    }
    proof {
        assert(cells_view(cells@).take(0) =~= Seq::<(Seq<char>, Seq<char>)>::empty());
    }
    String::new()
}

/// Builds one data row: one field per header, in header order.
pub fn build_record(headers: &Vec<String>, cells: &Vec<(String, String)>) -> (r: Vec<String>)
    ensures
        strings_view(r@) == row_for(strings_view(headers@), cells_view(cells@)),
        r@.len() == headers@.len(),
{
    let mut r: Vec<String> = Vec::new();
    let n = headers.len();
    let mut i: usize = 0;
    while i < n
        invariant
            i <= n,
            n == headers.len(),
            strings_view(r@) =~= row_for(strings_view(headers@), cells_view(cells@)).take(i as int),
        decreases n - i,
    {
        let ghost prev = r@;
        let cell = lookup_cell(cells, &headers[i]);
        r.push(cell);
        proof {
            assert(strings_view(headers@).len() == n as int);
            assert(row_for(strings_view(headers@), cells_view(cells@)).len() == n as int);
            assert(strings_view(prev).len() == i as int);
            assert(prev.len() == i as int);
            assert(r@ == prev.push(cell));
            let lhs = strings_view(r@);
            let rhs = row_for(strings_view(headers@), cells_view(cells@)).take(i + 1);
            assert forall|j: int| 0 <= j < i + 1 implies lhs[j] == rhs[j] by {
                if j < i {
                    assert(r@[j] == prev[j]);
                    assert(strings_view(prev)[j] == row_for(
                        strings_view(headers@),
                        cells_view(cells@),
                    ).take(i as int)[j]);
                } else {
                    assert(r@[j] == cell);
                    assert(strings_view(headers@)[j] == headers@[j]@);
                }
            }
            assert(lhs =~= rhs);
        }
        i += 1;
    }
    proof {
        assert(row_for(strings_view(headers@), cells_view(cells@)).take(n as int) =~= row_for(
            strings_view(headers@),
            cells_view(cells@),
        ));
    }
    r
}

/// Writes the header row and one data row per rendered object, and returns
/// the CSV bytes. Every record has the header row's width, and the writer
/// runs over an in-memory buffer, so no write can fail.
pub fn emit_csv(headers: &Vec<String>, objs: &Vec<Vec<(String, String)>>, delimiter: u8) -> (r:
    Vec<u8>)
    ensures
        r@ == csv_encoding(table_rows(strings_view(headers@), objs_cells_view(objs@)), delimiter),
{
    let mut w = csv_writer_new(delimiter);
    proof {
        assert(headers.deep_view() =~= strings_view(headers@));
    }
    match csv_write_record(&mut w, headers) {
        Ok(_) => (),
        Err(_) => {
            proof {
                assert(false);
            }
            return vstd::pervasive::unreached();
        },
    }
    proof {
        assert(writer_rows(w) =~= table_rows(strings_view(headers@), objs_cells_view(objs@).take(0)));
    }
    let n = objs.len();
    let mut i: usize = 0;
    while i < n
        invariant
            i <= n,
            n == objs.len(),
            headers@.len() == strings_view(headers@).len(),
            writer_ok(w),
            writer_delim(w) == delimiter,
            writer_rows(w) == table_rows(strings_view(headers@), objs_cells_view(objs@).take(
                i as int,
            )),
        decreases n - i,
    {
        let rec = build_record(headers, &objs[i]);
        let ghost before = writer_rows(w);
        proof {
            assert(writer_rows(w)[0] == strings_view(headers@));
            assert(writer_rows(w)[0].len() == headers@.len());
        }
        match csv_write_record(&mut w, &rec) {
            Ok(_) => (),
            Err(_) => {
                proof {
                    assert(false);
                }
                return vstd::pervasive::unreached();
            },
        }
        proof {
            assert(rec.deep_view() =~= strings_view(rec@));
            assert(objs_cells_view(objs@).take(i + 1).drop_last() =~= objs_cells_view(
                objs@,
            ).take(i as int));
            assert(writer_rows(w) =~= table_rows(strings_view(headers@), objs_cells_view(
                objs@,
            ).take(i + 1))) by {
                let h = strings_view(headers@);
                let full = objs_cells_view(objs@);
                assert(full.take(i + 1).map_values(|c: Seq<(Seq<char>, Seq<char>)>| row_for(h, c))
                    =~= full.take(i as int).map_values(
                    |c: Seq<(Seq<char>, Seq<char>)>| row_for(h, c),
                ).push(row_for(h, full[i as int])));
            }
        }
        i += 1;
    }
    proof {
        assert(objs_cells_view(objs@).take(n as int) =~= objs_cells_view(objs@));
    }
    match csv_into_bytes(w) {
        Ok(bytes) => bytes,
        Err(_) => {
            proof {
                assert(false);
            }
            vstd::pervasive::unreached()
        },
    }
}

} // verus!

