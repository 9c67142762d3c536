//! Spill-file records.
//!
//! The streaming conversion must see every object before it knows the
//! headers, yet must emit the header row first. Rendered objects are
//! therefore written to spill storage during the first pass and read back
//! during the second. Each record is one rendered object: its number of
//! pairs, then each key and field text as a length-prefixed UTF-8 string.
//! Decoding is proved to invert encoding.

use vstd::prelude::*;
use vstd::utf8::{encode_utf8, decode_utf8, valid_utf8, encode_utf8_valid_utf8,
    encode_utf8_decode_utf8};
use crate::adapters::string_from_utf8;
use crate::engine::cells_view;

verus! {

/// The eight bytes of `n`, least significant first.
pub open spec fn le8(n: u64) -> Seq<u8> {
    seq![
        (n & 0xff) as u8,
        ((n >> 8) & 0xff) as u8,
        ((n >> 16) & 0xff) as u8,
        ((n >> 24) & 0xff) as u8,
        ((n >> 32) & 0xff) as u8,
        ((n >> 40) & 0xff) as u8,
        ((n >> 48) & 0xff) as u8,
        ((n >> 56) & 0xff) as u8,
    ]
}

/// One encoded string: its UTF-8 byte length, then its UTF-8 bytes.
pub open spec fn enc_str(s: Seq<char>) -> Seq<u8> {
    le8(encode_utf8(s).len() as u64) + encode_utf8(s)
}

/// One encoded (key, field text) pair.
pub open spec fn enc_pair(p: (Seq<char>, Seq<char>)) -> Seq<u8> {
    enc_str(p.0) + enc_str(p.1)
}

/// The encoded pairs of one record, in order.
pub open spec fn enc_pairs(rec: Seq<(Seq<char>, Seq<char>)>) -> Seq<u8>
    decreases rec.len(),
{
    if rec.len() == 0 {
        Seq::empty()
    } else {
        enc_pairs(rec.drop_last()) + enc_pair(rec.last())
    }
}

/// One encoded record: its pair count, then its pairs.
pub open spec fn enc_record(rec: Seq<(Seq<char>, Seq<char>)>) -> Seq<u8> {
    le8(rec.len() as u64) + enc_pairs(rec)
}

/// The whole spill contents: every record, in input order.
pub open spec fn enc_records(recs: Seq<Seq<(Seq<char>, Seq<char>)>>) -> Seq<u8>
    decreases recs.len(),
{
    if recs.len() == 0 {
        Seq::empty()
    } else {
        enc_records(recs.drop_last()) + enc_record(recs.last())
    }
}

/// The bounds under which a record round-trips: everything that was held in
/// executable vectors satisfies them.
pub open spec fn rec_bounded(rec: Seq<(Seq<char>, Seq<char>)>) -> bool {
    &&& rec.len() <= usize::MAX
    &&& forall|j: int| 0 <= j < rec.len() ==> encode_utf8(#[trigger] rec[j].0).len() <= usize::MAX
        && encode_utf8(rec[j].1).len() <= usize::MAX
}

/// The spill contents split at a record boundary.
pub proof fn lemma_enc_records_split(recs: Seq<Seq<(Seq<char>, Seq<char>)>>, i: int)
    requires
        0 <= i <= recs.len(),
    ensures
        enc_records(recs) == enc_records(recs.take(i)) + enc_records(recs.skip(i)),
    decreases recs.len(),
{
    if i == recs.len() {
        assert(recs.take(i) =~= recs);
        assert(recs.skip(i) =~= Seq::<Seq<(Seq<char>, Seq<char>)>>::empty());
        assert(enc_records(recs) =~= enc_records(recs.take(i)) + enc_records(recs.skip(i)));
    } else {
        let dl = recs.drop_last();
        lemma_enc_records_split(dl, i);
        assert(dl.take(i) =~= recs.take(i));
        assert(recs.skip(i).drop_last() =~= dl.skip(i));
        assert(recs.skip(i).last() == recs.last());
        assert(enc_records(recs.skip(i)) == enc_records(dl.skip(i)) + enc_record(recs.last()));
        assert(enc_records(recs) == (enc_records(recs.take(i)) + enc_records(dl.skip(i)))
            + enc_record(recs.last()));
        assert((enc_records(recs.take(i)) + enc_records(dl.skip(i))) + enc_record(recs.last())
            =~= enc_records(recs.take(i)) + (enc_records(dl.skip(i)) + enc_record(recs.last())));
    }
}

/// A non-empty tail of the spill starts with its first record.
pub proof fn lemma_enc_records_first(recs: Seq<Seq<(Seq<char>, Seq<char>)>>)
    requires
        recs.len() > 0,
    ensures
        enc_records(recs) == enc_record(recs[0]) + enc_records(recs.drop_first()),
    decreases recs.len(),
{
    if recs.len() == 1 {
        assert(recs.drop_last() =~= Seq::<Seq<(Seq<char>, Seq<char>)>>::empty());
        assert(recs.drop_first() =~= Seq::<Seq<(Seq<char>, Seq<char>)>>::empty());
        assert(enc_records(recs) == enc_records(recs.drop_last()) + enc_record(recs.last()));
        assert(enc_records(recs) =~= enc_record(recs[0]) + enc_records(recs.drop_first()));
    } else {
        let dl = recs.drop_last();
        lemma_enc_records_first(dl);
        assert(recs.drop_first().drop_last() =~= dl.drop_first());
        assert(recs.drop_first().last() == recs.last());
        assert(enc_records(recs.drop_first()) == enc_records(dl.drop_first()) + enc_record(
            recs.last(),
        ));
        assert(recs[0] == dl[0]);
        assert(enc_records(recs) == (enc_record(recs[0]) + enc_records(dl.drop_first()))
            + enc_record(recs.last()));
        assert((enc_record(recs[0]) + enc_records(dl.drop_first())) + enc_record(recs.last())
            =~= enc_record(recs[0]) + (enc_records(dl.drop_first()) + enc_record(recs.last())));
    }
}

/// Appends the eight bytes of `n`, least significant first.
fn encode_u64(out: &mut Vec<u8>, n: u64)
    ensures
        final(out)@ == old(out)@ + le8(n),
{
    proof {
        assert((n & 0xff) < 256 && ((n >> 8) & 0xff) < 256 && ((n >> 16) & 0xff) < 256 && ((n
            >> 24) & 0xff) < 256 && ((n >> 32) & 0xff) < 256 && ((n >> 40) & 0xff) < 256 && ((n
            >> 48) & 0xff) < 256 && ((n >> 56) & 0xff) < 256) by (bit_vector);
    }
    let ghost before = out@;
    out.push((n & 0xff) as u8);
    out.push(((n >> 8) & 0xff) as u8);
    out.push(((n >> 16) & 0xff) as u8);
    out.push(((n >> 24) & 0xff) as u8);
    out.push(((n >> 32) & 0xff) as u8);
    out.push(((n >> 40) & 0xff) as u8);
    out.push(((n >> 48) & 0xff) as u8);
    out.push(((n >> 56) & 0xff) as u8);
    proof {
        assert(out@ =~= before + le8(n));
    }
}

/// Reads back the eight bytes of `m`, least significant first.
fn decode_u64(bytes: &Vec<u8>, pos: usize, Ghost(m): Ghost<u64>) -> (r: u64)
    requires
        pos + 8 <= bytes@.len(),
        bytes@.subrange(pos as int, pos + 8) == le8(m),
    ensures
        r == m,
{
    let _total: usize = bytes.len();
    let b0 = bytes[pos];
    let b1 = bytes[pos + 1];
    let b2 = bytes[pos + 2];
    let b3 = bytes[pos + 3];
    let b4 = bytes[pos + 4];
    let b5 = bytes[pos + 5];
    let b6 = bytes[pos + 6];
    let b7 = bytes[pos + 7];
    let n: u64 = (b0 as u64) | ((b1 as u64) << 8) | ((b2 as u64) << 16) | ((b3 as u64) << 24) | ((
    b4 as u64) << 32) | ((b5 as u64) << 40) | ((b6 as u64) << 48) | ((b7 as u64) << 56);
    proof {
        assert(b0 == le8(m)[0] && b1 == le8(m)[1] && b2 == le8(m)[2] && b3 == le8(m)[3] && b4
            == le8(m)[4] && b5 == le8(m)[5] && b6 == le8(m)[6] && b7 == le8(m)[7]) by {
            assert forall|k: int| 0 <= k < 8 implies bytes@[pos + k] == le8(m)[k] by {
                assert(bytes@.subrange(pos as int, pos + 8)[k] == bytes@[pos + k]);
            }
        }
        assert({
            let c0 = (m & 0xff) as u8;
            let c1 = ((m >> 8) & 0xff) as u8;
            let c2 = ((m >> 16) & 0xff) as u8;
            let c3 = ((m >> 24) & 0xff) as u8;
            let c4 = ((m >> 32) & 0xff) as u8;
            let c5 = ((m >> 40) & 0xff) as u8;
            let c6 = ((m >> 48) & 0xff) as u8;
            let c7 = ((m >> 56) & 0xff) as u8;
            (c0 as u64) | ((c1 as u64) << 8) | ((c2 as u64) << 16) | ((c3 as u64) << 24) | ((
            c4 as u64) << 32) | ((c5 as u64) << 40) | ((c6 as u64) << 48) | ((c7 as u64) << 56)
                == m
        }) by (bit_vector);
    }
    n
}

/// Appends one length-prefixed UTF-8 string.
fn encode_str(out: &mut Vec<u8>, s: &String)
    ensures
        final(out)@ == old(out)@ + enc_str(s@),
        encode_utf8(s@).len() <= usize::MAX,
{
    let mut b = s.as_str().as_bytes_vec();
    let len = b.len();
    encode_u64(out, len as u64);
    out.append(&mut b);
    proof {
        assert(out@ =~= old(out)@ + enc_str(s@));
    }
}

/// Encodes one rendered object as a spill record.
pub fn encode_record_vec(cells: &Vec<(String, String)>) -> (r: Vec<u8>)
    ensures
        r@ == enc_record(cells_view(cells@)),
        rec_bounded(cells_view(cells@)),
{
    let ghost rec = cells_view(cells@);
    let mut out: Vec<u8> = Vec::new();
    let n = cells.len();
    encode_u64(&mut out, n as u64);
    proof {
        assert(rec.len() == n as int);
        assert(rec.take(0) =~= Seq::<(Seq<char>, Seq<char>)>::empty());
        assert(out@ =~= le8(rec.len() as u64) + enc_pairs(rec.take(0)));
    }
    let mut i: usize = 0;
    while i < n
        invariant
            i <= n,
            n == cells@.len(),
            rec == cells_view(cells@),
            rec.len() == n,
            out@ == le8(rec.len() as u64) + enc_pairs(rec.take(i as int)),
            forall|j: int| 0 <= j < i ==> encode_utf8(#[trigger] rec[j].0).len() <= usize::MAX
                && encode_utf8(rec[j].1).len() <= usize::MAX,
        decreases n - i,
    {
        encode_str(&mut out, &cells[i].0);
        encode_str(&mut out, &cells[i].1);
        proof {
            let t = rec.take(i + 1);
            assert(t.drop_last() =~= rec.take(i as int));
            assert(t.last() == rec[i as int]);
            assert(rec[i as int] == (cells@[i as int].0@, cells@[i as int].1@));
            assert(enc_pairs(t) == enc_pairs(rec.take(i as int)) + enc_pair(rec[i as int]));
            assert(out@ =~= le8(rec.len() as u64) + enc_pairs(t));
        }
        i += 1;
    }
    proof {
        assert(rec.take(n as int) =~= rec);
    }
    out
}

/// Reads back one length-prefixed UTF-8 string.
fn decode_str(bytes: &Vec<u8>, pos: usize, Ghost(s): Ghost<Seq<char>>) -> (r: (String, usize))
    requires
        pos <= bytes@.len(),
        enc_str(s).is_prefix_of(bytes@.skip(pos as int)),
        encode_utf8(s).len() <= usize::MAX,
    ensures
        r.0@ == s,
        r.1 == pos + enc_str(s).len(),
        r.1 <= bytes@.len(),
{
    let _total: usize = bytes.len();
    let ghost blen = encode_utf8(s).len() as u64;
    proof {
        assert(enc_str(s).len() == 8 + encode_utf8(s).len());
        assert(pos + enc_str(s).len() <= bytes@.len()) by {
            assert(bytes@.skip(pos as int).len() == bytes@.len() - pos);
        }
        assert(bytes@.subrange(pos as int, pos + 8) == le8(blen)) by {
            assert forall|k: int| 0 <= k < 8 implies bytes@.subrange(pos as int, pos + 8)[k]
                == le8(blen)[k] by {
                assert(bytes@.skip(pos as int)[k] == enc_str(s)[k]);
            }
            assert(bytes@.subrange(pos as int, pos + 8) =~= le8(blen));
        }
    }
    let n64 = decode_u64(bytes, pos, Ghost(blen));
    proof {
        assert(blen == encode_utf8(s).len() as u64);
        assert(encode_utf8(s).len() <= usize::MAX);
    }
    let len = n64 as usize;
    let start = pos + 8;
    let mut buf: Vec<u8> = Vec::new();
    let mut k: usize = 0;
    while k < len
        invariant
            k <= len,
            len == encode_utf8(s).len(),
            start == pos + 8,
            pos + 8 + len <= bytes@.len(),
            bytes@.len() <= usize::MAX,
            enc_str(s).is_prefix_of(bytes@.skip(pos as int)),
            buf@ =~= encode_utf8(s).take(k as int),
        decreases len - k,
    {
        let b = bytes[start + k];
        proof {
            assert(bytes@[pos + 8 + k] == bytes@.skip(pos as int)[8 + k]);
            assert(bytes@.skip(pos as int)[8 + k] == enc_str(s)[8 + k]);
            assert(enc_str(s)[8 + k] == encode_utf8(s)[k as int]);
        }
        buf.push(b);
        proof {
            assert(buf@ =~= encode_utf8(s).take(k + 1));
        }
        k += 1;
    }
    proof {
        assert(encode_utf8(s).take(len as int) =~= encode_utf8(s));
        encode_utf8_valid_utf8(s);
        encode_utf8_decode_utf8(s);
    }
    match string_from_utf8(buf) {
        Some(text) => (text, start + len),
        None => vstd::pervasive::unreached(),
    }
}

/// Reads back one spill record.
pub fn decode_record(bytes: &Vec<u8>, pos: usize, Ghost(rec): Ghost<
    Seq<(Seq<char>, Seq<char>)>,
>) -> (r: (Vec<(String, String)>, usize))
    requires
        pos <= bytes@.len(),
        enc_record(rec).is_prefix_of(bytes@.skip(pos as int)),
        rec_bounded(rec),
    ensures
        cells_view(r.0@) == rec,
        r.1 == pos + enc_record(rec).len(),
        r.1 <= bytes@.len(),
{
    let _total: usize = bytes.len();
    let ghost count = rec.len() as u64;
    proof {
        assert(enc_record(rec).len() == 8 + enc_pairs(rec).len());
        assert(pos + enc_record(rec).len() <= bytes@.len()) by {
            assert(bytes@.skip(pos as int).len() == bytes@.len() - pos);
        }
        assert(bytes@.subrange(pos as int, pos + 8) == le8(count)) by {
            assert forall|k: int| 0 <= k < 8 implies bytes@.subrange(pos as int, pos + 8)[k]
                == le8(count)[k] by {
                assert(bytes@.skip(pos as int)[k] == enc_record(rec)[k]);
            }
            assert(bytes@.subrange(pos as int, pos + 8) =~= le8(count));
        }
    }
    let n64 = decode_u64(bytes, pos, Ghost(count));
    let n = n64 as usize;
    let mut out: Vec<(String, String)> = Vec::new();
    let mut p = pos + 8;
    let mut i: usize = 0;
    proof {
        assert(rec.take(0) =~= Seq::<(Seq<char>, Seq<char>)>::empty());
        assert(enc_pairs(rec).is_prefix_of(bytes@.skip(pos + 8))) by {
            assert forall|k: int| 0 <= k < enc_pairs(rec).len() implies bytes@.skip(pos + 8)[k]
                == enc_pairs(rec)[k] by {
                assert(bytes@.skip(pos + 8)[k] == bytes@[pos + 8 + k]);
                assert(bytes@.skip(pos as int)[8 + k] == enc_record(rec)[8 + k]);
            }
        }
    }
    while i < n
        invariant
            i <= n,
            n == rec.len(),
            rec_bounded(rec),
            cells_view(out@) =~= rec.take(i as int),
            p == pos + 8 + enc_pairs(rec.take(i as int)).len(),
            pos + 8 + enc_pairs(rec).len() <= bytes@.len(),
            enc_pairs(rec).is_prefix_of(bytes@.skip(pos + 8)),
            p <= bytes@.len(),
        decreases n - i,
    {
        proof {
            lemma_enc_pairs_split(rec, i as int);
            assert(enc_pairs(rec.skip(i as int)).is_prefix_of(bytes@.skip(p as int))) by {
                let whole = enc_pairs(rec);
                let head = enc_pairs(rec.take(i as int));
                let tail = enc_pairs(rec.skip(i as int));
                assert(whole == head + tail);
                assert forall|k: int| 0 <= k < tail.len() implies bytes@.skip(p as int)[k]
                    == tail[k] by {
                    assert(bytes@.skip(p as int)[k] == bytes@[p + k]);
                    assert(bytes@.skip(pos + 8)[head.len() + k] == whole[head.len() + k]);
                }
                assert(tail.is_prefix_of(bytes@.skip(p as int)));
            }
            lemma_enc_pairs_first(rec.skip(i as int));
            assert(rec.skip(i as int)[0] == rec[i as int]);
            assert(enc_pair(rec[i as int]).is_prefix_of(bytes@.skip(p as int))) by {
                let tail = enc_pairs(rec.skip(i as int));
                let one = enc_pair(rec[i as int]);
                assert(one.is_prefix_of(tail));
                assert forall|k: int| 0 <= k < one.len() implies bytes@.skip(p as int)[k]
                    == one[k] by {
                    assert(tail[k] == one[k]);
                }
            }
            assert(enc_str(rec[i as int].0).is_prefix_of(bytes@.skip(p as int))) by {
                let one = enc_pair(rec[i as int]);
                let first = enc_str(rec[i as int].0);
                assert forall|k: int| 0 <= k < first.len() implies bytes@.skip(p as int)[k]
                    == first[k] by {
                    assert(one[k] == first[k]);
                }
            }
        }
        let (key, p1) = decode_str(bytes, p, Ghost(rec[i as int].0));
        proof {
            assert(enc_str(rec[i as int].1).is_prefix_of(bytes@.skip(p1 as int))) by {
                let one = enc_pair(rec[i as int]);
                let first = enc_str(rec[i as int].0);
                let second = enc_str(rec[i as int].1);
                assert(p1 == p + first.len());
                assert(one.is_prefix_of(bytes@.skip(p as int)));
                assert(p1 + second.len() <= bytes@.len()) by {
                    assert(one.len() == first.len() + second.len());
                }
                assert forall|k: int| 0 <= k < second.len() implies bytes@.skip(p1 as int)[k]
                    == second[k] by {
                    assert(bytes@.skip(p1 as int)[k] == bytes@[p1 + k]);
                    assert(bytes@.skip(p as int)[first.len() + k] == one[first.len() + k]);
                    assert(one[first.len() + k] == second[k]);
                }
            }
        }
        let (cell, p2) = decode_str(bytes, p1, Ghost(rec[i as int].1));
        let ghost prev = out@;
        out.push((key, cell));
        p = p2;
        proof {
            let t = rec.take(i + 1);
            assert(t.drop_last() =~= rec.take(i as int));
            assert(t.last() == rec[i as int]);
            assert(cells_view(prev).len() == i as int);
            assert(prev.len() == i as int);
            assert(out@ == prev.push((key, cell)));
            assert forall|j: int| 0 <= j < i + 1 implies cells_view(out@)[j] == t[j] by {
                if j < i {
                    assert(out@[j] == prev[j]);
                    assert(cells_view(prev)[j] == rec.take(i as int)[j]);
                }
            }
            assert(cells_view(out@) =~= t);
            assert(enc_pairs(t) == enc_pairs(rec.take(i as int)) + enc_pair(rec[i as int]));
            assert(p == pos + 8 + enc_pairs(t).len());
        }
        i += 1;
    }
    proof {
        assert(rec.take(n as int) =~= rec);
    }
    (out, p)
}

/// The encoded pairs split at a pair boundary.
proof fn lemma_enc_pairs_split(rec: Seq<(Seq<char>, Seq<char>)>, i: int)
    requires
        0 <= i <= rec.len(),
    ensures
        enc_pairs(rec) == enc_pairs(rec.take(i)) + enc_pairs(rec.skip(i)),
    decreases rec.len(),
{
    if i == rec.len() {
        assert(rec.take(i) =~= rec);
        assert(rec.skip(i) =~= Seq::<(Seq<char>, Seq<char>)>::empty());
        assert(enc_pairs(rec) =~= enc_pairs(rec.take(i)) + enc_pairs(rec.skip(i)));
    } else {
        let dl = rec.drop_last();
        lemma_enc_pairs_split(dl, i);
        assert(dl.take(i) =~= rec.take(i));
        assert(rec.skip(i).drop_last() =~= dl.skip(i));
        assert(rec.skip(i).last() == rec.last());
        assert(enc_pairs(rec.skip(i)) == enc_pairs(dl.skip(i)) + enc_pair(rec.last()));
        assert((enc_pairs(rec.take(i)) + enc_pairs(dl.skip(i))) + enc_pair(rec.last())
            =~= enc_pairs(rec.take(i)) + (enc_pairs(dl.skip(i)) + enc_pair(rec.last())));
    }
}

/// Non-empty encoded pairs start with their first pair.
proof fn lemma_enc_pairs_first(rec: Seq<(Seq<char>, Seq<char>)>)
    requires
        rec.len() > 0,
    ensures
        enc_pairs(rec) == enc_pair(rec[0]) + enc_pairs(rec.drop_first()),
    decreases rec.len(),
{
    if rec.len() == 1 {
        assert(rec.drop_last() =~= Seq::<(Seq<char>, Seq<char>)>::empty());
        assert(rec.drop_first() =~= Seq::<(Seq<char>, Seq<char>)>::empty());
        assert(enc_pairs(rec) =~= enc_pair(rec[0]) + enc_pairs(rec.drop_first()));
    } else {
        let dl = rec.drop_last();
        lemma_enc_pairs_first(dl);
        assert(rec.drop_first().drop_last() =~= dl.drop_first());
        assert(rec.drop_first().last() == rec.last());
        assert(enc_pairs(rec.drop_first()) == enc_pairs(dl.drop_first()) + enc_pair(rec.last()));
        assert(rec[0] == dl[0]);
        assert((enc_pair(rec[0]) + enc_pairs(dl.drop_first())) + enc_pair(rec.last())
            =~= enc_pair(rec[0]) + (enc_pairs(dl.drop_first()) + enc_pair(rec.last())));
    }
}

} // verus!
