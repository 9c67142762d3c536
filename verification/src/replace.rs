//! Substring replacement on keys.
//!
//! Flattening runs with reserved control-picture separators, and the resulting
//! keys are mapped back to the caller's separators by textual replacement.
//! `replace_seq` is the specification: it replaces non-overlapping occurrences
//! of a pattern from left to right, the way `str::replace` does.

use vstd::prelude::*;
use crate::adapters::push_char;

verus! {

/// Replaces the non-overlapping occurrences of `pat` in `s` with `to`,
/// scanning from the left.
pub open spec fn replace_seq(s: Seq<char>, pat: Seq<char>, to: Seq<char>) -> Seq<char>
    recommends
        pat.len() > 0,
    decreases s.len(),
{
    if pat.len() == 0 || s.len() == 0 {
        s
    } else if s.len() >= pat.len() && s.take(pat.len() as int) == pat {
        to + replace_seq(s.skip(pat.len() as int), pat, to)
    } else {
        seq![s[0]] + replace_seq(s.drop_first(), pat, to)
    }
}

/// Whether `pat` occurs in `s` starting at position `i`.
fn match_at(s: &str, pat: &str, i: usize) -> (r: bool)
    requires
        i <= s@.len(),
    ensures
        r == (i + pat@.len() <= s@.len() && s@.subrange(i as int, i + pat@.len()) == pat@),
{
    let slen = s.unicode_len();
    let plen = pat.unicode_len();
    if plen > slen - i {
        return false;
    }
    let mut j: usize = 0;
    while j < plen
        invariant
            i + plen <= s@.len(),
            s@.len() <= usize::MAX,
            j <= plen,
            plen == pat@.len(),
            forall|k: int| 0 <= k < j ==> s@[i + k] == pat@[k],
        decreases plen - j,
    {
        if s.get_char(i + j) != pat.get_char(j) {
            proof {
                assert(s@.subrange(i as int, i + pat@.len())[j as int] == s@[i + j]);
            }
            return false;
        }
        j += 1;
    }
    proof {
        assert(s@.subrange(i as int, i + pat@.len()) =~= pat@);
    }
    true
}

/// Replaces every non-overlapping occurrence of `pat` in `s` with `to`.
pub fn replace_str(s: &str, pat: &str, to: &str) -> (r: String)
    requires
        pat@.len() > 0,
    ensures
        r@ == replace_seq(s@, pat@, to@),
{
    let slen = s.unicode_len();
    let plen = pat.unicode_len();
    let mut out = String::new();
    let mut i: usize = 0;
    proof {
        assert(s@.skip(0) =~= s@);
    }
    while i < slen
        invariant
            i <= slen,
            slen == s@.len(),
            plen == pat@.len(),
            pat@.len() > 0,
            replace_seq(s@, pat@, to@) == out@ + replace_seq(s@.skip(i as int), pat@, to@),
        decreases slen - i,
    {
        let ghost prev = out@;
        let ghost rest = s@.skip(i as int);
        if match_at(s, pat, i) {
            out.append(to);
            proof {
                assert(rest.len() >= pat@.len());
                assert(rest.take(pat@.len() as int) =~= s@.subrange(i as int, i + pat@.len()));
                assert(rest.skip(pat@.len() as int) =~= s@.skip(i + plen));
                assert(replace_seq(rest, pat@, to@) == to@ + replace_seq(
                    s@.skip(i + plen),
                    pat@,
                    to@,
                ));
                assert(prev + replace_seq(rest, pat@, to@) =~= out@ + replace_seq(
                    s@.skip(i + plen),
                    pat@,
                    to@,
                ));
            }
            i += plen;
        } else {
            let c = s.get_char(i);
            push_char(&mut out, c);
            proof {
                if rest.len() >= pat@.len() && rest.take(pat@.len() as int) == pat@ {
                    assert(rest.take(pat@.len() as int) =~= s@.subrange(
                        i as int,
                        i + pat@.len(),
                    ));
                    assert(false);
                }
                assert(rest[0] == s@[i as int]);
                assert(rest.drop_first() =~= s@.skip(i + 1));
                assert(replace_seq(rest, pat@, to@) == seq![s@[i as int]] + replace_seq(
                    s@.skip(i + 1),
                    pat@,
                    to@,
                ));
                assert(prev + replace_seq(rest, pat@, to@) =~= out@ + replace_seq(
                    s@.skip(i + 1),
                    pat@,
                    to@,
                ));
            }
            i += 1;
        }
    }
    proof {
        assert(s@.skip(slen as int) =~= Seq::<char>::empty());
        assert(out@ + replace_seq(s@.skip(slen as int), pat@, to@) =~= out@);
    }
    out
}

} // verus!
