//! The header set.
//!
//! A `HeaderSet` is a deduplicating ordered set of keys, kept as a strictly
//! sorted vector. Two such sets are built per conversion: one over the keys
//! as flattening produced them (safe form) and one over their caller-facing
//! form. Comparing their sizes after all input is seen detects collisions.

use vstd::prelude::*;
use vstd::seq_lib::lemma_seq_contains;
use crate::lex::{lex_lt, lemma_lex_total, lemma_lex_antisym, lemma_lex_trans, str_lt, str_eq};

verus! {

broadcast use vstd::set::group_set_axioms;

/// A sequence of keys in strictly increasing lexicographic order.
pub open spec fn sorted_strict(s: Seq<Seq<char>>) -> bool {
    forall|i: int, j: int| 0 <= i < j < s.len() ==> lex_lt(s[i], s[j])
}

/// A strictly sorted sequence holds no key twice.
pub proof fn lemma_sorted_no_dup(s: Seq<Seq<char>>)
    requires
        sorted_strict(s),
    ensures
        s.no_duplicates(),
{
    assert forall|i: int, j: int|
        0 <= i < s.len() && 0 <= j < s.len() && i != j implies s[i] != s[j] by {
        if i < j {
            assert(lex_lt(s[i], s[j]));
        } else {
            assert(lex_lt(s[j], s[i]));
        }
    }
}

/// Strictly sorted sequences with the same members are the same sequence:
/// the header row of a conversion is uniquely determined by the key set.
pub proof fn lemma_sorted_same_set(x: Seq<Seq<char>>, y: Seq<Seq<char>>)
    requires
        sorted_strict(x),
        sorted_strict(y),
        forall|k: Seq<char>| x.contains(k) <==> y.contains(k),
    ensures
        x == y,
    decreases x.len(),
{
    broadcast use lemma_seq_contains;

    if x.len() == 0 {
        if y.len() > 0 {
            assert(y.contains(y[0]));
            assert(false);
        }
        assert(x =~= y);
    } else {
        assert(x.contains(x[0]));
        assert(y.len() > 0);
        assert(y.contains(y[0]));
        let i = choose|i: int| 0 <= i < x.len() && x[i] == y[0];
        let j = choose|j: int| 0 <= j < y.len() && y[j] == x[0];
        if i > 0 && j > 0 {
            assert(lex_lt(x[0], x[i]));
            assert(lex_lt(y[0], y[j]));
            lemma_lex_antisym(x[0], y[0]);
            assert(false);
        }
        assert(x[0] == y[0]);
        let xt = x.drop_first();
        let yt = y.drop_first();
        assert forall|k: Seq<char>| xt.contains(k) implies yt.contains(k) by {
            let ii = choose|ii: int| 0 <= ii < xt.len() && xt[ii] == k;
            assert(x[ii + 1] == k);
            assert(lex_lt(x[0], k));
            assert(x.contains(k));
            assert(y.contains(k));
            let jj = choose|jj: int| 0 <= jj < y.len() && y[jj] == k;
            assert(jj != 0);
            assert(yt[jj - 1] == k);
        }
        assert forall|k: Seq<char>| yt.contains(k) implies xt.contains(k) by {
            let ii = choose|ii: int| 0 <= ii < yt.len() && yt[ii] == k;
            assert(y[ii + 1] == k);
            assert(lex_lt(y[0], k));
            assert(y.contains(k));
            assert(x.contains(k));
            let jj = choose|jj: int| 0 <= jj < x.len() && x[jj] == k;
            assert(jj != 0);
            assert(xt[jj - 1] == k);
        }
        lemma_sorted_same_set(xt, yt);
        assert(x =~= seq![x[0]] + xt);
        assert(y =~= seq![y[0]] + yt);
    }
}

/// An ordered, deduplicating set of header keys.
pub struct HeaderSet {
    pub keys: Vec<String>,
}

impl View for HeaderSet {
    type V = Seq<Seq<char>>;

    open spec fn view(&self) -> Seq<Seq<char>> {
        self.keys@.map_values(|s: String| s@)
    }
}

impl HeaderSet {
    /// The keys seen so far, as a set.
    pub open spec fn key_set(&self) -> Set<Seq<char>> {
        self@.to_set()
    }

    /// The vector is strictly sorted, so every key appears once.
    pub open spec fn wf(&self) -> bool {
        sorted_strict(self@)
    }

    /// An empty header set.
    pub fn new() -> (r: Self)
        ensures
            r.wf(),
            r@ == Seq::<Seq<char>>::empty(),
            r.key_set() == Set::<Seq<char>>::empty(),
    {
        let r = HeaderSet { keys: Vec::new() };
        proof {
            assert(r@ =~= Seq::<Seq<char>>::empty());
            assert(r.key_set() =~= Set::<Seq<char>>::empty());
        }
        r
    }

    /// The number of distinct keys seen.
    pub fn len(&self) -> (r: usize)
        requires
            self.wf(),
        ensures
            r == self@.len(),
            r == self.key_set().len(),
    {
        proof {
            lemma_sorted_no_dup(self@);
            self@.unique_seq_to_set();
        }
        self.keys.len()
    }

    /// Inserts a key, keeping the vector sorted and deduplicated.
    pub fn insert(&mut self, k: String)
        requires
            old(self).wf(),
        ensures
            final(self).wf(),
            final(self).key_set() == old(self).key_set().insert(k@),
    {
        broadcast use lemma_seq_contains;

        let ghost old_view = self@;
        let n = self.keys.len();
        let mut i: usize = 0;
        loop
            invariant_except_break
                i <= n,
                n == self.keys.len(),
                self@ == old_view,
                sorted_strict(old_view),
                forall|j: int| 0 <= j < i ==> lex_lt(old_view[j], k@),
            ensures
                i <= n,
                n == self.keys.len(),
                self@ == old_view,
                forall|j: int| 0 <= j < i ==> lex_lt(old_view[j], k@),
                i < n ==> !lex_lt(old_view[i as int], k@),
            decreases n - i,
        {
            if i >= n {
                break;
            }
            if !str_lt(self.keys[i].as_str(), k.as_str()) {
                break;
            }
            i += 1;
        }
        let duplicate = i < n && str_eq(self.keys[i].as_str(), k.as_str());
        if duplicate {
            proof {
                assert(old_view[i as int] == k@);
                assert(old_view.contains(k@));
                assert(self.key_set() =~= old(self).key_set().insert(k@));
            }
        } else {
            proof {
                if i < n {
                    lemma_lex_total(old_view[i as int], k@);
                    assert(lex_lt(k@, old_view[i as int]));
                }
            }
            self.keys.insert(i, k);
            proof {
                let new_view = self@;
                assert(new_view =~= old_view.insert(i as int, k@)) by {
                    assert(self.keys@ == old(self).keys@.insert(i as int, k));
                    assert forall|j: int| 0 <= j < new_view.len() implies new_view[j]
                        == old_view.insert(i as int, k@)[j] by {
                        if j < i {
                            assert(self.keys@[j] == old(self).keys@[j]);
                        } else if j == i {
                            assert(self.keys@[j] == k);
                        } else {
                            assert(self.keys@[j] == old(self).keys@[j - 1]);
                        }
                    }
                }
                assert forall|p: int, q: int| 0 <= p < q < new_view.len() implies lex_lt(
                    new_view[p],
                    new_view[q],
                ) by {
                    let a = new_view[p];
                    let b = new_view[q];
                    if p < i && q == i {
                        assert(a == old_view[p]);
                        assert(lex_lt(a, b));
                    } else if p < i && q > i {
                        assert(a == old_view[p] && b == old_view[q - 1]);
                    } else if p == i && q > i {
                        assert(a == k@ && b == old_view[q - 1]);
                        assert(i < old_view.len());
                        if i < q - 1 {
                            assert(lex_lt(old_view[i as int], old_view[q - 1]));
                            assert(lex_lt(k@, old_view[i as int]));
                            lemma_lex_trans(k@, old_view[i as int], old_view[q - 1]);
                            assert(k@ != old_view[q - 1]) by {
                                if k@ == old_view[q - 1] {
                                    lemma_lex_antisym(k@, old_view[i as int]);
                                }
                            }
                        } else {
                            assert(lex_lt(k@, old_view[i as int]));
                        }
                    } else if q < i {
                        assert(a == old_view[p] && b == old_view[q]);
                    } else {
                        assert(a == old_view[p - 1] && b == old_view[q - 1]);
                    }
                }
                assert(self.key_set() =~= old(self).key_set().insert(k@)) by {
                    assert forall|x: Seq<char>| self.key_set().contains(x) implies old(
                        self,
                    ).key_set().insert(k@).contains(x) by {
                        let j = choose|j: int| 0 <= j < new_view.len() && new_view[j] == x;
                        if j < i {
                            assert(old_view[j] == x);
                        } else if j > i {
                            assert(old_view[j - 1] == x);
                        }
                    }
                    assert forall|x: Seq<char>| old(self).key_set().insert(k@).contains(
                        x,
                    ) implies self.key_set().contains(x) by {
                        if x == k@ {
                            assert(new_view[i as int] == x);
                        } else {
                            let j = choose|j: int| 0 <= j < old_view.len() && old_view[j] == x;
                            if j < i {
                                assert(new_view[j] == x);
                            } else {
                                assert(new_view[j + 1] == x);
                            }
                        }
                    }
                }
            }
        }
    }
}

} // verus!
