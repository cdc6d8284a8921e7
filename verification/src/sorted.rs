//! Strictly sorted lists of strings, used where the original sorts and deduplicates.
use vstd::prelude::*;

use crate::text::{lemma_str_lt_asym, lemma_str_lt_irrefl, lemma_str_lt_total, lemma_str_lt_trans, str_eq, str_less, str_lt, views};

verus! {

broadcast use vstd::seq::Seq::lemma_push_to_set_commute;

/// Each string is smaller than every later one (so none occurs twice).
pub open spec fn strictly_sorted(s: Seq<Seq<char>>) -> bool {
    forall|i: int, j: int| 0 <= i < j < s.len() ==> str_lt(#[trigger] s[i], #[trigger] s[j])
}

pub proof fn lemma_sorted_no_dup(s: Seq<Seq<char>>)
    requires
        strictly_sorted(s),
    ensures
        s.no_duplicates(),
{
    assert forall|i: int, j: int| 0 <= i < s.len() && 0 <= j < s.len() && i != j implies s[i] != s[j] by {
        if i < j {
            lemma_str_lt_irrefl(s[i]);
        } else {
            lemma_str_lt_irrefl(s[j]);
        }
    }
}

/// Two strictly sorted lists with the same elements are equal.
pub proof fn lemma_sorted_unique(a: Seq<Seq<char>>, b: Seq<Seq<char>>)
    requires
        strictly_sorted(a),
        strictly_sorted(b),
        a.to_set() == b.to_set(),
    ensures
        a == b,
    decreases a.len(),
{
    lemma_sorted_no_dup(a);
    lemma_sorted_no_dup(b);
    a.unique_seq_to_set();
    b.unique_seq_to_set();
    if a.len() > 0 {
        // both first elements are the least element of the common set
        assert(a.to_set().contains(a[0]));
        assert(b.to_set().contains(b[0]));
        assert(b.contains(a[0]));
        assert(a.contains(b[0]));
        let ia = choose|i: int| 0 <= i < a.len() && a[i] == b[0];
        let ib = choose|i: int| 0 <= i < b.len() && b[i] == a[0];
        if ia > 0 {
            assert(str_lt(a[0], a[ia]));
            if ib > 0 {
                assert(str_lt(b[0], b[ib]));
                lemma_str_lt_asym(a[0], b[0]);
            }
        }
        assert(a[0] == b[0]) by {
            if ia != 0 && ib != 0 {
                assert(str_lt(a[0], b[0]));
                assert(str_lt(b[0], a[0]));
                lemma_str_lt_asym(a[0], b[0]);
            }
        }
        let ta = a.drop_first();
        let tb = b.drop_first();
        assert(strictly_sorted(ta)) by {
            assert forall|i: int, j: int| 0 <= i < j < ta.len() implies str_lt(#[trigger] ta[i], #[trigger] ta[j]) by {
                assert(ta[i] == a[i + 1]);
                assert(ta[j] == a[j + 1]);
            }
        }
        assert(strictly_sorted(tb)) by {
            assert forall|i: int, j: int| 0 <= i < j < tb.len() implies str_lt(#[trigger] tb[i], #[trigger] tb[j]) by {
                assert(tb[i] == b[i + 1]);
                assert(tb[j] == b[j + 1]);
            }
        }
        assert(ta.to_set() =~= tb.to_set()) by {
            assert forall|x: Seq<char>| ta.to_set().contains(x) implies tb.to_set().contains(x) by {
                let i = choose|i: int| 0 <= i < ta.len() && ta[i] == x;
                assert(a[i + 1] == x);
                assert(a.to_set().contains(x));
                assert(b.contains(x));
                let k = choose|k: int| 0 <= k < b.len() && b[k] == x;
                if k == 0 {
                    assert(str_lt(a[0], a[i + 1]));
                    lemma_str_lt_irrefl(a[0]);
                }
                assert(tb[k - 1] == x);
            }
            assert forall|x: Seq<char>| tb.to_set().contains(x) implies ta.to_set().contains(x) by {
                let i = choose|i: int| 0 <= i < tb.len() && tb[i] == x;
                assert(b[i + 1] == x);
                assert(b.to_set().contains(x));
                assert(a.contains(x));
                let k = choose|k: int| 0 <= k < a.len() && a[k] == x;
                if k == 0 {
                    assert(str_lt(b[0], b[i + 1]));
                    lemma_str_lt_irrefl(b[0]);
                }
                assert(ta[k - 1] == x);
            }
        }
        lemma_sorted_unique(ta, tb);
        assert(a =~= seq![a[0]] + ta);
        assert(b =~= seq![b[0]] + tb);
    } else {
        if b.len() > 0 {
            assert(b.to_set().contains(b[0]));
        }
        assert(a =~= b);
    }
}

/// Add `x` to a strictly sorted list, keeping it strictly sorted (no-op when present).
pub fn insert_sorted_unique(v: &mut Vec<String>, x: String)
    requires
        strictly_sorted(views(old(v)@)),
    ensures
        strictly_sorted(views(final(v)@)),
        views(final(v)@).to_set() == views(old(v)@).to_set().insert(x@),
{
    let ghost xs = x@;
    let ghost s = views(v@);
    let mut i: usize = 0;
    while i < v.len() && str_less(v[i].as_str(), x.as_str())
        invariant
            s == views(v@),
            xs == x@,
            i <= v@.len(),
            forall|j: int| 0 <= j < i ==> str_lt(#[trigger] s[j], xs),
        decreases v@.len() - i,
    {
        assert(s[i as int] == v@[i as int]@);
        i += 1;
    }
    if i < v.len() && str_eq(v[i].as_str(), x.as_str()) {
        assert(s[i as int] == xs);
        assert(s.to_set().contains(xs));
        assert(s.to_set() =~= s.to_set().insert(xs));
        return;
    }
    proof {
        if i < s.len() {
            assert(!str_lt(s[i as int], xs));
            lemma_str_lt_total(s[i as int], xs);
        }
    }
    v.insert(i, x);
    let ghost t = views(v@);
    assert(t =~= s.insert(i as int, xs));
    assert forall|a: int, b: int| 0 <= a < b < t.len() implies str_lt(#[trigger] t[a], #[trigger] t[b]) by {
        if b < i {
        } else if b == i {
            assert(t[a] == s[a]);
        } else if a < i {
            assert(t[b] == s[b - 1]);
            assert(t[a] == s[a]);
            if b - 1 > i {
                assert(str_lt(s[i as int], s[b - 1]));
                lemma_str_lt_trans(xs, s[i as int], s[b - 1]);
            }
            lemma_str_lt_trans(s[a], xs, s[b - 1]);
        } else if a == i {
            assert(t[b] == s[b - 1]);
            if b - 1 > i {
                assert(str_lt(s[i as int], s[b - 1]));
                lemma_str_lt_trans(xs, s[i as int], s[b - 1]);
            }
        } else {
            assert(t[a] == s[a - 1]);
            assert(t[b] == s[b - 1]);
        }
    }
    assert(t.to_set() =~= s.to_set().insert(xs)) by {
        assert forall|y: Seq<char>| t.to_set().contains(y) implies s.to_set().insert(xs).contains(y) by {
            let k = choose|k: int| 0 <= k < t.len() && t[k] == y;
            if k < i {
                assert(s[k] == y);
            } else if k > i {
                assert(s[k - 1] == y);
            }
        }
        assert forall|y: Seq<char>| s.to_set().insert(xs).contains(y) implies t.to_set().contains(y) by {
            if y == xs {
                assert(t[i as int] == xs);
            } else {
                let k = choose|k: int| 0 <= k < s.len() && s[k] == y;
                if k < i {
                    assert(t[k] == y);
                } else {
                    assert(t[k + 1] == y);
                }
            }
        }
    }
}

/// Add every string of `src` to the strictly sorted list `dst`.
pub fn insert_all_sorted_unique(dst: &mut Vec<String>, src: &Vec<String>)
    requires
        strictly_sorted(views(old(dst)@)),
    ensures
        strictly_sorted(views(final(dst)@)),
        views(final(dst)@).to_set() == views(old(dst)@).to_set().union(views(src@).to_set()),
{
    let mut i: usize = 0;
    while i < src.len()
        invariant
            i <= src@.len(),
            strictly_sorted(views(dst@)),
            views(dst@).to_set() == views(old(dst)@).to_set().union(views(src@).take(i as int).to_set()),
        decreases src@.len() - i,
    {
        insert_sorted_unique(dst, src[i].clone());
        assert(views(src@).take(i as int + 1) =~= views(src@).take(i as int).push(src@[i as int]@));
        assert(views(dst@).to_set() =~= views(old(dst)@).to_set().union(views(src@).take(i as int + 1).to_set()));
        i += 1;
    }
    assert(views(src@).take(src@.len() as int) =~= views(src@));
}

} // verus!
