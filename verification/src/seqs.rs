//! A filtered subsequence, with the facts the graph engine needs of it:
//! what it keeps, what it drops, and that it preserves key-distinctness.

use vstd::prelude::*;

verus! {

/// The subsequence of `s` whose elements satisfy `pred`, in order.
pub open spec fn keep<A>(s: Seq<A>, pred: spec_fn(A) -> bool) -> Seq<A>
    decreases s.len(),
{
    if s.len() == 0 {
        Seq::empty()
    } else if pred(s.last()) {
        keep(s.drop_last(), pred).push(s.last())
    } else {
        keep(s.drop_last(), pred)
    }
}

/// Every kept element comes from `s` and satisfies `pred`.
pub proof fn lemma_keep_contains<A>(s: Seq<A>, pred: spec_fn(A) -> bool)
    ensures
        forall|x: A| #[trigger] keep(s, pred).contains(x) ==> s.contains(x) && pred(x),
        keep(s, pred).len() <= s.len(),
    decreases s.len(),
{
    if s.len() > 0 {
        lemma_keep_contains(s.drop_last(), pred);
        assert forall|x: A| keep(s, pred).contains(x) implies s.contains(x) && pred(x) by {
            let dl = s.drop_last();
            let k = keep(s, pred);
            let i = choose|i: int| 0 <= i < k.len() && k[i] == x;
            if pred(s.last()) && i == k.len() - 1 {
                assert(x == s.last());
                assert(s[s.len() - 1] == x);
            } else {
                assert(keep(dl, pred)[i] == x);
                assert(keep(dl, pred).contains(x));
                assert(dl.contains(x));
                let j = choose|j: int| 0 <= j < dl.len() && dl[j] == x;
                assert(s[j] == x);
            }
        }
    }
}

/// Every element of `s` that satisfies `pred` is kept.
pub proof fn lemma_keep_retains<A>(s: Seq<A>, pred: spec_fn(A) -> bool)
    ensures
        forall|i: int| 0 <= i < s.len() && pred(s[i]) ==> #[trigger] keep(s, pred).contains(s[i]),
    decreases s.len(),
{
    if s.len() > 0 {
        lemma_keep_retains(s.drop_last(), pred);
        assert forall|i: int| 0 <= i < s.len() && pred(s[i]) implies keep(s, pred).contains(
            s[i],
        ) by {
            if i == s.len() - 1 {
                assert(keep(s, pred).last() == s.last());
            } else {
                assert(s.drop_last()[i] == s[i]);
                assert(keep(s.drop_last(), pred).contains(s[i]));
                let j = choose|j: int|
                    0 <= j < keep(s.drop_last(), pred).len() && keep(s.drop_last(), pred)[j] == s[i];
                if pred(s.last()) {
                    assert(keep(s, pred)[j] == s[i]);
                }
            }
        }
    }
}

/// Filtering preserves pairwise distinctness of a key.
pub proof fn lemma_keep_distinct<A, K>(s: Seq<A>, pred: spec_fn(A) -> bool, key: spec_fn(A) -> K)
    requires
        forall|i: int, j: int| 0 <= i < j < s.len() ==> key(s[i]) != key(s[j]),
    ensures
        forall|i: int, j: int|
            0 <= i < j < keep(s, pred).len() ==> key(keep(s, pred)[i]) != key(keep(s, pred)[j]),
    decreases s.len(),
{
    if s.len() > 0 {
        let dl = s.drop_last();
        assert forall|i: int, j: int| 0 <= i < j < dl.len() implies key(dl[i]) != key(dl[j]) by {
            assert(dl[i] == s[i] && dl[j] == s[j]);
        }
        lemma_keep_distinct(dl, pred, key);
        lemma_keep_contains(dl, pred);
        if pred(s.last()) {
            assert forall|i: int, j: int|
                0 <= i < j < keep(s, pred).len() implies key(keep(s, pred)[i]) != key(
                keep(s, pred)[j],
            ) by {
                if j == keep(s, pred).len() - 1 {
                    assert(keep(s, pred)[j] == s.last());
                    assert(keep(s, pred)[i] == keep(dl, pred)[i]);
                    assert(keep(dl, pred).contains(keep(dl, pred)[i]));
                    assert(dl.contains(keep(dl, pred)[i]));
                    let w = choose|w: int| 0 <= w < dl.len() && dl[w] == keep(dl, pred)[i];
                    assert(dl[w] == keep(dl, pred)[i]);
                    assert(s[w] == dl[w]);
                    assert(key(s[w]) != key(s[s.len() - 1]));
                } else {
                    assert(keep(s, pred)[i] == keep(dl, pred)[i]);
                    assert(keep(s, pred)[j] == keep(dl, pred)[j]);
                }
            }
        }
    }
}

} // verus!
