//! Facts about sequences.

use vstd::prelude::*;

verus! {

/// The members of a prefix that is one longer.
pub proof fn lemma_take_contains<T>(s: Seq<T>, i: int)
    requires
        0 <= i < s.len(),
    ensures
        forall|x: T| #[trigger] s.take(i + 1).contains(x) <==> s.take(i).contains(x) || x == s[i],
{
    assert forall|x: T| #[trigger] s.take(i + 1).contains(x) <==> s.take(i).contains(x) || x == s[i] by {
        if s.take(i + 1).contains(x) {
            let t = s.take(i + 1);
            let j = choose|j: int| 0 <= j < t.len() && t[j] == x;
            if j < i {
                assert(s.take(i)[j] == x);
            }
        }
        if s.take(i).contains(x) {
            let t = s.take(i);
            let j = choose|j: int| 0 <= j < t.len() && t[j] == x;
            assert(s.take(i + 1)[j] == x);
        }
        assert(s.take(i + 1)[i] == s[i]);
    }
}

/// A filter that nothing passes.
pub proof fn lemma_filter_none<T>(s: Seq<T>, pred: spec_fn(T) -> bool)
    requires
        forall|i: int| 0 <= i < s.len() ==> !pred(#[trigger] s[i]),
    ensures
        s.filter(pred).len() == 0,
    decreases s.len(),
{
    reveal(Seq::filter);
    if s.len() > 0 {
        assert forall|i: int| 0 <= i < s.drop_last().len() implies !pred(#[trigger] s.drop_last()[i]) by {
            assert(s.drop_last()[i] == s[i]);
        }
        lemma_filter_none(s.drop_last(), pred);
        assert(s.last() == s[s.len() - 1]);
    }
}

/// What passes a filter satisfies it and was there before.
pub proof fn lemma_filter_member<T>(s: Seq<T>, pred: spec_fn(T) -> bool, i: int)
    requires
        0 <= i < s.filter(pred).len(),
    ensures
        pred(s.filter(pred)[i]),
        s.contains(s.filter(pred)[i]),
    decreases s.len(),
{
    reveal(Seq::filter);
    if s.len() > 0 {
        let t = s.drop_last();
        if i < t.filter(pred).len() {
            lemma_filter_member(t, pred, i);
            let j = choose|j: int| 0 <= j < t.len() && t[j] == t.filter(pred)[i];
            assert(s[j] == s.filter(pred)[i]);
        } else {
            assert(s.filter(pred)[i] == s.last());
            assert(s[s.len() - 1] == s.last());
        }
    }
}

} // verus!
