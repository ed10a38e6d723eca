//! Facts about lists.

use vstd::prelude::*;

verus! {

/// Filtering one element more keeps that element where it satisfies `pred`.
pub proof fn lemma_filter_step<A>(s: Seq<A>, i: int, pred: spec_fn(A) -> bool)
    requires
        0 <= i < s.len(),
    ensures
        s.take(i + 1).filter(pred) == if pred(s[i]) {
            s.take(i).filter(pred).push(s[i])
        } else {
            s.take(i).filter(pred)
        },
{
    reveal(Seq::filter);
    assert(s.take(i + 1).drop_last() == s.take(i));
}

/// Filtering keeps exactly the elements that satisfy `pred`.
pub proof fn lemma_filter_contains<A>(s: Seq<A>, pred: spec_fn(A) -> bool, x: A)
    ensures
        s.filter(pred).contains(x) <==> s.contains(x) && pred(x),
    decreases s.len(),
{
    reveal(Seq::filter);
    if s.len() > 0 {
        let head = s.drop_last();
        let last = s.last();
        lemma_filter_contains(head, pred, x);
        assert(s == head.push(last));
        vstd::seq_lib::lemma_seq_contains_after_push(head, last, x);
        vstd::seq_lib::lemma_seq_contains_after_push(head.filter(pred), last, x);
    }
}

/// Filtering by what every element satisfies changes nothing.
pub proof fn lemma_filter_all<A>(s: Seq<A>, pred: spec_fn(A) -> bool)
    requires
        forall|i: int| 0 <= i < s.len() ==> pred(#[trigger] s[i]),
    ensures
        s.filter(pred) == s,
    decreases s.len(),
{
    reveal(Seq::filter);
    if s.len() > 0 {
        let head = s.drop_last();
        assert forall|i: int| 0 <= i < head.len() implies pred(#[trigger] head[i]) by {
            assert(head[i] == s[i]);
        }
        lemma_filter_all(head, pred);
        assert(pred(s.last()));
    }
}

/// Filtering by what no element satisfies leaves nothing.
pub proof fn lemma_filter_none<A>(s: Seq<A>, pred: spec_fn(A) -> bool)
    requires
        forall|i: int| 0 <= i < s.len() ==> !pred(#[trigger] s[i]),
    ensures
        s.filter(pred) == Seq::<A>::empty(),
    decreases s.len(),
{
    reveal(Seq::filter);
    if s.len() > 0 {
        let head = s.drop_last();
        assert forall|i: int| 0 <= i < head.len() implies !pred(#[trigger] head[i]) by {
            assert(head[i] == s[i]);
        }
        lemma_filter_none(head, pred);
        assert(!pred(s.last()));
    }
}

/// The elements that satisfy `pred` and those that do not are together all of
/// them, each as often as before.
pub proof fn lemma_filter_partition<A>(s: Seq<A>, pred: spec_fn(A) -> bool)
    ensures
        (s.filter(pred) + s.filter(|x: A| !pred(x))).to_multiset() == s.to_multiset(),
        s.filter(pred).len() + s.filter(|x: A| !pred(x)).len() == s.len(),
    decreases s.len(),
{
    broadcast use vstd::seq_lib::group_to_multiset_ensures;
    reveal(Seq::filter);
    let other = |x: A| !pred(x);
    if s.len() > 0 {
        let head = s.drop_last();
        let last = s.last();
        lemma_filter_partition(head, pred);
        assert(s == head.push(last));
        vstd::seq_lib::lemma_multiset_commutative(head.filter(pred), head.filter(other));
        vstd::seq_lib::lemma_multiset_commutative(s.filter(pred), s.filter(other));
        assert(s.to_multiset() == head.to_multiset().insert(last));
        if pred(last) {
            assert(s.filter(pred) == head.filter(pred).push(last));
        } else {
            assert(s.filter(other) == head.filter(other).push(last));
        }
        assert((s.filter(pred) + s.filter(other)).to_multiset() =~= s.to_multiset());
    } else {
        assert(s.filter(pred) + s.filter(other) == s);
    }
}

} // verus!
