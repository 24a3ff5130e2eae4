//! Facts about the part of a sequence that a predicate picks.

use vstd::prelude::*;

verus! {

/// Where the predicate holds of no element, it picks nothing.
pub proof fn lemma_filter_none<A>(s: Seq<A>, pred: spec_fn(A) -> bool)
    requires
        forall|i: int| 0 <= i < s.len() ==> !pred(#[trigger] s[i]),
    ensures
        s.filter(pred) == Seq::<A>::empty(),
    decreases s.len(),
{
    reveal(Seq::filter);
    if s.len() > 0 {
        assert(!pred(s[s.len() - 1]));
        lemma_filter_none(s.drop_last(), pred);
    }
}

/// Of a single element it picks that element or nothing.
pub proof fn lemma_filter_one<A>(a: A, pred: spec_fn(A) -> bool)
    ensures
        seq![a].filter(pred) == if pred(a) {
            seq![a]
        } else {
            Seq::<A>::empty()
        },
{
    reveal_with_fuel(Seq::filter, 2);
    assert(seq![a].drop_last() == Seq::<A>::empty());
    assert(Seq::<A>::empty().push(a) == seq![a]);
}

/// What it picks, it picks from the sequence, and the predicate holds of it.
pub proof fn lemma_filter_member<A>(s: Seq<A>, pred: spec_fn(A) -> bool, a: A)
    ensures
        s.filter(pred).contains(a) <==> s.contains(a) && pred(a),
    decreases s.len(),
{
    reveal(Seq::filter);
    if s.len() == 0 {
    } else {
        let rest = s.drop_last();
        lemma_filter_member(rest, pred, a);
        let picked = rest.filter(pred);
        if s.contains(a) && pred(a) {
            let i = choose|i: int| 0 <= i < s.len() && s[i] == a;
            if i < s.len() - 1 {
                assert(rest[i] == a);
                let j = choose|j: int| 0 <= j < picked.len() && picked[j] == a;
                if pred(s.last()) {
                    assert(picked.push(s.last())[j] == a);
                }
            } else {
                assert(picked.push(s.last())[picked.len() as int] == a);
            }
        }
        if s.filter(pred).contains(a) {
            let j = choose|j: int| 0 <= j < s.filter(pred).len() && s.filter(pred)[j] == a;
            if pred(s.last()) && j == picked.len() {
                assert(s[s.len() - 1] == a);
            } else {
                assert(picked[j] == a);
                let i = choose|i: int| 0 <= i < rest.len() && rest[i] == a;
                assert(s[i] == a);
            }
        }
    }
}

} // verus!
