//! Facts about the items of a sequence that a condition holds of.

use vstd::prelude::*;

verus! {

/// A condition holds of none of the first no items of a sequence, and the
/// first items of a sequence, all of them taken, are the sequence.
pub proof fn lemma_filter_ends<T>(s: Seq<T>, pred: spec_fn(T) -> bool)
    ensures
        s.take(0).filter(pred) == Seq::<T>::empty(),
        s.take(s.len() as int) == s,
{
    reveal(Seq::filter);
    assert(s.take(0) =~= Seq::<T>::empty());
    assert(s.take(s.len() as int) =~= s);
}

/// The items that a condition holds of, among the first `i + 1`, are those
/// among the first `i`, and the item at `i` where the condition holds of it.
pub proof fn lemma_filter_step<T>(s: Seq<T>, pred: spec_fn(T) -> bool, i: int)
    requires
        0 <= i < s.len(),
    ensures
        s.take(i + 1).filter(pred) == if pred(s[i]) {
            s.take(i).filter(pred).push(s[i])
        } else {
            s.take(i).filter(pred)
        },
{
    reveal(Seq::filter);
    assert(s.take(i + 1).drop_last() =~= s.take(i));
    assert(s.take(i + 1).last() == s[i]);
}

/// The items that a condition holds of, after one more item, are those
/// before, and the new item where the condition holds of it.
pub proof fn lemma_filter_push<T>(s: Seq<T>, pred: spec_fn(T) -> bool, x: T)
    ensures
        s.push(x).filter(pred) == if pred(x) {
            s.filter(pred).push(x)
        } else {
            s.filter(pred)
        },
{
    reveal(Seq::filter);
    assert(s.push(x).drop_last() =~= s);
}

/// A filter keeps no more items than there are, each of them an item of the
/// sequence that the condition holds of.
pub proof fn lemma_filter_keeps<T>(s: Seq<T>, pred: spec_fn(T) -> bool)
    ensures
        s.filter(pred).len() <= s.len(),
        forall|k: int|
            0 <= k < s.filter(pred).len() ==> pred(#[trigger] s.filter(pred)[k]) && s.contains(
                s.filter(pred)[k],
            ),
    decreases s.len(),
{
    reveal(Seq::filter);
    if s.len() > 0 {
        let front = s.drop_last();
        lemma_filter_keeps(front, pred);
        assert forall|k: int| 0 <= k < s.filter(pred).len() implies pred(
            #[trigger] s.filter(pred)[k],
        ) && s.contains(s.filter(pred)[k]) by {
            if k < front.filter(pred).len() {
                let x = front.filter(pred)[k];
                assert(front.contains(x));
                let i = choose|i: int| 0 <= i < front.len() && front[i] == x;
                assert(s[i] == x);
            } else {
                assert(s[s.len() - 1] == s.filter(pred)[k]);
            }
        }
    }
}

/// Where a condition holds of exactly the items from `lo` up to `hi`, the
/// items that it holds of are that run.
pub proof fn lemma_filter_of_run<T>(s: Seq<T>, pred: spec_fn(T) -> bool, lo: int, hi: int)
    requires
        0 <= lo <= hi <= s.len(),
        forall|i: int| 0 <= i < s.len() ==> (pred(#[trigger] s[i]) <==> lo <= i < hi),
    ensures
        s.filter(pred) == s.subrange(lo, hi),
    decreases s.len(),
{
    reveal(Seq::filter);
    if s.len() == 0 {
        assert(s.filter(pred) =~= s.subrange(lo, hi));
    } else {
        let front = s.drop_last();
        let last = s.len() - 1;
        assert(forall|i: int| 0 <= i < front.len() ==> front[i] == s[i]);
        if lo == hi {
            assert(!pred(s[last]));
            lemma_filter_of_run(front, pred, 0, 0);
            assert(s.filter(pred) =~= s.subrange(lo, hi));
        } else if hi == s.len() {
            assert(pred(s[last]));
            lemma_filter_of_run(front, pred, lo, hi - 1);
            assert(front.subrange(lo, hi - 1).push(s.last()) =~= s.subrange(lo, hi));
        } else {
            assert(!pred(s[last]));
            lemma_filter_of_run(front, pred, lo, hi);
            assert(front.subrange(lo, hi) =~= s.subrange(lo, hi));
        }
    }
}

/// An item that a filter kept is an item of the sequence.
pub proof fn lemma_filter_has_source<T>(s: Seq<T>, pred: spec_fn(T) -> bool)
    requires
        s.filter(pred).len() > 0,
    ensures
        exists|i: int| 0 <= i < s.len() && pred(#[trigger] s[i]),
    decreases s.len(),
{
    reveal(Seq::filter);
    if s.len() > 0 {
        if pred(s.last()) {
            assert(pred(s[s.len() - 1]));
        } else {
            lemma_filter_has_source(s.drop_last(), pred);
            let i = choose|i: int| 0 <= i < s.drop_last().len() && pred(#[trigger] s.drop_last()[i]);
            assert(pred(s[i]));
        }
    }
}

} // verus!
