//! Sorting a vector by a total preorder.

use crate::sequences::{lemma_empty_multiset, lemma_filter_none};
use vstd::prelude::*;

verus! {

/// A type whose values are ranked by a total preorder: any two values are
/// related one way or the other, and the relation is transitive. Values of
/// equal rank need not be equal.
pub trait Ranked: Sized {
    /// Whether `self` may stand before `other` in a sorted sequence.
    spec fn rank_le(&self, other: &Self) -> bool;

    /// Decides [`Ranked::rank_le`].
    fn precedes(&self, other: &Self) -> (le: bool)
        ensures
            le == self.rank_le(other),
    ;

    /// Any two values are related one way or the other.
    proof fn lemma_rank_total(a: &Self, b: &Self)
        ensures
            a.rank_le(b) || b.rank_le(a),
    ;

    /// The relation is transitive.
    proof fn lemma_rank_transitive(a: &Self, b: &Self, c: &Self)
        requires
            a.rank_le(b),
            b.rank_le(c),
        ensures
            a.rank_le(c),
    ;
}

/// Whether each element of `s` may stand before all that follow it.
pub open spec fn ranked<T: Ranked>(s: Seq<T>) -> bool {
    forall|i: int, j: int| 0 <= i < j < s.len() ==> #[trigger] s[i].rank_le(&s[j])
}

/// Inserting `item` at `at` keeps a ranked sequence ranked, if all before
/// that place may stand before `item` and `item` may stand before the
/// element at that place.
proof fn lemma_insert_ranked<T: Ranked>(s: Seq<T>, at: int, item: T)
    requires
        ranked(s),
        0 <= at <= s.len(),
        forall|k: int| 0 <= k < at ==> #[trigger] s[k].rank_le(&item),
        at < s.len() ==> item.rank_le(&s[at]),
    ensures
        ranked(s.insert(at, item)),
{
    let t = s.insert(at, item);
    assert forall|i: int, j: int| 0 <= i < j < t.len() implies #[trigger] t[i].rank_le(&t[j]) by {
        if j == at {
            assert(t[i] == s[i]);
        } else if i == at {
            assert(t[j] == s[j - 1]);
            if j - 1 > at {
                assert(s[at].rank_le(&s[j - 1]));
                T::lemma_rank_transitive(&item, &s[at], &s[j - 1]);
            }
        } else {
            let si = if i < at { i } else { i - 1 };
            let sj = if j < at { j } else { j - 1 };
            assert(t[i] == s[si]);
            assert(t[j] == s[sj]);
            assert(s[si].rank_le(&s[sj]));
        }
    }
}

/// Whether `a` and `b` have the same rank: each may stand before the other.
pub open spec fn same_rank<T: Ranked>(a: T, b: T) -> bool {
    a.rank_le(&b) && b.rank_le(&a)
}

/// The elements of `s` that have the rank of `e`, in the order in which they
/// stand in `s`.
pub open spec fn of_rank<T: Ranked>(s: Seq<T>, e: T) -> Seq<T> {
    s.filter(|x: T| same_rank(x, e))
}

/// Whether `sorted` keeps the elements of each rank in the order in which
/// they stand in `items`.
pub open spec fn keeps_order<T: Ranked>(sorted: Seq<T>, items: Seq<T>) -> bool {
    forall|e: T| #[trigger] of_rank(sorted, e) == of_rank(items, e)
}

/// A sequence none of whose elements has the rank of `e` holds nothing of
/// that rank.
proof fn lemma_of_rank_none<T: Ranked>(s: Seq<T>, e: T)
    requires
        forall|k: int| 0 <= k < s.len() ==> !same_rank(#[trigger] s[k], e),
    ensures
        of_rank(s, e) == Seq::<T>::empty(),
{
    lemma_filter_none(s, |x: T| same_rank(x, e));
}

/// What a sequence holds of a rank after one element was appended.
proof fn lemma_of_rank_push<T: Ranked>(s: Seq<T>, item: T, e: T)
    ensures
        of_rank(s.push(item), e) == if same_rank(item, e) {
            of_rank(s, e).push(item)
        } else {
            of_rank(s, e)
        },
{
    reveal(Seq::filter);
    assert(s.push(item).drop_last() =~= s);
}

/// Moving the last element of `rest` into `sorted`, in front of the first
/// element that it may stand before, keeps the elements of each rank in
/// their order: those of `rest` followed by those of `sorted`.
proof fn lemma_move_keeps_order<T: Ranked>(rest: Seq<T>, sorted: Seq<T>, item: T, at: int, e: T)
    requires
        0 <= at <= sorted.len(),
        forall|k: int| 0 <= k < at ==> !item.rank_le(#[trigger] &sorted[k]),
    ensures
        of_rank(rest, e) + of_rank(sorted.insert(at, item), e) == of_rank(rest.push(item), e)
            + of_rank(sorted, e),
{
    let pred = |x: T| same_rank(x, e);
    let head = sorted.take(at);
    let tail = sorted.skip(at);
    assert(sorted =~= head + tail);
    assert(sorted.insert(at, item) =~= head + seq![item] + tail);
    Seq::filter_distributes_over_add(head, tail, pred);
    Seq::filter_distributes_over_add(head, seq![item], pred);
    Seq::filter_distributes_over_add(head + seq![item], tail, pred);
    lemma_of_rank_push(rest, item, e);
    lemma_of_rank_push(Seq::<T>::empty(), item, e);
    assert(Seq::<T>::empty().push(item) =~= seq![item]);
    assert(of_rank(Seq::<T>::empty(), e) =~= Seq::<T>::empty()) by {
        lemma_of_rank_none(Seq::<T>::empty(), e);
    }
    if same_rank(item, e) {
        assert forall|k: int| 0 <= k < head.len() implies !same_rank(#[trigger] head[k], e) by {
            assert(head[k] == sorted[k]);
            if same_rank(head[k], e) {
                T::lemma_rank_transitive(&item, &e, &head[k]);
            }
        }
        lemma_of_rank_none(head, e);
        assert(of_rank(sorted.insert(at, item), e) =~= seq![item] + of_rank(sorted, e));
        assert(of_rank(rest, e) + of_rank(sorted.insert(at, item), e) =~= of_rank(
            rest.push(item),
            e,
        ) + of_rank(sorted, e));
    } else {
        assert(of_rank(sorted.insert(at, item), e) =~= of_rank(sorted, e));
    }
}

/// The last element of a sequence is the last of its rank in it.
proof fn lemma_of_rank_last<T: Ranked>(s: Seq<T>)
    requires
        s.len() > 0,
    ensures
        of_rank(s, s.last()).len() > 0,
        of_rank(s, s.last()).last() == s.last(),
        of_rank(s, s.last()).drop_last() == of_rank(s.drop_last(), s.last()),
{
    let x = s.last();
    T::lemma_rank_total(&x, &x);
    assert(s =~= s.drop_last().push(x));
    lemma_of_rank_push(s.drop_last(), x, x);
    assert(of_rank(s.drop_last(), x).push(x).drop_last() =~= of_rank(s.drop_last(), x));
}

/// Every element that a sequence holds of a rank is one of its elements and
/// has that rank.
proof fn lemma_of_rank_member<T: Ranked>(s: Seq<T>, e: T, i: int)
    requires
        0 <= i < of_rank(s, e).len(),
    ensures
        s.contains(of_rank(s, e)[i]),
        same_rank(of_rank(s, e)[i], e),
    decreases s.len(),
{
    reveal(Seq::filter);
    if s.len() > 0 {
        let r = s.drop_last();
        if i < of_rank(r, e).len() {
            lemma_of_rank_member(r, e, i);
            let x = of_rank(r, e)[i];
            let k = choose|k: int| 0 <= k < r.len() && r[k] == x;
            assert(s[k] == x);
        } else {
            assert(of_rank(s, e)[i] == s[s.len() - 1]);
        }
    }
}

/// Sorting is determined: two ranked sequences of one length that keep the
/// elements of each rank in the same order are equal.
pub proof fn lemma_ranked_unique<T: Ranked>(a: Seq<T>, b: Seq<T>)
    requires
        ranked(a),
        ranked(b),
        a.len() == b.len(),
        keeps_order(a, b),
    ensures
        a == b,
    decreases a.len(),
{
    if a.len() == 0 {
        assert(a =~= b);
    } else {
        let x = a.last();
        let y = b.last();
        lemma_of_rank_last(a);
        lemma_of_rank_last(b);
        assert(of_rank(a, x) == of_rank(b, x));
        assert(of_rank(a, y) == of_rank(b, y));
        // The last of `a` occurs in `b`, so the last of `b` does not rank
        // below it; and the other way round.
        lemma_of_rank_member(b, x, of_rank(b, x).len() - 1);
        let k = choose|k: int| 0 <= k < b.len() && b[k] == x;
        if k < b.len() - 1 {
            assert(b[k].rank_le(&b[b.len() - 1]));
        } else {
            T::lemma_rank_total(&x, &x);
        }
        lemma_of_rank_member(a, y, of_rank(a, y).len() - 1);
        let l = choose|l: int| 0 <= l < a.len() && a[l] == y;
        if l < a.len() - 1 {
            assert(a[l].rank_le(&a[a.len() - 1]));
        } else {
            T::lemma_rank_total(&y, &y);
        }
        assert(same_rank(y, x));
        // So both are the last of that rank, in the same sequence.
        assert(b =~= b.drop_last().push(y));
        lemma_of_rank_push(b.drop_last(), y, x);
        assert(of_rank(b, x).last() == y);
        assert(x == y);
        let ra = a.drop_last();
        let rb = b.drop_last();
        assert(a =~= ra.push(x));
        assert forall|e: T| #[trigger] of_rank(ra, e) == of_rank(rb, e) by {
            lemma_of_rank_push(ra, x, e);
            lemma_of_rank_push(rb, x, e);
            assert(of_rank(a, e) == of_rank(b, e));
            if same_rank(x, e) {
                assert(of_rank(ra, e).push(x).drop_last() =~= of_rank(ra, e));
                assert(of_rank(rb, e).push(x).drop_last() =~= of_rank(rb, e));
            }
        }
        assert(ranked(ra)) by {
            assert forall|i: int, j: int| 0 <= i < j < ra.len() implies #[trigger] ra[i].rank_le(
                &ra[j],
            ) by {
                assert(a[i].rank_le(&a[j]));
            }
        }
        assert(ranked(rb)) by {
            assert forall|i: int, j: int| 0 <= i < j < rb.len() implies #[trigger] rb[i].rank_le(
                &rb[j],
            ) by {
                assert(b[i].rank_le(&b[j]));
            }
        }
        lemma_ranked_unique(ra, rb);
    }
}

/// Sorts `items` by rank, keeping elements of the same rank in their order.
///
/// The result holds the elements of `items`, each as often as `items` does;
/// each of them may stand before all that follow it; and the elements of one
/// rank stand in the order in which they stood in `items`. By
/// [`lemma_ranked_unique`] no other sequence does.
pub fn sort_ranked<T: Ranked>(items: Vec<T>) -> (sorted: Vec<T>)
    ensures
        ranked(sorted@),
        sorted@.to_multiset() == items@.to_multiset(),
        keeps_order(sorted@, items@),
{
    let ghost all = items@;
    let mut rest = items;
    let mut sorted: Vec<T> = Vec::new();
    proof {
        lemma_empty_multiset::<T>();
        assert(sorted@.to_multiset().add(rest@.to_multiset()) =~= all.to_multiset());
        assert forall|e: T| #[trigger]
            of_rank(rest@, e) + of_rank(sorted@, e) == of_rank(all, e) by {
            lemma_of_rank_none(sorted@, e);
            assert(of_rank(rest@, e) + Seq::<T>::empty() =~= of_rank(all, e));
        }
    }
    while rest.len() > 0
        invariant
            ranked(sorted@),
            sorted@.to_multiset().add(rest@.to_multiset()) == all.to_multiset(),
            forall|e: T| #[trigger] of_rank(rest@, e) + of_rank(sorted@, e) == of_rank(all, e),
        decreases rest.len(),
    {
        let ghost before = rest@;
        let item = rest.pop().unwrap();
        proof {
            assert(before =~= rest@.push(item));
            vstd::seq_lib::to_multiset_build(rest@, item);
        }
        // The item goes in front of the first element that it may stand
        // before, and so in front of all that have its rank. That place is
        // found by halving: left of `lo` the item may stand before none,
        // from `hi` on it may stand before all.
        let mut lo: usize = 0;
        let mut hi: usize = sorted.len();
        while lo < hi
            invariant
                lo <= hi <= sorted.len(),
                ranked(sorted@),
                forall|k: int| 0 <= k < lo ==> !item.rank_le(#[trigger] &sorted@[k]),
                forall|k: int| hi <= k < sorted.len() ==> item.rank_le(#[trigger] &sorted@[k]),
            decreases hi - lo,
        {
            let mid = lo + (hi - lo) / 2;
            if item.precedes(&sorted[mid]) {
                proof {
                    assert forall|k: int| mid <= k < sorted.len() implies item.rank_le(
                        #[trigger] &sorted@[k],
                    ) by {
                        if mid < k {
                            assert(sorted@[mid as int].rank_le(&sorted@[k]));
                            T::lemma_rank_transitive(&item, &sorted@[mid as int], &sorted@[k]);
                        }
                    }
                }
                hi = mid;
            } else {
                proof {
                    assert forall|k: int| 0 <= k < mid + 1 implies !item.rank_le(
                        #[trigger] &sorted@[k],
                    ) by {
                        if k < mid && item.rank_le(&sorted@[k]) {
                            assert(sorted@[k].rank_le(&sorted@[mid as int]));
                            T::lemma_rank_transitive(&item, &sorted@[k], &sorted@[mid as int]);
                        }
                    }
                }
                lo = mid + 1;
            }
        }
        let at = lo;
        proof {
            assert forall|k: int| 0 <= k < at implies #[trigger] sorted@[k].rank_le(&item) by {
                T::lemma_rank_total(&item, &sorted@[k]);
            }
            lemma_insert_ranked(sorted@, at as int, item);
            vstd::seq_lib::to_multiset_insert(sorted@, at as int, item);
            assert(sorted@.insert(at as int, item).to_multiset().add(rest@.to_multiset())
                =~= sorted@.to_multiset().add(before.to_multiset()));
            assert forall|e: T| #[trigger]
                of_rank(rest@, e) + of_rank(sorted@.insert(at as int, item), e) == of_rank(
                    all,
                    e,
                ) by {
                lemma_move_keeps_order(rest@, sorted@, item, at as int, e);
                assert(of_rank(before, e) + of_rank(sorted@, e) == of_rank(all, e));
            }
        }
        sorted.insert(at, item);
    }
    proof {
        lemma_empty_multiset::<T>();
        assert(rest@ =~= Seq::<T>::empty());
        assert(sorted@.to_multiset().add(rest@.to_multiset()) =~= sorted@.to_multiset());
        assert forall|e: T| #[trigger] of_rank(sorted@, e) == of_rank(all, e) by {
            lemma_of_rank_none(rest@, e);
            assert(of_rank(rest@, e) + of_rank(sorted@, e) == of_rank(all, e));
            assert(Seq::<T>::empty() + of_rank(sorted@, e) =~= of_rank(sorted@, e));
        }
    }
    sorted
}

} // verus!
