//! Ordered insertion, used by the store's listings: a stable, deterministic
//! sort stated at the specification level, with the lemmas that make it a
//! sorted permutation under any connected, transitive order.
use vstd::prelude::*;

use vstd::relations::{sorted_by, strongly_connected, transitive};
use vstd::seq_lib::lemma_multiset_commutative;

verus! {

/// `x` inserted into `s` after every element at or below it: a stable
/// ordered insertion.
pub open spec fn insert_ordered<V>(s: Seq<V>, x: V, leq: spec_fn(V, V) -> bool) -> Seq<V>
    decreases s.len(),
{
    if s.len() == 0 {
        seq![x]
    } else if leq(s[0], x) {
        seq![s[0]] + insert_ordered(s.drop_first(), x, leq)
    } else {
        seq![x] + s
    }
}

/// The sequence reordered by repeated ordered insertion: a stable sort.
pub open spec fn sort_ordered<V>(s: Seq<V>, leq: spec_fn(V, V) -> bool) -> Seq<V>
    decreases s.len(),
{
    if s.len() == 0 {
        Seq::empty()
    } else {
        insert_ordered(sort_ordered(s.drop_last(), leq), s.last(), leq)
    }
}

/// Ordered insertion is the plain insertion at the first position whose
/// element does not come at or below `x`.
pub proof fn lemma_insert_ordered_at<V>(s: Seq<V>, x: V, leq: spec_fn(V, V) -> bool, k: int)
    requires
        0 <= k <= s.len(),
        forall|j: int| 0 <= j < k ==> leq(#[trigger] s[j], x),
        k < s.len() ==> !leq(s[k], x),
    ensures
        insert_ordered(s, x, leq) == s.insert(k, x),
    decreases k,
{
    if k == 0 {
        if s.len() == 0 {
            assert(insert_ordered(s, x, leq) =~= s.insert(0, x));
        } else {
            assert(seq![x] + s =~= s.insert(0, x));
        }
    } else {
        lemma_insert_ordered_at(s.drop_first(), x, leq, k - 1);
        assert(seq![s[0]] + s.drop_first().insert(k - 1, x) =~= s.insert(k, x));
    }
}

/// Ordered insertion adds exactly the inserted element to the multiset.
pub proof fn lemma_insert_ordered_multiset<V>(s: Seq<V>, x: V, leq: spec_fn(V, V) -> bool)
    ensures
        insert_ordered(s, x, leq).to_multiset() =~= s.to_multiset().insert(x),
    decreases s.len(),
{
    broadcast use vstd::seq_lib::group_to_multiset_ensures;

    if s.len() == 0 {
        assert(seq![x] =~= Seq::<V>::empty().push(x));
    } else if leq(s[0], x) {
        lemma_insert_ordered_multiset(s.drop_first(), x, leq);
        lemma_multiset_commutative(seq![s[0]], insert_ordered(s.drop_first(), x, leq));
        lemma_multiset_commutative(seq![s[0]], s.drop_first());
        assert(seq![s[0]] + s.drop_first() =~= s);
        assert(seq![s[0]] =~= Seq::<V>::empty().push(s[0]));
    } else {
        lemma_multiset_commutative(seq![x], s);
        assert(seq![x] =~= Seq::<V>::empty().push(x));
    }
}

/// Each element of an ordered insertion is the inserted element or one of
/// the original sequence.
pub proof fn lemma_insert_ordered_elems<V>(s: Seq<V>, x: V, leq: spec_fn(V, V) -> bool)
    ensures
        insert_ordered(s, x, leq).len() == s.len() + 1,
        forall|j: int|
            0 <= j < s.len() + 1 ==> #[trigger] insert_ordered(s, x, leq)[j] == x || s.contains(
                insert_ordered(s, x, leq)[j],
            ),
    decreases s.len(),
{
    if s.len() > 0 && leq(s[0], x) {
        lemma_insert_ordered_elems(s.drop_first(), x, leq);
        assert forall|j: int| 0 <= j < s.len() + 1 implies #[trigger] insert_ordered(s, x, leq)[j]
            == x || s.contains(insert_ordered(s, x, leq)[j]) by {
            if j > 0 {
                let e = insert_ordered(s.drop_first(), x, leq)[j - 1];
                if e != x {
                    let m = choose|m: int|
                        0 <= m < s.drop_first().len() && s.drop_first()[m] == e;
                    assert(s[m + 1] == e);
                }
            }
        }
    }
}

/// Ordered insertion into a sorted sequence stays sorted.
pub proof fn lemma_insert_ordered_sorted<V>(s: Seq<V>, x: V, leq: spec_fn(V, V) -> bool)
    requires
        strongly_connected(leq),
        transitive(leq),
        sorted_by(s, leq),
    ensures
        sorted_by(insert_ordered(s, x, leq), leq),
    decreases s.len(),
{
    if s.len() == 0 {
    } else if leq(s[0], x) {
        assert(sorted_by(s.drop_first(), leq)) by {
            assert forall|i: int, j: int|
                0 <= i < j < s.drop_first().len() implies #[trigger] leq(
                s.drop_first()[i],
                s.drop_first()[j],
            ) by {
                assert(leq(s[i + 1], s[j + 1]));
            }
        }
        lemma_insert_ordered_sorted(s.drop_first(), x, leq);
        lemma_insert_ordered_elems(s.drop_first(), x, leq);
        let out = insert_ordered(s, x, leq);
        let tail = insert_ordered(s.drop_first(), x, leq);
        assert forall|i: int, j: int| 0 <= i < j < out.len() implies #[trigger] leq(
            out[i],
            out[j],
        ) by {
            if i == 0 {
                let e = tail[j - 1];
                if e == x {
                } else {
                    let m = choose|m: int|
                        0 <= m < s.drop_first().len() && s.drop_first()[m] == e;
                    assert(leq(s[0], s[m + 1]));
                }
            } else {
                assert(leq(tail[i - 1], tail[j - 1]));
            }
        }
    } else {
        let out = insert_ordered(s, x, leq);
        assert forall|i: int, j: int| 0 <= i < j < out.len() implies #[trigger] leq(
            out[i],
            out[j],
        ) by {
            if i == 0 {
                assert(leq(x, s[0]));
                if j > 1 {
                    assert(leq(s[0], s[j - 1]));
                }
            } else {
                assert(leq(s[i - 1], s[j - 1]));
            }
        }
    }
}

/// The stable sort yields a sorted permutation of its input.
pub proof fn lemma_sort_ordered_ensures<V>(s: Seq<V>, leq: spec_fn(V, V) -> bool)
    requires
        strongly_connected(leq),
        transitive(leq),
    ensures
        sorted_by(sort_ordered(s, leq), leq),
        sort_ordered(s, leq).to_multiset() =~= s.to_multiset(),
        sort_ordered(s, leq).len() == s.len(),
    decreases s.len(),
{
    broadcast use vstd::seq_lib::group_to_multiset_ensures;

    if s.len() > 0 {
        lemma_sort_ordered_ensures(s.drop_last(), leq);
        lemma_insert_ordered_sorted(sort_ordered(s.drop_last(), leq), s.last(), leq);
        lemma_insert_ordered_multiset(sort_ordered(s.drop_last(), leq), s.last(), leq);
        lemma_insert_ordered_elems(sort_ordered(s.drop_last(), leq), s.last(), leq);
        assert(s.drop_last().push(s.last()) =~= s);
    }
}

/// The stable sort keeps exactly the elements of its input.
pub proof fn lemma_sort_ordered_contains<V>(s: Seq<V>, leq: spec_fn(V, V) -> bool, x: V)
    requires
        strongly_connected(leq),
        transitive(leq),
    ensures
        sort_ordered(s, leq).contains(x) <==> s.contains(x),
{
    broadcast use vstd::seq_lib::group_to_multiset_ensures;

    lemma_sort_ordered_ensures(s, leq);
    if s.contains(x) {
        let k = choose|k: int| 0 <= k < s.len() && s[k] == x;
        assert(s.to_multiset().contains(x));
        assert(sort_ordered(s, leq).to_multiset().contains(x));
    }
    if sort_ordered(s, leq).contains(x) {
        let k = choose|k: int| 0 <= k < sort_ordered(s, leq).len() && sort_ordered(s, leq)[k] == x;
        assert(sort_ordered(s, leq).to_multiset().contains(x));
        assert(s.to_multiset().contains(x));
    }
}

} // verus!
