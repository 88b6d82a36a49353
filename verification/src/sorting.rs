//! A stable insertion sort, as a specification together with the lemmas the
//! listing's contracts rest on: the result is sorted and is a permutation of
//! the input. The orderings used by the listing (names, sizes) are total but
//! not antisymmetric, so stability — each element is placed after all
//! elements already ordered no later than it — is part of the definition.

use vstd::prelude::*;
use vstd::relations::{sorted_by, strongly_connected, transitive};
use vstd::seq_lib::group_to_multiset_ensures;
use vstd::seq_lib::lemma_multiset_commutative;

verus! {

/// Places `x` after every leading element of `s` that is ordered no later
/// than it, before the first that is not.
pub open spec fn insert_ordered<A>(x: A, s: Seq<A>, leq: spec_fn(A, A) -> bool) -> Seq<A>
    decreases s.len(),
{
    if s.len() > 0 && leq(s[0], x) {
        seq![s[0]] + insert_ordered(x, s.drop_first(), leq)
    } else {
        seq![x] + s
    }
}

/// Insertion sort: the elements in order, ties keeping their relative
/// position (each element is inserted after earlier-scanned equals).
pub open spec fn sort_ordered<A>(s: Seq<A>, leq: spec_fn(A, A) -> bool) -> Seq<A>
    decreases s.len(),
{
    if s.len() == 0 {
        s
    } else {
        insert_ordered(s.last(), sort_ordered(s.drop_last(), leq), leq)
    }
}

/// Inserting adds exactly the inserted element to the contents.
pub proof fn lemma_insert_ordered_multiset<A>(x: A, s: Seq<A>, leq: spec_fn(A, A) -> bool)
    ensures
        insert_ordered(x, s, leq).to_multiset() =~= s.to_multiset().insert(x),
    decreases s.len(),
{
    broadcast use group_to_multiset_ensures;
    broadcast use lemma_multiset_commutative;

    if s.len() > 0 && leq(s[0], x) {
        lemma_insert_ordered_multiset(x, s.drop_first(), leq);
        assert(seq![s[0]].to_multiset() =~= Seq::<A>::empty().push(s[0]).to_multiset());
        assert(s =~= seq![s[0]] + s.drop_first());
    } else {
        assert(seq![x].to_multiset() =~= Seq::<A>::empty().push(x).to_multiset());
    }
}

/// Sorting permutes: the sorted sequence has exactly the input's contents.
pub proof fn lemma_sort_ordered_permutes<A>(s: Seq<A>, leq: spec_fn(A, A) -> bool)
    ensures
        sort_ordered(s, leq).to_multiset() =~= s.to_multiset(),
    decreases s.len(),
{
    broadcast use group_to_multiset_ensures;

    if s.len() > 0 {
        lemma_sort_ordered_permutes(s.drop_last(), leq);
        lemma_insert_ordered_multiset(s.last(), sort_ordered(s.drop_last(), leq), leq);
        assert(s =~= s.drop_last().push(s.last()));
    }
}

/// An element of the insertion's result is the inserted one or one of the
/// original sequence.
pub proof fn lemma_insert_ordered_contains<A>(x: A, s: Seq<A>, leq: spec_fn(A, A) -> bool, y: A)
    requires
        insert_ordered(x, s, leq).contains(y),
    ensures
        y == x || s.contains(y),
{
    broadcast use group_to_multiset_ensures;
    broadcast use vstd::multiset::group_multiset_axioms;

    lemma_insert_ordered_multiset(x, s, leq);
    assert(insert_ordered(x, s, leq).to_multiset().count(y) > 0);
    if y != x {
        assert(s.to_multiset().count(y) > 0);
    }
}

/// Inserting into a sorted sequence keeps it sorted, for a total and
/// transitive ordering.
pub proof fn lemma_insert_ordered_sorted<A>(x: A, s: Seq<A>, leq: spec_fn(A, A) -> bool)
    requires
        transitive(leq),
        strongly_connected(leq),
        sorted_by(s, leq),
    ensures
        sorted_by(insert_ordered(x, s, leq), leq),
    decreases s.len(),
{
    if s.len() > 0 && leq(s[0], x) {
        assert forall|i: int, j: int|
            0 <= i < j < s.drop_first().len() implies leq(
            s.drop_first()[i],
            s.drop_first()[j],
        ) by {
            assert(s.drop_first()[i] == s[i + 1]);
            assert(s.drop_first()[j] == s[j + 1]);
        }
        assert(sorted_by(s.drop_first(), leq));
        lemma_insert_ordered_sorted(x, s.drop_first(), leq);
        let rest = insert_ordered(x, s.drop_first(), leq);
        let whole = seq![s[0]] + rest;
        assert forall|i: int, j: int| 0 <= i < j < whole.len() implies leq(whole[i], whole[j]) by {
            if i == 0 {
                assert(rest.contains(whole[j])) by {
                    assert(rest[j - 1] == whole[j]);
                }
                lemma_insert_ordered_contains(x, s.drop_first(), leq, whole[j]);
                if whole[j] == x {
                } else {
                    let k = choose|k: int| 0 <= k < s.drop_first().len() && s.drop_first()[k]
                        == whole[j];
                    assert(leq(s[0], s[k + 1]));
                }
            }
        }
    } else {
        let whole = seq![x] + s;
        assert forall|i: int, j: int| 0 <= i < j < whole.len() implies leq(whole[i], whole[j]) by {
            if i == 0 {
                if s.len() > 0 {
                    assert(leq(x, s[0]));
                    if j > 1 {
                        assert(leq(s[0], s[j - 1]));
                    }
                }
            }
        }
    }
}

/// The insertion sort sorts, for a total and transitive ordering.
pub proof fn lemma_sort_ordered_sorted<A>(s: Seq<A>, leq: spec_fn(A, A) -> bool)
    requires
        transitive(leq),
        strongly_connected(leq),
    ensures
        sorted_by(sort_ordered(s, leq), leq),
    decreases s.len(),
{
    if s.len() > 0 {
        lemma_sort_ordered_sorted(s.drop_last(), leq);
        lemma_insert_ordered_sorted(s.last(), sort_ordered(s.drop_last(), leq), leq);
    }
}

/// Where the insertion lands: before the first element not ordered no later
/// than `x`, leaving everything else in place.
pub proof fn lemma_insert_ordered_split<A>(x: A, s: Seq<A>, leq: spec_fn(A, A) -> bool, idx: int)
    requires
        0 <= idx <= s.len(),
        forall|k: int| 0 <= k < idx ==> leq(s[k], x),
        idx < s.len() ==> !leq(s[idx], x),
    ensures
        insert_ordered(x, s, leq) == s.take(idx) + seq![x] + s.skip(idx),
    decreases idx,
{
    if idx == 0 {
        assert(insert_ordered(x, s, leq) =~= s.take(0) + seq![x] + s.skip(0));
    } else {
        lemma_insert_ordered_split(x, s.drop_first(), leq, idx - 1);
        assert(insert_ordered(x, s, leq) =~= s.take(idx) + seq![x] + s.skip(idx)) by {
            assert(insert_ordered(x, s, leq) == seq![s[0]] + insert_ordered(
                x,
                s.drop_first(),
                leq,
            ));
            assert(s.drop_first().take(idx - 1) =~= s.take(idx).drop_first());
            assert(s.drop_first().skip(idx - 1) =~= s.skip(idx));
        }
    }
}

/// Mapping a function over the insertion's result adds exactly the image of
/// the inserted element.
pub proof fn lemma_insert_ordered_map_multiset<A, B>(
    x: A,
    s: Seq<A>,
    leq: spec_fn(A, A) -> bool,
    f: spec_fn(A) -> B,
)
    ensures
        insert_ordered(x, s, leq).map_values(f).to_multiset() =~= s.map_values(
            f,
        ).to_multiset().insert(f(x)),
    decreases s.len(),
{
    broadcast use group_to_multiset_ensures;
    broadcast use lemma_multiset_commutative;

    if s.len() > 0 && leq(s[0], x) {
        lemma_insert_ordered_map_multiset(x, s.drop_first(), leq, f);
        let rest = insert_ordered(x, s.drop_first(), leq);
        assert((seq![s[0]] + rest).map_values(f) =~= seq![f(s[0])] + rest.map_values(f));
        assert(seq![f(s[0])].to_multiset() =~= Seq::<B>::empty().push(f(s[0])).to_multiset());
        assert(s.map_values(f) =~= seq![f(s[0])] + s.drop_first().map_values(f));
    } else {
        assert((seq![x] + s).map_values(f) =~= seq![f(x)] + s.map_values(f));
        assert(seq![f(x)].to_multiset() =~= Seq::<B>::empty().push(f(x)).to_multiset());
    }
}

/// Mapping a function over the sorted sequence keeps exactly the images of
/// the input's elements.
pub proof fn lemma_sort_ordered_map_multiset<A, B>(
    s: Seq<A>,
    leq: spec_fn(A, A) -> bool,
    f: spec_fn(A) -> B,
)
    ensures
        sort_ordered(s, leq).map_values(f).to_multiset() =~= s.map_values(f).to_multiset(),
    decreases s.len(),
{
    broadcast use group_to_multiset_ensures;

    if s.len() > 0 {
        lemma_sort_ordered_map_multiset(s.drop_last(), leq, f);
        lemma_insert_ordered_map_multiset(s.last(), sort_ordered(s.drop_last(), leq), leq, f);
        assert(s.map_values(f) =~= s.drop_last().map_values(f).push(f(s.last())));
    }
}

} // verus!
