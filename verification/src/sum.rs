//! Sums of an integer-valued function over a sequence, with the lemmas the
//! aggregation invariants need.

use vstd::prelude::*;

verus! {

/// The sum of `f` over the elements of `s`.
pub open spec fn sum_of<A>(s: Seq<A>, f: spec_fn(A) -> int) -> int
    decreases s.len(),
{
    if s.len() == 0 {
        0
    } else {
        sum_of(s.drop_last(), f) + f(s.last())
    }
}

pub proof fn lemma_sum_of_push<A>(s: Seq<A>, f: spec_fn(A) -> int, a: A)
    ensures
        sum_of(s.push(a), f) == sum_of(s, f) + f(a),
{
    assert(s.push(a).drop_last() =~= s);
}

pub proof fn lemma_sum_of_concat<A>(s1: Seq<A>, s2: Seq<A>, f: spec_fn(A) -> int)
    ensures
        sum_of(s1 + s2, f) == sum_of(s1, f) + sum_of(s2, f),
    decreases s2.len(),
{
    if s2.len() == 0 {
        assert(s1 + s2 =~= s1);
    } else {
        assert((s1 + s2).drop_last() =~= s1 + s2.drop_last());
        lemma_sum_of_concat(s1, s2.drop_last(), f);
    }
}

pub proof fn lemma_sum_of_remove<A>(s: Seq<A>, f: spec_fn(A) -> int, i: int)
    requires
        0 <= i < s.len(),
    ensures
        sum_of(s, f) == sum_of(s.remove(i), f) + f(s[i]),
{
    let left = s.take(i);
    let mid = s.subrange(i, i + 1);
    let right = s.subrange(i + 1, s.len() as int);
    assert(s =~= (left + mid) + right);
    assert(s.remove(i) =~= left + right);
    lemma_sum_of_concat(left + mid, right, f);
    lemma_sum_of_concat(left, mid, f);
    lemma_sum_of_concat(left, right, f);
    assert(mid.drop_last() =~= Seq::<A>::empty());
    assert(mid.len() == 1);
    assert(mid.last() == s[i]);
    assert(sum_of(mid.drop_last(), f) == 0);
    assert(sum_of(mid, f) == sum_of(mid.drop_last(), f) + f(mid.last()));
    assert(sum_of(mid, f) == f(s[i]));
}

/// Two sequences holding the same elements, in any order, have the same sum.
pub proof fn lemma_sum_of_permutation<A>(s1: Seq<A>, s2: Seq<A>, f: spec_fn(A) -> int)
    requires
        s1.to_multiset() == s2.to_multiset(),
    ensures
        sum_of(s1, f) == sum_of(s2, f),
    decreases s1.len(),
{
    broadcast use vstd::seq_lib::group_to_multiset_ensures;
    broadcast use vstd::multiset::group_multiset_axioms;

    s1.to_multiset_ensures();
    s2.to_multiset_ensures();
    if s1.len() == 0 {
        assert(s2.to_multiset().len() == 0);
        assert(s2.len() == 0);
    } else {
        let x = s1.last();
        assert(s1.contains(x));
        assert(s1.to_multiset().count(x) > 0);
        assert(s2.to_multiset().count(x) > 0);
        assert(s2.contains(x));
        let i = choose|i: int| 0 <= i < s2.len() && s2[i] == x;
        lemma_sum_of_remove(s2, f, i);
        assert(s1.drop_last().push(x) =~= s1);
        assert(s1.drop_last().to_multiset() =~= s2.remove(i).to_multiset()) by {
            assert(s1.drop_last().push(x).to_multiset() =~= s1.drop_last().to_multiset().insert(
                x,
            ));
            assert(s2.remove(i).to_multiset() =~= s2.to_multiset().remove(x));
        }
        lemma_sum_of_permutation(s1.drop_last(), s2.remove(i), f);
    }
}

pub proof fn lemma_sum_of_bound<A>(s: Seq<A>, f: spec_fn(A) -> int, c: int)
    requires
        forall|i: int| 0 <= i < s.len() ==> -c <= #[trigger] f(s[i]) <= c,
        c >= 0,
    ensures
        -(s.len() * c) <= sum_of(s, f) <= s.len() * c,
    decreases s.len(),
{
    if s.len() > 0 {
        lemma_sum_of_bound(s.drop_last(), f, c);
        assert(-c <= f(s.last()) <= c);
        assert((s.len() - 1) * c + c == s.len() * c) by (nonlinear_arith);
    }
}

} // verus!
