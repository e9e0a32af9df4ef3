//! Sums of natural numbers over a sequence, and the facts about them that
//! the totals of this crate rest on.
use vstd::prelude::*;

verus! {

/// The sum of all elements of `terms`.
pub open spec fn sum(terms: Seq<nat>) -> nat
    decreases terms.len(),
{
    if terms.len() == 0 {
        0
    } else {
        sum(terms.drop_last()) + terms.last()
    }
}

/// Appending a term adds it to the sum.
pub proof fn lemma_sum_push(terms: Seq<nat>, term: nat)
    ensures
        sum(terms.push(term)) == sum(terms) + term,
{
    assert(terms.push(term).drop_last() =~= terms);
}

/// The sum of a concatenation is the sum of the sums.
pub proof fn lemma_sum_concat(left: Seq<nat>, right: Seq<nat>)
    ensures
        sum(left + right) == sum(left) + sum(right),
    decreases right.len(),
{
    if right.len() == 0 {
        assert(left + right =~= left);
    } else {
        lemma_sum_concat(left, right.drop_last());
        assert((left + right).drop_last() =~= left + right.drop_last());
    }
}

/// Taking one more term of a sequence adds that term to the sum of the prefix.
pub proof fn lemma_sum_take_next(terms: Seq<nat>, n: int)
    requires
        0 <= n < terms.len(),
    ensures
        sum(terms.take(n + 1)) == sum(terms.take(n)) + terms[n],
{
    assert(terms.take(n + 1).drop_last() =~= terms.take(n));
}

/// No prefix sums to more than the whole.
pub proof fn lemma_sum_prefix(terms: Seq<nat>, n: int)
    requires
        0 <= n <= terms.len(),
    ensures
        sum(terms.take(n)) <= sum(terms),
    decreases terms.len() - n,
{
    if n == terms.len() {
        assert(terms.take(n) =~= terms);
    } else {
        lemma_sum_take_next(terms, n);
        lemma_sum_prefix(terms, n + 1);
    }
}

/// Removing a term takes it out of the sum.
pub proof fn lemma_sum_remove(terms: Seq<nat>, at: int)
    requires
        0 <= at < terms.len(),
    ensures
        sum(terms) == sum(terms.remove(at)) + terms[at],
    decreases terms.len(),
{
    if at == terms.len() - 1 {
        assert(terms.remove(at) =~= terms.drop_last());
    } else {
        lemma_sum_remove(terms.drop_last(), at);
        assert(terms.remove(at).drop_last() =~= terms.drop_last().remove(at));
    }
}

/// Replacing a term changes the sum by the difference of the two.
pub proof fn lemma_sum_update(terms: Seq<nat>, at: int, term: nat)
    requires
        0 <= at < terms.len(),
    ensures
        sum(terms.update(at, term)) + terms[at] == sum(terms) + term,
{
    lemma_sum_remove(terms, at);
    lemma_sum_remove(terms.update(at, term), at);
    assert(terms.update(at, term).remove(at) =~= terms.remove(at));
}

/// No single term is more than the sum.
pub proof fn lemma_sum_bounds_term(terms: Seq<nat>, at: int)
    requires
        0 <= at < terms.len(),
    ensures
        terms[at] <= sum(terms),
{
    lemma_sum_remove(terms, at);
}

/// A sequence whose terms are each no more than the terms of another sums to
/// no more than the other.
pub proof fn lemma_sum_pointwise(left: Seq<nat>, right: Seq<nat>)
    requires
        left.len() == right.len(),
        forall|i: int| 0 <= i < left.len() ==> left[i] <= right[i],
    ensures
        sum(left) <= sum(right),
    decreases left.len(),
{
    if left.len() > 0 {
        lemma_sum_pointwise(left.drop_last(), right.drop_last());
    }
}

/// A sum that is not zero has a term that is not zero.
pub proof fn lemma_sum_has_term(terms: Seq<nat>) -> (at: int)
    requires
        sum(terms) > 0,
    ensures
        0 <= at < terms.len(),
        terms[at] > 0,
    decreases terms.len(),
{
    if terms.last() > 0 {
        terms.len() - 1
    } else {
        lemma_sum_has_term(terms.drop_last())
    }
}

/// Two sequences without repetition that have the same members are
/// rearrangements of each other, and so are equally long.
pub proof fn lemma_same_members<A>(left: Seq<A>, right: Seq<A>)
    requires
        left.no_duplicates(),
        right.no_duplicates(),
        forall|member: A| left.contains(member) <==> right.contains(member),
    ensures
        left.to_multiset() == right.to_multiset(),
        left.len() == right.len(),
{
    left.lemma_multiset_has_no_duplicates();
    right.lemma_multiset_has_no_duplicates();
    assert forall|member: A| left.to_multiset().count(member) == right.to_multiset().count(
        member,
    ) by {
        vstd::seq_lib::to_multiset_contains(left, member);
        vstd::seq_lib::to_multiset_contains(right, member);
    }
    assert(left.to_multiset() =~= right.to_multiset());
    vstd::seq_lib::to_multiset_len(left);
    vstd::seq_lib::to_multiset_len(right);
}

/// The sum of what each item weighs does not depend on the order of the
/// items.
pub proof fn lemma_weighted_sum_permutation<A>(
    left: Seq<A>,
    right: Seq<A>,
    weight: spec_fn(A) -> nat,
)
    requires
        left.to_multiset() == right.to_multiset(),
    ensures
        sum(left.map_values(weight)) == sum(right.map_values(weight)),
    decreases left.len(),
{
    left.to_multiset_ensures();
    right.to_multiset_ensures();
    if left.len() == 0 {
        assert(right.len() == 0);
        assert(left.map_values(weight) =~= right.map_values(weight));
    } else {
        let item = left.last();
        assert(left.contains(item)) by {
            assert(left[left.len() - 1] == item);
        }
        assert(right.to_multiset().count(item) > 0);
        assert(right.contains(item));
        let at = right.index_of(item);
        let rest = right.remove(at);
        assert(left.drop_last() =~= left.remove(left.len() - 1));
        assert(left.drop_last().to_multiset() =~= left.to_multiset().remove(item));
        assert(rest.to_multiset() =~= right.to_multiset().remove(item));
        lemma_weighted_sum_permutation(left.drop_last(), rest, weight);
        lemma_sum_remove(right.map_values(weight), at);
        assert(right.map_values(weight).remove(at) =~= rest.map_values(weight));
        assert(left.map_values(weight).drop_last() =~= left.drop_last().map_values(weight));
    }
}

} // verus!
