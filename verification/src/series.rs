//! Sums over sequences of natural numbers.

use vstd::prelude::*;

verus! {

/// The sum of all values of the sequence.
pub open spec fn sum(values: Seq<nat>) -> nat
    decreases values.len(),
{
    if values.len() == 0 {
        0
    } else {
        sum(values.drop_last()) + values.last()
    }
}

/// Appending a value adds it to the sum.
pub proof fn lemma_sum_push(values: Seq<nat>, value: nat)
    ensures
        sum(values.push(value)) == sum(values) + value,
{
    assert(values.push(value).drop_last() =~= values);
}

/// The sum of a concatenation is the sum of the sums.
pub proof fn lemma_sum_concat(left: Seq<nat>, right: Seq<nat>)
    ensures
        sum(left + right) == sum(left) + sum(right),
    decreases right.len(),
{
    if right.len() == 0 {
        assert(left + right =~= left);
    } else {
        assert((left + right).drop_last() =~= left + right.drop_last());
        lemma_sum_concat(left, right.drop_last());
    }
}

/// The sum of a prefix never exceeds the sum of the whole.
pub proof fn lemma_sum_prefix(values: Seq<nat>, n: int)
    requires
        0 <= n <= values.len(),
    ensures
        sum(values.take(n)) <= sum(values),
{
    assert(values =~= values.take(n) + values.skip(n));
    lemma_sum_concat(values.take(n), values.skip(n));
}

/// Reading a sequence backwards leaves its sum unchanged.
pub proof fn lemma_sum_reverse(values: Seq<nat>)
    ensures
        sum(values.reverse()) == sum(values),
    decreases values.len(),
{
    if values.len() > 0 {
        let head = seq![values.last()];
        let rest = values.drop_last();
        assert(values.reverse() =~= head + rest.reverse());
        lemma_sum_concat(head, rest.reverse());
        lemma_sum_reverse(rest);
        assert(head =~= Seq::<nat>::empty().push(values.last()));
        lemma_sum_push(Seq::<nat>::empty(), values.last());
    }
}

} // verus!
