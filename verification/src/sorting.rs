//! Sorting samples by dose, and what it means for the sort to be stable.

use vstd::prelude::*;
use vstd::seq_lib::{group_to_multiset_ensures, lemma_multiset_commutative};
use crate::binary64::{magnitude, magnitude_of};
use crate::dvh::{ordered_by_dose, Sample};

verus! {

/// The samples whose dose has the magnitude `m`, in the order in which they
/// stand in `samples`.
pub open spec fn with_dose(samples: Seq<Sample>, m: u64) -> Seq<Sample> {
    samples.filter(|s: Sample| magnitude(s.dose) == m)
}

/// `after` holds the samples of `before` in the order of their doses, and
/// samples of equal dose in the order in which they stand in `before`.
///
/// The last clause says both that nothing is lost or gained and that equal
/// doses keep their order; the clause on the multisets is stated for its own
/// sake.
pub open spec fn is_stable_sort_of(after: Seq<Sample>, before: Seq<Sample>) -> bool {
    &&& ordered_by_dose(after)
    &&& after.to_multiset() == before.to_multiset()
    &&& forall|m: u64| #[trigger] with_dose(after, m) == with_dose(before, m)
}

/// A sequence that is ordered by dose is its own stable sort.
pub proof fn lemma_ordered_is_sorted(samples: Seq<Sample>)
    requires
        ordered_by_dose(samples),
    ensures
        is_stable_sort_of(samples, samples),
{
}

/// A stable sort has as many samples as what it sorts, and each of its
/// samples is one of them.
pub proof fn lemma_sorted_samples(after: Seq<Sample>, before: Seq<Sample>)
    requires
        is_stable_sort_of(after, before),
    ensures
        after.len() == before.len(),
        forall|k: int| 0 <= k < after.len() ==> before.contains(#[trigger] after[k]),
{
    broadcast use group_to_multiset_ensures;

    assert(after.to_multiset().len() == after.len());
    assert forall|k: int| 0 <= k < after.len() implies before.contains(#[trigger] after[k]) by {
        assert(after.to_multiset().count(after[k]) > 0);
    }
}

/// The last of a sequence that is ordered by dose has the largest dose in it,
/// and is the last of the samples that share its dose.
proof fn lemma_last_of_ordered(samples: Seq<Sample>)
    requires
        ordered_by_dose(samples),
        samples.len() > 0,
    ensures
        with_dose(samples, magnitude(samples.last().dose)) == with_dose(
            samples.drop_last(),
            magnitude(samples.last().dose),
        ).push(samples.last()),
        forall|m: u64|
            m != magnitude(samples.last().dose) ==> #[trigger] with_dose(samples, m) == with_dose(
                samples.drop_last(),
                m,
            ),
        forall|m: u64|
            #[trigger] with_dose(samples, m).len() > 0 ==> m <= magnitude(samples.last().dose),
        ordered_by_dose(samples.drop_last()),
{
    let last = samples.last();
    let front = samples.drop_last();
    assert(samples =~= front.push(last));
    assert forall|m: u64| #[trigger] with_dose(samples, m) == if m == magnitude(last.dose) {
        with_dose(front, m).push(last)
    } else {
        with_dose(front, m)
    } by {
        front.lemma_filter_push(last, |s: Sample| magnitude(s.dose) == m);
    }
    assert forall|m: u64| #[trigger] with_dose(samples, m).len() > 0 implies m <= magnitude(
        last.dose,
    ) by {
        let of_dose = |s: Sample| magnitude(s.dose) == m;
        let found = samples.filter(of_dose)[0];
        samples.lemma_filter_pred(of_dose, 0);
        samples.lemma_filter_contains_rev(of_dose, found);
    }
}

/// Two sequences of one length that are ordered by dose, and in which the
/// samples of each dose are the same in the same order, are one sequence.
pub proof fn lemma_order_determines(first: Seq<Sample>, second: Seq<Sample>)
    requires
        ordered_by_dose(first),
        ordered_by_dose(second),
        first.len() == second.len(),
        forall|m: u64| #[trigger] with_dose(first, m) == with_dose(second, m),
    ensures
        first == second,
    decreases first.len(),
{
    if first.len() > 0 {
        lemma_last_of_ordered(first);
        lemma_last_of_ordered(second);
        let m1 = magnitude(first.last().dose);
        let m2 = magnitude(second.last().dose);
        assert(with_dose(first, m2).len() > 0);
        let shared1 = with_dose(first.drop_last(), m1);
        let shared2 = with_dose(second.drop_last(), m1);
        assert(first.last() == second.last()) by {
            assert(shared1.push(first.last()).last() == first.last());
        }
        assert(shared1 =~= shared2) by {
            assert(shared1.push(first.last()).drop_last() =~= shared1);
        }
        assert forall|m: u64| #[trigger] with_dose(first.drop_last(), m) == with_dose(
            second.drop_last(),
            m,
        ) by {
            if m != m1 {
                assert(with_dose(first, m) == with_dose(second, m));
            }
        }
        lemma_order_determines(first.drop_last(), second.drop_last());
        assert(first =~= first.drop_last().push(first.last()));
    }
}

/// Sorting has one result: two stable sorts of the same samples are equal.
pub proof fn lemma_stable_sort_is_unique(before: Seq<Sample>, first: Seq<Sample>, second: Seq<Sample>)
    requires
        is_stable_sort_of(first, before),
        is_stable_sort_of(second, before),
    ensures
        first == second,
{
    lemma_sorted_samples(first, before);
    lemma_sorted_samples(second, before);
    lemma_order_determines(first, second);
}

/// Two stable sorts, one after the other, are a stable sort of the two
/// stretches one after the other, once they are merged.
pub proof fn lemma_sorted_halves(
    merged: Seq<Sample>,
    left: Seq<Sample>,
    right: Seq<Sample>,
    before_left: Seq<Sample>,
    before_right: Seq<Sample>,
)
    requires
        is_stable_sort_of(merged, left + right),
        is_stable_sort_of(left, before_left),
        is_stable_sort_of(right, before_right),
    ensures
        is_stable_sort_of(merged, before_left + before_right),
{
    lemma_multiset_commutative(left, right);
    lemma_multiset_commutative(before_left, before_right);
    assert forall|m: u64| #[trigger] with_dose(merged, m) == with_dose(before_left + before_right, m) by {
        let of_dose = |s: Sample| magnitude(s.dose) == m;
        Seq::filter_distributes_over_add(left, right, of_dose);
        Seq::filter_distributes_over_add(before_left, before_right, of_dose);
        assert(with_dose(left, m) == with_dose(before_left, m));
        assert(with_dose(right, m) == with_dose(before_right, m));
    }
}

/// What holds while two ordered sequences are merged: `out` is the stable
/// sort of what has been taken, `taken_left` samples from `left` and
/// `taken_right` from `right`; nothing in it is above what is still to come;
/// and what was taken from `right` is strictly below what is next in `left`,
/// so that of equal samples those of `left` come first.
pub(crate) open spec fn merging(
    out: Seq<Sample>,
    left: Seq<Sample>,
    right: Seq<Sample>,
    taken_left: int,
    taken_right: int,
) -> bool {
    &&& 0 <= taken_left <= left.len()
    &&& 0 <= taken_right <= right.len()
    &&& is_stable_sort_of(out, left.take(taken_left) + right.take(taken_right))
    &&& taken_left < left.len() ==> forall|k: int|
        0 <= k < out.len() ==> magnitude(#[trigger] out[k].dose) <= magnitude(left[taken_left].dose)
    &&& taken_right < right.len() ==> forall|k: int|
        0 <= k < out.len() ==> magnitude(#[trigger] out[k].dose) <= magnitude(right[taken_right].dose)
    &&& taken_left < left.len() ==> forall|k: int|
        0 <= k < taken_right ==> magnitude(#[trigger] right[k].dose) < magnitude(left[taken_left].dose)
}

/// Taking the next sample of `left` keeps [`merging`], if it is not above the
/// next sample of `right`.
proof fn lemma_take_left(out: Seq<Sample>, left: Seq<Sample>, right: Seq<Sample>, i: int, j: int)
    requires
        ordered_by_dose(left),
        ordered_by_dose(right),
        merging(out, left, right, i, j),
        i < left.len(),
        j < right.len() ==> magnitude(left[i].dose) <= magnitude(right[j].dose),
    ensures
        merging(out.push(left[i]), left, right, i + 1, j),
{
    broadcast use group_to_multiset_ensures;

    let sample = left[i];
    let taken = left.take(i) + right.take(j);
    let next = left.take(i + 1) + right.take(j);
    let pushed = out.push(sample);
    assert(left.take(i + 1) =~= left.take(i).push(sample));
    lemma_multiset_commutative(left.take(i), right.take(j));
    lemma_multiset_commutative(left.take(i + 1), right.take(j));
    assert(pushed.to_multiset() =~= next.to_multiset());
    assert forall|m: u64| #[trigger] with_dose(pushed, m) == with_dose(next, m) by {
        let of_dose = |s: Sample| magnitude(s.dose) == m;
        Seq::filter_distributes_over_add(left.take(i), right.take(j), of_dose);
        Seq::filter_distributes_over_add(left.take(i + 1), right.take(j), of_dose);
        out.lemma_filter_push(sample, of_dose);
        left.take(i).lemma_filter_push(sample, of_dose);
        assert(with_dose(out, m) == with_dose(taken, m));
        if m == magnitude(sample.dose) {
            right.take(j).lemma_all_neg_filter_empty(of_dose);
        }
    }
}

/// Taking the next sample of `right` keeps [`merging`], if it is strictly
/// below the next sample of `left`.
proof fn lemma_take_right(out: Seq<Sample>, left: Seq<Sample>, right: Seq<Sample>, i: int, j: int)
    requires
        ordered_by_dose(left),
        ordered_by_dose(right),
        merging(out, left, right, i, j),
        j < right.len(),
        i < left.len() ==> magnitude(right[j].dose) < magnitude(left[i].dose),
    ensures
        merging(out.push(right[j]), left, right, i, j + 1),
{
    broadcast use group_to_multiset_ensures;

    let sample = right[j];
    let taken = left.take(i) + right.take(j);
    let next = left.take(i) + right.take(j + 1);
    let pushed = out.push(sample);
    assert(next =~= taken.push(sample));
    assert forall|m: u64| #[trigger] with_dose(pushed, m) == with_dose(next, m) by {
        let of_dose = |s: Sample| magnitude(s.dose) == m;
        out.lemma_filter_push(sample, of_dose);
        taken.lemma_filter_push(sample, of_dose);
        assert(with_dose(out, m) == with_dose(taken, m));
    }
}

/// Whether the samples are ordered by dose.
pub(crate) fn is_ordered(samples: &Vec<Sample>) -> (r: bool)
    ensures
        r == ordered_by_dose(samples@),
{
    let n = samples.len();
    if n == 0 {
        return true;
    }
    let mut k: usize = 1;
    while k < n
        invariant
            1 <= k <= n == samples.len(),
            ordered_by_dose(samples@.take(k as int)),
        decreases n - k,
    {
        if magnitude_of(samples[k - 1].dose) > magnitude_of(samples[k].dose) {
            return false;
        }
        proof {
            let head = samples@.take(k as int);
            let next = samples@.take(k + 1);
            assert forall|i: int, j: int| 0 <= i <= j < next.len() implies magnitude(
                #[trigger] next[i].dose,
            ) <= magnitude(#[trigger] next[j].dose) by {
                if i < k <= j {
                    assert(head[k - 1] == samples@[k - 1]);
                }
            }
        }
        k = k + 1;
    }
    assert(samples@.take(n as int) =~= samples@);
    true
}

/// Merges two sequences that are ordered by dose into one. Of samples of
/// equal dose those of `left` come first.
pub(crate) fn merge(left: &Vec<Sample>, right: &Vec<Sample>) -> (merged: Vec<Sample>)
    requires
        ordered_by_dose(left@),
        ordered_by_dose(right@),
    ensures
        is_stable_sort_of(merged@, left@ + right@),
{
    let mut merged: Vec<Sample> = Vec::new();
    let mut i: usize = 0;
    let mut j: usize = 0;
    proof {
        assert(left@.take(0) + right@.take(0) =~= Seq::<Sample>::empty());
    }
    while i < left.len() || j < right.len()
        invariant
            ordered_by_dose(left@),
            ordered_by_dose(right@),
            merging(merged@, left@, right@, i as int, j as int),
        decreases left.len() - i + right.len() - j,
    {
        if j == right.len() || (i < left.len() && magnitude_of(left[i].dose) <= magnitude_of(
            right[j].dose,
        )) {
            proof {
                lemma_take_left(merged@, left@, right@, i as int, j as int);
            }
            merged.push(left[i]);
            i = i + 1;
        } else {
            proof {
                lemma_take_right(merged@, left@, right@, i as int, j as int);
            }
            merged.push(right[j]);
            j = j + 1;
        }
    }
    proof {
        assert(left@.take(i as int) =~= left@);
        assert(right@.take(j as int) =~= right@);
    }
    merged
}

/// The samples of `samples` from position `from` up to position `to`, sorted
/// by dose, samples of equal dose in the order in which they stand.
pub(crate) fn sorted_range(samples: &Vec<Sample>, from: usize, to: usize) -> (sorted: Vec<Sample>)
    requires
        from <= to <= samples.len(),
    ensures
        is_stable_sort_of(sorted@, samples@.subrange(from as int, to as int)),
    decreases to - from,
{
    if to - from <= 1 {
        let mut sorted: Vec<Sample> = Vec::new();
        if from < to {
            sorted.push(samples[from]);
        }
        assert(sorted@ =~= samples@.subrange(from as int, to as int));
        sorted
    } else {
        let middle = from + (to - from) / 2;
        let left = sorted_range(samples, from, middle);
        let right = sorted_range(samples, middle, to);
        let merged = merge(&left, &right);
        proof {
            let before_left = samples@.subrange(from as int, middle as int);
            let before_right = samples@.subrange(middle as int, to as int);
            assert(before_left + before_right =~= samples@.subrange(from as int, to as int));
            lemma_sorted_halves(merged@, left@, right@, before_left, before_right);
        }
        merged
    }
}

} // verus!
