//! Checked summation of a slice of `u32`.

use vstd::prelude::*;
use crate::fold::{by_reference, by_value, folds_to, try_fold, try_fold_copied};
use crate::model::{
    checked_total, lemma_total_first, lemma_total_nonnegative, lemma_total_prefix, total,
};

verus! {

/// Sums `numbers` from left to right with an explicit loop, stopping at the
/// first addition that would leave the 32-bit range.
pub fn sum_u32s(numbers: &[u32]) -> (result: Option<u32>)
    ensures
        result == checked_total(numbers@),
{
    let mut sum: u32 = 0;
    for num in it: numbers.iter()
        invariant
            sum == total(numbers@.take(it.index())),
    {
        proof {
            assert(numbers@.take(it.index() + 1).drop_last() =~= numbers@.take(it.index()));
            lemma_total_prefix(numbers@, it.index() + 1);
        }
        match sum.checked_add(*num) {
            Some(new_sum) => {
                sum = new_sum;
            },
            None => {
                return None;
            },
        }
    }
    proof {
        assert(numbers@.take(numbers@.len() as int) =~= numbers@);
    }
    Some(sum)
}

/// A fold each of whose steps is a checked addition ends in the exact sum
/// of its starting value and the total of the sequence where that sum is
/// representable, and in nothing where it is not.
pub proof fn lemma_checked_fold(
    step: spec_fn(u32, u32, Option<u32>) -> bool,
    s: Seq<u32>,
    init: u32,
    out: Option<u32>,
)
    requires
        forall|acc: u32, x: u32, r: Option<u32>| #[trigger]
            step(acc, x, r) ==> r == acc.checked_add(x),
        folds_to(step, s, init, out),
    ensures
        init + total(s) <= u32::MAX ==> out == Some((init + total(s)) as u32),
        init + total(s) > u32::MAX ==> out is None,
    decreases s.len(),
{
    if s.len() > 0 {
        let r = choose|r: Option<u32>| #[trigger]
            step(init, s[0], r) && match r {
                Some(acc) => folds_to(step, s.drop_first(), acc, out),
                None => out is None,
            };
        lemma_total_first(s);
        lemma_total_nonnegative(s.drop_first());
        if let Some(acc) = r {
            lemma_checked_fold(step, s.drop_first(), acc, out);
        }
    }
}

/// Sums `numbers` with a short-circuiting fold that hands copies of the
/// elements to `u32::checked_add`.
pub fn sum_u32_1(numbers: &[u32]) -> (result: Option<u32>)
    ensures
        result == checked_total(numbers@),
{
    let result = try_fold_copied(numbers, 0, u32::checked_add);
    proof {
        lemma_checked_fold(by_value(u32::checked_add), numbers@, 0, result);
    }
    result
}

/// Sums `numbers` with a short-circuiting fold whose step reads each element
/// through a reference.
pub fn sum_u32_2(numbers: &[u32]) -> (result: Option<u32>)
    ensures
        result == checked_total(numbers@),
{
    let step = |acc: u32, x: &u32| -> (r: Option<u32>)
        ensures
            r == acc.checked_add(*x),
        { acc.checked_add(*x) };
    let result = try_fold(numbers, 0, step);
    proof {
        lemma_checked_fold(by_reference(step), numbers@, 0, result);
    }
    result
}

/// The three summations agree: whatever each of them returns for the same
/// numbers, the three results are equal, and equal to the checked total.
pub proof fn lemma_implementations_agree(
    numbers: &[u32],
    looped: Option<u32>,
    copied: Option<u32>,
    referenced: Option<u32>,
)
    requires
        call_ensures(sum_u32s, (numbers,), looped),
        call_ensures(sum_u32_1, (numbers,), copied),
        call_ensures(sum_u32_2, (numbers,), referenced),
    ensures
        looped == copied,
        copied == referenced,
        referenced == checked_total(numbers@),
{
}

} // verus!
