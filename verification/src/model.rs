//! The mathematical model: exact totals of `u32` sequences.

use vstd::prelude::*;

verus! {

/// The exact sum of the elements of `s`, as an unbounded integer.
pub open spec fn total(s: Seq<u32>) -> int
    decreases s.len(),
{
    if s.len() == 0 {
        0
    } else {
        total(s.drop_last()) + s.last()
    }
}

/// What summing `s` in 32 bits yields: the exact total where it is
/// representable, and nothing where it is not.
pub open spec fn checked_total(s: Seq<u32>) -> Option<u32> {
    if total(s) <= u32::MAX {
        Some(total(s) as u32)
    } else {
        None
    }
}

/// The total of a concatenation is the sum of the totals.
pub proof fn lemma_total_concat(a: Seq<u32>, b: Seq<u32>)
    ensures
        total(a + b) == total(a) + total(b),
    decreases b.len(),
{
    if b.len() > 0 {
        assert((a + b).drop_last() =~= a + b.drop_last());
        lemma_total_concat(a, b.drop_last());
    }
}

/// The total of a non-empty sequence is its first element plus the total of
/// the rest.
pub proof fn lemma_total_first(s: Seq<u32>)
    requires
        s.len() > 0,
    ensures
        total(s) == s[0] + total(s.drop_first()),
{
    let head = seq![s[0]];
    assert(s =~= head + s.drop_first());
    lemma_total_concat(head, s.drop_first());
    assert(total(head) == s[0]) by {
        reveal_with_fuel(total, 2);
    }
}

/// A total is never negative.
pub proof fn lemma_total_nonnegative(s: Seq<u32>)
    ensures
        0 <= total(s),
    decreases s.len(),
{
    if s.len() > 0 {
        lemma_total_nonnegative(s.drop_last());
    }
}

/// The total of a prefix never exceeds the total of the whole sequence.
pub proof fn lemma_total_prefix(s: Seq<u32>, k: int)
    requires
        0 <= k <= s.len(),
    ensures
        0 <= total(s.take(k)) <= total(s),
{
    assert(s =~= s.take(k) + s.skip(k));
    lemma_total_concat(s.take(k), s.skip(k));
    lemma_total_nonnegative(s.take(k));
    lemma_total_nonnegative(s.skip(k));
}

/// The sum overflows exactly when the running total of some prefix leaves
/// the 32-bit range: later elements never bring a total back into it.
pub proof fn lemma_overflow_at_prefix(s: Seq<u32>)
    ensures
        checked_total(s) is None <==> exists|k: int|
            0 <= k <= s.len() && total(#[trigger] s.take(k)) > u32::MAX,
{
    if checked_total(s) is None {
        assert(s.take(s.len() as int) =~= s);
    } else {
        assert forall|k: int| 0 <= k <= s.len() implies total(#[trigger] s.take(k))
            <= u32::MAX by {
            lemma_total_prefix(s, k);
        }
    }
}

/// Removing one element lowers the total by that element.
pub proof fn lemma_total_remove(s: Seq<u32>, i: int)
    requires
        0 <= i < s.len(),
    ensures
        total(s) == total(s.remove(i)) + s[i],
{
    let before = s.take(i);
    let from = s.skip(i);
    assert(s =~= before + from);
    assert(s.remove(i) =~= before + from.drop_first());
    lemma_total_concat(before, from);
    lemma_total_concat(before, from.drop_first());
    lemma_total_first(from);
}

/// Two sequences that hold the same elements, each as often as the other,
/// have the same total and so the same checked total: the order of the
/// elements decides where a left-to-right summation stops, not what it
/// reports.
pub proof fn lemma_total_permutation(a: Seq<u32>, b: Seq<u32>)
    requires
        a.to_multiset() == b.to_multiset(),
    ensures
        total(a) == total(b),
        checked_total(a) == checked_total(b),
    decreases a.len(),
{
    a.to_multiset_ensures();
    b.to_multiset_ensures();
    if a.len() > 0 {
        let last = a.len() - 1;
        assert(b.to_multiset().count(a[last]) > 0);
        let j = choose|j: int| 0 <= j < b.len() && b[j] == a[last];
        assert(a.drop_last() =~= a.remove(last));
        lemma_total_permutation(a.drop_last(), b.remove(j));
        lemma_total_remove(b, j);
    }
}

} // verus!
