//! Short-circuiting folds over a slice of `u32`.

use vstd::prelude::*;

verus! {

/// Whether a left-to-right fold of `s` that starts from `init` may end in
/// `out`, where `step(acc, x, r)` says that folding `x` into `acc` may
/// give `r`. A step that gives nothing ends the fold at once with nothing;
/// otherwise the fold goes on from the new accumulator, and a fold with no
/// element left ends in its accumulator.
pub open spec fn folds_to(
    step: spec_fn(u32, u32, Option<u32>) -> bool,
    s: Seq<u32>,
    init: u32,
    out: Option<u32>,
) -> bool
    decreases s.len(),
{
    if s.len() == 0 {
        out == Some(init)
    } else {
        exists|r: Option<u32>| #[trigger]
            step(init, s[0], r) && match r {
                Some(acc) => folds_to(step, s.drop_first(), acc, out),
                None => out is None,
            }
    }
}

/// The step relation of a function that takes each element by reference.
pub open spec fn by_reference<F: Fn(u32, &u32) -> Option<u32>>(step: F) -> spec_fn(
    u32,
    u32,
    Option<u32>,
) -> bool {
    |acc: u32, x: u32, r: Option<u32>| call_ensures(step, (acc, &x), r)
}

/// The step relation of a function that takes each element by value.
pub open spec fn by_value<F: Fn(u32, u32) -> Option<u32>>(step: F) -> spec_fn(
    u32,
    u32,
    Option<u32>,
) -> bool {
    |acc: u32, x: u32, r: Option<u32>| call_ensures(step, (acc, x), r)
}

/// A fold under a step relation is also a fold under every relation that
/// allows at least the same steps.
pub proof fn lemma_folds_to_weaken(
    p: spec_fn(u32, u32, Option<u32>) -> bool,
    q: spec_fn(u32, u32, Option<u32>) -> bool,
    s: Seq<u32>,
    init: u32,
    out: Option<u32>,
)
    requires
        forall|acc: u32, x: u32, r: Option<u32>| #[trigger] p(acc, x, r) ==> q(acc, x, r),
        folds_to(p, s, init, out),
    ensures
        folds_to(q, s, init, out),
    decreases s.len(),
{
    if s.len() > 0 {
        let r = choose|r: Option<u32>| #[trigger]
            p(init, s[0], r) && match r {
                Some(acc) => folds_to(p, s.drop_first(), acc, out),
                None => out is None,
            };
        if let Some(acc) = r {
            lemma_folds_to_weaken(p, q, s.drop_first(), acc, out);
        }
    }
}

/// Folds `numbers` from left to right, handing `step` the accumulator and a
/// reference to each element in turn, and stops at the first step that
/// returns `None`.
pub fn try_fold<F: Fn(u32, &u32) -> Option<u32>>(numbers: &[u32], init: u32, step: F) -> (out:
    Option<u32>)
    requires
        forall|acc: u32, i: int|
            0 <= i < numbers@.len() ==> call_requires(step, (acc, &numbers@[i])),
    ensures
        folds_to(by_reference(step), numbers@, init, out),
{
    let mut acc: u32 = init;
    proof {
        assert(numbers@.skip(0) =~= numbers@);
    }
    for x in it: numbers.iter()
        invariant
            forall|a: u32, i: int|
                0 <= i < numbers@.len() ==> call_requires(step, (a, &numbers@[i])),
            forall|o: Option<u32>|
                folds_to(by_reference(step), numbers@.skip(it.index()), acc, o) ==> folds_to(
                    by_reference(step),
                    numbers@,
                    init,
                    o,
                ),
    {
        let ghost rest = numbers@.skip(it.index());
        let ghost before = acc;
        let r = step(acc, x);
        proof {
            assert(rest.drop_first() =~= numbers@.skip(it.index() + 1));
            assert(by_reference(step)(before, rest[0], r));
        }
        match r {
            Some(next) => {
                acc = next;
            },
            None => {
                return None;
            },
        }
    }
    Some(acc)
}

/// Folds `numbers` from left to right, handing `step` the accumulator and a
/// copy of each element in turn, and stops at the first step that returns
/// `None`.
pub fn try_fold_copied<F: Fn(u32, u32) -> Option<u32>>(numbers: &[u32], init: u32, step: F) -> (out:
    Option<u32>)
    requires
        forall|acc: u32, i: int|
            0 <= i < numbers@.len() ==> call_requires(step, (acc, numbers@[i])),
    ensures
        folds_to(by_value(step), numbers@, init, out),
{
    let ghost accepts = |acc: u32, x: u32| call_requires(step, (acc, x));
    let ghost gives = by_value(step);
    let copying = |acc: u32, x: &u32| -> (r: Option<u32>)
        requires
            accepts(acc, *x),
        ensures
            gives(acc, *x, r),
        { step(acc, *x) };
    let out = try_fold(numbers, init, copying);
    proof {
        lemma_folds_to_weaken(by_reference(copying), gives, numbers@, init, out);
    }
    out
}

} // verus!
