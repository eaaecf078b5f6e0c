//! Reduction of a term under a bound on the number of steps and on the size
//! that the term may reach on the way.

use crate::lambda::error::LambdaCollisionError;
use crate::lambda::term::{largest_free_index, max_free_index, size, term_size};
use lambda_calculus::Term;
use vstd::prelude::*;

verus! {

/// What one β-reduction in hybrid applicative order makes of a term: the
/// reduced term, or `None` where that order finds nothing to reduce.
pub uninterp spec fn hap_reduct(t: Term) -> Option<Term>;

/// The indices that one reduction step can write fit in a machine word: a
/// step raises an index by less than the number of binders in the term.
pub open spec fn step_fits(t: Term) -> bool {
    largest_free_index(t) + term_size(t) < usize::MAX
}

/// `Term::reduce` in the order `HAP` with a limit of one reduction. It
/// returns the number of reductions performed, 0 or 1, and leaves the reduced
/// term in place; with 0 the term is as it was. What the reduced term is
/// depends on the term alone.
///
/// A reduction puts the argument in the place of the bound variable and
/// raises the free indices of each copy by the number of binders it is moved
/// under, with plain addition: `step_fits` keeps that addition in range. The
/// renumbering is there so that each free variable keeps its meaning, so no
/// free index larger than those of the term before appears.
#[verifier::external_body]
pub(crate) fn hap_step(t: &mut Term) -> (n: usize)
    requires
        step_fits(*old(t)),
    ensures
        match hap_reduct(*old(t)) {
            Some(u) => n == 1 && *final(t) == u,
            None => n == 0 && *final(t) == *old(t),
        },
        largest_free_index(*final(t)) <= largest_free_index(*old(t)),
{
    t.reduce(lambda_calculus::HAP, 1)
}

/// How a bounded reduction ends.
pub ghost enum Reduction {
    /// The reduction stopped, at a term with nothing left to reduce or at the
    /// step limit, after `steps` steps.
    Settled { term: Term, steps: nat },
    /// A step produced this term, which is larger than the size limit, or so
    /// large that no further step on it fits in a machine word.
    Oversized { term: Term },
}

impl Reduction {
    /// The same end, reached after `k` steps more.
    pub open spec fn after(self, k: nat) -> Reduction {
        match self {
            Reduction::Settled { term, steps } => Reduction::Settled { term, steps: steps + k },
            Reduction::Oversized { term } => self,
        }
    }
}

/// The end of the reduction of `t` by at most `rlimit` steps, where a step
/// that leaves a term with more than `slimit` nodes ends it at once, and so
/// does one that leaves a term on which no further step fits in a machine
/// word.
pub open spec fn bounded_reduction(t: Term, rlimit: nat, slimit: nat) -> Reduction
    decreases rlimit,
{
    if rlimit == 0 {
        Reduction::Settled { term: t, steps: 0 }
    } else {
        match hap_reduct(t) {
            None => Reduction::Settled { term: t, steps: 0 },
            Some(u) => if term_size(u) > slimit || !step_fits(u) {
                Reduction::Oversized { term: u }
            } else {
                bounded_reduction(u, (rlimit - 1) as nat, slimit).after(1)
            },
        }
    }
}

/// The term after `k` reduction steps, if that many can be made.
pub open spec fn nth_reduct(t: Term, k: nat) -> Option<Term>
    decreases k,
{
    if k == 0 {
        Some(t)
    } else {
        match hap_reduct(t) {
            None => None,
            Some(u) => nth_reduct(u, (k - 1) as nat),
        }
    }
}

/// A bounded reduction never counts more steps than its limit.
pub proof fn lemma_steps_within_limit(t: Term, rlimit: nat, slimit: nat)
    ensures
        bounded_reduction(t, rlimit, slimit) matches Reduction::Settled { steps, .. } ==> steps
            <= rlimit,
    decreases rlimit,
{
    if rlimit > 0 {
        match hap_reduct(t) {
            None => {},
            Some(u) => {
                lemma_steps_within_limit(u, (rlimit - 1) as nat, slimit);
            },
        }
    }
}

/// A bounded reduction that settles after `steps` steps settles at the term
/// that `steps` steps lead to; if it stayed under its limit, that term has
/// nothing left to reduce.
pub proof fn lemma_settled_term(t: Term, rlimit: nat, slimit: nat)
    ensures
        bounded_reduction(t, rlimit, slimit) matches Reduction::Settled { term, steps } ==> {
            &&& nth_reduct(t, steps) == Some(term)
            &&& steps < rlimit ==> hap_reduct(term) is None
            &&& steps > 0 ==> term_size(term) <= slimit && step_fits(term)
        },
    decreases rlimit,
{
    if rlimit > 0 {
        match hap_reduct(t) {
            None => {},
            Some(u) => {
                lemma_settled_term(u, (rlimit - 1) as nat, slimit);
            },
        }
    }
}

/// If the term after some step within the limit is larger than the size
/// limit, the bounded reduction ends oversized, however many steps of the
/// limit are left.
pub proof fn lemma_oversized_step_ends_reduction(t: Term, rlimit: nat, slimit: nat, k: nat)
    requires
        1 <= k <= rlimit,
        nth_reduct(t, k) matches Some(u) && term_size(u) > slimit,
    ensures
        bounded_reduction(t, rlimit, slimit) is Oversized,
    decreases k,
{
    reveal_with_fuel(nth_reduct, 2);
    match hap_reduct(t) {
        None => {},
        Some(u) => {
            if term_size(u) <= slimit && step_fits(u) {
                lemma_oversized_step_ends_reduction(
                    u,
                    (rlimit - 1) as nat,
                    slimit,
                    (k - 1) as nat,
                );
            }
        },
    }
}

/// Reduces `expr` in place, one step at a time, by at most `rlimit` steps.
///
/// After each step the term is measured: a term with more than `slimit`
/// nodes ends the reduction with `ExceedsDepthLimit`, and so does a term that
/// leaves no room in a machine word for the indices of a further step.
/// Otherwise the number of steps made is returned, which is `rlimit` exactly
/// when the limit stopped the reduction or the last permitted step happened
/// to finish it.
pub fn reduce_with_limit(expr: &mut Term, rlimit: usize, slimit: usize) -> (r: Result<
    usize,
    LambdaCollisionError,
>)
    requires
        step_fits(*old(expr)),
    ensures
        match bounded_reduction(*old(expr), rlimit as nat, slimit as nat) {
            Reduction::Settled { term, steps } => {
                &&& r == Ok::<usize, LambdaCollisionError>(steps as usize)
                &&& steps <= rlimit
                &&& *final(expr) == term
            },
            Reduction::Oversized { term } => {
                &&& r == Err::<usize, LambdaCollisionError>(LambdaCollisionError::ExceedsDepthLimit)
                &&& *final(expr) == term
            },
        },
        largest_free_index(*final(expr)) <= largest_free_index(*old(expr)),
{
    // Where the free indices of the start leave room for `slimit` nodes,
    // every term within the size limit leaves room for a step.
    let roomy = max_free_index(expr) < usize::MAX - slimit;
    let mut n: usize = 0;
    while n < rlimit
        invariant
            n <= rlimit,
            step_fits(*expr),
            largest_free_index(*expr) <= largest_free_index(*old(expr)),
            roomy ==> largest_free_index(*old(expr)) + slimit < usize::MAX,
            bounded_reduction(*old(expr), rlimit as nat, slimit as nat) == bounded_reduction(
                *expr,
                (rlimit - n) as nat,
                slimit as nat,
            ).after(n as nat),
        decreases rlimit - n,
    {
        let ghost before = *expr;
        if hap_step(expr) == 0 {
            return Ok(n);
        }
        if size(expr) > slimit {
            return Err(LambdaCollisionError::ExceedsDepthLimit);
        }
        if !roomy && !can_step(expr) {
            return Err(LambdaCollisionError::ExceedsDepthLimit);
        }
        n += 1;
        assert(bounded_reduction(before, (rlimit - (n - 1)) as nat, slimit as nat)
            == bounded_reduction(*expr, (rlimit - n) as nat, slimit as nat).after(1));
    }
    Ok(n)
}

/// Whether a reduction step can be made on `expr`, and so whether
/// `reduce_with_limit` can be called on it.
pub fn can_step(expr: &Term) -> (b: bool)
    ensures
        b == step_fits(*expr),
{
    let free = max_free_index(expr);
    let nodes = size(expr);
    free < usize::MAX - nodes
}

/// Reduces `expr` as `reduce_with_limit` does, if a step can be made on it;
/// otherwise leaves it as it is and returns `None`.
pub fn try_reduce_with_limit(expr: &mut Term, rlimit: usize, slimit: usize) -> (r: Option<
    Result<usize, LambdaCollisionError>,
>)
    ensures
        r is None <==> !step_fits(*old(expr)),
        r is None ==> *final(expr) == *old(expr),
        r matches Some(outcome) ==> match bounded_reduction(
            *old(expr),
            rlimit as nat,
            slimit as nat,
        ) {
            Reduction::Settled { term, steps } => {
                &&& outcome == Ok::<usize, LambdaCollisionError>(steps as usize)
                &&& steps <= rlimit
                &&& *final(expr) == term
            },
            Reduction::Oversized { term } => {
                &&& outcome == Err::<usize, LambdaCollisionError>(
                    LambdaCollisionError::ExceedsDepthLimit,
                )
                &&& *final(expr) == term
            },
        },
        r matches Some(Ok(n)) ==> n <= rlimit,
{
    if !can_step(expr) {
        return None;
    }
    Some(reduce_with_limit(expr, rlimit, slimit))
}

} // verus!
