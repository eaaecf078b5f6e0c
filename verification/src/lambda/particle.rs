//! The particle of the lambda chemistry: one lambda term.

use crate::lambda::term::{
    applied, format_debruijn, debruijn_text, isomorphic, lemma_isomorphic_is_equality,
    lemma_isomorphic_reflexive, lemma_isomorphic_symmetric, term_size, terms_isomorphic,
};
use crate::supercollider::Particle;
use lambda_calculus::Term;
use vstd::prelude::*;

verus! {

/// A lambda term taking part in the simulation. Two particles count as the
/// same if their terms are isomorphic.
#[derive(Debug, PartialEq, Eq)]
pub struct LambdaParticle {
    pub expr: Term,
}

impl Clone for LambdaParticle {
    fn clone(&self) -> (r: Self)
        ensures
            r == *self,
    {
        LambdaParticle { expr: self.expr.clone() }
    }
}

impl LambdaParticle {
    /// The term of the particle.
    pub fn get_underlying_term(&self) -> (t: &Term)
        ensures
            *t == self.expr,
    {
        &self.expr
    }

    /// The text of the particle: its term in De Bruijn notation.
    pub fn to_text(&self) -> (text: String)
        ensures
            text@ == debruijn_text(self.expr),
    {
        format_debruijn(&self.expr)
    }
}

impl Particle for LambdaParticle {
    open spec fn composed(&self, other: &Self) -> Self {
        LambdaParticle { expr: applied(self.expr, other.expr) }
    }

    open spec fn isomorphic_to(&self, other: &Self) -> bool {
        isomorphic(self.expr, other.expr)
    }

    fn compose(&self, other: &Self) -> (r: Self) {
        LambdaParticle { expr: lambda_calculus::app(self.expr.clone(), other.expr.clone()) }
    }

    fn is_isomorphic_to(&self, other: &Self) -> (b: bool) {
        terms_isomorphic(&self.expr, &other.expr)
    }

    proof fn lemma_clone_is_same(a: &Self, b: &Self) {
    }

    proof fn lemma_isomorphism_is_equivalence(a: &Self, b: &Self, c: &Self) {
        lemma_isomorphic_reflexive(a.expr);
        lemma_isomorphic_symmetric(a.expr, b.expr);
        lemma_isomorphic_is_equality(a.expr, b.expr);
        lemma_isomorphic_is_equality(b.expr, c.expr);
        lemma_isomorphic_is_equality(a.expr, c.expr);
    }
}

/// The composition of two particles is the application of the first term to
/// the second, not reduced: it has one node more than the two together.
pub proof fn lemma_composed_size(a: LambdaParticle, b: LambdaParticle)
    ensures
        a.composed(&b).expr == applied(a.expr, b.expr),
        term_size(a.composed(&b).expr) == term_size(a.expr) + term_size(b.expr) + 1,
{
}

} // verus!
