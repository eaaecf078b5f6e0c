//! The soup of the lambda chemistry: a population of lambda particles that
//! react through an `AlchemyCollider`.

use crate::config::Reactor;
use crate::lambda::collider::{AlchemyCollider, LambdaCollisionOk};
use crate::lambda::parse::{
    all_parse, first_unparsable, parse_expressions, parsed, ParseFailure,
};
use crate::lambda::error::LambdaCollisionError;
use crate::lambda::particle::LambdaParticle;
use crate::lambda::term::{applied, classic_parse};
use crate::supercollider::{
    cycled, draws_in_range, evicted, isomorphic_count, seeded_stream, Soup,
};
use lambda_calculus::Term;
use vstd::prelude::*;

verus! {

/// A soup of lambda particles.
pub type LambdaSoup = Soup<
    LambdaParticle,
    AlchemyCollider,
    LambdaCollisionOk,
    LambdaCollisionError,
>;

/// The particles that hold these terms.
pub open spec fn wrapped(terms: Seq<Term>) -> Seq<LambdaParticle> {
    Seq::new(terms.len(), |i: int| LambdaParticle { expr: terms[i] })
}

/// The terms that these particles hold.
pub open spec fn unwrapped(particles: Seq<LambdaParticle>) -> Seq<Term> {
    Seq::new(particles.len(), |i: int| particles[i].expr)
}

/// The rule of the default soup: the first argument applied to the second.
pub open spec fn application_rule() -> Term {
    Term::Abs(Box::new(Term::Abs(Box::new(applied(Term::Var(2), Term::Var(1))))))
}

/// Wraps each term in a particle.
pub fn wrap(terms: &Vec<Term>) -> (particles: Vec<LambdaParticle>)
    ensures
        particles@ == wrapped(terms@),
{
    let mut particles: Vec<LambdaParticle> = Vec::new();
    let mut k: usize = 0;
    while k < terms.len()
        invariant
            k <= terms.len(),
            particles@ == wrapped(terms@.take(k as int)),
        decreases terms.len() - k,
    {
        particles.push(LambdaParticle { expr: terms[k].clone() });
        k += 1;
        assert(particles@ =~= wrapped(terms@.take(k as int)));
    }
    assert(terms@.take(k as int) =~= terms@);
    particles
}

/// Wrapping commutes with repeating a sequence.
pub proof fn lemma_wrapped_cycle(terms: Seq<Term>, n: nat)
    requires
        n > 0 ==> terms.len() > 0,
    ensures
        cycled(wrapped(terms), n) == wrapped(cycled(terms, n)),
{
    let direct = cycled(wrapped(terms), n);
    let indirect = wrapped(cycled(terms, n));
    assert forall|i: int| 0 <= i < n implies #[trigger] direct[i] == indirect[i] by {
        vstd::arithmetic::div_mod::lemma_mod_bound(i, terms.len() as int);
    }
    assert(direct =~= indirect);
}

impl LambdaSoup {
    /// An empty soup with the default settings: one rule that applies the
    /// first argument to the second, every discard policy but that for
    /// parents, a population of constant size, and a seed of zeros.
    pub fn new() -> (soup: Self)
        ensures
            soup.population() == Seq::<LambdaParticle>::empty(),
            soup.collisions() == 0,
            soup.generator() == seeded_stream(Reactor::default_seed()),
            soup.collider().rules() == seq![application_rule()],
            soup.collider().reduction_limit() == 8000,
            soup.collider().size_limit() == 1000,
            soup.collider().discards_copies(),
            soup.collider().discards_identity(),
            soup.collider().discards_free(),
            soup.maintains_size(),
            !soup.discards_parents(),
    {
        let cfg = Reactor::new();
        let mut rules: Vec<Term> = Vec::new();
        rules.push(
            lambda_calculus::abs(
                lambda_calculus::abs(lambda_calculus::app(Term::Var(2), Term::Var(1))),
            ),
        );
        assert(rules@ =~= seq![application_rule()]);
        let collider = AlchemyCollider::with_rules(&cfg, rules);
        Soup::with_collider(
            collider,
            cfg.seed,
            cfg.maintain_constant_population_size,
            cfg.discard_parents,
        )
    }

    /// An empty soup with the settings of `cfg`, whose rules are all terms.
    pub fn from_config(cfg: &Reactor) -> (soup: Self)
        requires
            all_parse(cfg.rules@),
        ensures
            soup.population() == Seq::<LambdaParticle>::empty(),
            soup.collisions() == 0,
            soup.generator() == seeded_stream(cfg.seed@),
            soup.collider().configured_by(cfg),
            soup.collider().rules() == parsed(cfg.rules@),
            soup.maintains_size() == cfg.maintain_constant_population_size,
            soup.discards_parents() == cfg.discard_parents,
    {
        Soup::with_collider(
            AlchemyCollider::from_config(cfg),
            cfg.seed,
            cfg.maintain_constant_population_size,
            cfg.discard_parents,
        )
    }

    /// An empty soup with the settings of `cfg`, or the position of the first
    /// rule that is not a term.
    pub fn try_from_config(cfg: &Reactor) -> (r: Result<Self, ParseFailure>)
        ensures
            match r {
                Ok(soup) => {
                    &&& all_parse(cfg.rules@)
                    &&& soup.population() == Seq::<LambdaParticle>::empty()
                    &&& soup.collisions() == 0
                    &&& soup.generator() == seeded_stream(cfg.seed@)
                    &&& soup.collider().configured_by(cfg)
                    &&& soup.collider().rules() == parsed(cfg.rules@)
                    &&& soup.maintains_size() == cfg.maintain_constant_population_size
                    &&& soup.discards_parents() == cfg.discard_parents
                },
                Err(failure) => {
                    &&& failure.index < cfg.rules@.len()
                    &&& failure.index == first_unparsable(cfg.rules@, 0)
                    &&& classic_parse(cfg.rules@[failure.index as int]@) is None
                },
            },
    {
        match parse_expressions(&cfg.rules) {
            Ok(_) => Ok(Self::from_config(cfg)),
            Err(failure) => Err(failure),
        }
    }

    /// Appends the terms to the population, each in a particle of its own, in
    /// their order. Nothing is left out, equal terms included, and nothing is
    /// drawn from the generator.
    pub fn add_lambda_expressions(&mut self, expressions: Vec<Term>)
        ensures
            final(self).population() == old(self).population() + wrapped(expressions@),
            final(self).collisions() == old(self).collisions(),
            final(self).same_setup(old(self)),
            final(self).generator() == old(self).generator(),
    {
        self.add_particles(wrap(&expressions));
    }

    /// Perturbs the population with `nterms` new particles.
    ///
    /// Without terms to take them from, nothing is done and
    /// `NotEnoughExpressions` is returned. Otherwise, where the soup keeps its
    /// size, `nterms` particles are first evicted, each drawn at random from
    /// what the draws before it have left; then `nterms` particles are
    /// appended, holding the given terms in their order, starting over when
    /// the terms run out.
    pub fn perturb_lambda_expressions(&mut self, nterms: usize, expressions: Vec<Term>) -> (r:
        Result<(), LambdaCollisionError>)
        requires
            old(self).maintains_size() ==> nterms <= old(self).population().len(),
        ensures
            r is Err <==> nterms > 0 && expressions@.len() == 0,
            r matches Err(e) ==> e == LambdaCollisionError::NotEnoughExpressions
                && final(self).population() == old(self).population(),
            r is Ok ==> exists|draws: Seq<int>|
                {
                    &&& draws.len() == if old(self).maintains_size() {
                        nterms as nat
                    } else {
                        0nat
                    }
                    &&& draws_in_range(old(self).population().len(), draws)
                    &&& final(self).population() == #[trigger] evicted(
                        old(self).population(),
                        draws,
                    ) + wrapped(cycled(expressions@, nterms as nat))
                },
            r is Ok ==> final(self).population().len() == old(self).population().len() + if old(
                self,
            ).maintains_size() {
                0int
            } else {
                nterms as int
            },
            final(self).collisions() == old(self).collisions(),
            final(self).same_setup(old(self)),
            r is Err || !old(self).maintains_size() || nterms == 0 ==> final(self).generator()
                == old(self).generator(),
    {
        if nterms > 0 && expressions.len() == 0 {
            return Err(LambdaCollisionError::NotEnoughExpressions);
        }
        let source = wrap(&expressions);
        proof {
            lemma_wrapped_cycle(expressions@, nterms as nat);
        }
        self.perturb(nterms, &source);
        Ok(())
    }

    /// The term of the particle at `k`, in place.
    pub fn lambda_expression_at(&self, k: usize) -> (term: &Term)
        requires
            k < self.population().len(),
        ensures
            *term == self.population()[k as int].expr,
    {
        self.particles()[k].get_underlying_term()
    }

    /// The terms of the population, by index, each a copy.
    pub fn lambda_expressions(&self) -> (terms: Vec<Term>)
        ensures
            terms@ == unwrapped(self.population()),
    {
        let particles = self.particles();
        let mut terms: Vec<Term> = Vec::new();
        let mut k: usize = 0;
        while k < particles.len()
            invariant
                k <= particles.len(),
                terms@ == unwrapped(particles@.take(k as int)),
            decreases particles.len() - k,
        {
            terms.push(particles[k].get_underlying_term().clone());
            k += 1;
            assert(terms@ =~= unwrapped(particles@.take(k as int)));
        }
        assert(particles@.take(k as int) =~= particles@);
        terms
    }

    /// How many particles of the population hold a term isomorphic to `item`.
    pub fn population_of(&self, item: &Term) -> (n: usize)
        ensures
            n == isomorphic_count(self.population(), LambdaParticle { expr: *item }),
    {
        let probe = LambdaParticle { expr: item.clone() };
        self.count_isomorphic(&probe)
    }
}

} // verus!
