//! The reaction strategy of the lambda chemistry: each rule is applied to the
//! two particles that collide, the application is reduced within bounds, and
//! the discard policies decide whether the result survives.

use crate::config::Reactor;
use crate::lambda::error::LambdaCollisionError;
use crate::lambda::particle::LambdaParticle;
use crate::lambda::reduction::{
    bounded_reduction, can_step, lemma_oversized_step_ends_reduction, lemma_settled_term,
    lemma_steps_within_limit, nth_reduct, reduce_with_limit, step_fits, Reduction,
};
use crate::lambda::parse::{
    all_parse, first_unparsable, parse_expressions, parsed, ParseFailure,
};
use crate::lambda::term::{
    applied, classic_parse, counted_size, has_free_at, has_free_variables, identity_term,
    isomorphic, size, term_size, terms_isomorphic,
};
use crate::supercollider::{clone_particles, Collider, Residue};
use lambda_calculus::Term;
use vstd::pervasive::unreached;
use vstd::prelude::*;

verus! {

/// A collider for lambda particles.
#[derive(Debug, Clone, PartialEq, Eq)]
pub struct AlchemyCollider {
    rlimit: usize,
    slimit: usize,
    disallow_recursive: bool,
    reaction_rules: Vec<Term>,
    discard_copy_actions: bool,
    discard_identity: bool,
    discard_free_variable_expressions: bool,
}

/// What a successful collision leaves behind: for each rule, in the order of
/// the rules, the resulting particle, the number of reduction steps that led
/// to it and its size; and the sizes of the two particles that collided.
#[derive(Debug, Clone, PartialEq, Eq)]
pub struct LambdaCollisionOk {
    pub results: Vec<LambdaParticle>,
    pub reductions: Vec<usize>,
    pub sizes: Vec<usize>,
    /// The size of the left particle.
    pub left_size: usize,
    /// The size of the right particle.
    pub right_size: usize,
}

/// What one rule makes of a collision that succeeds.
pub ghost struct Product {
    pub term: Term,
    pub steps: nat,
    pub size: nat,
}

impl AlchemyCollider {
    /// The most reduction steps that one reaction may take.
    pub closed spec fn reduction_limit(&self) -> nat {
        self.rlimit as nat
    }

    /// The most nodes that a term may have while it is reduced.
    pub closed spec fn size_limit(&self) -> nat {
        self.slimit as nat
    }

    /// The reaction rules, in the order in which they are applied.
    pub closed spec fn rules(&self) -> Seq<Term> {
        self.reaction_rules@
    }

    /// Whether a result isomorphic to one of the two that collided is
    /// discarded.
    pub closed spec fn discards_copies(&self) -> bool {
        self.discard_copy_actions
    }

    /// Whether a result isomorphic to the identity function is discarded.
    pub closed spec fn discards_identity(&self) -> bool {
        self.discard_identity
    }

    /// Whether a result with a free variable is discarded.
    pub closed spec fn discards_free(&self) -> bool {
        self.discard_free_variable_expressions
    }

    /// Whether recursive terms are refused. The collider itself never looks
    /// at this setting.
    pub closed spec fn disallows_recursive(&self) -> bool {
        self.disallow_recursive
    }

    /// The collider has the limits and the discard policies of `cfg`.
    pub open spec fn configured_by(&self, cfg: &Reactor) -> bool {
        &&& self.reduction_limit() == cfg.reduction_cutoff
        &&& self.size_limit() == cfg.size_cutoff
        &&& self.discards_copies() == cfg.discard_copy_actions
        &&& self.discards_identity() == cfg.discard_identity
        &&& self.discards_free() == cfg.discard_free_variable_expressions
        &&& !self.disallows_recursive()
    }

    /// The term that a rule is reduced from: the rule applied to the left
    /// term, and that to the right term.
    pub open spec fn start(rule: Term, left: Term, right: Term) -> Term {
        applied(applied(rule, left), right)
    }

    /// What the discard policies make of a term that a rule's reduction
    /// settled at after `steps` steps.
    ///
    /// A reduction that used up its steps fails. Then the policies are asked
    /// in turn: for the identity, for a copy of `left` or `right`, for free
    /// variables. A term that passes is the rule's product.
    pub open spec fn verdict(&self, term: Term, steps: nat, left: Term, right: Term) -> Result<
        Product,
        LambdaCollisionError,
    > {
        if steps == self.reduction_limit() {
            Err(LambdaCollisionError::ExceedsReductionLimit)
        } else if self.discards_identity() && isomorphic(term, identity_term()) {
            Err(LambdaCollisionError::IsIdentity)
        } else if self.discards_copies() && (isomorphic(term, left) || isomorphic(term, right)) {
            Err(LambdaCollisionError::IsParent)
        } else if self.discards_free() && has_free_at(term, 0) {
            Err(LambdaCollisionError::HasFreeVariables)
        } else {
            Ok(Product { term, steps, size: term_size(term) })
        }
    }

    /// What one rule makes of the collision of `left` and `right`.
    ///
    /// The rule applied to both is reduced within the limits. A term that
    /// grows too large on the way fails the rule; a reduction that settles is
    /// handed to the discard policies.
    pub open spec fn rule_outcome(&self, rule: Term, left: Term, right: Term) -> Result<
        Product,
        LambdaCollisionError,
    > {
        match bounded_reduction(
            Self::start(rule, left, right),
            self.reduction_limit(),
            self.size_limit(),
        ) {
            Reduction::Oversized { .. } => Err(LambdaCollisionError::ExceedsDepthLimit),
            Reduction::Settled { term, steps } => self.verdict(term, steps, left, right),
        }
    }

    /// The product took fewer steps than the limit allows, is none of what
    /// the collider discards, and has the size of its term.
    pub open spec fn passes(&self, product: Product, left: Term, right: Term) -> bool {
        &&& product.steps < self.reduction_limit()
        &&& self.discards_identity() ==> !isomorphic(product.term, identity_term())
        &&& self.discards_copies() ==> !isomorphic(product.term, left) && !isomorphic(
            product.term,
            right,
        )
        &&& self.discards_free() ==> !has_free_at(product.term, 0)
        &&& product.size == term_size(product.term)
    }

    /// What the rules make of the collision of `left` and `right`: the
    /// product of every rule, in the order of the rules, or the error of the
    /// first rule that fails.
    pub open spec fn outcomes(&self, rules: Seq<Term>, left: Term, right: Term) -> Result<
        Seq<Product>,
        LambdaCollisionError,
    >
        decreases rules.len(),
    {
        if rules.len() == 0 {
            Ok(Seq::empty())
        } else {
            match self.outcomes(rules.drop_last(), left, right) {
                Err(e) => Err(e),
                Ok(products) => match self.rule_outcome(rules.last(), left, right) {
                    Err(e) => Err(e),
                    Ok(product) => Ok(products.push(product)),
                },
            }
        }
    }

    /// A first reduction step fits in a machine word on every term that the
    /// collision of `left` and `right` starts from.
    pub open spec fn fits(&self, left: Term, right: Term) -> bool {
        forall|k: int|
            0 <= k < self.rules().len() ==> step_fits(
                Self::start(#[trigger] self.rules()[k], left, right),
            )
    }

    /// `outcome` is what the collision of `left` and `right` yields: a residue
    /// that holds the product of every rule, each of which passed the
    /// policies, or the error of the first rule that failed.
    pub open spec fn yields(
        &self,
        left: Term,
        right: Term,
        outcome: Result<LambdaCollisionOk, LambdaCollisionError>,
    ) -> bool {
        match outcome {
            Ok(residue) => {
                &&& residue.well_formed()
                &&& self.outcomes(self.rules(), left, right) == Ok::<
                    Seq<Product>,
                    LambdaCollisionError,
                >(residue.detail())
                &&& residue.results@.len() == self.rules().len()
                &&& forall|i: int|
                    0 <= i < residue.results@.len() ==> self.passes(
                        #[trigger] residue.detail()[i],
                        left,
                        right,
                    )
                &&& residue.left_size == counted_size(left)
                &&& residue.right_size == counted_size(right)
            },
            Err(e) => self.outcomes(self.rules(), left, right) == Err::<
                Seq<Product>,
                LambdaCollisionError,
            >(e),
        }
    }

    /// A collider with the limits and policies of `cfg` and with these rules.
    pub fn with_rules(cfg: &Reactor, rules: Vec<Term>) -> (c: Self)
        ensures
            c.configured_by(cfg),
            c.rules() == rules@,
    {
        AlchemyCollider {
            rlimit: cfg.reduction_cutoff,
            slimit: cfg.size_cutoff,
            disallow_recursive: false,
            reaction_rules: rules,
            discard_copy_actions: cfg.discard_copy_actions,
            discard_identity: cfg.discard_identity,
            discard_free_variable_expressions: cfg.discard_free_variable_expressions,
        }
    }

    /// A collider with the settings of `cfg`, whose rules are all terms.
    pub fn from_config(cfg: &Reactor) -> (c: Self)
        requires
            all_parse(cfg.rules@),
        ensures
            c.configured_by(cfg),
            c.rules() == parsed(cfg.rules@),
    {
        match parse_expressions(&cfg.rules) {
            Ok(rules) => Self::with_rules(cfg, rules),
            Err(_) => unreached(),
        }
    }

    /// A collider with the settings of `cfg`, or the position of the first
    /// rule that is not a term.
    pub fn try_from_config(cfg: &Reactor) -> (r: Result<Self, ParseFailure>)
        ensures
            match r {
                Ok(c) => all_parse(cfg.rules@) && c.configured_by(cfg) && c.rules() == parsed(
                    cfg.rules@,
                ),
                Err(failure) => {
                    &&& failure.index < cfg.rules@.len()
                    &&& failure.index == first_unparsable(cfg.rules@, 0)
                    &&& classic_parse(cfg.rules@[failure.index as int]@) is None
                },
            },
    {
        match parse_expressions(&cfg.rules) {
            Ok(_) => Ok(Self::from_config(cfg)),
            Err(failure) => Err(failure),
        }
    }

    /// Asks the discard policies about a term that a rule's reduction settled
    /// at after `steps` steps, where `left` and `right` collided. A term that
    /// passes is answered with its size.
    pub fn judge(&self, term: &Term, steps: usize, left: &Term, right: &Term) -> (r: Result<
        usize,
        LambdaCollisionError,
    >)
        ensures
            match self.verdict(*term, steps as nat, *left, *right) {
                Ok(_) => r == Ok::<usize, LambdaCollisionError>(counted_size(*term) as usize),
                Err(e) => r == Err::<usize, LambdaCollisionError>(e),
            },
    {
        if steps == self.rlimit {
            return Err(LambdaCollisionError::ExceedsReductionLimit);
        }
        let identity = lambda_calculus::abs(Term::Var(1));
        if terms_isomorphic(term, &identity) && self.discard_identity {
            return Err(LambdaCollisionError::IsIdentity);
        }
        let is_copy_action = terms_isomorphic(term, left) || terms_isomorphic(term, right);
        if is_copy_action && self.discard_copy_actions {
            return Err(LambdaCollisionError::IsParent);
        }
        if has_free_variables(term) && self.discard_free_variable_expressions {
            return Err(LambdaCollisionError::HasFreeVariables);
        }
        Ok(size(term))
    }

    /// Collides `left` and `right` if the collider admits them, and returns
    /// `None` if it does not.
    pub fn try_collide(&self, left: LambdaParticle, right: LambdaParticle) -> (r: Option<
        Result<LambdaCollisionOk, LambdaCollisionError>,
    >)
        ensures
            r is None <==> !self.fits(left.expr, right.expr),
            r matches Some(outcome) ==> self.yields(left.expr, right.expr, outcome),
    {
        if !self.can_collide(&left, &right) {
            return None;
        }
        Some(self.collide(left, right))
    }

    /// Every product of a collision that succeeds passed the policies: with
    /// the identity discarded none is isomorphic to the identity, with copies
    /// discarded none to `left` or `right`, with free variables discarded
    /// none has one, and none took as many steps as the limit.
    pub proof fn lemma_products_pass(&self, rules: Seq<Term>, left: Term, right: Term)
        ensures
            self.outcomes(rules, left, right) matches Ok(products) ==> {
                &&& products.len() == rules.len()
                &&& forall|i: int|
                    0 <= i < products.len() ==> self.passes(#[trigger] products[i], left, right)
            },
        decreases rules.len(),
    {
        if rules.len() > 0 {
            self.lemma_products_pass(rules.drop_last(), left, right);
            lemma_steps_within_limit(
                Self::start(rules.last(), left, right),
                self.reduction_limit(),
                self.size_limit(),
            );
        }
    }

    /// Once the rules up to some point have failed, further rules change
    /// nothing.
    pub proof fn lemma_first_error_stands(&self, rules: Seq<Term>, left: Term, right: Term, n: int)
        requires
            0 <= n <= rules.len(),
            self.outcomes(rules.take(n), left, right) is Err,
        ensures
            self.outcomes(rules, left, right) == self.outcomes(rules.take(n), left, right),
        decreases rules.len(),
    {
        if n == rules.len() {
            assert(rules.take(n) =~= rules);
        } else {
            assert(rules.drop_last().take(n) =~= rules.take(n));
            self.lemma_first_error_stands(rules.drop_last(), left, right, n);
        }
    }

    /// One rule more adds its product to those of the rules before it, or
    /// fails the collision.
    pub proof fn lemma_next_rule(&self, rules: Seq<Term>, left: Term, right: Term, n: int)
        requires
            0 <= n < rules.len(),
        ensures
            self.outcomes(rules.take(n + 1), left, right) == match self.outcomes(
                rules.take(n),
                left,
                right,
            ) {
                Err(e) => Err(e),
                Ok(products) => match self.rule_outcome(rules[n], left, right) {
                    Err(e) => Err(e),
                    Ok(product) => Ok(products.push(product)),
                },
            },
    {
        assert(rules.take(n + 1).drop_last() =~= rules.take(n));
    }

    /// With the identity discarded, a rule whose reduction settles at the
    /// identity within its steps fails the collision with `IsIdentity`,
    /// provided the rules before it succeed.
    pub proof fn lemma_identity_is_discarded(&self, left: Term, right: Term, k: int)
        requires
            self.discards_identity(),
            0 <= k < self.rules().len(),
            self.outcomes(self.rules().take(k), left, right) is Ok,
            bounded_reduction(
                Self::start(self.rules()[k], left, right),
                self.reduction_limit(),
                self.size_limit(),
            ) matches Reduction::Settled { term, steps } && steps < self.reduction_limit()
                && isomorphic(term, identity_term()),
        ensures
            self.outcomes(self.rules(), left, right) == Err::<
                Seq<Product>,
                LambdaCollisionError,
            >(LambdaCollisionError::IsIdentity),
    {
        self.lemma_next_rule(self.rules(), left, right, k);
        self.lemma_first_error_stands(self.rules(), left, right, k + 1);
    }

    /// With copies discarded, a rule whose reduction settles at its left or
    /// right operand within its steps fails the collision with `IsParent`,
    /// provided the rules before it succeed and the operand is not an
    /// identity that is discarded already.
    pub proof fn lemma_copy_is_discarded(&self, left: Term, right: Term, k: int)
        requires
            self.discards_copies(),
            0 <= k < self.rules().len(),
            self.outcomes(self.rules().take(k), left, right) is Ok,
            bounded_reduction(
                Self::start(self.rules()[k], left, right),
                self.reduction_limit(),
                self.size_limit(),
            ) matches Reduction::Settled { term, steps } && steps < self.reduction_limit() && (
            isomorphic(term, left) || isomorphic(term, right)) && !(self.discards_identity()
                && isomorphic(term, identity_term())),
        ensures
            self.outcomes(self.rules(), left, right) == Err::<
                Seq<Product>,
                LambdaCollisionError,
            >(LambdaCollisionError::IsParent),
    {
        self.lemma_next_rule(self.rules(), left, right, k);
        self.lemma_first_error_stands(self.rules(), left, right, k + 1);
    }

    /// A rule whose reduction has used up its steps fails the collision with
    /// `ExceedsReductionLimit`, whether or not the last step finished the
    /// reduction, provided the rules before it succeed.
    pub proof fn lemma_limit_reached_is_refused(&self, left: Term, right: Term, k: int)
        requires
            0 <= k < self.rules().len(),
            self.outcomes(self.rules().take(k), left, right) is Ok,
            bounded_reduction(
                Self::start(self.rules()[k], left, right),
                self.reduction_limit(),
                self.size_limit(),
            ) matches Reduction::Settled { steps, .. } && steps == self.reduction_limit(),
        ensures
            self.outcomes(self.rules(), left, right) == Err::<
                Seq<Product>,
                LambdaCollisionError,
            >(LambdaCollisionError::ExceedsReductionLimit),
    {
        self.lemma_next_rule(self.rules(), left, right, k);
        self.lemma_first_error_stands(self.rules(), left, right, k + 1);
    }

    /// A rule whose reduction passes, within its steps, through a term larger
    /// than the size limit fails the collision with `ExceedsDepthLimit`,
    /// provided the rules before it succeed.
    pub proof fn lemma_oversized_is_refused(&self, left: Term, right: Term, k: int, step: nat)
        requires
            0 <= k < self.rules().len(),
            self.outcomes(self.rules().take(k), left, right) is Ok,
            1 <= step <= self.reduction_limit(),
            nth_reduct(Self::start(self.rules()[k], left, right), step) matches Some(term)
                && term_size(term) > self.size_limit(),
        ensures
            self.outcomes(self.rules(), left, right) == Err::<
                Seq<Product>,
                LambdaCollisionError,
            >(LambdaCollisionError::ExceedsDepthLimit),
    {
        lemma_oversized_step_ends_reduction(
            Self::start(self.rules()[k], left, right),
            self.reduction_limit(),
            self.size_limit(),
            step,
        );
        self.lemma_next_rule(self.rules(), left, right, k);
        self.lemma_first_error_stands(self.rules(), left, right, k + 1);
    }

    /// A product never took more steps than the limit allows, and as many as
    /// the limit only fail.
    pub proof fn lemma_product_steps(&self, rule: Term, left: Term, right: Term)
        ensures
            self.rule_outcome(rule, left, right) matches Ok(product) ==> product.steps
                < self.reduction_limit(),
    {
        lemma_steps_within_limit(
            Self::start(rule, left, right),
            self.reduction_limit(),
            self.size_limit(),
        );
    }
}

impl LambdaCollisionOk {
    /// The product of each rule, in the order of the rules.
    pub open spec fn detail(&self) -> Seq<Product> {
        Seq::new(
            self.results@.len(),
            |i: int|
                Product {
                    term: self.results@[i].expr,
                    steps: self.reductions@[i] as nat,
                    size: self.sizes@[i] as nat,
                },
        )
    }

    /// The three lists have one entry for each rule.
    pub open spec fn well_formed(&self) -> bool {
        self.results@.len() == self.reductions@.len() == self.sizes@.len()
    }
}

impl Residue<LambdaParticle> for LambdaCollisionOk {
    open spec fn products(&self) -> Seq<LambdaParticle> {
        self.results@
    }

    fn particles(&self) -> (r: Vec<LambdaParticle>) {
        clone_particles(&self.results)
    }

    fn count(&self) -> (n: usize) {
        self.results.len()
    }
}

/// The particles of some products.
pub open spec fn particles_of(products: Seq<Product>) -> Seq<LambdaParticle> {
    Seq::new(products.len(), |i: int| LambdaParticle { expr: products[i].term })
}

impl Collider<LambdaParticle, LambdaCollisionOk, LambdaCollisionError> for AlchemyCollider {
    open spec fn admits(&self, left: LambdaParticle, right: LambdaParticle) -> bool {
        self.fits(left.expr, right.expr)
    }

    open spec fn reaction(&self, left: LambdaParticle, right: LambdaParticle) -> Result<
        Seq<LambdaParticle>,
        LambdaCollisionError,
    > {
        match self.outcomes(self.rules(), left.expr, right.expr) {
            Ok(products) => Ok(particles_of(products)),
            Err(e) => Err(e),
        }
    }

    fn can_collide(&self, left: &LambdaParticle, right: &LambdaParticle) -> (b: bool) {
        let mut k: usize = 0;
        while k < self.reaction_rules.len()
            invariant
                k <= self.reaction_rules.len(),
                forall|j: int|
                    0 <= j < k ==> step_fits(
                        Self::start(#[trigger] self.rules()[j], left.expr, right.expr),
                    ),
            decreases self.reaction_rules.len() - k,
        {
            let start = lambda_calculus::app(
                lambda_calculus::app(self.reaction_rules[k].clone(), left.expr.clone()),
                right.expr.clone(),
            );
            if !can_step(&start) {
                return false;
            }
            k += 1;
        }
        true
    }

    /// Applies each rule in turn to `left` and `right`, reduces the result
    /// within the limits, and asks the discard policies. The first rule that
    /// fails gives its error to the whole collision.
    fn collide(&self, left: LambdaParticle, right: LambdaParticle) -> (r: Result<
        LambdaCollisionOk,
        LambdaCollisionError,
    >)
        ensures
            self.yields(left.expr, right.expr, r),
    {
        let lt = left.expr;
        let rt = right.expr;
        let mut results: Vec<LambdaParticle> = Vec::new();
        let mut reductions: Vec<usize> = Vec::new();
        let mut sizes: Vec<usize> = Vec::new();
        let ghost mut products: Seq<Product> = Seq::empty();
        let mut k: usize = 0;
        while k < self.reaction_rules.len()
            invariant
                k <= self.reaction_rules.len(),
                lt == left.expr,
                rt == right.expr,
                self.fits(lt, rt),
                results@.len() == k,
                reductions@.len() == k,
                sizes@.len() == k,
                products.len() == k,
                forall|i: int|
                    0 <= i < k ==> #[trigger] products[i] == (Product {
                        term: results@[i].expr,
                        steps: reductions@[i] as nat,
                        size: sizes@[i] as nat,
                    }),
                self.outcomes(self.rules().take(k as int), lt, rt) == Ok::<
                    Seq<Product>,
                    LambdaCollisionError,
                >(products),
            decreases self.reaction_rules.len() - k,
        {
            proof {
                self.lemma_next_rule(self.rules(), lt, rt, k as int);
                self.lemma_product_steps(self.rules()[k as int], lt, rt);
                assert(step_fits(Self::start(self.rules()[k as int], lt, rt)));
            }
            let mut expr = lambda_calculus::app(
                lambda_calculus::app(self.reaction_rules[k].clone(), lt.clone()),
                rt.clone(),
            );
            let ghost start = expr;
            let n = match reduce_with_limit(&mut expr, self.rlimit, self.slimit) {
                Ok(n) => n,
                Err(e) => {
                    proof {
                        self.lemma_first_error_stands(self.rules(), lt, rt, k + 1);
                    }
                    return Err(e);
                },
            };
            let nodes = match self.judge(&expr, n, &lt, &rt) {
                Ok(nodes) => nodes,
                Err(e) => {
                    proof {
                        self.lemma_first_error_stands(self.rules(), lt, rt, k + 1);
                    }
                    return Err(e);
                },
            };
            proof {
                lemma_settled_term(start, self.reduction_limit(), self.size_limit());
                products = products.push(Product { term: expr, steps: n as nat, size: nodes as nat });
            }
            results.push(LambdaParticle { expr });
            reductions.push(n);
            sizes.push(nodes);
            k += 1;
        }
        assert(self.rules().take(k as int) =~= self.rules());
        let residue = LambdaCollisionOk {
            results,
            reductions,
            sizes,
            left_size: size(&lt),
            right_size: size(&rt),
        };
        proof {
            assert(residue.detail() =~= products);
            assert(particles_of(products) =~= residue.results@);
            self.lemma_products_pass(self.rules(), lt, rt);
        }
        Ok(residue)
    }
}

} // verus!
