//! The population engine: particles that collide in pairs, a collider that
//! decides what a collision yields, and the soup that holds the population
//! and runs the collisions.

use core::marker::PhantomData;
use rand::Rng;
use rand::SeedableRng;
use rand_chacha::ChaCha8Rng;
use vstd::prelude::*;

verus! {

/// Something that can react with another of its kind.
pub trait Particle: Sized + Clone {
    /// The particle that stands for `self` applied to `other`.
    spec fn composed(&self, other: &Self) -> Self;

    /// `self` and `other` are the same particle as far as the population is
    /// concerned.
    spec fn isomorphic_to(&self, other: &Self) -> bool;

    /// Builds the composition of `self` and `other`; neither is changed.
    fn compose(&self, other: &Self) -> (r: Self)
        ensures
            r == self.composed(other),
    ;

    /// Decides whether `self` and `other` are isomorphic.
    fn is_isomorphic_to(&self, other: &Self) -> (b: bool)
        ensures
            b == self.isomorphic_to(other),
    ;

    /// A clone of a particle is that particle.
    proof fn lemma_clone_is_same(a: &Self, b: &Self)
        requires
            cloned(*a, *b),
        ensures
            *a == *b,
    ;

    /// Isomorphism is an equivalence relation.
    proof fn lemma_isomorphism_is_equivalence(a: &Self, b: &Self, c: &Self)
        ensures
            a.isomorphic_to(a),
            a.isomorphic_to(b) == b.isomorphic_to(a),
            a.isomorphic_to(b) && b.isomorphic_to(c) ==> a.isomorphic_to(c),
    ;
}

/// What a successful collision leaves behind.
pub trait Residue<P: Particle> {
    /// The particles that the collision produced, in the collider's order.
    spec fn products(&self) -> Seq<P>;

    /// The produced particles.
    fn particles(&self) -> (r: Vec<P>)
        ensures
            r@ == self.products(),
    ;

    /// How many particles the collision produced.
    fn count(&self) -> (n: usize)
        ensures
            n == self.products().len(),
    ;
}

/// A reaction strategy: what two particles yield when they collide.
pub trait Collider<P: Particle, T: Residue<P>, E> {
    /// The collider can work on this pair within the limits of the machine.
    spec fn admits(&self, left: P, right: P) -> bool;

    /// What the collision of `left` and `right` yields: the particles
    /// produced, or the reason why there are none.
    spec fn reaction(&self, left: P, right: P) -> Result<Seq<P>, E>;

    /// Decides whether `collide` can be called on this pair.
    fn can_collide(&self, left: &P, right: &P) -> (b: bool)
        ensures
            b == self.admits(*left, *right),
    ;

    /// Collides `left` and `right`.
    fn collide(&self, left: P, right: P) -> (r: Result<T, E>)
        requires
            self.admits(left, right),
        ensures
            match r {
                Ok(t) => self.reaction(left, right) == Ok::<Seq<P>, E>(t.products()),
                Err(e) => self.reaction(left, right) == Err::<Seq<P>, E>(e),
            },
    ;
}

/// How one round of the simulation went.
pub enum Round<T, E> {
    /// The population held fewer than two particles; nothing collided.
    Skipped,
    /// The collider did not admit the pair that was drawn.
    Refused,
    /// The collision failed for this reason.
    Failed(E),
    /// The collision succeeded and left this residue.
    Reacted(T),
}

/// A population without the particle at `k`: the last particle takes its
/// place.
pub open spec fn swap_removed<P>(population: Seq<P>, k: int) -> Seq<P> {
    population.update(k, population.last()).drop_last()
}

/// Each draw is an index into the population as the draws before it left it.
pub open spec fn draws_in_range(len: nat, draws: Seq<int>) -> bool {
    forall|k: int| 0 <= k < draws.len() ==> 0 <= #[trigger] draws[k] < len - k
}

/// The population after the particles at `draws` have been swap-removed, one
/// after the other.
pub open spec fn evicted<P>(population: Seq<P>, draws: Seq<int>) -> Seq<P>
    decreases draws.len(),
{
    if draws.len() == 0 {
        population
    } else {
        swap_removed(evicted(population, draws.drop_last()), draws.last())
    }
}

/// The first `n` items of `source` repeated without end.
pub open spec fn cycled<P>(source: Seq<P>, n: nat) -> Seq<P> {
    Seq::new(n, |i: int| source[i % (source.len() as int)])
}

/// The population after the particles at `i` and `j` have collided: as it
/// was, if the collider does not admit the pair or the collision fails; else
/// with the products appended and, if parents are discarded, without the two
/// that collided.
pub open spec fn population_after_collision<P: Particle, C: Collider<P, T, E>, T: Residue<P>, E>(
    population: Seq<P>,
    collider: C,
    discard_parents: bool,
    i: int,
    j: int,
) -> Seq<P> {
    if !collider.admits(population[i], population[j]) {
        population
    } else {
        match collider.reaction(population[i], population[j]) {
            Err(_) => population,
            Ok(products) => {
                let grown = population + products;
                if discard_parents {
                    if i > j {
                        grown.remove(i).remove(j)
                    } else {
                        grown.remove(j).remove(i)
                    }
                } else {
                    grown
                }
            },
        }
    }
}

/// One round leads from `before` to `after`: with fewer than two particles
/// nothing changes, otherwise two different particles collide.
pub open spec fn round_leads<P: Particle, C: Collider<P, T, E>, T: Residue<P>, E>(
    before: Seq<P>,
    after: Seq<P>,
    collider: C,
    discard_parents: bool,
) -> bool {
    if before.len() < 2 {
        after == before
    } else {
        exists|i: int, j: int|
            0 <= i < before.len() && 0 <= j < before.len() && i != j && after
                == #[trigger] population_after_collision::<P, C, T, E>(
                before,
                collider,
                discard_parents,
                i,
                j,
            )
    }
}

/// `states` lists the populations of a run, each one round after the one
/// before it.
pub open spec fn run_of_rounds<P: Particle, C: Collider<P, T, E>, T: Residue<P>, E>(
    states: Seq<Seq<P>>,
    collider: C,
    discard_parents: bool,
) -> bool {
    forall|k: int|
        0 <= k < states.len() - 1 ==> round_leads::<P, C, T, E>(
            #[trigger] states[k],
            states[k + 1],
            collider,
            discard_parents,
        )
}

/// `round` reports what the collision of the particles at `i` and `j` of
/// `before` yields.
pub open spec fn round_reports<P: Particle, C: Collider<P, T, E>, T: Residue<P>, E>(
    before: Seq<P>,
    collider: C,
    i: int,
    j: int,
    round: Round<T, E>,
) -> bool {
    if !collider.admits(before[i], before[j]) {
        round is Refused
    } else {
        match collider.reaction(before[i], before[j]) {
            Err(e) => round == Round::<T, E>::Failed(e),
            Ok(products) => round matches Round::Reacted(t) && t.products() == products,
        }
    }
}

/// How many particles of the population are isomorphic to `item`.
pub open spec fn isomorphic_count<P: Particle>(population: Seq<P>, item: P) -> nat {
    population.filter(|p: P| p.isomorphic_to(&item)).len()
}

/// One particle more adds one to the count if it is isomorphic to the item,
/// and nothing otherwise.
pub proof fn lemma_isomorphic_count_push<P: Particle>(population: Seq<P>, p: P, item: P)
    ensures
        isomorphic_count(population.push(p), item) == isomorphic_count(population, item) + if p.isomorphic_to(
            &item,
        ) {
            1nat
        } else {
            0nat
        },
{
    reveal(Seq::filter);
    assert(population.push(p).drop_last() =~= population);
}

/// The snapshots that a run leaves when one is taken after every
/// `interval`-th round: none with an interval of 0.
pub open spec fn snapshots_of<P>(states: Seq<Seq<P>>, interval: nat) -> Seq<Seq<P>> {
    if interval == 0 {
        Seq::empty()
    } else {
        Seq::new(((states.len() - 1) / (interval as int)) as nat, |k: int| states[(k + 1) * interval])
    }
}

/// No particle before the one at `i` is isomorphic to it: it is the first of
/// its class.
pub open spec fn first_of_class<P: Particle>(population: Seq<P>, i: int) -> bool {
    forall|j: int| 0 <= j < i ==> !(#[trigger] population[j]).isomorphic_to(&population[i])
}

/// The sizes of the isomorphism classes met among the first `upto` particles,
/// each class counted over the whole population, in the order in which the
/// classes first appear.
pub open spec fn class_sizes_upto<P: Particle>(population: Seq<P>, upto: nat) -> Seq<nat>
    decreases upto,
{
    if upto == 0 {
        Seq::empty()
    } else {
        let before = class_sizes_upto(population, (upto - 1) as nat);
        if first_of_class(population, upto - 1) {
            before.push(isomorphic_count(population, population[upto - 1]))
        } else {
            before
        }
    }
}

/// The sizes of the isomorphism classes of the population, in the order in
/// which the classes first appear.
pub open spec fn class_sizes<P: Particle>(population: Seq<P>) -> Seq<nat> {
    class_sizes_upto(population, population.len())
}

/// The pseudorandom generator of the `rand_chacha` crate, ChaCha with eight
/// rounds. Its state is not looked into.
#[verifier::external_type_specification]
#[verifier::external_body]
pub struct ExChaCha8Rng(ChaCha8Rng);

/// The generator that a seed gives: its whole stream is determined by the
/// 32 bytes of the seed.
pub uninterp spec fn seeded_stream(seed: Seq<u8>) -> ChaCha8Rng;

/// `ChaCha8Rng::from_seed`: the generator of the seed, which depends on the
/// seed alone.
#[verifier::external_body]
fn seeded_generator(seed: [u8; 32]) -> (rng: ChaCha8Rng)
    ensures
        rng == seeded_stream(seed@),
{
    ChaCha8Rng::from_seed(seed)
}

/// `Rng::gen_range` on the range from 0 up to but not including `bound`: some
/// number of that range. It panics on an empty range, so `bound` is positive.
#[verifier::external_body]
fn draw_below(rng: &mut ChaCha8Rng, bound: usize) -> (k: usize)
    requires
        bound > 0,
    ensures
        k < bound,
{
    rng.gen_range(0..bound)
}

/// A population of particles, the collider through which they react, and the
/// generator that picks who collides.
pub struct Soup<P, C, T, E> {
    expressions: Vec<P>,
    collider: C,
    maintain_constant_population_size: bool,
    discard_parents: bool,
    rng: ChaCha8Rng,
    n_collisions: usize,
    t: PhantomData<T>,
    e: PhantomData<E>,
}

impl<P: Particle, C: Collider<P, T, E>, T: Residue<P>, E> Soup<P, C, T, E> {
    /// The particles of the population, by index.
    pub closed spec fn population(&self) -> Seq<P> {
        self.expressions@
    }

    /// The collider.
    pub closed spec fn collider(&self) -> C {
        self.collider
    }

    /// The generator that picks who collides and who is evicted, in the
    /// state it is in.
    pub closed spec fn generator(&self) -> ChaCha8Rng {
        self.rng
    }

    /// How many rounds have been played.
    pub closed spec fn collisions(&self) -> nat {
        self.n_collisions as nat
    }

    /// Whether a perturbation evicts as many particles as it adds.
    pub closed spec fn maintains_size(&self) -> bool {
        self.maintain_constant_population_size
    }

    /// Whether a successful collision removes the two that collided.
    pub closed spec fn discards_parents(&self) -> bool {
        self.discard_parents
    }

    /// The soup differs from `other` at most in its population, in its round
    /// count and in the state of its generator.
    pub open spec fn same_setup(&self, other: &Self) -> bool {
        &&& self.collider() == other.collider()
        &&& self.maintains_size() == other.maintains_size()
        &&& self.discards_parents() == other.discards_parents()
    }

    /// An empty soup around `collider`, with a generator seeded by `seed`.
    pub fn with_collider(
        collider: C,
        seed: [u8; 32],
        maintain_constant_population_size: bool,
        discard_parents: bool,
    ) -> (soup: Self)
        ensures
            soup.population() == Seq::<P>::empty(),
            soup.collider() == collider,
            soup.generator() == seeded_stream(seed@),
            soup.collisions() == 0,
            soup.maintains_size() == maintain_constant_population_size,
            soup.discards_parents() == discard_parents,
    {
        Soup {
            expressions: Vec::new(),
            collider,
            maintain_constant_population_size,
            discard_parents,
            rng: seeded_generator(seed),
            n_collisions: 0,
            t: PhantomData,
            e: PhantomData,
        }
    }

    /// The number of particles.
    pub fn len(&self) -> (n: usize)
        ensures
            n == self.population().len(),
    {
        self.expressions.len()
    }

    /// The number of rounds played so far.
    pub fn n_collisions(&self) -> (n: usize)
        ensures
            n == self.collisions(),
    {
        self.n_collisions
    }

    /// The particles of the population, in place.
    pub fn particles(&self) -> (r: &Vec<P>)
        ensures
            r@ == self.population(),
    {
        &self.expressions
    }

    /// Appends the particles to the population, in their order. Nothing is
    /// drawn for it.
    pub fn add_particles(&mut self, particles: Vec<P>)
        ensures
            final(self).population() == old(self).population() + particles@,
            final(self).collisions() == old(self).collisions(),
            final(self).same_setup(old(self)),
            final(self).generator() == old(self).generator(),
    {
        let mut particles = particles;
        self.expressions.append(&mut particles);
    }

    /// Removes the particle at `k`; the last particle takes its place. Nothing
    /// is drawn for it.
    pub fn evict_at(&mut self, k: usize)
        requires
            k < old(self).population().len(),
        ensures
            final(self).population() == swap_removed(old(self).population(), k as int),
            final(self).collisions() == old(self).collisions(),
            final(self).same_setup(old(self)),
            final(self).generator() == old(self).generator(),
    {
        self.expressions.swap_remove(k);
    }

    /// Removes `n` particles, each drawn at random from what the draws before
    /// it have left.
    pub fn evict_random(&mut self, n: usize)
        requires
            n <= old(self).population().len(),
        ensures
            exists|draws: Seq<int>|
                draws.len() == n && draws_in_range(old(self).population().len(), draws)
                    && final(self).population() == #[trigger] evicted(
                    old(self).population(),
                    draws,
                ),
            final(self).population().len() == old(self).population().len() - n,
            final(self).collisions() == old(self).collisions(),
            final(self).same_setup(old(self)),
            n == 0 ==> final(self).generator() == old(self).generator(),
    {
        let ghost mut draws: Seq<int> = Seq::empty();
        let mut done: usize = 0;
        while done < n
            invariant
                done <= n,
                n <= old(self).population().len(),
                draws.len() == done,
                draws_in_range(old(self).population().len(), draws),
                self.population() == evicted(old(self).population(), draws),
                self.population().len() == old(self).population().len() - done,
                self.collisions() == old(self).collisions(),
                self.same_setup(old(self)),
                done == 0 ==> self.generator() == old(self).generator(),
            decreases n - done,
        {
            let k = draw_below(&mut self.rng, self.expressions.len());
            self.expressions.swap_remove(k);
            proof {
                let longer = draws.push(k as int);
                assert(longer.drop_last() == draws);
                draws = longer;
            }
            done += 1;
        }
    }

    /// Replaces part of the population, or adds to it.
    ///
    /// Where the soup keeps its size, `n` particles are first evicted, each
    /// drawn at random from what the draws before it have left. Then `n`
    /// particles are appended: those of `source` in their order, starting
    /// over when `source` runs out.
    pub fn perturb(&mut self, n: usize, source: &Vec<P>)
        requires
            n > 0 ==> source.len() > 0,
            old(self).maintains_size() ==> n <= old(self).population().len(),
        ensures
            exists|draws: Seq<int>|
                {
                    &&& draws.len() == if old(self).maintains_size() {
                        n as nat
                    } else {
                        0nat
                    }
                    &&& draws_in_range(old(self).population().len(), draws)
                    &&& final(self).population() == #[trigger] evicted(
                        old(self).population(),
                        draws,
                    ) + cycled(source@, n as nat)
                },
            final(self).population().len() == old(self).population().len() + if old(
                self,
            ).maintains_size() {
                0int
            } else {
                n as int
            },
            final(self).collisions() == old(self).collisions(),
            final(self).same_setup(old(self)),
            !old(self).maintains_size() || n == 0 ==> final(self).generator() == old(
                self,
            ).generator(),
    {
        let ghost mut draws: Seq<int> = Seq::empty();
        if self.maintain_constant_population_size {
            self.evict_random(n);
            proof {
                draws =
                choose|d: Seq<int>|
                    d.len() == n && draws_in_range(old(self).population().len(), d)
                        && self.population() == #[trigger] evicted(old(self).population(), d);
            }
        }
        let ghost kept = self.population();
        let ghost source_of_draws = self.generator();
        let mut added: usize = 0;
        assert(self.population() =~= kept + cycled(source@, 0));
        while added < n
            invariant
                added <= n,
                self.generator() == source_of_draws,
                n > 0 ==> source.len() > 0,
                kept == evicted(old(self).population(), draws),
                self.population() == kept + cycled(source@, added as nat),
                self.collisions() == old(self).collisions(),
                self.same_setup(old(self)),
            decreases n - added,
        {
            let particle = source[added % source.len()].clone();
            proof {
                P::lemma_clone_is_same(&source[(added % source.len()) as int], &particle);
            }
            self.expressions.push(particle);
            added += 1;
            assert(self.population() =~= kept + cycled(source@, added as nat));
        }
    }

    /// How many particles of the population are isomorphic to `item`.
    pub fn count_isomorphic(&self, item: &P) -> (n: usize)
        ensures
            n == isomorphic_count(self.population(), *item),
    {
        count_isomorphic_in(&self.expressions, item)
    }

    /// The sizes of the isomorphism classes of the population, in the order
    /// in which the classes first appear.
    pub fn class_sizes(&self) -> (sizes: Vec<usize>)
        ensures
            sizes@.map_values(|size: usize| size as nat) == class_sizes(self.population()),
    {
        class_sizes_of(&self.expressions)
    }

    /// Collides the particles at `i` and `j`, and counts the round. Nothing is
    /// drawn for it.
    ///
    /// If the collider does not admit the pair, or the collision fails, the
    /// population stays as it is. If it succeeds, the products are appended;
    /// where parents are discarded, the two that collided are then removed,
    /// the one at the higher index first.
    pub fn react_at(&mut self, i: usize, j: usize) -> (round: Round<T, E>)
        requires
            i < old(self).population().len(),
            j < old(self).population().len(),
            i != j,
            old(self).collisions() < usize::MAX,
        ensures
            final(self).population() == population_after_collision::<P, C, T, E>(
                old(self).population(),
                old(self).collider(),
                old(self).discards_parents(),
                i as int,
                j as int,
            ),
            round_reports::<P, C, T, E>(
                old(self).population(),
                old(self).collider(),
                i as int,
                j as int,
                round,
            ),
            final(self).collisions() == old(self).collisions() + 1,
            final(self).same_setup(old(self)),
            final(self).generator() == old(self).generator(),
    {
        self.n_collisions += 1;
        let left = self.expressions[i].clone();
        let right = self.expressions[j].clone();
        proof {
            P::lemma_clone_is_same(&self.expressions[i as int], &left);
            P::lemma_clone_is_same(&self.expressions[j as int], &right);
        }
        if !self.collider.can_collide(&left, &right) {
            return Round::Refused;
        }
        match self.collider.collide(left, right) {
            Ok(residue) => {
                let mut products = residue.particles();
                self.expressions.append(&mut products);
                if self.discard_parents {
                    if i > j {
                        self.expressions.remove(i);
                        self.expressions.remove(j);
                    } else {
                        self.expressions.remove(j);
                        self.expressions.remove(i);
                    }
                }
                Round::Reacted(residue)
            },
            Err(e) => Round::Failed(e),
        }
    }

    /// Plays one round: draws two different particles at random and collides
    /// them. With fewer than two particles the round is counted and nothing
    /// else happens.
    pub fn collision_round(&mut self) -> (round: Round<T, E>)
        requires
            old(self).collisions() < usize::MAX,
        ensures
            if old(self).population().len() < 2 {
                round is Skipped && final(self).population() == old(self).population()
            } else {
                exists|i: int, j: int|
                    {
                        &&& 0 <= i < old(self).population().len()
                        &&& 0 <= j < old(self).population().len()
                        &&& i != j
                        &&& final(self).population() == #[trigger] population_after_collision::<
                            P,
                            C,
                            T,
                            E,
                        >(
                            old(self).population(),
                            old(self).collider(),
                            old(self).discards_parents(),
                            i,
                            j,
                        )
                        &&& round_reports::<P, C, T, E>(
                            old(self).population(),
                            old(self).collider(),
                            i,
                            j,
                            round,
                        )
                    }
            },
            round_leads::<P, C, T, E>(
                old(self).population(),
                final(self).population(),
                old(self).collider(),
                old(self).discards_parents(),
            ),
            final(self).collisions() == old(self).collisions() + 1,
            final(self).same_setup(old(self)),
            old(self).population().len() < 2 ==> final(self).generator() == old(self).generator(),
    {
        let n = self.expressions.len();
        if n < 2 {
            self.n_collisions += 1;
            return Round::Skipped;
        }
        let i = draw_below(&mut self.rng, n);
        let other = draw_below(&mut self.rng, n - 1);
        let j = if other >= i {
            other + 1
        } else {
            other
        };
        let round = self.react_at(i, j);
        assert(self.population() == population_after_collision::<P, C, T, E>(
            old(self).population(),
            old(self).collider(),
            old(self).discards_parents(),
            i as int,
            j as int,
        ));
        round
    }

    /// Plays `run_limit` rounds, one after the other.
    pub fn simulate_for(&mut self, run_limit: usize)
        requires
            old(self).collisions() + run_limit <= usize::MAX,
        ensures
            exists|states: Seq<Seq<P>>|
                {
                    &&& states.len() == run_limit + 1
                    &&& states[0] == old(self).population()
                    &&& states[run_limit as int] == final(self).population()
                    &&& #[trigger] run_of_rounds::<P, C, T, E>(
                        states,
                        old(self).collider(),
                        old(self).discards_parents(),
                    )
                },
            final(self).collisions() == old(self).collisions() + run_limit,
            final(self).same_setup(old(self)),
            run_limit == 0 || old(self).population().len() < 2 ==> final(self).generator() == old(
                self,
            ).generator(),
    {
        let ghost mut states: Seq<Seq<P>> = seq![self.population()];
        let mut played: usize = 0;
        while played < run_limit
            invariant
                played <= run_limit,
                old(self).collisions() + run_limit <= usize::MAX,
                states.len() == played + 1,
                states[0] == old(self).population(),
                states[played as int] == self.population(),
                run_of_rounds::<P, C, T, E>(
                    states,
                    old(self).collider(),
                    old(self).discards_parents(),
                ),
                self.collisions() == old(self).collisions() + played,
                self.same_setup(old(self)),
                played == 0 || old(self).population().len() < 2 ==> self.generator() == old(
                    self,
                ).generator(),
                old(self).population().len() < 2 ==> self.population() == old(self).population(),
            decreases run_limit - played,
        {
            self.collision_round();
            proof {
                states = states.push(self.population());
            }
            played += 1;
        }
    }

    /// A copy of the population as it is now.
    pub fn snapshot(&self) -> (copy: Vec<P>)
        ensures
            copy@ == self.population(),
    {
        clone_particles(&self.expressions)
    }

    /// Plays `run_limit` rounds and records the population after every
    /// `polling_interval`-th of them. With an interval of 0 nothing is
    /// recorded.
    pub fn simulate_and_record(&mut self, run_limit: usize, polling_interval: usize) -> (tape: Tape<
        P,
    >)
        requires
            old(self).collisions() + run_limit <= usize::MAX,
        ensures
            exists|states: Seq<Seq<P>>|
                {
                    &&& states.len() == run_limit + 1
                    &&& states[0] == old(self).population()
                    &&& states[run_limit as int] == final(self).population()
                    &&& #[trigger] run_of_rounds::<P, C, T, E>(
                        states,
                        old(self).collider(),
                        old(self).discards_parents(),
                    )
                    &&& tape.snapshots() == snapshots_of(states, polling_interval as nat)
                },
            tape.interval() == polling_interval,
            final(self).collisions() == old(self).collisions() + run_limit,
            final(self).same_setup(old(self)),
            run_limit == 0 || old(self).population().len() < 2 ==> final(self).generator() == old(
                self,
            ).generator(),
    {
        let mut tape = Tape::new(polling_interval);
        let ghost mut states: Seq<Seq<P>> = seq![self.population()];
        let mut played: usize = 0;
        proof {
            assert(tape.snapshots() =~= snapshots_of(states, polling_interval as nat));
        }
        while played < run_limit
            invariant
                played <= run_limit,
                old(self).collisions() + run_limit <= usize::MAX,
                states.len() == played + 1,
                states[0] == old(self).population(),
                states[played as int] == self.population(),
                run_of_rounds::<P, C, T, E>(
                    states,
                    old(self).collider(),
                    old(self).discards_parents(),
                ),
                tape.interval() == polling_interval,
                tape.snapshots() == snapshots_of(states, polling_interval as nat),
                self.collisions() == old(self).collisions() + played,
                self.same_setup(old(self)),
                played == 0 || old(self).population().len() < 2 ==> self.generator() == old(
                    self,
                ).generator(),
                old(self).population().len() < 2 ==> self.population() == old(self).population(),
            decreases run_limit - played,
        {
            self.collision_round();
            let ghost earlier = states;
            proof {
                states = states.push(self.population());
            }
            played += 1;
            tape.observe(&self.expressions, played);
            proof {
                lemma_snapshots_grow(earlier, self.population(), polling_interval as nat);
            }
        }
        tape
    }
}

/// The snapshots of a run that is one round longer: one more, of the last
/// population, if the number of rounds is now a multiple of the interval.
pub proof fn lemma_snapshots_grow<P>(states: Seq<Seq<P>>, last: Seq<P>, interval: nat)
    requires
        states.len() >= 1,
    ensures
        snapshots_of(states.push(last), interval) == if interval > 0 && (states.len() as int) % (
        interval as int) == 0 {
            snapshots_of(states, interval).push(last)
        } else {
            snapshots_of(states, interval)
        },
{
    if interval > 0 {
        let rounds = (states.len() - 1) as int;
        let step = interval as int;
        let longer = states.push(last);
        let shorter_shots = snapshots_of(states, interval);
        let longer_shots = snapshots_of(longer, interval);
        vstd::arithmetic::div_mod::lemma_fundamental_div_mod(rounds, step);
        vstd::arithmetic::div_mod::lemma_fundamental_div_mod(rounds + 1, step);
        vstd::arithmetic::div_mod::lemma_mod_bound(rounds, step);
        vstd::arithmetic::div_mod::lemma_mod_bound(rounds + 1, step);
        vstd::arithmetic::div_mod::lemma_div_pos_is_pos(rounds, step);
        vstd::arithmetic::div_mod::lemma_div_pos_is_pos(rounds + 1, step);
        let q = rounds / step;
        let q1 = (rounds + 1) / step;
        assert(q * step <= rounds) by (nonlinear_arith)
            requires
                rounds == step * q + rounds % step,
                0 <= rounds % step,
        ;
        if (rounds + 1) % step == 0 {
            assert(q1 == q + 1) by (nonlinear_arith)
                requires
                    rounds == step * q + rounds % step,
                    rounds + 1 == step * q1,
                    0 <= rounds % step < step,
                    step > 0,
            ;
            assert((q + 1) * step == rounds + 1) by (nonlinear_arith)
                requires
                    rounds + 1 == step * q1,
                    q1 == q + 1,
            ;
            assert forall|k: int| 0 <= k < q implies #[trigger] longer_shots[k] == shorter_shots[k] by {
                assert(0 < (k + 1) * step <= q * step) by (nonlinear_arith)
                    requires
                        0 <= k < q,
                        step > 0,
                ;
            }
            assert(longer_shots =~= shorter_shots.push(last));
        } else {
            assert(q1 == q) by (nonlinear_arith)
                requires
                    rounds == step * q + rounds % step,
                    rounds + 1 == step * q1 + (rounds + 1) % step,
                    0 <= rounds % step < step,
                    0 < (rounds + 1) % step < step,
                    step > 0,
            ;
            assert forall|k: int| 0 <= k < q implies #[trigger] longer_shots[k] == shorter_shots[k] by {
                assert(0 < (k + 1) * step <= q * step) by (nonlinear_arith)
                    requires
                        0 <= k < q,
                        step > 0,
                ;
            }
            assert(longer_shots =~= shorter_shots);
        }
    }
}

/// The history of a run: copies of the population, taken at a fixed cadence.
pub struct Tape<P> {
    history: Vec<Vec<P>>,
    polling_interval: usize,
}

impl<P: Particle> Tape<P> {
    /// The recorded populations, oldest first.
    pub closed spec fn snapshots(&self) -> Seq<Seq<P>> {
        self.history@.map_values(|population: Vec<P>| population@)
    }

    /// After how many rounds a snapshot is due; 0 if never.
    pub closed spec fn interval(&self) -> nat {
        self.polling_interval as nat
    }

    /// An empty tape.
    pub fn new(polling_interval: usize) -> (tape: Self)
        ensures
            tape.snapshots() == Seq::<Seq<P>>::empty(),
            tape.interval() == polling_interval,
    {
        let tape = Tape { history: Vec::new(), polling_interval };
        assert(tape.snapshots() =~= Seq::<Seq<P>>::empty());
        tape
    }

    /// The recorded populations, oldest first.
    pub fn history(&self) -> (r: &Vec<Vec<P>>)
        ensures
            r@.map_values(|population: Vec<P>| population@) == self.snapshots(),
    {
        &self.history
    }

    /// Appends a copy of `population` to the history.
    pub fn record(&mut self, population: &Vec<P>)
        ensures
            final(self).snapshots() == old(self).snapshots().push(population@),
            final(self).interval() == old(self).interval(),
    {
        self.history.push(clone_particles(population));
        assert(self.snapshots() =~= old(self).snapshots().push(population@));
    }

    /// Records `population` if a snapshot is due after `rounds` rounds: if
    /// `rounds` is a multiple of the interval, and the interval is not 0.
    pub fn observe(&mut self, population: &Vec<P>, rounds: usize)
        ensures
            final(self).snapshots() == if old(self).interval() > 0 && rounds as int % (
            old(self).interval() as int) == 0 {
                old(self).snapshots().push(population@)
            } else {
                old(self).snapshots()
            },
            final(self).interval() == old(self).interval(),
    {
        if self.polling_interval > 0 && rounds % self.polling_interval == 0 {
            self.record(population);
        }
    }
}

/// A copy of the particles, each cloned, in their order.
pub fn clone_particles<P: Particle>(particles: &Vec<P>) -> (copy: Vec<P>)
    ensures
        copy@ == particles@,
{
    let mut copy: Vec<P> = Vec::new();
    let mut k: usize = 0;
    while k < particles.len()
        invariant
            k <= particles.len(),
            copy@ == particles@.take(k as int),
        decreases particles.len() - k,
    {
        let particle = particles[k].clone();
        proof {
            P::lemma_clone_is_same(&particles[k as int], &particle);
        }
        copy.push(particle);
        k += 1;
        assert(copy@ =~= particles@.take(k as int));
    }
    assert(particles@.take(k as int) =~= particles@);
    copy
}

/// How many particles of `population` are isomorphic to `item`.
pub fn count_isomorphic_in<P: Particle>(population: &Vec<P>, item: &P) -> (n: usize)
    ensures
        n == isomorphic_count(population@, *item),
{
    let mut n: usize = 0;
    let mut k: usize = 0;
    while k < population.len()
        invariant
            k <= population.len(),
            n <= k,
            n == isomorphic_count(population@.take(k as int), *item),
        decreases population.len() - k,
    {
        proof {
            lemma_isomorphic_count_push(population@.take(k as int), population@[k as int], *item);
            assert(population@.take(k as int).push(population@[k as int]) =~= population@.take(
                k + 1,
            ));
        }
        if population[k].is_isomorphic_to(item) {
            n += 1;
        }
        k += 1;
    }
    assert(population@.take(k as int) =~= population@);
    n
}

/// The sizes of the isomorphism classes of `population`, in the order in
/// which the classes first appear.
pub fn class_sizes_of<P: Particle>(population: &Vec<P>) -> (sizes: Vec<usize>)
    ensures
        sizes@.map_values(|size: usize| size as nat) == class_sizes(population@),
{
    let mut sizes: Vec<usize> = Vec::new();
    let mut i: usize = 0;
    while i < population.len()
        invariant
            i <= population.len(),
            sizes@.map_values(|size: usize| size as nat) =~= class_sizes_upto(
                population@,
                i as nat,
            ),
        decreases population.len() - i,
    {
        let mut first = true;
        let mut j: usize = 0;
        while j < i
            invariant
                j <= i,
                i < population.len(),
                first ==> forall|h: int|
                    0 <= h < j ==> !(#[trigger] population@[h]).isomorphic_to(&population@[i as int]),
                !first ==> !first_of_class(population@, i as int),
            decreases i - j,
        {
            if population[j].is_isomorphic_to(&population[i]) {
                first = false;
            }
            j += 1;
        }
        if first {
            let size = count_isomorphic_in(population, &population[i]);
            sizes.push(size);
        }
        i += 1;
    }
    sizes
}

/// The sum of some sizes.
pub open spec fn total(sizes: Seq<nat>) -> nat
    decreases sizes.len(),
{
    if sizes.len() == 0 {
        0
    } else {
        total(sizes.drop_last()) + sizes.last()
    }
}

/// One of the first `upto` particles of the population is isomorphic to `p`.
pub open spec fn met_before<P: Particle>(population: Seq<P>, upto: int, p: P) -> bool {
    exists|i: int| 0 <= i < upto && (#[trigger] population[i]).isomorphic_to(&p)
}

/// Where every item that passes `whole` passes exactly one of `one` and
/// `other`, and no other item passes either, as many pass `whole` as pass
/// the two together.
proof fn lemma_filter_split<A>(
    s: Seq<A>,
    whole: spec_fn(A) -> bool,
    one: spec_fn(A) -> bool,
    other: spec_fn(A) -> bool,
)
    requires
        forall|i: int|
            0 <= i < s.len() ==> (whole(#[trigger] s[i]) == (one(s[i]) || other(s[i]))) && !(one(
                s[i],
            ) && other(s[i])),
    ensures
        s.filter(whole).len() == s.filter(one).len() + s.filter(other).len(),
    decreases s.len(),
{
    reveal(Seq::filter);
    if s.len() > 0 {
        let rest = s.drop_last();
        assert forall|i: int| 0 <= i < rest.len() implies (whole(#[trigger] rest[i]) == (one(
            rest[i],
        ) || other(rest[i]))) && !(one(rest[i]) && other(rest[i])) by {
            assert(rest[i] == s[i]);
        }
        lemma_filter_split(rest, whole, one, other);
        assert(s.last() == s[s.len() - 1]);
    }
}

/// Two tests that agree on every item let equally many items pass.
proof fn lemma_filter_agree<A>(s: Seq<A>, one: spec_fn(A) -> bool, other: spec_fn(A) -> bool)
    requires
        forall|i: int| 0 <= i < s.len() ==> one(#[trigger] s[i]) == other(s[i]),
    ensures
        s.filter(one).len() == s.filter(other).len(),
    decreases s.len(),
{
    reveal(Seq::filter);
    if s.len() > 0 {
        let rest = s.drop_last();
        assert forall|i: int| 0 <= i < rest.len() implies one(#[trigger] rest[i]) == other(
            rest[i],
        ) by {
            assert(rest[i] == s[i]);
        }
        lemma_filter_agree(rest, one, other);
        assert(s.last() == s[s.len() - 1]);
    }
}

/// A test that every item passes lets all of them pass, and one that no
/// item passes lets none pass.
proof fn lemma_filter_all_or_none<A>(s: Seq<A>, test: spec_fn(A) -> bool)
    ensures
        (forall|i: int| 0 <= i < s.len() ==> test(#[trigger] s[i])) ==> s.filter(test).len()
            == s.len(),
        (forall|i: int| 0 <= i < s.len() ==> !test(#[trigger] s[i])) ==> s.filter(test).len()
            == 0,
    decreases s.len(),
{
    reveal(Seq::filter);
    if s.len() > 0 {
        let rest = s.drop_last();
        lemma_filter_all_or_none(rest, test);
        assert(s.last() == s[s.len() - 1]);
        if forall|i: int| 0 <= i < s.len() ==> test(#[trigger] s[i]) {
            assert forall|i: int| 0 <= i < rest.len() implies test(#[trigger] rest[i]) by {
                assert(rest[i] == s[i]);
            }
        }
        if forall|i: int| 0 <= i < s.len() ==> !test(#[trigger] s[i]) {
            assert forall|i: int| 0 <= i < rest.len() implies !test(#[trigger] rest[i]) by {
                assert(rest[i] == s[i]);
            }
        }
    }
}

/// The classes met among the first `upto` particles hold, together, the
/// particles that are isomorphic to one of those.
proof fn lemma_classes_cover<P: Particle>(population: Seq<P>, upto: nat)
    requires
        upto <= population.len(),
    ensures
        total(class_sizes_upto(population, upto)) == population.filter(
            |p: P| met_before(population, upto as int, p),
        ).len(),
    decreases upto,
{
    let now = |p: P| met_before(population, upto as int, p);
    if upto == 0 {
        lemma_filter_all_or_none(population, now);
    } else {
        let i = (upto - 1) as int;
        let earlier = |p: P| met_before(population, i, p);
        let here = |p: P| population[i].isomorphic_to(&p);
        let nothing = |p: P| false;
        lemma_classes_cover(population, i as nat);
        if first_of_class(population, i) {
            assert forall|j: int| 0 <= j < population.len() implies (now(#[trigger] population[j])
                == (earlier(population[j]) || here(population[j]))) && !(earlier(population[j])
                && here(population[j])) by {
                let x = population[j];
                if earlier(x) {
                    let w = choose|w: int|
                        0 <= w < i && (#[trigger] population[w]).isomorphic_to(&x);
                    assert(0 <= w < upto && population[w].isomorphic_to(&x));
                    if here(x) {
                        P::lemma_isomorphism_is_equivalence(&population[i], &x, &population[w]);
                        P::lemma_isomorphism_is_equivalence(&population[w], &x, &population[i]);
                        assert(population[w].isomorphic_to(&population[i]));
                    }
                }
                if here(x) {
                    assert(0 <= i < upto && population[i].isomorphic_to(&x));
                }
                if now(x) {
                    let w = choose|w: int|
                        0 <= w < upto && (#[trigger] population[w]).isomorphic_to(&x);
                    if w < i {
                        assert(0 <= w < i && population[w].isomorphic_to(&x));
                    }
                }
            }
            lemma_filter_split(population, now, earlier, here);
            let counted = |p: P| p.isomorphic_to(&population[i]);
            assert forall|j: int| 0 <= j < population.len() implies here(#[trigger] population[j])
                == counted(population[j]) by {
                P::lemma_isomorphism_is_equivalence(&population[i], &population[j], &population[i]);
            }
            lemma_filter_agree(population, here, counted);
            assert(class_sizes_upto(population, upto).drop_last() =~= class_sizes_upto(
                population,
                i as nat,
            ));
        } else {
            let w = choose|w: int|
                0 <= w < i && (#[trigger] population[w]).isomorphic_to(&population[i]);
            assert forall|j: int| 0 <= j < population.len() implies now(#[trigger] population[j])
                == earlier(population[j]) by {
                let x = population[j];
                if earlier(x) {
                    let v = choose|v: int|
                        0 <= v < i && (#[trigger] population[v]).isomorphic_to(&x);
                    assert(0 <= v < upto && population[v].isomorphic_to(&x));
                }
                if now(x) {
                    let v = choose|v: int|
                        0 <= v < upto && (#[trigger] population[v]).isomorphic_to(&x);
                    if v == i {
                        P::lemma_isomorphism_is_equivalence(&population[w], &population[i], &x);
                        assert(0 <= w < i && population[w].isomorphic_to(&x));
                    } else {
                        assert(0 <= v < i && population[v].isomorphic_to(&x));
                    }
                }
            }
            lemma_filter_agree(population, now, earlier);
        }
    }
}

/// The isomorphism classes share out the population: their sizes add up to
/// the number of particles.
pub proof fn lemma_class_sizes_add_up<P: Particle>(population: Seq<P>)
    ensures
        total(class_sizes(population)) == population.len(),
{
    let met = |p: P| met_before(population, population.len() as int, p);
    lemma_classes_cover(population, population.len());
    assert forall|j: int| 0 <= j < population.len() implies met(#[trigger] population[j]) by {
        P::lemma_isomorphism_is_equivalence(&population[j], &population[j], &population[j]);
        assert(0 <= j < population.len() && population[j].isomorphic_to(&population[j]));
    }
    lemma_filter_all_or_none(population, met);
}

} // verus!
