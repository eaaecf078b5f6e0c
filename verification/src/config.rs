//! The settings of a simulation: those of the reactor, and those of a run.

use vstd::prelude::*;

verus! {

/// The settings of a soup and of the collider in it.
pub struct Reactor {
    /// The reaction rules, each the text of a term in classic notation that
    /// takes two arguments. A collision applies them in this order.
    pub rules: Vec<String>,
    /// Whether a result isomorphic to one of the two that collided is
    /// discarded.
    pub discard_copy_actions: bool,
    /// Whether a result isomorphic to the identity function is discarded.
    pub discard_identity: bool,
    /// Whether a result with a free variable is discarded.
    pub discard_free_variable_expressions: bool,
    /// Whether a perturbation evicts as many particles as it adds.
    pub maintain_constant_population_size: bool,
    /// Whether a successful collision removes the two that collided.
    pub discard_parents: bool,
    /// The most reduction steps that one reaction may take.
    pub reduction_cutoff: usize,
    /// The most nodes that a term may have while it is reduced.
    pub size_cutoff: usize,
    /// The seed of the soup's pseudorandom generator.
    pub seed: [u8; 32],
}

impl Reactor {
    /// The text of the one rule of the default reactor: the first argument
    /// applied to the second.
    pub open spec fn default_rule() -> Seq<char> {
        "\\x.\\y.x y"@
    }

    /// The seed of the default reactor: 32 bytes, each of them 0.
    pub open spec fn default_seed() -> Seq<u8> {
        Seq::new(32, |i: int| 0u8)
    }

    /// The default reactor: one rule that applies the first argument to the
    /// second, every discard policy but that for parents switched on, a
    /// population of constant size, 8000 reduction steps, 1000 nodes, and a
    /// seed of zeros.
    pub fn new() -> (r: Reactor)
        ensures
            r.rules@.len() == 1,
            r.rules@[0]@ == Self::default_rule(),
            r.discard_copy_actions,
            r.discard_identity,
            r.discard_free_variable_expressions,
            r.maintain_constant_population_size,
            !r.discard_parents,
            r.reduction_cutoff == 8000,
            r.size_cutoff == 1000,
            r.seed@ == Self::default_seed(),
    {
        let mut rules: Vec<String> = Vec::new();
        rules.push("\\x.\\y.x y".to_owned());
        let seed = [0u8; 32];
        assert(seed@ =~= Seq::new(32, |i: int| 0u8));
        Reactor {
            rules,
            discard_copy_actions: true,
            discard_identity: true,
            discard_free_variable_expressions: true,
            maintain_constant_population_size: true,
            discard_parents: false,
            reduction_cutoff: 8000,
            size_cutoff: 1000,
            seed,
        }
    }
}

/// The settings of a whole run.
pub struct Config {
    /// The settings of the soup and its collider.
    pub reactor_config: Reactor,
    /// How many rounds the run plays.
    pub run_limit: usize,
    /// After how many rounds the population is recorded, if it is recorded.
    pub polling_interval: Option<usize>,
    /// Whether each round is reported.
    pub verbose_logging: bool,
}

impl Config {
    /// The default run: the default reactor, 100000 rounds, nothing recorded
    /// and nothing reported.
    pub fn new() -> (c: Config)
        ensures
            c.reactor_config.rules@.len() == 1,
            c.reactor_config.rules@[0]@ == Reactor::default_rule(),
            c.reactor_config.discard_copy_actions,
            c.reactor_config.discard_identity,
            c.reactor_config.discard_free_variable_expressions,
            c.reactor_config.maintain_constant_population_size,
            !c.reactor_config.discard_parents,
            c.reactor_config.reduction_cutoff == 8000,
            c.reactor_config.size_cutoff == 1000,
            c.reactor_config.seed@ == Reactor::default_seed(),
            c.run_limit == 100000,
            c.polling_interval is None,
            !c.verbose_logging,
    {
        Config {
            reactor_config: Reactor::new(),
            run_limit: 100000,
            polling_interval: None,
            verbose_logging: false,
        }
    }

    /// Sets the number of rounds.
    pub fn set_run_limit(&mut self, limit: usize)
        ensures
            final(self).run_limit == limit,
            final(self).reactor_config == old(self).reactor_config,
            final(self).polling_interval == old(self).polling_interval,
            final(self).verbose_logging == old(self).verbose_logging,
    {
        self.run_limit = limit;
    }

    /// Sets the most reduction steps that one reaction may take.
    pub fn set_reduction_cutoff(&mut self, cutoff: usize)
        ensures
            final(self).reactor_config == (Reactor {
                reduction_cutoff: cutoff,
                ..old(self).reactor_config
            }),
            final(self).run_limit == old(self).run_limit,
            final(self).polling_interval == old(self).polling_interval,
            final(self).verbose_logging == old(self).verbose_logging,
    {
        self.reactor_config.reduction_cutoff = cutoff;
    }

    /// Sets whether and how often the population is recorded.
    pub fn set_polling_interval(&mut self, interval: Option<usize>)
        ensures
            final(self).polling_interval == interval,
            final(self).reactor_config == old(self).reactor_config,
            final(self).run_limit == old(self).run_limit,
            final(self).verbose_logging == old(self).verbose_logging,
    {
        self.polling_interval = interval;
    }

    /// Sets whether each round is reported.
    pub fn set_verbose_logging(&mut self, verbose: bool)
        ensures
            final(self).verbose_logging == verbose,
            final(self).reactor_config == old(self).reactor_config,
            final(self).run_limit == old(self).run_limit,
            final(self).polling_interval == old(self).polling_interval,
    {
        self.verbose_logging = verbose;
    }

    /// Lets the choices made on the command line override the settings: a
    /// number of rounds, a reduction cutoff or a polling interval that was
    /// given replaces the setting, and reporting can be switched on but not
    /// off.
    pub fn apply_overrides(
        &mut self,
        run_limit: Option<usize>,
        reduction_cutoff: Option<usize>,
        polling_interval: Option<usize>,
        log: bool,
    )
        ensures
            final(self).run_limit == match run_limit {
                Some(limit) => limit,
                None => old(self).run_limit,
            },
            final(self).reactor_config == (Reactor {
                reduction_cutoff: match reduction_cutoff {
                    Some(cutoff) => cutoff,
                    None => old(self).reactor_config.reduction_cutoff,
                },
                ..old(self).reactor_config
            }),
            final(self).polling_interval == match polling_interval {
                Some(interval) => Some(interval),
                None => old(self).polling_interval,
            },
            final(self).verbose_logging == (log || old(self).verbose_logging),
    {
        if let Some(limit) = run_limit {
            self.set_run_limit(limit);
        }
        if let Some(cutoff) = reduction_cutoff {
            self.set_reduction_cutoff(cutoff);
        }
        if polling_interval.is_some() {
            self.set_polling_interval(polling_interval);
        }
        if log {
            self.set_verbose_logging(log);
        }
    }
}

} // verus!
