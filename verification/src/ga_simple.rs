//! A basic driver for the generational state machine: owns one population,
//! one configuration, one random context, and a scaling and a selection
//! strategy, and evolves the population one generation per step.

use vstd::prelude::*;

use crate::ga_core::{GAError, GAFactory, GAFlags, GAIndividual, GeneticAlgorithm};
use crate::ga_population::GAPopulation;
use crate::ga_random::{ctx_with, lcg_draw, lcg_next, lemma_ctx_with, GARandomCtx, GA_PROBABILITY_ONE};
use crate::ga_scaling::{GANoScaling, GAScaling};
use crate::ga_selectors::{GASelector, GAUniformSelector};

verus! {

/// Configuration of a simple genetic algorithm: an immutable-per-run value
/// bundle, constructed once before a run and read-only thereafter.
/// Probabilities are fixed-point values in millionths.
#[derive(Clone, Copy, Debug, Default)]
pub struct SimpleGeneticAlgorithmCfg {
    /// Seed of the run's random context.
    pub d_seed: u64,
    /// Whether lower scores are better. The flag records the run's intent;
    /// the populations handed to the driver carry their own sort order,
    /// which every step preserves, so nothing re-sorts against it.
    pub is_min: bool,
    /// How many generations to run.
    pub max_generations: i32,
    /// Diagnostic flags.
    pub flags: GAFlags,
    /// Probability that a parent pair is crossed over, in millionths.
    pub percentage_crossover: u32,
    /// Probability handed to each offspring's mutation hook, in millionths.
    pub probability_mutation: u32,
}

impl SimpleGeneticAlgorithmCfg {
    /// Both probabilities lie in the unit interval.
    pub open spec fn valid(self) -> bool {
        &&& self.percentage_crossover <= GA_PROBABILITY_ONE
        &&& self.probability_mutation <= GA_PROBABILITY_ONE
    }

    /// The diagnostic flags.
    pub fn flags(&self) -> (r: GAFlags)
        ensures
            r == self.flags,
    {
        self.flags
    }

    /// The generation limit.
    pub fn max_generations(&self) -> (r: i32)
        ensures
            r == self.max_generations,
    {
        self.max_generations
    }

    /// The crossover probability, in millionths.
    pub fn percentage_crossover(&self) -> (r: u32)
        ensures
            r == self.percentage_crossover,
    {
        self.percentage_crossover
    }

    /// The mutation probability, in millionths.
    pub fn probability_mutation(&self) -> (r: u32)
        ensures
            r == self.probability_mutation,
    {
        self.probability_mutation
    }
}

/// A basic genetic algorithm over individuals `T`, scaling scheme `S` and
/// selection scheme `K`.
pub struct SimpleGeneticAlgorithm<T: GAIndividual, S: GAScaling<T>, K: GASelector<T>> {
    current_generation: i32,
    config: SimpleGeneticAlgorithmCfg,
    population: GAPopulation<T>,
    scaler: S,
    selector: K,
    rng: GARandomCtx,
}

impl<T: GAIndividual, S: GAScaling<T>, K: GASelector<T>> SimpleGeneticAlgorithm<T, S, K> {
    /// The run's configuration.
    pub closed spec fn config_spec(self) -> SimpleGeneticAlgorithmCfg {
        self.config
    }

    /// The scaling scheme the driver applies each step.
    pub closed spec fn scaler_spec(self) -> S {
        self.scaler
    }

    /// The selection scheme the driver draws parents with.
    pub closed spec fn selector_spec(self) -> K {
        self.selector
    }

    /// Builds a driver from a configuration and either a factory or an
    /// initial population. With a factory, the factory's initial population
    /// is taken; otherwise the one supplied is. With neither there is
    /// nothing to evolve and construction fails with `EmptyPopulation`; a
    /// probability outside the unit interval fails with
    /// `InvalidProbability`.
    pub fn new_with_strategies<F: GAFactory<T>>(
        cfg: SimpleGeneticAlgorithmCfg,
        factory: Option<&mut F>,
        population: Option<GAPopulation<T>>,
        scaler: S,
        selector: K,
    ) -> (r: Result<SimpleGeneticAlgorithm<T, S, K>, GAError>)
        requires
            population matches Some(p) ==> p.wf(),
        ensures
            !cfg.valid() ==> r == Err::<SimpleGeneticAlgorithm<T, S, K>, GAError>(
                GAError::InvalidProbability,
            ),
            cfg.valid() && factory is None && population is None ==> r == Err::<
                SimpleGeneticAlgorithm<T, S, K>,
                GAError,
            >(GAError::EmptyPopulation),
            cfg.valid() && (factory is Some || population is Some) ==> (r matches Ok(ga) && {
                &&& ga.inv()
                &&& ga.generation_spec() == 0
                &&& ga.max_generations_spec() == cfg.max_generations as int
                &&& ga.config_spec() == cfg
                &&& ga.scaler_spec() == scaler
                &&& ga.selector_spec() == selector
                &&& factory is None ==> ga.population_spec() == population.unwrap()
                &&& factory matches Some(f) ==> f.initial_spec(ga.population_spec())
            }),
    {
        if cfg.percentage_crossover > GA_PROBABILITY_ONE || cfg.probability_mutation
            > GA_PROBABILITY_ONE {
            return Err(GAError::InvalidProbability);
        }
        let p: GAPopulation<T> = match factory {
            Some(f) => f.initial_population(),
            None => match population {
                Some(p_) => p_,
                None => {
                    return Err(GAError::EmptyPopulation);
                },
            },
        };
        Ok(
            SimpleGeneticAlgorithm {
                current_generation: 0,
                config: cfg,
                population: p,
                scaler,
                selector,
                rng: GARandomCtx::new(cfg.d_seed),
            },
        )
    }

    /// The run's configuration.
    pub fn config(&self) -> (r: SimpleGeneticAlgorithmCfg)
        ensures
            r == self.config_spec(),
    {
        self.config
    }
}

impl<T: GAIndividual> SimpleGeneticAlgorithm<T, GANoScaling, GAUniformSelector> {
    /// Builds a driver with the default strategies: no scaling and uniform
    /// parent selection. See `new_with_strategies` for how the population
    /// and the errors are chosen.
    pub fn new<F: GAFactory<T>>(
        cfg: SimpleGeneticAlgorithmCfg,
        factory: Option<&mut F>,
        population: Option<GAPopulation<T>>,
    ) -> (r: Result<SimpleGeneticAlgorithm<T, GANoScaling, GAUniformSelector>, GAError>)
        requires
            population matches Some(p) ==> p.wf(),
        ensures
            !cfg.valid() ==> r == Err::<
                SimpleGeneticAlgorithm<T, GANoScaling, GAUniformSelector>,
                GAError,
            >(GAError::InvalidProbability),
            cfg.valid() && factory is None && population is None ==> r == Err::<
                SimpleGeneticAlgorithm<T, GANoScaling, GAUniformSelector>,
                GAError,
            >(GAError::EmptyPopulation),
            cfg.valid() && (factory is Some || population is Some) ==> (r matches Ok(ga) && {
                &&& ga.inv()
                &&& ga.generation_spec() == 0
                &&& ga.max_generations_spec() == cfg.max_generations as int
                &&& ga.config_spec() == cfg
                &&& ga.step_ready()
                &&& factory is None ==> ga.population_spec() == population.unwrap()
                &&& factory matches Some(f) ==> f.initial_spec(ga.population_spec())
            }),
    {
        Self::new_with_strategies(cfg, factory, population, GANoScaling, GAUniformSelector::new())
    }
}

/// `snapshot` is `before` with every fitness refreshed by `scaler`: the
/// population one step's selection samples from.
pub open spec fn scaled_snapshot<T: GAIndividual, S: GAScaling<T>>(
    before: GAPopulation<T>,
    scaler: S,
    snapshot: GAPopulation<T>,
) -> bool {
    &&& snapshot.wf()
    &&& snapshot.size_spec() == before.size_spec()
    &&& snapshot.sort_order_spec() == before.sort_order_spec()
    &&& snapshot.raws() == before.raws()
    &&& forall|j: int|
        0 <= j < before.size_spec() ==> snapshot.fits()[j] == scaler.scaled(before.raws(), j)
}

/// One reproduction round: `child` came out of `pop` by drawing two parents
/// with `selector`, crossing them over with probability `p_cross` (otherwise
/// duplicating the first parent, which keeps its scores), and mutating the
/// result under `p_mut` — each link stated by the respective capability's
/// relation, from some point of the random stream.
pub open spec fn reproduced<T: GAIndividual, K: GASelector<T>>(
    selector: K,
    pop: GAPopulation<T>,
    p_cross: u32,
    p_mut: u32,
    child: T,
) -> bool {
    exists|p1: T, p2: T, mid: T, r0: GARandomCtx, r1: GARandomCtx, r2: GARandomCtx, r4: GARandomCtx, r5: GARandomCtx|
        #![trigger selector.selects(pop, r0, r1, p1), selector.selects(pop, r1, r2, p2), mid.mutate_spec(p_mut, r4, r5, child)]
        {
            &&& selector.selects(pop, r0, r1, p1)
            &&& selector.selects(pop, r1, r2, p2)
            &&& ({
                let r3 = ctx_with(lcg_next(r2.state_spec()));
                if lcg_draw(r2.state_spec(), GA_PROBABILITY_ONE as u64) < p_cross {
                    p1.crossover_spec(p2, r3, r4, mid)
                } else {
                    &&& mid.raw_spec() == p1.raw_spec()
                    &&& mid.fitness_spec() == p1.fitness_spec()
                    &&& r4 == r3
                }
            })
            &&& mid.mutate_spec(p_mut, r4, r5, child)
        }
}

impl<T: GAIndividual, S: GAScaling<T>, K: GASelector<T>> GeneticAlgorithm<T>
    for SimpleGeneticAlgorithm<T, S, K> {
    /// The population is well formed, the configuration valid and the
    /// generation counter non-negative.
    open spec fn inv(&self) -> bool {
        &&& self.population_spec().wf()
        &&& self.config_spec().valid()
        &&& self.generation_spec() >= 0
    }

    closed spec fn generation_spec(&self) -> int {
        self.current_generation as int
    }

    closed spec fn max_generations_spec(&self) -> int {
        self.config.max_generations as int
    }

    closed spec fn population_spec(&self) -> GAPopulation<T> {
        self.population
    }

    /// A step first refreshes scaling, so the scaling scheme must accept the
    /// current raw scores.
    open spec fn step_ready(&self) -> bool {
        self.scaler_spec().applicable(self.population_spec().raws())
    }

    fn population(&self) -> (p: &GAPopulation<T>) {
        &self.population
    }

    fn initialize_internal(&mut self) -> (r: Result<(), GAError>) {
        if self.population.size() > 0 {
            Ok(())
        } else {
            Err(GAError::EmptyPopulation)
        }
    }

    /// Beyond the trait's contract: the configuration and both strategies
    /// survive a step untouched, and on success every member of the new
    /// generation was reproduced from the scaled snapshot of the old one.
    fn step(&mut self) -> (r: Result<i32, GAError>)
        ensures
            final(self).config_spec() == old(self).config_spec(),
            final(self).scaler_spec() == old(self).scaler_spec(),
            old(self).generation_spec() < old(self).max_generations_spec() && old(
                self,
            ).population_spec().size_spec() > 0 ==> (exists|snapshot: GAPopulation<T>|
                {
                    &&& #[trigger] scaled_snapshot(
                        old(self).population_spec(),
                        old(self).scaler_spec(),
                        snapshot,
                    )
                    &&& forall|j: int|
                        0 <= j < final(self).population_spec().size_spec() ==> reproduced(
                            final(self).selector_spec(),
                            snapshot,
                            old(self).config_spec().percentage_crossover,
                            old(self).config_spec().probability_mutation,
                            #[trigger] final(self).population_spec().members()[j],
                        )
                }),
    {
        self.step_internal()
    }

    /// Beyond the trait's contract: the same preservation and reproduction
    /// clauses as `step`.
    fn step_internal(&mut self) -> (r: Result<i32, GAError>)
        ensures
            final(self).config_spec() == old(self).config_spec(),
            final(self).scaler_spec() == old(self).scaler_spec(),
            old(self).generation_spec() < old(self).max_generations_spec() && old(
                self,
            ).population_spec().size_spec() > 0 ==> (exists|snapshot: GAPopulation<T>|
                {
                    &&& #[trigger] scaled_snapshot(
                        old(self).population_spec(),
                        old(self).scaler_spec(),
                        snapshot,
                    )
                    &&& forall|j: int|
                        0 <= j < final(self).population_spec().size_spec() ==> reproduced(
                            final(self).selector_spec(),
                            snapshot,
                            old(self).config_spec().percentage_crossover,
                            old(self).config_spec().probability_mutation,
                            #[trigger] final(self).population_spec().members()[j],
                        )
                }),
    {
        if self.current_generation >= self.config.max_generations {
            return Err(GAError::AlreadyDone);
        }
        let n = self.population.size();
        if n == 0 {
            return Err(GAError::EmptyPopulation);
        }
        let ghost before = self.population;
        self.scaler.evaluate(&mut self.population);
        let ghost evaluated = self.population;
        self.selector.update(&mut self.population);
        let ghost snapshot = self.population;
        let ghost updated = self.selector;
        proof {
            assert(snapshot.members() == evaluated.members());
            assert forall|j: int| 0 <= j < before.size_spec() implies snapshot.fits()[j]
                == self.scaler.scaled(before.raws(), j) by {
                assert(evaluated.fits()[j] == self.scaler.scaled(before.raws(), j));
            }
            assert(scaled_snapshot(before, self.scaler, snapshot));
        }
        let order = self.population.order();
        let mut next_gen: Vec<T> = Vec::new();
        let mut i: usize = 0;
        while i < n
            invariant
                i <= n,
                next_gen@.len() == i,
                n == self.population.size_spec(),
                n > 0,
                self.population.wf(),
                self.selector.ready(self.population),
                order == self.population.sort_order_spec(),
                order == old(self).population_spec().sort_order_spec(),
                n == old(self).population_spec().size_spec(),
                self.current_generation == old(self).current_generation,
                self.config == old(self).config,
                old(self).current_generation < old(self).config.max_generations,
                self.config.valid(),
                self.population == snapshot,
                self.scaler == old(self).scaler,
                self.selector == updated,
                scaled_snapshot(old(self).population_spec(), old(self).scaler_spec(), snapshot),
                forall|j: int|
                    0 <= j < i ==> reproduced(
                        updated,
                        snapshot,
                        old(self).config_spec().percentage_crossover,
                        old(self).config_spec().probability_mutation,
                        #[trigger] next_gen@[j],
                    ),
            decreases n - i,
        {
            let ghost r0 = self.rng;
            let p1 = self.selector.select(&self.population, &mut self.rng);
            let ghost gp1 = *p1;
            let ghost r1 = self.rng;
            let p2 = self.selector.select(&self.population, &mut self.rng);
            let ghost gp2 = *p2;
            let ghost r2 = self.rng;
            let crossed = self.rng.flip(self.config.percentage_crossover);
            let ghost r3 = self.rng;
            let mut child = if crossed {
                p1.crossover(p2, &mut self.rng)
            } else {
                p1.duplicate()
            };
            let ghost r4 = self.rng;
            let ghost mid = child;
            child.mutate(self.config.probability_mutation, &mut self.rng);
            let ghost r5 = self.rng;
            proof {
                lemma_ctx_with(r3);
                assert(reproduced(
                    updated,
                    snapshot,
                    old(self).config_spec().percentage_crossover,
                    old(self).config_spec().probability_mutation,
                    child,
                )) by {
                    assert(updated.selects(snapshot, r0, r1, gp1));
                    assert(updated.selects(snapshot, r1, r2, gp2));
                    assert(mid.mutate_spec(
                        old(self).config_spec().probability_mutation,
                        r4,
                        r5,
                        child,
                    ));
                }
            }
            next_gen.push(child);
            i += 1;
        }
        self.population = GAPopulation::new(next_gen, order);
        self.current_generation = self.current_generation + 1;
        Ok(self.current_generation)
    }

    fn done_internal(&self) -> (r: bool) {
        self.current_generation >= self.config.max_generations
    }
}

} // verus!
