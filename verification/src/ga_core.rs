//! Core vocabulary of the engine: the error taxonomy, the configuration
//! flags, and the capability contract that candidate solutions implement.
//!
//! The engine treats an individual as opaque except for its two scores — the
//! raw score fixed by evaluation and the fitness score written by scaling —
//! and the reproduction hooks `crossover` and `mutate`.

use vstd::prelude::*;

use crate::ga_population::{GAPopulation, GAPopulationSortOrder};
use crate::ga_random::GARandomCtx;

verus! {

/// The ways an engine operation can fail. Structural errors are surfaced to
/// the caller and never silently defaulted.
#[derive(Clone, Copy, Debug, PartialEq, Eq, Structural)]
pub enum GAError {
    /// An operation that needs at least one individual met a population of
    /// length zero.
    EmptyPopulation,
    /// Indexed access beyond the population's bounds.
    IndexOutOfRange,
    /// A crossover or mutation probability outside the unit interval was
    /// supplied in a configuration.
    InvalidProbability,
    /// Every raw score is equal, so a scaling denominator would be zero.
    /// Scaling strategies recover from this locally and fall back to the
    /// identity transform instead of returning it.
    DegenerateScaling,
    /// A step was requested after the generation limit was reached.
    AlreadyDone,
}

/// Bit set when a run wants verbose diagnostics.
pub const DEBUG_FLAG: u32 = 0b00000001;

/// Bit flags of a genetic-algorithm configuration.
#[derive(Clone, Copy, Debug, PartialEq, Eq, Structural)]
pub struct GAFlags {
    pub bits: u32,
}

impl GAFlags {
    /// True when every bit of `flag` is set.
    pub fn contains(&self, flag: u32) -> (r: bool)
        ensures
            r == (self.bits & flag == flag),
    {
        self.bits & flag == flag
    }
}

impl Default for GAFlags {
    /// No flags set.
    fn default() -> (r: GAFlags)
        ensures
            r.bits == 0,
    {
        GAFlags { bits: 0 }
    }
}

/// Genetic-algorithm individual: the capability contract a candidate
/// solution offers the engine.
///
/// The raw score is the unscaled evaluation output; the fitness score is the
/// value selection samples against, produced from the raw score by a scaling
/// strategy. Both are fixed-point integers (millionths).
pub trait GAIndividual: Sized {
    /// The problem-specific context evaluation reads, chosen by the
    /// integrator.
    type EvalCtx;

    /// The raw score this individual carries.
    spec fn raw_spec(self) -> int;

    /// The fitness score this individual carries.
    spec fn fitness_spec(self) -> int;

    /// What this individual's crossover may produce: how the child and the
    /// random context after the call relate to the parents and the context
    /// before it. Each implementor defines it (`true` leaves the hook fully
    /// free); the engine's contracts pass it through to callers.
    spec fn crossover_spec(
        self,
        other: Self,
        rng0: GARandomCtx,
        rng1: GARandomCtx,
        child: Self,
    ) -> bool;

    /// What this individual's mutation may produce: how the individual and
    /// the random context after the call relate to those before it, under
    /// the given probability.
    spec fn mutate_spec(
        self,
        p_mutation: u32,
        rng0: GARandomCtx,
        rng1: GARandomCtx,
        post: Self,
    ) -> bool;

    /// Reads the raw score.
    fn raw(&self) -> (r: i64)
        ensures
            r as int == self.raw_spec(),
    ;

    /// Writes the raw score, leaving the fitness score alone.
    fn set_raw(&mut self, r: i64)
        ensures
            final(self).raw_spec() == r as int,
            final(self).fitness_spec() == old(self).fitness_spec(),
    ;

    /// Reads the fitness score.
    fn fitness(&self) -> (r: i64)
        ensures
            r as int == self.fitness_spec(),
    ;

    /// Writes the fitness score, leaving the raw score alone.
    fn set_fitness(&mut self, f: i64)
        ensures
            final(self).fitness_spec() == f as int,
            final(self).raw_spec() == old(self).raw_spec(),
    ;

    /// Produces an offspring of this individual and `other`. What the child
    /// looks like is the application's business; `crossover_spec` records
    /// whatever the application promises of it.
    fn crossover(&self, other: &Self, rng_ctx: &mut GARandomCtx) -> (r: Self)
        ensures
            self.crossover_spec(*other, *old(rng_ctx), *final(rng_ctx), r),
    ;

    /// Perturbs this individual; `p_mutation` is the per-element mutation
    /// probability in millionths. How it is applied is the application's
    /// business; `mutate_spec` records whatever the application promises.
    fn mutate(&mut self, p_mutation: u32, rng_ctx: &mut GARandomCtx)
        ensures
            old(self).mutate_spec(p_mutation, *old(rng_ctx), *final(rng_ctx), *final(self)),
    ;

    /// Produces the individual that passes into the next generation when
    /// crossover is not applied: a copy that keeps both scores.
    fn duplicate(&self) -> (r: Self)
        ensures
            r.raw_spec() == self.raw_spec(),
            r.fitness_spec() == self.fitness_spec(),
    ;

    /// Recomputes this individual's scores from the evaluation context and
    /// returns the fitness score.
    fn evaluate(&mut self, evaluation_ctx: &mut Self::EvalCtx) -> i64;
}

/// Genetic-algorithm individual factory: how the application bootstraps
/// populations of its own individuals.
pub trait GAFactory<T: GAIndividual> {
    /// Which populations this factory hands out as a run's start. Each
    /// factory defines it; a driver built over the factory passes it through
    /// to callers.
    spec fn initial_spec(&self, pop: GAPopulation<T>) -> bool;

    /// The population a run starts from.
    fn initial_population(&mut self) -> (pop: GAPopulation<T>)
        ensures
            pop.wf(),
            old(self).initial_spec(pop),
    ;

    /// A population of `n` individuals with randomized raw scores.
    fn random_population(
        &mut self,
        n: usize,
        sort_order: GAPopulationSortOrder,
        rng_ctx: &mut GARandomCtx,
    ) -> (pop: GAPopulation<T>)
        ensures
            pop.wf(),
            pop.size_spec() == n,
            pop.sort_order_spec() == sort_order,
    ;

    /// A population expected to improve on `pop`; how much better is the
    /// factory's business.
    fn better_random_population_than(&mut self, pop: &GAPopulation<T>) -> (r: GAPopulation<T>)
        ensures
            r.wf(),
    {
        GAPopulation::new(Vec::new(), GAPopulationSortOrder::LowIsBest)
    }
}

/// The generational state machine: initialize once, step until done. A step
/// performs one generation — refresh scaling, update selection, draw parent
/// pairs, produce offspring, replace the population — and reports the new
/// generation counter, so a caller can drive a loop without bookkeeping.
pub trait GeneticAlgorithm<T: GAIndividual>: Sized {
    /// The driver's internal validity.
    spec fn inv(&self) -> bool;

    /// How many generations have been completed.
    spec fn generation_spec(&self) -> int;

    /// The configured generation limit.
    spec fn max_generations_spec(&self) -> int;

    /// The population the driver owns.
    spec fn population_spec(&self) -> GAPopulation<T>;

    /// What a step demands of the driver beyond validity (say, that the
    /// scaling scheme accepts the current raw scores).
    spec fn step_ready(&self) -> bool;

    /// The current population.
    fn population(&self) -> (p: &GAPopulation<T>)
        requires
            self.inv(),
        ensures
            *p == self.population_spec(),
    ;

    /// Checks that a run can start: there must be at least one individual.
    /// Fails with `EmptyPopulation` otherwise — a caller configuration
    /// error, surfaced rather than retried.
    fn initialize(&mut self) -> (r: Result<(), GAError>)
        requires
            old(self).inv(),
        ensures
            final(self).inv(),
            *final(self) == *old(self),
            if old(self).population_spec().size_spec() > 0 {
                r == Ok::<(), GAError>(())
            } else {
                r == Err::<(), GAError>(GAError::EmptyPopulation)
            },
    {
        self.initialize_internal()
    }

    /// Performs one generation and returns the new generation counter.
    /// Fails with `AlreadyDone` once the limit is reached and with
    /// `EmptyPopulation` when there is nothing to evolve; either failure
    /// leaves the driver untouched.
    fn step(&mut self) -> (r: Result<i32, GAError>)
        requires
            old(self).inv(),
            old(self).step_ready(),
        ensures
            final(self).inv(),
            final(self).max_generations_spec() == old(self).max_generations_spec(),
            if old(self).generation_spec() >= old(self).max_generations_spec() {
                r == Err::<i32, GAError>(GAError::AlreadyDone) && *final(self) == *old(self)
            } else if old(self).population_spec().size_spec() == 0 {
                r == Err::<i32, GAError>(GAError::EmptyPopulation) && *final(self) == *old(self)
            } else {
                &&& final(self).generation_spec() == old(self).generation_spec() + 1
                &&& r matches Ok(g) && g as int == final(self).generation_spec()
                &&& final(self).population_spec().size_spec() == old(
                    self,
                ).population_spec().size_spec()
                &&& final(self).population_spec().sort_order_spec() == old(
                    self,
                ).population_spec().sort_order_spec()
            },
    {
        self.step_internal()
    }

    /// Whether the run has reached its generation limit.
    fn done(&self) -> (r: bool)
        requires
            self.inv(),
        ensures
            r == (self.generation_spec() >= self.max_generations_spec()),
    {
        self.done_internal()
    }

    /// The implementation behind `initialize`, with the same contract.
    fn initialize_internal(&mut self) -> (r: Result<(), GAError>)
        requires
            old(self).inv(),
        ensures
            final(self).inv(),
            *final(self) == *old(self),
            if old(self).population_spec().size_spec() > 0 {
                r == Ok::<(), GAError>(())
            } else {
                r == Err::<(), GAError>(GAError::EmptyPopulation)
            },
    ;

    /// The implementation behind `step`, with the same contract.
    fn step_internal(&mut self) -> (r: Result<i32, GAError>)
        requires
            old(self).inv(),
            old(self).step_ready(),
        ensures
            final(self).inv(),
            final(self).max_generations_spec() == old(self).max_generations_spec(),
            if old(self).generation_spec() >= old(self).max_generations_spec() {
                r == Err::<i32, GAError>(GAError::AlreadyDone) && *final(self) == *old(self)
            } else if old(self).population_spec().size_spec() == 0 {
                r == Err::<i32, GAError>(GAError::EmptyPopulation) && *final(self) == *old(self)
            } else {
                &&& final(self).generation_spec() == old(self).generation_spec() + 1
                &&& r matches Ok(g) && g as int == final(self).generation_spec()
                &&& final(self).population_spec().size_spec() == old(
                    self,
                ).population_spec().size_spec()
                &&& final(self).population_spec().sort_order_spec() == old(
                    self,
                ).population_spec().sort_order_spec()
            },
    ;

    /// The implementation behind `done`, with the same contract.
    fn done_internal(&self) -> (r: bool)
        requires
            self.inv(),
        ensures
            r == (self.generation_spec() >= self.max_generations_spec()),
    ;
}

} // verus!
