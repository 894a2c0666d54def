//! Test utilities: a minimal individual whose reproduction hooks are no-ops
//! and a factory that builds one-individual populations, plus the setup and
//! teardown entry points test suites call around each case.

use vstd::prelude::*;

use crate::ga_core::{GAFactory, GAIndividual};
use crate::ga_population::{GAPopulation, GAPopulationSortOrder};
use crate::ga_random::{GARandomCtx, GA_PROBABILITY_ONE};

verus! {

/// A raw score tests reuse (about 3.14159, in millionths).
pub const GA_TEST_FITNESS_VAL: i64 = 3141590;

/// One in fixed-point millionths, squared: the numerator that inverts a
/// fixed-point value.
pub const GA_TEST_INVERSE_ONE: i64 = 1_000_000_000_000;

/// The fixed-point inverse of `rs`, rounded toward zero; zero inverts to
/// zero. Inversion reverses the order of positive scores, which is what the
/// test individual uses it for.
pub open spec fn inverse_fitness(rs: int) -> int {
    if rs > 0 {
        GA_TEST_INVERSE_ONE as int / rs
    } else if rs < 0 {
        -(GA_TEST_INVERSE_ONE as int / -rs)
    } else {
        0
    }
}

/// Prepares whatever a test run needs before its first case. Diagnostics
/// are the harness's business, so there is nothing to set up here.
pub fn ga_test_setup(test_name: &str) {
    ga_test_setup_internal(test_name);
}

fn ga_test_setup_internal(_test_name: &str) {
}

/// Releases whatever `ga_test_setup` prepared.
pub fn ga_test_teardown() {
}

/// A test individual: its raw score is fixed at construction, its fitness
/// score starts as the raw score's fixed-point inverse, and its reproduction
/// hooks do nothing.
#[derive(Clone, Copy, Debug)]
pub struct GATestSolution {
    score: i64,
    fitness: i64,
}

impl GATestSolution {
    /// Creates a test individual with raw score `rs` and its inverse as the
    /// starting fitness.
    pub fn new(rs: i64) -> (r: GATestSolution)
        ensures
            r.raw_spec() == rs as int,
            r.fitness_spec() == inverse_fitness(rs as int),
    {
        let fitness: i64 = if rs > 0 {
            let q = (GA_TEST_INVERSE_ONE as u64) / (rs as u64);
            proof {
                vstd::arithmetic::div_mod::lemma_div_nonincreasing(
                    GA_TEST_INVERSE_ONE as int,
                    rs as int,
                );
                vstd::arithmetic::div_mod::lemma_div_pos_is_pos(
                    GA_TEST_INVERSE_ONE as int,
                    rs as int,
                );
            }
            q as i64
        } else if rs < 0 {
            let na = (-(rs as i128)) as u64;
            let q = (GA_TEST_INVERSE_ONE as u64) / na;
            proof {
                vstd::arithmetic::div_mod::lemma_div_nonincreasing(
                    GA_TEST_INVERSE_ONE as int,
                    na as int,
                );
                vstd::arithmetic::div_mod::lemma_div_pos_is_pos(
                    GA_TEST_INVERSE_ONE as int,
                    na as int,
                );
            }
            -(q as i64)
        } else {
            0
        };
        GATestSolution { score: rs, fitness }
    }

    /// The raw score, under its scoring-hook name.
    pub fn score(&self) -> (r: i64)
        ensures
            r as int == self.raw_spec(),
    {
        self.score
    }
}

impl GAIndividual for GATestSolution {
    /// Evaluation needs no context.
    type EvalCtx = ();

    /// The stored raw score.
    closed spec fn raw_spec(self) -> int {
        self.score as int
    }

    /// The stored fitness score.
    closed spec fn fitness_spec(self) -> int {
        self.fitness as int
    }

    /// Crossover of a test individual hands back a copy of the first parent
    /// and leaves the random context alone.
    open spec fn crossover_spec(
        self,
        other: Self,
        rng0: GARandomCtx,
        rng1: GARandomCtx,
        child: Self,
    ) -> bool {
        &&& child == self
        &&& rng1 == rng0
    }

    /// Mutation of a test individual changes nothing.
    open spec fn mutate_spec(
        self,
        p_mutation: u32,
        rng0: GARandomCtx,
        rng1: GARandomCtx,
        post: Self,
    ) -> bool {
        &&& post == self
        &&& rng1 == rng0
    }

    fn raw(&self) -> (r: i64) {
        self.score
    }

    fn set_raw(&mut self, r: i64) {
        self.score = r;
    }

    fn fitness(&self) -> (r: i64) {
        self.fitness
    }

    fn set_fitness(&mut self, f: i64) {
        self.fitness = f;
    }

    /// No-op crossover: the offspring is deliberately a plain copy of this
    /// individual (every hook of the test solution does nothing), so tests
    /// can watch scores survive reproduction.
    fn crossover(&self, other: &Self, rng_ctx: &mut GARandomCtx) -> (r: Self)
        ensures
            r == *self,
    {
        *self
    }

    /// A field-for-field copy.
    fn duplicate(&self) -> (r: Self)
        ensures
            r == *self,
    {
        *self
    }

    /// No-op mutation.
    fn mutate(&mut self, p_mutation: u32, rng_ctx: &mut GARandomCtx)
        ensures
            *final(self) == *old(self),
    {
    }

    /// The scores are fixed at construction; evaluation just reads the
    /// fitness back.
    fn evaluate(&mut self, evaluation_ctx: &mut ()) -> (r: i64)
        ensures
            *final(self) == *old(self),
            r as int == old(self).fitness_spec(),
    {
        self.fitness
    }
}

/// A factory of test individuals, all starting from one configured score.
pub struct GATestFactory {
    starting_score: i64,
}

impl GATestFactory {
    /// The score every individual of this factory starts from.
    pub closed spec fn starting_score_spec(self) -> int {
        self.starting_score as int
    }

    /// Creates a factory whose individuals start from `starting_score`.
    pub fn new(starting_score: i64) -> (r: GATestFactory)
        ensures
            r.starting_score_spec() == starting_score as int,
    {
        GATestFactory { starting_score }
    }
}

impl GAFactory<GATestSolution> for GATestFactory {
    /// One individual equal to `GATestSolution::new` of the starting score,
    /// preferring high scores.
    open spec fn initial_spec(&self, pop: GAPopulation<GATestSolution>) -> bool {
        &&& pop.size_spec() == 1
        &&& pop.sort_order_spec() == GAPopulationSortOrder::HighIsBest
        &&& pop.members()[0].raw_spec() == self.starting_score_spec()
        &&& pop.members()[0].fitness_spec() == inverse_fitness(self.starting_score_spec())
    }

    /// One individual with the configured starting score and its inverse as
    /// the starting fitness, preferring high scores.
    fn initial_population(&mut self) -> (pop: GAPopulation<GATestSolution>)
        ensures
            pop.size_spec() == 1,
            pop.members()[0].raw_spec() == old(self).starting_score_spec(),
            pop.members()[0].fitness_spec() == inverse_fitness(old(self).starting_score_spec()),
            pop.sort_order_spec() == GAPopulationSortOrder::HighIsBest,
    {
        let mut individuals: Vec<GATestSolution> = Vec::new();
        individuals.push(GATestSolution::new(self.starting_score));
        GAPopulation::new(individuals, GAPopulationSortOrder::HighIsBest)
    }

    /// `n` individuals with uniformly drawn raw scores below one.
    fn random_population(
        &mut self,
        n: usize,
        sort_order: GAPopulationSortOrder,
        rng_ctx: &mut GARandomCtx,
    ) -> (pop: GAPopulation<GATestSolution>)
        ensures
            forall|j: int| 0 <= j < n ==> 0 <= #[trigger] pop.raws()[j] < GA_PROBABILITY_ONE,
    {
        let mut individuals: Vec<GATestSolution> = Vec::new();
        let mut i: usize = 0;
        while i < n
            invariant
                i <= n,
                individuals@.len() == i,
                forall|j: int|
                    0 <= j < i ==> 0 <= #[trigger] individuals@[j].raw_spec()
                        < GA_PROBABILITY_ONE,
            decreases n - i,
        {
            let score = rng_ctx.next_below(GA_PROBABILITY_ONE as u64) as i64;
            individuals.push(GATestSolution::new(score));
            i += 1;
        }
        GAPopulation::new(individuals, sort_order)
    }
}

} // verus!
