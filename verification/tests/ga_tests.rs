//! Driver, population and selector tests.

use rust_monster::ga_core::{GAError, GAFactory, GAFlags, GAIndividual, GeneticAlgorithm, DEBUG_FLAG};
use rust_monster::ga_population::{
    GAPopulation, GAPopulationSortBasis, GAPopulationSortOrder,
};
use rust_monster::ga_random::GARandomCtx;
use rust_monster::ga_scaling::{GALinearScaling, GANoScaling, GA_LINEAR_SCALING_MULTIPLIER};
use rust_monster::ga_selectors::{
    GARankSelector, GARouletteWheelSelector, GASelector, GATournamentSelector, GAUniformSelector,
};
use rust_monster::ga_simple::{SimpleGeneticAlgorithm, SimpleGeneticAlgorithmCfg};
use rust_monster::ga_test::{
    ga_test_setup, ga_test_teardown, GATestFactory, GATestSolution, GA_TEST_FITNESS_VAL,
};
const VAL: i64 = GA_TEST_FITNESS_VAL;
const VAL_MINUS_ONE: i64 = GA_TEST_FITNESS_VAL - 1_000_000;

fn test_cfg() -> SimpleGeneticAlgorithmCfg {
    SimpleGeneticAlgorithmCfg {
        d_seed: 1,
        flags: GAFlags { bits: DEBUG_FLAG },
        max_generations: 100,
        ..Default::default()
    }
}

fn simple_ga_validation(
    sga: &mut SimpleGeneticAlgorithm<GATestSolution, GANoScaling, GAUniformSelector>,
) {
    assert_eq!(sga.initialize(), Ok(()));
    assert_eq!(sga.step(), Ok(1));
    assert_eq!(sga.done(), false);
    assert_eq!(sga.population().size(), 1);
    assert_eq!(sga.population().member_at(0).unwrap().score(), VAL);
}

#[test]
fn init_test_with_initial_population() {
    ga_test_setup("ga_simple::init_test_with_initial_population");
    let initial_population = GAPopulation::new(
        vec![GATestSolution::new(VAL)],
        GAPopulationSortOrder::HighIsBest,
    );
    let mut ga = SimpleGeneticAlgorithm::new(
        test_cfg(),
        None::<&mut GATestFactory>,
        Some(initial_population),
    )
    .unwrap();
    simple_ga_validation(&mut ga);
    ga_test_teardown();
}

#[test]
fn init_test_with_factory() {
    ga_test_setup("ga_simple::init_test_with_factory");
    let mut factory = GATestFactory::new(VAL);
    let mut ga =
        SimpleGeneticAlgorithm::new(test_cfg(), Some(&mut factory), None).unwrap();
    simple_ga_validation(&mut ga);
    ga_test_teardown();
}

#[test]
fn init_test_missing_args() {
    ga_test_setup("ga_simple::init_test_missing_args");
    let r = SimpleGeneticAlgorithm::<GATestSolution, GANoScaling, GAUniformSelector>::new(
        test_cfg(),
        None::<&mut GATestFactory>,
        None,
    );
    assert!(matches!(r, Err(GAError::EmptyPopulation)));
    ga_test_teardown();
}

#[test]
fn init_test_empty_initial_pop() {
    ga_test_setup("ga_simple::init_test_empty_initial_pop");
    let empty_initial_population: GAPopulation<GATestSolution> =
        GAPopulation::new(vec![], GAPopulationSortOrder::HighIsBest);
    let mut ga = SimpleGeneticAlgorithm::new(
        test_cfg(),
        None::<&mut GATestFactory>,
        Some(empty_initial_population),
    )
    .unwrap();
    assert_eq!(ga.initialize(), Err(GAError::EmptyPopulation));
    ga_test_teardown();
}

#[test]
fn test_sort_population() {
    let f = VAL;
    let f_m = VAL_MINUS_ONE;
    let i_f = GATestSolution::new(f).fitness();
    let i_f_m = GATestSolution::new(f_m).fitness();

    let mut population = GAPopulation::new(
        vec![GATestSolution::new(f), GATestSolution::new(f_m)],
        GAPopulationSortOrder::HighIsBest,
    );
    population.sort();

    // the test solution's fitness is the fixed-point inverse of its score
    assert_eq!(
        population.individual(0, GAPopulationSortBasis::Raw).unwrap().score(),
        f
    );
    assert_eq!(
        population.individual(1, GAPopulationSortBasis::Raw).unwrap().score(),
        f_m
    );
    assert_eq!(
        population.individual(0, GAPopulationSortBasis::Scaled).unwrap().fitness(),
        i_f_m
    );
    assert_eq!(
        population.individual(1, GAPopulationSortBasis::Scaled).unwrap().fitness(),
        i_f
    );
}

#[test]
fn test_rank_selector() {
    let f = VAL;
    let f_m = VAL_MINUS_ONE;
    let i_f_m = GATestSolution::new(f_m).fitness();

    let mut population = GAPopulation::new(
        vec![GATestSolution::new(f), GATestSolution::new(f_m)],
        GAPopulationSortOrder::HighIsBest,
    );
    let mut rng = GARandomCtx::new(0);

    {
        let mut raw_rank_selector = GARankSelector::new(GAPopulationSortBasis::Raw);
        raw_rank_selector.update(&mut population);
        // the best raw score is the first solution's
        assert_eq!(raw_rank_selector.select(&population, &mut rng).score(), f);
    }

    {
        let mut scaled_rank_selector = GARankSelector::new(GAPopulationSortBasis::Scaled);
        scaled_rank_selector.update(&mut population);
        // fitness inverts the score, so the best scaled score is the second
        // solution's
        assert_eq!(
            scaled_rank_selector.select(&population, &mut rng).fitness(),
            i_f_m
        );
    }
}

#[test]
fn test_uniform_selector() {
    let f = VAL;
    let f_m = VAL_MINUS_ONE;

    let mut population = GAPopulation::new(
        vec![GATestSolution::new(f), GATestSolution::new(f_m)],
        GAPopulationSortOrder::HighIsBest,
    );
    let mut rng = GARandomCtx::new(0);

    let mut uniform_selector = GAUniformSelector::new();
    uniform_selector.update(&mut population);

    let selected_individual = uniform_selector.select(&population, &mut rng);
    assert!(selected_individual.score() == f || selected_individual.score() == f_m);
}

#[test]
fn test_roulette_wheel_selector() {
    let mut rng = GARandomCtx::new(42);
    let mut individuals = vec![];
    for _ in 1..20 {
        individuals.push(GATestSolution::new(rng.next_below(1_000_000) as i64));
    }

    let mut population = GAPopulation::new(individuals, GAPopulationSortOrder::LowIsBest);

    {
        let mut raw_roulette_wheel_selector =
            GARouletteWheelSelector::new(GAPopulationSortBasis::Raw);
        raw_roulette_wheel_selector.update(&mut population);
        raw_roulette_wheel_selector.select(&population, &mut rng);
    }

    {
        let mut scaled_roulette_wheel_selector =
            GARouletteWheelSelector::new(GAPopulationSortBasis::Scaled);
        scaled_roulette_wheel_selector.update(&mut population);
        scaled_roulette_wheel_selector.select(&population, &mut rng);
    }
}

#[test]
fn test_tournament_selector() {
    let mut rng = GARandomCtx::new(42);
    let mut individuals = vec![];
    for _ in 1..20 {
        individuals.push(GATestSolution::new(rng.next_below(1_000_000) as i64));
    }

    let mut population = GAPopulation::new(individuals, GAPopulationSortOrder::LowIsBest);

    {
        let mut raw_tournament_selector =
            GATournamentSelector::new(GAPopulationSortBasis::Raw, 2);
        raw_tournament_selector.update(&mut population);
        raw_tournament_selector.select(&population, &mut rng);
    }

    {
        let mut scaled_tournament_selector =
            GATournamentSelector::new(GAPopulationSortBasis::Scaled, 2);
        scaled_tournament_selector.update(&mut population);
        scaled_tournament_selector.select(&population, &mut rng);
    }
}

#[test]
fn best_and_worst_follow_sort_order() {
    let mut population = GAPopulation::new(
        vec![
            GATestSolution::new(3_000_000),
            GATestSolution::new(7_000_000),
            GATestSolution::new(1_000_000),
        ],
        GAPopulationSortOrder::HighIsBest,
    );
    population.sort();
    assert_eq!(
        population.best(GAPopulationSortBasis::Raw).unwrap().score(),
        7_000_000
    );
    assert_eq!(
        population.worst(GAPopulationSortBasis::Raw).unwrap().score(),
        1_000_000
    );

    let mut low_population = GAPopulation::new(
        vec![
            GATestSolution::new(3_000_000),
            GATestSolution::new(7_000_000),
            GATestSolution::new(1_000_000),
        ],
        GAPopulationSortOrder::LowIsBest,
    );
    low_population.sort();
    assert_eq!(
        low_population.best(GAPopulationSortBasis::Raw).unwrap().score(),
        1_000_000
    );
    assert_eq!(
        low_population.worst(GAPopulationSortBasis::Raw).unwrap().score(),
        7_000_000
    );
}

#[test]
fn sort_is_stable_for_equal_scores() {
    // three members with equal raw scores keep their insertion order
    let mut population = GAPopulation::new(
        vec![
            GATestSolution::new(5_000_000),
            GATestSolution::new(5_000_000),
            GATestSolution::new(9_000_000),
        ],
        GAPopulationSortOrder::LowIsBest,
    );
    population.sort();
    // equal scores come out in insertion order, the larger one last
    assert_eq!(
        population.individual(2, GAPopulationSortBasis::Raw).unwrap().score(),
        9_000_000
    );
    // the two equal members are indistinguishable by score; stability is
    // observable through the rank selector returning the first inserted
    let mut rank = GARankSelector::new(GAPopulationSortBasis::Raw);
    rank.update(&mut population);
    let mut rng = GARandomCtx::new(0);
    let chosen = rank.select(&population, &mut rng);
    assert_eq!(chosen.score(), 5_000_000);
}

#[test]
fn rank_selector_is_deterministic() {
    // raw scores 3.0, 7.0, 1.0 under HighIsBest: rank always selects 7.0
    let mut population = GAPopulation::new(
        vec![
            GATestSolution::new(3_000_000),
            GATestSolution::new(7_000_000),
            GATestSolution::new(1_000_000),
        ],
        GAPopulationSortOrder::HighIsBest,
    );
    let mut rank = GARankSelector::new(GAPopulationSortBasis::Raw);
    rank.update(&mut population);
    let mut rng = GARandomCtx::new(99);
    for _ in 0..50 {
        assert_eq!(rank.select(&population, &mut rng).score(), 7_000_000);
    }
}

#[test]
fn index_out_of_range_is_reported() {
    let mut population = GAPopulation::new(
        vec![GATestSolution::new(1_000_000)],
        GAPopulationSortOrder::HighIsBest,
    );
    population.sort();
    assert!(matches!(
        population.individual(1, GAPopulationSortBasis::Raw),
        Err(GAError::IndexOutOfRange)
    ));
    assert!(matches!(population.member_at(7), Err(GAError::IndexOutOfRange)));
}

#[test]
fn empty_population_is_reported() {
    let mut population: GAPopulation<GATestSolution> =
        GAPopulation::new(vec![], GAPopulationSortOrder::HighIsBest);
    population.sort();
    assert!(matches!(
        population.best(GAPopulationSortBasis::Raw),
        Err(GAError::EmptyPopulation)
    ));
    assert!(matches!(
        population.worst(GAPopulationSortBasis::Scaled),
        Err(GAError::EmptyPopulation)
    ));
}

#[test]
fn invalid_probability_is_reported() {
    let cfg = SimpleGeneticAlgorithmCfg {
        percentage_crossover: 1_000_001,
        ..Default::default()
    };
    let population = GAPopulation::new(
        vec![GATestSolution::new(VAL)],
        GAPopulationSortOrder::HighIsBest,
    );
    let r = SimpleGeneticAlgorithm::new(cfg, None::<&mut GATestFactory>, Some(population));
    assert!(matches!(r, Err(GAError::InvalidProbability)));
}

#[test]
fn driver_runs_to_its_limit_and_stops() {
    let cfg = SimpleGeneticAlgorithmCfg {
        d_seed: 7,
        max_generations: 5,
        percentage_crossover: 500_000,
        probability_mutation: 10_000,
        ..Default::default()
    };
    let population = GAPopulation::new(
        vec![
            GATestSolution::new(VAL),
            GATestSolution::new(VAL_MINUS_ONE),
        ],
        GAPopulationSortOrder::HighIsBest,
    );
    let mut ga =
        SimpleGeneticAlgorithm::new(cfg, None::<&mut GATestFactory>, Some(population)).unwrap();
    assert_eq!(ga.initialize(), Ok(()));
    let mut generations: i32 = 0;
    while !ga.done() {
        let g = ga.step().unwrap();
        generations += 1;
        assert_eq!(g, generations);
        assert_eq!(ga.population().size(), 2);
    }
    assert_eq!(generations, 5);
    assert_eq!(ga.step(), Err(GAError::AlreadyDone));
}

#[test]
fn driver_with_scaling_and_roulette() {
    let cfg = SimpleGeneticAlgorithmCfg {
        d_seed: 3,
        max_generations: 3,
        percentage_crossover: 900_000,
        ..Default::default()
    };
    let population = GAPopulation::new(
        vec![
            GATestSolution::new(1_000_000),
            GATestSolution::new(3_000_000),
            GATestSolution::new(2_000_000),
        ],
        GAPopulationSortOrder::HighIsBest,
    );
    let mut ga = SimpleGeneticAlgorithm::new_with_strategies(
        cfg,
        None::<&mut GATestFactory>,
        Some(population),
        GALinearScaling::new(GA_LINEAR_SCALING_MULTIPLIER),
        GARouletteWheelSelector::new(GAPopulationSortBasis::Scaled),
    )
    .unwrap();
    assert_eq!(ga.initialize(), Ok(()));
    assert_eq!(ga.step(), Ok(1));
    assert_eq!(ga.step(), Ok(2));
    assert_eq!(ga.step(), Ok(3));
    assert!(ga.done());
    assert_eq!(ga.population().size(), 3);
}

#[test]
fn tournament_selects_best_of_subset() {
    // with a tournament as large as the population, the winner is its best
    let mut population = GAPopulation::new(
        vec![
            GATestSolution::new(4_000_000),
            GATestSolution::new(8_000_000),
            GATestSolution::new(6_000_000),
        ],
        GAPopulationSortOrder::HighIsBest,
    );
    let mut tournament = GATournamentSelector::new(GAPopulationSortBasis::Raw, 64);
    tournament.update(&mut population);
    let mut rng = GARandomCtx::new(11);
    // 64 uniform draws out of 3 members miss one with negligible probability
    let chosen = tournament.select(&population, &mut rng);
    assert_eq!(chosen.score(), 8_000_000);
}

#[test]
fn factory_builds_random_populations() {
    let mut factory = GATestFactory::new(VAL);
    let mut rng = GARandomCtx::new(5);
    let population =
        factory.random_population(8, GAPopulationSortOrder::LowIsBest, &mut rng);
    assert_eq!(population.size(), 8);
    assert_eq!(population.order(), GAPopulationSortOrder::LowIsBest);
    for i in 0..population.size() {
        let score = population.member_at(i).unwrap().score();
        assert!(0 <= score && score < 1_000_000);
    }
}

#[test]
fn flags_report_their_bits() {
    let flags = GAFlags { bits: DEBUG_FLAG };
    assert!(flags.contains(DEBUG_FLAG));
    let none = GAFlags::default();
    assert!(!none.contains(DEBUG_FLAG));
    assert_eq!(none.bits, 0);
}

#[test]
fn test_solution_hooks_are_no_ops() {
    let mut rng = GARandomCtx::new(8);
    let mut a = GATestSolution::new(VAL);
    let b = GATestSolution::new(VAL_MINUS_ONE);
    let child = a.crossover(&b, &mut rng);
    assert_eq!(child.score(), a.score());
    assert_eq!(child.fitness(), a.fitness());
    let copy = a.duplicate();
    assert_eq!(copy.score(), a.score());
    assert_eq!(copy.fitness(), a.fitness());
    a.mutate(500_000, &mut rng);
    assert_eq!(a.score(), VAL);
    assert_eq!(a.evaluate(&mut ()), a.fitness());
    a.set_fitness(42);
    assert_eq!(a.fitness(), 42);
    assert_eq!(a.score(), VAL);
    a.set_raw(7);
    assert_eq!(a.raw(), 7);
    assert_eq!(a.fitness(), 42);
}
