use biocomputation_ga::candidate::Candidate;
use biocomputation_ga::crossover::{
    CrossoverStrategy, CrossoverStrategyCommonOptions, MatchupStrategy, MatingStrategy,
    MirroringStrategy,
};
use biocomputation_ga::dataitem::DataItem;
use biocomputation_ga::dataset::DataSet;
use biocomputation_ga::driver::evolve_generation;
use biocomputation_ga::ga_spec::{CalculatedSpecs, GaSpec, InitialGenerationComponentSpec,
    InitialGenerationSpec};
use biocomputation_ga::mutation::{MutationStrategy, MutationStrategyCommonOptions,
    MutationStrategyVariant};
use biocomputation_ga::population::Population;
use biocomputation_ga::rule::Rule;
use biocomputation_ga::selection::{DuplicateHandlingStrategy, SelectionStrategy,
    SelectionStrategyCommonOptions, SelectionStrategyVariant, TournamentSelection};

fn component(min: usize, max: usize) -> InitialGenerationComponentSpec {
    InitialGenerationComponentSpec::new(min, max, 5).unwrap()
}

fn ga_spec(stop_at_optimum_fitness: bool) -> GaSpec {
    GaSpec {
        initial_generation: InitialGenerationSpec {
            candidates: component(2, 4),
            rules: component(1, 3),
            constraints: component(1, 3),
        },
        max_evolutions: 1,
        stop_at_optimum_fitness,
        selection: SelectionStrategy {
            options: SelectionStrategyCommonOptions {
                selection_size: 2,
                duplicates: DuplicateHandlingStrategy::Allow,
            },
            variant: SelectionStrategyVariant::Tournament(TournamentSelection {
                tournament_size: 2,
            }),
        },
        crossover: CrossoverStrategy::new(
            MatchupStrategy::NextFittest,
            MatingStrategy::SinglePointAtIndex { split_at: 1 },
            CrossoverStrategyCommonOptions::new(MirroringStrategy::Never),
        ),
        mutation: MutationStrategy {
            options: MutationStrategyCommonOptions {
                chance: None,
                chance_per_candidate: None,
                chance_per_rule: None,
                chance_per_constraint: None,
            },
            variant: MutationStrategyVariant::ConstraintValueRandomize,
        },
        calculated: CalculatedSpecs {
            alphabet: vec!['0', '1'],
            max_index: 5,
        },
    }
}

fn rule_at(position: usize, symbol: char) -> Rule {
    let mut rule = Rule::new();
    rule.set_constraint(position, symbol);
    rule
}

fn four_candidates() -> Population {
    let mut population = Population::new();
    population.insert(Candidate::from_rules(&vec![rule_at(0, '1')]));
    population.insert(Candidate::from_rules(&vec![rule_at(1, '1')]));
    population.insert(Candidate::from_rules(&vec![rule_at(2, '1')]));
    population.insert(Candidate::from_rules(&vec![rule_at(3, '1')]));
    population
}

fn data_set(lines: &[&str]) -> DataSet {
    let mut set = DataSet::new();
    for line in lines {
        set.push(DataItem::parse(line).unwrap()).unwrap();
    }
    set
}

#[test]
fn test_one_evolution_advances_generation() {
    // A population of four candidates, one evolution, no optimum stop: the
    // generation counter ends at two and the population never shrinks.
    let spec = ga_spec(false);
    let mut population = four_candidates();
    let set = data_set(&["10000 1", "01000 0", "00100 1", "00010 0"]);
    assert_eq!(population.generation(), 1);
    let before = population.len();
    let stats = evolve_generation(&mut population, &set, &spec).unwrap();
    assert_eq!(population.generation(), 2);
    assert!(population.len() >= before);
    assert_eq!(stats.generation, 1);
    assert_eq!(stats.population_size, before);
    assert_eq!(stats.selected, 2);
    assert!(!stats.stopped);
    assert!(stats.max_fitness <= set.len());
    assert!(stats.min_fitness <= stats.max_fitness);
}

#[test]
fn test_stop_at_optimum_keeps_generation() {
    // A candidate that classifies every example keeps the best fitness at
    // the example count, so the optimum stop fires and the counter stays.
    let spec = ga_spec(true);
    let mut population = four_candidates();
    population.insert(Candidate::from_rules(&vec![rule_at(0, '1'), rule_at(4, '1')]));
    let set = data_set(&["10000 1", "00000 0"]);
    let stats = evolve_generation(&mut population, &set, &spec).unwrap();
    assert!(stats.stopped);
    assert_eq!(stats.max_fitness, set.len());
    assert_eq!(population.generation(), 1);
}

#[test]
fn test_fitness_error_aborts_run() {
    // An example narrower than a rule's constraints makes the whole
    // generation fail before anything changes.
    let spec = ga_spec(false);
    let mut population = Population::new();
    population.insert(Candidate::from_rules(&vec![rule_at(10, '1')]));
    population.insert(Candidate::from_rules(&vec![rule_at(0, '1')]));
    let set = data_set(&["10000 1"]);
    assert!(evolve_generation(&mut population, &set, &spec).is_err());
    assert_eq!(population.generation(), 1);
    assert_eq!(population.len(), 2);
}
