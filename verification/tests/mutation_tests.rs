use biocomputation_ga::candidate::Candidate;
use biocomputation_ga::crossover::{
    CrossoverStrategy, CrossoverStrategyCommonOptions, MatchupStrategy, MatingStrategy,
    MirroringStrategy,
};
use biocomputation_ga::ga_spec::{CalculatedSpecs, GaSpec, InitialGenerationComponentSpec,
    InitialGenerationSpec};
use biocomputation_ga::mutation::{MutationError, MutationStrategy, MutationStrategyCommonOptions,
    MutationStrategyVariant};
use biocomputation_ga::population::Population;
use biocomputation_ga::rule::Rule;
use biocomputation_ga::selection::{DuplicateHandlingStrategy, SelectionStrategy,
    SelectionStrategyCommonOptions, SelectionStrategyVariant, TournamentSelection};

fn component(min: usize, max: usize) -> InitialGenerationComponentSpec {
    InitialGenerationComponentSpec::new(min, max, 5).unwrap()
}

fn ga_spec(max_index: usize, mutation: MutationStrategy) -> GaSpec {
    GaSpec {
        initial_generation: InitialGenerationSpec {
            candidates: component(2, 4),
            rules: component(1, 3),
            constraints: component(1, 2),
        },
        max_evolutions: 1,
        stop_at_optimum_fitness: false,
        selection: SelectionStrategy {
            options: SelectionStrategyCommonOptions {
                selection_size: 2,
                duplicates: DuplicateHandlingStrategy::Allow,
            },
            variant: SelectionStrategyVariant::Tournament(TournamentSelection {
                tournament_size: 2,
            }),
        },
        crossover: CrossoverStrategy::new(
            MatchupStrategy::NextFittest,
            MatingStrategy::SinglePointAtIndex { split_at: 1 },
            CrossoverStrategyCommonOptions::new(MirroringStrategy::Never),
        ),
        mutation,
        calculated: CalculatedSpecs {
            alphabet: vec!['0', '1'],
            max_index,
        },
    }
}

fn all_gates(variant: MutationStrategyVariant) -> MutationStrategy {
    MutationStrategy {
        options: MutationStrategyCommonOptions {
            chance: Some(100),
            chance_per_candidate: Some(100),
            chance_per_rule: Some(100),
            chance_per_constraint: Some(100),
        },
        variant,
    }
}

fn rule_at(position: usize, symbol: char) -> Rule {
    let mut rule = Rule::new();
    rule.set_constraint(position, symbol);
    rule
}

#[test]
fn test_value_randomize_rates() {
    // One candidate with a single constraint at position 0, every gate at
    // one hundred percent, width one. Each pass either removes the
    // constraint (chance one in alphabet size plus one, about a third),
    // re-draws the same symbol (no change committed), or assigns the other
    // symbol.
    let strategy = all_gates(MutationStrategyVariant::ConstraintValueRandomize);
    let spec = ga_spec(1, strategy);
    let trials = 1000;
    let mut removed = 0;
    let mut reassigned = 0;
    let mut unchanged = 0;
    for _ in 0..trials {
        let mut population = Population::new();
        population.insert(Candidate::from_rules(&vec![rule_at(0, '0')]));
        strategy.mutate(&mut population, &spec).unwrap();
        assert_eq!(population.len(), 1);
        let candidate = &population.candidates()[0];
        let rule = &candidate.rules()[0];
        match rule.get_constraint(0) {
            None => removed += 1,
            Some('1') => reassigned += 1,
            Some('0') => unchanged += 1,
            Some(other) => panic!("symbol outside the alphabet: {}", other),
        }
    }
    // The removal rate is about one third; keep wide bounds so the test is
    // stable.
    assert!(removed > 150, "removed only {} times", removed);
    assert!(removed < 550, "removed {} times", removed);
    assert!(reassigned > 150);
    assert!(unchanged > 150);
}

#[test]
fn test_randomize_fails_when_no_free_position() {
    // Width one and the only position constrained: every draw collides and
    // the retry budget of zero is exhausted at once.
    let strategy = all_gates(MutationStrategyVariant::ConstraintRandomize {
        swap_if_fail: false,
        retries: 0,
    });
    let spec = ga_spec(1, strategy);
    let mut population = Population::new();
    population.insert(Candidate::from_rules(&vec![rule_at(0, '0')]));
    assert_eq!(
        strategy.mutate(&mut population, &spec).unwrap_err(),
        MutationError::RngFail
    );
    // The population is untouched on failure.
    assert_eq!(population.len(), 1);
    assert_eq!(population.candidates()[0].rules()[0].get_constraint(0), Some('0'));
}

#[test]
fn test_randomize_swap_fallback_never_fails() {
    // Same exhausted draw as the failing case, but with the swap fallback
    // set: instead of failing, the pass swaps with the colliding position
    // (here the position itself, so nothing changes).
    let strategy = all_gates(MutationStrategyVariant::ConstraintRandomize {
        swap_if_fail: true,
        retries: 0,
    });
    let spec = ga_spec(1, strategy);
    let mut population = Population::new();
    population.insert(Candidate::from_rules(&vec![rule_at(0, '0')]));
    strategy.mutate(&mut population, &spec).unwrap();
    assert_eq!(population.len(), 1);
    assert_eq!(population.candidates()[0].rules()[0].get_constraint(0), Some('0'));
}

#[test]
fn test_randomize_moves_constraint() {
    // Width two with one constrained position: the free position is always
    // found, and the constraint moves there.
    let strategy = all_gates(MutationStrategyVariant::ConstraintRandomize {
        swap_if_fail: false,
        retries: 1000,
    });
    let spec = ga_spec(2, strategy);
    let mut population = Population::new();
    population.insert(Candidate::from_rules(&vec![rule_at(0, '1')]));
    strategy.mutate(&mut population, &spec).unwrap();
    assert_eq!(population.len(), 1);
    let rule_count = population.candidates()[0].rule_count();
    assert_eq!(rule_count, 1);
}

#[test]
fn test_swap_keeps_population_size() {
    let strategy = all_gates(MutationStrategyVariant::ConstraintSwap { delta: 1 });
    let spec = ga_spec(3, strategy);
    let mut population = Population::new();
    population.insert(Candidate::from_rules(&vec![rule_at(0, '1')]));
    population.insert(Candidate::from_rules(&vec![rule_at(1, '0')]));
    strategy.mutate(&mut population, &spec).unwrap();
    assert_eq!(population.len(), 2);
    assert_eq!(population.generation(), 1);
}

#[test]
fn test_mutation_skipped_without_chance() {
    let strategy = MutationStrategy {
        options: MutationStrategyCommonOptions {
            chance: None,
            chance_per_candidate: Some(100),
            chance_per_rule: Some(100),
            chance_per_constraint: Some(100),
        },
        variant: MutationStrategyVariant::ConstraintValueRandomize,
    };
    let spec = ga_spec(1, strategy);
    let mut population = Population::new();
    population.insert(Candidate::from_rules(&vec![rule_at(0, '0')]));
    strategy.mutate(&mut population, &spec).unwrap();
    assert_eq!(population.candidates()[0].rules()[0].get_constraint(0), Some('0'));
}
