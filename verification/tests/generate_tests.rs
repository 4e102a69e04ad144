use biocomputation_ga::candidate::Candidate;
use biocomputation_ga::crossover::{
    CrossoverStrategy, CrossoverStrategyCommonOptions, MatchupStrategy, MatingStrategy,
    MirroringStrategy,
};
use biocomputation_ga::ga_spec::{CalculatedSpecs, GaSpec, InitialGenerationComponentSpec,
    InitialGenerationSpec};
use biocomputation_ga::mutation::{MutationStrategy, MutationStrategyCommonOptions,
    MutationStrategyVariant};
use biocomputation_ga::population::Population;
use biocomputation_ga::rule::Rule;
use biocomputation_ga::selection::{DuplicateHandlingStrategy, SelectionStrategy,
    SelectionStrategyCommonOptions, SelectionStrategyVariant, TournamentSelection};

fn component(min: usize, max: usize) -> InitialGenerationComponentSpec {
    InitialGenerationComponentSpec::new(min, max, 5).unwrap()
}

fn ga_spec() -> GaSpec {
    GaSpec {
        initial_generation: InitialGenerationSpec {
            candidates: component(2, 5),
            rules: component(1, 4),
            constraints: component(1, 4),
        },
        max_evolutions: 1,
        stop_at_optimum_fitness: false,
        selection: SelectionStrategy {
            options: SelectionStrategyCommonOptions {
                selection_size: 2,
                duplicates: DuplicateHandlingStrategy::Allow,
            },
            variant: SelectionStrategyVariant::Tournament(TournamentSelection {
                tournament_size: 2,
            }),
        },
        crossover: CrossoverStrategy::new(
            MatchupStrategy::NextFittest,
            MatingStrategy::SinglePointAtIndex { split_at: 1 },
            CrossoverStrategyCommonOptions::new(MirroringStrategy::Never),
        ),
        mutation: MutationStrategy {
            options: MutationStrategyCommonOptions {
                chance: None,
                chance_per_candidate: None,
                chance_per_rule: None,
                chance_per_constraint: None,
            },
            variant: MutationStrategyVariant::ConstraintValueRandomize,
        },
        calculated: CalculatedSpecs {
            alphabet: vec!['0', '1'],
            max_index: 6,
        },
    }
}

#[test]
fn test_rule_generate_respects_bounds() {
    let spec = ga_spec();
    for _ in 0..200 {
        let rule = Rule::generate(&spec);
        assert!(rule.len() < spec.initial_generation.constraints.max);
        for (position, symbol) in rule.constraints().iter() {
            assert!(*position < spec.calculated.max_index);
            assert!(*symbol == '0' || *symbol == '1');
        }
    }
}

#[test]
fn test_candidate_generate_respects_bounds() {
    let spec = ga_spec();
    for _ in 0..100 {
        let candidate = Candidate::generate(&spec);
        assert!(candidate.rule_count() < spec.initial_generation.rules.max);
        assert_eq!(candidate.mutation_count(), 0);
        assert_eq!(candidate.birth_generation_id(), None);
    }
}

#[test]
fn test_population_generate_starts_at_one() {
    let spec = ga_spec();
    for _ in 0..50 {
        let population = Population::generate(&spec);
        assert_eq!(population.generation(), 1);
        assert!(population.len() < spec.initial_generation.candidates.max);
        for candidate in population.candidates().iter() {
            assert_eq!(candidate.birth_generation_id(), Some(0));
        }
    }
}
