use biocomputation_ga::candidate::{Candidate, CandidateFitness};
use biocomputation_ga::crossover::{
    CrossoverError, CrossoverStrategy, CrossoverStrategyCommonOptions, MatchupStrategy,
    MatingStrategy, MirroringStrategy,
};
use biocomputation_ga::rule::Rule;

fn rule_at(position: usize, symbol: char) -> Rule {
    let mut rule = Rule::new();
    rule.set_constraint(position, symbol);
    rule
}

fn scored(rules: Vec<Rule>, fitness: usize) -> CandidateFitness {
    CandidateFitness {
        candidate: Candidate::from_rules(&rules),
        fitness,
    }
}

fn rules_of(candidate: &Candidate) -> Vec<String> {
    candidate.rules().iter().map(|r| r.to_string()).collect()
}

#[test]
fn test_single_point_at_index_exact_children() {
    // Parent A holds four rules, parent B two; split both at index 2
    // without mirroring. The first child is A's first two rules followed by
    // nothing of B (B has no rules from index 2 on); the second child is
    // all of B followed by A's last two rules.
    let r0 = rule_at(0, '0');
    let r1 = rule_at(1, '0');
    let r2 = rule_at(2, '0');
    let r3 = rule_at(3, '0');
    let s0 = rule_at(0, '1');
    let s1 = rule_at(1, '1');
    let a = scored(
        vec![
            rule_at(0, '0'),
            rule_at(1, '0'),
            rule_at(2, '0'),
            rule_at(3, '0'),
        ],
        0,
    );
    let b = scored(vec![rule_at(0, '1'), rule_at(1, '1')], 1);
    let strategy = CrossoverStrategy::new(
        MatchupStrategy::NextFittest,
        MatingStrategy::SinglePointAtIndex { split_at: 2 },
        CrossoverStrategyCommonOptions::new(MirroringStrategy::Never),
    );
    let offspring = strategy.crossover(&vec![a, b]).unwrap();
    assert_eq!(offspring.len(), 2);
    let child1 = &offspring[0];
    let child2 = &offspring[1];
    assert_eq!(
        rules_of(child1),
        vec![r0.to_string(), r1.to_string()]
    );
    assert_eq!(
        rules_of(child2),
        vec![s0.to_string(), s1.to_string(), r2.to_string(), r3.to_string()]
    );
    assert_eq!(child1.birth_generation_id(), None);
    assert_eq!(child1.mutation_count(), 0);
    assert_eq!(child2.birth_generation_id(), None);
}

#[test]
fn test_single_point_always_mirror() {
    // Both parents hold two rules; split at 2 with mirroring: the second
    // parent's split becomes |2 - 2| = 0, so the first child is all of A
    // followed by all of B.
    let a = scored(vec![rule_at(0, '0'), rule_at(1, '0')], 0);
    let b = scored(vec![rule_at(0, '1'), rule_at(1, '1')], 1);
    let strategy = CrossoverStrategy::new(
        MatchupStrategy::NextFittest,
        MatingStrategy::SinglePointAtIndex { split_at: 2 },
        CrossoverStrategyCommonOptions::new(MirroringStrategy::AlwaysMirror),
    );
    let offspring = strategy.crossover(&vec![a, b]).unwrap();
    assert_eq!(offspring.len(), 2);
    assert_eq!(
        rules_of(&offspring[0]),
        vec![
            rule_at(0, '0').to_string(),
            rule_at(1, '0').to_string(),
            rule_at(0, '1').to_string(),
            rule_at(1, '1').to_string(),
        ]
    );
    // The second child is B's empty prefix followed by A's empty suffix.
    assert_eq!(offspring[1].rule_count(), 0);
}

#[test]
fn test_single_point_at_percentage() {
    // Fifty percent of four rules is index two.
    let a = scored(
        vec![
            rule_at(0, '0'),
            rule_at(1, '0'),
            rule_at(2, '0'),
            rule_at(3, '0'),
        ],
        0,
    );
    let b = scored(vec![rule_at(0, '1'), rule_at(1, '1')], 1);
    let strategy = CrossoverStrategy::new(
        MatchupStrategy::NextFittest,
        MatingStrategy::SinglePointAtPercentage { split_at: 50 },
        CrossoverStrategyCommonOptions::new(MirroringStrategy::Never),
    );
    let offspring = strategy.crossover(&vec![a, b]).unwrap();
    // A splits at 2, B at 1: child1 = {a0, a1, b1}, child2 = {b0, a2, a3}.
    assert_eq!(
        rules_of(&offspring[0]),
        vec![
            rule_at(0, '0').to_string(),
            rule_at(1, '0').to_string(),
            rule_at(1, '1').to_string(),
        ]
    );
    assert_eq!(
        rules_of(&offspring[1]),
        vec![
            rule_at(0, '1').to_string(),
            rule_at(2, '0').to_string(),
            rule_at(3, '0').to_string(),
        ]
    );
}

#[test]
fn test_multi_point_at_indices() {
    let a = scored(vec![rule_at(0, '0'), rule_at(1, '0'), rule_at(2, '0')], 0);
    let b = scored(vec![rule_at(0, '1'), rule_at(1, '1'), rule_at(2, '1')], 1);
    let strategy = CrossoverStrategy::new(
        MatchupStrategy::NextFittest,
        MatingStrategy::MultiPointAtIndices {
            split_at: vec![(0, 1), (2, 3)],
        },
        CrossoverStrategyCommonOptions::new(MirroringStrategy::Never),
    );
    let offspring = strategy.crossover(&vec![a, b]).unwrap();
    // Each segment contributes A's slice then B's slice to the first child.
    assert_eq!(
        rules_of(&offspring[0]),
        vec![
            rule_at(0, '0').to_string(),
            rule_at(0, '1').to_string(),
            rule_at(2, '0').to_string(),
            rule_at(2, '1').to_string(),
        ]
    );
}

#[test]
fn test_children_collapse_duplicates() {
    // Both parents share the same single rule; the child holds it once.
    let a = scored(vec![rule_at(0, '0')], 0);
    let b = scored(vec![rule_at(0, '0')], 1);
    let strategy = CrossoverStrategy::new(
        MatchupStrategy::NextFittest,
        MatingStrategy::SinglePointAtIndex { split_at: 1 },
        CrossoverStrategyCommonOptions::new(MirroringStrategy::Never),
    );
    let offspring = strategy.crossover(&vec![a, b]).unwrap();
    assert_eq!(offspring[0].rule_count(), 1);
    assert_eq!(offspring[1].rule_count(), 1);
}

#[test]
fn test_matchup_least_fittest() {
    let a = scored(vec![rule_at(0, '0')], 0);
    let b = scored(vec![rule_at(1, '0')], 1);
    let c = scored(vec![rule_at(2, '0')], 2);
    let strategy = CrossoverStrategy::new(
        MatchupStrategy::LeastFittest,
        MatingStrategy::SinglePointAtIndex { split_at: 1 },
        CrossoverStrategyCommonOptions::new(MirroringStrategy::Never),
    );
    let pairs = strategy.matchup(&vec![a, b, c]).unwrap();
    assert_eq!(pairs.len(), 2);
    assert_eq!(pairs[0].0.fitness, 0);
    assert_eq!(pairs[0].1.fitness, 2);
    assert_eq!(pairs[1].0.fitness, 1);
    assert_eq!(pairs[1].1.fitness, 1);
}

#[test]
fn test_random_non_asexual_single_candidate_fails() {
    let a = scored(vec![rule_at(0, '0')], 0);
    let strategy = CrossoverStrategy::new(
        MatchupStrategy::Random {
            allow_asexual: false,
            allow_duplicates: true,
        },
        MatingStrategy::SinglePointAtIndex { split_at: 1 },
        CrossoverStrategyCommonOptions::new(MirroringStrategy::Never),
    );
    assert_eq!(
        strategy.crossover(&vec![a]).unwrap_err(),
        CrossoverError::CantGenerateNonAsexualMatchupWithOneCandidate
    );
}

#[test]
fn test_random_matchup_produces_even_offspring() {
    let a = scored(vec![rule_at(0, '0')], 0);
    let b = scored(vec![rule_at(1, '0')], 1);
    let c = scored(vec![rule_at(2, '0')], 2);
    let strategy = CrossoverStrategy::new(
        MatchupStrategy::Random {
            allow_asexual: true,
            allow_duplicates: false,
        },
        MatingStrategy::SinglePointAtIndex { split_at: 1 },
        CrossoverStrategyCommonOptions::new(MirroringStrategy::MirrorIfAsexual),
    );
    for _ in 0..50 {
        let offspring = strategy.crossover(&vec![a.clone(), b.clone(), c.clone()]).unwrap();
        // One pair per candidate, two children per pair.
        assert_eq!(offspring.len(), 6);
    }
}

#[test]
fn test_mirror_if_asexual_self_pairing() {
    // LeastFittest over three candidates pairs the middle one with itself;
    // only that pair mirrors its second split.
    let a = scored(vec![rule_at(0, '0')], 0);
    let b = scored(vec![rule_at(0, '1'), rule_at(1, '1')], 1);
    let c = scored(vec![rule_at(2, '0')], 2);
    let strategy = CrossoverStrategy::new(
        MatchupStrategy::LeastFittest,
        MatingStrategy::SinglePointAtIndex { split_at: 1 },
        CrossoverStrategyCommonOptions::new(MirroringStrategy::MirrorIfAsexual),
    );
    let offspring = strategy.crossover(&vec![a, b, c]).unwrap();
    assert_eq!(offspring.len(), 4);
    // The self-pair (b, b) mirrors its split to |2 - 1| = 1, so both
    // children are b's prefix followed by b's suffix: b itself.
    assert_eq!(
        rules_of(&offspring[2]),
        vec![rule_at(0, '1').to_string(), rule_at(1, '1').to_string()]
    );
    assert_eq!(
        rules_of(&offspring[3]),
        vec![rule_at(0, '1').to_string(), rule_at(1, '1').to_string()]
    );
}

#[test]
fn test_multi_point_at_percentages() {
    // One range covering the first half of each parent's rules.
    let a = scored(vec![rule_at(0, '0'), rule_at(1, '0')], 0);
    let b = scored(vec![rule_at(0, '1'), rule_at(1, '1')], 1);
    let strategy = CrossoverStrategy::new(
        MatchupStrategy::NextFittest,
        MatingStrategy::MultiPointAtPercentages {
            split_at: vec![(0, 50)],
        },
        CrossoverStrategyCommonOptions::new(MirroringStrategy::Never),
    );
    let offspring = strategy.crossover(&vec![a, b]).unwrap();
    assert_eq!(
        rules_of(&offspring[0]),
        vec![rule_at(0, '0').to_string(), rule_at(0, '1').to_string()]
    );
    assert_eq!(
        rules_of(&offspring[1]),
        vec![rule_at(0, '1').to_string(), rule_at(0, '0').to_string()]
    );
}
