use biocomputation_ga::candidate::{Candidate, FitnessCalculationError};
use biocomputation_ga::dataitem::DataItem;
use biocomputation_ga::dataset::DataSet;
use biocomputation_ga::rule::{Rule, RuleEvaluationError};

fn rule_at(position: usize, symbol: char) -> Rule {
    let mut rule = Rule::new();
    rule.set_constraint(position, symbol);
    rule
}

fn data_set(lines: &[&str]) -> DataSet {
    let mut set = DataSet::new();
    for line in lines {
        set.push(DataItem::parse(line).unwrap()).unwrap();
    }
    set
}

#[test]
fn test_fitness_counts_correct_examples() {
    // One rule requiring '1' at position 0; it evaluates true on the first
    // two examples and false on the third.
    let candidate = Candidate::from_rules(&vec![rule_at(0, '1')]);
    let set = data_set(&["10000 1", "11111 1", "00000 1"]);
    // Examples one and two match with label "1"; the third does not.
    assert_eq!(candidate.calculate_fitness(&set).unwrap(), 2);
}

#[test]
fn test_fitness_negative_label() {
    // The rule evaluates false on "00000" and the label is "0": a correct
    // classification.
    let candidate = Candidate::from_rules(&vec![rule_at(0, '1')]);
    let set = data_set(&["00000 0"]);
    assert_eq!(candidate.calculate_fitness(&set).unwrap(), 1);
}

#[test]
fn test_fitness_at_most_example_count() {
    let candidate = Candidate::from_rules(&vec![rule_at(0, '1'), rule_at(1, '0')]);
    let set = data_set(&["10000 1", "01000 0", "00000 0", "11111 1"]);
    let fitness = candidate.calculate_fitness(&set).unwrap();
    assert!(fitness <= set.len());
}

#[test]
fn test_fitness_optimum_when_all_classified() {
    let candidate = Candidate::from_rules(&vec![rule_at(0, '1')]);
    let set = data_set(&["10000 1", "00000 0"]);
    assert_eq!(candidate.calculate_fitness(&set).unwrap(), set.len());
}

#[test]
fn test_fitness_error_propagates() {
    let candidate = Candidate::from_rules(&vec![rule_at(10, '1')]);
    let set = data_set(&["00000 0"]);
    assert_eq!(
        candidate.calculate_fitness(&set).unwrap_err(),
        FitnessCalculationError::RuleEvaluationError(RuleEvaluationError::IndexOutOfRange)
    );
}

#[test]
fn test_empty_candidate_fitness() {
    // With no rules no example is ever matched.
    let candidate = Candidate::from_rules(&vec![]);
    let set = data_set(&["00000 0", "11111 1"]);
    assert_eq!(candidate.calculate_fitness(&set).unwrap(), 0);
}

#[test]
fn test_candidate_equality_ignores_order_and_bookkeeping() {
    let mut a = Candidate::from_rules(&vec![rule_at(0, '1'), rule_at(1, '0')]);
    let b = Candidate::from_rules(&vec![rule_at(1, '0'), rule_at(0, '1')]);
    a.set_mutation_count(7);
    a.set_birth_generation_id(3);
    assert_eq!(a, b);

    let c = Candidate::from_rules(&vec![rule_at(0, '1')]);
    assert_ne!(a, c);
}

#[test]
fn test_from_rules_deduplicates() {
    let candidate = Candidate::from_rules(&vec![rule_at(0, '1'), rule_at(0, '1'), rule_at(1, '0')]);
    assert_eq!(candidate.rule_count(), 2);
}

#[test]
fn test_bookkeeping_fields() {
    let mut candidate = Candidate::from_rules(&vec![rule_at(0, '1')]);
    assert_eq!(candidate.mutation_count(), 0);
    assert_eq!(candidate.birth_generation_id(), None);
    assert_eq!(candidate.age(5), None);
    candidate.increment_mutation_count();
    candidate.increment_mutation_count();
    assert_eq!(candidate.mutation_count(), 2);
    candidate.set_mutation_count(9);
    assert_eq!(candidate.mutation_count(), 9);
    candidate.set_birth_generation_id(2);
    assert_eq!(candidate.birth_generation_id(), Some(2));
    assert_eq!(candidate.age(5), Some(3));
}
