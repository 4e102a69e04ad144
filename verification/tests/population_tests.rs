use biocomputation_ga::candidate::Candidate;
use biocomputation_ga::dataitem::DataItem;
use biocomputation_ga::dataset::DataSet;
use biocomputation_ga::population::Population;
use biocomputation_ga::rule::Rule;

fn rule_at(position: usize, symbol: char) -> Rule {
    let mut rule = Rule::new();
    rule.set_constraint(position, symbol);
    rule
}

fn candidate_at(position: usize, symbol: char) -> Candidate {
    Candidate::from_rules(&vec![rule_at(position, symbol)])
}

fn data_set(lines: &[&str]) -> DataSet {
    let mut set = DataSet::new();
    for line in lines {
        set.push(DataItem::parse(line).unwrap()).unwrap();
    }
    set
}

#[test]
fn test_insert_deduplicates() {
    let mut population = Population::new();
    assert_eq!(population.generation(), 1);
    assert!(population.insert(candidate_at(0, '1')));
    assert!(!population.insert(candidate_at(0, '1')));
    assert!(population.insert(candidate_at(1, '1')));
    assert_eq!(population.len(), 2);
}

#[test]
fn test_contains_and_remove() {
    let mut population = Population::new();
    population.insert(candidate_at(0, '1'));
    assert!(population.contains(&candidate_at(0, '1')));
    assert!(!population.contains(&candidate_at(1, '1')));
    assert!(population.remove(&candidate_at(0, '1')));
    assert!(!population.remove(&candidate_at(0, '1')));
    assert_eq!(population.len(), 0);
}

#[test]
fn test_generation_counter() {
    let mut population = Population::new();
    population.increment_generation();
    assert_eq!(population.generation(), 2);
    population.set_generation(7);
    assert_eq!(population.generation(), 7);
}

#[test]
fn test_append_stamps_and_counts() {
    let mut population = Population::new();
    population.set_generation(4);
    population.insert(candidate_at(0, '1'));
    let added = population.append(vec![
        candidate_at(0, '1'),
        candidate_at(1, '0'),
        candidate_at(1, '0'),
        candidate_at(2, '1'),
    ]);
    // The first is a duplicate of a member, the third a duplicate of the
    // second.
    assert_eq!(added, 2);
    assert_eq!(population.len(), 3);
    for candidate in population.candidates().iter().skip(1) {
        assert_eq!(candidate.birth_generation_id(), Some(4));
    }
}

#[test]
fn test_calculate_fitness_sorted_ascending() {
    let mut population = Population::new();
    // Fitness over this single example: a candidate matching it scores 1,
    // others 0.
    population.insert(candidate_at(0, '0'));
    population.insert(candidate_at(1, '1'));
    population.insert(candidate_at(0, '1'));
    let set = data_set(&["10000 1", "11111 1"]);
    let scored = population.calculate_fitness(&set).unwrap();
    assert_eq!(scored.len(), 3);
    for pair in scored.windows(2) {
        assert!(pair[0].fitness <= pair[1].fitness);
    }
    assert_eq!(scored[2].fitness, 2);
}
