use biocomputation_ga::candidate::{Candidate, CandidateFitness};
use biocomputation_ga::rule::Rule;
use biocomputation_ga::selection::{
    DuplicateHandlingStrategy, RouletteSelection, Selection, SelectionError, SelectionStrategy,
    SelectionStrategyCommonOptions, SelectionStrategyVariant, TournamentSelection,
};

fn scored(position: usize, fitness: usize) -> CandidateFitness {
    let mut rule = Rule::new();
    rule.set_constraint(position, '1');
    CandidateFitness {
        candidate: Candidate::from_rules(&vec![rule]),
        fitness,
    }
}

#[test]
fn test_tournament_returns_selection_size() {
    let candidates = vec![scored(0, 0), scored(1, 1), scored(2, 2)];
    let strategy = SelectionStrategy {
        options: SelectionStrategyCommonOptions {
            selection_size: 2,
            duplicates: DuplicateHandlingStrategy::Allow,
        },
        variant: SelectionStrategyVariant::Tournament(TournamentSelection { tournament_size: 3 }),
    };
    let picked = strategy.select(&candidates).unwrap();
    assert_eq!(picked.len(), 2);
    for p in &picked {
        assert!(candidates.iter().any(|c| c == p));
    }
}

#[test]
fn test_tournament_empty_candidates_error() {
    let candidates = vec![scored(0, 1)];
    let tourney = TournamentSelection { tournament_size: 0 };
    let options = SelectionStrategyCommonOptions {
        selection_size: 1,
        duplicates: DuplicateHandlingStrategy::Allow,
    };
    assert_eq!(
        tourney.select(&candidates, &options).unwrap_err(),
        SelectionError::EmptyCandidates
    );
}

#[test]
fn test_tournament_rng_fail() {
    // One candidate, two picks wanted, duplicates disallowed with one
    // retry: the second pick must collide and fail.
    let candidates = vec![scored(0, 1)];
    let tourney = TournamentSelection { tournament_size: 1 };
    let options = SelectionStrategyCommonOptions {
        selection_size: 2,
        duplicates: DuplicateHandlingStrategy::Disallow { retries: 1 },
    };
    assert_eq!(
        tourney.select(&candidates, &options).unwrap_err(),
        SelectionError::RngFail
    );
}

#[test]
fn test_roulette_accumulator_bias() {
    // With equal fitness everywhere, the first pick varies but every later
    // pick lands on the first candidate: the running sum already exceeds
    // the single draw. This bias is documented behavior, preserved on
    // purpose.
    let candidates = vec![scored(0, 1), scored(1, 1), scored(2, 1), scored(3, 1)];
    let roulette = RouletteSelection;
    let options = SelectionStrategyCommonOptions {
        selection_size: 4,
        duplicates: DuplicateHandlingStrategy::Allow,
    };
    let mut first_pick_seen = [false; 4];
    for _ in 0..2000 {
        let picked = roulette.select(&candidates, &options).unwrap();
        assert_eq!(picked.len(), 4);
        for later in picked.iter().skip(1) {
            assert!(later == &candidates[0]);
        }
        for (i, c) in candidates.iter().enumerate() {
            if &picked[0] == c {
                first_pick_seen[i] = true;
            }
        }
    }
    // Every candidate has nonzero probability of appearing as the first
    // pick; over two thousand trials each should have shown up.
    for seen in first_pick_seen.iter() {
        assert!(seen);
    }
}

#[test]
fn test_roulette_rng_fail_on_duplicates() {
    // After the first pick, every further pick is the first candidate, so
    // disallowing duplicates must exhaust its retries.
    let candidates = vec![scored(0, 1), scored(1, 1)];
    let roulette = RouletteSelection;
    let options = SelectionStrategyCommonOptions {
        selection_size: 3,
        duplicates: DuplicateHandlingStrategy::Disallow { retries: 2 },
    };
    assert_eq!(
        roulette.select(&candidates, &options).unwrap_err(),
        SelectionError::RngFail
    );
}

#[test]
fn test_selection_size_zero() {
    let candidates = vec![scored(0, 1)];
    let strategy = SelectionStrategy {
        options: SelectionStrategyCommonOptions {
            selection_size: 0,
            duplicates: DuplicateHandlingStrategy::Allow,
        },
        variant: SelectionStrategyVariant::Roulette(RouletteSelection),
    };
    assert_eq!(strategy.select(&candidates).unwrap().len(), 0);
}
