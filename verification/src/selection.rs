use vstd::prelude::*;
use crate::candidate::CandidateFitness;
use crate::population::{cf_key, sum_fitness, lemma_sum_fitness_split, lemma_sum_fitness_nonneg};
use crate::rng::random_in_range;

verus! {

/// Why a selection could not be made.
#[derive(Debug, Clone, Copy, PartialEq, Eq, Structural)]
pub enum SelectionError {
    /// A tournament round ended without any contender.
    EmptyCandidates,
    /// Avoiding duplicates used up all its retries.
    RngFail,
}

/// What to do when a pick is already among the results: keep it anyway, or
/// retry a bounded number of times and then fail.
#[derive(Debug, Clone, Copy, PartialEq, Eq, Structural)]
pub enum DuplicateHandlingStrategy {
    Allow,
    Disallow { retries: usize },
}

/// Options every selection strategy takes: how many candidates to select
/// and how to treat duplicate picks.
#[derive(Debug, Clone, Copy)]
pub struct SelectionStrategyCommonOptions {
    pub selection_size: usize,
    pub duplicates: DuplicateHandlingStrategy,
}

/// Every member of `v` carries the data and fitness of some scored
/// candidate in `candidates`.
pub open spec fn selected_from(v: Seq<CandidateFitness>, candidates: Seq<CandidateFitness>) -> bool {
    forall|k: int|
        0 <= k < v.len() ==> exists|i: int|
            0 <= i < candidates.len() && cf_key(#[trigger] v[k]) == cf_key(candidates[i])
}

/// Two scored candidates the selection's duplicate check cannot tell apart:
/// same rule set and same fitness.
pub open spec fn cf_same(a: CandidateFitness, b: CandidateFitness) -> bool {
    a.candidate.rule_set() == b.candidate.rule_set() && a.fitness == b.fitness
}

/// A selection strategy: given scored candidates, sorted ascending by
/// fitness, pick `selection_size` of them for reproduction.
pub trait Selection {
    /// What the strategy asks of its input.
    spec fn select_req(
        &self,
        candidates: Seq<CandidateFitness>,
        options: SelectionStrategyCommonOptions,
    ) -> bool;

    /// What the strategy promises of its outcome.
    spec fn select_ens(
        &self,
        candidates: Seq<CandidateFitness>,
        options: SelectionStrategyCommonOptions,
        r: Result<Seq<CandidateFitness>, SelectionError>,
    ) -> bool;

    fn select(
        &self,
        candidates: &Vec<CandidateFitness>,
        options: &SelectionStrategyCommonOptions,
    ) -> (r: Result<Vec<CandidateFitness>, SelectionError>)
        requires
            self.select_req(candidates@, *options),
        ensures
            self.select_ens(
                candidates@,
                *options,
                match r {
                    Ok(v) => Ok(v@),
                    Err(e) => Err(e),
                },
            ),
            r matches Ok(v) ==> v@.len() == options.selection_size
                && selected_from(v@, candidates@),
    ;
}

/// Tournament selection: for each pick, draw `tournament_size` random
/// contenders and keep the one with the strictly greatest fitness seen.
#[derive(Debug, Clone, Copy)]
pub struct TournamentSelection {
    pub tournament_size: usize,
}

impl Selection for TournamentSelection {
    /// There must be candidates to draw from.
    open spec fn select_req(
        &self,
        candidates: Seq<CandidateFitness>,
        options: SelectionStrategyCommonOptions,
    ) -> bool {
        candidates.len() > 0
    }

    /// A full selection comes back unless a tournament round has no
    /// contender (no draws per round) or duplicate avoidance runs out of
    /// retries; with duplicates allowed and at least one draw per round,
    /// selection always succeeds.
    open spec fn select_ens(
        &self,
        candidates: Seq<CandidateFitness>,
        options: SelectionStrategyCommonOptions,
        r: Result<Seq<CandidateFitness>, SelectionError>,
    ) -> bool {
        &&& (r == Err::<Seq<CandidateFitness>, _>(SelectionError::EmptyCandidates)
            <==> self.tournament_size == 0 && options.selection_size > 0)
        &&& (r == Err::<Seq<CandidateFitness>, _>(SelectionError::RngFail)
            ==> options.duplicates is Disallow)
        &&& (r is Err ==> r == Err::<Seq<CandidateFitness>, _>(SelectionError::EmptyCandidates)
            || r == Err::<Seq<CandidateFitness>, _>(SelectionError::RngFail))
        &&& (options.duplicates is Disallow ==> (r matches Ok(v) ==> forall|k1: int, k2: int|
            0 <= k1 < k2 < v.len() ==> !cf_same(v[k1], v[k2])))
    }

    fn select(
        &self,
        candidates: &Vec<CandidateFitness>,
        options: &SelectionStrategyCommonOptions,
    ) -> (r: Result<Vec<CandidateFitness>, SelectionError>) {
        let mut results: Vec<CandidateFitness> = Vec::new();
        while results.len() < options.selection_size
            invariant
                candidates@.len() > 0,
                results@.len() <= options.selection_size,
                selected_from(results@, candidates@),
                results@.len() > 0 ==> self.tournament_size > 0,
                options.duplicates is Disallow ==> forall|k1: int, k2: int|
                    0 <= k1 < k2 < results@.len() ==> !cf_same(results@[k1], results@[k2]),
            decreases options.selection_size - results@.len(),
        {
            let mut best: Option<usize> = None;
            let mut i: usize = 0;
            while i < self.tournament_size
                invariant
                    candidates@.len() > 0,
                    i <= self.tournament_size,
                    i == 0 ==> best is None,
                    match best {
                        Some(b) => b < candidates@.len(),
                        None => i == 0,
                    },
                    options.duplicates is Disallow ==> match best {
                        Some(b) => forall|k: int| 0 <= k < results@.len()
                            ==> !cf_same(#[trigger] results@[k], candidates@[b as int]),
                        None => true,
                    },
                decreases self.tournament_size - i,
            {
                let mut drawn = random_in_range(0, candidates.len());
                match options.duplicates {
                    DuplicateHandlingStrategy::Allow => {},
                    DuplicateHandlingStrategy::Disallow { retries } => {
                        let mut failures: usize = 0;
                        let mut dup = cf_in(&results, &candidates[drawn]);
                        while dup
                            invariant
                                candidates@.len() > 0,
                                drawn < candidates@.len(),
                                options.duplicates == (DuplicateHandlingStrategy::Disallow { retries }),
                                self.tournament_size > 0,
                                failures < retries || failures == 0,
                                dup == exists|k: int|
                                    0 <= k < results@.len() && cf_same(
                                        #[trigger] results@[k],
                                        candidates@[drawn as int],
                                    ),
                            decreases retries - failures,
                        {
                            failures = failures + 1;
                            if failures >= retries {
                                return Err(SelectionError::RngFail);
                            }
                            drawn = random_in_range(0, candidates.len());
                            dup = cf_in(&results, &candidates[drawn]);
                        }
                        proof {
                            assert forall|k: int| 0 <= k < results@.len() implies
                                !cf_same(#[trigger] results@[k], candidates@[drawn as int]) by {
                                if cf_same(results@[k], candidates@[drawn as int]) {
                                    assert(exists|k2: int|
                                        0 <= k2 < results@.len() && cf_same(
                                            #[trigger] results@[k2],
                                            candidates@[drawn as int],
                                        ));
                                }
                            }
                        }
                    },
                }
                match best {
                    Some(b) => {
                        if candidates[drawn].fitness > candidates[b].fitness {
                            best = Some(drawn);
                        }
                    },
                    None => {
                        best = Some(drawn);
                    },
                }
                i += 1;
            }
            match best {
                Some(b) => {
                    let picked = candidates[b].clone();
                    let ghost pre = results@;
                    proof {
                        assert(cf_key(picked) == cf_key(candidates@[b as int]));
                        assert(picked.candidate.rule_set() == candidates@[b as int].candidate.rule_set());
                    }
                    results.push(picked);
                    proof {
                        if options.duplicates is Disallow {
                            assert forall|k1: int, k2: int| 0 <= k1 < k2 < results@.len() implies
                                !cf_same(results@[k1], results@[k2]) by {
                                if k2 < pre.len() {
                                    assert(results@[k1] == pre[k1] && results@[k2] == pre[k2]);
                                } else {
                                    assert(results@[k1] == pre[k1]);
                                    assert(results@[k2] == picked);
                                    assert(!cf_same(pre[k1], candidates@[b as int]));
                                }
                            }
                        }
                    }
                },
                None => {
                    return Err(SelectionError::EmptyCandidates);
                },
            }
        }
        Ok(results)
    }
}

/// Roulette selection: one random draw below the total fitness, then a
/// cumulative walk over the candidates; the first candidate whose running
/// sum passes the draw is picked. The running sum and the draw are kept
/// across picks, so every pick after the first lands on the first
/// candidate: a bias this implementation preserves deliberately.
#[derive(Debug, Clone, Copy)]
pub struct RouletteSelection;

impl Selection for RouletteSelection {
    /// The total fitness must be positive (so a draw below it exists) and
    /// fit the machine word the running sum is kept in.
    open spec fn select_req(
        &self,
        candidates: Seq<CandidateFitness>,
        options: SelectionStrategyCommonOptions,
    ) -> bool {
        sum_fitness(candidates) > 0 && sum_fitness(candidates) <= usize::MAX
    }

    /// With duplicates allowed the selection always succeeds; the first
    /// pick carries positive fitness (a zero-fitness candidate cannot push
    /// the running sum past the draw), and every pick after the first is
    /// the first candidate (the kept running sum already exceeds the draw).
    /// The only failure is running out of duplicate-avoidance retries, and
    /// then no two picks returned would have shared rule set and fitness.
    open spec fn select_ens(
        &self,
        candidates: Seq<CandidateFitness>,
        options: SelectionStrategyCommonOptions,
        r: Result<Seq<CandidateFitness>, SelectionError>,
    ) -> bool {
        &&& (r matches Ok(v) ==> forall|k: int|
            1 <= k < v.len() ==> cf_key(#[trigger] v[k]) == cf_key(candidates[0]))
        &&& (r matches Ok(v) ==> (v.len() >= 1 ==> v[0].fitness > 0))
        &&& (options.duplicates is Disallow ==> (r matches Ok(v) ==> forall|k1: int, k2: int|
            0 <= k1 < k2 < v.len() ==> !cf_same(v[k1], v[k2])))
        &&& (r is Err ==> r == Err::<Seq<CandidateFitness>, _>(SelectionError::RngFail)
            && options.duplicates is Disallow)
    }

    fn select(
        &self,
        candidates: &Vec<CandidateFitness>,
        options: &SelectionStrategyCommonOptions,
    ) -> (r: Result<Vec<CandidateFitness>, SelectionError>) {
        let mut total: usize = 0;
        let mut t: usize = 0;
        while t < candidates.len()
            invariant
                t <= candidates@.len(),
                sum_fitness(candidates@) <= usize::MAX,
                total == sum_fitness(candidates@.take(t as int)),
            decreases candidates@.len() - t,
        {
            proof {
                lemma_sum_fitness_split(candidates@, t + 1);
                lemma_sum_fitness_nonneg(candidates@.skip(t + 1));
                assert(candidates@.take(t + 1).drop_last() =~= candidates@.take(t as int));
                assert(candidates@.take(t + 1).last() == candidates@[t as int]);
            }
            total = total + candidates[t].fitness;
            t += 1;
        }
        proof {
            assert(candidates@.take(candidates@.len() as int) =~= candidates@);
            assert(candidates@.len() > 0) by {
                if candidates@.len() == 0 {
                    assert(sum_fitness(candidates@) == 0);
                }
            }
        }
        let draw = random_in_range(0, total);
        let mut cumulative: usize = 0;
        let mut failures: usize = 0;
        let mut results: Vec<CandidateFitness> = Vec::new();
        while results.len() < options.selection_size
            invariant
                candidates@.len() > 0,
                total == sum_fitness(candidates@),
                draw < total,
                results@.len() <= options.selection_size,
                selected_from(results@, candidates@),
                cumulative == 0 || cumulative > draw,
                results@.len() > 0 ==> cumulative > draw,
                results@.len() == 0 ==> cumulative == 0,
                results@.len() >= 1 ==> results@[0].fitness > 0,
                forall|k: int|
                    1 <= k < results@.len() ==> cf_key(#[trigger] results@[k])
                        == cf_key(candidates@[0]),
                options.duplicates is Disallow ==> forall|k1: int, k2: int|
                    0 <= k1 < k2 < results@.len() ==> !cf_same(results@[k1], results@[k2]),
                options.duplicates matches DuplicateHandlingStrategy::Disallow { retries }
                    ==> failures < retries || failures == 0,
            decreases
                    options.selection_size - results@.len(),
                    (match options.duplicates {
                        DuplicateHandlingStrategy::Disallow { retries } => retries as int,
                        DuplicateHandlingStrategy::Allow => 0int,
                    }) - failures,
        {
            let ghost entry = cumulative;
            let mut selected: Option<usize> = None;
            let mut i: usize = 0;
            proof {
                assert(sum_fitness(candidates@.take(0)) == 0);
            }
            while i < candidates.len() && selected.is_none()
                invariant
                    i <= candidates@.len(),
                    total == sum_fitness(candidates@),
                    draw < total,
                    entry == 0 || entry > draw,
                    cumulative >= entry,
                    selected is None && entry == 0 ==> cumulative <= draw
                        && cumulative == sum_fitness(candidates@.take(i as int)),
                    selected is None && entry > draw ==> i == 0 && cumulative == entry,
                    selected matches Some(p) ==> p < candidates@.len()
                        && draw < cumulative
                        && (entry > draw ==> p == 0)
                        && (entry == 0 ==> candidates@[p as int].fitness > 0),
                decreases candidates@.len() - i,
            {
                let f = candidates[i].fitness;
                proof {
                    if entry == 0 {
                        lemma_sum_fitness_split(candidates@, i + 1);
                        lemma_sum_fitness_nonneg(candidates@.skip(i + 1));
                        assert(candidates@.take(i + 1).drop_last() =~= candidates@.take(i as int));
                        assert(candidates@.take(i + 1).last() == candidates@[i as int]);
                    }
                }
                cumulative = if cumulative > usize::MAX - f {
                    usize::MAX
                } else {
                    cumulative + f
                };
                if draw < cumulative {
                    selected = Some(i);
                }
                i += 1;
            }
            proof {
                if selected is None {
                    assert(i == candidates@.len());
                    if entry == 0 {
                        assert(candidates@.take(candidates@.len() as int) =~= candidates@);
                        assert(cumulative == total);
                    } else {
                        assert(i == 0);
                        assert(candidates@.len() == 0);
                        assert(sum_fitness(candidates@) == 0);
                    }
                    assert(false);
                }
            }
            let p = selected.unwrap();
            let dup = cf_in(&results, &candidates[p]);
            match options.duplicates {
                DuplicateHandlingStrategy::Disallow { retries } => {
                    if dup {
                        failures = failures + 1;
                        if failures >= retries {
                            return Err(SelectionError::RngFail);
                        }
                    } else {
                        failures = 0;
                        let picked = candidates[p].clone();
                        let ghost pre = results@;
                        proof {
                            assert(cf_key(picked) == cf_key(candidates@[p as int]));
                            assert(picked.candidate.rule_set()
                                == candidates@[p as int].candidate.rule_set());
                            assert forall|k: int| 0 <= k < pre.len() implies
                                !cf_same(#[trigger] pre[k], candidates@[p as int]) by {
                                if cf_same(pre[k], candidates@[p as int]) {
                                    assert(exists|k2: int|
                                        0 <= k2 < pre.len() && cf_same(
                                            #[trigger] pre[k2],
                                            candidates@[p as int],
                                        ));
                                }
                            }
                        }
                        results.push(picked);
                        proof {
                            assert forall|k1: int, k2: int| 0 <= k1 < k2 < results@.len() implies
                                !cf_same(results@[k1], results@[k2]) by {
                                if k2 < pre.len() {
                                    assert(results@[k1] == pre[k1] && results@[k2] == pre[k2]);
                                } else {
                                    assert(results@[k1] == pre[k1]);
                                    assert(results@[k2] == picked);
                                    assert(!cf_same(pre[k1], candidates@[p as int]));
                                }
                            }
                            if pre.len() == 0 {
                                assert(entry == 0);
                                assert(results@[0] == picked);
                                assert(picked.fitness == candidates@[p as int].fitness);
                            } else {
                                assert(results@[0] == pre[0]);
                            }
                        }
                    }
                },
                DuplicateHandlingStrategy::Allow => {
                    failures = 0;
                    let picked = candidates[p].clone();
                    let ghost pre = results@;
                    proof {
                        assert(cf_key(picked) == cf_key(candidates@[p as int]));
                    }
                    results.push(picked);
                    proof {
                        if pre.len() == 0 {
                            assert(entry == 0);
                            assert(results@[0] == picked);
                            assert(picked.fitness == candidates@[p as int].fitness);
                        } else {
                            assert(results@[0] == pre[0]);
                        }
                    }
                },
            }
        }
        Ok(results)
    }
}

/// The strategy variants a run can be configured with.
#[derive(Debug, Clone, Copy)]
pub enum SelectionStrategyVariant {
    Roulette(RouletteSelection),
    Tournament(TournamentSelection),
}

/// A fully configured selection: common options and the chosen variant.
#[derive(Debug, Clone, Copy)]
pub struct SelectionStrategy {
    pub options: SelectionStrategyCommonOptions,
    pub variant: SelectionStrategyVariant,
}

impl SelectionStrategy {
    /// What the configured variant asks of its input.
    pub open spec fn spec_req(self, candidates: Seq<CandidateFitness>) -> bool {
        match self.variant {
            SelectionStrategyVariant::Roulette(roulette) => roulette.select_req(
                candidates,
                self.options,
            ),
            SelectionStrategyVariant::Tournament(tourney) => tourney.select_req(
                candidates,
                self.options,
            ),
        }
    }

    /// What the configured variant promises of its outcome.
    pub open spec fn spec_ens(
        self,
        candidates: Seq<CandidateFitness>,
        r: Result<Seq<CandidateFitness>, SelectionError>,
    ) -> bool {
        match self.variant {
            SelectionStrategyVariant::Roulette(roulette) => roulette.select_ens(
                candidates,
                self.options,
                r,
            ),
            SelectionStrategyVariant::Tournament(tourney) => tourney.select_ens(
                candidates,
                self.options,
                r,
            ),
        }
    }

    /// Run the configured selection over the scored candidates.
    pub fn select(&self, candidates: &Vec<CandidateFitness>) -> (r: Result<
        Vec<CandidateFitness>,
        SelectionError,
    >)
        requires
            self.spec_req(candidates@),
        ensures
            self.spec_ens(
                candidates@,
                match r {
                    Ok(v) => Ok(v@),
                    Err(e) => Err(e),
                },
            ),
            r matches Ok(v) ==> v@.len() == self.options.selection_size
                && selected_from(v@, candidates@),
    {
        match &self.variant {
            SelectionStrategyVariant::Tournament(tourney) => tourney.select(
                candidates,
                &self.options,
            ),
            SelectionStrategyVariant::Roulette(roulette) => roulette.select(
                candidates,
                &self.options,
            ),
        }
    }
}

/// Whether some already selected candidate equals this one: same rule set
/// and same fitness.
fn cf_in(v: &Vec<CandidateFitness>, x: &CandidateFitness) -> (r: bool)
    ensures
        r == exists|k: int| 0 <= k < v@.len() && cf_same(#[trigger] v@[k], *x),
{
    let mut k: usize = 0;
    while k < v.len()
        invariant
            k <= v@.len(),
            forall|m: int| 0 <= m < k ==> !cf_same(#[trigger] v@[m], *x),
        decreases v@.len() - k,
    {
        if &v[k] == x {
            proof {
                assert(cf_same(v@[k as int], *x));
            }
            return true;
        }
        k += 1;
    }
    false
}

} // verus!
