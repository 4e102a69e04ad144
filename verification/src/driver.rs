use vstd::prelude::*;
use crate::candidate::FitnessCalculationError;
use crate::crossover::{CrossoverError, MatchupStrategy};
use crate::dataitem::DataItem;
use crate::dataset::DataSet;
use crate::ga_spec::GaSpec;
use crate::mutation::MutationError;
use crate::population::{Population, cf_keys, pair_keys, pop_total_fitness, sum_fitness,
    lemma_sum_fitness_split, lemma_sum_fitness_nonneg};
use crate::selection::SelectionError;

verus! {

/// Why a generation could not be completed: every operator error is fatal
/// to the run.
#[derive(Debug, Clone, Copy, PartialEq, Eq, Structural)]
pub enum EvolutionError {
    Fitness(FitnessCalculationError),
    Selection(SelectionError),
    Crossover(CrossoverError),
    Mutation(MutationError),
}

/// What one generation reports: the generation id, the population size and
/// fitness spread when it was evaluated, how many candidates were selected,
/// how many offspring actually joined, and whether the optimum-fitness stop
/// condition fired.
#[derive(Debug, Clone, Copy, PartialEq, Eq, Structural)]
pub struct GenerationStats {
    pub generation: usize,
    pub population_size: usize,
    pub min_fitness: usize,
    pub max_fitness: usize,
    pub total_fitness: usize,
    pub selected: usize,
    pub offspring_added: usize,
    pub stopped: bool,
}

/// Run one full generation: evaluate every candidate's fitness, select,
/// breed and append the offspring (stamped with the current generation),
/// mutate in place, then either stop (when the best fitness reaches the
/// example count and the stop option is set) or advance the generation
/// counter. The population never shrinks: offspring only add and mutation
/// only replaces.
#[verifier::rlimit(100)]
pub fn evolve_generation(population: &mut Population, data_set: &DataSet, ga_spec: &GaSpec) -> (r:
    Result<GenerationStats, EvolutionError>)
    requires
        old(population).wf(),
        old(population).spec_candidates().len() > 0,
        old(population).spec_generation() < usize::MAX,
        ga_spec.generation_valid(),
        ga_spec.mutation.chances_valid(),
        ga_spec.selection.options.selection_size >= 1,
        pop_total_fitness(
            old(population).spec_candidates(),
            data_set@.map_values(|d: DataItem| d@),
        ) <= usize::MAX,
        ga_spec.selection.variant is Roulette ==> pop_total_fitness(
            old(population).spec_candidates(),
            data_set@.map_values(|d: DataItem| d@),
        ) > 0,
    ensures
        final(population).wf(),
        final(population).spec_candidates().len() >= old(population).spec_candidates().len(),
        r is Err ==> final(population).spec_generation() == old(population).spec_generation(),
        r matches Ok(st) ==> ({
            let cands = old(population).spec_candidates();
            let items = data_set@.map_values(|d: DataItem| d@);
            let pk = pair_keys(cands, items);
            &&& st.generation == old(population).spec_generation()
            &&& st.population_size == cands.len()
            &&& st.total_fitness as int == pop_total_fitness(cands, items)
            &&& (forall|i: int| 0 <= i < pk.len() ==> (#[trigger] pk[i]).3 <= st.max_fitness as int)
            &&& (exists|i: int| 0 <= i < pk.len() && (#[trigger] pk[i]).3 == st.max_fitness as int)
            &&& (forall|i: int| 0 <= i < pk.len() ==> st.min_fitness as int <= (#[trigger] pk[i]).3)
            &&& (exists|i: int| 0 <= i < pk.len() && (#[trigger] pk[i]).3 == st.min_fitness as int)
            &&& st.stopped == (ga_spec.stop_at_optimum_fitness && st.max_fitness == items.len())
            &&& st.selected == ga_spec.selection.options.selection_size
            &&& final(population).spec_candidates().len() == cands.len() + st.offspring_added
            &&& final(population).spec_generation() == old(population).spec_generation()
                + (if st.stopped { 0int } else { 1int })
        }),
        r == Err::<GenerationStats, _>(EvolutionError::Fitness(
            FitnessCalculationError::RuleEvaluationError(
                crate::rule::RuleEvaluationError::IndexOutOfRange,
            ),
        )) <==> exists|i: int|
            0 <= i < old(population).spec_candidates().len() && crate::candidate::spec_fitness(
                (#[trigger] old(population).spec_candidates()[i])@,
                data_set@.map_values(|d: DataItem| d@),
            ) is None,
        r == Err::<GenerationStats, _>(EvolutionError::Selection(SelectionError::RngFail))
            ==> ga_spec.selection.options.duplicates is Disallow,
        r matches Err(EvolutionError::Crossover(e)) ==> ({
            &&& e == CrossoverError::CantGenerateNonAsexualMatchupWithOneCandidate
            &&& ga_spec.crossover.matchup_strategy matches MatchupStrategy::Random {
                allow_asexual: false,
                ..
            }
            &&& ga_spec.selection.options.selection_size == 1
        }),
        r matches Err(EvolutionError::Mutation(e)) ==> e == MutationError::RngFail
            && (ga_spec.mutation.variant
                matches crate::mutation::MutationStrategyVariant::ConstraintRandomize {
                swap_if_fail: false,
                ..
            }),
{
    let ghost cands = old(population).spec_candidates();
    let ghost items = data_set@.map_values(|d: DataItem| d@);
    let ghost pk = pair_keys(cands, items);
    let fitness = match population.calculate_fitness(data_set) {
        Ok(v) => v,
        Err(e) => {
            return Err(EvolutionError::Fitness(e));
        },
    };
    let n = fitness.len();
    let min_fitness = fitness[0].fitness;
    let max_fitness = fitness[n - 1].fitness;
    proof {
        broadcast use vstd::seq_lib::group_to_multiset_ensures;

        let keys = cf_keys(fitness@);
        assert(keys.to_multiset() =~= pk.to_multiset());
        assert(keys[n - 1].3 == max_fitness as int && keys[0].3 == min_fitness as int);
        assert(exists|i: int| 0 <= i < pk.len() && (#[trigger] pk[i]).3 == max_fitness as int) by {
            assert(keys.contains(keys[n - 1])) by {
                assert(keys[n - 1] == keys[n - 1]);
            }
            assert(pk.to_multiset().count(keys[n - 1]) > 0);
            assert(pk.contains(keys[n - 1]));
            let i0 = choose|i0: int| 0 <= i0 < pk.len() && pk[i0] == keys[n - 1];
            assert(0 <= i0 < pk.len() && pk[i0].3 == max_fitness as int);
        }
        assert(exists|i: int| 0 <= i < pk.len() && (#[trigger] pk[i]).3 == min_fitness as int) by {
            assert(keys.contains(keys[0]));
            assert(pk.to_multiset().count(keys[0]) > 0);
            assert(pk.contains(keys[0]));
            let i0 = choose|i0: int| 0 <= i0 < pk.len() && pk[i0] == keys[0];
            assert(0 <= i0 < pk.len() && pk[i0].3 == min_fitness as int);
        }
        assert forall|i: int| 0 <= i < pk.len() implies (#[trigger] pk[i]).3 <= max_fitness as int
            && min_fitness as int <= pk[i].3 by {
            assert(pk.contains(pk[i]));
            assert(keys.to_multiset().count(pk[i]) > 0);
            assert(keys.contains(pk[i]));
            let k0 = choose|k0: int| 0 <= k0 < keys.len() && keys[k0] == pk[i];
            assert(fitness@[k0].fitness <= fitness@[n - 1].fitness);
            assert(fitness@[0].fitness <= fitness@[k0].fitness);
        }
    }
    let mut total: usize = 0;
    let mut t: usize = 0;
    proof {
        lemma_sum_fitness_nonneg(fitness@);
    }
    while t < n
        invariant
            t <= n,
            n == fitness@.len(),
            sum_fitness(fitness@) <= usize::MAX,
            total == sum_fitness(fitness@.take(t as int)),
        decreases n - t,
    {
        proof {
            lemma_sum_fitness_split(fitness@, t + 1);
            lemma_sum_fitness_nonneg(fitness@.skip(t + 1));
            assert(fitness@.take(t + 1).drop_last() =~= fitness@.take(t as int));
            assert(fitness@.take(t + 1).last() == fitness@[t as int]);
        }
        total = total + fitness[t].fitness;
        t += 1;
    }
    proof {
        assert(fitness@.take(n as int) =~= fitness@);
    }
    let generation = population.generation();
    let population_size = population.len();
    let selection = match ga_spec.selection.select(&fitness) {
        Ok(s) => s,
        Err(e) => {
            return Err(EvolutionError::Selection(e));
        },
    };
    proof {
        assert forall|i: int| 0 <= i < selection@.len() implies
            (#[trigger] selection@[i]).candidate.wf() by {
            let j = choose|j: int|
                0 <= j < fitness@.len() && crate::population::cf_key(selection@[i])
                    == crate::population::cf_key(fitness@[j]);
            assert(fitness@[j].candidate.wf());
            assert(selection@[i].candidate@ == fitness@[j].candidate@);
        }
    }
    let offspring = match ga_spec.crossover.crossover(&selection) {
        Ok(o) => o,
        Err(e) => {
            return Err(EvolutionError::Crossover(e));
        },
    };
    let added = population.append(offspring);
    match ga_spec.mutation.mutate(population, ga_spec) {
        Ok(()) => {},
        Err(e) => {
            return Err(EvolutionError::Mutation(e));
        },
    }
    let data_len = data_set.len();
    let stopped = max_fitness == data_len && ga_spec.stop_at_optimum_fitness;
    if !stopped {
        population.increment_generation();
    }
    Ok(GenerationStats {
        generation,
        population_size,
        min_fitness,
        max_fitness,
        total_fitness: total,
        selected: selection.len(),
        offspring_added: added,
        stopped,
    })
}

} // verus!
