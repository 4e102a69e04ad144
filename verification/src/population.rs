use vstd::prelude::*;
use crate::rng::random_in_range;
use crate::candidate::{Candidate, CandidateFitness, FitnessCalculationError, spec_fitness};
use crate::dataitem::DataItem;
use crate::dataset::DataSet;
use crate::rule::RuleEvaluationError;

verus! {


/// Everything observable about one scored candidate: rule views, mutation
/// count, birth generation and fitness.
pub open spec fn cf_key(cf: CandidateFitness) -> (Seq<Seq<(usize, char)>>, usize, Option<usize>, int) {
    (
        cf.candidate@,
        cf.candidate.spec_mutation_count(),
        cf.candidate.spec_birth_generation_id(),
        cf.fitness as int,
    )
}

pub open spec fn cf_keys(s: Seq<CandidateFitness>) -> Seq<
    (Seq<Seq<(usize, char)>>, usize, Option<usize>, int),
> {
    s.map_values(|cf: CandidateFitness| cf_key(cf))
}

/// The candidates of a population paired with their fitness values, in
/// population order.
pub open spec fn pair_keys(cands: Seq<Candidate>, items: Seq<(Seq<char>, Seq<char>)>) -> Seq<
    (Seq<Seq<(usize, char)>>, usize, Option<usize>, int),
> {
    Seq::new(
        cands.len(),
        |i: int|
            (
                cands[i]@,
                cands[i].spec_mutation_count(),
                cands[i].spec_birth_generation_id(),
                if spec_fitness(cands[i]@, items) is Some {
                    spec_fitness(cands[i]@, items).unwrap()
                } else {
                    0int
                },
            ),
    )
}

/// Fitness values ascend along the sequence.
pub open spec fn sorted_by_fitness(s: Seq<CandidateFitness>) -> bool {
    forall|i: int, j: int| 0 <= i < j < s.len() ==> s[i].fitness <= s[j].fitness
}

/// The sum of the scored fitness values.
pub open spec fn sum_fitness(s: Seq<CandidateFitness>) -> int
    decreases s.len(),
{
    if s.len() == 0 {
        0
    } else {
        sum_fitness(s.drop_last()) + s.last().fitness
    }
}

/// The sum of the fitness components of a key sequence.
pub open spec fn sum_keys(s: Seq<(Seq<Seq<(usize, char)>>, usize, Option<usize>, int)>) -> int
    decreases s.len(),
{
    if s.len() == 0 {
        0
    } else {
        sum_keys(s.drop_last()) + s.last().3
    }
}

/// The total fitness of a population over the given examples, candidates
/// that fail to evaluate counting zero.
pub open spec fn pop_total_fitness(cands: Seq<Candidate>, items: Seq<(Seq<char>, Seq<char>)>) -> int {
    sum_keys(pair_keys(cands, items))
}

/// The rule set of each candidate, in order.
pub open spec fn rule_sets_of(s: Seq<Candidate>) -> Seq<Set<Seq<(usize, char)>>> {
    s.map_values(|c: Candidate| c.rule_set())
}

/// The rule sets present after appending `incoming` to `base` with set
/// semantics: each incoming set joins at the end unless already present,
/// intra-list duplicates counting once.
pub open spec fn after_append(
    base: Seq<Set<Seq<(usize, char)>>>,
    incoming: Seq<Set<Seq<(usize, char)>>>,
) -> Seq<Set<Seq<(usize, char)>>>
    decreases incoming.len(),
{
    if incoming.len() == 0 {
        base
    } else {
        let base2 = if base.contains(incoming.first()) {
            base
        } else {
            base.push(incoming.first())
        };
        after_append(base2, incoming.drop_first())
    }
}

/// Appending one more set extends the accumulated result by that set,
/// unless it is already there.
pub proof fn lemma_after_append_push(
    base: Seq<Set<Seq<(usize, char)>>>,
    incoming: Seq<Set<Seq<(usize, char)>>>,
    x: Set<Seq<(usize, char)>>,
)
    ensures
        after_append(base, incoming.push(x)) == (if after_append(base, incoming).contains(x) {
            after_append(base, incoming)
        } else {
            after_append(base, incoming).push(x)
        }),
    decreases incoming.len(),
{
    if incoming.len() == 0 {
        let pushed = incoming.push(x);
        assert(pushed.first() == x);
        assert(pushed.drop_first() =~= Seq::<Set<Seq<(usize, char)>>>::empty());
        let base2 = if base.contains(x) {
            base
        } else {
            base.push(x)
        };
        assert(after_append(base, pushed) == after_append(base2, pushed.drop_first()));
        assert(after_append(base2, pushed.drop_first()) == base2);
        assert(after_append(base, incoming) == base);
    } else {
        let pushed = incoming.push(x);
        assert(pushed.first() == incoming.first());
        assert(pushed.drop_first() =~= incoming.drop_first().push(x));
        let base2 = if base.contains(incoming.first()) {
            base
        } else {
            base.push(incoming.first())
        };
        assert(after_append(base, pushed) == after_append(base2, pushed.drop_first()));
        assert(after_append(base2, pushed.drop_first())
            == after_append(base2, incoming.drop_first().push(x)));
        assert(after_append(base, incoming) == after_append(base2, incoming.drop_first()));
        lemma_after_append_push(base2, incoming.drop_first(), x);
    }
}

/// The candidate is one of the list's members, with its rules and mutation
/// count kept and its birth generation stamped.
pub open spec fn stamped_from(c: Candidate, list: Seq<Candidate>, generation: usize) -> bool {
    exists|k: int|
        0 <= k < list.len() && c@ == (#[trigger] list[k])@ && c.spec_mutation_count()
            == list[k].spec_mutation_count() && c.spec_birth_generation_id() == Some(generation)
}

/// Sums add over concatenation.
pub proof fn lemma_sum_fitness_concat(a: Seq<CandidateFitness>, b: Seq<CandidateFitness>)
    ensures
        sum_fitness(a + b) == sum_fitness(a) + sum_fitness(b),
    decreases b.len(),
{
    if b.len() == 0 {
        assert(a + b =~= a);
    } else {
        assert((a + b).drop_last() =~= a + b.drop_last());
        assert((a + b).last() == b.last());
        lemma_sum_fitness_concat(a, b.drop_last());
    }
}

/// Fitness values are counts, so every sum is non-negative.
pub proof fn lemma_sum_fitness_nonneg(s: Seq<CandidateFitness>)
    ensures
        sum_fitness(s) >= 0,
    decreases s.len(),
{
    if s.len() > 0 {
        lemma_sum_fitness_nonneg(s.drop_last());
    }
}

/// A sum splits at any index.
pub proof fn lemma_sum_fitness_split(s: Seq<CandidateFitness>, i: int)
    requires
        0 <= i <= s.len(),
    ensures
        sum_fitness(s) == sum_fitness(s.take(i)) + sum_fitness(s.skip(i)),
{
    assert(s =~= s.take(i) + s.skip(i));
    lemma_sum_fitness_concat(s.take(i), s.skip(i));
}

/// Inserting an element anywhere adds its fitness to the sum.
proof fn lemma_sum_fitness_insert(s: Seq<CandidateFitness>, idx: int, cf: CandidateFitness)
    requires
        0 <= idx <= s.len(),
    ensures
        sum_fitness(s.insert(idx, cf)) == sum_fitness(s) + cf.fitness,
    decreases s.len() - idx,
{
    if idx == s.len() {
        assert(s.insert(idx, cf) =~= s.push(cf));
        assert(s.push(cf).drop_last() =~= s);
    } else {
        let s1 = s.insert(idx, cf);
        assert(s1.drop_last() =~= s.drop_last().insert(idx, cf));
        assert(s1.last() == s.last());
        lemma_sum_fitness_insert(s.drop_last(), idx, cf);
    }
}

/// A population: a set of unique candidates (no two with equal rule sets)
/// and a generation counter.
#[derive(Debug)]
pub struct Population {
    generation: usize,
    candidates: Vec<Candidate>,
}

impl Population {
    /// The members, in insertion order.
    pub closed spec fn spec_candidates(self) -> Seq<Candidate> {
        self.candidates@
    }

    pub closed spec fn spec_generation(self) -> usize {
        self.generation
    }

    /// Membership is decided by rule-set equality.
    pub open spec fn contains_set(self, s: Set<Seq<(usize, char)>>) -> bool {
        exists|i: int|
            0 <= i < self.spec_candidates().len()
                && (#[trigger] self.spec_candidates()[i]).rule_set() == s
    }

    /// Well-formed: every member is, and no two members have the same rule
    /// set.
    pub open spec fn wf(self) -> bool {
        &&& forall|i: int|
            0 <= i < self.spec_candidates().len() ==> (#[trigger] self.spec_candidates()[i]).wf()
        &&& forall|i: int, j: int|
            0 <= i < j < self.spec_candidates().len()
                ==> self.spec_candidates()[i].rule_set() != self.spec_candidates()[j].rule_set()
    }

    /// An empty population, at generation one.
    pub fn new() -> (r: Population)
        ensures
            r.wf(),
            r.spec_candidates() == Seq::<Candidate>::empty(),
            r.spec_generation() == 1,
    {
        Population { generation: 1, candidates: Vec::new() }
    }

    pub fn generation(&self) -> (r: usize)
        ensures
            r == self.spec_generation(),
    {
        self.generation
    }

    pub fn increment_generation(&mut self)
        requires
            old(self).spec_generation() < usize::MAX,
        ensures
            final(self).spec_generation() == old(self).spec_generation() + 1,
            final(self).spec_candidates() == old(self).spec_candidates(),
    {
        self.generation = self.generation + 1;
    }

    pub fn set_generation(&mut self, new_generation: usize)
        ensures
            final(self).spec_generation() == new_generation,
            final(self).spec_candidates() == old(self).spec_candidates(),
    {
        self.generation = new_generation;
    }

    /// The members, in insertion order.
    pub fn candidates(&self) -> (r: &Vec<Candidate>)
        ensures
            r@ == self.spec_candidates(),
    {
        &self.candidates
    }

    /// The member at `index`.
    pub fn get(&self, index: usize) -> (r: &Candidate)
        requires
            index < self.spec_candidates().len(),
        ensures
            *r == self.spec_candidates()[index as int],
    {
        &self.candidates[index]
    }

    /// The number of members.
    pub fn len(&self) -> (n: usize)
        ensures
            n == self.spec_candidates().len(),
    {
        self.candidates.len()
    }

    /// Whether a candidate with this rule set is a member.
    pub fn contains(&self, candidate: &Candidate) -> (r: bool)
        ensures
            r == self.contains_set(candidate.rule_set()),
    {
        let mut i: usize = 0;
        while i < self.candidates.len()
            invariant
                i <= self.spec_candidates().len(),
                forall|k: int|
                    0 <= k < i ==> (#[trigger] self.spec_candidates()[k]).rule_set()
                        != candidate.rule_set(),
            decreases self.spec_candidates().len() - i,
        {
            if &self.candidates[i] == candidate {
                return true;
            }
            i += 1;
        }
        false
    }

    /// Add a candidate unless one with the same rule set is already a
    /// member; says whether it was added.
    pub fn insert(&mut self, candidate: Candidate) -> (r: bool)
        ensures
            r == !old(self).contains_set(candidate.rule_set()),
            r ==> final(self).spec_candidates() == old(self).spec_candidates().push(candidate),
            !r ==> final(self).spec_candidates() == old(self).spec_candidates(),
            final(self).spec_generation() == old(self).spec_generation(),
            old(self).wf() && candidate.wf() ==> final(self).wf(),
    {
        if self.contains(&candidate) {
            return false;
        }
        self.candidates.push(candidate);
        proof {
            let s0 = old(self).spec_candidates();
            let s1 = self.spec_candidates();
            if old(self).wf() && candidate.wf() {
                assert forall|i: int, j: int| 0 <= i < j < s1.len() implies
                    s1[i].rule_set() != s1[j].rule_set() by {
                    if j < s0.len() {
                        assert(s0[i].rule_set() != s0[j].rule_set());
                    } else {
                        assert(s1[j] == candidate);
                        assert(s1[i] == s0[i]);
                        if s0[i].rule_set() == candidate.rule_set() {
                            assert(old(self).contains_set(candidate.rule_set()));
                        }
                    }
                }
                assert forall|i: int| 0 <= i < s1.len() implies (#[trigger] s1[i]).wf() by {
                    if i < s0.len() {
                        assert(s0[i].wf());
                    }
                }
            }
        }
        true
    }

    /// Remove the member with this rule set, if any; says whether one was
    /// removed.
    pub fn remove(&mut self, candidate: &Candidate) -> (r: bool)
        ensures
            r == old(self).contains_set(candidate.rule_set()),
            r ==> exists|i: int|
                0 <= i < old(self).spec_candidates().len()
                    && (#[trigger] old(self).spec_candidates()[i]).rule_set() == candidate.rule_set()
                    && final(self).spec_candidates() == old(self).spec_candidates().remove(i),
            !r ==> final(self).spec_candidates() == old(self).spec_candidates(),
            final(self).spec_generation() == old(self).spec_generation(),
            old(self).wf() ==> final(self).wf(),
    {
        let ghost s0 = old(self).spec_candidates();
        let mut i: usize = 0;
        while i < self.candidates.len() && &self.candidates[i] != candidate
            invariant
                i <= s0.len(),
                self.spec_candidates() == s0,
                self.spec_generation() == old(self).spec_generation(),
                forall|k: int|
                    0 <= k < i ==> (#[trigger] s0[k]).rule_set() != candidate.rule_set(),
            decreases s0.len() - i,
        {
            i += 1;
        }
        if i < self.candidates.len() {
            proof {
                assert(s0[i as int].rule_set() == candidate.rule_set());
            }
            self.candidates.remove(i);
            proof {
                let s1 = self.spec_candidates();
                assert(s1 == s0.remove(i as int));
                if old(self).wf() {
                    assert forall|a: int| 0 <= a < s1.len() implies (#[trigger] s1[a]).wf() by {
                        if a < i {
                            assert(s1[a] == s0[a]);
                        } else {
                            assert(s1[a] == s0[a + 1]);
                        }
                    }
                    assert forall|a: int, b: int| 0 <= a < b < s1.len() implies
                        s1[a].rule_set() != s1[b].rule_set() by {
                        let a0 = if a < i { a } else { a + 1 };
                        let b0 = if b < i { b } else { b + 1 };
                        assert(s1[a] == s0[a0]);
                        assert(s1[b] == s0[b0]);
                        assert(s0[a0].rule_set() != s0[b0].rule_set());
                    }
                }
            }
            true
        } else {
            false
        }
    }

    /// Stamp each candidate's birth generation with the current one and
    /// insert it, skipping those whose rule set is already present; returns
    /// how many were actually added. Existing members keep their places;
    /// additions go at the end.
    pub fn append(&mut self, list: Vec<Candidate>) -> (added: usize)
        ensures
            final(self).spec_generation() == old(self).spec_generation(),
            final(self).spec_candidates().len() == old(self).spec_candidates().len() + added,
            added <= list@.len(),
            forall|i: int| 0 <= i < old(self).spec_candidates().len()
                ==> final(self).spec_candidates()[i] == old(self).spec_candidates()[i],
            forall|i: int| 0 <= i < list@.len()
                ==> final(self).contains_set((#[trigger] list@[i]).rule_set()),
            forall|i: int| old(self).spec_candidates().len() <= i < final(self).spec_candidates().len()
                ==> stamped_from(
                    #[trigger] final(self).spec_candidates()[i],
                    list@,
                    old(self).spec_generation(),
                ),
            rule_sets_of(final(self).spec_candidates()) == after_append(
                rule_sets_of(old(self).spec_candidates()),
                rule_sets_of(list@),
            ),
            old(self).wf() && (forall|i: int| 0 <= i < list@.len() ==> (#[trigger] list@[i]).wf())
                ==> final(self).wf(),
    {
        let ghost l = list@;
        let ghost lsets = rule_sets_of(l);
        let ghost n0 = self.spec_candidates().len();
        let list_len = list.len();
        proof {
            assert(l.len() == list_len);
        }
        let mut added: usize = 0;
        let mut list = list;
        let mut index: usize = 0;
        proof {
            assert(lsets.take(0) =~= Seq::<Set<Seq<(usize, char)>>>::empty());
        }
        while list.len() > 0
            invariant
                index + list@.len() == l.len(),
                l.len() <= usize::MAX,
                list@ == l.skip(index as int),
                self.spec_generation() == old(self).spec_generation(),
                self.spec_candidates().len() == n0 + added,
                n0 == old(self).spec_candidates().len(),
                added <= index,
                forall|i: int| 0 <= i < n0
                    ==> self.spec_candidates()[i] == old(self).spec_candidates()[i],
                forall|i: int| 0 <= i < index
                    ==> self.contains_set((#[trigger] l[i]).rule_set()),
                lsets == rule_sets_of(l),
                rule_sets_of(self.spec_candidates()) == after_append(
                    rule_sets_of(old(self).spec_candidates()),
                    lsets.take(index as int),
                ),
                forall|i: int| n0 <= i < self.spec_candidates().len()
                    ==> stamped_from(
                        #[trigger] self.spec_candidates()[i],
                        l,
                        old(self).spec_generation(),
                    ),
                old(self).wf() && (forall|i: int| 0 <= i < l.len() ==> (#[trigger] l[i]).wf())
                    ==> self.wf(),
            decreases list@.len(),
        {
            let mut item = list.remove(0);
            proof {
                assert(item == l[index as int]);
                assert(list@ =~= l.skip(index + 1));
            }
            let generation = self.generation();
            item.set_birth_generation_id(generation);
            proof {
                assert(item.rule_set() =~= l[index as int].rule_set());
                if l[index as int].wf() {
                    assert(item.wf());
                }
            }
            let ghost before = self.spec_candidates();
            let ghost gitem = item;
            let inserted = self.insert(item);
            proof {
                assert(lsets.take(index + 1) =~= lsets.take(index as int).push(lsets[index as int]));
                lemma_after_append_push(
                    rule_sets_of(old(self).spec_candidates()),
                    lsets.take(index as int),
                    lsets[index as int],
                );
                assert(lsets[index as int] == l[index as int].rule_set());
                assert(gitem.rule_set() == l[index as int].rule_set());
            }
            if inserted {
                added = added + 1;
                proof {
                    assert(self.spec_candidates()[before.len() as int] == gitem);
                    assert forall|i: int| 0 <= i < index + 1 implies
                        self.contains_set((#[trigger] l[i]).rule_set()) by {
                        if i < index {
                            let k = choose|k: int|
                                0 <= k < before.len() && (#[trigger] before[k]).rule_set()
                                    == l[i].rule_set();
                            assert(self.spec_candidates()[k] == before[k]);
                        } else {
                            assert(self.spec_candidates()[before.len() as int].rule_set()
                                == l[i].rule_set());
                        }
                    }
                    assert(!rule_sets_of(before).contains(lsets[index as int])) by {
                        if rule_sets_of(before).contains(lsets[index as int]) {
                            let m = choose|m: int|
                                0 <= m < before.len() && rule_sets_of(before)[m]
                                    == lsets[index as int];
                            assert(before[m].rule_set() == gitem.rule_set());
                        }
                    }
                    assert(rule_sets_of(self.spec_candidates())
                        =~= rule_sets_of(before).push(gitem.rule_set())) by {
                        assert forall|m: int| 0 <= m < self.spec_candidates().len() implies
                            rule_sets_of(self.spec_candidates())[m] == rule_sets_of(before).push(
                                gitem.rule_set(),
                            )[m] by {
                            if m < before.len() {
                                assert(self.spec_candidates()[m] == before[m]);
                            } else {
                                assert(self.spec_candidates()[m] == gitem);
                            }
                        }
                    }
                    assert(stamped_from(gitem, l, old(self).spec_generation())) by {
                        assert(0 <= index < l.len() && gitem@ == l[index as int]@
                            && gitem.spec_mutation_count() == l[index as int].spec_mutation_count()
                            && gitem.spec_birth_generation_id()
                                == Some(old(self).spec_generation()));
                    }
                    assert forall|i: int| n0 <= i < self.spec_candidates().len() implies
                        stamped_from(
                            #[trigger] self.spec_candidates()[i],
                            l,
                            old(self).spec_generation(),
                        ) by {
                        if i < before.len() {
                            assert(self.spec_candidates()[i] == before[i]);
                        } else {
                            assert(self.spec_candidates()[i] == gitem);
                        }
                    }
                }
            } else {
                proof {
                    assert forall|i: int| 0 <= i < index + 1 implies
                        self.contains_set((#[trigger] l[i]).rule_set()) by {
                        if i == index {
                            assert(before == self.spec_candidates());
                        }
                    }
                    assert(rule_sets_of(before).contains(lsets[index as int])) by {
                        let k = choose|k: int|
                            0 <= k < before.len() && (#[trigger] before[k]).rule_set()
                                == gitem.rule_set();
                        assert(rule_sets_of(before)[k] == lsets[index as int]);
                    }
                }
            }
            index += 1;
        }
        proof {
            assert forall|i: int| 0 <= i < l.len() implies
                self.contains_set((#[trigger] l[i]).rule_set()) by {}
            assert(lsets.take(l.len() as int) =~= lsets);
        }
        added
    }

    /// Draw a random initial population: a target candidate count uniform
    /// in the configured range, then repeated candidate draws, skipping
    /// duplicates. Enough consecutive duplicates end generation early.
    /// Members are born at generation zero; the population starts at
    /// generation one.
    pub fn generate(spec: &crate::ga_spec::GaSpec) -> (r: Population)
        requires
            spec.generation_valid(),
        ensures
            r.wf(),
            r.spec_generation() == 1,
            r.spec_candidates().len() < spec.initial_generation.candidates.max,
            spec.initial_generation.candidates.min > 0 ==> r.spec_candidates().len() >= 1,
            forall|i: int| 0 <= i < r.spec_candidates().len()
                ==> (#[trigger] r.spec_candidates()[i]).spec_birth_generation_id() == Some(0usize),
    {
        let target = random_in_range(
            spec.initial_generation.candidates.min,
            spec.initial_generation.candidates.max,
        );
        let cap = spec.initial_generation.candidates.rng_fail_retries;
        let mut population = Population { generation: 1, candidates: Vec::new() };
        let mut consecutive_fails: usize = 0;
        let mut gave_up = false;
        while population.len() < target && !gave_up
            invariant
                target >= spec.initial_generation.candidates.min,
                target < spec.initial_generation.candidates.max,
                spec.generation_valid(),
                population.wf(),
                population.spec_generation() == 1,
                population.spec_candidates().len() <= target,
                gave_up || consecutive_fails < cap || consecutive_fails == 0,
                gave_up ==> population.spec_candidates().len() >= 1,
                forall|i: int| 0 <= i < population.spec_candidates().len()
                    ==> (#[trigger] population.spec_candidates()[i]).spec_birth_generation_id()
                        == Some(0usize),
            decreases
                target - population.spec_candidates().len(),
                (if gave_up { 0int } else { cap + 1 - consecutive_fails }),
        {
            let mut candidate = Candidate::generate(spec);
            candidate.set_birth_generation_id(0);
            let ghost gc = candidate;
            let inserted = population.insert(candidate);
            if !inserted {
                // A rejected insert collides with an existing member, so
                // giving up never leaves the population empty.
                consecutive_fails = consecutive_fails + 1;
                if consecutive_fails >= cap {
                    gave_up = true;
                }
            } else {
                consecutive_fails = 0;
                proof {
                    let s = population.spec_candidates();
                    assert(s[s.len() - 1] == gc);
                }
            }
        }
        population
    }

    /// Score every member against the examples and hand back the pairs,
    /// sorted ascending by fitness (ties in any order): the same candidates,
    /// with the same bookkeeping, each with its fitness. A member whose
    /// rules cannot all be evaluated fails the whole computation.
    pub fn calculate_fitness(&self, data_set: &DataSet) -> (r: Result<
        Vec<CandidateFitness>,
        FitnessCalculationError,
    >)
        requires
            self.wf(),
        ensures
            ({
                let cands = self.spec_candidates();
                let item_views = data_set@.map_values(|d: DataItem| d@);
                match r {
                    Ok(v) => {
                        &&& v@.len() == cands.len()
                        &&& sorted_by_fitness(v@)
                        &&& cf_keys(v@).to_multiset() == pair_keys(cands, item_views).to_multiset()
                        &&& sum_fitness(v@) == pop_total_fitness(cands, item_views)
                        &&& forall|i: int| 0 <= i < cands.len()
                            ==> spec_fitness((#[trigger] cands[i])@, item_views) is Some
                        &&& forall|k: int| 0 <= k < v@.len()
                            ==> (#[trigger] v@[k]).candidate.wf()
                    },
                    Err(e) => {
                        &&& exists|i: int| 0 <= i < cands.len()
                            && spec_fitness((#[trigger] cands[i])@, item_views) is None
                        &&& e == FitnessCalculationError::RuleEvaluationError(
                            RuleEvaluationError::IndexOutOfRange,
                        )
                    },
                }
            }),
    {
        let ghost cands = self.spec_candidates();
        let ghost item_views = data_set@.map_values(|d: DataItem| d@);
        let ghost pk = pair_keys(cands, item_views);
        let mut result: Vec<CandidateFitness> = Vec::new();
        let mut index: usize = 0;
        proof {
            assert(cf_keys(result@) =~= pk.take(0));
            assert(sum_keys(pk.take(0)) == 0);
        }
        while index < self.candidates.len()
            invariant
                index <= cands.len(),
                self.wf(),
                cands == self.spec_candidates(),
                item_views == data_set@.map_values(|d: DataItem| d@),
                pk == pair_keys(cands, item_views),
                result@.len() == index,
                sorted_by_fitness(result@),
                cf_keys(result@).to_multiset() == pk.take(index as int).to_multiset(),
                sum_fitness(result@) == sum_keys(pk.take(index as int)),
                forall|k: int| 0 <= k < result@.len()
                    ==> (#[trigger] result@[k]).candidate.wf(),
                forall|i: int| 0 <= i < index
                    ==> spec_fitness((#[trigger] cands[i])@, item_views) is Some,
            decreases cands.len() - index,
        {
            let candidate = &self.candidates[index];
            proof {
                assert(cands[index as int] == *candidate);
                assert(candidate.wf());
            }
            let fitness = match candidate.calculate_fitness(data_set) {
                Ok(f) => f,
                Err(e) => {
                    return Err(e);
                },
            };
            let cf = CandidateFitness { candidate: candidate.clone(), fitness };
            proof {
                assert(cf_key(cf) == pk[index as int]);
                assert(cf.candidate.wf()) by {
                    assert(cf.candidate@ == candidate@);
                }
            }
            let ghost pre = result@;
            insert_by_fitness(&mut result, cf);
            proof {
                assert(pk.take(index + 1).drop_last() =~= pk.take(index as int));
                assert(pk.take(index + 1).last() == pk[index as int]);
                assert(pk.take(index + 1) =~= pk.take(index as int).push(pk[index as int]));
                broadcast use vstd::seq_lib::group_to_multiset_ensures;
                assert(pk.take(index as int).push(pk[index as int]).to_multiset()
                    =~= pk.take(index as int).to_multiset().insert(pk[index as int]));
                assert(sum_keys(pk.take(index + 1))
                    == sum_keys(pk.take(index as int)) + pk[index as int].3);
            }
            index += 1;
        }
        proof {
            assert(pk.take(cands.len() as int) =~= pk);
        }
        Ok(result)
    }
}

/// Place one scored candidate into a fitness-sorted vector, keeping it
/// sorted: the element lands after every member whose fitness does not
/// exceed its own.
fn insert_by_fitness(v: &mut Vec<CandidateFitness>, cf: CandidateFitness)
    requires
        sorted_by_fitness(old(v)@),
    ensures
        final(v)@.len() == old(v)@.len() + 1,
        sorted_by_fitness(final(v)@),
        cf_keys(final(v)@).to_multiset() == cf_keys(old(v)@).to_multiset().insert(cf_key(cf)),
        sum_fitness(final(v)@) == sum_fitness(old(v)@) + cf.fitness,
        (forall|m: int| 0 <= m < old(v)@.len() ==> (#[trigger] old(v)@[m]).candidate.wf())
            && cf.candidate.wf()
            ==> (forall|m: int| 0 <= m < final(v)@.len()
                ==> (#[trigger] final(v)@[m]).candidate.wf()),
{
    let ghost s0 = old(v)@;
    let cf_fitness = cf.fitness;
    let mut idx = v.len();
    while idx > 0 && v[idx - 1].fitness > cf_fitness
        invariant
            idx <= s0.len(),
            v@ == s0,
            cf_fitness == cf.fitness,
            sorted_by_fitness(s0),
            forall|m: int| idx <= m < s0.len() ==> s0[m].fitness > cf.fitness,
        decreases idx,
    {
        idx -= 1;
    }
    v.insert(idx, cf);
    proof {
        broadcast use vstd::seq_lib::group_to_multiset_ensures;

        let s1 = v@;
        assert(s1 == s0.insert(idx as int, cf));
        assert(s1[idx as int] == cf);
        assert forall|a: int, b: int| 0 <= a < b < s1.len() implies
            s1[a].fitness <= s1[b].fitness by {
            let a0 = if a < idx { a } else { a - 1 };
            let b0 = if b < idx { b } else { b - 1 };
            if a == idx {
                assert(s1[b] == s0[b0]);
                assert(s0[b0].fitness > cf.fitness);
            } else if b == idx {
                assert(s1[a] == s0[a0]);
                assert(idx > 0 && s0[idx - 1].fitness <= cf.fitness);
                if a0 < idx - 1 {
                    assert(s0[a0].fitness <= s0[idx - 1].fitness);
                }
            } else {
                assert(s1[a] == s0[a0]);
                assert(s1[b] == s0[b0]);
                if a0 < b0 {
                    assert(s0[a0].fitness <= s0[b0].fitness);
                }
            }
        }
        let k = cf_key(cf);
        let ks0 = cf_keys(s0);
        let ks1 = cf_keys(s1);
        assert(ks1 =~= ks0.insert(idx as int, k)) by {
            assert forall|m: int| 0 <= m < s1.len() implies
                ks1[m] == ks0.insert(idx as int, k)[m] by {
                if m < idx {
                    assert(s1[m] == s0[m]);
                } else if m == idx {
                    assert(s1[m] == cf);
                } else {
                    assert(s1[m] == s0[m - 1]);
                }
            }
        }
        assert(ks1.remove(idx as int) =~= ks0);
        assert(ks1.remove(idx as int).to_multiset() =~= ks1.to_multiset().remove(ks1[idx as int]));
        assert(ks1[idx as int] == k);
        assert(ks1.contains(k)) by {
            assert(ks1[idx as int] == k);
        }
        assert(ks1.to_multiset().count(k) > 0);
        assert(ks1.to_multiset() =~= ks0.to_multiset().insert(k)) by {
            assert(ks0.to_multiset() == ks1.to_multiset().remove(k));
            assert forall|x: (Seq<Seq<(usize, char)>>, usize, Option<usize>, int)|
                ks1.to_multiset().count(x) == ks0.to_multiset().insert(k).count(x) by {
                if x == k {
                    assert(ks0.to_multiset().count(x) == ks1.to_multiset().count(x) - 1);
                } else {
                    assert(ks0.to_multiset().count(x) == ks1.to_multiset().count(x));
                }
            }
        }
        lemma_sum_fitness_insert(s0, idx as int, cf);
        if (forall|m: int| 0 <= m < s0.len() ==> (#[trigger] s0[m]).candidate.wf())
            && cf.candidate.wf() {
            assert forall|m: int| 0 <= m < s1.len() implies
                (#[trigger] s1[m]).candidate.wf() by {
                if m < idx {
                    assert(s1[m] == s0[m]);
                } else if m == idx {
                    assert(s1[m] == cf);
                } else {
                    assert(s1[m] == s0[m - 1]);
                }
            }
        }
    }
}

} // verus!
