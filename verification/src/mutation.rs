use vstd::prelude::*;
use crate::candidate::Candidate;
use crate::ga_spec::GaSpec;
use crate::population::Population;
use crate::rng::{random_in_range, random_ratio};
use crate::rule::Rule;

verus! {

/// Why a mutation pass failed.
#[derive(Debug, Clone, Copy, PartialEq, Eq, Structural)]
pub enum MutationError {
    /// Drawing a free position used up all its retries.
    RngFail,
}

/// The constraint-level operator a mutation pass applies.
#[derive(Debug, Clone, Copy)]
pub enum MutationStrategyVariant {
    /// Exchange the values at the position and at the position shifted by
    /// `delta` (modulo the example width).
    ConstraintSwap { delta: isize },
    /// Move the constraint to a freshly drawn free position; on repeated
    /// collisions, either swap with the colliding position or fail.
    ConstraintRandomize { swap_if_fail: bool, retries: usize },
    /// Re-draw the symbol at the position, sometimes removing the
    /// constraint entirely.
    ConstraintValueRandomize,
}

/// The four nested probability gates of a mutation pass, each a percentage.
#[derive(Debug, Clone, Copy)]
pub struct MutationStrategyCommonOptions {
    pub chance: Option<usize>,
    pub chance_per_candidate: Option<usize>,
    pub chance_per_rule: Option<usize>,
    pub chance_per_constraint: Option<usize>,
}

/// A fully configured mutation: the four gates and the operator.
#[derive(Debug, Clone, Copy)]
pub struct MutationStrategy {
    pub options: MutationStrategyCommonOptions,
    pub variant: MutationStrategyVariant,
}

/// A percentage gate is usable when it does not exceed one hundred.
pub open spec fn chance_valid(c: Option<usize>) -> bool {
    match c {
        Some(p) => p <= 100,
        None => true,
    }
}

impl MutationStrategy {
    /// All four gates are percentages.
    pub open spec fn chances_valid(self) -> bool {
        &&& chance_valid(self.options.chance)
        &&& chance_valid(self.options.chance_per_candidate)
        &&& chance_valid(self.options.chance_per_rule)
        &&& chance_valid(self.options.chance_per_constraint)
    }
}

/// Copy a rule vector, keeping every rule's constraints.
fn clone_rules(v: &Vec<Rule>) -> (r: Vec<Rule>)
    ensures
        r@.len() == v@.len(),
        forall|i: int| 0 <= i < v@.len() ==> (#[trigger] r@[i])@ == v@[i]@,
{
    let mut out: Vec<Rule> = Vec::new();
    let mut i: usize = 0;
    while i < v.len()
        invariant
            i <= v@.len(),
            out@.len() == i,
            forall|m: int| 0 <= m < i ==> (#[trigger] out@[m])@ == v@[m]@,
        decreases v@.len() - i,
    {
        out.push(v[i].clone());
        i += 1;
    }
    out
}

/// Whether some pending change already produces this candidate.
fn news_contain(changes: &Vec<(Candidate, Candidate)>, x: &Candidate) -> (r: bool)
    ensures
        r == exists|k: int|
            0 <= k < changes@.len() && (#[trigger] changes@[k]).1.rule_set() == x.rule_set(),
{
    let mut k: usize = 0;
    while k < changes.len()
        invariant
            k <= changes@.len(),
            forall|m: int| 0 <= m < k ==> (#[trigger] changes@[m]).1.rule_set() != x.rule_set(),
        decreases changes@.len() - k,
    {
        if &changes[k].1 == x {
            proof {
                assert(changes@[k as int].1.rule_set() == x.rule_set());
            }
            return true;
        }
        k += 1;
    }
    proof {
        if exists|k2: int|
            0 <= k2 < changes@.len() && (#[trigger] changes@[k2]).1.rule_set() == x.rule_set() {
            let k2 = choose|k2: int|
                0 <= k2 < changes@.len() && (#[trigger] changes@[k2]).1.rule_set()
                    == x.rule_set();
            assert(changes@[k2].1.rule_set() != x.rule_set());
        }
    }
    false
}

/// Shift a position by a signed delta, wrapping around the example width.
fn add_delta_mod(position: usize, delta: isize, width: usize) -> (r: usize)
    requires
        width > 0,
    ensures
        r < width,
{
    let w = width as u128;
    let d = delta as i128;
    let offset: u128 = if d >= 0 {
        (d as u128) % w
    } else {
        (w - ((-d) as u128) % w) % w
    };
    let shifted = ((position as u128) % w + offset) % w;
    shifted as usize
}

/// Exchange the values held at `a` and `b` in the rule (either may be
/// unconstrained).
fn swap_positions(rule: &mut Rule, a: usize, b: usize)
    requires
        old(rule).wf(),
    ensures
        final(rule).wf(),
{
    let value_at_b = rule.remove_constraint(b);
    let value_at_a = rule.remove_constraint(a);
    if let Some(v) = value_at_a {
        rule.set_constraint(b, v);
    }
    if let Some(v) = value_at_b {
        rule.set_constraint(a, v);
    }
}

/// The candidate either sits unchanged in `before` or is a well-formed
/// newcomer whose rule set `before` did not hold.
pub open spec fn member_accounted(c: Candidate, before: Population) -> bool {
    ||| exists|i: int|
        0 <= i < before.spec_candidates().len() && c == (#[trigger] before.spec_candidates()[i])
    ||| !before.contains_set(c.rule_set()) && c.wf()
}

/// The candidate either still sits in `after` as it was, or was replaced:
/// no member of `after` carries its rule set any more.
pub open spec fn member_kept_or_replaced(c: Candidate, after: Population) -> bool {
    ||| exists|j: int|
        0 <= j < after.spec_candidates().len() && (#[trigger] after.spec_candidates()[j]) == c
    ||| !after.contains_set(c.rule_set())
}

/// An untouched population accounts for all its members trivially.
proof fn lemma_unchanged_membership(p: Population)
    ensures
        forall|j: int| 0 <= j < p.spec_candidates().len()
            ==> member_accounted(#[trigger] p.spec_candidates()[j], p),
        forall|i: int| 0 <= i < p.spec_candidates().len()
            ==> member_kept_or_replaced(#[trigger] p.spec_candidates()[i], p),
{
    assert forall|j: int| 0 <= j < p.spec_candidates().len() implies
        member_accounted(#[trigger] p.spec_candidates()[j], p) by {
        assert(p.spec_candidates()[j] == p.spec_candidates()[j]);
    }
    assert forall|i: int| 0 <= i < p.spec_candidates().len() implies
        member_kept_or_replaced(#[trigger] p.spec_candidates()[i], p) by {
        assert(p.spec_candidates()[i] == p.spec_candidates()[i]);
    }
}

impl MutationStrategy {
    /// One mutation pass over the population. Four nested percentage gates
    /// decide which constraint positions of which rules of which candidates
    /// are acted on; a candidate whose mutated rules differ from its own,
    /// are not already in the population, and were not already produced in
    /// this pass replaces its original. The population keeps its size and
    /// generation; every final member is either an untouched old member or a
    /// fresh replacement, and every old member either stays or leaves with
    /// its rule set. Only ConstraintRandomize without the swap fallback can
    /// fail, when drawing a free position runs out of retries; with the
    /// fallback set, exhausted retries fall back to swapping with the
    /// colliding position instead. On failure the population is unchanged.
    #[verifier::rlimit(100)]
    pub fn mutate(&self, population: &mut Population, ga_spec: &GaSpec) -> (r: Result<
        (),
        MutationError,
    >)
        requires
            old(population).wf(),
            self.chances_valid(),
            ga_spec.generation_valid(),
        ensures
            final(population).wf(),
            final(population).spec_generation() == old(population).spec_generation(),
            final(population).spec_candidates().len() == old(population).spec_candidates().len(),
            forall|j: int| 0 <= j < final(population).spec_candidates().len()
                ==> member_accounted(
                    #[trigger] final(population).spec_candidates()[j],
                    *old(population),
                ),
            forall|i: int| 0 <= i < old(population).spec_candidates().len()
                ==> member_kept_or_replaced(
                    #[trigger] old(population).spec_candidates()[i],
                    *final(population),
                ),
            r is Err ==> r == Err::<(), _>(MutationError::RngFail)
                && (self.variant matches MutationStrategyVariant::ConstraintRandomize {
                    swap_if_fail: false,
                    ..
                })
                && final(population).spec_candidates() == old(population).spec_candidates(),
            !(self.variant matches MutationStrategyVariant::ConstraintRandomize {
                swap_if_fail: false,
                ..
            }) ==> r is Ok,
            self.options.chance is None || self.options.chance == Some(0usize) ==> r is Ok
                && final(population).spec_candidates() == old(population).spec_candidates(),
    {
        let chance = match self.options.chance {
            Some(c) => c,
            None => 0,
        };
        if chance == 0 {
            proof {
                lemma_unchanged_membership(*population);
            }
            return Ok(());
        }
        if !random_ratio(chance as u32, 100) {
            proof {
                lemma_unchanged_membership(*population);
            }
            return Ok(());
        }
        let chance_per_candidate = match self.options.chance_per_candidate {
            Some(c) => c,
            None => 0,
        };
        let chance_per_rule = match self.options.chance_per_rule {
            Some(c) => c,
            None => 0,
        };
        let chance_per_constraint = match self.options.chance_per_constraint {
            Some(c) => c,
            None => 0,
        };
        let max_index = ga_spec.calculated.max_index;
        let alpha_len = ga_spec.calculated.alphabet.len();
        let mut changes: Vec<(Candidate, Candidate)> = Vec::new();
        let ghost mut wit: Seq<int> = Seq::empty();
        let n = population.len();
        let mut ci: usize = 0;
        while ci < n
            invariant
                population.wf(),
                *population == *old(population),
                n == population.spec_candidates().len(),
                ci <= n,
                self.chances_valid(),
                ga_spec.generation_valid(),
                max_index == ga_spec.calculated.max_index,
                alpha_len == ga_spec.calculated.alphabet@.len(),
                chance_per_candidate <= 100,
                self.options.chance is Some,
                self.options.chance != Some(0usize),
                chance_per_rule <= 100,
                chance_per_constraint <= 100,
                wit.len() == changes@.len(),
                forall|k: int| 0 <= k < changes@.len() ==> 0 <= #[trigger] wit[k] < ci,
                forall|k1: int, k2: int| 0 <= k1 < k2 < changes@.len() ==> wit[k1] < wit[k2],
                forall|k: int| 0 <= k < changes@.len()
                    ==> (#[trigger] changes@[k]).0.rule_set()
                        == population.spec_candidates()[wit[k]].rule_set(),
                forall|k: int| 0 <= k < changes@.len()
                    ==> !population.contains_set((#[trigger] changes@[k]).1.rule_set()),
                forall|k: int| 0 <= k < changes@.len() ==> (#[trigger] changes@[k]).1.wf(),
                forall|k1: int, k2: int| 0 <= k1 < k2 < changes@.len()
                    ==> changes@[k1].1.rule_set() != changes@[k2].1.rule_set(),
            decreases n - ci,
        {
            if !random_ratio(chance_per_candidate as u32, 100) {
                ci += 1;
                continue;
            }
            let candidate = population.get(ci).clone();
            proof {
                assert(population.spec_candidates()[ci as int].wf());
                assert(candidate@ == population.spec_candidates()[ci as int]@);
            }
            let candidate_rules = candidate.rules();
            let mut rules: Vec<Rule> = clone_rules(candidate_rules);
            proof {
                assert forall|i: int| 0 <= i < rules@.len() implies (#[trigger] rules@[i]).wf() by {
                    assert(rules@[i]@ == candidate_rules@[i]@);
                    assert(candidate@[i] == candidate_rules@[i]@);
                }
            }
            let mut ran = false;
            let ghost rlen = rules@.len();
            let mut ri: usize = 0;
            while ri < rules.len()
                invariant
                    ri <= rules@.len(),
                    rules@.len() == rlen,
                    population.wf(),
                    *population == *old(population),
                    self.chances_valid(),
                    ga_spec.generation_valid(),
                    max_index == ga_spec.calculated.max_index,
                    alpha_len == ga_spec.calculated.alphabet@.len(),
                    chance_per_rule <= 100,
                    self.options.chance is Some,
                    self.options.chance != Some(0usize),
                    chance_per_constraint <= 100,
                    forall|i: int| 0 <= i < rules@.len() ==> (#[trigger] rules@[i]).wf(),
                decreases rules@.len() - ri,
            {
                if !random_ratio(chance_per_rule as u32, 100) {
                    ri += 1;
                    continue;
                }
                let mut ck: usize = 0;
                while ck < max_index
                    invariant
                        ck <= max_index,
                        ri < rules@.len(),
                        rules@.len() == rlen,
                        population.wf(),
                        *population == *old(population),
                        self.chances_valid(),
                        ga_spec.generation_valid(),
                        max_index == ga_spec.calculated.max_index,
                        alpha_len == ga_spec.calculated.alphabet@.len(),
                        chance_per_constraint <= 100,
                        self.options.chance is Some,
                        self.options.chance != Some(0usize),
                        forall|i: int| 0 <= i < rules@.len() ==> (#[trigger] rules@[i]).wf(),
                    decreases max_index - ck,
                {
                    if !random_ratio(chance_per_constraint as u32, 100) {
                        ck += 1;
                        continue;
                    }
                    ran = true;
                    match &self.variant {
                        MutationStrategyVariant::ConstraintSwap { delta } => {
                            let delta = *delta;
                            let new_key = add_delta_mod(ck, delta, max_index);
                            let mut rule = rules[ri].clone();
                            swap_positions(&mut rule, ck, new_key);
                            rules.remove(ri);
                            rules.insert(ri, rule);
                            proof {
                                assert forall|i: int| 0 <= i < rules@.len() implies
                                    (#[trigger] rules@[i]).wf() by {}
                            }
                        },
                        MutationStrategyVariant::ConstraintRandomize { swap_if_fail, retries } => {
                            let swap_if_fail = *swap_if_fail;
                            let retries = *retries;
                            proof {
                                assert(self.variant is ConstraintRandomize);
                            }
                            let mut rule = rules[ri].clone();
                            let mut swap = false;
                            let mut fails: usize = 0;
                            let mut new_key = random_in_range(0, max_index);
                            let mut dup = rule.has_constraint(new_key);
                            while dup
                                invariant
                                    fails <= retries,
                                    new_key < max_index,
                                    max_index == ga_spec.calculated.max_index,
                                    ga_spec.generation_valid(),
                                    population.wf(),
                                    *population == *old(population),
                                    self.options.chance is Some,
                                    self.options.chance != Some(0usize),
                                    self.variant == (MutationStrategyVariant::ConstraintRandomize {
                                        swap_if_fail,
                                        retries,
                                    }),
                                decreases retries - fails,
                            {
                                if swap_if_fail {
                                    swap = true;
                                }
                                if fails >= retries {
                                    if swap_if_fail {
                                        // Retries are spent: fall back to
                                        // swapping with the colliding
                                        // position rather than failing.
                                        break;
                                    }
                                    proof {
                                        lemma_unchanged_membership(*population);
                                    }
                                    return Err(MutationError::RngFail);
                                }
                                fails = fails + 1;
                                new_key = random_in_range(0, max_index);
                                dup = rule.has_constraint(new_key);
                            }
                            if swap {
                                swap_positions(&mut rule, ck, new_key);
                            } else {
                                let value = rule.remove_constraint(ck);
                                if let Some(v) = value {
                                    rule.set_constraint(new_key, v);
                                }
                            }
                            rules.remove(ri);
                            rules.insert(ri, rule);
                            proof {
                                assert forall|i: int| 0 <= i < rules@.len() implies
                                    (#[trigger] rules@[i]).wf() by {}
                            }
                        },
                        MutationStrategyVariant::ConstraintValueRandomize => {
                            let mut rule = rules[ri].clone();
                            match rule.get_constraint(ck) {
                                Some(_) => {
                                    if random_ratio(1, (alpha_len + 1) as u32) {
                                        rule.remove_constraint(ck);
                                    } else {
                                        let pos = random_in_range(0, alpha_len);
                                        let new_char = ga_spec.calculated.alphabet[pos];
                                        rule.set_constraint(ck, new_char);
                                    }
                                },
                                None => {
                                    let pos = random_in_range(0, alpha_len);
                                    let new_char = ga_spec.calculated.alphabet[pos];
                                    rule.set_constraint(ck, new_char);
                                },
                            }
                            rules.remove(ri);
                            rules.insert(ri, rule);
                            proof {
                                assert forall|i: int| 0 <= i < rules@.len() implies
                                    (#[trigger] rules@[i]).wf() by {}
                            }
                        },
                    }
                    ck += 1;
                }
                ri += 1;
            }
            if ran {
                let new_candidate = Candidate::from_rules(&rules);
                proof {
                    crate::candidate::lemma_dedup_views(rules@.map_values(|x: Rule| x@));
                }
                if !(&new_candidate == &candidate) && !population.contains(&new_candidate)
                    && !news_contain(&changes, &new_candidate) {
                    changes.push((candidate, new_candidate));
                    proof {
                        wit = wit.push(ci as int);
                        assert(changes@[changes@.len() - 1].0.rule_set()
                            == population.spec_candidates()[ci as int].rule_set());
                    }
                }
            }
            ci += 1;
        }
        let ghost all_changes = changes@;
        let n_changes = changes.len();
        proof {
            assert(all_changes.len() == n_changes);
        }
        let mut changes = changes;
        let mut applied: usize = 0;
        proof {
            assert forall|k1: int, k2: int|
                0 <= k1 < k2 < all_changes.len() implies all_changes[k1].0.rule_set()
                    != all_changes[k2].0.rule_set() by {
                assert(all_changes[k1].0.rule_set()
                    == old(population).spec_candidates()[wit[k1]].rule_set());
                assert(all_changes[k2].0.rule_set()
                    == old(population).spec_candidates()[wit[k2]].rule_set());
                assert(wit[k1] < wit[k2]);
            }
            assert forall|k: int| 0 <= k < all_changes.len() implies
                !old(population).contains_set((#[trigger] all_changes[k]).1.rule_set()) by {}
            lemma_unchanged_membership(*population);
        }
        while changes.len() > 0
            invariant
                applied + changes@.len() == all_changes.len(),
                all_changes.len() <= usize::MAX,
                changes@ == all_changes.skip(applied as int),
                population.wf(),
                population.spec_generation() == old(population).spec_generation(),
                population.spec_candidates().len() == old(population).spec_candidates().len(),
                forall|k: int| applied <= k < all_changes.len()
                    ==> population.contains_set((#[trigger] all_changes[k]).0.rule_set()),
                forall|k: int| applied <= k < all_changes.len()
                    ==> !population.contains_set((#[trigger] all_changes[k]).1.rule_set()),
                forall|k: int| 0 <= k < all_changes.len() ==> (#[trigger] all_changes[k]).1.wf(),
                forall|k1: int, k2: int| 0 <= k1 < k2 < all_changes.len()
                    ==> all_changes[k1].1.rule_set() != all_changes[k2].1.rule_set(),
                forall|k1: int, k2: int| 0 <= k1 < k2 < all_changes.len()
                    ==> all_changes[k1].0.rule_set() != all_changes[k2].0.rule_set(),
                forall|k: int| 0 <= k < all_changes.len()
                    ==> !old(population).contains_set((#[trigger] all_changes[k]).1.rule_set()),
                forall|j: int| 0 <= j < population.spec_candidates().len()
                    ==> member_accounted(
                        #[trigger] population.spec_candidates()[j],
                        *old(population),
                    ),
                forall|i: int| 0 <= i < old(population).spec_candidates().len()
                    ==> member_kept_or_replaced(
                        #[trigger] old(population).spec_candidates()[i],
                        *population,
                    ),
            decreases changes@.len(),
        {
            let (remove_me, add_me) = changes.remove(0);
            proof {
                assert(remove_me == all_changes[applied as int].0);
                assert(add_me == all_changes[applied as int].1);
                assert(changes@ =~= all_changes.skip(applied + 1));
            }
            let ghost before = *population;
            let removed = population.remove(&remove_me);
            proof {
                assert(removed);
                let mid = population.spec_candidates();
                let idx = choose|idx: int|
                    0 <= idx < before.spec_candidates().len()
                        && (#[trigger] before.spec_candidates()[idx]).rule_set()
                            == remove_me.rule_set()
                        && mid == before.spec_candidates().remove(idx);
                assert forall|k: int| applied + 1 <= k < all_changes.len() implies
                    population.contains_set((#[trigger] all_changes[k]).0.rule_set()) by {
                    let j = choose|j: int|
                        0 <= j < before.spec_candidates().len()
                            && (#[trigger] before.spec_candidates()[j]).rule_set()
                                == all_changes[k].0.rule_set();
                    assert(j != idx) by {
                        assert(all_changes[k].0.rule_set() != all_changes[applied as int].0.rule_set());
                    }
                    if j < idx {
                        assert(mid[j] == before.spec_candidates()[j]);
                    } else {
                        assert(mid[j - 1] == before.spec_candidates()[j]);
                    }
                }
                assert forall|k: int| applied <= k < all_changes.len() implies
                    !population.contains_set((#[trigger] all_changes[k]).1.rule_set()) by {
                    if population.contains_set(all_changes[k].1.rule_set()) {
                        let j = choose|j: int|
                            0 <= j < mid.len() && (#[trigger] mid[j]).rule_set()
                                == all_changes[k].1.rule_set();
                        let j0 = if j < idx { j } else { j + 1 };
                        assert(mid[j] == before.spec_candidates()[j0]);
                        assert(before.contains_set(all_changes[k].1.rule_set()));
                    }
                }
                assert forall|j: int| 0 <= j < mid.len() implies
                    member_accounted(#[trigger] mid[j], *old(population)) by {
                    let j0 = if j < idx { j } else { j + 1 };
                    assert(mid[j] == before.spec_candidates()[j0]);
                    assert(member_accounted(before.spec_candidates()[j0], *old(population)));
                }
                assert forall|i: int| 0 <= i < old(population).spec_candidates().len() implies
                    member_kept_or_replaced(
                        #[trigger] old(population).spec_candidates()[i],
                        *population,
                    ) by {
                    let c = old(population).spec_candidates()[i];
                    assert(member_kept_or_replaced(c, before));
                    if exists|j: int|
                        0 <= j < before.spec_candidates().len()
                            && (#[trigger] before.spec_candidates()[j]) == c {
                        let j = choose|j: int|
                            0 <= j < before.spec_candidates().len()
                                && (#[trigger] before.spec_candidates()[j]) == c;
                        if j < idx {
                            assert(mid[j] == c);
                        } else if j > idx {
                            assert(mid[j - 1] == c);
                        } else {
                            // The member being replaced: its rule set was
                            // unique in the well-formed population, so no
                            // remaining member carries it.
                            assert(!population.contains_set(c.rule_set())) by {
                                if population.contains_set(c.rule_set()) {
                                    let m = choose|m: int|
                                        0 <= m < mid.len() && (#[trigger] mid[m]).rule_set()
                                            == c.rule_set();
                                    let m0 = if m < idx { m } else { m + 1 };
                                    assert(mid[m] == before.spec_candidates()[m0]);
                                    assert(m0 != idx);
                                    assert(before.spec_candidates()[m0].rule_set()
                                        != before.spec_candidates()[idx].rule_set());
                                }
                            }
                        }
                    } else {
                        assert(!before.contains_set(c.rule_set()));
                        assert(!population.contains_set(c.rule_set())) by {
                            if population.contains_set(c.rule_set()) {
                                let m = choose|m: int|
                                    0 <= m < mid.len() && (#[trigger] mid[m]).rule_set()
                                        == c.rule_set();
                                let m0 = if m < idx { m } else { m + 1 };
                                assert(mid[m] == before.spec_candidates()[m0]);
                                assert(before.contains_set(c.rule_set()));
                            }
                        }
                    }
                }
            }
            let ghost mid_pop = *population;
            let ghost gadd = add_me;
            let inserted = population.insert(add_me);
            proof {
                assert(inserted);
                assert(population.spec_candidates()
                    == mid_pop.spec_candidates().push(gadd));
                assert forall|k: int| applied + 1 <= k < all_changes.len() implies
                    population.contains_set((#[trigger] all_changes[k]).0.rule_set()) by {
                    let j = choose|j: int|
                        0 <= j < mid_pop.spec_candidates().len()
                            && (#[trigger] mid_pop.spec_candidates()[j]).rule_set()
                                == all_changes[k].0.rule_set();
                    assert(population.spec_candidates()[j] == mid_pop.spec_candidates()[j]);
                }
                assert forall|k: int| applied + 1 <= k < all_changes.len() implies
                    !population.contains_set((#[trigger] all_changes[k]).1.rule_set()) by {
                    if population.contains_set(all_changes[k].1.rule_set()) {
                        let j = choose|j: int|
                            0 <= j < population.spec_candidates().len()
                                && (#[trigger] population.spec_candidates()[j]).rule_set()
                                    == all_changes[k].1.rule_set();
                        if j < mid_pop.spec_candidates().len() {
                            assert(mid_pop.contains_set(all_changes[k].1.rule_set()));
                        } else {
                            assert(population.spec_candidates()[j] == gadd);
                            assert(all_changes[applied as int].1.rule_set()
                                != all_changes[k].1.rule_set());
                        }
                    }
                }
                assert forall|j: int| 0 <= j < population.spec_candidates().len() implies
                    member_accounted(
                        #[trigger] population.spec_candidates()[j],
                        *old(population),
                    ) by {
                    if j < mid_pop.spec_candidates().len() {
                        assert(population.spec_candidates()[j] == mid_pop.spec_candidates()[j]);
                        assert(member_accounted(mid_pop.spec_candidates()[j], *old(population)));
                    } else {
                        assert(population.spec_candidates()[j] == gadd);
                        assert(!old(population).contains_set(gadd.rule_set()));
                        assert(gadd.wf());
                    }
                }
                assert forall|i: int| 0 <= i < old(population).spec_candidates().len() implies
                    member_kept_or_replaced(
                        #[trigger] old(population).spec_candidates()[i],
                        *population,
                    ) by {
                    let c = old(population).spec_candidates()[i];
                    assert(member_kept_or_replaced(c, mid_pop));
                    if exists|j: int|
                        0 <= j < mid_pop.spec_candidates().len()
                            && (#[trigger] mid_pop.spec_candidates()[j]) == c {
                        let j = choose|j: int|
                            0 <= j < mid_pop.spec_candidates().len()
                                && (#[trigger] mid_pop.spec_candidates()[j]) == c;
                        assert(population.spec_candidates()[j] == c);
                    } else {
                        assert(!mid_pop.contains_set(c.rule_set()));
                        // The inserted newcomer's rule set was absent from
                        // the old population, while this member's set was
                        // there, so the sets differ.
                        assert(old(population).contains_set(c.rule_set())) by {
                            assert(old(population).spec_candidates()[i].rule_set()
                                == c.rule_set());
                        }
                        assert(gadd.rule_set() != c.rule_set());
                        assert(!population.contains_set(c.rule_set())) by {
                            if population.contains_set(c.rule_set()) {
                                let m = choose|m: int|
                                    0 <= m < population.spec_candidates().len()
                                        && (#[trigger] population.spec_candidates()[m]).rule_set()
                                            == c.rule_set();
                                if m < mid_pop.spec_candidates().len() {
                                    assert(mid_pop.contains_set(c.rule_set()));
                                } else {
                                    assert(population.spec_candidates()[m] == gadd);
                                }
                            }
                        }
                    }
                }
            }
            applied += 1;
        }
        Ok(())
    }
}

} // verus!
