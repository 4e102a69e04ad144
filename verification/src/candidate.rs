use vstd::prelude::*;
use vstd::string::*;
use crate::rng::random_in_range;
use crate::dataset::DataSet;
use crate::rule::{Rule, RuleEvaluationError, in_range, positions_ascend};

verus! {

/// Why the fitness of a candidate cannot be computed.
#[derive(Debug, Clone, Copy, PartialEq, Eq, Structural)]
pub enum FitnessCalculationError {
    /// Some rule constrains a position beyond an example's width.
    RuleEvaluationError(RuleEvaluationError),
}

/// A candidate paired with the fitness it scored.
#[derive(Debug)]
pub struct CandidateFitness {
    pub candidate: Candidate,
    pub fitness: usize,
}

/// What one rule yields on an example string: None when a constraint lies
/// out of range, otherwise whether every constraint agrees.
pub open spec fn eval_result(rv: Seq<(usize, char)>, input: Seq<char>) -> Option<bool> {
    if in_range(rv, input.len()) {
        Some(crate::rule::matches(rv, input))
    } else {
        None
    }
}

/// The one-character label a boolean evaluation stands for.
pub open spec fn label_of(b: bool) -> Seq<char> {
    if b {
        seq!['1']
    } else {
        seq!['0']
    }
}

/// Walk the candidate's rules in order over one example: Some(true) as soon
/// as a rule's evaluation, read as a label, equals the example's label;
/// None when a rule fails to evaluate first; Some(false) when the rules run
/// out.
pub open spec fn scan_rules(rules: Seq<Seq<(usize, char)>>, item: (Seq<char>, Seq<char>)) -> Option<
    bool,
>
    decreases rules.len(),
{
    if rules.len() == 0 {
        Some(false)
    } else {
        match eval_result(rules[0], item.0) {
            None => None,
            Some(b) => if label_of(b) == item.1 {
                Some(true)
            } else {
                scan_rules(rules.drop_first(), item)
            },
        }
    }
}

/// The number of examples the rules classify correctly, or None when some
/// example makes a rule fail.
pub open spec fn spec_fitness(
    rules: Seq<Seq<(usize, char)>>,
    items: Seq<(Seq<char>, Seq<char>)>,
) -> Option<int>
    decreases items.len(),
{
    if items.len() == 0 {
        Some(0)
    } else {
        let prev = spec_fitness(rules, items.drop_last());
        let cur = scan_rules(rules, items.last());
        if prev is None || cur is None {
            None
        } else {
            Some(prev.unwrap() + if cur.unwrap() { 1int } else { 0int })
        }
    }
}

/// The distinct members of `s`, each kept at its first occurrence.
pub open spec fn dedup_views(s: Seq<Seq<(usize, char)>>) -> Seq<Seq<(usize, char)>>
    decreases s.len(),
{
    if s.len() == 0 {
        Seq::empty()
    } else {
        let d = dedup_views(s.drop_last());
        if d.contains(s.last()) {
            d
        } else {
            d.push(s.last())
        }
    }
}

/// What `dedup_views` keeps: the same members, each once, all from `s`.
pub proof fn lemma_dedup_views(s: Seq<Seq<(usize, char)>>)
    ensures
        dedup_views(s).to_set() == s.to_set(),
        dedup_views(s).no_duplicates(),
        dedup_views(s).len() <= s.len(),
        forall|i: int| 0 <= i < dedup_views(s).len() ==> s.contains(#[trigger] dedup_views(s)[i]),
    decreases s.len(),
{
    broadcast use vstd::set::group_set_axioms;

    if s.len() == 0 {
        assert(dedup_views(s).to_set() =~= s.to_set());
    } else {
        let d0 = dedup_views(s.drop_last());
        lemma_dedup_views(s.drop_last());
        assert forall|x: Seq<(usize, char)>| s.contains(x) implies
            s.drop_last().contains(x) || x == s.last() by {
            let i = choose|i: int| 0 <= i < s.len() && s[i] == x;
            if i < s.len() - 1 {
                assert(s.drop_last()[i] == x);
            }
        }
        assert forall|x: Seq<(usize, char)>| s.drop_last().contains(x) implies s.contains(x) by {
            let i = choose|i: int| 0 <= i < s.drop_last().len() && s.drop_last()[i] == x;
            assert(s[i] == x);
        }
        assert(s.contains(s.last())) by {
            assert(s[s.len() - 1] == s.last());
        }
        if d0.contains(s.last()) {
            assert(dedup_views(s).to_set() =~= s.to_set());
        } else {
            assert forall|x: Seq<(usize, char)>| dedup_views(s).contains(x) implies s.contains(x) by {
                let i = choose|i: int| 0 <= i < dedup_views(s).len() && dedup_views(s)[i] == x;
                if i < d0.len() {
                    assert(d0[i] == x);
                    assert(d0.contains(x));
                }
            }
            assert forall|x: Seq<(usize, char)>| s.contains(x) implies dedup_views(s).contains(x) by {
                if s.drop_last().contains(x) {
                    assert(s.drop_last().to_set().contains(x));
                    assert(d0.to_set().contains(x));
                    assert(d0.contains(x));
                    let i = choose|i: int| 0 <= i < d0.len() && d0[i] == x;
                    assert(dedup_views(s)[i] == x);
                } else {
                    assert(x == s.last());
                    assert(dedup_views(s)[d0.len() as int] == x);
                }
            }
            assert(dedup_views(s).to_set() =~= s.to_set());
            assert forall|i: int, j: int| 0 <= i < j < dedup_views(s).len() implies
                dedup_views(s)[i] != dedup_views(s)[j] by {
                if j < d0.len() {
                    assert(d0[i] != d0[j]);
                } else {
                    assert(dedup_views(s)[j] == s.last());
                    assert(d0[i] == dedup_views(s)[i]);
                    if d0[i] == s.last() {
                        assert(d0.contains(s.last()));
                    }
                }
            }
        }
    }
}

/// A candidate: a set of unique rules, with bookkeeping for how often it was
/// mutated and the generation it was born in. Two candidates are equal
/// exactly when their rule sets are, whatever the bookkeeping says.
#[derive(Debug)]
pub struct Candidate {
    rules: Vec<Rule>,
    mutation_count: usize,
    birth_generation_id: Option<usize>,
}

impl View for Candidate {
    type V = Seq<Seq<(usize, char)>>;

    closed spec fn view(&self) -> Seq<Seq<(usize, char)>> {
        self.rules@.map_values(|r: Rule| r@)
    }
}

impl Candidate {
    /// The candidate's rule set, as a set of canonical constraint sequences.
    pub open spec fn rule_set(self) -> Set<Seq<(usize, char)>> {
        self@.to_set()
    }

    pub closed spec fn spec_mutation_count(self) -> usize {
        self.mutation_count
    }

    pub closed spec fn spec_birth_generation_id(self) -> Option<usize> {
        self.birth_generation_id
    }

    /// Well-formed: every rule is canonical and no two rules are the same.
    pub open spec fn wf(self) -> bool {
        &&& forall|i: int| 0 <= i < self@.len() ==> positions_ascend(#[trigger] self@[i])
        &&& self@.no_duplicates()
    }

    /// Build a candidate from rules, collapsing duplicates: each distinct
    /// rule is kept at its first occurrence. Bookkeeping starts at zero
    /// mutations and no birth generation.
    pub fn from_rules(rules: &Vec<Rule>) -> (r: Candidate)
        ensures
            r@ == dedup_views(rules@.map_values(|x: Rule| x@)),
            r.spec_mutation_count() == 0,
            r.spec_birth_generation_id() is None,
            (forall|i: int| 0 <= i < rules@.len() ==> (#[trigger] rules@[i]).wf()) ==> r.wf(),
    {
        let ghost views = rules@.map_values(|x: Rule| x@);
        let mut out: Vec<Rule> = Vec::new();
        let mut i: usize = 0;
        while i < rules.len()
            invariant
                i <= rules.len(),
                views == rules@.map_values(|x: Rule| x@),
                out@.map_values(|x: Rule| x@) == dedup_views(views.take(i as int)),
                forall|j: int| 0 <= j < out@.len() ==> exists|k: int|
                    0 <= k < i && (#[trigger] out@[j])@ == rules@[k]@,
            decreases rules.len() - i,
        {
            let ghost pre = out@.map_values(|x: Rule| x@);
            let mut found = false;
            let mut j: usize = 0;
            while j < out.len()
                invariant
                    j <= out.len(),
                    i < rules@.len(),
                    pre == out@.map_values(|x: Rule| x@),
                    pre.len() == out@.len(),
                    found <==> exists|k: int| 0 <= k < j && pre[k] == rules@[i as int]@,
                decreases out.len() - j,
            {
                if out[j] == rules[i] {
                    found = true;
                    proof {
                        assert(pre[j as int] == rules@[i as int]@);
                    }
                }
                j += 1;
            }
            proof {
                assert(found <==> pre.contains(rules@[i as int]@));
                assert(views.take(i + 1).drop_last() =~= views.take(i as int));
                assert(views.take(i + 1).last() == rules@[i as int]@);
            }
            if !found {
                out.push(rules[i].clone());
                proof {
                    assert(out@.map_values(|x: Rule| x@) =~= pre.push(rules@[i as int]@));
                }
            }
            i += 1;
        }
        proof {
            assert(views.take(rules@.len() as int) =~= views);
        }
        let r = Candidate { rules: out, mutation_count: 0, birth_generation_id: None };
        proof {
            assert(r@ == dedup_views(views));
            if forall|k: int| 0 <= k < rules@.len() ==> (#[trigger] rules@[k]).wf() {
                lemma_dedup_views(views);
                assert forall|j: int| 0 <= j < r@.len() implies positions_ascend(#[trigger] r@[j]) by {
                    assert(views.contains(r@[j]));
                    let k = choose|k: int| 0 <= k < views.len() && views[k] == r@[j];
                    assert(views[k] == rules@[k]@);
                    assert(rules@[k].wf());
                }
            }
        }
        r
    }

    /// The rules, in first-insertion order.
    pub fn rules(&self) -> (r: &Vec<Rule>)
        ensures
            r@.map_values(|x: Rule| x@) == self@,
    {
        &self.rules
    }

    /// The number of rules.
    pub fn rule_count(&self) -> (n: usize)
        ensures
            n == self@.len(),
    {
        self.rules.len()
    }

    pub fn mutation_count(&self) -> (n: usize)
        ensures
            n == self.spec_mutation_count(),
    {
        self.mutation_count
    }

    pub fn set_mutation_count(&mut self, new_mutation_count: usize)
        ensures
            final(self).spec_mutation_count() == new_mutation_count,
            final(self)@ == old(self)@,
            final(self).spec_birth_generation_id() == old(self).spec_birth_generation_id(),
    {
        self.mutation_count = new_mutation_count;
    }

    pub fn increment_mutation_count(&mut self)
        requires
            old(self).spec_mutation_count() < usize::MAX,
        ensures
            final(self).spec_mutation_count() == old(self).spec_mutation_count() + 1,
            final(self)@ == old(self)@,
            final(self).spec_birth_generation_id() == old(self).spec_birth_generation_id(),
    {
        self.mutation_count = self.mutation_count + 1;
    }

    /// How many generations the candidate has lived since its birth, or None
    /// while no birth generation is set.
    pub fn age(&mut self, current_generation_id: usize) -> (r: Option<isize>)
        requires
            current_generation_id <= isize::MAX,
            old(self).spec_birth_generation_id() matches Some(b) ==> b <= isize::MAX,
        ensures
            *final(self) == *old(self),
            match old(self).spec_birth_generation_id() {
                Some(b) => r == Some((current_generation_id - b) as isize),
                None => r is None,
            },
    {
        match self.birth_generation_id {
            Some(birth) => Some(current_generation_id as isize - birth as isize),
            None => None,
        }
    }

    pub fn set_birth_generation_id(&mut self, new_birth_generation_id: usize)
        ensures
            final(self).spec_birth_generation_id() == Some(new_birth_generation_id),
            final(self)@ == old(self)@,
            final(self).spec_mutation_count() == old(self).spec_mutation_count(),
    {
        self.birth_generation_id = Some(new_birth_generation_id);
    }

    pub fn birth_generation_id(&self) -> (r: Option<usize>)
        ensures
            r == self.spec_birth_generation_id(),
    {
        self.birth_generation_id
    }

    /// Fitness: how many of the examples the candidate's rules classify
    /// correctly, an example counting as soon as some rule's evaluation,
    /// read as a label, equals the example's label. A rule that cannot be
    /// evaluated against an example fails the whole computation.
    pub fn calculate_fitness(&self, data_set: &DataSet) -> (r: Result<usize, FitnessCalculationError>)
        requires
            self.wf(),
        ensures
            match r {
                Ok(n) => spec_fitness(self@, data_set@.map_values(|d: crate::dataitem::DataItem| d@))
                    == Some(n as int),
                Err(e) => spec_fitness(self@, data_set@.map_values(|d: crate::dataitem::DataItem| d@))
                    is None
                    && e == FitnessCalculationError::RuleEvaluationError(
                        RuleEvaluationError::IndexOutOfRange,
                    ),
            },
    {
        let ghost item_views = data_set@.map_values(|d: crate::dataitem::DataItem| d@);
        let items = data_set.items();
        let mut fitness: usize = 0;
        let mut index: usize = 0;
        while index < items.len()
            invariant
                index <= items@.len(),
                self.wf(),
                items@ == data_set@,
                item_views == data_set@.map_values(|d: crate::dataitem::DataItem| d@),
                item_views.len() == items@.len(),
                fitness <= index,
                spec_fitness(self@, item_views.take(index as int)) == Some(fitness as int),
            decreases items@.len() - index,
        {
            let item = &items[index];
            proof {
                assert(item_views[index as int] == item@);
            }
            match self.classifies(item) {
                Err(e) => {
                    proof {
                        lemma_spec_fitness_error(self@, item_views, index as int);
                    }
                    return Err(e);
                },
                Ok(m) => {
                    proof {
                        assert(item_views.take(index + 1).drop_last() =~= item_views.take(index as int));
                        assert(item_views.take(index + 1).last() == item@);
                    }
                    if m {
                        fitness = fitness + 1;
                    }
                },
            }
            index += 1;
        }
        proof {
            assert(item_views.take(items@.len() as int) =~= item_views);
        }
        Ok(fitness)
    }

    /// Whether the candidate classifies one example correctly: its rules are
    /// walked in order until one of them, read as a label, equals the
    /// example's label.
    pub fn classifies(&self, item: &crate::dataitem::DataItem) -> (r: Result<
        bool,
        FitnessCalculationError,
    >)
        requires
            self.wf(),
        ensures
            match r {
                Ok(b) => scan_rules(self@, item@) == Some(b),
                Err(e) => scan_rules(self@, item@) is None
                    && e == FitnessCalculationError::RuleEvaluationError(
                        RuleEvaluationError::IndexOutOfRange,
                    ),
            },
    {
        proof {
            assert(self@.skip(0) =~= self@);
        }
        let mut j: usize = 0;
        while j < self.rules.len()
            invariant
                j <= self.rules@.len(),
                self.wf(),
                self@.len() == self.rules@.len(),
                scan_rules(self@, item@) == scan_rules(self@.skip(j as int), item@),
            decreases self.rules@.len() - j,
        {
            let rule = &self.rules[j];
            proof {
                assert(self@[j as int] == rule@);
                assert(positions_ascend(self@[j as int]));
                assert(self@.skip(j as int)[0] == rule@);
            }
            let evaluation = match rule.evaluate(item.as_str()) {
                Ok(b) => b,
                Err(_) => {
                    proof {
                        assert(scan_rules(self@.skip(j as int), item@) is None) by {
                            assert(eval_result(rule@, item@.0) is None);
                        }
                    }
                    return Err(FitnessCalculationError::RuleEvaluationError(
                        RuleEvaluationError::IndexOutOfRange,
                    ));
                },
            };
            proof {
                assert(eval_result(rule@, item@.0) == Some(crate::rule::matches(rule@, item@.0)));
                assert(evaluation == crate::rule::matches(rule@, item@.0));
            }
            let out = item.output();
            let label_matches = if out.unicode_len() == 1 {
                let c = out.get_char(0);
                if evaluation {
                    c == '1'
                } else {
                    c == '0'
                }
            } else {
                false
            };
            if label_matches {
                proof {
                    assert(label_of(evaluation) =~= item@.1);
                    assert(scan_rules(self@.skip(j as int), item@) == Some(true));
                }
                return Ok(true);
            }
            proof {
                assert(label_of(evaluation) != item@.1) by {
                    if label_of(evaluation) == item@.1 {
                        assert(item@.1.len() == 1);
                        assert(item@.1[0] == (if evaluation { '1' } else { '0' }));
                    }
                }
                assert(self@.skip(j as int).drop_first() =~= self@.skip(j + 1));
            }
            j += 1;
        }
        proof {
            assert(self@.skip(self.rules@.len() as int) =~= Seq::<Seq<(usize, char)>>::empty());
        }
        Ok(false)
    }

    /// Draw a random candidate: a target rule count uniform in the
    /// configured range, then repeated rule draws, skipping duplicates.
    /// Enough consecutive duplicate draws end generation early, so the
    /// candidate may hold fewer rules than targeted.
    pub fn generate(spec: &crate::ga_spec::GaSpec) -> (r: Candidate)
        requires
            spec.generation_valid(),
        ensures
            r.wf(),
            r@.len() < spec.initial_generation.rules.max,
            spec.initial_generation.rules.min > 0 ==> r@.len() >= 1,
            r.spec_mutation_count() == 0,
            r.spec_birth_generation_id() is None,
    {
        let target = random_in_range(
            spec.initial_generation.rules.min,
            spec.initial_generation.rules.max,
        );
        let cap = spec.initial_generation.rules.rng_fail_retries;
        let mut rules: Vec<Rule> = Vec::new();
        let mut consecutive_fails: usize = 0;
        let mut gave_up = false;
        while rules.len() < target && !gave_up
            invariant
                target >= spec.initial_generation.rules.min,
                target < spec.initial_generation.rules.max,
                spec.generation_valid(),
                rules@.len() <= target,
                gave_up || consecutive_fails < cap || consecutive_fails == 0,
                gave_up ==> rules@.len() >= 1,
                forall|i: int| 0 <= i < rules@.len() ==> (#[trigger] rules@[i]).wf(),
                forall|i: int, j: int| 0 <= i < j < rules@.len()
                    ==> rules@[i]@ != rules@[j]@,
            decreases target - rules@.len(), (if gave_up { 0int } else { cap + 1 - consecutive_fails }),
        {
            let rule = Rule::generate(spec);
            if rule_in(&rules, &rule) {
                // A duplicate draw needs an existing rule to collide with, so
                // giving up never leaves the candidate empty.
                consecutive_fails = consecutive_fails + 1;
                if consecutive_fails >= cap {
                    gave_up = true;
                }
            } else {
                consecutive_fails = 0;
                let ghost pre = rules@;
                rules.push(rule);
                proof {
                    assert forall|i: int, j: int| 0 <= i < j < rules@.len() implies
                        rules@[i]@ != rules@[j]@ by {
                        if j < pre.len() {
                            assert(rules@[i] == pre[i] && rules@[j] == pre[j]);
                        } else {
                            assert(rules@[i] == pre[i]);
                            if pre[i]@ == rules@[j]@ {
                                assert(exists|k: int|
                                    0 <= k < pre.len() && (#[trigger] pre[k])@ == rules@[j]@);
                            }
                        }
                    }
                }
            }
        }
        let r = Candidate { rules, mutation_count: 0, birth_generation_id: None };
        proof {
            assert forall|i: int| 0 <= i < r@.len() implies positions_ascend(#[trigger] r@[i]) by {
                assert(r@[i] == r.rules@[i]@);
                assert(r.rules@[i].wf());
            }
            assert forall|i: int, j: int| 0 <= i < j < r@.len() implies r@[i] != r@[j] by {
                assert(r@[i] == r.rules@[i]@ && r@[j] == r.rules@[j]@);
            }
        }
        r
    }
}

/// Whether some rule of `v` has these constraints.
fn rule_in(v: &Vec<Rule>, x: &Rule) -> (r: bool)
    ensures
        r == exists|k: int| 0 <= k < v@.len() && (#[trigger] v@[k])@ == x@,
{
    let mut k: usize = 0;
    while k < v.len()
        invariant
            k <= v@.len(),
            forall|m: int| 0 <= m < k ==> (#[trigger] v@[m])@ != x@,
        decreases v@.len() - k,
    {
        if &v[k] == x {
            proof {
                assert(v@[k as int]@ == x@);
            }
            return true;
        }
        k += 1;
    }
    proof {
        if exists|k2: int| 0 <= k2 < v@.len() && (#[trigger] v@[k2])@ == x@ {
            let k2 = choose|k2: int| 0 <= k2 < v@.len() && (#[trigger] v@[k2])@ == x@;
            assert(v@[k2]@ != x@);
        }
    }
    false
}

/// Once one example fails to evaluate, the whole fitness computation has no
/// value, whatever the other examples yield.
proof fn lemma_spec_fitness_error(
    rules: Seq<Seq<(usize, char)>>,
    items: Seq<(Seq<char>, Seq<char>)>,
    bad: int,
)
    requires
        0 <= bad < items.len(),
        scan_rules(rules, items[bad]) is None,
    ensures
        spec_fitness(rules, items) is None,
    decreases items.len(),
{
    if items.len() > 0 {
        if bad == items.len() - 1 {
            assert(items.last() == items[bad]);
        } else {
            assert(items.drop_last()[bad] == items[bad]);
            lemma_spec_fitness_error(rules, items.drop_last(), bad);
        }
    }
}

/// A candidate's fitness never exceeds the number of examples, and reaches
/// it exactly when every example is classified correctly by some rule.
pub proof fn lemma_fitness_bounds(rules: Seq<Seq<(usize, char)>>, items: Seq<(Seq<char>, Seq<char>)>)
    ensures
        spec_fitness(rules, items) matches Some(n) ==> 0 <= n <= items.len(),
        spec_fitness(rules, items) matches Some(n) ==> (n == items.len()
            <==> forall|i: int| 0 <= i < items.len()
                ==> scan_rules(rules, #[trigger] items[i]) == Some(true)),
    decreases items.len(),
{
    if items.len() > 0 {
        lemma_fitness_bounds(rules, items.drop_last());
        if spec_fitness(rules, items) is Some {
            let n = spec_fitness(rules, items).unwrap();
            let prev = spec_fitness(rules, items.drop_last()).unwrap();
            assert forall|i: int| 0 <= i < items.drop_last().len() implies
                items.drop_last()[i] == items[i] by {}
            if n == items.len() {
                assert(prev == items.drop_last().len());
                assert(scan_rules(rules, items.last()) == Some(true));
                assert forall|i: int| 0 <= i < items.len() implies
                    scan_rules(rules, #[trigger] items[i]) == Some(true) by {
                    if i < items.len() - 1 {
                        assert(scan_rules(rules, items.drop_last()[i]) == Some(true));
                    } else {
                        assert(items[i] == items.last());
                    }
                }
            }
            if forall|i: int| 0 <= i < items.len()
                ==> scan_rules(rules, #[trigger] items[i]) == Some(true) {
                assert forall|i: int| 0 <= i < items.drop_last().len() implies
                    scan_rules(rules, #[trigger] items.drop_last()[i]) == Some(true) by {
                    assert(items.drop_last()[i] == items[i]);
                }
                assert(prev == items.drop_last().len());
                assert(scan_rules(rules, items[items.len() - 1]) == Some(true));
                assert(items.last() == items[items.len() - 1]);
            }
        }
    }
}

impl PartialEq for Candidate {
    /// Candidates are equal exactly when their rule sets are, whatever their
    /// bookkeeping fields hold.
    fn eq(&self, other: &Candidate) -> (r: bool) {
        let mut i: usize = 0;
        while i < self.rules.len()
            invariant
                i <= self.rules@.len(),
                self@.len() == self.rules@.len(),
                forall|k: int| 0 <= k < i ==> other@.contains(#[trigger] self@[k]),
            decreases self.rules@.len() - i,
        {
            let mut j: usize = 0;
            let mut found = false;
            while j < other.rules.len()
                invariant
                    j <= other.rules@.len(),
                    i < self.rules@.len(),
                    self@.len() == self.rules@.len(),
                    other@.len() == other.rules@.len(),
                    found <==> exists|k: int| 0 <= k < j && other@[k] == self@[i as int],
                decreases other.rules@.len() - j,
            {
                if self.rules[i] == other.rules[j] {
                    found = true;
                    proof {
                        assert(other@[j as int] == self@[i as int]);
                    }
                }
                j += 1;
            }
            if !found {
                proof {
                    assert(self@.contains(self@[i as int]));
                    assert(!other@.contains(self@[i as int]));
                    assert(self.rule_set().contains(self@[i as int]));
                    assert(!other.rule_set().contains(self@[i as int]));
                }
                return false;
            }
            i += 1;
        }
        let mut i2: usize = 0;
        while i2 < other.rules.len()
            invariant
                i2 <= other.rules@.len(),
                self@.len() == self.rules@.len(),
                other@.len() == other.rules@.len(),
                forall|k: int| 0 <= k < self@.len() ==> other@.contains(#[trigger] self@[k]),
                forall|k: int| 0 <= k < i2 ==> self@.contains(#[trigger] other@[k]),
            decreases other.rules@.len() - i2,
        {
            let mut j2: usize = 0;
            let mut found2 = false;
            while j2 < self.rules.len()
                invariant
                    j2 <= self.rules@.len(),
                    i2 < other.rules@.len(),
                    self@.len() == self.rules@.len(),
                    other@.len() == other.rules@.len(),
                    found2 <==> exists|k: int| 0 <= k < j2 && self@[k] == other@[i2 as int],
                decreases self.rules@.len() - j2,
            {
                if other.rules[i2] == self.rules[j2] {
                    found2 = true;
                    proof {
                        assert(self@[j2 as int] == other@[i2 as int]);
                    }
                }
                j2 += 1;
            }
            if !found2 {
                proof {
                    assert(other@.contains(other@[i2 as int]));
                    assert(!self@.contains(other@[i2 as int]));
                    assert(other.rule_set().contains(other@[i2 as int]));
                    assert(!self.rule_set().contains(other@[i2 as int]));
                }
                return false;
            }
            i2 += 1;
        }
        proof {
            assert forall|x: Seq<(usize, char)>| self.rule_set().contains(x) implies
                other.rule_set().contains(x) by {
                let k = choose|k: int| 0 <= k < self@.len() && self@[k] == x;
                assert(other@.contains(self@[k]));
            }
            assert forall|x: Seq<(usize, char)>| other.rule_set().contains(x) implies
                self.rule_set().contains(x) by {
                let k = choose|k: int| 0 <= k < other@.len() && other@[k] == x;
                assert(self@.contains(other@[k]));
            }
            assert(self.rule_set() =~= other.rule_set());
        }
        true
    }
}

impl vstd::std_specs::cmp::PartialEqSpecImpl for Candidate {
    open spec fn obeys_eq_spec() -> bool {
        true
    }

    open spec fn eq_spec(&self, other: &Candidate) -> bool {
        self.rule_set() == other.rule_set()
    }
}

impl Eq for Candidate {}

impl Clone for Candidate {
    fn clone(&self) -> (res: Candidate)
        ensures
            res@ == self@,
            res.spec_mutation_count() == self.spec_mutation_count(),
            res.spec_birth_generation_id() == self.spec_birth_generation_id(),
    {
        let mut rules: Vec<Rule> = Vec::new();
        let mut i: usize = 0;
        while i < self.rules.len()
            invariant
                i <= self.rules@.len(),
                self@.len() == self.rules@.len(),
                rules@.len() == i,
                forall|m: int| 0 <= m < i ==> (#[trigger] rules@[m])@ == self@[m],
            decreases self.rules@.len() - i,
        {
            rules.push(self.rules[i].clone());
            proof {
                assert(rules@[i as int]@ == self.rules@[i as int]@);
                assert(self@[i as int] == self.rules@[i as int]@);
            }
            i += 1;
        }
        proof {
            assert forall|m: int| 0 <= m < self@.len() implies
                rules@.map_values(|x: Rule| x@)[m] == self@[m] by {
                assert(rules@[m]@ == self@[m]);
            }
            assert(rules@.map_values(|x: Rule| x@) =~= self@);
        }
        Candidate {
            rules,
            mutation_count: self.mutation_count,
            birth_generation_id: self.birth_generation_id,
        }
    }
}

impl PartialEq for CandidateFitness {
    /// Equal when the candidates' rule sets and the fitness values are.
    fn eq(&self, other: &CandidateFitness) -> (r: bool) {
        self.candidate == other.candidate && self.fitness == other.fitness
    }
}

impl vstd::std_specs::cmp::PartialEqSpecImpl for CandidateFitness {
    open spec fn obeys_eq_spec() -> bool {
        true
    }

    open spec fn eq_spec(&self, other: &CandidateFitness) -> bool {
        self.candidate.rule_set() == other.candidate.rule_set() && self.fitness == other.fitness
    }
}

impl Eq for CandidateFitness {}

impl Clone for CandidateFitness {
    fn clone(&self) -> (res: CandidateFitness)
        ensures
            res.candidate@ == self.candidate@,
            res.candidate.spec_mutation_count() == self.candidate.spec_mutation_count(),
            res.candidate.spec_birth_generation_id() == self.candidate.spec_birth_generation_id(),
            res.fitness == self.fitness,
    {
        CandidateFitness { candidate: self.candidate.clone(), fitness: self.fitness }
    }
}

} // verus!
