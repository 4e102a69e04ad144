use vstd::prelude::*;
use crate::rng::random_in_range;

verus! {

/// Why a rule cannot be evaluated against an example string.
#[derive(Debug, Clone, Copy, PartialEq, Eq, Structural)]
pub enum RuleEvaluationError {
    /// The rule constrains a position at or beyond the example's width.
    IndexOutOfRange,
}

/// The positions of the pairs strictly ascend, so every position occurs at
/// most once and the representation of a constraint set is canonical.
pub open spec fn positions_ascend(s: Seq<(usize, char)>) -> bool {
    forall|i: int, j: int| 0 <= i < j < s.len() ==> s[i].0 < s[j].0
}

/// The pair (position, symbol) is one of the constraints in `s`.
pub open spec fn constrains(s: Seq<(usize, char)>, position: usize, symbol: char) -> bool {
    exists|i: int| 0 <= i < s.len() && s[i] == (position, symbol)
}

/// Some constraint in `s` is placed at `position`.
pub open spec fn constrains_position(s: Seq<(usize, char)>, position: usize) -> bool {
    exists|i: int| 0 <= i < s.len() && s[i].0 == position
}

/// Every constrained position lies below `width`.
pub open spec fn in_range(s: Seq<(usize, char)>, width: nat) -> bool {
    forall|i: int| 0 <= i < s.len() ==> s[i].0 < width
}

/// Every constraint of `s` agrees with the example string `input`.
pub open spec fn matches(s: Seq<(usize, char)>, input: Seq<char>) -> bool {
    forall|i: int| 0 <= i < s.len() ==> s[i].0 < input.len() && input[s[i].0 as int] == s[i].1
}

/// The canonical string form of a constraint sequence: symbols in position
/// order, gaps filled with a placeholder, ending at the highest constrained
/// position.
pub open spec fn canonical_form(s: Seq<(usize, char)>) -> Seq<char>
    decreases s.len(),
{
    if s.len() == 0 {
        Seq::empty()
    } else {
        let prefix = canonical_form(s.drop_last());
        let pad: int = if s.last().0 >= prefix.len() {
            s.last().0 - prefix.len()
        } else {
            0
        };
        prefix + Seq::new(pad as nat, |i: int| '_') + seq![s.last().1]
    }
}

/// A rule is a sparse partial pattern over a fixed-width symbol string: a set
/// of (position, required symbol) constraints. Positions without a constraint
/// are "don't care". A rule with no constraints matches every example.
#[derive(Debug, Hash)]
pub struct Rule {
    constraints: Vec<(usize, char)>,
}

impl View for Rule {
    type V = Seq<(usize, char)>;

    closed spec fn view(&self) -> Seq<(usize, char)> {
        self.constraints@
    }
}

impl Rule {
    /// Well-formed: the constraints are kept sorted by strictly ascending
    /// position, which makes the representation canonical: two rules hold the
    /// same constraints exactly when their views are equal.
    pub open spec fn wf(self) -> bool {
        positions_ascend(self@)
    }

    /// A rule with no constraints.
    pub fn new() -> (r: Rule)
        ensures
            r.wf(),
            r@ == Seq::<(usize, char)>::empty(),
    {
        Rule { constraints: Vec::new() }
    }

    /// The number of constraints.
    pub fn len(&self) -> (n: usize)
        ensures
            n == self@.len(),
    {
        self.constraints.len()
    }

    /// The constraints, sorted by ascending position.
    pub fn constraints(&self) -> (r: &Vec<(usize, char)>)
        ensures
            r@ == self@,
    {
        &self.constraints
    }

    /// The symbol required at `position`, if that position is constrained.
    pub fn get_constraint(&self, position: usize) -> (r: Option<char>)
        ensures
            match r {
                Some(c) => constrains(self@, position, c),
                None => !constrains_position(self@, position),
            },
    {
        let mut i: usize = 0;
        while i < self.constraints.len()
            invariant
                i <= self.constraints.len(),
                forall|j: int| 0 <= j < i ==> self.constraints@[j].0 != position,
            decreases self.constraints.len() - i,
        {
            if self.constraints[i].0 == position {
                return Some(self.constraints[i].1);
            }
            i += 1;
        }
        None
    }

    /// Whether `position` carries a constraint.
    pub fn has_constraint(&self, position: usize) -> (r: bool)
        ensures
            r == constrains_position(self@, position),
    {
        let mut i: usize = 0;
        while i < self.constraints.len()
            invariant
                i <= self.constraints.len(),
                forall|j: int| 0 <= j < i ==> self.constraints@[j].0 != position,
            decreases self.constraints.len() - i,
        {
            if self.constraints[i].0 == position {
                return true;
            }
            i += 1;
        }
        false
    }

    /// Require `symbol` at `position`, replacing any constraint already there.
    pub fn set_constraint(&mut self, position: usize, symbol: char)
        requires
            old(self).wf(),
        ensures
            final(self).wf(),
            forall|q: usize, c: char|
                constrains(final(self)@, q, c)
                    <==> if q == position { c == symbol } else { constrains(old(self)@, q, c) },
            final(self)@.len() == old(self)@.len()
                + if constrains_position(old(self)@, position) { 0int } else { 1int },
    {
        let ghost s0 = old(self)@;
        let mut i: usize = 0;
        while i < self.constraints.len() && self.constraints[i].0 < position
            invariant
                i <= self.constraints.len(),
                self.constraints@ == s0,
                positions_ascend(s0),
                forall|j: int| 0 <= j < i ==> s0[j].0 < position,
            decreases self.constraints.len() - i,
        {
            i += 1;
        }
        // Now every pair before `i` has a smaller position, and the pair at
        // `i`, if any, has a position at least as large.
        if i < self.constraints.len() && self.constraints[i].0 == position {
            let ghost smid = s0.remove(i as int);
            self.constraints.remove(i);
            self.constraints.insert(i, (position, symbol));
            proof {
                let s1 = self.constraints@;
                assert(s1 =~= s0.update(i as int, (position, symbol))) by {
                    assert forall|m: int| 0 <= m < s1.len() implies
                        s1[m] == s0.update(i as int, (position, symbol))[m] by {
                        if m < i {
                            assert(s1[m] == smid[m]);
                            assert(smid[m] == s0[m]);
                        } else if m == i {
                            assert(s1[m] == (position, symbol));
                        } else {
                            assert(s1[m] == smid[m - 1]);
                            assert(smid[m - 1] == s0[m]);
                        }
                    }
                }
                let s1u = s0.update(i as int, (position, symbol));
                assert(s1 == s1u);
                assert forall|q: usize, c: char| constrains(s1, q, c)
                    <==> if q == position { c == symbol } else { constrains(s0, q, c) }
                by {
                    if q == position {
                        if constrains(s1, q, c) {
                            let k = choose|k: int| 0 <= k < s1.len() && s1[k] == (q, c);
                            if k != i {
                                assert(s0[k] == (q, c));
                                if k < i {
                                    assert(s0[k].0 < s0[i as int].0);
                                } else {
                                    assert(s0[i as int].0 < s0[k].0);
                                }
                                assert(false);
                            }
                        }
                        if c == symbol {
                            assert(s1[i as int] == (position, symbol));
                        }
                    } else {
                        if constrains(s1, q, c) {
                            let k = choose|k: int| 0 <= k < s1.len() && s1[k] == (q, c);
                            assert(k != i);
                            assert(s0[k] == (q, c));
                        }
                        if constrains(s0, q, c) {
                            let k = choose|k: int| 0 <= k < s0.len() && s0[k] == (q, c);
                            assert(k != i);
                            assert(s1[k] == (q, c));
                        }
                    }
                }
                assert(constrains_position(s0, position)) by {
                    assert(s0[i as int].0 == position);
                }
                assert forall|a: int, b: int| 0 <= a < b < s1.len() implies s1[a].0 < s1[b].0 by {
                    assert(s0[a].0 < s0[b].0);
                    if a == i {
                        assert(s1[a].0 == s0[a].0);
                    }
                }
            }
            return;
        }
        proof {
            assert(!constrains_position(s0, position)) by {
                if constrains_position(s0, position) {
                    let k = choose|k: int| 0 <= k < s0.len() && s0[k].0 == position;
                    if k < i {
                        assert(s0[k].0 < position);
                    } else if i < s0.len() {
                        if k > i {
                            assert(s0[i as int].0 < s0[k].0);
                        }
                    }
                    assert(false);
                }
            }
        }
        self.constraints.insert(i, (position, symbol));
        proof {
            let s1 = self.constraints@;
            assert forall|a: int, b: int| 0 <= a < b < s1.len() implies s1[a].0 < s1[b].0 by {
                if b < i {
                    assert(s0[a].0 < s0[b].0);
                } else if a > i {
                    assert(s0[a - 1].0 < s0[b - 1].0);
                } else if a < i && b > i {
                    assert(s0[a].0 < s0[b - 1].0);
                } else if b == i {
                    assert(s1[a] == s0[a]);
                    assert(s0[a].0 < position);
                } else if a == i {
                    assert(s1[b] == s0[b - 1]);
                    assert(i < s0.len() ==> position < s0[i as int].0);
                    assert(b - 1 >= i);
                    assert(i < s0.len());
                    if b - 1 > i {
                        assert(s0[i as int].0 < s0[b - 1].0);
                    }
                }
            }
            assert forall|q: usize, c: char| constrains(s1, q, c)
                <==> if q == position { c == symbol } else { constrains(s0, q, c) }
            by {
                if constrains(s1, q, c) {
                    let k = choose|k: int| 0 <= k < s1.len() && s1[k] == (q, c);
                    if k < i {
                        assert(s0[k] == (q, c));
                        assert(s0[k].0 < position);
                    } else if k > i {
                        assert(s0[k - 1] == (q, c));
                    }
                }
                if q == position && c == symbol {
                    assert(s1[i as int] == (position, symbol));
                }
                if q != position && constrains(s0, q, c) {
                    let k = choose|k: int| 0 <= k < s0.len() && s0[k] == (q, c);
                    if k < i {
                        assert(s1[k] == (q, c));
                    } else {
                        assert(s1[k + 1] == (q, c));
                    }
                }
            }
        }
    }

    /// Drop the constraint at `position`, returning the symbol it held.
    pub fn remove_constraint(&mut self, position: usize) -> (r: Option<char>)
        requires
            old(self).wf(),
        ensures
            final(self).wf(),
            forall|q: usize, c: char|
                constrains(final(self)@, q, c)
                    <==> q != position && constrains(old(self)@, q, c),
            r matches Some(c) ==> constrains(old(self)@, position, c)
                && final(self)@.len() + 1 == old(self)@.len(),
            r is None ==> !constrains_position(old(self)@, position)
                && final(self)@ == old(self)@,
    {
        let ghost s0 = old(self)@;
        let mut i: usize = 0;
        while i < self.constraints.len() && self.constraints[i].0 < position
            invariant
                i <= self.constraints.len(),
                self.constraints@ == s0,
                positions_ascend(s0),
                forall|j: int| 0 <= j < i ==> s0[j].0 < position,
            decreases self.constraints.len() - i,
        {
            i += 1;
        }
        if i < self.constraints.len() && self.constraints[i].0 == position {
            let pair = self.constraints.remove(i);
            proof {
                let s1 = self.constraints@;
                assert(s1.len() == s0.len() - 1);
                assert forall|m: int| 0 <= m < s1.len() implies
                    s1[m] == (if m < i { s0[m] } else { s0[m + 1] }) by {
                    assert(s1 == s0.remove(i as int));
                }
                assert forall|a: int, b: int| 0 <= a < b < s1.len() implies s1[a].0 < s1[b].0 by {
                    if b < i {
                        assert(s0[a].0 < s0[b].0);
                    } else if a >= i {
                        assert(s0[a + 1].0 < s0[b + 1].0);
                    } else {
                        assert(s0[a].0 < s0[b + 1].0);
                    }
                }
                assert forall|q: usize, c: char| constrains(s1, q, c)
                    <==> q != position && constrains(s0, q, c)
                by {
                    if constrains(s1, q, c) {
                        let k = choose|k: int| 0 <= k < s1.len() && s1[k] == (q, c);
                        if k < i {
                            assert(s0[k] == (q, c));
                            assert(s0[k].0 < position);
                        } else {
                            assert(s0[k + 1] == (q, c));
                            assert(s0[i as int].0 < s0[k + 1].0);
                        }
                    }
                    if q != position && constrains(s0, q, c) {
                        let k = choose|k: int| 0 <= k < s0.len() && s0[k] == (q, c);
                        assert(k != i);
                        if k < i {
                            assert(s1[k] == (q, c));
                        } else {
                            assert(s1[k - 1] == (q, c));
                        }
                    }
                }
                assert(constrains(s0, position, pair.1)) by {
                    assert(s0[i as int] == (position, pair.1));
                }
            }
            Some(pair.1)
        } else {
            proof {
                assert(!constrains_position(s0, position)) by {
                    if constrains_position(s0, position) {
                        let k = choose|k: int| 0 <= k < s0.len() && s0[k].0 == position;
                        if k < i {
                            assert(s0[k].0 < position);
                        } else if i < s0.len() && k > i {
                            assert(s0[i as int].0 < s0[k].0);
                        }
                        assert(false);
                    }
                }
                assert forall|q: usize, c: char|
                    constrains(s0, q, c) <==> q != position && constrains(s0, q, c) by {
                    if constrains(s0, q, c) && q == position {
                        let k = choose|k: int| 0 <= k < s0.len() && s0[k] == (q, c);
                        assert(constrains_position(s0, position)) by {
                            assert(s0[k].0 == position);
                        }
                    }
                }
            }
            None
        }
    }

    /// Evaluate the rule against an example string: `Ok(true)` when every
    /// constraint agrees with the string, `Ok(false)` when some in-range
    /// constraint disagrees, and `Err(IndexOutOfRange)` when any constrained
    /// position lies at or beyond the string's width.
    pub fn evaluate(&self, input: &str) -> (r: Result<bool, RuleEvaluationError>)
        requires
            self.wf(),
        ensures
            r is Err <==> !in_range(self@, input@.len()),
            r matches Ok(b) ==> b == matches(self@, input@),
    {
        let n = input.unicode_len();
        let k = self.constraints.len();
        if k > 0 {
            let last = self.constraints[k - 1];
            if last.0 >= n {
                proof {
                    assert(!in_range(self@, input@.len())) by {
                        assert(self@[k - 1].0 >= input@.len());
                    }
                }
                return Err(RuleEvaluationError::IndexOutOfRange);
            }
        }
        proof {
            assert(in_range(self@, input@.len())) by {
                assert forall|i: int| 0 <= i < self@.len() implies self@[i].0 < input@.len() by {
                    if i < k - 1 {
                        assert(self@[i].0 < self@[k - 1].0);
                    }
                }
            }
        }
        let mut i: usize = 0;
        while i < k
            invariant
                i <= k,
                k == self@.len(),
                self.wf(),
                n == input@.len(),
                in_range(self@, input@.len()),
                forall|j: int| 0 <= j < i ==> input@[self@[j].0 as int] == self@[j].1,
            decreases k - i,
        {
            let pair = self.constraints[i];
            if input.get_char(pair.0) != pair.1 {
                proof {
                    assert(!matches(self@, input@)) by {
                        assert(input@[self@[i as int].0 as int] != self@[i as int].1);
                    }
                }
                return Ok(false);
            }
            i += 1;
        }
        Ok(true)
    }


    /// The canonical string form: symbols in ascending position order, gaps
    /// before a constrained position filled with an underscore, the string
    /// ending at the highest constrained position. Equality and hashing of
    /// rules agree with equality of this form.
    pub fn to_string(&self) -> (r: String)
        requires
            self.wf(),
            self@.len() > 0 ==> self@.last().0 < usize::MAX,
        ensures
            r@ == canonical_form(self@),
            r@.len() == (if self@.len() == 0 { 0int } else { self@.last().0 + 1 }),
    {
        let mut output = String::new();
        let mut cur: usize = 0;
        let mut i: usize = 0;
        proof {
            assert(canonical_form(self@.take(0)) =~= Seq::<char>::empty());
        }
        while i < self.constraints.len()
            invariant
                i <= self.constraints@.len(),
                self.wf(),
                self@.len() > 0 ==> self@.last().0 < usize::MAX,
                output@ == canonical_form(self@.take(i as int)),
                cur == output@.len(),
                cur == (if i == 0 { 0int } else { self@[i - 1].0 + 1 }),
            decreases self.constraints@.len() - i,
        {
            let pair = self.constraints[i];
            let p = pair.0;
            proof {
                assert(self@[i as int] == pair);
                if i > 0 {
                    assert(self@[i - 1].0 < self@[i as int].0);
                }
                assert(cur <= p);
                assert(p < usize::MAX) by {
                    if i + 1 < self.constraints@.len() {
                        assert(self@[i as int].0 < self@[self@.len() - 1].0);
                    } else {
                        assert(self@[i as int] == self@.last());
                    }
                }
            }
            let ghost prefix = output@;
            while cur < p
                invariant
                    cur <= p,
                    cur == output@.len(),
                    prefix.len() <= cur,
                    output@ == prefix + Seq::new((cur - prefix.len()) as nat, |m: int| '_'),
                decreases p - cur,
            {
                crate::util::push_char(&mut output, '_');
                proof {
                    assert(output@ =~= prefix + Seq::new((cur + 1 - prefix.len()) as nat, |m: int| '_'));
                }
                cur += 1;
            }
            crate::util::push_char(&mut output, pair.1);
            cur += 1;
            proof {
                assert(self@.take(i + 1).drop_last() =~= self@.take(i as int));
                assert(self@.take(i + 1).last() == self@[i as int]);
                assert(output@ =~= canonical_form(self@.take(i + 1)));
            }
            i += 1;
        }
        proof {
            assert(self@.take(self.constraints@.len() as int) =~= self@);
        }
        output
    }

    /// Draw a random rule: a target constraint count uniform in the
    /// configured range, then repeated draws of a position and an alphabet
    /// symbol, skipping positions already constrained. Enough consecutive
    /// position collisions end generation early, so the rule may hold fewer
    /// constraints than targeted.
    pub fn generate(spec: &crate::ga_spec::GaSpec) -> (r: Rule)
        requires
            spec.generation_valid(),
        ensures
            r.wf(),
            forall|q: usize, c: char|
                constrains(r@, q, c) ==> q < spec.calculated.max_index
                    && spec.calculated.alphabet@.contains(c),
            r@.len() < spec.initial_generation.constraints.max,
            spec.initial_generation.constraints.min > 0 ==> r@.len() >= 1,
    {
        let target = random_in_range(
            spec.initial_generation.constraints.min,
            spec.initial_generation.constraints.max,
        );
        let cap = spec.initial_generation.constraints.rng_fail_retries;
        let mut rule = Rule::new();
        let mut consecutive_fails: usize = 0;
        let mut gave_up = false;
        while rule.len() < target && !gave_up
            invariant
                rule.wf(),
                target >= spec.initial_generation.constraints.min,
                target < spec.initial_generation.constraints.max,
                spec.generation_valid(),
                rule@.len() <= target,
                gave_up || consecutive_fails < cap || consecutive_fails == 0,
                gave_up ==> rule@.len() >= 1,
                forall|q: usize, c: char|
                    constrains(rule@, q, c) ==> q < spec.calculated.max_index
                        && spec.calculated.alphabet@.contains(c),
            decreases target - rule@.len(), (if gave_up { 0int } else { cap + 1 - consecutive_fails }),
        {
            let index = random_in_range(0, spec.calculated.max_index);
            if rule.has_constraint(index) {
                // A collision can only happen on a rule that already holds a
                // constraint, so giving up never leaves the rule empty.
                consecutive_fails = consecutive_fails + 1;
                if consecutive_fails >= cap {
                    gave_up = true;
                }
            } else {
                consecutive_fails = 0;
                let character_index = random_in_range(0, spec.calculated.alphabet.len());
                let symbol = spec.calculated.alphabet[character_index];
                proof {
                    assert(spec.calculated.alphabet@.contains(symbol)) by {
                        assert(spec.calculated.alphabet@[character_index as int] == symbol);
                    }
                }
                rule.set_constraint(index, symbol);
            }
        }
        rule
    }
}

impl PartialEq for Rule {
    /// Rules are equal exactly when their canonical constraint sequences are.
    fn eq(&self, other: &Rule) -> (r: bool) {
        if self.constraints.len() != other.constraints.len() {
            return false;
        }
        let mut i: usize = 0;
        while i < self.constraints.len()
            invariant
                i <= self.constraints.len(),
                self.constraints.len() == other.constraints.len(),
                forall|j: int| 0 <= j < i ==> self.constraints@[j] == other.constraints@[j],
            decreases self.constraints.len() - i,
        {
            if self.constraints[i].0 != other.constraints[i].0
                || self.constraints[i].1 != other.constraints[i].1 {
                return false;
            }
            i += 1;
        }
        proof {
            assert(self@ =~= other@);
        }
        true
    }
}

impl vstd::std_specs::cmp::PartialEqSpecImpl for Rule {
    open spec fn obeys_eq_spec() -> bool {
        true
    }

    open spec fn eq_spec(&self, other: &Rule) -> bool {
        self@ == other@
    }
}

impl Eq for Rule {}

impl Clone for Rule {
    fn clone(&self) -> (res: Rule)
        ensures
            res@ == self@,
    {
        let mut pairs: Vec<(usize, char)> = Vec::new();
        let mut i: usize = 0;
        while i < self.constraints.len()
            invariant
                i <= self.constraints.len(),
                pairs@ == self.constraints@.take(i as int),
            decreases self.constraints.len() - i,
        {
            pairs.push(self.constraints[i]);
            proof {
                assert(pairs@ =~= self.constraints@.take(i + 1));
            }
            i += 1;
        }
        proof {
            assert(pairs@ =~= self.constraints@);
        }
        Rule { constraints: pairs }
    }
}

/// Flipping the example symbol at any constrained position of a matching rule
/// makes the rule evaluate to false: each constraint is necessary.
pub proof fn lemma_flipped_symbol_fails(s: Seq<(usize, char)>, e1: Seq<char>, e2: Seq<char>, p: usize)
    requires
        matches(s, e1),
        constrains_position(s, p),
        e2.len() == e1.len(),
        e2[p as int] != e1[p as int],
    ensures
        !matches(s, e2),
{
    let i = choose|i: int| 0 <= i < s.len() && s[i].0 == p;
    assert(e1[s[i].0 as int] == s[i].1);
    assert(e2[s[i].0 as int] != s[i].1);
}

/// Two well-formed rules holding the same (position, symbol) pairs have equal
/// canonical sequences, however those pairs were inserted: equality, hashing
/// and set membership of rules do not depend on insertion order.
pub proof fn lemma_same_constraints_equal(r1: Seq<(usize, char)>, r2: Seq<(usize, char)>)
    requires
        positions_ascend(r1),
        positions_ascend(r2),
        forall|p: usize, c: char| constrains(r1, p, c) <==> constrains(r2, p, c),
    ensures
        r1 == r2,
    decreases r1.len(),
{
    if r1.len() == 0 {
        if r2.len() > 0 {
            let (p, c) = r2[r2.len() - 1];
            assert(constrains(r2, p, c)) by {
                assert(r2[r2.len() - 1] == (p, c));
            }
            assert(false);
        }
        assert(r1 =~= r2);
    } else {
        let n1 = r1.len() - 1;
        let (p, c) = r1[n1];
        assert(constrains(r1, p, c)) by {
            assert(r1[n1] == (p, c));
        }
        assert(r2.len() > 0) by {
            if r2.len() == 0 {
                assert(!constrains(r2, p, c));
            }
        }
        let n2 = r2.len() - 1;
        // The last pair of each sequence carries its greatest position, so the
        // two last pairs coincide.
        let j = choose|j: int| 0 <= j < r2.len() && r2[j] == (p, c);
        assert(r2[n2].0 >= p) by {
            if j < n2 {
                assert(r2[j].0 < r2[n2].0);
            }
        }
        let (q, d) = r2[n2];
        assert(constrains(r2, q, d)) by {
            assert(r2[n2] == (q, d));
        }
        let j1 = choose|j1: int| 0 <= j1 < r1.len() && r1[j1] == (q, d);
        assert(r1[n1].0 >= q) by {
            if j1 < n1 {
                assert(r1[j1].0 < r1[n1].0);
            }
        }
        assert(p == q);
        assert(j == n2) by {
            if j < n2 {
                assert(r2[j].0 < r2[n2].0);
            }
        }
        assert(r1[n1] == r2[n2]);
        let s1 = r1.drop_last();
        let s2 = r2.drop_last();
        assert(positions_ascend(s1)) by {
            assert forall|a: int, b: int| 0 <= a < b < s1.len() implies s1[a].0 < s1[b].0 by {
                assert(r1[a].0 < r1[b].0);
            }
        }
        assert(positions_ascend(s2)) by {
            assert forall|a: int, b: int| 0 <= a < b < s2.len() implies s2[a].0 < s2[b].0 by {
                assert(r2[a].0 < r2[b].0);
            }
        }
        assert forall|p0: usize, c0: char| constrains(s1, p0, c0) <==> constrains(s2, p0, c0) by {
            if constrains(s1, p0, c0) {
                let k = choose|k: int| 0 <= k < s1.len() && s1[k] == (p0, c0);
                assert(r1[k] == (p0, c0));
                assert(constrains(r1, p0, c0));
                assert(r1[k].0 < r1[n1].0);
                let k2 = choose|k2: int| 0 <= k2 < r2.len() && r2[k2] == (p0, c0);
                assert(k2 != n2) by {
                    assert(r2[n2].0 == p);
                }
                assert(s2[k2] == (p0, c0));
            }
            if constrains(s2, p0, c0) {
                let k = choose|k: int| 0 <= k < s2.len() && s2[k] == (p0, c0);
                assert(r2[k] == (p0, c0));
                assert(constrains(r2, p0, c0));
                assert(r2[k].0 < r2[n2].0);
                let k1 = choose|k1: int| 0 <= k1 < r1.len() && r1[k1] == (p0, c0);
                assert(k1 != n1) by {
                    assert(r1[n1].0 == p);
                }
                assert(s1[k1] == (p0, c0));
            }
        }
        lemma_same_constraints_equal(s1, s2);
        assert(r1 =~= r2) by {
            assert forall|k: int| 0 <= k < r1.len() implies r1[k] == r2[k] by {
                if k < n1 {
                    assert(s1[k] == s2[k]);
                }
            }
        }
    }
}

} // verus!
