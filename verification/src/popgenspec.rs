use vstd::prelude::*;

verus! {

/// A flattened view of the generation parameters, kept for callers that
/// configure population generation directly rather than through the run
/// configuration.
#[derive(Debug, Clone)]
pub struct PopGenSpec {
    pub(crate) max_candidates: usize,
    pub(crate) min_candidates: usize,
    pub(crate) max_candidate_generation_consecutive_fail: usize,
    pub(crate) max_rules: usize,
    pub(crate) min_rules: usize,
    pub(crate) max_rule_generation_consecutive_fail: usize,
    pub(crate) max_index: usize,
    pub(crate) max_rule_constraints: usize,
    pub(crate) min_rule_constraints: usize,
    pub(crate) max_rule_constraint_generation_consecutive_fail: usize,
    pub(crate) alphabet: Vec<char>,
}

} // verus!
