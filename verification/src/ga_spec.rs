use vstd::prelude::*;
use crate::crossover::CrossoverStrategy;
use crate::mutation::MutationStrategy;
use crate::selection::SelectionStrategy;

verus! {

/// Why a generation range of the run configuration is invalid.
#[derive(Debug, Clone, Copy, PartialEq, Eq, Structural)]
pub enum InitialGenerationComponentSpecParseError {
    /// The upper bound does not exceed the lower one.
    MaxIsLessThanMin,
    /// Both bounds are zero.
    MaxAndMinAreZero,
}

/// One generation range: item counts are drawn uniformly in `[min, max)`,
/// with a consecutive-failure budget for duplicate collisions.
#[derive(Debug, Clone, Copy)]
pub struct InitialGenerationComponentSpec {
    pub min: usize,
    pub max: usize,
    pub rng_fail_retries: usize,
}

/// A well-formed range: something can be drawn from `[min, max)`.
pub open spec fn range_valid(c: InitialGenerationComponentSpec) -> bool {
    c.min < c.max
}

impl InitialGenerationComponentSpec {
    /// Validate a range read from the configuration: it must satisfy
    /// `min < max`.
    pub fn new(min: usize, max: usize, rng_fail_retries: usize) -> (r: Result<
        InitialGenerationComponentSpec,
        InitialGenerationComponentSpecParseError,
    >)
        ensures
            r is Ok <==> min < max,
            r matches Ok(c) ==> c.min == min && c.max == max
                && c.rng_fail_retries == rng_fail_retries,
            r == Err::<InitialGenerationComponentSpec, _>(
                InitialGenerationComponentSpecParseError::MaxAndMinAreZero,
            ) <==> min == 0 && max == 0,
            r == Err::<InitialGenerationComponentSpec, _>(
                InitialGenerationComponentSpecParseError::MaxIsLessThanMin,
            ) <==> !(min < max) && !(min == 0 && max == 0),
    {
        if min == 0 && max == 0 {
            return Err(InitialGenerationComponentSpecParseError::MaxAndMinAreZero);
        }
        if !(min < max) {
            return Err(InitialGenerationComponentSpecParseError::MaxIsLessThanMin);
        }
        Ok(InitialGenerationComponentSpec { min, max, rng_fail_retries })
    }
}

/// The three generation ranges of a run: how many candidates the initial
/// population holds, how many rules a candidate holds, and how many
/// constraints a rule holds.
#[derive(Debug, Clone, Copy)]
pub struct InitialGenerationSpec {
    pub candidates: InitialGenerationComponentSpec,
    pub rules: InitialGenerationComponentSpec,
    pub constraints: InitialGenerationComponentSpec,
}

/// What the engine derives from the training data rather than the
/// configuration file: the symbol alphabet and the example width.
#[derive(Debug, Clone)]
pub struct CalculatedSpecs {
    pub alphabet: Vec<char>,
    pub max_index: usize,
}

/// The run configuration as read from the configuration file, before the
/// derived parts are known.
#[derive(Debug, Clone)]
pub struct GaSpecInput {
    pub initial_generation: InitialGenerationSpec,
    pub max_evolutions: usize,
    pub stop_at_optimum_fitness: bool,
    pub selection: SelectionStrategy,
    pub crossover: CrossoverStrategy,
    pub mutation: MutationStrategy,
}

/// The fully resolved run configuration the engine consumes.
#[derive(Debug, Clone)]
pub struct GaSpec {
    pub initial_generation: InitialGenerationSpec,
    pub max_evolutions: usize,
    pub stop_at_optimum_fitness: bool,
    pub selection: SelectionStrategy,
    pub crossover: CrossoverStrategy,
    pub mutation: MutationStrategy,
    pub calculated: CalculatedSpecs,
}

impl GaSpec {
    /// The configuration can drive the random generators: every range can
    /// be drawn from, there is at least one symbol position and one
    /// alphabet symbol, and the alphabet is small enough for the
    /// probability draws.
    pub open spec fn generation_valid(self) -> bool {
        &&& range_valid(self.initial_generation.candidates)
        &&& range_valid(self.initial_generation.rules)
        &&& range_valid(self.initial_generation.constraints)
        &&& self.calculated.max_index > 0
        &&& 0 < self.calculated.alphabet@.len()
        &&& self.calculated.alphabet@.len() < 0xFFFF_FFFF
    }
}

impl From<(GaSpecInput, CalculatedSpecs)> for GaSpec {
    /// Join the parsed configuration with the derived parts.
    fn from(parts: (GaSpecInput, CalculatedSpecs)) -> (r: GaSpec) {
        let (input, calculated) = parts;
        GaSpec {
            initial_generation: input.initial_generation,
            max_evolutions: input.max_evolutions,
            stop_at_optimum_fitness: input.stop_at_optimum_fitness,
            selection: input.selection,
            crossover: input.crossover,
            mutation: input.mutation,
            calculated,
        }
    }
}

impl vstd::std_specs::convert::FromSpecImpl<(GaSpecInput, CalculatedSpecs)> for GaSpec {
    open spec fn obeys_from_spec() -> bool {
        true
    }

    open spec fn from_spec(parts: (GaSpecInput, CalculatedSpecs)) -> GaSpec {
        GaSpec {
            initial_generation: parts.0.initial_generation,
            max_evolutions: parts.0.max_evolutions,
            stop_at_optimum_fitness: parts.0.stop_at_optimum_fitness,
            selection: parts.0.selection,
            crossover: parts.0.crossover,
            mutation: parts.0.mutation,
            calculated: parts.1,
        }
    }
}

} // verus!
