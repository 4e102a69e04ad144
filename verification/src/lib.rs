//! A genetic algorithm over pattern-matching rules: populations of rule-set
//! candidates are scored against labeled fixed-width symbol strings, then
//! bred through selection, crossover and mutation, one generation at a time.

mod rng;
mod util;

pub mod candidate;
pub mod crossover;
pub mod dataitem;
pub mod dataset;
pub mod driver;
pub mod ga_spec;
pub mod mutation;
pub mod popgenspec;
pub mod population;
pub mod rule;
pub mod selection;
