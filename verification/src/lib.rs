//! Cumulative complexity profiling of a growing corpus of sequence files.
//!
//! Every sequence of the corpus is factorized into phrases elsewhere; this
//! library merges the parses into one corpus-wide dictionary and occurrence
//! counter, and takes a snapshot of the complexity, the number of phrase
//! occurrences plus the lengths of the distinct phrases, after each file.

pub mod corpus;
pub mod cumulative;
pub mod dictionary;
pub mod dispatch;
pub mod laws;
pub mod model;
pub mod parse;
pub mod profiler;
pub mod trace;

pub use cumulative::{CumulativeParse, MergeError};
pub use dictionary::{Observation, PhraseDictionary};
pub use dispatch::{ConfigError, DispatchPolicy, EntryPoint, PoolOutcome};
pub use model::Conflict;
pub use parse::SequenceParseResult;
pub use profiler::Profiler;
pub use trace::{ComplexityTrace, Ratio};
