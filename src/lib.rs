//! Strict parsing of human-typed size strings ("4K", "10MB", "1b", "2m") into
//! exact byte counts, together with a few small helpers shared by command-line
//! utilities: checked exponentiation, path resolution and stream adapters.
use vstd::prelude::*;

pub mod adapters;
pub mod checked;
pub mod paths;
pub mod size;

pub use adapters::{RawObject, ReadableVec, UtilReadDyn, UtilWriteDyn};
pub use checked::pow;
pub use paths::actual_path;
pub use size::{parse_num_with_suffix, parse_obsolete_num, OBSOLETE_SUFFIXES, SUFFIXES};

verus! {

/// A process exit status.
pub type ExitCode = i32;

pub const EXIT_SUCCESS: ExitCode = 0;

pub const EXIT_FAILURE: ExitCode = 1;

} // verus!
