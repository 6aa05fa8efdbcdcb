//! Discovery of installed Python interpreters: the naming rules that tell an
//! interpreter from a lookalike, the version model and its ordering, the
//! match specification, and the ranking and deduplication of candidates.
//! Filesystem walks and process probes are done by the caller, who hands the
//! facts they produce to the functions here.
pub mod finder;
pub mod helpers;
pub mod providers;
pub mod python;
pub mod text;
pub mod version;

pub use finder::{Candidate, Finder, MatchOptions};
pub use python::PythonVersion;
