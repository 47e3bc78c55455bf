//! A `find`-like filesystem search: composable entry criteria, the decisions
//! of a cycle-safe depth-first walk, legacy argument rewriting and
//! `find`-compatible diagnostics.

pub mod args;
pub mod error;
pub mod predicate;
pub mod walk;

pub use args::preprocess_args;
pub use error::{Error, IoFailure};
pub use predicate::{
    form_predicate, mtime_matches, substitute_path, Answer, Criterion, Entry, FileKind, Flag, Predicate,
    Step,
};
pub use walk::Walk;
