//! Resolution of runtime entries: the declarations of what a bundle has to
//! evaluate before its module graph runs.
//!
//! A declaration is a request for a module, still to be resolved, or an entry
//! that is already known to be evaluable. Resolving a declaration gives the
//! evaluable entries that it stands for, in order; resolving a list of
//! declarations gives the entries of all of them, in list order. Both fail as
//! a whole or not at all.
//!
//! The module resolver and the evaluability check belong to the caller. A
//! resolution therefore proceeds in steps (`entry`, `entries`): a step names
//! the question to ask, and takes the answer. A caller whose collaborators
//! answer at once hands them to `resolve`, which goes through the steps
//! itself. `outcome` says what a resolution comes to for given answers, and
//! `theorems` what holds of it. `values` and `error` hold what resolution
//! works on and what it fails with.

pub mod entries;
pub mod entry;
pub mod error;
pub mod outcome;
pub mod resolve;
pub mod theorems;
pub mod values;

pub use crate::entries::{AwaitingEntry, EntriesStep, RuntimeEntries};
pub use crate::entry::{AwaitingCheck, AwaitingResolver, EntryStep, RuntimeEntry};
pub use crate::error::{not_evaluable_message, ResolutionError};
pub use crate::values::{
    Asset, EvaluatedEntry, Failure, FileSystemPath, Request, ResolutionContext, ResolveOrigin,
};
