//! What can stop a run.

use vstd::prelude::*;
use vstd::string::StringExecFns;

verus! {

/// The reasons for which no closure is produced.
#[derive(Clone, Copy, Debug, PartialEq, Eq)]
pub enum WalkError {
    /// The entry path is no directory and has no parent directory.
    NoParent,
    /// No directory from the entry file upwards holds the repository marker.
    NotARepository,
    /// A file that belongs to the closure could not be resolved or read.
    Io,
    /// An event arrived that does not answer the action that was asked for.
    OutOfTurn,
}

impl WalkError {
    /// A sentence that names the error.
    pub fn message(&self) -> (r: String)
        ensures
            r@ == match *self {
                WalkError::NoParent => "No parent directory found"@,
                WalkError::NotARepository => "Not in a git repository"@,
                WalkError::Io => "A file of the closure could not be read"@,
                WalkError::OutOfTurn => "The event does not answer the action"@,
            },
    {
        match self {
            WalkError::NoParent => String::from_str("No parent directory found"),
            WalkError::NotARepository => String::from_str("Not in a git repository"),
            WalkError::Io => String::from_str("A file of the closure could not be read"),
            WalkError::OutOfTurn => String::from_str("The event does not answer the action"),
        }
    }
}

} // verus!
