//! With which status the command ends.

use vstd::prelude::*;

verus! {

/// How one invocation ended.
#[derive(Clone, Copy, Debug, PartialEq, Eq, Structural)]
pub enum Outcome {
    /// The directory was opened and walked to its end. Entries that could
    /// not be read on the way were reported one by one and change nothing
    /// here.
    Listed,
    /// The command line was refused; no directory was touched.
    BadArguments,
    /// The directory could not be opened: it is missing, is no directory, or
    /// may not be read.
    DirectoryUnreadable,
}

/// The exit status of each outcome: 0 for a listing, 1 for a refused command
/// line and for a directory that could not be opened.
pub open spec fn status_of(outcome: Outcome) -> int {
    match outcome {
        Outcome::Listed => 0,
        Outcome::BadArguments => 1,
        Outcome::DirectoryUnreadable => 1,
    }
}

impl Outcome {
    /// The status with which the process exits.
    pub fn exit_status(&self) -> (code: i32)
        ensures
            code == status_of(*self),
    {
        match self {
            Outcome::Listed => 0,
            Outcome::BadArguments => 1,
            Outcome::DirectoryUnreadable => 1,
        }
    }
}

} // verus!
