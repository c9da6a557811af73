//! Why the inspection of one process failed.

use vstd::prelude::*;

verus! {

/// A failure confined to one process: the scan reports it (or not) and goes
/// on with the next process.
#[derive(Debug)]
pub enum InspectError {
    /// A pseudo-file of the process could not be read (it exited, or access
    /// was denied); the text says why.
    Unreadable(String),
    /// The reconstructed command line is not valid UTF-8.
    CommandLineNotText,
    /// The key or the value of a matching environment entry is not valid
    /// UTF-8.
    EntryNotText,
    /// A matching environment segment holds no `=` byte.
    MissingSeparator,
}

impl InspectError {
    /// The one-line description of the failure.
    pub open spec fn description(&self) -> Seq<char> {
        match self {
            InspectError::Unreadable(why) => why@,
            InspectError::CommandLineNotText => "command line is not valid UTF-8"@,
            InspectError::EntryNotText => "environment entry is not valid UTF-8"@,
            InspectError::MissingSeparator => "environment entry has no '='"@,
        }
    }

    /// Returns the one-line description of the failure.
    pub fn message(&self) -> (r: String)
        ensures
            r@ == self.description(),
    {
        match self {
            InspectError::Unreadable(why) => why.clone(),
            InspectError::CommandLineNotText => "command line is not valid UTF-8".to_owned(),
            InspectError::EntryNotText => "environment entry is not valid UTF-8".to_owned(),
            InspectError::MissingSeparator => "environment entry has no '='".to_owned(),
        }
    }
}

} // verus!
