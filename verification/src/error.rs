//! What can go wrong while a record is prepared.

use vstd::prelude::*;
use vstd::string::*;

verus! {

/// The errors that the preparation of a record reports. None of them is
/// fatal: the caller gets the error and goes on.
#[derive(Clone, Copy, Debug, PartialEq, Eq, Structural)]
pub enum LogError {
    /// The path of the target file is empty.
    EmptyTarget,
    /// The content of the target file is no document of the active format,
    /// or the record does not fit into the document.
    Serialization,
}

impl LogError {
    /// A sentence for the error stream.
    pub fn message(&self) -> (text: String)
        ensures
            text@ == match *self {
                LogError::EmptyTarget => "the path of the log file is empty"@,
                LogError::Serialization => "the log file does not hold a document of its format"@,
            },
    {
        match self {
            LogError::EmptyTarget => String::from_str("the path of the log file is empty"),
            LogError::Serialization => String::from_str(
                "the log file does not hold a document of its format",
            ),
        }
    }
}

} // verus!
