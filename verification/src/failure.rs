//! The fatal errors of a run, and the exit statuses.

use vstd::prelude::*;
use vstd::string::StringExecFns;

verus! {

/// Exit status: at least one line was selected.
pub const SELECTED: i32 = 0;

/// Exit status: no line was selected, and nothing went wrong.
pub const NO_SELECTED: i32 = 1;

/// Exit status: a fatal error ended the run.
pub const ERROR: i32 = 2;

/// A fatal error. Each one ends the whole run; none is retried.
#[derive(Debug, PartialEq, Eq)]
pub enum Failure {
    /// The pattern is not a regular expression that the engine accepts.
    InvalidPattern { message: String },
    /// A named file could not be opened.
    SourceOpen { message: String },
    /// An opened source could not be read or decoded as text.
    SourceRead { message: String },
}

/// The words that introduce the diagnostic of `failure`.
pub open spec fn diagnostic_prefix(failure: Failure) -> Seq<char> {
    match failure {
        Failure::InvalidPattern { .. } => "Invalid regex: "@,
        Failure::SourceOpen { .. } => "Error opening file: "@,
        Failure::SourceRead { .. } => "Error reading input: "@,
    }
}

/// What the underlying cause said of itself.
pub open spec fn failure_message(failure: Failure) -> Seq<char> {
    match failure {
        Failure::InvalidPattern { message } => message@,
        Failure::SourceOpen { message } => message@,
        Failure::SourceRead { message } => message@,
    }
}

impl Failure {
    /// The exit status of a run that this failure ended.
    pub fn exit_code(&self) -> (code: i32)
        ensures
            code == ERROR,
    {
        ERROR
    }

    /// The line to show the user before the run ends: what failed, then the
    /// cause's own message.
    pub fn diagnostic(&self) -> (text: String)
        ensures
            text@ == diagnostic_prefix(*self) + failure_message(*self),
    {
        match self {
            Failure::InvalidPattern { message } => {
                String::from_str("Invalid regex: ").concat(message.as_str())
            },
            Failure::SourceOpen { message } => {
                String::from_str("Error opening file: ").concat(message.as_str())
            },
            Failure::SourceRead { message } => {
                String::from_str("Error reading input: ").concat(message.as_str())
            },
        }
    }
}

} // verus!
