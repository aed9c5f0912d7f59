//! The errors of each stage: parsing an answer, applying an edit, asking the oracle,
//! and running the loop.

use crate::text::{decimal_digits, decimal_string};
use vstd::prelude::*;
use vstd::string::StringExecFns;

verus! {

/// Why an answer of the oracle yielded no edits.
#[derive(Debug, Clone, Copy, PartialEq, Eq, Structural)]
pub enum ParseError {
    /// The text holds no edit block.
    NoMatch,
    /// An edit block carries a line number that is no decimal numeral, or one too large.
    Malformed,
}

/// Why an edit was not applied. The working tree is then unchanged.
#[derive(Debug, Clone, Copy, PartialEq, Eq)]
pub enum ApplyError {
    /// The requested span does not satisfy `start <= end <= actual_len`.
    OutOfBounds { requested: (usize, usize), actual_len: usize },
    /// The path names no file of the working tree.
    NotFound,
    /// The path already names a file of the working tree.
    AlreadyExists,
    /// The edit has no meaning where it was applied.
    Unsupported,
}

/// Why the oracle did not answer.
#[derive(Debug, Clone, Copy, PartialEq, Eq, Structural)]
pub enum OracleError {
    /// The request did not reach the oracle, or no response came back.
    Transport,
    /// A response came back, but not in the agreed envelope.
    BadEnvelope,
}

/// Why the loop stopped without a summary.
#[derive(Debug, Clone, Copy, PartialEq, Eq)]
pub enum ErrorKind {
    /// The retry budget of a comment ran out while the build still failed.
    Unconverged,
    /// Something outside the loop's rules went wrong: the file system, a build that
    /// failed without a diagnostic, an event out of turn.
    Fatal,
    /// An answer of the oracle could not be parsed.
    Parse(ParseError),
    /// An edit could not be applied.
    Apply(ApplyError),
    /// The oracle did not answer.
    Oracle(OracleError),
}

impl ParseError {
    /// The text of [`ParseError::message`].
    pub open spec fn message_text(self) -> Seq<char> {
        match self {
            ParseError::NoMatch => "failed to parse transformation"@,
            ParseError::Malformed => "an edit block holds a line number that is not an integer"@,
        }
    }

    /// A sentence for the user.
    pub fn message(&self) -> (s: String)
        ensures
            s@ == self.message_text(),
    {
        match self {
            ParseError::NoMatch => String::from_str("failed to parse transformation"),
            ParseError::Malformed => String::from_str(
                "an edit block holds a line number that is not an integer",
            ),
        }
    }
}

impl ApplyError {
    /// The text of [`ApplyError::message`]. A span out of bounds is reported with the
    /// span that was asked for and the number of lines that the file has.
    pub open spec fn message_text(self) -> Seq<char> {
        match self {
            ApplyError::OutOfBounds { requested, actual_len } => "One of the line ranges ("@
                + decimal_digits(requested.0 as nat) + ", "@ + decimal_digits(requested.1 as nat)
                + ") was not in bound of the file [0.."@ + decimal_digits(actual_len as nat)
                + "]."@,
            ApplyError::NotFound => "the file does not exist"@,
            ApplyError::AlreadyExists => "the file already exists"@,
            ApplyError::Unsupported => "the transformation is not supported here"@,
        }
    }

    /// A sentence for the user.
    pub fn message(&self) -> (s: String)
        ensures
            s@ == self.message_text(),
    {
        match self {
            ApplyError::OutOfBounds { requested, actual_len } => {
                let mut s = String::from_str("One of the line ranges (");
                s.append(decimal_string(requested.0).as_str());
                s.append(", ");
                s.append(decimal_string(requested.1).as_str());
                s.append(") was not in bound of the file [0..");
                s.append(decimal_string(*actual_len).as_str());
                s.append("].");
                s
            },
            ApplyError::NotFound => String::from_str("the file does not exist"),
            ApplyError::AlreadyExists => String::from_str("the file already exists"),
            ApplyError::Unsupported => String::from_str("the transformation is not supported here"),
        }
    }
}

impl OracleError {
    /// The text of [`OracleError::message`].
    pub open spec fn message_text(self) -> Seq<char> {
        match self {
            OracleError::Transport => "the oracle could not be reached"@,
            OracleError::BadEnvelope => "the oracle's response was not understood"@,
        }
    }

    /// A sentence for the user.
    pub fn message(&self) -> (s: String)
        ensures
            s@ == self.message_text(),
    {
        match self {
            OracleError::Transport => String::from_str("the oracle could not be reached"),
            OracleError::BadEnvelope => String::from_str("the oracle's response was not understood"),
        }
    }
}

impl ErrorKind {
    /// The text of [`ErrorKind::message`]: the stage that failed, then what failed there.
    pub open spec fn message_text(self) -> Seq<char> {
        match self {
            ErrorKind::Unconverged => "the build still fails and the retry budget is spent"@,
            ErrorKind::Fatal => "the loop cannot go on"@,
            ErrorKind::Parse(e) => "parse: "@ + e.message_text(),
            ErrorKind::Apply(e) => "apply: "@ + e.message_text(),
            ErrorKind::Oracle(e) => "oracle: "@ + e.message_text(),
        }
    }

    /// A sentence for the user.
    pub fn message(&self) -> (s: String)
        ensures
            s@ == self.message_text(),
    {
        match self {
            ErrorKind::Unconverged => String::from_str(
                "the build still fails and the retry budget is spent",
            ),
            ErrorKind::Fatal => String::from_str("the loop cannot go on"),
            ErrorKind::Parse(e) => String::from_str("parse: ").concat(e.message().as_str()),
            ErrorKind::Apply(e) => String::from_str("apply: ").concat(e.message().as_str()),
            ErrorKind::Oracle(e) => String::from_str("oracle: ").concat(e.message().as_str()),
        }
    }
}

} // verus!
