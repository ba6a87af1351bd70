//! The library's error type: what went wrong, with enough context to
//! report it.

use vstd::prelude::*;
use crate::text::{dec_str_nat, u64_to_string};

verus! {

/// The specific kind of error that can occur.
#[derive(Clone, Debug, Eq, PartialEq)]
#[non_exhaustive]
pub enum ErrorKind {
    /// No criterion with the given identifier exists.
    StubNotFound(String),
    /// A rubric document could not be parsed, with the position of the
    /// offending input.
    BadYaml { line: usize, col: usize },
}

/// An error, carrying its kind.
#[derive(Debug)]
pub struct Error {
    pub kind: ErrorKind,
}

impl Error {
    /// The kind of this error.
    pub fn kind(&self) -> (k: &ErrorKind)
        ensures
            k == &self.kind,
    {
        &self.kind
    }

    /// The error for an identifier no criterion has.
    pub fn stub_not_found(stub: &str) -> (e: Error)
        ensures
            e.kind matches ErrorKind::StubNotFound(s) && s@ == stub@,
    {
        Error { kind: ErrorKind::StubNotFound(stub.to_owned()) }
    }

    /// The error for an unparsable rubric document.
    pub fn bad_yaml(line: usize, col: usize) -> (e: Error)
        ensures
            e.kind matches ErrorKind::BadYaml { line: l, col: c } && l == line && c == col,
    {
        Error { kind: ErrorKind::BadYaml { line, col } }
    }

    /// The error rendered for a reader.
    pub fn message(&self) -> (m: String)
        ensures
            m@ == error_message(self.kind),
    {
        match &self.kind {
            ErrorKind::StubNotFound(stub) => {
                let mut m = "criterion with stub '".to_owned();
                m.append(stub.as_str());
                m.append("' not found");
                proof {
                    reveal_strlit("criterion with stub '");
                    reveal_strlit("' not found");
                }
                m
            },
            ErrorKind::BadYaml { line, col } => {
                let mut m = "Bad yaml at line ".to_owned();
                m.append(u64_to_string(*line as u64).as_str());
                m.append(", col ");
                m.append(u64_to_string(*col as u64).as_str());
                proof {
                    reveal_strlit("Bad yaml at line ");
                    reveal_strlit(", col ");
                }
                m
            },
        }
    }
}

/// The text `Error::message` renders for each kind.
pub open spec fn error_message(kind: ErrorKind) -> Seq<char> {
    match kind {
        ErrorKind::StubNotFound(stub) => "criterion with stub '"@ + stub@ + "' not found"@,
        ErrorKind::BadYaml { line, col } => "Bad yaml at line "@ + dec_str_nat(line as int) + ", col "@
            + dec_str_nat(col as int),
    }
}

} // verus!
