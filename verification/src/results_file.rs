//! The serialization contract shared by everything that is written to a
//! results file: one CSV line, a matching header, and a target filename.

use vstd::prelude::*;

verus! {

/// Conversion of a value to one line of comma separated values.
///
/// `as_csv` and `header` return a single line without a trailing newline,
/// and their column orders match. `filename` names the file such records
/// are collected in.
pub trait AsCsv {
    fn as_csv(&self) -> String;

    fn filename(&self) -> String;

    fn header(&self) -> String;
}

} // verus!
