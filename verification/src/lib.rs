//! A criterion runner: rubrics of weighted pass/fail criteria, graded
//! against a submission's key/value data, with deadline penalties, a
//! deterministic CSV codec and a collection log for graded submissions.

pub mod batch;
pub mod clock;
pub mod criteria;
pub mod criterion;
pub mod criterion_builder;
pub mod data;
pub mod dropbox;
pub mod error;
pub mod fingerprint;
pub mod results_file;
pub mod rubric;
pub mod submission;
pub mod system;
pub mod text;
pub mod yaml;

pub use crate::batch::Batch;
pub use crate::criteria::Criteria;
pub use crate::criterion::{Check, Criterion, Status};
pub use crate::criterion_builder::CriterionBuilder;
pub use crate::data::TestData;
pub use crate::error::{Error, ErrorKind};
pub use crate::fingerprint::Fingerprint;
pub use crate::results_file::AsCsv;
pub use crate::rubric::Rubric;
pub use crate::submission::Submission;
pub use crate::system::Version;

use vstd::prelude::*;

verus! {

/// The timestamp format written into submission records:
/// date, weekday, time and timezone offset.
pub fn default_timestamp_format() -> (s: String)
    ensures
        s@ == "%F %a %T %:z"@,
{
    "%F %a %T %:z".to_owned()
}

} // verus!
