//! A criterion: one named, weighted pass/fail test unit.
//!
//! A criterion holds an identifier (`func`), a display name, a point
//! worth, a sort index, a pair of success/failure messages and a check;
//! grading runs the check against a submission's data and records the
//! outcome in `status`.

use vstd::prelude::*;
use crate::criterion_builder::CriterionBuilder;
use crate::data::TestData;

verus! {

/// Whether a criterion's check has run, and how it came out.
#[derive(Clone, Copy, PartialEq, Eq, Structural, Debug)]
pub enum Status {
    Untested,
    Passed,
    Failed,
}

/// A pass/fail test over submission data. Users implement this (or hand
/// in a boxed implementation) for each criterion they want graded; the
/// check may read any of the submission's key/value entries.
pub trait Check {
    fn passes(&self, data: &TestData) -> bool;
}

/// The check a criterion starts out with: it fails until a real check is
/// attached.
pub struct NoCheck;

impl Check for NoCheck {
    fn passes(&self, data: &TestData) -> (r: bool)
        ensures
            r == false,
    {
        false
    }
}

/// A single criterion.
pub struct Criterion {
    /// The stable identifier used to attach a check, normally the name of
    /// the function that implements it.
    pub func: String,
    /// A short, descriptive name.
    pub name: String,
    /// Points granted when the check passes; may be negative.
    pub worth: isize,
    /// The position in the grading order; lowest runs first.
    pub index: i64,
    /// The success and failure messages, in that order.
    pub messages: (String, String),
    /// An optional description.
    pub desc: Option<String>,
    /// The criterion's check.
    pub test: Box<dyn Check>,
    /// The outcome of the last run, `Status::Untested` before any run.
    pub status: Status,
    /// Keeps the criterion out of reports; it still grades and scores.
    pub hide: bool,
}

/// `b` is `a` with at most the check changed.
pub open spec fn same_but_test(a: Criterion, b: Criterion) -> bool {
    &&& a.func == b.func
    &&& a.name == b.name
    &&& a.worth == b.worth
    &&& a.index == b.index
    &&& a.messages == b.messages
    &&& a.desc == b.desc
    &&& a.status == b.status
    &&& a.hide == b.hide
}

/// `b` is `a` with at most the status changed.
pub open spec fn same_but_status(a: Criterion, b: Criterion) -> bool {
    &&& a.func == b.func
    &&& a.name == b.name
    &&& a.worth == b.worth
    &&& a.index == b.index
    &&& a.messages == b.messages
    &&& a.desc == b.desc
    &&& a.test == b.test
    &&& a.hide == b.hide
}

impl Criterion {
    /// Starts a builder for a criterion with this display name.
    pub fn new(name: &str) -> (b: CriterionBuilder)
        ensures
            b.name@ == crate::text::trim_spec(name@),
            b.func is None,
            b.worth == 0,
            b.messages.0@ == "passed"@,
            b.messages.1@ == "failed"@,
            b.desc is None,
            b.test is None,
            b.index == 100,
            b.hide == false,
    {
        CriterionBuilder::new(name)
    }

    /// The message reported when the criterion passes.
    pub fn success_message(&self) -> (m: &String)
        ensures
            m == &self.messages.0,
    {
        &self.messages.0
    }

    /// The message reported when the criterion fails.
    pub fn failure_message(&self) -> (m: &String)
        ensures
            m == &self.messages.1,
    {
        &self.messages.1
    }

    /// Replaces the criterion's check; used when checks cannot be known
    /// when the rubric is declared.
    pub fn attach(&mut self, test: Box<dyn Check>)
        ensures
            final(self).status == old(self).status,
            final(self).func == old(self).func,
            final(self).name == old(self).name,
            final(self).worth == old(self).worth,
            final(self).index == old(self).index,
            final(self).messages == old(self).messages,
            final(self).desc == old(self).desc,
            final(self).hide == old(self).hide,
    {
        self.test = test;
    }

    /// Runs the check on the given data, stores the outcome as the new
    /// status and returns it. The outcome is whatever the attached check
    /// decides; nothing else about the criterion changes.
    pub fn test_with_data(&mut self, data: &TestData) -> (r: bool)
        ensures
            same_but_status(*old(self), *final(self)),
            final(self).status == if r {
                Status::Passed
            } else {
                Status::Failed
            },
    {
        let r = self.test.passes(data);
        if r {
            self.status = Status::Passed;
        } else {
            self.status = Status::Failed;
        }
        r
    }

    /// Runs the check on empty data; otherwise like `test_with_data`.
    pub fn test(&mut self) -> (r: bool)
        ensures
            same_but_status(*old(self), *final(self)),
            final(self).status == if r {
                Status::Passed
            } else {
                Status::Failed
            },
    {
        let empty = TestData::new();
        self.test_with_data(&empty)
    }

    /// The success message if the criterion passed, the failure message
    /// otherwise; a criterion not yet tested reports its failure message.
    pub fn status_message(&self) -> (m: String)
        ensures
            m@ == if self.status == Status::Passed {
                self.messages.0@
            } else {
                self.messages.1@
            },
    {
        if matches!(self.status, Status::Passed) {
            self.messages.0.as_str().to_owned()
        } else {
            self.messages.1.as_str().to_owned()
        }
    }
}

} // verus!
