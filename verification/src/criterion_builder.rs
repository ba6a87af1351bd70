//! A fluent builder for criteria, with the default-identifier rule: when
//! no identifier is set, the display name is lowercased and its
//! whitespace runs become single underscores.

use vstd::prelude::*;
use crate::criterion::{Check, Criterion, NoCheck, Status};
use crate::text::{collapse_spaces, lower_of, lowercase, trim_copy, trim_spec, underscored};

verus! {

/// The identifier a criterion gets when none was set: the name
/// lowercased, trimmed, each whitespace run replaced by one underscore.
pub open spec fn derived_func(name: Seq<char>) -> Seq<char> {
    underscored(trim_spec(lower_of(name)))
}

/// Builds a `Criterion`; start one with `Criterion::new`.
pub struct CriterionBuilder {
    pub name: String,
    pub func: Option<String>,
    pub worth: isize,
    pub messages: (String, String),
    pub desc: Option<String>,
    pub test: Option<Box<dyn Check>>,
    pub index: i64,
    pub hide: bool,
}

impl CriterionBuilder {
    /// A builder for a criterion with this display name, trimmed; worth
    /// 0, messages "passed"/"failed", index 100, not hidden, no check.
    pub fn new(name: &str) -> (b: Self)
        ensures
            b.name@ == trim_spec(name@),
            b.func is None,
            b.worth == 0,
            b.messages.0@ == "passed"@,
            b.messages.1@ == "failed"@,
            b.desc is None,
            b.test is None,
            b.index == 100,
            b.hide == false,
    {
        CriterionBuilder {
            name: trim_copy(name),
            func: None,
            worth: 0,
            messages: ("passed".to_owned(), "failed".to_owned()),
            desc: None,
            test: None,
            index: 100,
            hide: false,
        }
    }

    /// Sets the identifier; `func` and `stub` are two names for the same
    /// field.
    pub fn func(self, func: &str) -> (b: Self)
        ensures
            b.func matches Some(f) && f@ == func@,
            b.name == self.name,
            b.worth == self.worth,
            b.messages == self.messages,
            b.desc == self.desc,
            b.test == self.test,
            b.index == self.index,
            b.hide == self.hide,
    {
        CriterionBuilder { func: Some(func.to_owned()), ..self }
    }

    /// Sets the identifier, under its older name.
    pub fn stub(self, stub: &str) -> (b: Self)
        ensures
            b.func matches Some(f) && f@ == stub@,
            b.name == self.name,
            b.worth == self.worth,
            b.messages == self.messages,
            b.desc == self.desc,
            b.test == self.test,
            b.index == self.index,
            b.hide == self.hide,
    {
        self.func(stub)
    }

    /// Sets the sort index.
    pub fn index(self, index: i64) -> (b: Self)
        ensures
            b.index == index,
            b.name == self.name,
            b.func == self.func,
            b.worth == self.worth,
            b.messages == self.messages,
            b.desc == self.desc,
            b.test == self.test,
            b.hide == self.hide,
    {
        CriterionBuilder { index, ..self }
    }

    /// Attaches a check.
    pub fn test(self, test: Box<dyn Check>) -> (b: Self)
        ensures
            b.test is Some,
            b.name == self.name,
            b.func == self.func,
            b.worth == self.worth,
            b.messages == self.messages,
            b.desc == self.desc,
            b.index == self.index,
            b.hide == self.hide,
    {
        CriterionBuilder { test: Some(test), ..self }
    }

    /// Sets the success and failure messages.
    pub fn messages(self, success: &str, failure: &str) -> (b: Self)
        ensures
            b.messages.0@ == success@,
            b.messages.1@ == failure@,
            b.name == self.name,
            b.func == self.func,
            b.worth == self.worth,
            b.desc == self.desc,
            b.test == self.test,
            b.index == self.index,
            b.hide == self.hide,
    {
        CriterionBuilder { messages: (success.to_owned(), failure.to_owned()), ..self }
    }

    /// Sets the description.
    pub fn desc(self, desc: &str) -> (b: Self)
        ensures
            b.desc matches Some(d) && d@ == desc@,
            b.name == self.name,
            b.func == self.func,
            b.worth == self.worth,
            b.messages == self.messages,
            b.test == self.test,
            b.index == self.index,
            b.hide == self.hide,
    {
        CriterionBuilder { desc: Some(desc.to_owned()), ..self }
    }

    /// Sets the worth.
    pub fn worth(self, worth: isize) -> (b: Self)
        ensures
            b.worth == worth,
            b.name == self.name,
            b.func == self.func,
            b.messages == self.messages,
            b.desc == self.desc,
            b.test == self.test,
            b.index == self.index,
            b.hide == self.hide,
    {
        CriterionBuilder { worth, ..self }
    }

    /// Sets the hide flag.
    pub fn hidden(self, flag: bool) -> (b: Self)
        ensures
            b.hide == flag,
            b.name == self.name,
            b.func == self.func,
            b.worth == self.worth,
            b.messages == self.messages,
            b.desc == self.desc,
            b.test == self.test,
            b.index == self.index,
    {
        CriterionBuilder { hide: flag, ..self }
    }

    /// Finishes the criterion: unset fields get their defaults, and a
    /// missing identifier is derived from the name. The new criterion is
    /// untested.
    pub fn build(self) -> (c: Criterion)
        ensures
            c.func@ == match self.func {
                Some(f) => f@,
                None => derived_func(self.name@),
            },
            c.name == self.name,
            c.worth == self.worth,
            c.messages == self.messages,
            c.desc == self.desc,
            c.index == self.index,
            c.status == Status::Untested,
            c.hide == self.hide,
    {
        let func: String = match self.func {
            Some(f) => f,
            None => {
                let lowered = lowercase(self.name.as_str());
                let trimmed = trim_copy(lowered.as_str());
                collapse_spaces(trimmed.as_str())
            },
        };
        let test: Box<dyn Check> = match self.test {
            Some(t) => t,
            None => Box::new(NoCheck),
        };
        Criterion {
            func,
            name: self.name,
            worth: self.worth,
            index: self.index,
            messages: self.messages,
            desc: self.desc,
            test,
            status: Status::Untested,
            hide: self.hide,
        }
    }
}

} // verus!
