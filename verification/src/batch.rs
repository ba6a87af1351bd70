//! A batch: a named collection of criteria built from a declarative
//! document, with lookup, check attachment and scoring, but no deadline
//! policy.

use vstd::prelude::*;
use crate::criteria::{
    find_criterion, func_first_at, passed_sums_in_range, sort_by_index, sort_criteria, sum_passed,
    sum_worth, total_of, points_of, worth_sums_in_range,
};
use crate::criterion::{same_but_test, Check, Criterion};
use crate::error::Error;
use crate::yaml::{
    build_criteria, criterion_of_record, lemma_sum_worth_of_records, rec_sum, rec_sums_in_range,
    BatchYaml,
};

verus! {

/// A named, ordered collection of criteria.
pub struct Batch {
    pub name: String,
    pub desc: Option<String>,
    pub criteria: Vec<Criterion>,
    /// The computed total worth at construction time.
    pub total: isize,
}

impl Batch {
    /// Builds a batch from the record shape of a declarative document.
    /// The criteria keep document order and carry no checks yet; the
    /// total is the sum of their worths.
    pub fn from_yaml(doc: BatchYaml) -> (b: Batch)
        requires
            rec_sums_in_range(doc.criteria@),
        ensures
            b.name == doc.name,
            b.desc == doc.desc,
            b.criteria@.len() == doc.criteria@.len(),
            forall|i: int|
                0 <= i < doc.criteria@.len() ==> criterion_of_record(
                    #[trigger] b.criteria@[i],
                    doc.criteria@[i].0@,
                    doc.criteria@[i].1,
                ),
            b.total == sum_worth(b.criteria@),
    {
        let criteria = build_criteria(doc.criteria);
        proof {
            assert forall|i: int| 0 <= i <= criteria@.len() implies sum_worth(
                #[trigger] criteria@.take(i),
            ) == rec_sum(doc.criteria@.take(i)) by {
                assert forall|j: int|
                    0 <= j < criteria@.take(i).len() implies (#[trigger] criteria@.take(i)[j]).worth
                    == doc.criteria@.take(i)[j].1.worth by {
                    assert(criterion_of_record(criteria@[j], doc.criteria@[j].0@, doc.criteria@[j].1));
                }
                lemma_sum_worth_of_records(criteria@.take(i), doc.criteria@.take(i));
            }
        }
        let total = total_of(&criteria);
        Batch { name: doc.name, desc: doc.desc, criteria, total }
    }

    /// Finds the first criterion with the given identifier, for mutation;
    /// `None` if no criterion has it.
    pub fn get(&mut self, stub: &str) -> (r: Option<&mut Criterion>)
        ensures
            final(self).name == old(self).name,
            final(self).desc == old(self).desc,
            final(self).total == old(self).total,
            match r {
                Some(c) => exists|i: int|
                    #![trigger old(self).criteria@[i]]
                    {
                        &&& func_first_at(old(self).criteria@, stub@, i)
                        &&& *c == old(self).criteria@[i]
                        &&& final(self).criteria@ == old(self).criteria@.update(i, *final(c))
                    },
                None => {
                    &&& final(self).criteria@ == old(self).criteria@
                    &&& forall|i: int|
                        0 <= i < old(self).criteria@.len()
                            ==> (#[trigger] old(self).criteria@[i]).func@ != stub@
                },
            },
    {
        find_criterion(&mut self.criteria, stub)
    }

    /// Appends a criterion; no uniqueness check is made.
    pub fn add(&mut self, criterion: Criterion)
        ensures
            final(self).criteria@ == old(self).criteria@.push(criterion),
            final(self).name == old(self).name,
            final(self).desc == old(self).desc,
            final(self).total == old(self).total,
    {
        self.criteria.push(criterion);
    }

    /// Attaches a check to the first criterion with the given identifier;
    /// an identifier no criterion has is reported as an error and changes
    /// nothing.
    pub fn attach(&mut self, stub: &str, func: Box<dyn Check>) -> (r: Result<(), Error>)
        ensures
            final(self).name == old(self).name,
            final(self).desc == old(self).desc,
            final(self).total == old(self).total,
            match r {
                Ok(()) => {
                    &&& exists|i: int|
                        0 <= i < old(self).criteria@.len()
                            && (#[trigger] old(self).criteria@[i]).func@ == stub@
                    &&& forall|i: int|
                        func_first_at(old(self).criteria@, stub@, i) ==> {
                            &&& final(self).criteria@.len() == old(self).criteria@.len()
                            &&& same_but_test(
                                old(self).criteria@[i],
                                #[trigger] final(self).criteria@[i],
                            )
                            &&& forall|j: int|
                                0 <= j < old(self).criteria@.len() && j != i
                                    ==> final(self).criteria@[j] == #[trigger] old(self).criteria@[j]
                        }
                },
                Err(e) => {
                    &&& final(self).criteria@ == old(self).criteria@
                    &&& forall|i: int|
                        0 <= i < old(self).criteria@.len()
                            ==> (#[trigger] old(self).criteria@[i]).func@ != stub@
                    &&& e.kind matches crate::error::ErrorKind::StubNotFound(s) && s@ == stub@
                },
            },
    {
        let r = self.get(stub);
        match r {
            Some(crit) => {
                crit.attach(func);
            },
            None => {
                return Err(Error::stub_not_found(stub));
            },
        }
        proof {
            assert forall|i2: int, i3: int|
                func_first_at(old(self).criteria@, stub@, i2) && func_first_at(
                    old(self).criteria@,
                    stub@,
                    i3,
                ) implies i2 == i3 by {
                if i2 < i3 {
                    assert((#[trigger] old(self).criteria@[i2]).func@ == stub@);
                } else if i3 < i2 {
                    assert((#[trigger] old(self).criteria@[i3]).func@ == stub@);
                }
            }
        }
        Ok(())
    }

    /// Sorts the criteria in place by ascending index — stable for equal
    /// indices — and hands the sorted vector back.
    pub fn sorted(&mut self) -> (r: &mut Vec<Criterion>)
        ensures
            (*r)@ == sort_by_index(old(self).criteria@),
            final(self).criteria@ == final(r)@,
            final(self).name == old(self).name,
            final(self).desc == old(self).desc,
            final(self).total == old(self).total,
    {
        sort_criteria(&mut self.criteria);
        &mut self.criteria
    }

    /// The points earned: the worths of the criteria that passed. Before
    /// any grading this is zero.
    pub fn points(&self) -> (total: isize)
        requires
            passed_sums_in_range(self.criteria@),
        ensures
            total == sum_passed(self.criteria@),
    {
        points_of(&self.criteria)
    }

    /// The total worth of all criteria, whatever their statuses.
    pub fn total_points(&self) -> (total: isize)
        requires
            worth_sums_in_range(self.criteria@),
        ensures
            total == sum_worth(self.criteria@),
    {
        total_of(&self.criteria)
    }

    /// The criteria, unsorted.
    pub fn criteria(&self) -> (r: &Vec<Criterion>)
        ensures
            r == &self.criteria,
    {
        &self.criteria
    }

    /// The number of criteria.
    pub fn len(&self) -> (n: usize)
        ensures
            n == self.criteria@.len(),
    {
        self.criteria.len()
    }
}

} // verus!
