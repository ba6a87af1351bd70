//! A rubric: an ordered collection of criteria together with the deadline
//! and late-penalty policy a submission is graded under.

use vstd::prelude::*;
use crate::clock::current_timestamp;
use crate::criteria::{
    find_criterion, func_first_at, passed_sums_in_range, sort_by_index, sort_criteria, sum_passed,
    sum_worth, total_of, points_of, worth_sums_in_range,
};
use crate::criterion::Criterion;
use crate::yaml::{
    build_criteria, criterion_of_record, lemma_sum_worth_of_records, rec_sum, rec_sums_in_range,
    RubricYaml,
};

verus! {

/// Whether a configured deadline has passed at the given time; an absent
/// deadline never passes.
pub open spec fn is_past(deadline: Option<i64>, now: i64) -> bool {
    match deadline {
        Some(d) => d < now,
        None => false,
    }
}

/// A collection of criteria plus deadline and late-penalty policy.
pub struct Rubric {
    pub name: String,
    pub desc: Option<String>,
    pub criteria: Vec<Criterion>,
    /// The computed total worth at construction time.
    pub total: isize,
    /// The primary deadline, as a Unix timestamp in seconds.
    pub deadline: Option<i64>,
    /// The hard final deadline, as a Unix timestamp in seconds.
    pub final_deadline: Option<i64>,
    /// Whether a late submission is still graded.
    pub allow_late: bool,
    /// The flat penalty for lateness.
    pub late_penalty: isize,
    /// The additional penalty per whole day late; zero means none is
    /// configured.
    pub daily_penalty: isize,
}

impl Default for Rubric {
    /// An empty rubric with no deadlines, late submission allowed and no
    /// penalties; meant for tests and examples, not for real grading.
    fn default() -> (r: Rubric)
        ensures
            r.name@ == Seq::<char>::empty(),
            r.desc is None,
            r.criteria@ == Seq::<Criterion>::empty(),
            r.total == 0,
            r.deadline is None,
            r.final_deadline is None,
            r.allow_late == true,
            r.late_penalty == 0,
            r.daily_penalty == 0,
    {
        let r = Rubric {
            name: String::new(),
            desc: None,
            criteria: Vec::new(),
            total: 0,
            deadline: None,
            final_deadline: None,
            allow_late: true,
            late_penalty: 0,
            daily_penalty: 0,
        };
        proof {
            assert(r.name@ =~= Seq::<char>::empty());
        }
        r
    }
}

impl Rubric {
    /// Builds a rubric from the record shape of a declarative document.
    /// The criteria keep document order and carry no checks yet; absent
    /// policy fields default to "late submission allowed, no penalties".
    pub fn from_yaml(doc: RubricYaml) -> (r: Rubric)
        requires
            rec_sums_in_range(doc.criteria@),
        ensures
            r.name == doc.name,
            r.desc == doc.desc,
            r.criteria@.len() == doc.criteria@.len(),
            forall|i: int|
                0 <= i < doc.criteria@.len() ==> criterion_of_record(
                    #[trigger] r.criteria@[i],
                    doc.criteria@[i].0@,
                    doc.criteria@[i].1,
                ),
            r.total == sum_worth(r.criteria@),
            r.deadline == doc.deadline,
            r.final_deadline == doc.final_deadline,
            r.allow_late == match doc.allow_late {
                Some(b) => b,
                None => true,
            },
            r.late_penalty == match doc.late_penalty {
                Some(p) => p,
                None => 0isize,
            },
            r.daily_penalty == match doc.late_penalty_per_day {
                Some(p) => p,
                None => 0isize,
            },
    {
        let allow_late = match doc.allow_late {
            Some(b) => b,
            None => true,
        };
        let late_penalty = match doc.late_penalty {
            Some(p) => p,
            None => 0,
        };
        let daily_penalty = match doc.late_penalty_per_day {
            Some(p) => p,
            None => 0,
        };
        let criteria = build_criteria(doc.criteria);
        proof {
            assert forall|i: int| 0 <= i <= criteria@.len() implies sum_worth(
                #[trigger] criteria@.take(i),
            ) == rec_sum(doc.criteria@.take(i)) by {
                assert forall|j: int|
                    0 <= j < criteria@.take(i).len() implies (#[trigger] criteria@.take(i)[j]).worth
                    == doc.criteria@.take(i)[j].1.worth by {
                    assert(criterion_of_record(
                        criteria@[j],
                        doc.criteria@[j].0@,
                        doc.criteria@[j].1,
                    ));
                }
                lemma_sum_worth_of_records(criteria@.take(i), doc.criteria@.take(i));
            }
        }
        let total = total_of(&criteria);
        Rubric {
            name: doc.name,
            desc: doc.desc,
            criteria,
            total,
            deadline: doc.deadline,
            final_deadline: doc.final_deadline,
            allow_late,
            late_penalty,
            daily_penalty,
        }
    }

    /// Finds the first criterion with the given identifier, for mutation;
    /// `None` if no criterion has it.
    pub fn get(&mut self, func: &str) -> (r: Option<&mut Criterion>)
        ensures
            same_policy(*old(self), *final(self)),
            match r {
                Some(c) => exists|i: int|
                    #![trigger old(self).criteria@[i]]
                    {
                        &&& func_first_at(old(self).criteria@, func@, i)
                        &&& *c == old(self).criteria@[i]
                        &&& final(self).criteria@ == old(self).criteria@.update(i, *final(c))
                    },
                None => {
                    &&& final(self).criteria@ == old(self).criteria@
                    &&& forall|i: int|
                        0 <= i < old(self).criteria@.len()
                            ==> (#[trigger] old(self).criteria@[i]).func@ != func@
                },
            },
    {
        find_criterion(&mut self.criteria, func)
    }

    /// Appends a criterion; no uniqueness check is made.
    pub fn add(&mut self, criterion: Criterion)
        ensures
            final(self).criteria@ == old(self).criteria@.push(criterion),
            same_policy(*old(self), *final(self)),
    {
        self.criteria.push(criterion);
    }

    /// Sorts the criteria in place by ascending index — stable for equal
    /// indices — and hands the sorted vector back. Grading always visits
    /// criteria in this order.
    pub fn sorted(&mut self) -> (r: &mut Vec<Criterion>)
        ensures
            (*r)@ == sort_by_index(old(self).criteria@),
            final(self).criteria@ == final(r)@,
            same_policy(*old(self), *final(self)),
    {
        sort_criteria(&mut self.criteria);
        &mut self.criteria
    }

    /// The points earned: the worths of the criteria that passed. Before
    /// any grading this is zero.
    pub fn points(&self) -> (total: isize)
        requires
            passed_sums_in_range(self.criteria@),
        ensures
            total == sum_passed(self.criteria@),
    {
        points_of(&self.criteria)
    }

    /// The total worth of all criteria, whatever their statuses.
    pub fn total_points(&self) -> (total: isize)
        requires
            worth_sums_in_range(self.criteria@),
        ensures
            total == sum_worth(self.criteria@),
    {
        total_of(&self.criteria)
    }

    /// The criteria, unsorted.
    pub fn criteria(&self) -> (r: &Vec<Criterion>)
        ensures
            r == &self.criteria,
    {
        &self.criteria
    }

    /// The number of criteria.
    pub fn len(&self) -> (n: usize)
        ensures
            n == self.criteria@.len(),
    {
        self.criteria.len()
    }

    /// Whether the primary deadline had passed at the given time.
    pub fn past_due_at(&self, now: i64) -> (r: bool)
        ensures
            r == is_past(self.deadline, now),
    {
        match self.deadline {
            Some(d) => d < now,
            None => false,
        }
    }

    /// Whether the primary deadline has passed. Without a configured
    /// deadline this is never the case; with one, the answer depends on
    /// the clock.
    pub fn past_due(&self) -> (r: bool)
        ensures
            self.deadline is None ==> r == false,
    {
        let now = current_timestamp();
        self.past_due_at(now)
    }

    /// Whether the final deadline had passed at the given time.
    pub fn past_final_deadline_at(&self, now: i64) -> (r: bool)
        ensures
            r == is_past(self.final_deadline, now),
    {
        match self.final_deadline {
            Some(d) => d < now,
            None => false,
        }
    }

    /// Whether the final deadline has passed. Without a configured final
    /// deadline this is never the case; with one, the answer depends on
    /// the clock.
    pub fn past_final_deadline(&self) -> (r: bool)
        ensures
            self.final_deadline is None ==> r == false,
    {
        let now = current_timestamp();
        self.past_final_deadline_at(now)
    }
}

/// `b` carries `a`'s name, description, declared total and deadline
/// policy: everything but the criteria.
pub open spec fn same_policy(a: Rubric, b: Rubric) -> bool {
    &&& a.name == b.name
    &&& a.desc == b.desc
    &&& a.total == b.total
    &&& a.deadline == b.deadline
    &&& a.final_deadline == b.final_deadline
    &&& a.allow_late == b.allow_late
    &&& a.late_penalty == b.late_penalty
    &&& a.daily_penalty == b.daily_penalty
}

} // verus!
