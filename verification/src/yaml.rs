//! The already-parsed record shape of a declarative rubric document.
//!
//! An external loader parses the document text and hands these records
//! to the library; the library turns them into criteria and rubrics and
//! never reads the document format itself. Deadlines arrive as Unix
//! timestamps in seconds.

use vstd::prelude::*;
use crate::criterion::{Criterion, Status};
use crate::criterion_builder::derived_func;
use crate::text::trim_spec;

verus! {

/// The record for one declared criterion.
pub struct CriterionYaml {
    /// The identifier; derived from the name when absent.
    pub stub: Option<String>,
    /// The sort index; 100 when absent.
    pub index: Option<i64>,
    /// An optional description.
    pub desc: Option<String>,
    /// The criterion's worth.
    pub worth: isize,
    /// Success and failure messages; "passed"/"failed" when absent.
    pub messages: Option<(String, String)>,
    /// Whether the criterion is hidden; false when absent.
    pub hide: Option<bool>,
}

/// The record for a whole rubric document.
pub struct RubricYaml {
    pub name: String,
    pub desc: Option<String>,
    /// Each criterion's display name with its record, in document order.
    pub criteria: Vec<(String, CriterionYaml)>,
    /// The declared total, checked against the computed total.
    pub total: Option<isize>,
    /// The primary deadline, as a Unix timestamp in seconds.
    pub deadline: Option<i64>,
    /// The hard final deadline, as a Unix timestamp in seconds.
    pub final_deadline: Option<i64>,
    pub allow_late: Option<bool>,
    pub late_penalty: Option<isize>,
    pub late_penalty_per_day: Option<isize>,
}

/// The record for a batch document: criteria with no deadline policy.
pub struct BatchYaml {
    pub name: String,
    pub desc: Option<String>,
    pub criteria: Vec<(String, CriterionYaml)>,
    pub total: Option<isize>,
}

/// The criterion that `into_criterion` builds from a record under the
/// given display name.
pub open spec fn criterion_of_record(c: Criterion, name: Seq<char>, rec: CriterionYaml) -> bool {
    &&& c.name@ == trim_spec(name)
    &&& c.func@ == match rec.stub {
        Some(s) => s@,
        None => derived_func(trim_spec(name)),
    }
    &&& c.worth == rec.worth
    &&& c.index == match rec.index {
        Some(i) => i,
        None => 100i64,
    }
    &&& c.messages.0@ == match rec.messages {
        Some(m) => m.0@,
        None => "passed"@,
    }
    &&& c.messages.1@ == match rec.messages {
        Some(m) => m.1@,
        None => "failed"@,
    }
    &&& match rec.desc {
        Some(d) => c.desc matches Some(cd) && cd@ == d@,
        None => c.desc is None,
    }
    &&& c.hide == match rec.hide {
        Some(h) => h,
        None => false,
    }
    &&& c.status == Status::Untested
}

impl CriterionYaml {
    /// Builds the declared criterion, attaching the display name the
    /// document keyed it by. The new criterion has no check yet.
    pub fn into_criterion(self, name: String) -> (c: Criterion)
        ensures
            criterion_of_record(c, name@, self),
    {
        let mut builder = Criterion::new(name.as_str()).worth(self.worth);
        if let Some(msg) = &self.messages {
            builder = builder.messages(msg.0.as_str(), msg.1.as_str());
        }
        if let Some(stub) = &self.stub {
            builder = builder.stub(stub.as_str());
        }
        if let Some(h) = self.hide {
            builder = builder.hidden(h);
        }
        if let Some(desc) = &self.desc {
            builder = builder.desc(desc.as_str());
        }
        if let Some(index) = self.index {
            builder = builder.index(index);
        }
        builder.build()
    }
}

} // verus!
verus! {

/// The sum of the declared worths.
pub open spec fn rec_sum(rs: Seq<(String, CriterionYaml)>) -> int
    decreases rs.len(),
{
    if rs.len() == 0 {
        0
    } else {
        rec_sum(rs.drop_last()) + rs.last().1.worth
    }
}

/// Every partial sum of declared worths stays within `isize`.
pub open spec fn rec_sums_in_range(rs: Seq<(String, CriterionYaml)>) -> bool {
    forall|i: int| 0 <= i <= rs.len() ==> isize::MIN <= rec_sum(#[trigger] rs.take(i)) <= isize::MAX
}

/// Criteria built from records carry the records' worths, so the sums
/// agree.
pub proof fn lemma_sum_worth_of_records(cs: Seq<Criterion>, rs: Seq<(String, CriterionYaml)>)
    requires
        cs.len() == rs.len(),
        forall|i: int| 0 <= i < cs.len() ==> (#[trigger] cs[i]).worth == rs[i].1.worth,
    ensures
        crate::criteria::sum_worth(cs) == rec_sum(rs),
    decreases cs.len(),
{
    if cs.len() > 0 {
        assert forall|i: int| 0 <= i < cs.drop_last().len() implies (#[trigger] cs.drop_last()[i]).worth
            == rs.drop_last()[i].1.worth by {
            assert(cs.drop_last()[i] == cs[i]);
            assert(rs.drop_last()[i] == rs[i]);
        }
        lemma_sum_worth_of_records(cs.drop_last(), rs.drop_last());
    }
}

/// Builds the declared criteria, in document order, none of them tested.
pub fn build_criteria(records: Vec<(String, CriterionYaml)>) -> (v: Vec<Criterion>)
    ensures
        v@.len() == records@.len(),
        forall|i: int|
            0 <= i < records@.len() ==> criterion_of_record(
                #[trigger] v@[i],
                records@[i].0@,
                records@[i].1,
            ),
{
    let ghost orig = records@;
    let mut records = records;
    let record_count = records.len();
    proof {
        assert(orig.len() == record_count as int);
    }
    let mut v: Vec<Criterion> = Vec::new();
    let mut i: usize = 0;
    while records.len() > 0
        invariant
            0 <= i <= orig.len(),
            orig.len() <= usize::MAX,
            records@ == orig.skip(i as int),
            v@.len() == i,
            forall|j: int|
                0 <= j < i ==> criterion_of_record(#[trigger] v@[j], orig[j].0@, orig[j].1),
        decreases records@.len(),
    {
        proof {
            assert(orig.skip(i as int)[0] == orig[i as int]);
        }
        let (name, rec) = records.remove(0);
        v.push(rec.into_criterion(name));
        proof {
            assert(i < orig.len());
            assert(records@ =~= orig.skip(i + 1 as int));
        }
        i = i + 1;
    }
    proof {
        assert(orig.skip(i as int).len() == 0);
    }
    v
}

/// The declared total against the computed one: `Some((declared,
/// computed))` exactly when a declared total is present and differs from
/// the sum of the criteria worths. A mismatch is worth a warning, never
/// an error.
pub fn total_mismatch(records: &Vec<(String, CriterionYaml)>, declared: &Option<isize>) -> (r:
    Option<(isize, isize)>)
    requires
        rec_sums_in_range(records@),
    ensures
        match r {
            Some(pair) => declared matches Some(d) && d == pair.0 && pair.1 == rec_sum(records@)
                && pair.0 != pair.1,
            None => declared matches Some(d) ==> d == rec_sum(records@),
        },
{
    let computed = rec_total_of(records);
    match declared {
        Some(d) => {
            if *d != computed {
                Some((*d, computed))
            } else {
                None
            }
        },
        None => None,
    }
}

/// Sums the declared worths.
fn rec_total_of(records: &Vec<(String, CriterionYaml)>) -> (total: isize)
    requires
        rec_sums_in_range(records@),
    ensures
        total == rec_sum(records@),
{
    let mut total: isize = 0;
    let mut i: usize = 0;
    while i < records.len()
        invariant
            0 <= i <= records@.len(),
            rec_sums_in_range(records@),
            total == rec_sum(records@.take(i as int)),
        decreases records@.len() - i,
    {
        proof {
            assert(records@.take(i + 1 as int).drop_last() =~= records@.take(i as int));
            assert(records@.take(i + 1 as int).last() == records@[i as int]);
            assert(isize::MIN <= rec_sum(records@.take(i + 1 as int)) <= isize::MAX);
        }
        total = total + records[i].1.worth;
        i = i + 1;
    }
    proof {
        assert(records@.take(i as int) =~= records@);
    }
    total
}

} // verus!
