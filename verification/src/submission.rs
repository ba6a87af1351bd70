//! A submission: the gradable unit. It carries a data payload, the
//! accumulated grade, and the ordered pass/fail trail the grading engine
//! appends to; grading applies a rubric's deadline policy and then runs
//! each criterion in sorted order.

use vstd::prelude::*;
use crate::clock::{chrono_format, current_timestamp, format_timestamp};
use crate::criteria::{
    grade_bounds_ok, lemma_sum_passed_bounds, sort_by_index, sort_criteria, sum_passed,
};
use crate::criterion::{same_but_status, Criterion, Status};
use crate::data::{data_csv_line, data_header_line, TestData};
use crate::fingerprint::{fingerprint_csv, Fingerprint};
use crate::results_file::AsCsv;
use crate::rubric::{is_past, same_policy, Rubric};
use crate::text::{dec_str, i64_to_string, join_strings, join_with, str_views};

verus! {

/// A trail entry granting `n` points: `message (+n)`.
pub open spec fn plus_entry(message: Seq<char>, n: int) -> Seq<char> {
    message + " (+"@ + dec_str(n) + ")"@
}

/// A trail entry taking `n` points: `message (-n)`.
pub open spec fn minus_entry(message: Seq<char>, n: int) -> Seq<char> {
    message + " (-"@ + dec_str(n) + ")"@
}

fn plus_entry_text(message: &str, n: isize) -> (r: String)
    ensures
        r@ == plus_entry(message@, n as int),
{
    let mut r = message.to_owned();
    r.append(" (+");
    r.append(i64_to_string(n as i64).as_str());
    r.append(")");
    r
}

fn minus_entry_text(message: &str, n: isize) -> (r: String)
    ensures
        r@ == minus_entry(message@, n as int),
{
    let mut r = message.to_owned();
    r.append(" (-");
    r.append(i64_to_string(n as i64).as_str());
    r.append(")");
    r
}

/// Whole days late: any lateness within the first day counts as one day,
/// each further started day adds one.
pub open spec fn days_late(deadline: int, now: int) -> int
    recommends
        deadline < now,
{
    (now - deadline) / 86400 + 1
}

/// Computes `days_late` without overflowing.
fn days_between(deadline: i64, now: i64) -> (d: i64)
    requires
        deadline < now,
    ensures
        d == days_late(deadline as int, now as int),
        1 <= d,
{
    let diff: i128 = now as i128 - deadline as i128;
    let days: i128 = diff / 86400 + 1;
    proof {
        assert(diff / 86400 >= 0);
        assert(diff / 86400 <= diff) by {
            vstd::arithmetic::div_mod::lemma_div_is_ordered_by_denominator(diff as int, 1, 86400);
        }
    }
    days as i64
}

/// `n` fits the machine's signed word.
pub open spec fn in_isize(n: int) -> bool {
    isize::MIN <= n <= isize::MAX
}

/// The grade after the lateness penalties: the flat penalty, then the
/// per-day penalty if one is configured.
pub open spec fn late_grade(s: Submission, r: Rubric, now: i64) -> int {
    let g1 = s.grade - r.late_penalty;
    match r.deadline {
        Some(d) => if r.daily_penalty != 0 {
            g1 - r.daily_penalty * days_late(d as int, now as int)
        } else {
            g1
        },
        None => g1,
    }
}

/// The failed trail after the lateness penalties were recorded.
pub open spec fn late_failed(s: Submission, r: Rubric, now: i64) -> Seq<Seq<char>> {
    let base = str_views(s.failed@).push(minus_entry("Late submission"@, r.late_penalty as int));
    match r.deadline {
        Some(d) => if r.daily_penalty != 0 {
            base.push(
                minus_entry(
                    dec_str(days_late(d as int, now as int)) + " days late"@,
                    r.daily_penalty * days_late(d as int, now as int),
                ),
            )
        } else {
            base
        },
        None => base,
    }
}

/// Every criterion of `graded` is the matching criterion of `sorted`
/// with its check's outcome recorded.
pub open spec fn statuses_decided(sorted: Seq<Criterion>, graded: Seq<Criterion>) -> bool {
    &&& graded.len() == sorted.len()
    &&& forall|i: int|
        0 <= i < sorted.len() ==> same_but_status(sorted[i], #[trigger] graded[i]) && (graded[i].status
            == Status::Passed || graded[i].status == Status::Failed)
}

/// The passed-trail entries one grading pass appends: one `name (+worth)`
/// entry per passed criterion, in order.
pub open spec fn pass_entries(cs: Seq<Criterion>) -> Seq<Seq<char>>
    decreases cs.len(),
{
    if cs.len() == 0 {
        Seq::empty()
    } else {
        pass_entries(cs.drop_last()) + if cs.last().status == Status::Passed {
            seq![plus_entry(cs.last().name@, cs.last().worth as int)]
        } else {
            Seq::<Seq<char>>::empty()
        }
    }
}

/// The failed-trail entries one grading pass appends: one `name (+0)`
/// entry per criterion that did not pass — failing withholds points, it
/// never subtracts them.
pub open spec fn fail_entries(cs: Seq<Criterion>) -> Seq<Seq<char>>
    decreases cs.len(),
{
    if cs.len() == 0 {
        Seq::empty()
    } else {
        fail_entries(cs.drop_last()) + if cs.last().status == Status::Passed {
            Seq::<Seq<char>>::empty()
        } else {
            seq![plus_entry(cs.last().name@, 0)]
        }
    }
}

/// What one grading pass at time `now` must not overflow: the penalty
/// arithmetic of the branch taken, and, when criteria are evaluated,
/// every partial sum a pass over them could reach.
pub open spec fn grading_requires(s: Submission, r: Rubric, now: i64) -> bool {
    if is_past(r.final_deadline, now) {
        true
    } else if is_past(r.deadline, now) {
        let g1 = s.grade - r.late_penalty;
        &&& in_isize(g1)
        &&& match r.deadline {
            Some(d) => r.daily_penalty != 0 ==> in_isize(
                r.daily_penalty * days_late(d as int, now as int),
            ) && in_isize(g1 - r.daily_penalty * days_late(d as int, now as int)),
            None => true,
        }
        &&& (r.allow_late ==> grade_bounds_ok(late_grade(s, r, now), sort_by_index(r.criteria@)))
    } else {
        grade_bounds_ok(s.grade as int, sort_by_index(r.criteria@))
    }
}

/// How one grading pass at time `now` relates the submission and rubric
/// before it to the pair after it.
///
/// A passed final deadline zeroes the grade, records one entry, touches
/// nothing else and evaluates no criterion. A passed primary deadline
/// marks the submission late and records the penalties; if late
/// submission is disallowed the grade is then zeroed and, again, no
/// criterion is evaluated. Otherwise the criteria run in stable
/// index-sorted order: each passed criterion adds its worth and one
/// passed-trail entry, each failed one adds a zero-delta failed-trail
/// entry.
pub open spec fn graded_rel(os: Submission, or: Rubric, fs: Submission, fr: Rubric, now: i64) -> bool {
    if is_past(or.final_deadline, now) {
        &&& fr == or
        &&& same_sub_core(os, fs)
        &&& fs.late == os.late
        &&& fs.grade == 0
        &&& str_views(fs.passed@) == str_views(os.passed@)
        &&& str_views(fs.failed@) == str_views(os.failed@).push(
            minus_entry("Past final deadline"@, os.grade as int),
        )
    } else if is_past(or.deadline, now) && !or.allow_late {
        &&& fr == or
        &&& same_sub_core(os, fs)
        &&& fs.late == true
        &&& fs.grade == 0
        &&& str_views(fs.passed@) == str_views(os.passed@)
        &&& str_views(fs.failed@) == late_failed(os, or, now).push(
            minus_entry("Past deadline"@, late_grade(os, or, now)),
        )
    } else {
        let g_mid = if is_past(or.deadline, now) {
            late_grade(os, or, now)
        } else {
            os.grade as int
        };
        let f_mid = if is_past(or.deadline, now) {
            late_failed(os, or, now)
        } else {
            str_views(os.failed@)
        };
        &&& same_policy(or, fr)
        &&& statuses_decided(sort_by_index(or.criteria@), fr.criteria@)
        &&& same_sub_core(os, fs)
        &&& fs.late == (os.late || is_past(or.deadline, now))
        &&& fs.grade == g_mid + sum_passed(fr.criteria@)
        &&& str_views(fs.passed@) == str_views(os.passed@) + pass_entries(fr.criteria@)
        &&& str_views(fs.failed@) == f_mid + fail_entries(fr.criteria@)
    }
}

/// `b` carries `a`'s time, data, timestamp format and fingerprint:
/// everything grading leaves alone.
pub open spec fn same_sub_core(a: Submission, b: Submission) -> bool {
    &&& a.time == b.time
    &&& a.data == b.data
    &&& a.timestamp_format == b.timestamp_format
    &&& a.fingerprint == b.fingerprint
}

/// One student's submission: a data payload, the accumulated grade, and
/// the audit trail grading writes.
#[derive(Debug)]
pub struct Submission {
    /// When the submission was created, as a Unix timestamp in seconds.
    pub time: i64,
    /// The accumulated grade; grading adds and subtracts here.
    pub grade: isize,
    /// The data the criteria are tested against.
    pub data: TestData,
    /// Whether the submission came in past the deadline.
    pub late: bool,
    /// The entries for passed criteria, in grading order.
    pub passed: Vec<String>,
    /// The entries for failed criteria and penalties, in grading order.
    pub failed: Vec<String>,
    /// How `as_csv` renders the timestamp.
    pub timestamp_format: String,
    /// An optional tamper-evidence marker.
    pub fingerprint: Option<Fingerprint>,
}

impl Submission {
    /// A fresh submission: empty data, grade zero, empty trails, not
    /// late, the default timestamp format, no fingerprint; its time is
    /// read from the clock.
    pub fn new() -> (s: Submission)
        ensures
            s.grade == 0,
            s.data@ == Seq::<crate::data::EntryView>::empty(),
            s.late == false,
            s.passed@ == Seq::<String>::empty(),
            s.failed@ == Seq::<String>::empty(),
            s.timestamp_format@ == "%F %a %T %:z"@,
            s.fingerprint is None,
    {
        let s = Submission {
            time: current_timestamp(),
            grade: 0,
            data: TestData::new(),
            late: false,
            passed: Vec::new(),
            failed: Vec::new(),
            timestamp_format: crate::default_timestamp_format(),
            fingerprint: None,
        };
        proof {
            assert(s.passed@ =~= Seq::<String>::empty());
            assert(s.failed@ =~= Seq::<String>::empty());
        }
        s
    }

    /// Replaces the submission's data payload.
    pub fn use_data(&mut self, data: TestData)
        ensures
            final(self).data == data,
            final(self).grade == old(self).grade,
            final(self).late == old(self).late,
            final(self).time == old(self).time,
            final(self).passed == old(self).passed,
            final(self).failed == old(self).failed,
            final(self).timestamp_format == old(self).timestamp_format,
            final(self).fingerprint == old(self).fingerprint,
    {
        self.data = data;
    }

    /// A fresh submission already carrying the given data.
    pub fn from_data(data: TestData) -> (s: Submission)
        ensures
            s.grade == 0,
            s.data == data,
            s.late == false,
            s.passed@ == Seq::<String>::empty(),
            s.failed@ == Seq::<String>::empty(),
            s.timestamp_format@ == "%F %a %T %:z"@,
            s.fingerprint is None,
    {
        let mut s = Submission::new();
        s.use_data(data);
        s
    }

    /// Attaches a tamper-evidence marker built from the shared secret and
    /// the platform name the caller detected.
    pub fn set_fingerprint(&mut self, secret: &str, platform: &str)
        ensures
            final(self).fingerprint matches Some(f) && f.secret@ == secret@ && f.platform@
                == platform@,
            final(self).grade == old(self).grade,
            final(self).data == old(self).data,
            final(self).late == old(self).late,
            final(self).time == old(self).time,
            final(self).passed == old(self).passed,
            final(self).failed == old(self).failed,
            final(self).timestamp_format == old(self).timestamp_format,
    {
        self.fingerprint = Some(Fingerprint::from_secret(secret, platform));
    }

    /// The submission's fingerprint, if one was set.
    pub fn fingerprint(&self) -> (f: &Option<Fingerprint>)
        ensures
            f == &self.fingerprint,
    {
        &self.fingerprint
    }

    /// Overrides the timestamp format used by `as_csv`.
    pub fn set_timestamp_format(&mut self, new_format: &str)
        ensures
            final(self).timestamp_format@ == new_format@,
            final(self).grade == old(self).grade,
            final(self).data == old(self).data,
            final(self).late == old(self).late,
            final(self).time == old(self).time,
            final(self).passed == old(self).passed,
            final(self).failed == old(self).failed,
            final(self).fingerprint == old(self).fingerprint,
    {
        self.timestamp_format = new_format.to_owned();
    }

    /// Records a criterion as passed, by name, verbatim.
    pub fn pass(&mut self, criterion: &str)
        ensures
            str_views(final(self).passed@) == str_views(old(self).passed@).push(criterion@),
            final(self).failed == old(self).failed,
            final(self).grade == old(self).grade,
            final(self).late == old(self).late,
            same_sub_core(*old(self), *final(self)),
    {
        self.passed.push(criterion.to_owned());
        proof {
            assert(str_views(self.passed@) =~= str_views(old(self).passed@).push(criterion@));
        }
    }

    /// Records a criterion as failed, by name, verbatim.
    pub fn fail(&mut self, criterion: &str)
        ensures
            str_views(final(self).failed@) == str_views(old(self).failed@).push(criterion@),
            final(self).passed == old(self).passed,
            final(self).grade == old(self).grade,
            final(self).late == old(self).late,
            same_sub_core(*old(self), *final(self)),
    {
        self.failed.push(criterion.to_owned());
        proof {
            assert(str_views(self.failed@) =~= str_views(old(self).failed@).push(criterion@));
        }
    }

    /// Adds to the grade and records why.
    fn addition(&mut self, to_add: isize, message: &str)
        requires
            in_isize(old(self).grade + to_add),
        ensures
            final(self).grade == old(self).grade + to_add,
            str_views(final(self).passed@) == str_views(old(self).passed@).push(
                plus_entry(message@, to_add as int),
            ),
            final(self).failed == old(self).failed,
            final(self).late == old(self).late,
            same_sub_core(*old(self), *final(self)),
    {
        self.grade = self.grade + to_add;
        self.passed.push(plus_entry_text(message, to_add));
        proof {
            assert(str_views(self.passed@) =~= str_views(old(self).passed@).push(
                plus_entry(message@, to_add as int),
            ));
        }
    }

    /// Subtracts from the grade and records why.
    fn penalty(&mut self, to_penalize: isize, message: &str)
        requires
            in_isize(old(self).grade - to_penalize),
        ensures
            final(self).grade == old(self).grade - to_penalize,
            str_views(final(self).failed@) == str_views(old(self).failed@).push(
                minus_entry(message@, to_penalize as int),
            ),
            final(self).passed == old(self).passed,
            final(self).late == old(self).late,
            same_sub_core(*old(self), *final(self)),
    {
        self.grade = self.grade - to_penalize;
        self.failed.push(minus_entry_text(message, to_penalize));
        proof {
            assert(str_views(self.failed@) =~= str_views(old(self).failed@).push(
                minus_entry(message@, to_penalize as int),
            ));
        }
    }

    /// Records a failed criterion: a zero-delta entry, no point change.
    fn no_credit(&mut self, message: &str)
        ensures
            str_views(final(self).failed@) == str_views(old(self).failed@).push(
                plus_entry(message@, 0),
            ),
            final(self).passed == old(self).passed,
            final(self).grade == old(self).grade,
            final(self).late == old(self).late,
            same_sub_core(*old(self), *final(self)),
    {
        self.failed.push(plus_entry_text(message, 0));
        proof {
            assert(str_views(self.failed@) =~= str_views(old(self).failed@).push(
                plus_entry(message@, 0),
            ));
        }
    }

    /// Grades this submission against the rubric as of the given time:
    /// applies the deadline policy, then runs the criteria in stable
    /// index-sorted order, accumulating grade and trail.
    pub fn grade_against_at(&mut self, rubric: &mut Rubric, now: i64)
        requires
            grading_requires(*old(self), *old(rubric), now),
        ensures
            graded_rel(*old(self), *old(rubric), *final(self), *final(rubric), now),
    {
        if rubric.past_final_deadline_at(now) {
            let g = self.grade;
            self.penalty(g, "Past final deadline");
            return;
        }
        if rubric.past_due_at(now) {
            self.late = true;
            let lp = rubric.late_penalty;
            self.penalty(lp, "Late submission");
            if rubric.daily_penalty != 0 {
                let deadline = match rubric.deadline {
                    Some(d) => d,
                    None => 0,  // unreachable: past_due_at demands a deadline
                };
                let days = days_between(deadline, now);
                let dp: isize = ((rubric.daily_penalty as i128) * (days as i128)) as isize;
                let mut day_msg = i64_to_string(days);
                day_msg.append(" days late");
                self.penalty(dp, day_msg.as_str());
            }
            if !rubric.allow_late {
                let g = self.grade;
                self.penalty(g, "Past deadline");
                return;
            }
        }
        let ghost os = *old(self);
        let ghost or = *old(rubric);
        let ghost g_mid_spec: int = if is_past(or.deadline, now) {
            late_grade(os, or, now)
        } else {
            os.grade as int
        };
        let ghost f_mid = if is_past(or.deadline, now) {
            late_failed(os, or, now)
        } else {
            str_views(os.failed@)
        };
        let ghost p0 = str_views(os.passed@);
        let ghost sorted0 = sort_by_index(or.criteria@);
        let ghost late_now = self.late;
        proof {
            assert(self.grade as int == g_mid_spec);
            assert(str_views(self.failed@) =~= f_mid);
        }
        sort_criteria(&mut rubric.criteria);
        let ghost g_mid = self.grade;
        let n = rubric.criteria.len();
        let mut i: usize = 0;
        while i < n
            invariant
                0 <= i <= n,
                n == rubric.criteria@.len(),
                rubric.criteria@.len() == sorted0.len(),
                sorted0 == sort_by_index(or.criteria@),
                or == *old(rubric),
                os == *old(self),
                same_policy(or, *rubric),
                g_mid as int == g_mid_spec,
                grade_bounds_ok(g_mid as int, sorted0),
                forall|j: int| i <= j < sorted0.len() ==> rubric.criteria@[j] == sorted0[j],
                forall|j: int|
                    0 <= j < i ==> same_but_status(sorted0[j], #[trigger] rubric.criteria@[j]) && (
                    rubric.criteria@[j].status == Status::Passed || rubric.criteria@[j].status
                        == Status::Failed),
                self.grade as int == g_mid + sum_passed(rubric.criteria@.take(i as int)),
                str_views(self.passed@) == p0 + pass_entries(rubric.criteria@.take(i as int)),
                str_views(self.failed@) == f_mid + fail_entries(rubric.criteria@.take(i as int)),
                self.late == late_now,
                late_now == (os.late || is_past(or.deadline, now)),
                p0 == str_views(os.passed@),
                f_mid == if is_past(or.deadline, now) {
                    late_failed(os, or, now)
                } else {
                    str_views(os.failed@)
                },
                g_mid_spec == if is_past(or.deadline, now) {
                    late_grade(os, or, now)
                } else {
                    os.grade as int
                },
                same_sub_core(os, *self),
                !is_past(or.final_deadline, now),
                is_past(or.deadline, now) ==> or.allow_late,
            decreases n - i,
        {
            let ghost before = rubric.criteria@;
            let passed_check: bool;
            let w: isize;
            let name_copy: String;
            {
                let c = vstd::std_specs::vec::vec_index_mut(&mut rubric.criteria, i);
                passed_check = c.test_with_data(&self.data);
                w = c.worth;
                name_copy = c.name.as_str().to_owned();
            }
            proof {
                assert(rubric.criteria@ == before.update(
                    i as int,
                    rubric.criteria@[i as int],
                ));
                assert(same_but_status(sorted0[i as int], rubric.criteria@[i as int]));
                assert(rubric.criteria@.take(i as int) =~= before.take(i as int));
                let t = rubric.criteria@.take(i + 1 as int);
                assert(t.drop_last() =~= rubric.criteria@.take(i as int));
                assert(t.last() == rubric.criteria@[i as int]);
                assert forall|j: int| 0 <= j < i + 1 implies (#[trigger] t[j]).worth
                    == sorted0.take(i + 1 as int)[j].worth by {
                    assert(t[j] == rubric.criteria@[j]);
                }
                lemma_sum_passed_bounds(t, sorted0.take(i + 1 as int));
                assert(isize::MIN <= g_mid + sum_neg_of_prefix(sorted0, i + 1 as int));
                assert(g_mid + sum_pos_of_prefix(sorted0, i + 1 as int) <= isize::MAX);
            }
            if passed_check {
                self.addition(w, name_copy.as_str());
            } else {
                self.no_credit(name_copy.as_str());
            }
            proof {
                let t = rubric.criteria@.take(i + 1 as int);
                assert(t.drop_last() =~= rubric.criteria@.take(i as int));
                assert(t.last() == rubric.criteria@[i as int]);
                assert(str_views(self.passed@) =~= p0 + pass_entries(t));
                assert(str_views(self.failed@) =~= f_mid + fail_entries(t));
            }
            i = i + 1;
        }
        proof {
            assert(rubric.criteria@.take(n as int) =~= rubric.criteria@);
        }
    }

    /// Grades this submission against the rubric at the current time.
    /// The caller cannot know what the clock reads, so the overflow room
    /// of `grading_requires` must hold whatever the time is; with no
    /// deadline configured this reduces to room for the criteria sums.
    /// `grade_against_at` is the precise entry point.
    pub fn grade_against(&mut self, rubric: &mut Rubric)
        requires
            forall|now: i64| grading_requires(*old(self), *old(rubric), now),
        ensures
            exists|now: i64| graded_rel(*old(self), *old(rubric), *final(self), *final(rubric), now),
    {
        let now = current_timestamp();
        self.grade_against_at(rubric, now);
    }

    /// The submission's CSV line: timestamp, late flag, grade, the two
    /// trails joined with semicolons, the data map's sorted values, and
    /// the fingerprint cells when one is set.
    pub fn csv_line(&self) -> (r: String)
        ensures
            r@ == submission_csv(*self),
    {
        let mut r = format_timestamp(self.time, self.timestamp_format.as_str());
        r.append(",");
        r.append(if self.late {
            "true"
        } else {
            "false"
        });
        r.append(",");
        r.append(i64_to_string(self.grade as i64).as_str());
        r.append(",");
        r.append(join_strings(&self.passed, ";").as_str());
        r.append(",");
        r.append(join_strings(&self.failed, ";").as_str());
        r.append(",");
        r.append(self.data.csv_values().as_str());
        if let Some(fp) = &self.fingerprint {
            r.append(",");
            r.append(fp.as_csv().as_str());
        }
        proof {
            reveal_strlit(",");
            reveal_strlit(";");
            assert(","@ =~= seq![',']);
            assert(";"@ =~= seq![';']);
        }
        r
    }

    /// The header matching `csv_line`'s column order.
    pub fn csv_header(&self) -> (r: String)
        ensures
            r@ == submission_header(*self),
    {
        let mut r = "time,late,grade,passed,failed,".to_owned();
        r.append(self.data.csv_header().as_str());
        if self.fingerprint.is_some() {
            r.append(",");
            r.append("secret,platform");
        }
        proof {
            reveal_strlit(",");
            assert(","@ =~= seq![',']);
        }
        r
    }
}

/// `sum_neg` of the first `i` elements.
pub open spec fn sum_neg_of_prefix(s: Seq<Criterion>, i: int) -> int {
    crate::criteria::sum_neg(s.take(i))
}

/// `sum_pos` of the first `i` elements.
pub open spec fn sum_pos_of_prefix(s: Seq<Criterion>, i: int) -> int {
    crate::criteria::sum_pos(s.take(i))
}

/// `true` or `false`, as written into a CSV cell.
pub open spec fn bool_str(b: bool) -> Seq<char> {
    if b {
        "true"@
    } else {
        "false"@
    }
}

/// The CSV line of a submission: timestamp, late flag, grade, trails,
/// data values, fingerprint.
pub open spec fn submission_csv(s: Submission) -> Seq<char> {
    let base = chrono_format(s.time as int, s.timestamp_format@) + seq![','] + bool_str(s.late)
        + seq![','] + dec_str(s.grade as int) + seq![','] + join_with(
        str_views(s.passed@),
        seq![';'],
    ) + seq![','] + join_with(str_views(s.failed@), seq![';']) + seq![','] + data_csv_line(s.data@);
    match s.fingerprint {
        Some(fp) => base + seq![','] + fingerprint_csv(fp),
        None => base,
    }
}

/// The header matching `submission_csv`.
pub open spec fn submission_header(s: Submission) -> Seq<char> {
    let base = "time,late,grade,passed,failed,"@ + data_header_line(s.data@);
    match s.fingerprint {
        Some(fp) => base + seq![','] + "secret,platform"@,
        None => base,
    }
}

impl AsCsv for Submission {
    /// The submission's values as one CSV line; the data map's entries
    /// are sorted by key.
    fn as_csv(&self) -> (r: String)
        ensures
            r@ == submission_csv(*self),
    {
        self.csv_line()
    }

    /// Where submissions are collected.
    fn filename(&self) -> (r: String)
        ensures
            r@ == "submissions.csv"@,
    {
        "submissions.csv".to_owned()
    }

    /// The header matching `as_csv`'s column order.
    fn header(&self) -> (r: String)
        ensures
            r@ == submission_header(*self),
    {
        self.csv_header()
    }
}

} // verus!
verus! {

/// One day late is one day, not zero: any lateness within the first
/// twenty-four hours counts as a single day.
pub proof fn lemma_first_day_counts(deadline: int, now: int)
    requires
        0 < now - deadline < 86400,
    ensures
        days_late(deadline, now) == 1,
{
    vstd::arithmetic::div_mod::lemma_basic_div(now - deadline, 86400);
}

/// Each further started day adds one: twenty-five hours late is two days.
pub proof fn lemma_second_day_counts(deadline: int, now: int)
    requires
        86400 <= now - deadline < 172800,
    ensures
        days_late(deadline, now) == 2,
{
    let x = now - deadline;
    vstd::arithmetic::div_mod::lemma_basic_div(x - 86400, 86400);
    assert(x == 86400 + (x - 86400));
    vstd::arithmetic::div_mod::lemma_div_plus_one(x - 86400, 86400);
    assert((x - 86400 + 86400) / 86400 == (x - 86400) / 86400 + 1);
}

/// The terminal short-circuit: once the final deadline has passed, one
/// grading pass makes the grade exactly zero, whatever the criteria and
/// their checks, and leaves the rubric — every criterion status included —
/// untouched.
pub proof fn lemma_final_deadline_short_circuit(
    os: Submission,
    or: Rubric,
    fs: Submission,
    fr: Rubric,
    now: i64,
)
    requires
        graded_rel(os, or, fs, fr, now),
        is_past(or.final_deadline, now),
    ensures
        fs.grade == 0,
        fr == or,
{
}

/// Grading is additive by pass and zero by fail: when no deadline fired,
/// one grading pass changes the grade by exactly the sum of the worths of
/// the criteria that passed — each passed criterion contributes its
/// worth, each failed one contributes nothing.
pub proof fn lemma_grading_additive(
    os: Submission,
    or: Rubric,
    fs: Submission,
    fr: Rubric,
    now: i64,
)
    requires
        graded_rel(os, or, fs, fr, now),
        !is_past(or.final_deadline, now),
        !is_past(or.deadline, now),
    ensures
        fs.grade - os.grade == sum_passed(fr.criteria@),
        statuses_decided(sort_by_index(or.criteria@), fr.criteria@),
{
}

} // verus!
