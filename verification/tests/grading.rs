//! End-to-end grading scenarios: deadline penalties, the terminal
//! short-circuit, the day-count arithmetic, and the collection log.

use rubric::dropbox::Dropbox;
use rubric::yaml::{total_mismatch, CriterionYaml, RubricYaml};
use rubric::{Check, Criterion, Error, ErrorKind, Rubric, Status, Submission, TestData};

struct PassesWhenKeyed;

impl Check for PassesWhenKeyed {
    fn passes(&self, data: &TestData) -> bool {
        data.get("key").is_some()
    }
}

fn record(func: &str, worth: isize) -> CriterionYaml {
    CriterionYaml {
        stub: Some(String::from(func)),
        index: None,
        desc: None,
        worth,
        messages: None,
        hide: None,
    }
}

fn rubric_with(
    criteria: Vec<(String, CriterionYaml)>,
    deadline: Option<i64>,
    final_deadline: Option<i64>,
    allow_late: bool,
    late_penalty: isize,
    daily_penalty: isize,
) -> Rubric {
    Rubric::from_yaml(RubricYaml {
        name: String::from("scenario"),
        desc: None,
        criteria,
        total: None,
        deadline,
        final_deadline,
        allow_late: Some(allow_late),
        late_penalty: Some(late_penalty),
        late_penalty_per_day: Some(daily_penalty),
    })
}

const NOW: i64 = 1700000000;

/// Two criteria worth 10 and 15; the first passes, the second fails:
/// grade 10, one "+10" entry passed, one "+0" entry failed.
#[test]
fn scenario_two_criteria_no_deadline() {
    let mut rubric = rubric_with(
        vec![
            (String::from("Keyed"), record("keyed", 10)),
            (String::from("Unkeyed"), record("unkeyed", 15)),
        ],
        None,
        None,
        true,
        0,
        0,
    );
    rubric.get("keyed").unwrap().attach(Box::new(PassesWhenKeyed));
    // "unkeyed" keeps its default check, which always fails

    let mut data = TestData::new();
    data.insert(String::from("key"), String::from("present"));
    let mut sub = Submission::from_data(data);
    sub.grade_against_at(&mut rubric, NOW);

    assert_eq!(sub.grade, 10);
    assert_eq!(sub.passed.len(), 1);
    assert!(sub.passed[0].contains("+10"));
    assert_eq!(sub.failed.len(), 1);
    assert!(sub.failed[0].contains("+0"));
}

/// A past deadline with late submission allowed: flat penalty applies,
/// the submission is marked late.
#[test]
fn scenario_late_allowed() {
    let mut rubric = rubric_with(vec![], Some(NOW - 50), None, true, 5, 0);
    let mut sub = Submission::new();
    sub.grade_against_at(&mut rubric, NOW);

    assert_eq!(sub.grade, -5);
    assert!(sub.late);
}

/// The same rubric with late submission disallowed: the grade is zeroed
/// and no criterion is evaluated.
#[test]
fn scenario_late_disallowed() {
    let mut rubric = rubric_with(
        vec![(String::from("Never run"), record("never_run", 10))],
        Some(NOW - 50),
        None,
        false,
        5,
        0,
    );
    rubric.get("never_run").unwrap().attach(Box::new(PassesWhenKeyed));
    let mut sub = Submission::new();
    sub.grade_against_at(&mut rubric, NOW);

    assert_eq!(sub.grade, 0);
    assert!(sub.late);
    assert!(rubric.criteria().iter().all(|c| matches!(c.status, Status::Untested)));
}

/// A passed final deadline short-circuits: the grade is exactly zero and
/// no criterion's status changes, whatever the criteria.
#[test]
fn scenario_final_deadline_short_circuit() {
    let mut rubric = rubric_with(
        vec![
            (String::from("One"), record("one", 40)),
            (String::from("Two"), record("two", 60)),
        ],
        Some(NOW - 100),
        Some(NOW - 50),
        true,
        5,
        2,
    );
    let mut data = TestData::new();
    data.insert(String::from("key"), String::from("present"));
    let mut sub = Submission::from_data(data);
    sub.grade = 17;
    sub.grade_against_at(&mut rubric, NOW);

    assert_eq!(sub.grade, 0);
    assert!(!sub.late);
    assert!(rubric.criteria().iter().all(|c| matches!(c.status, Status::Untested)));
    assert_eq!(sub.failed.len(), 1);
    assert!(sub.failed[0].contains("Past final deadline"));
}

/// One second late counts as one whole day; twenty-five hours counts as
/// two.
#[test]
fn scenario_day_counts() {
    let mut rubric = rubric_with(vec![], Some(NOW - 1), None, true, 5, 2);
    let mut sub = Submission::new();
    sub.grade_against_at(&mut rubric, NOW);
    assert_eq!(sub.grade, -7);  // 5 flat + 2 * 1 day
    assert!(sub.failed.iter().any(|e| e.contains("1 days late (-2)")));

    let mut rubric2 = rubric_with(vec![], Some(NOW - 90000), None, true, 5, 2);
    let mut sub2 = Submission::new();
    sub2.grade_against_at(&mut rubric2, NOW);
    assert_eq!(sub2.grade, -9);  // 5 flat + 2 * 2 days
    assert!(sub2.failed.iter().any(|e| e.contains("2 days late (-4)")));
}

/// A fresh rubric has no points and every criterion untested; the total
/// never depends on grading state.
#[test]
fn scenario_untouched_rubric() {
    let rubric = rubric_with(
        vec![
            (String::from("One"), record("one", 40)),
            (String::from("Two"), record("two", 60)),
        ],
        None,
        None,
        true,
        0,
        0,
    );
    assert_eq!(rubric.points(), 0);
    assert_eq!(rubric.total_points(), 100);
    assert_eq!(rubric.total, 100);
    assert!(rubric.criteria().iter().all(|c| matches!(c.status, Status::Untested)));
}

/// A declared total that disagrees with the computed one is reported, as
/// a warning, never an error.
#[test]
fn scenario_total_mismatch_is_reported() {
    let records = vec![
        (String::from("One"), record("one", 40)),
        (String::from("Two"), record("two", 60)),
    ];
    assert_eq!(total_mismatch(&records, &Some(80)), Some((80, 100)));
    assert_eq!(total_mismatch(&records, &Some(100)), None);
    assert_eq!(total_mismatch(&records, &None), None);
}

/// Grading a rubric with a negative worth subtracts when that criterion
/// passes.
#[test]
fn scenario_negative_worth() {
    let mut rubric = rubric_with(
        vec![(String::from("Deduction"), record("deduction", -3))],
        None,
        None,
        true,
        0,
        0,
    );
    rubric.get("deduction").unwrap().attach(Box::new(PassesWhenKeyed));
    let mut data = TestData::new();
    data.insert(String::from("key"), String::from("x"));
    let mut sub = Submission::from_data(data);
    sub.grade_against_at(&mut rubric, NOW);
    assert_eq!(sub.grade, -3);
}

/// Accepting submissions into an initially empty results file writes one
/// header line, then one record line per submission.
#[test]
fn scenario_collection_log() {
    let mut dropbox = Dropbox::new();
    let mut log = String::new();
    log.push_str(&dropbox.accept(&Submission::new()));
    log.push_str(&dropbox.accept(&Submission::new()));
    log.push_str(&dropbox.accept(&Submission::new()));

    let lines: Vec<&str> = log.lines().collect();
    assert_eq!(lines.len(), 4);
    assert!(lines[0].starts_with("time,late,grade,passed,failed"));
    assert!(lines.iter().skip(1).all(|l| !l.starts_with("time,late,grade")));
}

/// The error texts carry the identifier or the document position.
#[test]
fn scenario_error_messages() {
    let e = Error::stub_not_found("missing_crit");
    assert!(matches!(e.kind(), ErrorKind::StubNotFound(_)));
    assert_eq!(e.message().as_str(), "criterion with stub 'missing_crit' not found");

    let b = Error::bad_yaml(3, 14);
    assert_eq!(b.message().as_str(), "Bad yaml at line 3, col 14");
}

/// The batch layer mirrors the rubric layer for criteria without policy.
#[test]
fn scenario_batch_attach() {
    let mut batch = rubric::Batch::from_yaml(rubric::yaml::BatchYaml {
        name: String::from("Test batch"),
        desc: Some(String::from("short desc")),
        criteria: vec![(String::from("First Criterion"), record("first-crit", 50))],
        total: Some(50),
    });
    assert_eq!(batch.name.as_str(), "Test batch");
    assert_eq!(batch.len(), 1);
    assert!(!batch.get("first-crit").unwrap().test());
    assert!(batch.attach("first-crit", Box::new(PassesWhenKeyed)).is_ok());
    assert!(batch.attach("no-such-crit", Box::new(PassesWhenKeyed)).is_err());
    let c = Criterion::new("extra").worth(5).build();
    batch.add(c);
    assert_eq!(batch.total_points(), 55);
}
