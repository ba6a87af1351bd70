use rubric::clock::format_timestamp;
use rubric::yaml::{CriterionYaml, RubricYaml};
use rubric::{AsCsv, Check, Rubric, Status, Submission, TestData};

struct AlwaysTrue;

impl Check for AlwaysTrue {
    fn passes(&self, _data: &TestData) -> bool {
        true
    }
}

fn bare_criterion(func: &str, worth: isize, index: Option<i64>) -> CriterionYaml {
    CriterionYaml {
        stub: Some(String::from(func)),
        index,
        desc: Some(String::from("a short desc")),
        worth,
        messages: Some((String::from("success"), String::from("failure"))),
        hide: Some(false),
    }
}

/// The declarative document the grading tests run against: two criteria
/// worth 50 and 30, no deadline.
fn test_rubric() -> Rubric {
    Rubric::from_yaml(RubricYaml {
        name: String::from("Test Rubric"),
        desc: Some(String::from("here's a short description")),
        criteria: vec![
            (String::from("First Criterion"), bare_criterion("first_crit", 50, Some(0))),
            (String::from("Second Criterion"), bare_criterion("second_crit", 30, None)),
        ],
        total: Some(80),
        deadline: None,
        final_deadline: None,
        allow_late: None,
        late_penalty: None,
        late_penalty_per_day: None,
    })
}

/// A rubric whose deadline passed long ago; late submission is allowed
/// with a five point penalty.
fn past_due_rubric() -> Rubric {
    Rubric::from_yaml(RubricYaml {
        name: String::from("Past due"),
        desc: None,
        criteria: vec![],
        total: None,
        deadline: Some(1555779600),
        final_deadline: None,
        allow_late: Some(true),
        late_penalty: Some(5),
        late_penalty_per_day: None,
    })
}

#[test]
fn test_new_submission() {
    let sub = Submission::new();
    assert!(sub.data.len() == 0);
}

#[test]
fn test_submission_use_data() {
    let mut data = TestData::new();
    data.insert(String::from("key"), String::from("value"));
    let mut sub = Submission::new();
    sub.use_data(data);
    assert!(sub.data.len() == 1);
    assert_eq!(sub.data.get("key").unwrap().as_str(), "value");

    let mut data2 = TestData::new();
    data2.insert(String::from("key"), String::from("value"));
    let sub2 = Submission::from_data(data2);
    assert_eq!(sub2.data.get("key").unwrap().as_str(), "value");
}

#[test]
fn test_submission_as_csv() {
    let mut data = TestData::new();
    data.insert(String::from("a"), String::from("v"));
    data.insert(String::from("b"), String::from("v2"));
    let sub = Submission::from_data(data);

    // data values are sorted alphabetically by key when converting to csv
    assert!(sub.as_csv().contains("v,v2"));

    // a submission with no data, passes, or failures
    let sub2 = Submission::new();
    let expected = "0,,,";
    assert!(sub2.as_csv().contains(expected));
}

#[test]
fn test_grade_against_rubric() {
    let mut rubric = test_rubric();
    rubric.get("first_crit").unwrap().attach(Box::new(AlwaysTrue));

    let mut sub = Submission::new();

    sub.grade_against(&mut rubric);
    assert_eq!(sub.grade, 50);
}

#[test]
fn test_test_data_as_csv() {
    let mut d = TestData::new();
    d.insert(String::from("b2"), String::from("value2"));
    d.insert(String::from("a1"), String::from("value1"));

    let expected_header = "a1,b2";
    let expected_values = "value1,value2";
    let expected_filename = "submission_data.csv";

    assert_eq!(d.header().as_str(), expected_header);
    assert_eq!(d.as_csv().as_str(), expected_values);
    assert_eq!(d.filename().as_str(), expected_filename);
}

#[test]
fn test_as_csv_replaces_commas() {
    let mut data = TestData::new();
    data.insert(String::from("key"), String::from("value with, comma"));
    let sub = Submission::from_data(data);

    assert!(sub.as_csv().contains("value with; comma"));
}

#[test]
fn test_test_data_gets_sorted() {
    let mut data = TestData::new();
    data.insert(String::from("a"), String::from("something"));
    data.insert(String::from("b"), String::from("else"));

    let csv = data.as_csv();
    assert!(csv.contains("something,else"));
}

#[test]
fn test_custom_timestamp_format() {
    let mut sub = Submission::new();
    assert_eq!(sub.timestamp_format.as_str(), "%F %a %T %:z");
    assert!(format_timestamp(sub.time, sub.timestamp_format.as_str()).len() > 0);

    sub.set_timestamp_format("some other format");
    assert_eq!(sub.timestamp_format.as_str(), "some other format");
}

#[test]
fn test_grading_past_due() {
    let mut past_due = past_due_rubric();

    let mut sub = Submission::new();

    // this rubric allows late submission, with a 5 point penalty
    assert_eq!(sub.grade, 0);
    sub.grade_against(&mut past_due);
    assert_eq!(sub.grade, -5);
    assert!(sub.late);
}

#[test]
fn test_add_fingerprint() {
    let mut sub = Submission::new();
    assert!(sub.fingerprint().is_none());
    sub.set_fingerprint("secret key", "testbox");
    assert!(sub.fingerprint().is_some());
}

#[test]
fn test_submission_as_csv_with_fingerprint() {
    let mut sub = Submission::new();
    sub.set_fingerprint("secret key", "testbox");
    assert!(sub.header().contains("secret,platform"));
    assert!(sub.as_csv().contains("secret key,testbox"));
}

#[test]
fn test_pass_and_fail_record_names_verbatim() {
    let mut sub = Submission::new();
    sub.pass("Some criterion name");
    sub.fail("Another criterion name");
    assert!(sub.passed.iter().any(|e| e == "Some criterion name"));
    assert!(sub.failed.iter().any(|e| e == "Another criterion name"));
}

#[test]
fn test_grading_visits_criteria_in_index_order() {
    let mut rubric = test_rubric();
    rubric.get("first_crit").unwrap().attach(Box::new(AlwaysTrue));
    rubric.get("second_crit").unwrap().attach(Box::new(AlwaysTrue));

    let mut sub = Submission::new();
    sub.grade_against(&mut rubric);

    // first_crit has index 0, second_crit the default 100
    assert_eq!(sub.grade, 80);
    assert_eq!(sub.passed.len(), 2);
    assert!(sub.passed[0].contains("First Criterion"));
    assert!(sub.passed[1].contains("Second Criterion"));
    assert!(rubric.criteria().iter().all(|c| matches!(c.status, Status::Passed)));
}

#[test]
fn test_rubric_past_due() {
    let ok_rubric = test_rubric();
    assert!(!ok_rubric.past_due());

    let old_rubric = past_due_rubric();
    assert!(old_rubric.past_due());
}
