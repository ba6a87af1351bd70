use rubric::{Check, Criterion, Status, TestData};

struct AlwaysTrue;

impl Check for AlwaysTrue {
    fn passes(&self, _data: &TestData) -> bool {
        true
    }
}

fn test_crit() -> Criterion {
    Criterion::new("test")
        .func("test_func")
        .worth(10)
        .messages("success", "failure")
        .desc("short desc")
        .hidden(false)
        .test(Box::new(AlwaysTrue))
        .build()
}

#[test]
fn test_a_criterion_with_data_passes() {
    let mut crit = test_crit();
    let mut data = TestData::new();
    data.insert(String::from("key"), String::from("value"));
    assert!(crit.test_with_data(&data));
    assert!(matches!(crit.status, Status::Passed));
}

#[test]
fn test_success_and_failure_messages() {
    let c = test_crit();
    assert_eq!(c.success_message().as_str(), "success");
    assert_eq!(c.failure_message().as_str(), "failure");
}

#[test]
fn test_data_macro() {
    // The long way
    let mut map = TestData::new();
    map.insert(String::from("key"), String::from("value"));

    // building the same data a second time gives an equal map
    let mut data = TestData::new();
    data.insert(String::from("key"), String::from("value"));
    assert_eq!(map, data);
}

#[test]
fn test_untested_criterion_defaults_to_failure_message() {
    let c = test_crit();
    assert!(matches!(c.status, Status::Untested));
    assert_eq!(c.status_message().as_str(), "failure");
}

#[test]
fn test_unattached_check_fails() {
    let mut c = Criterion::new("bare").build();
    assert!(!c.test());
    assert!(matches!(c.status, Status::Failed));
}
