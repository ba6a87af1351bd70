use rubric::CriterionBuilder;

#[test]
fn test_with_name() {
    let cb = CriterionBuilder::new("my crit");
    assert_eq!(cb.name.as_str(), "my crit");
    assert_eq!(cb.worth, 0);

    assert_eq!(cb.messages, ("passed".to_string(), "failed".to_string()));

    assert!(cb.func.is_none());
    assert!(cb.desc.is_none());
    assert!(cb.test.is_none());
    assert!(!cb.hide);
}

#[test]
fn test_default_values() {
    let crit = CriterionBuilder::new("My Crit").build();
    assert_eq!(crit.name.as_str(), "My Crit");
    assert_eq!(crit.func.as_str(), "my_crit");
    assert_eq!(crit.messages.0.as_str(), "passed");
    assert_eq!(crit.messages.1.as_str(), "failed");
    assert!(crit.desc.is_none());
    assert!(!crit.hide);
}

#[test]
fn test_build_parameters() {
    let crit = CriterionBuilder::new("My crit")
        .func("my_func")
        .messages("success", "failed :(")
        .desc("Here's my desc")
        .hidden(true)
        .build();

    assert_eq!(crit.name.as_str(), "My crit");
    assert_eq!(crit.func.as_str(), "my_func");
    assert_eq!(crit.messages, ("success".to_string(), "failed :(".to_string()));
    assert_eq!(crit.desc.unwrap().as_str(), "Here's my desc");
    assert!(crit.hide);
}

#[test]
fn test_build() {
    let cb = CriterionBuilder::new("my crit");
    let crit = cb.build();
    assert_eq!(crit.name.as_str(), "my crit");
}

#[test]
fn test_default_func() {
    let crit = CriterionBuilder::new("My crit 1").build();
    assert_eq!(crit.func.as_str(), "my_crit_1");

    let crit2 = CriterionBuilder::new("MY CRIT    2").build();
    assert_eq!(crit2.func.as_str(), "my_crit_2");
}

#[test]
fn test_stub_is_func() {
    let crit = CriterionBuilder::new("my crit").stub("my-stub").build();
    assert_eq!(crit.func.as_str(), "my-stub");
}
