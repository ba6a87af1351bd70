use rubric::{Check, Criteria, Criterion, TestData};

struct AlwaysTrue;

impl Check for AlwaysTrue {
    fn passes(&self, _data: &TestData) -> bool {
        true
    }
}

#[test]
fn test_build_criteria() {
    let loose = vec![
        Criterion::new("test 1").build(),
        Criterion::new("test 2").build(),
    ];
    let criteria = Criteria::from(loose);
    assert!(criteria.0.len() == 2);
}

#[test]
fn test_build_from_vec() {
    let criteria = Criteria::from(vec![
        Criterion::new("test 1").build(),
        Criterion::new("test 2").build(),
    ]);
    assert!(criteria.0.len() == 2);
}

#[test]
fn test_len() {
    let criteria = Criteria::from(vec![
        Criterion::new("test 1").build(),
        Criterion::new("test 2").build(),
    ]);
    assert!(criteria.len() == 2);
    assert!(criteria.0.len() == criteria.len());
}

#[test]
fn test_add_criterion() {
    let mut criteria = Criteria::from(vec![
        Criterion::new("test 1").build(),
        Criterion::new("test 2").build(),
    ]);

    assert!(criteria.len() == 2);

    criteria.add(Criterion::new("test 3").build());

    assert!(criteria.len() == 3);
}

#[test]
fn test_total_points() {
    let criteria = Criteria::from(vec![
        Criterion::new("test 1").worth(15).build(),
        Criterion::new("test 2").worth(5).build(),
    ]);
    assert!(criteria.total_points() == 20);
}

#[test]
fn test_get_criterion() {
    let expected = "test 1";
    let crit1 = Criterion::new("test 1").stub("test1").build();
    let crit2 = Criterion::new("test 2").stub("test2").build();
    let mut criteria = Criteria::from(vec![crit1, crit2]);
    if let Some(found) = criteria.get("test1") {
        assert_eq!(found.name.as_str(), expected);
    }
    assert!(criteria.get("test1").is_some());
    assert!(criteria.get("doesnt-exist").is_none());
}

#[test]
fn test_attach_runs_new_check() {
    let mut criteria = Criteria::from(vec![
        Criterion::new("test 1").stub("test1").build(),
    ]);
    assert!(!criteria.get("test1").unwrap().test());
    criteria.attach("test1", Box::new(AlwaysTrue));
    assert!(criteria.get("test1").unwrap().test());
}

#[test]
fn test_sorted_is_stable_by_index() {
    let mut criteria = Criteria::from(vec![
        Criterion::new("third").stub("c").index(9).build(),
        Criterion::new("first").stub("a").index(1).build(),
        Criterion::new("tied with first").stub("b").index(1).build(),
    ]);
    let sorted = criteria.sorted();
    let names: Vec<&str> = sorted.iter().map(|c| c.name.as_str()).collect();
    assert_eq!(names, vec!["first", "tied with first", "third"]);
}

#[test]
fn test_points_before_grading_is_zero() {
    let criteria = Criteria::from(vec![
        Criterion::new("test 1").worth(15).build(),
        Criterion::new("test 2").worth(5).build(),
    ]);
    assert_eq!(criteria.points(), 0);
}
