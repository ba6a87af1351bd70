//! The CSV codec's determinism: column order never depends on how the
//! data map was built.

use rubric::{AsCsv, TestData};

#[test]
fn csv_is_insertion_order_independent() {
    let mut one = TestData::new();
    one.insert(String::from("b"), String::from("2"));
    one.insert(String::from("a"), String::from("1"));

    let mut other = TestData::new();
    other.insert(String::from("a"), String::from("1"));
    other.insert(String::from("b"), String::from("2"));

    assert_eq!(one.header().as_str(), "a,b");
    assert_eq!(one.as_csv().as_str(), "1,2");
    assert_eq!(other.header().as_str(), one.header().as_str());
    assert_eq!(other.as_csv().as_str(), one.as_csv().as_str());
}

#[test]
fn csv_escapes_commas_in_values() {
    let mut d = TestData::new();
    d.insert(String::from("k"), String::from("x,y"));
    assert_eq!(d.as_csv().as_str(), "x;y");
}

#[test]
fn insert_replaces_at_first_position() {
    let mut d = TestData::new();
    d.insert(String::from("k"), String::from("old"));
    d.insert(String::from("k"), String::from("new"));
    assert_eq!(d.len(), 1);
    assert_eq!(d.get("k").unwrap().as_str(), "new");
    assert!(d.get("absent").is_none());
}

#[test]
fn test_new_fingerprint() {
    let fp = rubric::Fingerprint::from_secret("my secret key", "testbox");
    assert_eq!(fp.secret.as_str(), "my secret key");
    assert!(fp.platform.len() > 0);
}

#[test]
fn test_as_csv() {
    let fp = rubric::Fingerprint::from_secret("my_secret", "testbox");
    assert!(fp.header().contains(","));
    assert!(fp.header().len() > 0);
    assert!(fp.as_csv().contains("my_secret"));
    assert_eq!(fp.filename().as_str(), "fingerprint.csv");
}

#[test]
fn timestamp_renders_the_date() {
    // the epoch, rendered as a date in UTC
    assert_eq!(rubric::clock::format_timestamp(0, "%F").as_str(), "1970-01-01");
    assert_eq!(rubric::clock::format_timestamp(86400, "%F %T").as_str(), "1970-01-02 00:00:00");
}
