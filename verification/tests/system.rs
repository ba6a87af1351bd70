use rubric::Version;

#[test]
fn test_parse_version() {
    let string = "4.5.63";
    let v = Version::parse(string).unwrap();
    assert_eq!(v.major(), 4);
    assert_eq!(v.minor(), 5);
    assert_eq!(v.patch(), 63);
}

#[test]
fn test_partial_version_failure() {
    let string = "3.7";
    let v = Version::parse(string).unwrap();
    assert_eq!(v.major(), 3);
    assert_eq!(v.minor(), 7);
    assert_eq!(v.patch(), 0);

    let string2 = "3";
    let v2 = Version::parse(string2);
    assert!(v2.is_some());
}

#[test]
fn test_version_display() {
    let v = Version::custom(1, 2, 3);

    assert_eq!("1.2.3", v.to_text().as_str());
}

#[test]
fn test_version_found_in_banner() {
    let v = Version::find_in("git version 2.39.5 (Apple Git)").unwrap();
    assert_eq!(v, Version::custom(2, 39, 5));

    assert!(Version::find_in("no version here").is_none());
    assert!(Version::find_in("almost 1.2, but not quite").is_none());
}

#[test]
fn test_parse_rejects_bad_fields() {
    assert!(Version::parse("").is_none());
    assert!(Version::parse("1.a.3").is_none());
    assert!(Version::parse("1.2.").is_none());
    assert!(Version::parse("99999999999999999999.1.2").is_none());
}
