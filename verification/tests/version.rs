use nbkit::version::{Version, VersionOrder};

#[test]
fn parse_reads_the_three_numbers() {
    let v = Version::parse("1.2.3").unwrap();
    assert_eq!(v.major, 1);
    assert_eq!(v.minor, 2);
    assert_eq!(v.patch, 3);
    assert!(v.pre.is_empty());
    assert!(v.build.is_empty());
}

#[test]
fn parse_refuses_a_partial_version() {
    assert!(Version::parse("1.2").is_err());
    assert!(Version::parse("").is_err());
}

#[test]
fn precedence_orders_by_number_then_by_tag() {
    let a = Version::parse("1.2.0").unwrap();
    let b = Version::parse("1.10.0").unwrap();
    let c = Version::parse("1.10.0-alpha.1").unwrap();
    assert_eq!(a.precedence(&b), VersionOrder::Older);
    assert_eq!(b.precedence(&a), VersionOrder::Newer);
    assert_eq!(b.precedence(&b), VersionOrder::Same);
    assert_eq!(c.precedence(&b), VersionOrder::Older);
}

#[test]
fn to_text_prints_tag_and_metadata() {
    let v = Version::parse("1.0.0-rc.1+build.7").unwrap();
    assert_eq!(v.to_text(), "1.0.0-rc.1+build.7");
    assert_eq!(Version::new(0, 4, 2).to_text(), "0.4.2");
}
