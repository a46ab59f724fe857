use nbkit::query::{parse_pkg_str_info, query_to_text};
use nbkit::requirement::{Operator, ReqParseError, VersionReq};
use nbkit::version::Version;

fn version_of(text: &str) -> Version {
    Version::parse(text).unwrap()
}

#[test]
fn a_bare_name_accepts_any_version() {
    let (name, req) = parse_pkg_str_info("neofetch").unwrap();
    assert_eq!(name, "neofetch");
    assert!(req.is_any());
    assert_eq!(req.op(), None);
    assert!(req.matches(&version_of("0.0.1")));
    assert!(req.matches(&version_of("12.4.0-rc.1")));
}

#[test]
fn name_and_requirement_are_cut_at_the_operator() {
    let (name, req) = parse_pkg_str_info("linux>=5.5.3").unwrap();
    assert_eq!(name, "linux");
    assert_eq!(req.op(), Some(Operator::GreaterEq));
    assert_eq!(req.bound(), "5.5.3");
    assert_eq!(req.to_text(), ">=5.5.3");
}

#[test]
fn two_character_operators_are_found_before_one_character_ones() {
    let (name, req) = parse_pkg_str_info("make<=1.0").unwrap();
    assert_eq!(name, "make");
    assert_eq!(req.op(), Some(Operator::LessEq));
    let (name, req) = parse_pkg_str_info("make<1.0").unwrap();
    assert_eq!(name, "make");
    assert_eq!(req.op(), Some(Operator::Less));
    let (name, req) = parse_pkg_str_info("make>1.0").unwrap();
    assert_eq!(name, "make");
    assert_eq!(req.op(), Some(Operator::Greater));
    let (name, req) = parse_pkg_str_info("make==1.0.0").unwrap();
    assert_eq!(name, "make");
    assert_eq!(req.op(), Some(Operator::Equal));
    assert_eq!(req.bound(), "1.0.0");
}

#[test]
fn the_order_of_the_search_decides_not_the_position() {
    // `>=` is looked for before `<`, though `<` stands first.
    let r = parse_pkg_str_info("a<b>=1.0.0").unwrap();
    assert_eq!(r.0, "a<b");
    assert_eq!(r.1.op(), Some(Operator::GreaterEq));
    assert_eq!(r.1.bound(), "1.0.0");
}

#[test]
fn an_empty_name_is_accepted() {
    let (name, req) = parse_pkg_str_info(">=1.0.0").unwrap();
    assert_eq!(name, "");
    assert_eq!(req.op(), Some(Operator::GreaterEq));
}

#[test]
fn a_bound_that_is_no_requirement_is_refused() {
    assert_eq!(
        parse_pkg_str_info("glibc>=abc").unwrap_err(),
        ReqParseError::InvalidVersionRequirement
    );
    assert!(parse_pkg_str_info("glibc>=").is_err());
    assert!(parse_pkg_str_info("glibc==1.0.0==2.0.0").is_err());
}

#[test]
fn greater_or_equal_accepts_the_bound_and_newer() {
    let (_, req) = parse_pkg_str_info("d>=1.0.0").unwrap();
    assert!(req.matches(&version_of("1.0.0")));
    assert!(req.matches(&version_of("1.0.1")));
    assert!(req.matches(&version_of("3.2.0")));
    assert!(!req.matches(&version_of("0.9.9")));
}

#[test]
fn less_accepts_only_older() {
    let (_, req) = parse_pkg_str_info("d<1.0.0").unwrap();
    assert!(req.matches(&version_of("0.9.9")));
    assert!(!req.matches(&version_of("1.0.0")));
    assert!(!req.matches(&version_of("1.0.1")));
}

#[test]
fn less_or_equal_and_greater() {
    let (_, le) = parse_pkg_str_info("d<=2.1.0").unwrap();
    assert!(le.matches(&version_of("2.1.0")));
    assert!(le.matches(&version_of("2.0.9")));
    assert!(!le.matches(&version_of("2.1.1")));
    let (_, gt) = parse_pkg_str_info("d>2.1.0").unwrap();
    assert!(!gt.matches(&version_of("2.1.0")));
    assert!(gt.matches(&version_of("2.1.1")));
}

#[test]
fn equal_accepts_the_bound_only() {
    let (_, req) = parse_pkg_str_info("d==1.2.3").unwrap();
    assert!(req.matches(&version_of("1.2.3")));
    assert!(!req.matches(&version_of("1.2.4")));
    assert!(!req.matches(&version_of("1.2.2")));
}

#[test]
fn writing_is_the_inverse_of_reading() {
    for text in ["glibc", "linux>=5.5.3", "make<1.0", "a==0.1.0", "b<=2.0.0-rc.1", "c>3"] {
        let (name, req) = parse_pkg_str_info(text).unwrap();
        assert_eq!(query_to_text(&name, &req), text);
    }
}

#[test]
fn reading_is_the_inverse_of_writing() {
    let req = VersionReq::new(Operator::GreaterEq, "1.4.0").unwrap();
    let text = query_to_text("zlib", &req);
    assert_eq!(text, "zlib>=1.4.0");
    let (name, back) = parse_pkg_str_info(&text).unwrap();
    assert_eq!(name, "zlib");
    assert_eq!(back.op(), req.op());
    assert_eq!(back.bound(), req.bound());
    let any = VersionReq::any();
    assert_eq!(query_to_text("zlib", &any), "zlib");
}

#[test]
fn a_requirement_is_checked_when_it_is_made() {
    assert!(VersionReq::new(Operator::Equal, "1.0.0").is_ok());
    assert!(VersionReq::new(Operator::Less, "1").is_ok());
    assert_eq!(
        VersionReq::new(Operator::Less, "one").unwrap_err(),
        ReqParseError::InvalidVersionRequirement
    );
}

#[test]
fn operators_have_their_tokens() {
    assert_eq!(Operator::Equal.token(), "==");
    assert_eq!(Operator::GreaterEq.token(), ">=");
    assert_eq!(Operator::LessEq.token(), "<=");
    assert_eq!(Operator::Greater.token(), ">");
    assert_eq!(Operator::Less.token(), "<");
    assert_eq!(Operator::Equal.semver_token(), "=");
    assert_eq!(Operator::Less.semver_token(), "<");
}
