use nbkit::errors::NbError;
use nbkit::pkgdb::{PkgDb, DEFAULT_SET};
use nbkit::pkginfo::{InfoLocal, InfoUniverse, PkgInfo, SetInfo};
use nbkit::query::parse_pkg_str_info;
use nbkit::set::PkgSet;
use nbkit::version::Version;
use nbkit::wrappers::{DependencyWrap, VersionWrap};

fn db_record(version: &str, deps: &[&str], set_info: Option<SetInfo>) -> PkgInfo {
    let depends = if deps.is_empty() {
        None
    } else {
        Some(deps.iter().map(|d| DependencyWrap::from(parse_pkg_str_info(d).unwrap())).collect())
    };
    PkgInfo::from(
        VersionWrap::from(Version::parse(version).unwrap()),
        depends,
        String::from("a package"),
        set_info,
    )
}

fn db_local(paths: &[&str]) -> Option<SetInfo> {
    Some(SetInfo::Local(InfoLocal::from(paths.iter().map(|p| p.to_string()).collect())))
}

fn db_universe(location: &str) -> Option<SetInfo> {
    Some(SetInfo::Universe(InfoUniverse::from(location.to_string())))
}

#[test]
fn a_new_database_is_empty_and_of_the_universe() {
    let db = PkgDb::new();
    assert_eq!(db.len(), 0);
    assert_eq!(db.set(), PkgSet::Universe);
    assert_eq!(DEFAULT_SET, PkgSet::Universe);
    assert!(!db.contains_name("anything"));
    assert!(db.get_pkg_info("anything").is_none());
    let db = PkgDb::default();
    assert_eq!(db.len(), 0);
}

#[test]
fn insert_adds_and_get_finds() {
    let mut db = PkgDb::with_set(PkgSet::Local);
    let previous = db.insert("foo", db_record("1.2.0", &[], db_local(&["usr/bin/foo"]))).unwrap();
    assert!(previous.is_none());
    assert_eq!(db.len(), 1);
    assert!(db.contains_name("foo"));
    assert!(!db.contains_name("fo"));
    let info = db.get_pkg_info("foo").unwrap();
    assert_eq!(info.version().to_text(), "1.2.0");
    assert_eq!(info.description(), "a package");
}

#[test]
fn insert_replaces_and_returns_the_previous_record() {
    let mut db = PkgDb::with_set(PkgSet::Local);
    db.insert("foo", db_record("1.2.0", &[], None)).unwrap();
    db.insert("bar", db_record("0.1.0", &[], None)).unwrap();
    let previous = db.insert("foo", db_record("1.3.0", &[], None)).unwrap().unwrap();
    assert_eq!(previous.version().to_text(), "1.2.0");
    assert_eq!(db.len(), 2);
    assert_eq!(db.get_pkg_info("foo").unwrap().version().to_text(), "1.3.0");
    assert_eq!(db.get_pkg_info("bar").unwrap().version().to_text(), "0.1.0");
    assert_eq!(db.name_at(0), "foo");
    assert_eq!(db.name_at(1), "bar");
}

#[test]
fn contains_compares_the_version_without_build_metadata() {
    let mut db = PkgDb::with_set(PkgSet::Local);
    db.insert("foo", db_record("1.2.0-rc.1+build.5", &[], None)).unwrap();
    assert!(db.contains("foo", &Version::parse("1.2.0-rc.1").unwrap()));
    assert!(db.contains("foo", &Version::parse("1.2.0-rc.1+other").unwrap()));
    assert!(!db.contains("foo", &Version::parse("1.2.0").unwrap()));
    assert!(!db.contains("foo", &Version::parse("1.2.0-rc.2").unwrap()));
    assert!(!db.contains("bar", &Version::parse("1.2.0-rc.1").unwrap()));
}

#[test]
fn a_record_of_another_set_is_refused() {
    let mut db = PkgDb::with_set(PkgSet::Universe);
    let e = db.insert("foo", db_record("1.0.0", &[], db_local(&["bin/foo"]))).unwrap_err();
    assert!(matches!(&e, NbError::BrokenSetConsistency(n, PkgSet::Universe) if n == "foo"));
    assert_eq!(db.len(), 0);
    let mut db = PkgDb::with_set(PkgSet::Local);
    let e = db.insert("foo", db_record("1.0.0", &[], db_universe("core"))).unwrap_err();
    assert!(matches!(&e, NbError::BrokenSetConsistency(n, PkgSet::Local) if n == "foo"));
    // A record without files of its own belongs to either set.
    assert!(db.insert("meta", db_record("1.0.0", &[], None)).is_ok());
}

#[test]
fn remove_takes_out_one_package() {
    let mut db = PkgDb::with_set(PkgSet::Local);
    db.insert("a", db_record("1.0.0", &[], None)).unwrap();
    db.insert("b", db_record("2.0.0", &[], None)).unwrap();
    db.insert("c", db_record("3.0.0", &[], None)).unwrap();
    db.remove("b", false).unwrap();
    assert_eq!(db.len(), 2);
    assert!(db.contains_name("a"));
    assert!(!db.contains_name("b"));
    assert_eq!(db.get_pkg_info("c").unwrap().version().to_text(), "3.0.0");
    let e = db.remove("b", false).unwrap_err();
    assert!(matches!(&e, NbError::PkgNotFound(n) if n == "b"));
    assert_eq!(db.len(), 2);
}

#[test]
fn remove_with_check_refuses_to_break_a_package() {
    let mut db = PkgDb::with_set(PkgSet::Local);
    db.insert("d", db_record("1.0.0", &[], None)).unwrap();
    db.insert("c", db_record("1.0.0", &["d>=1.0.0"], None)).unwrap();
    let e = db.remove("d", true).unwrap_err();
    assert!(matches!(&e, NbError::RemoveBreaksPkg(d, c) if d == "d" && c == "c"));
    assert_eq!(db.len(), 2);
    db.remove("c", true).unwrap();
    db.remove("d", true).unwrap();
    assert_eq!(db.len(), 0);
}

#[test]
fn insert_all_is_all_or_nothing() {
    let mut db = PkgDb::with_set(PkgSet::Local);
    db.insert("a", db_record("1.0.0", &[], None)).unwrap();
    let bad = vec![
        ("b".to_string(), db_record("1.0.0", &[], db_local(&["x"]))),
        ("c".to_string(), db_record("1.0.0", &[], db_universe("core"))),
    ];
    let e = db.insert_all(&bad).unwrap_err();
    assert!(matches!(&e, NbError::BrokenSetConsistency(n, PkgSet::Local) if n == "c"));
    assert_eq!(db.len(), 1);
    let good = vec![
        ("b".to_string(), db_record("1.0.0", &[], db_local(&["x"]))),
        ("a".to_string(), db_record("1.1.0", &[], None)),
    ];
    db.insert_all(&good).unwrap();
    assert_eq!(db.len(), 2);
    assert_eq!(db.get_pkg_info("a").unwrap().version().to_text(), "1.1.0");
    assert!(db.contains_name("b"));
}

#[test]
fn a_record_gives_its_parts() {
    let info = db_record("1.0.0", &["libc>=2.0.0", "zlib"], db_local(&["usr/bin/tool"]));
    assert!(!info.is_meta());
    assert!(info.fits(PkgSet::Local));
    assert!(!info.fits(PkgSet::Universe));
    assert_eq!(info.dep_count(), 2);
    let deps = info.depends().unwrap();
    assert_eq!(deps[0].0, "libc");
    assert_eq!(deps[0].1.to_text(), ">=2.0.0");
    assert_eq!(deps[1].0, "zlib");
    assert!(deps[1].1.is_any());
    let (name, req) = info.dep(1);
    assert_eq!(name, "zlib");
    assert!(req.is_any());
    match info.set_info() {
        Some(SetInfo::Local(l)) => assert_eq!(l.paths(), &vec!["usr/bin/tool".to_string()]),
        _ => panic!("a local record was expected"),
    }
    let meta = db_record("1.0.0", &[], None);
    assert!(meta.is_meta());
    assert!(meta.depends().is_none());
    assert_eq!(meta.dep_count(), 0);
}

#[test]
fn set_path_prefix_puts_every_path_under_the_root() {
    let mut local = InfoLocal::from(vec![
        "usr/bin/tool".to_string(),
        "/etc/tool.conf".to_string(),
        "//var/lib/tool".to_string(),
        "".to_string(),
        "/".to_string(),
    ]);
    local.set_path_prefix("/mnt/root");
    assert_eq!(
        local.paths(),
        &vec![
            "/mnt/root/usr/bin/tool".to_string(),
            "/mnt/root/etc/tool.conf".to_string(),
            "/mnt/root/var/lib/tool".to_string(),
            "/mnt/root/".to_string(),
            "/mnt/root/".to_string(),
        ]
    );
    for path in local.paths() {
        assert!(path.starts_with("/mnt/root"));
    }
    let mut local = InfoLocal::from(vec!["usr/bin/tool".to_string(), "/usr/bin/tool".to_string()]);
    local.set_path_prefix("/");
    assert_eq!(local.paths(), &vec!["/usr/bin/tool".to_string(), "/usr/bin/tool".to_string()]);
    let mut local = InfoLocal::from(vec!["usr/bin/tool".to_string(), "/usr/bin/tool".to_string()]);
    local.set_path_prefix("");
    assert_eq!(local.paths(), &vec!["usr/bin/tool".to_string(), "usr/bin/tool".to_string()]);
}

#[test]
fn the_set_dependent_part_can_be_changed_in_place() {
    let mut info = db_record("1.0.0", &[], db_universe("core"));
    match info.set_info() {
        Some(SetInfo::Universe(u)) => assert_eq!(u.location(), "core"),
        _ => panic!("a universe record was expected"),
    }
    *info.mut_set_info() = None;
    assert!(info.is_meta());
    let moved = db_record("1.0.0", &[], db_local(&["a/b"])).with_path_prefix("/r");
    match moved.set_info() {
        Some(SetInfo::Local(l)) => assert_eq!(l.paths(), &vec!["/r/a/b".to_string()]),
        _ => panic!("a local record was expected"),
    }
}

#[test]
fn the_sets_have_their_tags() {
    assert_eq!(PkgSet::Universe.tag(), "universe");
    assert_eq!(PkgSet::Local.tag(), "local");
}
