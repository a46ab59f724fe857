use nbkit::errors::NbError;
use nbkit::pkgdb::PkgDb;
use nbkit::pkginfo::{InfoUniverse, PkgInfo, SetInfo};
use nbkit::query::parse_pkg_str_info;
use nbkit::set::PkgSet;
use nbkit::subgraph::Subgraph;
use nbkit::version::Version;
use nbkit::wrappers::{DependencyWrap, VersionWrap};

fn rs_record(version: &str, deps: &[&str]) -> PkgInfo {
    let depends = if deps.is_empty() {
        None
    } else {
        Some(deps.iter().map(|d| DependencyWrap::from(parse_pkg_str_info(d).unwrap())).collect())
    };
    PkgInfo::from(
        VersionWrap::from(Version::parse(version).unwrap()),
        depends,
        String::new(),
        Some(SetInfo::Universe(InfoUniverse::from("core".to_string()))),
    )
}

fn rs_db(records: &[(&str, &str, &[&str])]) -> PkgDb {
    let mut db = PkgDb::with_set(PkgSet::Universe);
    for (name, version, deps) in records {
        db.insert(name, rs_record(version, deps)).unwrap();
    }
    db
}

fn rs_names(graph: &Subgraph) -> Vec<String> {
    let mut names: Vec<String> = (0..graph.len()).map(|k| graph.name_at(k).clone()).collect();
    names.sort();
    names
}

#[test]
fn the_closure_holds_every_transitive_dependency_and_nothing_else() {
    let db = rs_db(&[
        ("app", "1.0.0", &["lib>=1.0.0", "tool"]),
        ("lib", "1.2.0", &["base>=0.1.0"]),
        ("tool", "0.3.0", &[]),
        ("base", "0.1.0", &[]),
        ("other", "9.0.0", &["base"]),
    ]);
    let g = db.get_subgraph(Some(&["app"]), true).unwrap();
    assert_eq!(rs_names(&g), vec!["app", "base", "lib", "tool"]);
    assert!(g.contains_name("base"));
    assert!(!g.contains_name("other"));
    assert_eq!(g.get("lib").unwrap().version().to_text(), "1.2.0");
    assert!(PkgDb::check_subgraph_integrity(&g).is_ok());
}

#[test]
fn a_cycle_of_dependencies_is_resolved_once() {
    let db = rs_db(&[
        ("a", "1.0.0", &["b"]),
        ("b", "1.0.0", &["c"]),
        ("c", "1.0.0", &["a", "c"]),
        ("d", "1.0.0", &[]),
    ]);
    let g = db.get_subgraph(Some(&["b", "b"]), true).unwrap();
    assert_eq!(rs_names(&g), vec!["a", "b", "c"]);
}

#[test]
fn without_a_selection_every_package_is_resolved() {
    let db = rs_db(&[("a", "1.0.0", &["b"]), ("b", "1.0.0", &[]), ("c", "1.0.0", &[])]);
    let g = db.get_subgraph(None, true).unwrap();
    assert_eq!(rs_names(&g), vec!["a", "b", "c"]);
    let g = db.get_subgraph(None, false).unwrap();
    assert_eq!(rs_names(&g), vec!["a", "b", "c"]);
}

#[test]
fn without_following_only_the_selection_is_resolved() {
    let db = rs_db(&[("a", "1.0.0", &["b>=5.0.0", "ghost"]), ("b", "1.0.0", &[])]);
    let g = db.get_subgraph(Some(&["a"]), false).unwrap();
    assert_eq!(rs_names(&g), vec!["a"]);
    // Such a part need not be consistent.
    let e = PkgDb::check_subgraph_integrity(&g).unwrap_err();
    assert!(matches!(&e, NbError::MissingDependency(d, p) if d == "b" && p == "a"));
}

#[test]
fn a_selected_name_that_is_absent_is_not_found() {
    let db = rs_db(&[("a", "1.0.0", &[])]);
    let e = db.get_subgraph(Some(&["a", "x", "y"]), false).unwrap_err();
    assert!(matches!(&e, NbError::PkgNotFound(n) if n == "x"));
    let e = db.get_subgraph(Some(&["y", "a", "x"]), true).unwrap_err();
    assert!(matches!(&e, NbError::PkgNotFound(n) if n == "y"));
}

#[test]
fn a_dependency_that_is_absent_is_missing() {
    let db = rs_db(&[("a", "1.0.0", &["b>=1.0.0"])]);
    let e = db.get_subgraph(Some(&["a"]), true).unwrap_err();
    assert!(matches!(&e, NbError::MissingDependency(d, p) if d == "b" && p == "a"));
    assert_eq!(e.message(), "Missing dependency b required by a");
}

#[test]
fn a_dependency_in_a_refused_version_is_broken() {
    let db = rs_db(&[("a", "1.0.0", &["b>=2.0.0"]), ("b", "1.4.0", &[])]);
    let e = db.get_subgraph(Some(&["a"]), true).unwrap_err();
    match &e {
        NbError::BrokenDependency(dep, req, found, pkg) => {
            assert_eq!(dep, "b");
            assert_eq!(req.to_text(), ">=2.0.0");
            assert_eq!(found.to_text(), "1.4.0");
            assert_eq!(pkg, "a");
        },
        other => panic!("unexpected error {:?}", other),
    }
    assert_eq!(
        e.message(),
        "Broken dependency. Expected version (>=2.0.0), got (1.4.0): b required by a"
    );
    // The same database resolves where the broken edge is not reached.
    assert!(db.get_subgraph(Some(&["b"]), true).is_ok());
}

#[test]
fn the_integrity_check_reports_the_first_edge_that_is_not_met() {
    let db = rs_db(&[
        ("a", "1.0.0", &["c", "b<1.0.0", "b>=3.0.0"]),
        ("b", "2.0.0", &[]),
        ("c", "1.0.0", &[]),
    ]);
    let g = db.get_subgraph(Some(&["a", "b", "c"]), false).unwrap();
    let e = PkgDb::check_subgraph_integrity(&g).unwrap_err();
    match &e {
        NbError::BrokenDependency(dep, req, _, pkg) => {
            assert_eq!(dep, "b");
            assert_eq!(req.to_text(), "<1.0.0");
            assert_eq!(pkg, "a");
        },
        other => panic!("unexpected error {:?}", other),
    }
}

#[test]
fn a_subgraph_can_lose_and_gain_packages() {
    let db = rs_db(&[("a", "1.0.0", &[]), ("b", "1.0.0", &[]), ("c", "1.0.0", &[])]);
    let mut g = Subgraph::new(&db);
    assert_eq!(g.len(), 0);
    assert!(g.add_node(2));
    assert!(g.add_node(0));
    assert!(!g.add_node(2));
    assert_eq!(g.len(), 2);
    assert_eq!(g.name_at(0), "c");
    assert_eq!(g.node_at(1), 0);
    assert_eq!(g.find("a"), Some(1));
    assert_eq!(g.find("b"), None);
    assert_eq!(g.find_node(2), Some(0));
    g.remove_at(0);
    assert_eq!(rs_names(&g), vec!["a"]);
    g.set_nodes(vec![1, 2]);
    assert_eq!(rs_names(&g), vec!["b", "c"]);
    assert_eq!(g.source().len(), 3);
}

#[test]
fn removing_a_needed_package_alone_is_refused() {
    let mut db = PkgDb::with_set(PkgSet::Local);
    db.insert("d", PkgInfo::from(
        VersionWrap::from(Version::parse("1.0.0").unwrap()), None, String::new(), None,
    )).unwrap();
    db.insert("c", PkgInfo::from(
        VersionWrap::from(Version::parse("1.0.0").unwrap()),
        Some(vec![DependencyWrap::from(parse_pkg_str_info("d>=1.0.0").unwrap())]),
        String::new(),
        None,
    )).unwrap();
    let e = db.check_remove(vec!["d"]).unwrap_err();
    assert!(matches!(&e, NbError::RemoveBreaksPkg(d, c) if d == "d" && c == "c"));
    assert_eq!(e.message(), "Removing package d breaks package c");
    assert!(db.check_remove(vec!["c", "d"]).is_ok());
    assert!(db.check_remove(vec!["c"]).is_ok());
    let e = db.check_remove(vec!["c", "zz"]).unwrap_err();
    assert!(matches!(&e, NbError::PkgNotFound(n) if n == "zz"));
}

#[test]
fn a_dependency_that_the_installed_version_does_not_meet_blocks_nothing() {
    let mut db = PkgDb::with_set(PkgSet::Local);
    db.insert("d", PkgInfo::from(
        VersionWrap::from(Version::parse("1.0.0").unwrap()), None, String::new(), None,
    )).unwrap();
    db.insert("c", PkgInfo::from(
        VersionWrap::from(Version::parse("1.0.0").unwrap()),
        Some(vec![DependencyWrap::from(parse_pkg_str_info("d>=2.0.0").unwrap())]),
        String::new(),
        None,
    )).unwrap();
    assert!(db.check_remove(vec!["d"]).is_ok());
}
