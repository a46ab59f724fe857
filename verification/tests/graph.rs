use nbkit::errors::NbError;
use nbkit::graph::Graph;
use nbkit::package::Package;
use nbkit::pkginfo::SetInfo;
use nbkit::query::{parse_pkg_str_info, Dependencies};
use nbkit::set::PkgSet;
use nbkit::version::Version;

fn gr_deps(list: &[&str]) -> Dependencies {
    if list.is_empty() {
        None
    } else {
        Some(list.iter().map(|d| parse_pkg_str_info(d).unwrap()).collect())
    }
}

fn gr_meta(name: &str, version: &str, deps: &[&str]) -> Package {
    Package::new_meta(name, Version::parse(version).unwrap(), gr_deps(deps))
}

#[test]
fn a_package_is_made_for_each_set() {
    let p = Package::new_local("tool", Version::new(1, 0, 0), None, vec!["usr/bin/tool".to_string()]);
    assert_eq!(p.name(), "tool");
    assert_eq!(p.version().to_text(), "1.0.0");
    assert!(p.depends().is_none());
    assert!(!p.is_meta());
    match p.set_info() {
        Some(SetInfo::Local(l)) => assert_eq!(l.paths(), &vec!["usr/bin/tool".to_string()]),
        _ => panic!("a local package was expected"),
    }
    let p = Package::new_universe("tool", Version::new(1, 0, 0), gr_deps(&["libc>=2.0.0"]), "core");
    match p.set_info() {
        Some(SetInfo::Universe(u)) => assert_eq!(u.location(), "core"),
        _ => panic!("a universe package was expected"),
    }
    assert_eq!(p.dep_count(), 1);
    assert_eq!(p.dep(0).0, "libc");
    assert_eq!(p.depends().as_ref().unwrap()[0].1.to_text(), ">=2.0.0");
    let p = gr_meta("devel", "0.1.0", &[]);
    assert!(p.is_meta());
    assert_eq!(p.dep_count(), 0);
}

#[test]
fn a_graph_keeps_the_first_package_of_a_name() {
    let mut g = Graph::new();
    assert!(!g.contains_node("a"));
    g.add_node(gr_meta("a", "1.0.0", &[]));
    g.add_node(gr_meta("a", "2.0.0", &[]));
    g.add_node(gr_meta("b", "1.0.0", &[]));
    assert!(g.contains_node("a"));
    assert!(g.contains_node("b"));
    assert!(!g.contains_node("c"));
    assert_eq!(g.to_text(), "* Set: Universe\n* Packages:\n    - a 1.0.0\n    - b 1.0.0\n");
    let d = Graph::default();
    assert_eq!(d.to_text(), "* Set: Universe\n* Packages:\n");
}

#[test]
fn a_consistent_graph_passes_the_check() {
    let g = Graph::from(
        PkgSet::Local,
        vec![gr_meta("a", "1.0.0", &["b>=1.0.0", "c"]), gr_meta("b", "1.2.0", &[]), gr_meta("c", "0.1.0", &["a<2.0.0"])],
        true,
    ).unwrap();
    assert!(g.check_integrity().is_ok());
    assert_eq!(
        g.to_text(),
        "* Set: Local\n* Packages:\n    - a 1.0.0\n        depends: [b>=1.0.0]  [c] \n    - b 1.2.0\n    - c 0.1.0\n        depends: [a<2.0.0] \n"
    );
}

#[test]
fn a_graph_with_a_missing_or_broken_edge_fails_the_check() {
    let e = Graph::from(PkgSet::Universe, vec![gr_meta("a", "1.0.0", &["b>=1.0.0"])], true).unwrap_err();
    assert!(matches!(&e, NbError::MissingDependency(d, p) if d == "b" && p == "a"));
    let e = Graph::from(
        PkgSet::Universe,
        vec![gr_meta("a", "1.0.0", &["b>=2.0.0"]), gr_meta("b", "1.0.0", &[])],
        true,
    ).unwrap_err();
    match &e {
        NbError::BrokenDependency(dep, req, found, pkg) => {
            assert_eq!(dep, "b");
            assert_eq!(req.to_text(), ">=2.0.0");
            assert_eq!(found.to_text(), "1.0.0");
            assert_eq!(pkg, "a");
        },
        other => panic!("unexpected error {:?}", other),
    }
    // Without the check the same graph is made, and fails the check later.
    let g = Graph::from(
        PkgSet::Universe,
        vec![gr_meta("a", "1.0.0", &["b>=2.0.0"]), gr_meta("b", "1.0.0", &[])],
        false,
    ).unwrap();
    assert!(g.check_integrity().is_err());
}
