use nbkit::errors::{NbError, NbpmError};
use nbkit::files::{
    copy_step, last_part, removal_order, removal_outcome, removal_step, rollback_error, CopyStep,
    PathKind, RemovalStep,
};
use nbkit::pkgdb::PkgDb;
use nbkit::pkginfo::{prefixed_path, relative_path, InfoLocal, InfoUniverse, PkgInfo, SetInfo};
use nbkit::query::parse_pkg_str_info;
use nbkit::remove::{finish_removal, removal_plan};
use nbkit::set::PkgSet;
use nbkit::version::Version;
use nbkit::wrappers::{DependencyWrap, VersionWrap};

fn rm_record(version: &str, deps: &[&str], paths: Option<&[&str]>) -> PkgInfo {
    let depends = if deps.is_empty() {
        None
    } else {
        Some(deps.iter().map(|d| DependencyWrap::from(parse_pkg_str_info(d).unwrap())).collect())
    };
    PkgInfo::from(
        VersionWrap::from(Version::parse(version).unwrap()),
        depends,
        String::new(),
        paths.map(|p| SetInfo::Local(InfoLocal::from(p.iter().map(|s| s.to_string()).collect()))),
    )
}

fn rm_db() -> PkgDb {
    let mut db = PkgDb::with_set(PkgSet::Local);
    db.insert("d", rm_record("1.0.0", &[], Some(&["/usr/lib/d.so", "/usr/share/d"]))).unwrap();
    db.insert("c", rm_record("1.0.0", &["d>=1.0.0"], Some(&["/usr/bin/c"]))).unwrap();
    db.insert("m", rm_record("1.0.0", &["c"], None)).unwrap();
    db.insert("x", rm_record("1.0.0", &[], Some(&[]))).unwrap();
    db
}

#[test]
fn a_needed_package_cannot_be_removed_alone() {
    let db = rm_db();
    let e = removal_plan(&["d"], false, true, &db).unwrap_err();
    assert!(matches!(&e, NbError::RemoveBreaksPkg(d, c) if d == "d" && c == "c"));
}

#[test]
fn a_package_and_what_needs_it_can_be_removed_together() {
    let db = rm_db();
    let plan = removal_plan(&["m", "c", "d"], false, true, &db).unwrap();
    let mut names: Vec<&str> = plan.iter().map(|r| r.name.as_str()).collect();
    names.sort();
    assert_eq!(names, vec!["c", "d", "m"]);
    let d = plan.iter().find(|r| r.name == "d").unwrap();
    assert_eq!(d.paths, vec!["/usr/lib/d.so", "/usr/share/d"]);
    let m = plan.iter().find(|r| r.name == "m").unwrap();
    assert!(m.paths.is_empty());
}

#[test]
fn a_recursive_removal_takes_the_dependencies_along() {
    let db = rm_db();
    let plan = removal_plan(&["m"], true, true, &db).unwrap();
    let mut names: Vec<&str> = plan.iter().map(|r| r.name.as_str()).collect();
    names.sort();
    assert_eq!(names, vec!["c", "d", "m"]);
    let plan = removal_plan(&["m"], false, true, &db).unwrap();
    assert_eq!(plan.len(), 1);
}

#[test]
fn without_the_check_a_needed_package_is_planned() {
    let db = rm_db();
    let plan = removal_plan(&["d"], false, false, &db).unwrap();
    assert_eq!(plan.len(), 1);
    assert_eq!(plan[0].name, "d");
}

#[test]
fn a_removal_of_an_unknown_package_is_refused() {
    let db = rm_db();
    let e = removal_plan(&["x", "nope"], false, true, &db).unwrap_err();
    assert!(matches!(&e, NbError::PkgNotFound(n) if n == "nope"));
}

#[test]
fn a_record_of_a_repository_owns_no_files_to_remove() {
    let mut db = PkgDb::with_set(PkgSet::Universe);
    db.insert("u", PkgInfo::from(
        VersionWrap::from(Version::parse("1.0.0").unwrap()),
        None,
        String::new(),
        Some(SetInfo::Universe(InfoUniverse::from("core".to_string()))),
    )).unwrap();
    let e = removal_plan(&["u"], false, true, &db).unwrap_err();
    assert!(matches!(&e, NbError::BrokenSetConsistency(n, PkgSet::Local) if n == "u"));
}

#[test]
fn a_removal_that_went_well_takes_the_packages_out_of_the_database() {
    let mut db = rm_db();
    let removed = vec!["c".to_string(), "m".to_string()];
    finish_removal(&mut db, &removed, vec![]).unwrap();
    assert_eq!(db.len(), 2);
    assert!(db.contains_name("d"));
    assert!(db.contains_name("x"));
    assert!(!db.contains_name("c"));
    assert!(!db.contains_name("m"));
}

#[test]
fn a_removal_that_failed_leaves_the_database_alone() {
    let mut db = rm_db();
    let removed = vec!["c".to_string(), "m".to_string()];
    let failures = vec![("c".to_string(), "permission denied".to_string())];
    let e = finish_removal(&mut db, &removed, failures).unwrap_err();
    assert!(matches!(&e, NbpmError::CannotRemovePkgs(list) if list.len() == 1));
    assert_eq!(
        e.message(),
        "The following packages could not be removed:\n  - c: permission denied\n"
    );
    assert_eq!(db.len(), 4);
}

#[test]
fn files_are_removed_before_directories() {
    let paths: Vec<String> =
        ["/usr/share/d", "/usr/lib/d.so", "/gone", "/usr/share/d/doc", "/etc/d.conf"]
            .iter().map(|s| s.to_string()).collect();
    let kinds = vec![PathKind::Dir, PathKind::File, PathKind::Other, PathKind::Dir, PathKind::File];
    assert_eq!(
        removal_order(&paths, &kinds),
        vec!["/usr/lib/d.so", "/gone", "/etc/d.conf", "/usr/share/d", "/usr/share/d/doc"]
    );
    assert!(removal_order(&vec![], &vec![]).is_empty());
}

#[test]
fn a_directory_is_deleted_only_when_empty() {
    assert_eq!(removal_step(PathKind::File, false), RemovalStep::DeleteFile);
    assert_eq!(removal_step(PathKind::File, true), RemovalStep::DeleteFile);
    assert_eq!(removal_step(PathKind::Dir, true), RemovalStep::DeleteDir);
    assert_eq!(removal_step(PathKind::Dir, false), RemovalStep::Leave);
    assert_eq!(removal_step(PathKind::Other, true), RemovalStep::Leave);
}

#[test]
fn the_outcome_of_a_removal_lists_what_failed() {
    assert!(removal_outcome(vec![]).is_ok());
    let e = removal_outcome(vec![
        ("/usr/bin/c".to_string(), "busy".to_string()),
        ("/usr/share/c".to_string(), "denied".to_string()),
    ]).unwrap_err();
    assert!(matches!(&e, NbpmError::CannotRemove(list) if list.len() == 2));
    assert_eq!(
        e.message(),
        "Cannot remove the following files or directories:\n    * /usr/bin/c: busy\n    * /usr/share/c: denied\n"
    );
}

#[test]
fn the_record_file_is_never_copied() {
    assert!(matches!(copy_step("nbinfo.toml", PathKind::File, "/mnt"), CopyStep::Skip));
    assert!(matches!(copy_step("usr/nbinfo.toml", PathKind::File, "/mnt"), CopyStep::Skip));
    assert!(matches!(copy_step("nbinfo.toml", PathKind::Dir, "/mnt"), CopyStep::Skip));
    assert!(matches!(copy_step("usr/bin/tool", PathKind::Other, "/mnt"), CopyStep::Skip));
    match copy_step("usr/bin/tool", PathKind::File, "/mnt") {
        CopyStep::CopyTo(p) => assert_eq!(p, "/mnt/usr/bin/tool"),
        other => panic!("unexpected step {:?}", other),
    }
    match copy_step("/usr/bin/tool", PathKind::File, "/mnt") {
        CopyStep::CopyTo(p) => assert_eq!(p, "/mnt/usr/bin/tool"),
        other => panic!("unexpected step {:?}", other),
    }
    match copy_step("usr/bin", PathKind::Dir, "/") {
        CopyStep::MakeDir(p) => assert_eq!(p, "/usr/bin"),
        other => panic!("unexpected step {:?}", other),
    }
    match copy_step("my-nbinfo.toml", PathKind::File, "/mnt") {
        CopyStep::CopyTo(p) => assert_eq!(p, "/mnt/my-nbinfo.toml"),
        other => panic!("unexpected step {:?}", other),
    }
}

#[test]
fn the_last_part_of_a_path_follows_its_last_slash() {
    assert_eq!(last_part("usr/bin/tool"), "tool");
    assert_eq!(last_part("tool"), "tool");
    assert_eq!(last_part("usr/bin/"), "");
    assert_eq!(last_part("/"), "");
    assert_eq!(last_part(""), "");
}

#[test]
fn a_path_is_put_under_a_directory() {
    assert_eq!(prefixed_path("/mnt", "usr/bin"), "/mnt/usr/bin");
    assert_eq!(prefixed_path("/mnt/", "usr/bin"), "/mnt/usr/bin");
    assert_eq!(prefixed_path("/mnt", "/usr/bin"), "/mnt/usr/bin");
    assert_eq!(prefixed_path("/mnt/", "/usr/bin"), "/mnt/usr/bin");
    assert_eq!(prefixed_path("/opt/root", "/usr/bin/foo"), "/opt/root/usr/bin/foo");
    assert_eq!(prefixed_path("/mnt", "///usr"), "/mnt/usr");
    assert_eq!(prefixed_path("", "/usr/bin"), "usr/bin");
    assert_eq!(relative_path("/usr/bin"), "usr/bin");
    assert_eq!(relative_path("usr/bin"), "usr/bin");
    assert_eq!(relative_path("//"), "");
    assert_eq!(prefixed_path("", "usr/bin"), "usr/bin");
    assert_eq!(prefixed_path("/mnt", ""), "/mnt/");
}

#[test]
fn the_error_of_a_rollback_tells_clean_from_dirty() {
    let e = rollback_error(vec![]);
    assert!(matches!(e, NbpmError::CleanUnSuccessfulInstallation));
    assert_eq!(
        e.message(),
        "Clean unsuccessful installation. All installed files have been removed."
    );
    let e = rollback_error(vec!["/a".to_string(), "/b".to_string()]);
    assert!(matches!(&e, NbpmError::DirtyUnSuccessfulInstallation(p) if p.len() == 2));
}
