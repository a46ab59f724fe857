use nbkit::config::Config;
use nbkit::errors::{NbError, NbpmError};
use nbkit::install::{download_plan, purge_already_installed, Action};
use nbkit::pipeline::{InstallAction, InstallEvent, InstallRun, Stage};
use nbkit::pkgdb::PkgDb;
use nbkit::pkginfo::{InfoLocal, InfoUniverse, PkgInfo, SetInfo};
use nbkit::query::parse_pkg_str_info;
use nbkit::set::PkgSet;
use nbkit::subgraph::Subgraph;
use nbkit::version::Version;
use nbkit::wrappers::{DependencyWrap, VersionWrap};

fn in_record(version: &str, deps: &[&str], set_info: Option<SetInfo>) -> PkgInfo {
    let depends = if deps.is_empty() {
        None
    } else {
        Some(deps.iter().map(|d| DependencyWrap::from(parse_pkg_str_info(d).unwrap())).collect())
    };
    PkgInfo::from(
        VersionWrap::from(Version::parse(version).unwrap()),
        depends,
        String::new(),
        set_info,
    )
}

fn in_universe(location: &str) -> Option<SetInfo> {
    Some(SetInfo::Universe(InfoUniverse::from(location.to_string())))
}

fn in_local(paths: &[&str]) -> Option<SetInfo> {
    Some(SetInfo::Local(InfoLocal::from(paths.iter().map(|p| p.to_string()).collect())))
}

fn in_index(records: &[(&str, &str)]) -> PkgDb {
    let mut db = PkgDb::with_set(PkgSet::Universe);
    for (name, version) in records {
        db.insert(name, in_record(version, &[], in_universe("core"))).unwrap();
    }
    db
}

fn in_installed(records: &[(&str, &str)]) -> PkgDb {
    let mut db = PkgDb::with_set(PkgSet::Local);
    for (name, version) in records {
        db.insert(name, in_record(version, &[], in_local(&[]))).unwrap();
    }
    db
}

fn in_names(graph: &Subgraph) -> Vec<String> {
    (0..graph.len()).map(|k| graph.name_at(k).clone()).collect()
}

fn in_config() -> Config {
    Config::from_parts(None, Some("/mnt".to_string()), "http://repo.example/x86_64".to_string())
}

/// Drives a run through one package whose files copy well.
fn in_install_one(run: &mut InstallRun, name: &str, files: &[&str]) -> InstallAction {
    assert!(matches!(run.step(InstallEvent::Completed), InstallAction::Extract { .. }));
    assert!(matches!(run.step(InstallEvent::Completed), InstallAction::ReadInfo { .. }));
    let records = vec![(name.to_string(), in_record("1.0.0", &[], in_local(&["bin/x"])))];
    assert!(matches!(run.step(InstallEvent::InfoRead(records)), InstallAction::CopyFiles { .. }));
    let copied = files.iter().map(|f| f.to_string()).collect();
    assert!(matches!(run.step(InstallEvent::Copied(copied)), InstallAction::CleanScratch { .. }));
    run.step(InstallEvent::Completed)
}

#[test]
fn a_downgrade_is_refused() {
    let index = in_index(&[("foo", "1.1.0")]);
    let local = in_installed(&[("foo", "1.2.0")]);
    let mut graph = index.get_subgraph(Some(&["foo"]), true).unwrap();
    let e = purge_already_installed(&mut graph, &local).unwrap_err();
    match &e {
        NbpmError::RequiresPkgDowngrade(name, installed, asked) => {
            assert_eq!(name, "foo");
            assert_eq!(installed.to_text(), "1.2.0");
            assert_eq!(asked.to_text(), "1.1.0");
        },
        other => panic!("unexpected error {:?}", other),
    }
    assert_eq!(e.message(), "Required to downgrade foo from version 1.2.0 to 1.1.0");
    assert_eq!(in_names(&graph), vec!["foo"]);
}

#[test]
fn an_installed_version_is_dropped() {
    let index = in_index(&[("foo", "1.2.0")]);
    let local = in_installed(&[("foo", "1.2.0")]);
    let mut graph = index.get_subgraph(Some(&["foo"]), true).unwrap();
    let plan = purge_already_installed(&mut graph, &local).unwrap();
    assert!(plan.is_empty());
    assert_eq!(graph.len(), 0);
}

#[test]
fn a_newer_version_is_kept_as_an_update() {
    let index = in_index(&[("foo", "1.3.0")]);
    let local = in_installed(&[("foo", "1.2.0")]);
    let mut graph = index.get_subgraph(Some(&["foo"]), true).unwrap();
    let plan = purge_already_installed(&mut graph, &local).unwrap();
    assert_eq!(plan.len(), 1);
    assert_eq!(plan[0].name, "foo");
    assert_eq!(plan[0].action, Action::Update);
    assert_eq!(in_names(&graph), vec!["foo"]);
}

#[test]
fn the_filter_sorts_a_mixed_selection() {
    let index = in_index(&[("new", "1.0.0"), ("same", "2.0.0"), ("up", "3.1.0"), ("same2", "0.1.0")]);
    let local = in_installed(&[("same", "2.0.0"), ("up", "3.0.9"), ("same2", "0.1.0"), ("else", "1.0.0")]);
    let mut graph = index.get_subgraph(Some(&["new", "same", "up", "same2"]), false).unwrap();
    let plan = purge_already_installed(&mut graph, &local).unwrap();
    let mut planned: Vec<(String, Action)> = plan.iter().map(|p| (p.name.clone(), p.action)).collect();
    planned.sort_by(|a, b| a.0.cmp(&b.0));
    assert_eq!(planned, vec![("new".to_string(), Action::Install), ("up".to_string(), Action::Update)]);
    let mut names = in_names(&graph);
    names.sort();
    assert_eq!(names, vec!["new", "up"]);
}

#[test]
fn the_download_plan_gives_address_and_file() {
    let mut index = PkgDb::with_set(PkgSet::Universe);
    index.insert("vim", in_record("9.0.0", &["libc"], in_universe("editors"))).unwrap();
    index.insert("libc", in_record("2.0.0", &[], in_universe("core"))).unwrap();
    index.insert("devel", in_record("1.0.0", &["vim"], None)).unwrap();
    let graph = index.get_subgraph(Some(&["devel"]), true).unwrap();
    let plan = download_plan(&graph, &in_config()).unwrap();
    assert_eq!(plan.len(), 2);
    let vim = plan.iter().find(|d| d.name == "vim").unwrap();
    assert_eq!(vim.url, "http://repo.example/x86_64/bin/editors/vim.tar.xz");
    assert_eq!(vim.path, "/tmp/nbpm/vim.tar.xz");
    let libc = plan.iter().find(|d| d.name == "libc").unwrap();
    assert_eq!(libc.url, "http://repo.example/x86_64/bin/core/libc.tar.xz");
}

#[test]
fn an_installed_package_cannot_be_downloaded() {
    let local = in_installed(&[("foo", "1.0.0")]);
    let graph = local.get_subgraph(None, false).unwrap();
    let e = download_plan(&graph, &in_config()).unwrap_err();
    assert!(matches!(&e, NbError::BrokenSetConsistency(n, PkgSet::Universe) if n == "foo"));
    assert!(InstallRun::start(&graph, &in_config()).is_err());
}

#[test]
fn a_package_without_files_installs_without_copies() {
    let mut index = PkgDb::with_set(PkgSet::Universe);
    index.insert("devel", in_record("1.0.0", &[], None)).unwrap();
    let graph = index.get_subgraph(Some(&["devel"]), true).unwrap();
    let (run, first) = InstallRun::start(&graph, &in_config()).unwrap();
    assert!(matches!(first, InstallAction::Finish(Ok(()))));
    assert_eq!(run.stage(), Stage::Done);
    assert!(run.succeeded());
    let records = run.into_records();
    assert_eq!(records.len(), 1);
    assert_eq!(records[0].0, "devel");
    let mut local = PkgDb::with_set(PkgSet::Local);
    local.insert_all(&records).unwrap();
    assert!(local.contains("devel", &Version::parse("1.0.0").unwrap()));
    assert!(local.get_pkg_info("devel").unwrap().is_meta());
}

#[test]
fn a_run_installs_each_package_in_turn() {
    let mut index = PkgDb::with_set(PkgSet::Universe);
    index.insert("a", in_record("1.0.0", &[], in_universe("core"))).unwrap();
    index.insert("b", in_record("1.0.0", &[], in_universe("core"))).unwrap();
    index.insert("m", in_record("0.1.0", &["a", "b"], None)).unwrap();
    let graph = index.get_subgraph(Some(&["a", "b", "m"]), false).unwrap();
    let (mut run, first) = InstallRun::start(&graph, &in_config()).unwrap();
    match first {
        InstallAction::PrepareWorkDir { work_dir, scratch } => {
            assert_eq!(work_dir, "/tmp/nbpm");
            assert_eq!(scratch, "/tmp/nbpm/current");
        },
        other => panic!("unexpected action {:?}", other),
    }
    match run.step(InstallEvent::Completed) {
        InstallAction::Fetch { url, dest } => {
            assert_eq!(url, "http://repo.example/x86_64/bin/core/a.tar.xz");
            assert_eq!(dest, "/tmp/nbpm/a.tar.xz");
        },
        other => panic!("unexpected action {:?}", other),
    }
    match run.step(InstallEvent::Completed) {
        InstallAction::Extract { archive, dest } => {
            assert_eq!(archive, "/tmp/nbpm/a.tar.xz");
            assert_eq!(dest, "/tmp/nbpm/current");
        },
        other => panic!("unexpected action {:?}", other),
    }
    match run.step(InstallEvent::Completed) {
        InstallAction::ReadInfo { path } => assert_eq!(path, "/tmp/nbpm/current/nbinfo.toml"),
        other => panic!("unexpected action {:?}", other),
    }
    let records = vec![
        ("zz".to_string(), in_record("9.9.9", &[], None)),
        ("a".to_string(), in_record("1.0.1", &[], in_local(&["usr/bin/a", "/etc/a"]))),
    ];
    match run.step(InstallEvent::InfoRead(records)) {
        InstallAction::CopyFiles { from, to } => {
            assert_eq!(from, "/tmp/nbpm/current");
            assert_eq!(to, "/mnt");
        },
        other => panic!("unexpected action {:?}", other),
    }
    assert_eq!(run.stage(), Stage::Copying);
    match run.step(InstallEvent::Copied(vec!["/mnt/usr/bin/a".to_string()])) {
        InstallAction::CleanScratch { scratch } => assert_eq!(scratch, "/tmp/nbpm/current"),
        other => panic!("unexpected action {:?}", other),
    }
    assert!(matches!(run.step(InstallEvent::Completed), InstallAction::Fetch { .. }));
    let last = in_install_one(&mut run, "b", &["/mnt/bin/x"]);
    assert!(matches!(last, InstallAction::Finish(Ok(()))));
    assert!(run.succeeded());
    let records = run.into_records();
    let names: Vec<&str> = records.iter().map(|r| r.0.as_str()).collect();
    assert_eq!(names, vec!["a", "b", "m"]);
    // The record that the archive holds is the one installed, with its paths
    // under the root.
    assert_eq!(records[0].1.version().to_text(), "1.0.1");
    match records[0].1.set_info() {
        Some(SetInfo::Local(l)) => {
            assert_eq!(l.paths(), &vec!["/mnt/usr/bin/a".to_string(), "/mnt/etc/a".to_string()])
        },
        _ => panic!("a local record was expected"),
    }
    assert!(records[2].1.is_meta());
}

#[test]
fn a_failed_copy_of_the_third_package_rolls_back_and_stops() {
    let index = in_index(&[("one", "1.0.0"), ("two", "1.0.0"), ("three", "1.0.0"), ("four", "1.0.0"), ("five", "1.0.0")]);
    let graph = index.get_subgraph(Some(&["one", "two", "three", "four", "five"]), false).unwrap();
    let (mut run, _) = InstallRun::start(&graph, &in_config()).unwrap();
    let mut fetched = Vec::new();
    match run.step(InstallEvent::Completed) {
        InstallAction::Fetch { url, .. } => fetched.push(url),
        other => panic!("unexpected action {:?}", other),
    }
    match in_install_one(&mut run, "one", &["/mnt/one/a", "/mnt/one/b"]) {
        InstallAction::Fetch { url, .. } => fetched.push(url),
        other => panic!("unexpected action {:?}", other),
    }
    match in_install_one(&mut run, "two", &["/mnt/two/a"]) {
        InstallAction::Fetch { url, .. } => fetched.push(url),
        other => panic!("unexpected action {:?}", other),
    }
    assert!(matches!(run.step(InstallEvent::Completed), InstallAction::Extract { .. }));
    assert!(matches!(run.step(InstallEvent::Completed), InstallAction::ReadInfo { .. }));
    let records = vec![("three".to_string(), in_record("1.0.0", &[], in_local(&["x"])))];
    assert!(matches!(run.step(InstallEvent::InfoRead(records)), InstallAction::CopyFiles { .. }));
    match run.step(InstallEvent::CopyFailed(vec!["/mnt/three/a".to_string()])) {
        InstallAction::Rollback { files } => {
            assert_eq!(files, vec!["/mnt/one/a", "/mnt/one/b", "/mnt/two/a", "/mnt/three/a"])
        },
        other => panic!("unexpected action {:?}", other),
    }
    assert_eq!(run.stage(), Stage::RollingBack);
    match run.step(InstallEvent::RolledBack(vec![])) {
        InstallAction::Finish(Err(NbpmError::CleanUnSuccessfulInstallation)) => {},
        other => panic!("unexpected action {:?}", other),
    }
    assert_eq!(fetched.len(), 3);
    assert!(fetched[2].ends_with("/three.tar.xz"));
    // Whatever is reported now, nothing more is downloaded.
    assert!(matches!(run.step(InstallEvent::Completed), InstallAction::Finish(Err(_))));
    assert!(!run.succeeded());
    assert!(run.into_records().is_empty());
}

#[test]
fn files_that_cannot_be_removed_make_the_failure_dirty() {
    let index = in_index(&[("one", "1.0.0"), ("two", "1.0.0")]);
    let graph = index.get_subgraph(Some(&["one", "two"]), false).unwrap();
    let (mut run, _) = InstallRun::start(&graph, &in_config()).unwrap();
    assert!(matches!(run.step(InstallEvent::Completed), InstallAction::Fetch { .. }));
    assert!(matches!(in_install_one(&mut run, "one", &["/mnt/f"]), InstallAction::Fetch { .. }));
    match run.step(InstallEvent::Failed) {
        InstallAction::Rollback { files } => assert_eq!(files, vec!["/mnt/f"]),
        other => panic!("unexpected action {:?}", other),
    }
    // An event that does not answer the request has it asked again.
    assert!(matches!(run.step(InstallEvent::Completed), InstallAction::Rollback { .. }));
    match run.step(InstallEvent::RolledBack(vec!["/mnt/f".to_string()])) {
        InstallAction::Finish(Err(e)) => {
            assert!(matches!(&e, NbpmError::DirtyUnSuccessfulInstallation(p) if p == &vec!["/mnt/f".to_string()]));
            assert_eq!(
                e.message(),
                "Dirty unsuccessful installation. Cannot remove some installed files:\n  /mnt/f\n"
            );
        },
        other => panic!("unexpected action {:?}", other),
    }
    assert_eq!(run.stage(), Stage::Done);
}

#[test]
fn an_archive_without_the_record_of_its_package_fails_the_run() {
    let index = in_index(&[("one", "1.0.0")]);
    let graph = index.get_subgraph(None, false).unwrap();
    let (mut run, _) = InstallRun::start(&graph, &in_config()).unwrap();
    assert!(matches!(run.step(InstallEvent::Completed), InstallAction::Fetch { .. }));
    assert!(matches!(run.step(InstallEvent::Completed), InstallAction::Extract { .. }));
    assert!(matches!(run.step(InstallEvent::Completed), InstallAction::ReadInfo { .. }));
    let records = vec![("other".to_string(), in_record("1.0.0", &[], in_local(&["x"])))];
    match run.step(InstallEvent::InfoRead(records)) {
        InstallAction::Rollback { files } => assert!(files.is_empty()),
        other => panic!("unexpected action {:?}", other),
    }
    let (mut run, _) = InstallRun::start(&graph, &in_config()).unwrap();
    run.step(InstallEvent::Completed);
    run.step(InstallEvent::Completed);
    run.step(InstallEvent::Completed);
    let records = vec![("one".to_string(), in_record("1.0.0", &[], in_universe("core")))];
    assert!(matches!(run.step(InstallEvent::InfoRead(records)), InstallAction::Rollback { .. }));
}

#[test]
fn a_working_directory_that_cannot_be_made_fails_the_run() {
    let index = in_index(&[("one", "1.0.0")]);
    let graph = index.get_subgraph(None, false).unwrap();
    let (mut run, _) = InstallRun::start(&graph, &in_config()).unwrap();
    match run.step(InstallEvent::Failed) {
        InstallAction::Rollback { files } => assert!(files.is_empty()),
        other => panic!("unexpected action {:?}", other),
    }
    assert!(matches!(
        run.step(InstallEvent::RolledBack(vec![])),
        InstallAction::Finish(Err(NbpmError::CleanUnSuccessfulInstallation))
    ));
}
