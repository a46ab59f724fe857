use nbkit::config::{
    default_config_path, get_default_nbpm_home, get_default_nbpm_root, load_error, Config,
    DEF_NBPM_PATH, DEF_NBPM_REPO, DEF_NBPM_ROOT, LOCAL_DB_PATH, LOCAL_INDEX_PATH, NBPM_CONFIG_FILE,
    NBPM_WORK_CURR, NBPM_WORK_DIR,
};
use nbkit::errors::{NbError, NbpmError};
use nbkit::repo::{REPO_BIN_DIR, REPO_INDEX_PATH, REPO_PKG_INFO, REPO_SRC_DIR};
use nbkit::install::{standing_of, Standing};
use nbkit::requirement::{is_accepted, Operator, ReqParseError, VersionReq};
use nbkit::resolve::{break_outcome, edge_outcome};
use nbkit::set::PkgSet;
use nbkit::utils::{exit_error, file2hash, start_error, status_error};
use nbkit::wrappers::{DependencyVisitor, DependencyWrap, VersionVisitor, VersionWrap};
use nbkit::query::parse_pkg_str_info;
use nbkit::version::{Version, VersionOrder};

#[test]
fn the_default_configuration() {
    let c = Config::new();
    assert_eq!(c.home(), "/etc/nbpm");
    assert_eq!(c.root(), "/");
    assert_eq!(c.repo_url(), "www.nebula.com/repo/x86_64");
    assert_eq!(c.work_dir(), "/tmp/nbpm");
    assert_eq!(c.work_curr(), "/tmp/nbpm/current");
    let d = Config::default();
    assert_eq!(d.home(), c.home());
    assert_eq!(get_default_nbpm_home(), DEF_NBPM_PATH);
    assert_eq!(get_default_nbpm_root(), DEF_NBPM_ROOT);
    assert_eq!(DEF_NBPM_REPO, "www.nebula.com/repo/x86_64");
    assert_eq!(NBPM_WORK_DIR, "/tmp/nbpm");
    assert_eq!(NBPM_WORK_CURR, "/tmp/nbpm/current");
}

#[test]
fn a_configuration_from_a_file_falls_back_to_defaults() {
    let c = Config::from_parts(None, None, "http://r".to_string());
    assert_eq!(c.home(), "/etc/nbpm");
    assert_eq!(c.root(), "/");
    assert_eq!(c.repo_url(), "http://r");
    let c = Config::from_parts(Some("/opt/nb".to_string()), Some("/mnt".to_string()), "http://r".to_string())
        .with_work_dirs("/var/tmp/nb".to_string(), "/var/tmp/nb/cur".to_string());
    assert_eq!(c.home(), "/opt/nb");
    assert_eq!(c.root(), "/mnt");
    assert_eq!(c.work_dir(), "/var/tmp/nb");
    assert_eq!(c.work_curr(), "/var/tmp/nb/cur");
}

#[test]
fn the_places_that_follow_from_the_configuration() {
    let c = Config::from_parts(Some("/opt/nb".to_string()), None, "http://r/x86".to_string());
    assert_eq!(c.pkgdb_path(PkgSet::Local), "/opt/nb/local_db.toml");
    assert_eq!(c.pkgdb_path(PkgSet::Universe), "/opt/nb/index/index.toml");
    assert_eq!(c.index_url(), "http://r/x86/index.toml");
    assert_eq!(default_config_path(), "/etc/nbpm/config.toml");
    assert_eq!(LOCAL_DB_PATH, "local_db.toml");
    assert_eq!(LOCAL_INDEX_PATH, "index/index.toml");
    assert_eq!(NBPM_CONFIG_FILE, "config.toml");
    assert_eq!(REPO_INDEX_PATH, "index.toml");
    assert_eq!(REPO_BIN_DIR, "bin");
    assert_eq!(REPO_SRC_DIR, "src");
    assert_eq!(REPO_PKG_INFO, "nbinfo.toml");
}

#[test]
fn a_load_error_goes_with_the_set() {
    let e = load_error(PkgSet::Local, "/etc/nbpm/local_db.toml", "no such file");
    assert!(matches!(&e, NbpmError::LocalDbLoad(t) if t == "/etc/nbpm/local_db.toml: no such file"));
    assert_eq!(
        e.message(),
        "Cannot load local package database: /etc/nbpm/local_db.toml: no such file"
    );
    let e = load_error(PkgSet::Universe, "i.toml", "bad");
    assert!(matches!(&e, NbpmError::RepoIndexLoad(t) if t == "i.toml: bad"));
    assert_eq!(e.message(), "Cannot load repository index: i.toml: bad");
    assert_eq!(
        NbpmError::ConfigLoad("x".to_string()).message(),
        "Cannot load configuration: x"
    );
}

#[test]
fn the_messages_of_the_database_errors() {
    assert_eq!(NbError::MissingFile("a.toml".to_string()).message(), "Missing file a.toml");
    assert_eq!(NbError::PkgNotFound("vim".to_string()).message(), "Package vim not found");
    assert_eq!(
        NbError::BrokenSetConsistency("vim".to_string(), PkgSet::Local).message(),
        "Package vim breaks set consistency. The expected set is local."
    );
    assert_eq!(NbError::PkgDbLoad("eof".to_string()).message(), "Cannot load PkgDb: eof");
    assert_eq!(NbError::ServerError("500".to_string()).message(), "Server side net error: 500");
    assert_eq!(NbError::ClientError("404".to_string()).message(), "Client side net error: 404");
    assert_eq!(
        NbError::CmdStartChild("tar: gone".to_string()).message(),
        "Cannot start child process: tar: gone"
    );
    assert_eq!(
        NbError::CmdChildErr("tar: bad".to_string()).message(),
        "Child process returned error status: tar: bad"
    );
}

#[test]
fn the_checksum_of_a_file() {
    assert_eq!(
        file2hash(&b"hello world".to_vec()),
        "b94d27b9934d3e08a52e52d7da7dabfac484efe37a5380ee9088f7ace2efcde9"
    );
    assert_eq!(
        file2hash(&Vec::new()),
        "e3b0c44298fc1c149afbf4c8996fb92427ae41e4649b934ca495991b7852b855"
    );
}

#[test]
fn the_status_of_an_answer_decides_the_error() {
    assert!(status_error(200, "200 OK").is_none());
    assert!(status_error(399, "399").is_none());
    assert!(matches!(status_error(400, "400 Bad Request"), Some(NbError::ClientError(t)) if t == "400 Bad Request"));
    assert!(matches!(status_error(499, "499"), Some(NbError::ClientError(_))));
    assert!(matches!(status_error(500, "500"), Some(NbError::ServerError(_))));
    assert!(matches!(status_error(599, "599"), Some(NbError::ServerError(t)) if t == "599"));
    assert!(status_error(600, "600").is_none());
}

#[test]
fn the_errors_of_a_command() {
    let e = start_error("tar", "No such file or directory");
    assert!(matches!(&e, NbError::CmdStartChild(t) if t == "tar: No such file or directory"));
    let e = exit_error("tar", &["xvf", "a.tar.xz"], "not an archive");
    assert!(matches!(&e, NbError::CmdChildErr(t) if t == "tar  xvf a.tar.xz: not an archive"));
    let e = exit_error("true", &[], "");
    assert!(matches!(&e, NbError::CmdChildErr(t) if t == "true : "));
}

#[test]
fn a_version_is_read_from_and_written_to_its_text() {
    let w = VersionVisitor.visit_str("2.4.1-beta.2").unwrap();
    assert_eq!(w.inner().major, 2);
    assert_eq!(w.to_text(), "2.4.1-beta.2");
    let again = VersionVisitor.visit_str(&w.to_text()).unwrap();
    assert!(again.inner().same_release(w.inner()));
    assert!(VersionVisitor.visit_str("2.4").is_err());
    assert_eq!(VersionVisitor.expecting(), "a semver formatted version");
    let v = VersionWrap::from(Version::new(1, 0, 0));
    assert_eq!(v.inner().to_text(), "1.0.0");
}

#[test]
fn a_dependency_is_read_from_and_written_to_its_text() {
    let d = DependencyVisitor.visit_str("libc>=2.31.0").unwrap();
    assert_eq!(d.inner().0, "libc");
    assert_eq!(d.inner().1.to_text(), ">=2.31.0");
    assert_eq!(d.to_text(), "libc>=2.31.0");
    let again = DependencyVisitor.visit_str(&d.to_text()).unwrap();
    assert_eq!(again.to_text(), d.to_text());
    assert_eq!(
        DependencyVisitor.visit_str("libc>=x").unwrap_err(),
        ReqParseError::InvalidVersionRequirement.message()
    );
    let any = DependencyWrap::from(parse_pkg_str_info("zlib").unwrap());
    assert_eq!(any.to_text(), "zlib");
}

#[test]
fn every_parse_error_speaks_in_the_words_of_the_parser() {
    let pairs = [
        (ReqParseError::InvalidVersionRequirement, semver::ReqParseError::InvalidVersionRequirement),
        (ReqParseError::OpAlreadySet, semver::ReqParseError::OpAlreadySet),
        (ReqParseError::InvalidSigil, semver::ReqParseError::InvalidSigil),
        (
            ReqParseError::VersionComponentsMustBeNumeric,
            semver::ReqParseError::VersionComponentsMustBeNumeric,
        ),
        (ReqParseError::InvalidIdentifier, semver::ReqParseError::InvalidIdentifier),
        (ReqParseError::MajorVersionRequired, semver::ReqParseError::MajorVersionRequired),
        (
            ReqParseError::UnimplementedVersionRequirement,
            semver::ReqParseError::UnimplementedVersionRequirement,
        ),
        (
            ReqParseError::DeprecatedVersionRequirement,
            semver::ReqParseError::DeprecatedVersionRequirement(semver::VersionReq::any()),
        ),
    ];
    for (ours, theirs) in pairs {
        assert_eq!(ours.message(), theirs.to_string());
    }
}

#[test]
fn the_decisions_on_what_the_parser_answers() {
    assert_eq!(standing_of(None), Standing::Absent);
    assert_eq!(standing_of(Some(VersionOrder::Same)), Standing::Same);
    assert_eq!(standing_of(Some(VersionOrder::Older)), Standing::Older);
    assert_eq!(standing_of(Some(VersionOrder::Newer)), Standing::Newer);
    assert!(is_accepted(Some(true)));
    assert!(!is_accepted(Some(false)));
    assert!(!is_accepted(None));
    let req = VersionReq::given(Operator::GreaterEq, "2.0.0", None).unwrap();
    assert_eq!(req.to_text(), ">=2.0.0");
    assert_eq!(
        VersionReq::given(Operator::GreaterEq, "x", Some(ReqParseError::InvalidSigil)).unwrap_err(),
        ReqParseError::InvalidSigil
    );
    let found = Version::new(1, 4, 0);
    assert!(edge_outcome("b", &req, "a", Some((&found, true))).is_ok());
    match edge_outcome("b", &req, "a", Some((&found, false))).unwrap_err() {
        NbError::BrokenDependency(dep, r, v, pkg) => {
            assert_eq!(dep, "b");
            assert_eq!(r.to_text(), ">=2.0.0");
            assert_eq!(v.to_text(), "1.4.0");
            assert_eq!(pkg, "a");
        },
        other => panic!("unexpected error {:?}", other),
    }
    let e = edge_outcome("b", &req, "a", None).unwrap_err();
    assert!(matches!(&e, NbError::MissingDependency(d, p) if d == "b" && p == "a"));
    assert!(break_outcome("d", "c", false).is_ok());
    let e = break_outcome("d", "c", true).unwrap_err();
    assert!(matches!(&e, NbError::RemoveBreaksPkg(d, c) if d == "d" && c == "c"));
}

#[test]
fn the_numbers_decide_the_order_before_the_tags() {
    let order = |a: &str, b: &str| Version::parse(a).unwrap().precedence(&Version::parse(b).unwrap());
    assert_eq!(order("1.1.0", "1.2.0"), VersionOrder::Older);
    assert_eq!(order("1.3.0", "1.2.0"), VersionOrder::Newer);
    assert_eq!(order("1.2.0", "1.2.0"), VersionOrder::Same);
    assert_eq!(order("1.10.0", "1.9.0"), VersionOrder::Newer);
    assert_eq!(order("2.0.0-alpha", "1.9.9"), VersionOrder::Newer);
    assert_eq!(order("1.2.0-alpha", "1.2.0"), VersionOrder::Older);
    assert_eq!(order("1.2.0", "1.2.0-alpha"), VersionOrder::Newer);
    assert_eq!(order("1.2.0+a", "1.2.0+b"), VersionOrder::Same);
    assert_eq!(order("1.2.0-alpha", "1.2.0-beta"), VersionOrder::Older);
}
