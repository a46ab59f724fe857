//! The configuration of the package manager, and the places that follow from
//! it.

use vstd::prelude::*;
use vstd::string::StringExecFns;
use crate::errors::{NbpmError, NbpmErrorView};
use crate::repo::REPO_INDEX_PATH;
use crate::set::PkgSet;

verus! {

/// The root directory of the system, unless configured otherwise.
pub const DEF_NBPM_ROOT: &'static str = "/";

/// The directory of the package manager's own files, unless configured
/// otherwise.
pub const DEF_NBPM_PATH: &'static str = "/etc/nbpm";

/// The repository, unless configured otherwise.
pub const DEF_NBPM_REPO: &'static str = "www.nebula.com/repo/x86_64";

/// The configuration file, relative to the package manager's directory.
pub const NBPM_CONFIG_FILE: &'static str = "config.toml";

/// The local database, relative to the package manager's directory.
pub const LOCAL_DB_PATH: &'static str = "local_db.toml";

/// The copy of the repository's index, relative to the package manager's
/// directory.
pub const LOCAL_INDEX_PATH: &'static str = "index/index.toml";

/// The working directory, into which packages are downloaded, unless
/// configured otherwise.
pub const NBPM_WORK_DIR: &'static str = "/tmp/nbpm";

/// The directory, inside the working directory, in which one package at a time
/// is unpacked, unless configured otherwise.
pub const NBPM_WORK_CURR: &'static str = "/tmp/nbpm/current";

/// The configuration of the package manager.
#[derive(Debug)]
pub struct Config {
    home: String,
    root: String,
    repo_url: String,
    work_dir: String,
    work_curr: String,
}

/// The mathematical value of a [`Config`].
pub struct ConfigView {
    pub home: Seq<char>,
    pub root: Seq<char>,
    pub repo_url: Seq<char>,
    pub work_dir: Seq<char>,
    pub work_curr: Seq<char>,
}

impl View for Config {
    type V = ConfigView;

    closed spec fn view(&self) -> ConfigView {
        ConfigView {
            home: self.home@,
            root: self.root@,
            repo_url: self.repo_url@,
            work_dir: self.work_dir@,
            work_curr: self.work_curr@,
        }
    }
}

/// The directory of the package manager's own files where none is configured.
pub fn get_default_nbpm_home() -> (s: String)
    ensures
        s@ == DEF_NBPM_PATH@,
{
    String::from_str(DEF_NBPM_PATH)
}

/// The root directory of the system where none is configured.
pub fn get_default_nbpm_root() -> (s: String)
    ensures
        s@ == DEF_NBPM_ROOT@,
{
    String::from_str(DEF_NBPM_ROOT)
}

/// The two texts with a `/` between them.
pub open spec fn slash(a: Seq<char>, b: Seq<char>) -> Seq<char> {
    a + "/"@ + b
}

/// Puts a `/` between two texts.
pub fn with_slash(a: &str, b: &str) -> (s: String)
    ensures
        s@ == slash(a@, b@),
{
    let mut s = String::from_str(a);
    s.append("/");
    s.append(b);
    s
}

impl Config {
    /// The configuration with every default.
    pub fn new() -> (c: Config)
        ensures
            c@ == (ConfigView {
                home: DEF_NBPM_PATH@,
                root: DEF_NBPM_ROOT@,
                repo_url: DEF_NBPM_REPO@,
                work_dir: NBPM_WORK_DIR@,
                work_curr: NBPM_WORK_CURR@,
            }),
    {
        Config {
            home: String::from_str(DEF_NBPM_PATH),
            root: String::from_str(DEF_NBPM_ROOT),
            repo_url: String::from_str(DEF_NBPM_REPO),
            work_dir: String::from_str(NBPM_WORK_DIR),
            work_curr: String::from_str(NBPM_WORK_CURR),
        }
    }

    /// The configuration that a file gives: the repository, and the two
    /// directories where the file names them, each with its default where it
    /// does not. The working directories are the default ones.
    pub fn from_parts(home: Option<String>, root: Option<String>, repo_url: String) -> (c: Config)
        ensures
            c@ == (ConfigView {
                home: match home {
                    Some(h) => h@,
                    None => DEF_NBPM_PATH@,
                },
                root: match root {
                    Some(r) => r@,
                    None => DEF_NBPM_ROOT@,
                },
                repo_url: repo_url@,
                work_dir: NBPM_WORK_DIR@,
                work_curr: NBPM_WORK_CURR@,
            }),
    {
        Config {
            home: match home {
                Some(h) => h,
                None => get_default_nbpm_home(),
            },
            root: match root {
                Some(r) => r,
                None => get_default_nbpm_root(),
            },
            repo_url,
            work_dir: String::from_str(NBPM_WORK_DIR),
            work_curr: String::from_str(NBPM_WORK_CURR),
        }
    }

    /// The same configuration with other working directories.
    pub fn with_work_dirs(self, work_dir: String, work_curr: String) -> (c: Config)
        ensures
            c@ == (ConfigView { work_dir: work_dir@, work_curr: work_curr@, ..self@ }),
    {
        Config { home: self.home, root: self.root, repo_url: self.repo_url, work_dir, work_curr }
    }

    /// The directory of the package manager's own files.
    pub fn home(&self) -> (s: &str)
        ensures
            s@ == self@.home,
    {
        self.home.as_str()
    }

    /// The root directory of the system, under which packages are installed.
    pub fn root(&self) -> (s: &str)
        ensures
            s@ == self@.root,
    {
        self.root.as_str()
    }

    /// The address of the repository.
    pub fn repo_url(&self) -> (s: &str)
        ensures
            s@ == self@.repo_url,
    {
        self.repo_url.as_str()
    }

    /// The working directory, into which packages are downloaded.
    pub fn work_dir(&self) -> (s: &str)
        ensures
            s@ == self@.work_dir,
    {
        self.work_dir.as_str()
    }

    /// The directory in which one package at a time is unpacked.
    pub fn work_curr(&self) -> (s: &str)
        ensures
            s@ == self@.work_curr,
    {
        self.work_curr.as_str()
    }

    /// The file of the database of the given set: the local database, or the
    /// copy of the repository's index, in the package manager's directory.
    pub fn pkgdb_path(&self, set: PkgSet) -> (path: String)
        ensures
            path@ == slash(
                self@.home,
                match set {
                    PkgSet::Local => LOCAL_DB_PATH@,
                    PkgSet::Universe => LOCAL_INDEX_PATH@,
                },
            ),
    {
        match set {
            PkgSet::Local => with_slash(self.home.as_str(), LOCAL_DB_PATH),
            PkgSet::Universe => with_slash(self.home.as_str(), LOCAL_INDEX_PATH),
        }
    }

    /// The address of the repository's index.
    pub fn index_url(&self) -> (url: String)
        ensures
            url@ == slash(self@.repo_url, REPO_INDEX_PATH@),
    {
        with_slash(self.repo_url.as_str(), REPO_INDEX_PATH)
    }
}

impl Default for Config {
    fn default() -> (c: Config)
        ensures
            c@ == (ConfigView {
                home: DEF_NBPM_PATH@,
                root: DEF_NBPM_ROOT@,
                repo_url: DEF_NBPM_REPO@,
                work_dir: NBPM_WORK_DIR@,
                work_curr: NBPM_WORK_CURR@,
            }),
    {
        Config::new()
    }
}

/// The configuration file where none is named: the one in the default
/// directory of the package manager.
pub fn default_config_path() -> (path: String)
    ensures
        path@ == slash(DEF_NBPM_PATH@, NBPM_CONFIG_FILE@),
{
    with_slash(DEF_NBPM_PATH, NBPM_CONFIG_FILE)
}

/// The error for a database that could not be loaded: of the kind that goes
/// with the set, with the file and the cause.
pub fn load_error(set: PkgSet, path: &str, cause: &str) -> (e: NbpmError)
    ensures
        e@ == match set {
            PkgSet::Local => NbpmErrorView::LocalDbLoad(path@ + ": "@ + cause@),
            PkgSet::Universe => NbpmErrorView::RepoIndexLoad(path@ + ": "@ + cause@),
        },
{
    let mut text = String::from_str(path);
    text.append(": ");
    text.append(cause);
    match set {
        PkgSet::Local => NbpmError::LocalDbLoad(text),
        PkgSet::Universe => NbpmError::RepoIndexLoad(text),
    }
}

} // verus!
