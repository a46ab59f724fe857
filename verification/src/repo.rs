//! The layout of a repository. Every path is relative to the root of the
//! repository for one architecture.

use vstd::prelude::*;

verus! {

/// The file that holds the index database.
pub const REPO_INDEX_PATH: &'static str = "index.toml";

/// The directory of the binary packages.
pub const REPO_BIN_DIR: &'static str = "bin";

/// The directory of the sources of the packages.
pub const REPO_SRC_DIR: &'static str = "src";

/// The file, inside a package, that holds the record of the package.
pub const REPO_PKG_INFO: &'static str = "nbinfo.toml";

} // verus!
