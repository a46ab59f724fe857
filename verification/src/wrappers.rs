//! A version and a dependency as they stand in a package record, each with the
//! one text that a database file holds for it.

use vstd::prelude::*;
use crate::query::{parse_pkg_str_info, parse_query, query_text, query_to_text, Query, QueryView};
use crate::requirement::{ReqParseError, VersionReq};
use crate::version::{parsed_version, version_text, Version, VersionView};

verus! {

/// The version of a package record.
#[derive(Debug)]
pub struct VersionWrap(Version);

impl View for VersionWrap {
    type V = VersionView;

    closed spec fn view(&self) -> VersionView {
        self.0@
    }
}

impl Clone for VersionWrap {
    fn clone(&self) -> (copy: VersionWrap)
        ensures
            copy@ == self@,
    {
        VersionWrap(self.0.clone())
    }
}

impl VersionWrap {
    /// Wraps a version.
    pub fn from(v: Version) -> (w: VersionWrap)
        ensures
            w@ == v@,
    {
        VersionWrap(v)
    }

    /// The version inside.
    pub fn inner(&self) -> (v: &Version)
        ensures
            v@ == self@,
    {
        &self.0
    }

    /// The text that a database file holds for the version.
    pub fn to_text(&self) -> (s: String)
        ensures
            s@ == version_text(self@),
    {
        self.0.to_text()
    }
}

/// Reads the version of a package record from its text.
#[derive(Clone, Copy, Debug)]
pub struct VersionVisitor;

impl VersionVisitor {
    /// What a reader of database files is told to expect.
    pub fn expecting(&self) -> (s: &'static str)
        ensures
            s@ == "a semver formatted version"@,
    {
        "a semver formatted version"
    }

    /// Reads a version. Fails, with the parser's message, exactly where the
    /// parser refuses the text.
    pub fn visit_str(&self, s: &str) -> (r: Result<VersionWrap, String>)
        ensures
            r matches Ok(w) ==> parsed_version(s@) == Some(w@),
            r is Err <==> parsed_version(s@) is None,
    {
        match Version::parse(s) {
            Ok(v) => Ok(VersionWrap::from(v)),
            Err(e) => Err(e),
        }
    }
}

/// One dependency of a package record: a name and the requirement on the
/// version of the package of that name.
#[derive(Debug)]
pub struct DependencyWrap(String, VersionReq);

impl View for DependencyWrap {
    type V = QueryView;

    closed spec fn view(&self) -> QueryView {
        (self.0@, self.1@)
    }
}

impl Clone for DependencyWrap {
    fn clone(&self) -> (copy: DependencyWrap)
        ensures
            copy@ == self@,
    {
        DependencyWrap(self.0.clone(), self.1.clone())
    }
}

impl DependencyWrap {
    /// Wraps a name and a requirement.
    pub fn from(q: Query) -> (w: DependencyWrap)
        ensures
            w@ == (q.0@, q.1@),
    {
        DependencyWrap(q.0, q.1)
    }

    /// The name and the requirement inside.
    pub fn inner(&self) -> (q: (&String, &VersionReq))
        ensures
            (q.0@, q.1@) == self@,
    {
        (&self.0, &self.1)
    }

    /// The text that a database file holds for the dependency.
    pub fn to_text(&self) -> (s: String)
        ensures
            s@ == query_text(self@),
    {
        query_to_text(self.0.as_str(), &self.1)
    }
}

/// Reads one dependency of a package record from its text.
#[derive(Clone, Copy, Debug)]
pub struct DependencyVisitor;

impl DependencyVisitor {
    /// What a reader of database files is told to expect.
    pub fn expecting(&self) -> (s: &'static str)
        ensures
            s@ == "a semver formatted version requirement"@,
    {
        "a semver formatted version requirement"
    }

    /// Reads a dependency as a package reference. Fails with the message of the
    /// parser's error where the reference does not read.
    pub fn visit_str(&self, s: &str) -> (r: Result<DependencyWrap, &'static str>)
        ensures
            match r {
                Ok(w) => parse_query(s@) == Ok::<QueryView, ReqParseError>(w@),
                Err(m) => parse_query(s@) matches Err(e) && m@ == e.spec_message(),
            },
    {
        match parse_pkg_str_info(s) {
            Ok(q) => Ok(DependencyWrap::from(q)),
            Err(e) => Err(e.message()),
        }
    }
}

} // verus!
