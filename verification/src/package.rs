//! A package on its own: a record together with its name.

use vstd::prelude::*;
use vstd::string::StringExecFns;
use crate::pkginfo::{queries_view, set_info_view, InfoLocal, InfoUniverse, SetInfo, SetInfoView, texts};
use crate::query::{Dependencies, Query, QueryView};
use crate::version::{Version, VersionView};

verus! {

/// A package: its name, its version, what it depends on, and the part that
/// depends on its set, which a package without files of its own lacks.
#[derive(Debug)]
pub struct Package {
    name: String,
    version: Version,
    depends: Dependencies,
    set_info: Option<SetInfo>,
}

/// The mathematical value of a [`Package`].
pub struct PackageView {
    pub name: Seq<char>,
    pub version: VersionView,
    pub depends: Option<Seq<QueryView>>,
    pub set_info: Option<SetInfoView>,
}

/// The value of a list of dependencies that may be absent.
pub open spec fn dependencies_of(depends: Dependencies) -> Option<Seq<QueryView>> {
    match depends {
        Some(list) => Some(queries_view(list@)),
        None => None,
    }
}

impl PackageView {
    /// The dependencies of the package: none where the list is absent.
    pub open spec fn deps(self) -> Seq<QueryView> {
        match self.depends {
            Some(list) => list,
            None => Seq::empty(),
        }
    }
}

impl View for Package {
    type V = PackageView;

    closed spec fn view(&self) -> PackageView {
        PackageView {
            name: self.name@,
            version: self.version@,
            depends: dependencies_of(self.depends),
            set_info: set_info_view(self.set_info),
        }
    }
}

impl Package {
    /// An installed package, which owns the given paths.
    pub fn new_local(name: &str, version: Version, depends: Dependencies, paths: Vec<String>) -> (p:
        Package)
        ensures
            p@ == (PackageView {
                name: name@,
                version: version@,
                depends: dependencies_of(depends),
                set_info: Some(SetInfoView::Local(texts(paths@))),
            }),
    {
        Package {
            name: String::from_str(name),
            version,
            depends,
            set_info: Some(SetInfo::Local(InfoLocal::from(paths))),
        }
    }

    /// A package that a repository offers at the given place.
    pub fn new_universe(name: &str, version: Version, depends: Dependencies, source: &str) -> (p:
        Package)
        ensures
            p@ == (PackageView {
                name: name@,
                version: version@,
                depends: dependencies_of(depends),
                set_info: Some(SetInfoView::Universe(source@)),
            }),
    {
        Package {
            name: String::from_str(name),
            version,
            depends,
            set_info: Some(SetInfo::Universe(InfoUniverse::from(String::from_str(source)))),
        }
    }

    /// A package without files of its own.
    pub fn new_meta(name: &str, version: Version, depends: Dependencies) -> (p: Package)
        ensures
            p@ == (PackageView {
                name: name@,
                version: version@,
                depends: dependencies_of(depends),
                set_info: None,
            }),
    {
        Package { name: String::from_str(name), version, depends, set_info: None }
    }

    /// Tells whether the package has no files of its own.
    pub fn is_meta(&self) -> (b: bool)
        ensures
            b == (self@.set_info is None),
    {
        self.set_info.is_none()
    }

    /// The name of the package.
    pub fn name(&self) -> (n: &str)
        ensures
            n@ == self@.name,
    {
        self.name.as_str()
    }

    /// The version of the package.
    pub fn version(&self) -> (v: &Version)
        ensures
            v@ == self@.version,
    {
        &self.version
    }

    /// What the package depends on.
    pub fn depends(&self) -> (d: &Dependencies)
        ensures
            dependencies_of(*d) == self@.depends,
    {
        &self.depends
    }

    /// The number of dependencies.
    pub fn dep_count(&self) -> (n: usize)
        ensures
            n == self@.deps().len(),
    {
        match &self.depends {
            Some(list) => list.len(),
            None => 0,
        }
    }

    /// The dependency at position `i`.
    pub fn dep(&self, i: usize) -> (q: &Query)
        requires
            i < self@.deps().len(),
        ensures
            (q.0@, q.1@) == self@.deps()[i as int],
    {
        let list = self.depends.as_ref().unwrap();
        &list[i]
    }

    /// The part that depends on the set.
    pub fn set_info(&self) -> (s: &Option<SetInfo>)
        ensures
            set_info_view(*s) == self@.set_info,
    {
        &self.set_info
    }
}

} // verus!
