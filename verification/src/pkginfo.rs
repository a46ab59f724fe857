//! Package records: what a database knows of one package.

use vstd::prelude::*;
use vstd::string::{StrSliceExecFns, StringExecFns};
use crate::query::{Query, QueryView};
use crate::requirement::VersionReq;
use crate::set::PkgSet;
use crate::version::{Version, VersionView};
use crate::wrappers::{DependencyWrap, VersionWrap};

verus! {

/// The path starts with exactly `k` characters `/`.
pub open spec fn is_root_end(p: Seq<char>, k: int) -> bool {
    &&& 0 <= k <= p.len()
    &&& forall|i: int| 0 <= i < k ==> p[i] == '/'
    &&& k < p.len() ==> p[k] != '/'
}

/// The path without the `/` that it starts with: the path relative to the
/// root.
pub open spec fn without_root(p: Seq<char>) -> Seq<char> {
    p.subrange(choose|k: int| is_root_end(p, k), p.len() as int)
}

/// The path relative to the root is what follows the `/` at its start.
pub proof fn lemma_without_root(p: Seq<char>, k: int)
    requires
        is_root_end(p, k),
    ensures
        without_root(p) == p.subrange(k, p.len() as int),
        without_root(p).len() > 0 ==> without_root(p)[0] != '/',
{
    let c = choose|c: int| is_root_end(p, c);
    if c < k {
        assert(p[c] == '/');
    } else if k < c {
        assert(p[k] == '/');
    }
}

/// The path `p` under the directory `prefix`: the prefix, one `/` unless the
/// prefix is empty or ends in one, and `p` relative to the root. A path that
/// starts at the root is put under the directory like any other.
pub open spec fn join_path(prefix: Seq<char>, p: Seq<char>) -> Seq<char> {
    if prefix.len() == 0 {
        without_root(p)
    } else if prefix.last() == '/' {
        prefix + without_root(p)
    } else {
        prefix + seq!['/'] + without_root(p)
    }
}

/// A path that is put under a directory lies under it: the result starts with
/// the directory and ends with the path relative to the root, and between the
/// two stands at most one `/`.
pub proof fn lemma_join_anchored(prefix: Seq<char>, p: Seq<char>)
    ensures
        prefix.is_prefix_of(join_path(prefix, p)),
        without_root(p).is_suffix_of(join_path(prefix, p)),
        join_path(prefix, p).len() <= prefix.len() + 1 + without_root(p).len(),
{
    let rest = without_root(p);
    let joined = join_path(prefix, p);
    assert(joined.subrange(0, prefix.len() as int) =~= prefix);
    assert(joined.subrange(joined.len() - rest.len(), joined.len() as int) =~= rest);
}

/// Gives a path relative to the root.
pub fn relative_path(p: &str) -> (rest: &str)
    ensures
        rest@ == without_root(p@),
{
    let n = p.unicode_len();
    let mut k: usize = 0;
    while k < n && p.get_char(k) == '/'
        invariant
            n == p@.len(),
            k <= n,
            forall|i: int| 0 <= i < k ==> p@[i] == '/',
        decreases n - k,
    {
        k += 1;
    }
    proof {
        lemma_without_root(p@, k as int);
    }
    p.substring_char(k, n)
}

/// Puts a path under a directory.
pub fn prefixed_path(prefix: &str, p: &str) -> (joined: String)
    ensures
        joined@ == join_path(prefix@, p@),
{
    let n = prefix.unicode_len();
    let rest = relative_path(p);
    if n == 0 {
        return String::from_str(rest);
    }
    let mut joined = String::from_str(prefix);
    if prefix.get_char(n - 1) != '/' {
        proof {
            reveal_strlit("/");
        }
        joined.append("/");
        assert(joined@ =~= prefix@ + seq!['/']);
    }
    joined.append(rest);
    joined
}

/// What a universe database knows of a package beyond the common part.
#[derive(Debug)]
pub struct InfoUniverse {
    location: String,
}

impl InfoUniverse {
    /// The location as a sequence of characters.
    pub closed spec fn spec_location(&self) -> Seq<char> {
        self.location@
    }

    /// A record part with the given place in the repository.
    pub fn from(location: String) -> (info: InfoUniverse)
        ensures
            info.spec_location() == location@,
    {
        InfoUniverse { location }
    }

    /// The place of the package's archive in the repository.
    pub fn location(&self) -> (l: &str)
        ensures
            l@ == self.spec_location(),
    {
        self.location.as_str()
    }
}

impl Clone for InfoUniverse {
    fn clone(&self) -> (copy: InfoUniverse)
        ensures
            copy.spec_location() == self.spec_location(),
    {
        InfoUniverse { location: self.location.clone() }
    }
}

/// The texts of a list, in order.
pub open spec fn texts(list: Seq<String>) -> Seq<Seq<char>> {
    list.map_values(|s: String| s@)
}

/// Copies a list of texts.
pub fn clone_texts(list: &Vec<String>) -> (copy: Vec<String>)
    ensures
        texts(copy@) == texts(list@),
{
    let mut copy: Vec<String> = Vec::new();
    let mut i: usize = 0;
    while i < list.len()
        invariant
            i <= list.len(),
            copy.len() == i,
            forall|k: int| 0 <= k < i ==> copy@[k]@ == list@[k]@,
        decreases list.len() - i,
    {
        copy.push(list[i].clone());
        i += 1;
    }
    assert(texts(copy@) =~= texts(list@));
    copy
}

/// What the local database knows of a package beyond the common part.
#[derive(Debug)]
pub struct InfoLocal {
    paths: Vec<String>,
}

impl InfoLocal {
    /// The paths as sequences of characters, in order.
    pub closed spec fn spec_paths(&self) -> Seq<Seq<char>> {
        texts(self.paths@)
    }

    /// A record part with the given paths.
    pub fn from(paths: Vec<String>) -> (info: InfoLocal)
        ensures
            info.spec_paths() == texts(paths@),
    {
        InfoLocal { paths }
    }

    /// The paths that the package owns.
    pub fn paths(&self) -> (p: &Vec<String>)
        ensures
            texts(p@) == self.spec_paths(),
    {
        &self.paths
    }

    /// Puts every path under the directory `prefix`: each new path starts with
    /// the prefix and ends with the old path relative to the root, so that no
    /// path is left outside the directory.
    pub fn set_path_prefix(&mut self, prefix: &str)
        ensures
            final(self).spec_paths().len() == old(self).spec_paths().len(),
            forall|i: int|
                0 <= i < old(self).spec_paths().len() ==> #[trigger] final(self).spec_paths()[i]
                    == join_path(prefix@, old(self).spec_paths()[i]),
            forall|i: int|
                0 <= i < old(self).spec_paths().len() ==> prefix@.is_prefix_of(
                    #[trigger] final(self).spec_paths()[i],
                ) && without_root(old(self).spec_paths()[i]).is_suffix_of(
                    final(self).spec_paths()[i],
                ),
    {
        let mut moved: Vec<String> = Vec::new();
        let mut i: usize = 0;
        while i < self.paths.len()
            invariant
                i <= self.paths.len(),
                moved.len() == i,
                *self == *old(self),
                forall|k: int|
                    0 <= k < i ==> (#[trigger] moved@[k])@ == join_path(prefix@, self.paths@[k]@),
            decreases self.paths.len() - i,
        {
            moved.push(prefixed_path(prefix, self.paths[i].as_str()));
            i += 1;
        }
        self.paths = moved;
        assert forall|i: int| 0 <= i < old(self).spec_paths().len() implies #[trigger] self.spec_paths()[i]
            == join_path(prefix@, old(self).spec_paths()[i]) by {
            assert(self.paths@[i]@ == join_path(prefix@, old(self).paths@[i]@));
        }
        assert forall|i: int| 0 <= i < old(self).spec_paths().len() implies prefix@.is_prefix_of(
            #[trigger] self.spec_paths()[i],
        ) && without_root(old(self).spec_paths()[i]).is_suffix_of(self.spec_paths()[i]) by {
            lemma_join_anchored(prefix@, old(self).spec_paths()[i]);
        }
    }
}

impl Clone for InfoLocal {
    fn clone(&self) -> (copy: InfoLocal)
        ensures
            copy.spec_paths() == self.spec_paths(),
    {
        InfoLocal { paths: clone_texts(&self.paths) }
    }
}

/// The part of a record that depends on the set of its database.
#[derive(Debug)]
pub enum SetInfo {
    /// Of a package that a repository offers.
    Universe(InfoUniverse),
    /// Of an installed package.
    Local(InfoLocal),
}

/// The mathematical value of a [`SetInfo`].
pub enum SetInfoView {
    /// The place of the archive in the repository.
    Universe(Seq<char>),
    /// The paths that the package owns.
    Local(Seq<Seq<char>>),
}

impl View for SetInfo {
    type V = SetInfoView;

    open spec fn view(&self) -> SetInfoView {
        match self {
            SetInfo::Universe(u) => SetInfoView::Universe(u.spec_location()),
            SetInfo::Local(l) => SetInfoView::Local(l.spec_paths()),
        }
    }
}

impl Clone for SetInfo {
    fn clone(&self) -> (copy: SetInfo)
        ensures
            copy@ == self@,
    {
        match self {
            SetInfo::Universe(u) => SetInfo::Universe(u.clone()),
            SetInfo::Local(l) => SetInfo::Local(l.clone()),
        }
    }
}

impl SetInfoView {
    /// The set that the part belongs to.
    pub open spec fn set(self) -> PkgSet {
        match self {
            SetInfoView::Universe(_) => PkgSet::Universe,
            SetInfoView::Local(_) => PkgSet::Local,
        }
    }
}

/// The value of a set-dependent part that may be absent.
pub open spec fn set_info_view(s: Option<SetInfo>) -> Option<SetInfoView> {
    match s {
        Some(i) => Some(i@),
        None => None,
    }
}

/// The values of a list of dependencies, in order.
pub open spec fn dependencies_view(list: Seq<DependencyWrap>) -> Seq<QueryView> {
    list.map_values(|d: DependencyWrap| d@)
}

/// The values of a list of queries, in order.
pub open spec fn queries_view(list: Seq<Query>) -> Seq<QueryView> {
    list.map_values(|q: Query| (q.0@, q.1@))
}

/// Copies a list of dependencies.
pub fn clone_dependencies(list: &Vec<DependencyWrap>) -> (copy: Vec<DependencyWrap>)
    ensures
        dependencies_view(copy@) == dependencies_view(list@),
{
    let mut copy: Vec<DependencyWrap> = Vec::new();
    let mut i: usize = 0;
    while i < list.len()
        invariant
            i <= list.len(),
            copy.len() == i,
            forall|k: int| 0 <= k < i ==> copy@[k]@ == list@[k]@,
        decreases list.len() - i,
    {
        copy.push(list[i].clone());
        i += 1;
    }
    assert(dependencies_view(copy@) =~= dependencies_view(list@));
    copy
}

/// All that a database knows of one package.
#[derive(Debug)]
pub struct PkgInfo {
    version: VersionWrap,
    depends: Option<Vec<DependencyWrap>>,
    description: String,
    set_info: Option<SetInfo>,
}

/// The mathematical value of a [`PkgInfo`].
pub struct PkgInfoView {
    pub version: VersionView,
    pub depends: Option<Seq<QueryView>>,
    pub description: Seq<char>,
    pub set_info: Option<SetInfoView>,
}

impl PkgInfoView {
    /// The dependencies of the record: none where the list is absent.
    pub open spec fn deps(self) -> Seq<QueryView> {
        match self.depends {
            Some(list) => list,
            None => Seq::empty(),
        }
    }

    /// The record has no part that depends on a set: it stands for a package
    /// without files of its own.
    pub open spec fn is_meta(self) -> bool {
        self.set_info is None
    }

    /// The record may stand in a database of the given set.
    pub open spec fn fits(self, set: PkgSet) -> bool {
        self.set_info matches Some(s) ==> s.set() == set
    }
}

impl PkgInfoView {
    /// The record with every path that the package owns put under the
    /// directory `prefix`, as `join_path` puts it: none stays outside.
    pub open spec fn prefixed(self, prefix: Seq<char>) -> PkgInfoView {
        match self.set_info {
            Some(SetInfoView::Local(paths)) => PkgInfoView {
                set_info: Some(
                    SetInfoView::Local(paths.map_values(|p: Seq<char>| join_path(prefix, p))),
                ),
                ..self
            },
            _ => self,
        }
    }
}

impl View for PkgInfo {
    type V = PkgInfoView;

    closed spec fn view(&self) -> PkgInfoView {
        PkgInfoView {
            version: self.version@,
            depends: match self.depends {
                Some(list) => Some(dependencies_view(list@)),
                None => None,
            },
            description: self.description@,
            set_info: set_info_view(self.set_info),
        }
    }
}

impl Clone for PkgInfo {
    fn clone(&self) -> (copy: PkgInfo)
        ensures
            copy@ == self@,
    {
        PkgInfo {
            version: self.version.clone(),
            depends: match &self.depends {
                Some(list) => Some(clone_dependencies(list)),
                None => None,
            },
            description: self.description.clone(),
            set_info: match &self.set_info {
                Some(s) => Some(s.clone()),
                None => None,
            },
        }
    }
}

impl PkgInfo {
    /// A record of the given parts.
    pub fn from(
        version: VersionWrap,
        depends: Option<Vec<DependencyWrap>>,
        description: String,
        set_info: Option<SetInfo>,
    ) -> (info: PkgInfo)
        ensures
            info@ == (PkgInfoView {
                version: version@,
                depends: match depends {
                    Some(list) => Some(dependencies_view(list@)),
                    None => None,
                },
                description: description@,
                set_info: set_info_view(set_info),
            }),
    {
        PkgInfo { version, depends, description, set_info }
    }

    /// The version of the package.
    pub fn version(&self) -> (v: &Version)
        ensures
            v@ == self@.version,
    {
        self.version.inner()
    }

    /// The description of the package.
    pub fn description(&self) -> (d: &str)
        ensures
            d@ == self@.description,
    {
        self.description.as_str()
    }

    /// A copy of the dependencies, where the record has a list of them.
    pub fn depends(&self) -> (deps: Option<Vec<Query>>)
        ensures
            match deps {
                Some(list) => self@.depends == Some(queries_view(list@)),
                None => self@.depends is None,
            },
    {
        match &self.depends {
            Some(list) => {
                let mut copy: Vec<Query> = Vec::new();
                let mut i: usize = 0;
                while i < list.len()
                    invariant
                        i <= list.len(),
                        copy.len() == i,
                        forall|k: int|
                            0 <= k < i ==> ((#[trigger] copy@[k]).0@, copy@[k].1@) == list@[k]@,
                    decreases list.len() - i,
                {
                    let a = list[i].inner();
                    copy.push((a.0.clone(), a.1.clone()));
                    i += 1;
                }
                assert(queries_view(copy@) =~= dependencies_view(list@));
                Some(copy)
            },
            None => None,
        }
    }

    /// The number of dependencies.
    pub fn dep_count(&self) -> (n: usize)
        ensures
            n == self@.deps().len(),
    {
        match &self.depends {
            Some(list) => list.len(),
            None => 0,
        }
    }

    /// The dependency at position `i`.
    pub fn dep(&self, i: usize) -> (q: (&String, &VersionReq))
        requires
            i < self@.deps().len(),
        ensures
            (q.0@, q.1@) == self@.deps()[i as int],
    {
        let list = self.depends.as_ref().unwrap();
        list[i].inner()
    }

    /// The part of the record that depends on the set.
    pub fn set_info(&self) -> (s: &Option<SetInfo>)
        ensures
            set_info_view(*s) == self@.set_info,
    {
        &self.set_info
    }

    /// The part of the record that depends on the set, to change it in place.
    pub fn mut_set_info(&mut self) -> (s: &mut Option<SetInfo>)
        ensures
            set_info_view(*s) == old(self)@.set_info,
            final(self)@ == (PkgInfoView { set_info: set_info_view(*final(s)), ..old(self)@ }),
    {
        &mut self.set_info
    }

    /// Puts every path that the package owns under the directory `prefix`. A
    /// record without paths stays as it is.
    pub fn with_path_prefix(self, prefix: &str) -> (info: PkgInfo)
        ensures
            info@ == self@.prefixed(prefix@),
    {
        let PkgInfo { version, depends, description, set_info } = self;
        match set_info {
            Some(SetInfo::Local(l)) => {
                let mut l = l;
                let ghost before = l.spec_paths();
                l.set_path_prefix(prefix);
                proof {
                    assert(l.spec_paths() =~= before.map_values(
                        |p: Seq<char>| join_path(prefix@, p),
                    ));
                }
                PkgInfo { version, depends, description, set_info: Some(SetInfo::Local(l)) }
            },
            other => PkgInfo { version, depends, description, set_info: other },
        }
    }

    /// Tells whether the record stands for a package without files of its own.
    pub fn is_meta(&self) -> (b: bool)
        ensures
            b == self@.is_meta(),
    {
        self.set_info.is_none()
    }

    /// Tells whether the record may stand in a database of the given set.
    pub fn fits(&self, set: PkgSet) -> (b: bool)
        ensures
            b == self@.fits(set),
    {
        match &self.set_info {
            None => true,
            Some(SetInfo::Universe(_)) => set == PkgSet::Universe,
            Some(SetInfo::Local(_)) => set == PkgSet::Local,
        }
    }
}

/// A record under the name of its package.
pub type Named = (String, PkgInfo);

/// The mathematical value of a [`Named`].
pub type NamedView = (Seq<char>, PkgInfoView);

/// The values of a list of named records, in order.
pub open spec fn named_view(list: Seq<Named>) -> Seq<NamedView> {
    list.map_values(|r: Named| (r.0@, r.1@))
}

} // verus!
