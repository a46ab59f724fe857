//! The errors of the package database and of the resolver.

use vstd::prelude::*;
use vstd::string::StringExecFns;
use crate::requirement::{requirement_text, VersionReq, VersionReqView};
use crate::set::PkgSet;
use crate::version::{version_text, Version, VersionView};

verus! {

/// An error of the package database, of the resolver or of a helper.
#[derive(Debug)]
pub enum NbError {
    /// A file is missing: its name.
    MissingFile(String),
    /// A dependency is not there: its name, and the package that needs it.
    MissingDependency(String, String),
    /// A dependency is there in a version that does not meet the requirement:
    /// its name, the requirement, the version found, and the package that needs
    /// it.
    BrokenDependency(String, VersionReq, Version, String),
    /// Removing a package would break another: the package to remove, and the
    /// one that needs it.
    RemoveBreaksPkg(String, String),
    /// No package of this name.
    PkgNotFound(String),
    /// A record does not belong to the set of its database: the package, and
    /// the set of the database.
    BrokenSetConsistency(String, PkgSet),
    /// A database could not be loaded: the cause.
    PkgDbLoad(String),
    /// The server answered a request with an error: its status.
    ServerError(String),
    /// The server refused a request as wrong: its status.
    ClientError(String),
    /// A child process could not be started: the program and the cause.
    CmdStartChild(String),
    /// A child process failed: the command and what it wrote.
    CmdChildErr(String),
}

/// The mathematical value of an [`NbError`].
pub enum NbErrorView {
    MissingFile(Seq<char>),
    MissingDependency(Seq<char>, Seq<char>),
    BrokenDependency(Seq<char>, VersionReqView, VersionView, Seq<char>),
    RemoveBreaksPkg(Seq<char>, Seq<char>),
    PkgNotFound(Seq<char>),
    BrokenSetConsistency(Seq<char>, PkgSet),
    PkgDbLoad(Seq<char>),
    ServerError(Seq<char>),
    ClientError(Seq<char>),
    CmdStartChild(Seq<char>),
    CmdChildErr(Seq<char>),
}

impl View for NbError {
    type V = NbErrorView;

    open spec fn view(&self) -> NbErrorView {
        match self {
            NbError::MissingFile(f) => NbErrorView::MissingFile(f@),
            NbError::MissingDependency(d, p) => NbErrorView::MissingDependency(d@, p@),
            NbError::BrokenDependency(d, r, v, p) => NbErrorView::BrokenDependency(d@, r@, v@, p@),
            NbError::RemoveBreaksPkg(r, b) => NbErrorView::RemoveBreaksPkg(r@, b@),
            NbError::PkgNotFound(n) => NbErrorView::PkgNotFound(n@),
            NbError::BrokenSetConsistency(n, s) => NbErrorView::BrokenSetConsistency(n@, *s),
            NbError::PkgDbLoad(c) => NbErrorView::PkgDbLoad(c@),
            NbError::ServerError(c) => NbErrorView::ServerError(c@),
            NbError::ClientError(c) => NbErrorView::ClientError(c@),
            NbError::CmdStartChild(c) => NbErrorView::CmdStartChild(c@),
            NbError::CmdChildErr(c) => NbErrorView::CmdChildErr(c@),
        }
    }
}

/// The text of an error of the database.
pub open spec fn nb_error_text(e: NbErrorView) -> Seq<char> {
    match e {
        NbErrorView::MissingFile(f) => "Missing file "@ + f,
        NbErrorView::MissingDependency(d, p) => "Missing dependency "@ + d + " required by "@ + p,
        NbErrorView::BrokenDependency(d, r, v, p) => "Broken dependency. Expected version ("@
            + requirement_text(r) + "), got ("@ + version_text(v) + "): "@ + d + " required by "@
            + p,
        NbErrorView::RemoveBreaksPkg(r, b) => "Removing package "@ + r + " breaks package "@ + b,
        NbErrorView::PkgNotFound(n) => "Package "@ + n + " not found"@,
        NbErrorView::BrokenSetConsistency(n, s) => "Package "@ + n
            + " breaks set consistency. The expected set is "@ + s.spec_tag() + "."@,
        NbErrorView::PkgDbLoad(c) => "Cannot load PkgDb: "@ + c,
        NbErrorView::ServerError(c) => "Server side net error: "@ + c,
        NbErrorView::ClientError(c) => "Client side net error: "@ + c,
        NbErrorView::CmdStartChild(c) => "Cannot start child process: "@ + c,
        NbErrorView::CmdChildErr(c) => "Child process returned error status: "@ + c,
    }
}

/// The two texts one after the other.
fn two(a: &str, b: &str) -> (s: String)
    ensures
        s@ == a@ + b@,
{
    let mut s = String::from_str(a);
    s.append(b);
    s
}

impl NbError {
    /// The text of the error, as it is shown to a user.
    pub fn message(&self) -> (s: String)
        ensures
            s@ == nb_error_text(self@),
    {
        match self {
            NbError::MissingFile(f) => two("Missing file ", f.as_str()),
            NbError::MissingDependency(d, p) => {
                let mut s = two("Missing dependency ", d.as_str());
                s.append(" required by ");
                s.append(p.as_str());
                s
            },
            NbError::BrokenDependency(d, r, v, p) => {
                let req = r.to_text();
                let ver = v.to_text();
                let mut s = two("Broken dependency. Expected version (", req.as_str());
                s.append("), got (");
                s.append(ver.as_str());
                s.append("): ");
                s.append(d.as_str());
                s.append(" required by ");
                s.append(p.as_str());
                s
            },
            NbError::RemoveBreaksPkg(r, b) => {
                let mut s = two("Removing package ", r.as_str());
                s.append(" breaks package ");
                s.append(b.as_str());
                s
            },
            NbError::PkgNotFound(n) => {
                let mut s = two("Package ", n.as_str());
                s.append(" not found");
                s
            },
            NbError::BrokenSetConsistency(n, set) => {
                let mut s = two("Package ", n.as_str());
                s.append(" breaks set consistency. The expected set is ");
                s.append(set.tag());
                s.append(".");
                s
            },
            NbError::PkgDbLoad(c) => two("Cannot load PkgDb: ", c.as_str()),
            NbError::ServerError(c) => two("Server side net error: ", c.as_str()),
            NbError::ClientError(c) => two("Client side net error: ", c.as_str()),
            NbError::CmdStartChild(c) => two("Cannot start child process: ", c.as_str()),
            NbError::CmdChildErr(c) => two("Child process returned error status: ", c.as_str()),
        }
    }
}

/// An error of the package manager.
#[derive(Debug)]
pub enum NbpmError {
    /// The configuration could not be loaded: the cause.
    ConfigLoad(String),
    /// The local database could not be loaded: the file and the cause.
    LocalDbLoad(String),
    /// The index of the repository could not be loaded: the file and the cause.
    RepoIndexLoad(String),
    /// An installation failed, and every file that it had installed was
    /// removed again.
    CleanUnSuccessfulInstallation,
    /// An installation failed, and these installed files could not be removed.
    DirtyUnSuccessfulInstallation(Vec<String>),
    /// A package would have to be replaced by an older version: its name, the
    /// installed version, and the version asked for.
    RequiresPkgDowngrade(String, Version, Version),
    /// Files or directories could not be removed: each path with the cause.
    CannotRemove(Vec<(String, String)>),
    /// Packages could not be removed: each name with the cause.
    CannotRemovePkgs(Vec<(String, String)>),
}

/// The mathematical value of an [`NbpmError`].
pub enum NbpmErrorView {
    ConfigLoad(Seq<char>),
    LocalDbLoad(Seq<char>),
    RepoIndexLoad(Seq<char>),
    CleanUnSuccessfulInstallation,
    DirtyUnSuccessfulInstallation(Seq<Seq<char>>),
    RequiresPkgDowngrade(Seq<char>, VersionView, VersionView),
    CannotRemove(Seq<(Seq<char>, Seq<char>)>),
    CannotRemovePkgs(Seq<(Seq<char>, Seq<char>)>),
}

/// The values of a list of pairs of texts, in order.
pub open spec fn pairs_view(list: Seq<(String, String)>) -> Seq<(Seq<char>, Seq<char>)> {
    list.map_values(|p: (String, String)| (p.0@, p.1@))
}

impl View for NbpmError {
    type V = NbpmErrorView;

    open spec fn view(&self) -> NbpmErrorView {
        match self {
            NbpmError::ConfigLoad(c) => NbpmErrorView::ConfigLoad(c@),
            NbpmError::LocalDbLoad(c) => NbpmErrorView::LocalDbLoad(c@),
            NbpmError::RepoIndexLoad(c) => NbpmErrorView::RepoIndexLoad(c@),
            NbpmError::CleanUnSuccessfulInstallation => NbpmErrorView::CleanUnSuccessfulInstallation,
            NbpmError::DirtyUnSuccessfulInstallation(paths) => NbpmErrorView::DirtyUnSuccessfulInstallation(
                crate::pkginfo::texts(paths@),
            ),
            NbpmError::RequiresPkgDowngrade(n, a, b) => NbpmErrorView::RequiresPkgDowngrade(
                n@,
                a@,
                b@,
            ),
            NbpmError::CannotRemove(list) => NbpmErrorView::CannotRemove(pairs_view(list@)),
            NbpmError::CannotRemovePkgs(list) => NbpmErrorView::CannotRemovePkgs(pairs_view(list@)),
        }
    }
}

/// One line for each text: the lead, the text, and a line break.
pub open spec fn listing(lead: Seq<char>, items: Seq<Seq<char>>) -> Seq<char>
    decreases items.len(),
{
    if items.len() == 0 {
        Seq::empty()
    } else {
        listing(lead, items.drop_last()) + lead + items.last() + "\n"@
    }
}

/// One line for each pair: the lead, the first text, a colon and a blank, the
/// second text, and a line break.
pub open spec fn pair_listing(lead: Seq<char>, items: Seq<(Seq<char>, Seq<char>)>) -> Seq<char>
    decreases items.len(),
{
    if items.len() == 0 {
        Seq::empty()
    } else {
        pair_listing(lead, items.drop_last()) + lead + items.last().0 + ": "@ + items.last().1
            + "\n"@
    }
}

/// The text of an error of the package manager.
pub open spec fn nbpm_error_text(e: NbpmErrorView) -> Seq<char> {
    match e {
        NbpmErrorView::ConfigLoad(c) => "Cannot load configuration: "@ + c,
        NbpmErrorView::LocalDbLoad(c) => "Cannot load local package database: "@ + c,
        NbpmErrorView::RepoIndexLoad(c) => "Cannot load repository index: "@ + c,
        NbpmErrorView::CleanUnSuccessfulInstallation =>
            "Clean unsuccessful installation. All installed files have been removed."@,
        NbpmErrorView::DirtyUnSuccessfulInstallation(paths) =>
            "Dirty unsuccessful installation. Cannot remove some installed files:\n"@ + listing(
                "  "@,
                paths,
            ),
        NbpmErrorView::RequiresPkgDowngrade(n, a, b) => "Required to downgrade "@ + n
            + " from version "@ + version_text(a) + " to "@ + version_text(b),
        NbpmErrorView::CannotRemove(list) => "Cannot remove the following files or directories:\n"@
            + pair_listing("    * "@, list),
        NbpmErrorView::CannotRemovePkgs(list) => "The following packages could not be removed:\n"@
            + pair_listing("  - "@, list),
    }
}

/// Writes one line for each text.
fn write_listing(lead: &str, items: &Vec<String>) -> (s: String)
    ensures
        s@ == listing(lead@, crate::pkginfo::texts(items@)),
{
    let ghost all = crate::pkginfo::texts(items@);
    let mut s = String::new();
    let mut i: usize = 0;
    while i < items.len()
        invariant
            i <= items.len(),
            all == crate::pkginfo::texts(items@),
            s@ == listing(lead@, all.take(i as int)),
        decreases items.len() - i,
    {
        proof {
            assert(all.take(i + 1).drop_last() =~= all.take(i as int));
            assert(all.take(i + 1).last() == items@[i as int]@);
        }
        s.append(lead);
        s.append(items[i].as_str());
        s.append("\n");
        i += 1;
    }
    assert(all.take(items.len() as int) =~= all);
    s
}

/// Writes one line for each pair of texts.
fn write_pair_listing(lead: &str, items: &Vec<(String, String)>) -> (s: String)
    ensures
        s@ == pair_listing(lead@, pairs_view(items@)),
{
    let ghost all = pairs_view(items@);
    let mut s = String::new();
    let mut i: usize = 0;
    while i < items.len()
        invariant
            i <= items.len(),
            all == pairs_view(items@),
            s@ == pair_listing(lead@, all.take(i as int)),
        decreases items.len() - i,
    {
        proof {
            assert(all.take(i + 1).drop_last() =~= all.take(i as int));
            assert(all.take(i + 1).last() == (items@[i as int].0@, items@[i as int].1@));
        }
        s.append(lead);
        s.append(items[i].0.as_str());
        s.append(": ");
        s.append(items[i].1.as_str());
        s.append("\n");
        i += 1;
    }
    assert(all.take(items.len() as int) =~= all);
    s
}

impl NbpmError {
    /// The text of the error, as it is shown to a user.
    pub fn message(&self) -> (s: String)
        ensures
            s@ == nbpm_error_text(self@),
    {
        match self {
            NbpmError::ConfigLoad(c) => two("Cannot load configuration: ", c.as_str()),
            NbpmError::LocalDbLoad(c) => two("Cannot load local package database: ", c.as_str()),
            NbpmError::RepoIndexLoad(c) => two("Cannot load repository index: ", c.as_str()),
            NbpmError::CleanUnSuccessfulInstallation => String::from_str(
                "Clean unsuccessful installation. All installed files have been removed.",
            ),
            NbpmError::DirtyUnSuccessfulInstallation(paths) => {
                let lines = write_listing("  ", paths);
                two(
                    "Dirty unsuccessful installation. Cannot remove some installed files:\n",
                    lines.as_str(),
                )
            },
            NbpmError::RequiresPkgDowngrade(n, a, b) => {
                let from = a.to_text();
                let to = b.to_text();
                let mut s = two("Required to downgrade ", n.as_str());
                s.append(" from version ");
                s.append(from.as_str());
                s.append(" to ");
                s.append(to.as_str());
                s
            },
            NbpmError::CannotRemove(list) => {
                let lines = write_pair_listing("    * ", list);
                two("Cannot remove the following files or directories:\n", lines.as_str())
            },
            NbpmError::CannotRemovePkgs(list) => {
                let lines = write_pair_listing("  - ", list);
                two("The following packages could not be removed:\n", lines.as_str())
            },
        }
    }
}

} // verus!
