//! Decisions about files: what to do with each entry of an unpacked package,
//! and in which order to remove the paths of an installed one.

use vstd::prelude::*;
use vstd::string::{StrSliceExecFns, StringExecFns};
use crate::errors::{pairs_view, NbpmError, NbpmErrorView};
use crate::pkginfo::{join_path, prefixed_path, texts};
use crate::repo::REPO_PKG_INFO;
use crate::text::chars_of;

verus! {

/// What a path is on disk.
#[derive(Clone, Copy, Debug, PartialEq, Eq, Structural)]
pub enum PathKind {
    /// A regular file.
    File,
    /// A directory.
    Dir,
    /// Something else, or nothing.
    Other,
}

/// `i` is the position of the last `/` of the path.
pub open spec fn is_last_slash(path: Seq<char>, i: int) -> bool {
    &&& 0 <= i < path.len()
    &&& path[i] == '/'
    &&& forall|j: int| i < j < path.len() ==> path[j] != '/'
}

/// The path has no `/`.
pub open spec fn slash_free(path: Seq<char>) -> bool {
    forall|j: int| 0 <= j < path.len() ==> path[j] != '/'
}

/// The last part of a path: what follows its last `/`, or the whole path where
/// it has none.
pub open spec fn file_name(path: Seq<char>) -> Seq<char> {
    if slash_free(path) {
        path
    } else {
        path.subrange((choose|i: int| is_last_slash(path, i)) + 1, path.len() as int)
    }
}

/// Gives the last part of a path.
pub fn last_part(path: &str) -> (name: String)
    ensures
        name@ == file_name(path@),
{
    let chars = chars_of(path);
    let n = chars.len();
    let mut i: usize = n;
    while i > 0
        invariant
            i <= n,
            n == chars.len(),
            chars@ == path@,
            forall|j: int| i <= j < n ==> chars@[j] != '/',
        decreases i,
    {
        if chars[i - 1] == '/' {
            proof {
                let at = (i - 1) as int;
                assert(is_last_slash(path@, at));
                let c = choose|c: int| is_last_slash(path@, c);
                if c < at {
                    assert(path@[at] != '/');
                } else if at < c {
                    assert(path@[c] != '/');
                }
                assert(!slash_free(path@));
            }
            return String::from_str(path.substring_char(i, n));
        }
        i -= 1;
    }
    assert(slash_free(path@));
    String::from_str(path)
}

/// What to do with one entry of an unpacked package.
#[derive(Debug)]
pub enum CopyStep {
    /// Nothing: the entry is not installed.
    Skip,
    /// Make this directory, unless it is there.
    MakeDir(String),
    /// Copy the entry to this file.
    CopyTo(String),
}

/// The mathematical value of a [`CopyStep`].
pub enum CopyStepView {
    Skip,
    MakeDir(Seq<char>),
    CopyTo(Seq<char>),
}

impl View for CopyStep {
    type V = CopyStepView;

    open spec fn view(&self) -> CopyStepView {
        match self {
            CopyStep::Skip => CopyStepView::Skip,
            CopyStep::MakeDir(p) => CopyStepView::MakeDir(p@),
            CopyStep::CopyTo(p) => CopyStepView::CopyTo(p@),
        }
    }
}

/// What is done with the entry at `path`, relative to the unpacked package,
/// when the package is installed under `to`. An entry whose last part is the
/// name of the record file is never installed. A directory is made and a
/// regular file is copied, each at the same place under `to`.
pub open spec fn copy_step_of(path: Seq<char>, kind: PathKind, to: Seq<char>) -> CopyStepView {
    if file_name(path) == REPO_PKG_INFO@ {
        CopyStepView::Skip
    } else {
        match kind {
            PathKind::Dir => CopyStepView::MakeDir(join_path(to, path)),
            PathKind::File => CopyStepView::CopyTo(join_path(to, path)),
            PathKind::Other => CopyStepView::Skip,
        }
    }
}

/// Says what to do with one entry of an unpacked package.
pub fn copy_step(path: &str, kind: PathKind, to: &str) -> (step: CopyStep)
    ensures
        step@ == copy_step_of(path@, kind, to@),
{
    let name = last_part(path);
    let record_file = String::from_str(REPO_PKG_INFO);
    if name == record_file {
        return CopyStep::Skip;
    }
    match kind {
        PathKind::Dir => CopyStep::MakeDir(prefixed_path(to, path)),
        PathKind::File => CopyStep::CopyTo(prefixed_path(to, path)),
        PathKind::Other => CopyStep::Skip,
    }
}

/// The error of an installation whose files were removed again: a clean one
/// where every file was removed, else one that lists the files that were not.
pub fn rollback_error(unremoved: Vec<String>) -> (e: NbpmError)
    ensures
        e@ == if unremoved.len() == 0 {
            NbpmErrorView::CleanUnSuccessfulInstallation
        } else {
            NbpmErrorView::DirtyUnSuccessfulInstallation(texts(unremoved@))
        },
{
    if unremoved.len() == 0 {
        NbpmError::CleanUnSuccessfulInstallation
    } else {
        NbpmError::DirtyUnSuccessfulInstallation(unremoved)
    }
}

/// What to do with one path of a package that is removed.
#[derive(Clone, Copy, Debug, PartialEq, Eq, Structural)]
pub enum RemovalStep {
    /// Delete the file.
    DeleteFile,
    /// Delete the directory.
    DeleteDir,
    /// Leave the path as it is.
    Leave,
}

/// What is done with a path of the given kind: a regular file is deleted; a
/// directory is deleted only where it is empty, so that a directory that is
/// shared with another package stays; anything else is left.
pub open spec fn removal_step_of(kind: PathKind, dir_is_empty: bool) -> RemovalStep {
    match kind {
        PathKind::File => RemovalStep::DeleteFile,
        PathKind::Dir => if dir_is_empty {
            RemovalStep::DeleteDir
        } else {
            RemovalStep::Leave
        },
        PathKind::Other => RemovalStep::Leave,
    }
}

/// Says what to do with one path of a package that is removed.
pub fn removal_step(kind: PathKind, dir_is_empty: bool) -> (step: RemovalStep)
    ensures
        step == removal_step_of(kind, dir_is_empty),
{
    match kind {
        PathKind::File => RemovalStep::DeleteFile,
        PathKind::Dir => if dir_is_empty {
            RemovalStep::DeleteDir
        } else {
            RemovalStep::Leave
        },
        PathKind::Other => RemovalStep::Leave,
    }
}

/// The paths among the first `k` that are directories (`dirs`) or that are not
/// (`!dirs`), in order.
pub open spec fn picked(paths: Seq<Seq<char>>, kinds: Seq<PathKind>, k: nat, dirs: bool) -> Seq<
    Seq<char>,
>
    decreases k,
{
    if k == 0 {
        Seq::empty()
    } else {
        let before = picked(paths, kinds, (k - 1) as nat, dirs);
        if (kinds[k - 1] == PathKind::Dir) == dirs {
            before.push(paths[k - 1])
        } else {
            before
        }
    }
}

/// The order in which the paths of a package are removed: first every path
/// that is no directory, then the directories, each group in the order of the
/// paths.
pub open spec fn removal_order_of(paths: Seq<Seq<char>>, kinds: Seq<PathKind>) -> Seq<Seq<char>> {
    picked(paths, kinds, paths.len(), false) + picked(paths, kinds, paths.len(), true)
}

/// Puts the paths of a package in the order in which they are removed, given
/// what each of them is on disk.
pub fn removal_order(paths: &Vec<String>, kinds: &Vec<PathKind>) -> (order: Vec<String>)
    requires
        paths.len() == kinds.len(),
    ensures
        texts(order@) == removal_order_of(texts(paths@), kinds@),
{
    let ghost all = texts(paths@);
    let mut order: Vec<String> = Vec::new();
    let mut dirs: Vec<String> = Vec::new();
    let mut k: usize = 0;
    while k < paths.len()
        invariant
            k <= paths.len(),
            paths.len() == kinds.len(),
            all == texts(paths@),
            texts(order@) == picked(all, kinds@, k as nat, false),
            texts(dirs@) == picked(all, kinds@, k as nat, true),
        decreases paths.len() - k,
    {
        let ghost order0 = texts(order@);
        let ghost dirs0 = texts(dirs@);
        let is_dir = match kinds[k] {
            PathKind::Dir => true,
            _ => false,
        };
        if is_dir {
            dirs.push(paths[k].clone());
            assert(texts(dirs@) =~= dirs0.push(all[k as int]));
        } else {
            order.push(paths[k].clone());
            assert(texts(order@) =~= order0.push(all[k as int]));
        }
        k += 1;
    }
    let ghost a = order@;
    let ghost b = dirs@;
    order.append(&mut dirs);
    proof {
        assert(texts(a + b) =~= texts(a) + texts(b));
    }
    order
}

/// How the removal of the files of one package went: well where nothing
/// failed, else with the paths that could not be removed, each with the cause.
pub fn removal_outcome(failures: Vec<(String, String)>) -> (r: Result<(), NbpmError>)
    ensures
        match r {
            Ok(_) => failures.len() == 0,
            Err(e) => failures.len() > 0 && e@ == NbpmErrorView::CannotRemove(pairs_view(failures@)),
        },
{
    if failures.len() == 0 {
        Ok(())
    } else {
        Err(NbpmError::CannotRemove(failures))
    }
}

} // verus!
