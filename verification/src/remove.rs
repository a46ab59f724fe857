//! What is decided around a removal: which packages go, that none of those that
//! stay needs them, and what becomes of the local database afterwards.

use vstd::prelude::*;
use crate::errors::{pairs_view, NbError, NbErrorView, NbpmError, NbpmErrorView};
use crate::pkgdb::{lemma_removed, PkgDb};
use crate::pkginfo::{clone_texts, texts, PkgInfoView, SetInfo, SetInfoView};
use crate::requirement::req_matches;
use crate::resolve::{
    breaks, first_break, removable, resolution_error, resolvable, roots_present, selection_names,
    wanted,
};
use crate::set::PkgSet;

verus! {

/// One package to remove: its name and the paths it owns.
#[derive(Debug)]
pub struct Removal {
    pub name: String,
    pub paths: Vec<String>,
}

/// The paths that a record owns: none unless it is the record of an installed
/// package.
pub open spec fn owned_paths(info: PkgInfoView) -> Seq<Seq<char>> {
    match info.set_info {
        Some(SetInfoView::Local(paths)) => paths,
        _ => Seq::empty(),
    }
}

/// The names of a list of removals, in order.
pub open spec fn removal_names(plan: Seq<Removal>) -> Seq<Seq<char>> {
    plan.map_values(|r: Removal| r.name@)
}

/// Removing what the selection resolves to breaks the dependency at position
/// `j` of the package at position `p` of the database: that package stays, and
/// the dependency names a package that goes, whose version meets the
/// requirement.
pub open spec fn breaks_wanted(
    db: PkgDb,
    roots: Seq<Seq<char>>,
    follow: bool,
    p: int,
    j: int,
) -> bool {
    let dep = db.infos()[p].deps()[j];
    &&& !wanted(db, roots, follow, db.names()[p])
    &&& wanted(db, roots, follow, dep.0)
    &&& db.has(dep.0)
    &&& req_matches(dep.1, db.record(dep.0).version)
}

/// The dependency at `(p, j)` is broken by the removal, and it is the first
/// such in the order of the database and, within a package, of its
/// dependencies.
pub open spec fn first_wanted_break(
    db: PkgDb,
    roots: Seq<Seq<char>>,
    follow: bool,
    p: int,
    j: int,
) -> bool {
    &&& 0 <= p < db.names().len()
    &&& 0 <= j < db.infos()[p].deps().len()
    &&& breaks_wanted(db, roots, follow, p, j)
    &&& forall|q: int, j2: int|
        0 <= q < p && 0 <= j2 < db.infos()[q].deps().len() ==> !#[trigger] breaks_wanted(
            db,
            roots,
            follow,
            q,
            j2,
        )
    &&& forall|j2: int| 0 <= j2 < j ==> !#[trigger] breaks_wanted(db, roots, follow, p, j2)
}

/// No package that stays depends on a package that goes.
pub open spec fn conflict_free(db: PkgDb, roots: Seq<Seq<char>>, follow: bool) -> bool {
    forall|p: int, j: int|
        0 <= p < db.names().len() && 0 <= j < db.infos()[p].deps().len()
            ==> !#[trigger] breaks_wanted(db, roots, follow, p, j)
}

/// The name is one of a package that goes and whose record is that of a
/// package of a repository, which owns no files here.
pub open spec fn misplaced(db: PkgDb, roots: Seq<Seq<char>>, follow: bool, n: Seq<char>) -> bool {
    &&& wanted(db, roots, follow, n)
    &&& db.has(n)
    &&& db.record(n).set_info matches Some(SetInfoView::Universe(_))
}

/// The removal can be planned.
pub open spec fn plannable(db: PkgDb, roots: Seq<Seq<char>>, follow: bool, check: bool) -> bool {
    &&& resolvable(db, roots, follow)
    &&& check ==> conflict_free(db, roots, follow)
    &&& forall|n: Seq<char>| !misplaced(db, roots, follow, n)
}

/// The error `e` is owed for the planning of a removal. What fails first is the
/// resolution of the selection; then, where it is asked for, the check that no
/// package that stays needs one that goes, which reports the first dependency
/// that would break; last, a record that owns no files here.
pub open spec fn planning_error(
    db: PkgDb,
    roots: Seq<Seq<char>>,
    follow: bool,
    check: bool,
    e: NbErrorView,
) -> bool {
    match e {
        NbErrorView::RemoveBreaksPkg(d, pk) => {
            &&& resolvable(db, roots, follow)
            &&& check
            &&& exists|p: int, j: int| #[trigger]
                first_wanted_break(db, roots, follow, p, j) && d == db.infos()[p].deps()[j].0 && pk
                    == db.names()[p]
        },
        NbErrorView::BrokenSetConsistency(n, set) => {
            &&& resolvable(db, roots, follow)
            &&& check ==> conflict_free(db, roots, follow)
            &&& set == PkgSet::Local
            &&& misplaced(db, roots, follow, n)
        },
        _ => resolution_error(db, roots, follow, e),
    }
}

/// Plans the removal of the packages `to_remove` from the local database: with
/// `recursive`, of their dependencies too. With `check_conflicts` the removal
/// is refused where a package that stays depends on one that goes. The plan
/// names each package that goes, once, with the paths it owns. Nothing is
/// changed.
pub fn removal_plan(
    to_remove: &[&str],
    recursive: bool,
    check_conflicts: bool,
    local_db: &PkgDb,
) -> (r: Result<Vec<Removal>, NbError>)
    requires
        local_db.wf(),
    ensures
        r is Ok <==> plannable(
            *local_db,
            selection_names(to_remove@),
            recursive,
            check_conflicts,
        ),
        match r {
            Ok(plan) => {
                &&& removal_names(plan@).no_duplicates()
                &&& forall|n: Seq<char>|
                    removal_names(plan@).contains(n) <==> wanted(
                        *local_db,
                        selection_names(to_remove@),
                        recursive,
                        n,
                    )
                &&& forall|i: int|
                    0 <= i < plan.len() ==> texts((#[trigger] plan[i]).paths@) == owned_paths(
                        local_db.record(plan[i].name@),
                    )
            },
            Err(e) => planning_error(
                *local_db,
                selection_names(to_remove@),
                recursive,
                check_conflicts,
                e@,
            ),
        },
{
    let ghost roots = selection_names(to_remove@);
    let graph = match local_db.get_subgraph(Some(to_remove), recursive) {
        Ok(g) => g,
        Err(e) => {
            proof {
                // An error of the resolution is none of the two other kinds.
                assert(resolution_error(*local_db, roots, recursive, e@));
            }
            return Err(e);
        },
    };
    let mut names: Vec<&str> = Vec::new();
    let mut k: usize = 0;
    while k < graph.len()
        invariant
            graph.wf(),
            k <= graph.count(),
            names.len() == k,
            forall|a: int| 0 <= a < k ==> (#[trigger] names[a])@ == graph.name(a),
        decreases graph.count() - k,
    {
        names.push(graph.name_at(k).as_str());
        k += 1;
    }
    let ghost targets = selection_names(names@);
    proof {
        assert forall|n: Seq<char>| targets.contains(n) <==> graph.has(n) by {
            if targets.contains(n) {
                let a = choose|a: int| 0 <= a < targets.len() && targets[a] == n;
                assert(graph.name(a) == n);
            }
            if graph.has(n) {
                let a = choose|a: int| 0 <= a < graph.count() && #[trigger] graph.name(a) == n;
                assert(targets[a] == n);
            }
        }
        assert forall|p: int, j: int|
            breaks(*local_db, targets, p, j) <==> breaks_wanted(
                *local_db,
                roots,
                recursive,
                p,
                j,
            ) by {
            let owner = local_db.names()[p];
            let needed = local_db.infos()[p].deps()[j].0;
            assert(targets.contains(owner) <==> graph.has(owner));
            assert(graph.has(owner) <==> wanted(*local_db, roots, recursive, owner));
            assert(targets.contains(needed) <==> graph.has(needed));
            assert(graph.has(needed) <==> wanted(*local_db, roots, recursive, needed));
        }
        assert forall|a: int| 0 <= a < targets.len() implies local_db.has(#[trigger] targets[a]) by {
            graph.lemma_node(a);
        }
        assert(roots_present(*local_db, targets));
    }
    if check_conflicts {
        match local_db.check_remove(names) {
            Ok(_) => {
                proof {
                    assert(removable(*local_db, targets));
                    assert forall|p: int, j: int|
                        0 <= p < local_db.names().len() && 0 <= j
                            < local_db.infos()[p].deps().len() implies !#[trigger] breaks_wanted(
                        *local_db,
                        roots,
                        recursive,
                        p,
                        j,
                    ) by {
                        assert(!breaks(*local_db, targets, p, j));
                    }
                }
            },
            Err(e) => {
                proof {
                    match e@ {
                        NbErrorView::RemoveBreaksPkg(d, pk) => {
                            let (p, j) = choose|p: int, j: int| #[trigger]
                                first_break(*local_db, targets, p, j) && d
                                    == local_db.infos()[p].deps()[j].0 && pk
                                    == local_db.names()[p];
                            assert(breaks(*local_db, targets, p, j));
                            assert forall|q: int, j2: int|
                                0 <= q < p && 0 <= j2
                                    < local_db.infos()[q].deps().len() implies !#[trigger] breaks_wanted(
                                *local_db,
                                roots,
                                recursive,
                                q,
                                j2,
                            ) by {
                                assert(!breaks(*local_db, targets, q, j2));
                            }
                            assert forall|j2: int| 0 <= j2 < j implies !#[trigger] breaks_wanted(
                                *local_db,
                                roots,
                                recursive,
                                p,
                                j2,
                            ) by {
                                assert(!breaks(*local_db, targets, p, j2));
                            }
                            assert(first_wanted_break(*local_db, roots, recursive, p, j));
                        },
                        _ => {},
                    }
                }
                return Err(e);
            },
        }
    }
    let mut plan: Vec<Removal> = Vec::new();
    let mut k: usize = 0;
    while k < graph.len()
        invariant
            graph.wf(),
            graph.db() == *local_db,
            k <= graph.count(),
            plan.len() == k,
            forall|a: int| 0 <= a < k ==> (#[trigger] plan[a]).name@ == graph.name(a),
            forall|a: int|
                0 <= a < k ==> texts((#[trigger] plan[a]).paths@) == owned_paths(graph.info(a)),
            forall|a: int|
                0 <= a < k ==> !((#[trigger] graph.info(a)).set_info matches Some(
                    SetInfoView::Universe(_),
                )),
            forall|n: Seq<char>| graph.has(n) <==> wanted(*local_db, roots, recursive, n),
            resolvable(*local_db, roots, recursive),
            check_conflicts ==> conflict_free(*local_db, roots, recursive),
            roots == selection_names(to_remove@),
        decreases graph.count() - k,
    {
        let info = graph.info_at(k);
        let name = graph.name_at(k);
        let paths = match info.set_info() {
            Some(SetInfo::Local(l)) => clone_texts(l.paths()),
            Some(SetInfo::Universe(_)) => {
                let e = NbError::BrokenSetConsistency(name.clone(), PkgSet::Local);
                proof {
                    graph.lemma_node(k as int);
                    assert(misplaced(*local_db, roots, recursive, graph.name(k as int)));
                }
                return Err(e);
            },
            None => Vec::new(),
        };
        proof {
            assert(texts(paths@) =~= owned_paths(graph.info(k as int)));
        }
        plan.push(Removal { name: name.clone(), paths });
        k += 1;
    }
    proof {
        let listed = removal_names(plan@);
        assert forall|a: int, b: int|
            0 <= a < listed.len() && 0 <= b < listed.len() && a != b implies listed[a]
            != listed[b] by {
            graph.lemma_node(a);
            assert(listed[a] == graph.name(a));
            assert(listed[b] == graph.name(b));
        }
        assert forall|n: Seq<char>| listed.contains(n) <==> wanted(
            *local_db,
            roots,
            recursive,
            n,
        ) by {
            if listed.contains(n) {
                let a = choose|a: int| 0 <= a < listed.len() && listed[a] == n;
                assert(graph.name(a) == n);
            }
            if graph.has(n) {
                let a = choose|a: int| 0 <= a < graph.count() && #[trigger] graph.name(a) == n;
                assert(listed[a] == n);
            }
        }
        assert forall|i: int| 0 <= i < plan.len() implies texts((#[trigger] plan[i]).paths@)
            == owned_paths(local_db.record(plan[i].name@)) by {
            graph.lemma_node(i);
        }
        assert forall|n: Seq<char>| !misplaced(*local_db, roots, recursive, n) by {
            if misplaced(*local_db, roots, recursive, n) {
                assert(graph.has(n) <==> wanted(*local_db, roots, recursive, n));
                let a = choose|a: int| 0 <= a < graph.count() && #[trigger] graph.name(a) == n;
                graph.lemma_node(a);
                assert(!(graph.info(a).set_info matches Some(SetInfoView::Universe(_))));
            }
        }
    }
    Ok(plan)
}

/// Ends a removal. Where the files of every package were removed, the packages
/// `removed` leave the local database. Where the removal failed for some
/// package, the database stays as it is, and the error lists the packages for
/// which it failed, each with the cause.
pub fn finish_removal(
    local_db: &mut PkgDb,
    removed: &Vec<String>,
    failures: Vec<(String, String)>,
) -> (r: Result<(), NbpmError>)
    requires
        old(local_db).wf(),
    ensures
        final(local_db).wf(),
        final(local_db).spec_set() == old(local_db).spec_set(),
        match r {
            Ok(_) => {
                &&& failures.len() == 0
                &&& forall|n: Seq<char>|
                    final(local_db).has(n) <==> old(local_db).has(n) && !texts(removed@).contains(n)
                &&& forall|n: Seq<char>|
                    final(local_db).has(n) ==> final(local_db).record(n) == old(local_db).record(n)
            },
            Err(e) => {
                &&& failures.len() > 0
                &&& e@ == NbpmErrorView::CannotRemovePkgs(pairs_view(failures@))
                &&& final(local_db).names() == old(local_db).names()
                &&& final(local_db).infos() == old(local_db).infos()
            },
        },
{
    if failures.len() > 0 {
        return Err(NbpmError::CannotRemovePkgs(failures));
    }
    let ghost gone = texts(removed@);
    let mut k: usize = 0;
    while k < removed.len()
        invariant
            k <= removed.len(),
            gone == texts(removed@),
            local_db.wf(),
            local_db.spec_set() == old(local_db).spec_set(),
            forall|n: Seq<char>|
                local_db.has(n) <==> old(local_db).has(n) && !gone.take(k as int).contains(n),
            forall|n: Seq<char>| local_db.has(n) ==> local_db.record(n) == old(local_db).record(n),
        decreases removed.len() - k,
    {
        let ghost before = *local_db;
        let name = removed[k].as_str();
        assert(gone[k as int] == name@);
        let r = local_db.remove(name, false);
        proof {
            let taken = gone.take(k as int);
            let taken2 = gone.take(k + 1);
            assert(taken2 =~= taken.push(name@));
            assert forall|n: Seq<char>| taken2.contains(n) <==> taken.contains(n) || n == name@ by {
                if taken.contains(n) {
                    let a = choose|a: int| 0 <= a < taken.len() && taken[a] == n;
                    assert(taken2[a] == n);
                }
                if n == name@ {
                    assert(taken2[k as int] == n);
                }
                if taken2.contains(n) {
                    let a = choose|a: int| 0 <= a < taken2.len() && taken2[a] == n;
                    if a < k {
                        assert(taken[a] == n);
                    }
                }
            }
            if r is Ok {
                before.lemma_has(name@);
                lemma_removed(before.names(), before.infos(), before.position(name@));
                assert forall|n: Seq<char>| local_db.has(n) <==> before.has(n) && n != name@ by {}
                assert forall|n: Seq<char>| local_db.has(n) implies local_db.record(n)
                    == before.record(n) by {}
            } else {
                assert(!before.has(name@));
                assert forall|n: Seq<char>| local_db.has(n) <==> before.has(n) && n != name@ by {}
            }
            assert forall|n: Seq<char>|
                local_db.has(n) <==> old(local_db).has(n) && !taken2.contains(n) by {
                assert(before.has(n) <==> old(local_db).has(n) && !taken.contains(n));
            }
        }
        k += 1;
    }
    assert(gone.take(removed.len() as int) =~= gone);
    Ok(())
}

} // verus!
