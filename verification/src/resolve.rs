//! Resolution: from a selection of packages to the part of a database that the
//! selection needs, and the check that such a part is consistent.

use vstd::prelude::*;
use vstd::string::StringExecFns;
use crate::errors::{NbError, NbErrorView};
use crate::pkgdb::PkgDb;
use crate::requirement::{req_matches, VersionReq, VersionReqView};
use crate::version::{Version, VersionView};
use crate::subgraph::Subgraph;

verus! {

/// The package `m` of the database names `n` among its dependencies.
pub open spec fn depends_on(db: PkgDb, m: Seq<char>, n: Seq<char>) -> bool {
    &&& db.has(m)
    &&& exists|j: int|
        0 <= j < db.record(m).deps().len() && (#[trigger] db.record(m).deps()[j]).0 == n
}

/// The name `n` is reached from the roots in at most `k` steps, each from a
/// package of the database to one of its dependencies.
pub open spec fn reach(db: PkgDb, roots: Seq<Seq<char>>, n: Seq<char>, k: nat) -> bool
    decreases k,
{
    if k == 0 {
        roots.contains(n)
    } else {
        ||| reach(db, roots, n, (k - 1) as nat)
        ||| exists|m: Seq<char>| #[trigger] depends_on(db, m, n) && reach(db, roots, m, (k - 1) as nat)
    }
}

/// The name `n` is a root or a dependency, direct or not, of a root.
pub open spec fn reachable(db: PkgDb, roots: Seq<Seq<char>>, n: Seq<char>) -> bool {
    exists|k: nat| reach(db, roots, n, k)
}

/// Every root is a package of the database.
pub open spec fn roots_present(db: PkgDb, roots: Seq<Seq<char>>) -> bool {
    forall|i: int| 0 <= i < roots.len() ==> db.has(#[trigger] roots[i])
}

/// `i` is the position of the first root that is no package of the database.
pub open spec fn is_first_absent(db: PkgDb, roots: Seq<Seq<char>>, i: int) -> bool {
    &&& 0 <= i < roots.len()
    &&& !db.has(roots[i])
    &&& forall|k: int| 0 <= k < i ==> db.has(#[trigger] roots[k])
}

/// Every name that is reached from the roots is a package of the database.
pub open spec fn closed_in(db: PkgDb, roots: Seq<Seq<char>>) -> bool {
    forall|n: Seq<char>| #[trigger] reachable(db, roots, n) ==> db.has(n)
}

/// The dependency at position `j` of the package `p` is met in the database:
/// the package it names is there, in a version that the requirement accepts.
pub open spec fn dependency_met(db: PkgDb, p: Seq<char>, j: int) -> bool {
    let dep = db.record(p).deps()[j];
    db.has(dep.0) && req_matches(dep.1, db.record(dep.0).version)
}

/// Every dependency of every package that is reached from the roots is met.
pub open spec fn consistent(db: PkgDb, roots: Seq<Seq<char>>) -> bool {
    forall|p: Seq<char>, j: int|
        reachable(db, roots, p) && db.has(p) && 0 <= j < db.record(p).deps().len()
            ==> #[trigger] dependency_met(db, p, j)
}

/// A root is reached.
pub proof fn lemma_root_reachable(db: PkgDb, roots: Seq<Seq<char>>, n: Seq<char>)
    requires
        roots.contains(n),
    ensures
        reachable(db, roots, n),
{
    assert(reach(db, roots, n, 0));
}

/// A dependency of a package that is reached is reached.
pub proof fn lemma_step_reachable(db: PkgDb, roots: Seq<Seq<char>>, m: Seq<char>, n: Seq<char>)
    requires
        reachable(db, roots, m),
        depends_on(db, m, n),
    ensures
        reachable(db, roots, n),
{
    let k = choose|k: nat| reach(db, roots, m, k);
    let next = (k + 1) as nat;
    assert(reach(db, roots, m, (next - 1) as nat));
    assert(reach(db, roots, n, next));
}

impl<'a> Subgraph<'a> {
    /// The dependency at position `j` of the package at position `k` is met in
    /// the subgraph: the package it names is there, in a version that the
    /// requirement accepts.
    pub open spec fn edge_ok(&self, k: int, j: int) -> bool {
        let dep = self.info(k).deps()[j];
        self.has(dep.0) && req_matches(dep.1, self.record(dep.0).version)
    }

    /// The subgraph is consistent: every dependency of every one of its
    /// packages is met in it.
    pub open spec fn integral(&self) -> bool {
        forall|k: int, j: int|
            0 <= k < self.count() && 0 <= j < self.info(k).deps().len() ==> #[trigger] self.edge_ok(
                k,
                j,
            )
    }

    /// The dependency at `(k, j)` is not met, and it is the first such in the
    /// order of the packages and, within a package, of its dependencies.
    pub open spec fn first_broken_edge(&self, k: int, j: int) -> bool {
        &&& 0 <= k < self.count()
        &&& 0 <= j < self.info(k).deps().len()
        &&& !self.edge_ok(k, j)
        &&& forall|k2: int, j2: int|
            0 <= k2 < k && 0 <= j2 < self.info(k2).deps().len() ==> #[trigger] self.edge_ok(k2, j2)
        &&& forall|j2: int| 0 <= j2 < j ==> #[trigger] self.edge_ok(k, j2)
    }

    /// The error for a dependency that is not met: the package it names is
    /// missing, or is there in a version that the requirement refuses.
    pub open spec fn edge_error(&self, k: int, j: int) -> NbErrorView {
        let dep = self.info(k).deps()[j];
        if self.has(dep.0) {
            NbErrorView::BrokenDependency(dep.0, dep.1, self.record(dep.0).version, self.name(k))
        } else {
            NbErrorView::MissingDependency(dep.0, self.name(k))
        }
    }

    /// The subgraph names every dependency of every one of its packages.
    pub open spec fn closed(&self) -> bool {
        forall|k: int, j: int|
            0 <= k < self.count() && 0 <= j < self.info(k).deps().len() ==> self.has(
                (#[trigger] self.info(k).deps()[j]).0,
            )
    }
}

/// A subgraph that has the roots and names every dependency of its packages
/// has every name that is reached from the roots, in any number of steps.
pub proof fn lemma_closed_has_reached(g: Subgraph, roots: Seq<Seq<char>>, n: Seq<char>, k: nat)
    requires
        g.wf(),
        g.closed(),
        forall|i: int| 0 <= i < roots.len() ==> g.has(#[trigger] roots[i]),
        reach(g.db(), roots, n, k),
    ensures
        g.has(n),
    decreases k,
{
    if k == 0 {
        let i = choose|i: int| 0 <= i < roots.len() && roots[i] == n;
        assert(g.has(roots[i]));
    } else if reach(g.db(), roots, n, (k - 1) as nat) {
        lemma_closed_has_reached(g, roots, n, (k - 1) as nat);
    } else {
        let m = choose|m: Seq<char>| #[trigger]
            depends_on(g.db(), m, n) && reach(g.db(), roots, m, (k - 1) as nat);
        lemma_closed_has_reached(g, roots, m, (k - 1) as nat);
        let km = choose|km: int| 0 <= km < g.count() && #[trigger] g.name(km) == m;
        g.lemma_node(km);
        let j = choose|j: int|
            0 <= j < g.db().record(m).deps().len() && (#[trigger] g.db().record(m).deps()[j]).0
                == n;
        assert(g.has((g.info(km).deps()[j]).0));
    }
}

/// What the look at one dependency comes to. `found` tells of the package that
/// the dependency names: `None` where there is none, else its version and
/// whether the requirement accepts that version.
pub open spec fn edge_outcome_of(
    dep: Seq<char>,
    requirement: VersionReqView,
    dependent: Seq<char>,
    found: Option<(VersionView, bool)>,
) -> Result<(), NbErrorView> {
    match found {
        None => Err(NbErrorView::MissingDependency(dep, dependent)),
        Some((version, false)) => Err(
            NbErrorView::BrokenDependency(dep, requirement, version, dependent),
        ),
        Some((_, true)) => Ok(()),
    }
}

/// Says what the look at one dependency of the package `dependent` comes to:
/// a missing dependency where the package that it names was not found, a
/// broken one where that package was found in a version that the requirement
/// does not accept, and nothing to report where it does.
pub fn edge_outcome(
    dep: &str,
    requirement: &VersionReq,
    dependent: &str,
    found: Option<(&Version, bool)>,
) -> (r: Result<(), NbError>)
    ensures
        match r {
            Ok(_) => edge_outcome_of(
                dep@,
                requirement@,
                dependent@,
                match found {
                    Some((v, ok)) => Some((v@, ok)),
                    None => None,
                },
            ) == Ok::<(), NbErrorView>(()),
            Err(e) => edge_outcome_of(
                dep@,
                requirement@,
                dependent@,
                match found {
                    Some((v, ok)) => Some((v@, ok)),
                    None => None,
                },
            ) == Err::<(), NbErrorView>(e@),
        },
{
    match found {
        None => Err(NbError::MissingDependency(String::from_str(dep), String::from_str(dependent))),
        Some((version, ok)) => {
            if ok {
                Ok(())
            } else {
                Err(
                    NbError::BrokenDependency(
                        String::from_str(dep),
                        requirement.clone(),
                        version.clone(),
                        String::from_str(dependent),
                    ),
                )
            }
        },
    }
}

/// Says whether the removal of the package `target` breaks the package
/// `dependent`, which stays and names `target` among its dependencies.
/// `accepted` tells whether the requirement of that dependency accepts the
/// version of `target`: the removal breaks the package exactly where it does.
pub fn break_outcome(target: &str, dependent: &str, accepted: bool) -> (r: Result<(), NbError>)
    ensures
        match r {
            Ok(_) => !accepted,
            Err(e) => accepted && e@ == NbErrorView::RemoveBreaksPkg(target@, dependent@),
        },
{
    if accepted {
        Err(NbError::RemoveBreaksPkg(String::from_str(target), String::from_str(dependent)))
    } else {
        Ok(())
    }
}

impl PkgDb {
    /// Checks that a subgraph is consistent: that every dependency of every one
    /// of its packages names a package of the subgraph whose version meets the
    /// requirement. Fails for the first dependency that is not met, in the
    /// order of the packages and of the dependencies of each.
    pub fn check_subgraph_integrity(subgraph: &Subgraph) -> (r: Result<(), NbError>)
        requires
            subgraph.wf(),
        ensures
            match r {
                Ok(_) => subgraph.integral(),
                Err(e) => exists|k: int, j: int| #[trigger]
                    subgraph.first_broken_edge(k, j) && e@ == subgraph.edge_error(k, j),
            },
    {
        let mut k: usize = 0;
        while k < subgraph.len()
            invariant
                subgraph.wf(),
                k <= subgraph.count(),
                forall|k2: int, j2: int|
                    0 <= k2 < k && 0 <= j2 < subgraph.info(k2).deps().len()
                        ==> #[trigger] subgraph.edge_ok(k2, j2),
            decreases subgraph.count() - k,
        {
            let node = subgraph.info_at(k);
            let mut j: usize = 0;
            while j < node.dep_count()
                invariant
                    subgraph.wf(),
                    k < subgraph.count(),
                    node@ == subgraph.info(k as int),
                    j <= node@.deps().len(),
                    forall|k2: int, j2: int|
                        0 <= k2 < k && 0 <= j2 < subgraph.info(k2).deps().len()
                            ==> #[trigger] subgraph.edge_ok(k2, j2),
                    forall|j2: int| 0 <= j2 < j ==> #[trigger] subgraph.edge_ok(k as int, j2),
                decreases node@.deps().len() - j,
            {
                let dep = node.dep(j);
                let found = match subgraph.get(dep.0.as_str()) {
                    Some(named) => Some((named.version(), dep.1.matches(named.version()))),
                    None => None,
                };
                match edge_outcome(dep.0.as_str(), dep.1, subgraph.name_at(k).as_str(), found) {
                    Ok(_) => {},
                    Err(e) => {
                        proof {
                            assert(subgraph.first_broken_edge(k as int, j as int));
                            assert(e@ == subgraph.edge_error(k as int, j as int));
                        }
                        return Err(e);
                    },
                }
                assert(subgraph.edge_ok(k as int, j as int));
                j += 1;
            }
            k += 1;
        }
        Ok(())
    }
}

/// The names of a selection, in order.
pub open spec fn selection_names(select: Seq<&str>) -> Seq<Seq<char>> {
    select.map_values(|s: &str| s@)
}

/// The names that a resolution starts from: those of the selection, or, without
/// a selection, every name of the database.
pub open spec fn roots_of(db: PkgDb, select: Option<&[&str]>) -> Seq<Seq<char>> {
    match select {
        Some(s) => selection_names(s@),
        None => db.names(),
    }
}

/// The name belongs to the result of a resolution: it is a root, or, where
/// dependencies are followed, it is reached from the roots.
pub open spec fn wanted(db: PkgDb, roots: Seq<Seq<char>>, follow: bool, n: Seq<char>) -> bool {
    if follow {
        reachable(db, roots, n)
    } else {
        roots.contains(n)
    }
}

/// The resolution succeeds: the roots are packages of the database and, where
/// dependencies are followed, so is every name reached from them, and every
/// dependency on the way is met.
pub open spec fn resolvable(db: PkgDb, roots: Seq<Seq<char>>, follow: bool) -> bool {
    &&& roots_present(db, roots)
    &&& follow ==> closed_in(db, roots) && consistent(db, roots)
}

/// The error `e` is owed for the resolution. A root that is no package of the
/// database is reported first, and the first such root is the one named. A
/// dependency that is no package of the database is reported next, with the
/// package that names it. A dependency whose version does not meet the
/// requirement is reported only where nothing is missing.
pub open spec fn resolution_error(
    db: PkgDb,
    roots: Seq<Seq<char>>,
    follow: bool,
    e: NbErrorView,
) -> bool {
    match e {
        NbErrorView::PkgNotFound(n) => exists|i: int| #[trigger]
            is_first_absent(db, roots, i) && roots[i] == n,
        NbErrorView::MissingDependency(d, p) => {
            &&& follow
            &&& roots_present(db, roots)
            &&& reachable(db, roots, p)
            &&& depends_on(db, p, d)
            &&& !db.has(d)
        },
        NbErrorView::BrokenDependency(d, req, v, p) => {
            &&& follow
            &&& roots_present(db, roots)
            &&& closed_in(db, roots)
            &&& reachable(db, roots, p)
            &&& db.has(p)
            &&& db.has(d)
            &&& v == db.record(d).version
            &&& !req_matches(req, v)
            &&& exists|j: int|
                0 <= j < db.record(p).deps().len() && #[trigger] db.record(p).deps()[j] == (d, req)
        },
        _ => false,
    }
}

/// A list of distinct numbers below `n` has at most `n` of them.
proof fn lemma_distinct_bounded(s: Seq<int>, n: int)
    requires
        s.no_duplicates(),
        forall|k: int| 0 <= k < s.len() ==> 0 <= #[trigger] s[k] < n,
    ensures
        s.len() <= n || s.len() == 0,
        n >= 0 ==> s.len() <= n,
    decreases s.len(),
{
    if s.len() > 0 {
        assert(0 <= s[0] < n);
        if exists|k: int| 0 <= k < s.len() && s[k] == n - 1 {
            let k = choose|k: int| 0 <= k < s.len() && s[k] == n - 1;
            let rest = s.remove(k);
            assert forall|a: int| 0 <= a < rest.len() implies 0 <= #[trigger] rest[a] < n - 1 by {
                let a0 = if a < k { a } else { a + 1 };
                assert(rest[a] == s[a0]);
                assert(s[a0] != s[k]);
            }
            assert forall|a: int, b: int|
                0 <= a < rest.len() && 0 <= b < rest.len() && a != b implies rest[a] != rest[b] by {
                let a0 = if a < k { a } else { a + 1 };
                let b0 = if b < k { b } else { b + 1 };
                assert(s[a0] != s[b0]);
            }
            lemma_distinct_bounded(rest, n - 1);
        } else {
            let rest = s.drop_last();
            assert forall|a: int| 0 <= a < rest.len() implies 0 <= #[trigger] rest[a] < n - 1 by {
                assert(rest[a] == s[a]);
            }
            assert forall|a: int, b: int|
                0 <= a < rest.len() && 0 <= b < rest.len() && a != b implies rest[a] != rest[b] by {
                assert(s[a] != s[b]);
            }
            lemma_distinct_bounded(rest, n - 1);
        }
    }
}

/// The marks of a traversal agree with its two lists: a position is marked 1
/// exactly where it waits in `pending`, 2 exactly where it stands in `nodes`,
/// and whatever is marked is reached from the roots.
spec fn marks_ok(
    db: PkgDb,
    roots: Seq<Seq<char>>,
    state: Seq<u8>,
    pending: Seq<int>,
    nodes: Seq<int>,
) -> bool {
    &&& state.len() == db.names().len()
    &&& forall|i: int| 0 <= i < state.len() ==> #[trigger] state[i] <= 2
    &&& pending.no_duplicates()
    &&& forall|k: int|
        0 <= k < pending.len() ==> 0 <= (#[trigger] pending[k]) < state.len() && state[pending[k]]
            == 1
    &&& forall|k: int|
        0 <= k < nodes.len() ==> 0 <= (#[trigger] nodes[k]) < state.len() && state[nodes[k]] == 2
    &&& forall|i: int|
        0 <= i < state.len() && #[trigger] state[i] == 1 ==> pending.contains(i)
    &&& forall|i: int| 0 <= i < state.len() && #[trigger] state[i] == 2 ==> nodes.contains(i)
    &&& forall|i: int|
        0 <= i < state.len() && #[trigger] state[i] != 0 ==> reachable(db, roots, db.names()[i])
}

/// The name is a package of the database whose position is marked.
spec fn covered(db: PkgDb, state: Seq<u8>, name: Seq<char>) -> bool {
    db.has(name) && 0 <= db.position(name) < state.len() && state[db.position(name)] != 0
}

/// Marking an unmarked position as waiting keeps the marks in order.
proof fn lemma_mark_pending(
    db: PkgDb,
    roots: Seq<Seq<char>>,
    state: Seq<u8>,
    pending: Seq<int>,
    nodes: Seq<int>,
    d: int,
)
    requires
        marks_ok(db, roots, state, pending, nodes),
        0 <= d < state.len(),
        state[d] == 0,
        reachable(db, roots, db.names()[d]),
    ensures
        marks_ok(db, roots, state.update(d, 1), pending.push(d), nodes),
        forall|name: Seq<char>|
            covered(db, state, name) ==> covered(db, state.update(d, 1), name),
{
    let state2 = state.update(d, 1);
    let pending2 = pending.push(d);
    assert forall|a: int, b: int|
        0 <= a < pending2.len() && 0 <= b < pending2.len() && a != b implies pending2[a]
        != pending2[b] by {
        if a < pending.len() && b < pending.len() {
            assert(pending[a] != pending[b]);
        } else if a < pending.len() {
            assert(state[pending[a]] == 1);
        } else if b < pending.len() {
            assert(state[pending[b]] == 1);
        }
    }
    assert forall|k: int| 0 <= k < pending2.len() implies 0 <= (#[trigger] pending2[k])
        < state2.len() && state2[pending2[k]] == 1 by {
        if k < pending.len() {
            assert(pending2[k] == pending[k]);
        }
    }
    assert forall|i: int| 0 <= i < state2.len() && #[trigger] state2[i] == 1 implies pending2.contains(
        i,
    ) by {
        if i == d {
            assert(pending2[pending.len() as int] == d);
        } else {
            assert(state[i] == 1);
            let k = choose|k: int| 0 <= k < pending.len() && pending[k] == i;
            assert(pending2[k] == i);
        }
    }
    assert forall|i: int| 0 <= i < state2.len() && #[trigger] state2[i] == 2 implies nodes.contains(
        i,
    ) by {
        assert(state[i] == 2);
    }
    assert forall|i: int| 0 <= i < state2.len() && #[trigger] state2[i] != 0 implies reachable(
        db,
        roots,
        db.names()[i],
    ) by {
        if i != d {
            assert(state[i] != 0);
        }
    }
    assert forall|k: int| 0 <= k < nodes.len() implies 0 <= (#[trigger] nodes[k]) < state2.len()
        && state2[nodes[k]] == 2 by {
        assert(state[nodes[k]] == 2);
    }
}

/// Moving the last waiting position to the nodes keeps the marks in order.
proof fn lemma_mark_resolved(
    db: PkgDb,
    roots: Seq<Seq<char>>,
    state: Seq<u8>,
    pending: Seq<int>,
    nodes: Seq<int>,
)
    requires
        marks_ok(db, roots, state, pending, nodes),
        pending.len() > 0,
    ensures
        !nodes.contains(pending.last()),
        marks_ok(
            db,
            roots,
            state.update(pending.last(), 2),
            pending.drop_last(),
            nodes.push(pending.last()),
        ),
        forall|name: Seq<char>|
            covered(db, state, name) ==> covered(
                db,
                state.update(pending.last(), 2),
                name,
            ),
{
    let cur = pending.last();
    let last = pending.len() - 1;
    assert(pending[last] == cur);
    assert(state[cur] == 1);
    let state2 = state.update(cur, 2);
    let pending2 = pending.drop_last();
    let nodes2 = nodes.push(cur);
    if nodes.contains(cur) {
        let k = choose|k: int| 0 <= k < nodes.len() && nodes[k] == cur;
        assert(state[nodes[k]] == 2);
    }
    assert forall|a: int, b: int|
        0 <= a < pending2.len() && 0 <= b < pending2.len() && a != b implies pending2[a]
        != pending2[b] by {
        assert(pending[a] != pending[b]);
    }
    assert forall|k: int| 0 <= k < pending2.len() implies 0 <= (#[trigger] pending2[k])
        < state2.len() && state2[pending2[k]] == 1 by {
        assert(pending2[k] == pending[k]);
        assert(pending[k] != pending[last]);
    }
    assert forall|k: int| 0 <= k < nodes2.len() implies 0 <= (#[trigger] nodes2[k]) < state2.len()
        && state2[nodes2[k]] == 2 by {
        if k < nodes.len() {
            assert(nodes2[k] == nodes[k]);
            assert(state[nodes[k]] == 2);
        }
    }
    assert forall|i: int| 0 <= i < state2.len() && #[trigger] state2[i] == 1 implies pending2.contains(
        i,
    ) by {
        assert(state[i] == 1);
        let k = choose|k: int| 0 <= k < pending.len() && pending[k] == i;
        assert(k != last);
        assert(pending2[k] == i);
    }
    assert forall|i: int| 0 <= i < state2.len() && #[trigger] state2[i] == 2 implies nodes2.contains(
        i,
    ) by {
        if i == cur {
            assert(nodes2[nodes.len() as int] == i);
        } else {
            assert(state[i] == 2);
            let k = choose|k: int| 0 <= k < nodes.len() && nodes[k] == i;
            assert(nodes2[k] == i);
        }
    }
    assert forall|i: int| 0 <= i < state2.len() && #[trigger] state2[i] != 0 implies reachable(
        db,
        roots,
        db.names()[i],
    ) by {
        assert(state[i] != 0);
    }
}

/// The positions of a list as integers.
spec fn positions(v: Seq<usize>) -> Seq<int> {
    v.map_values(|i: usize| i as int)
}

/// The list holds, for each root, its position in the database, and nothing
/// but positions of roots.
spec fn seeds_of(db: PkgDb, roots: Seq<Seq<char>>, v: Seq<usize>) -> bool {
    &&& forall|k: int|
        0 <= k < v.len() ==> (#[trigger] v[k]) < db.names().len() && roots.contains(
            db.names()[v[k] as int],
        )
    &&& forall|i: int|
        0 <= i < roots.len() ==> positions(v).contains(db.position(#[trigger] roots[i]))
}

impl PkgDb {
    /// Looks up the roots of a resolution.
    fn seeds(&self, select: Option<&[&str]>) -> (r: Result<Vec<usize>, NbError>)
        requires
            self.wf(),
        ensures
            match r {
                Ok(v) => roots_present(*self, roots_of(*self, select)) && seeds_of(
                    *self,
                    roots_of(*self, select),
                    v@,
                ),
                Err(e) => exists|i: int| #[trigger]
                    is_first_absent(*self, roots_of(*self, select), i) && e@
                        == NbErrorView::PkgNotFound(roots_of(*self, select)[i]),
            },
    {
        let ghost roots = roots_of(*self, select);
        let mut v: Vec<usize> = Vec::new();
        match select {
            Some(names) => {
                let mut i: usize = 0;
                while i < names.len()
                    invariant
                        self.wf(),
                        roots == selection_names(names@),
                        roots == roots_of(*self, select),
                        i <= names.len(),
                        forall|k: int| 0 <= k < i ==> self.has(#[trigger] roots[k]),
                        forall|k: int|
                            0 <= k < v.len() ==> (#[trigger] v[k]) < self.names().len()
                                && roots.contains(self.names()[v[k] as int]),
                        forall|k: int|
                            0 <= k < i ==> positions(v@).contains(self.position(#[trigger] roots[k])),
                    decreases names.len() - i,
                {
                    let name = names[i];
                    assert(roots[i as int] == name@);
                    match self.find(name) {
                        Some(at) => {
                            let ghost before = v@;
                            v.push(at);
                            proof {
                                self.lemma_has(name@);
                                assert(roots.contains(self.names()[at as int]));
                                assert(positions(v@) =~= positions(before).push(at as int));
                                assert(positions(v@)[before.len() as int] == at as int);
                                assert forall|k: int| 0 <= k < i + 1 implies positions(v@).contains(
                                    self.position(#[trigger] roots[k]),
                                ) by {
                                    if k < i {
                                        let w = choose|w: int|
                                            0 <= w < positions(before).len() && positions(before)[w]
                                                == self.position(roots[k]);
                                        assert(positions(v@)[w] == self.position(roots[k]));
                                    }
                                }
                            }
                        },
                        None => {
                            let e = NbError::PkgNotFound(String::from_str(name));
                            proof {
                                assert(is_first_absent(*self, roots, i as int));
                                assert(e@ == NbErrorView::PkgNotFound(roots[i as int]));
                            }
                            return Err(e);
                        },
                    }
                    i += 1;
                }
            },
            None => {
                let mut i: usize = 0;
                while i < self.len()
                    invariant
                        self.wf(),
                        roots == self.names(),
                        roots == roots_of(*self, select),
                        i <= self.names().len(),
                        v.len() == i,
                        forall|k: int| 0 <= k < i ==> (#[trigger] v[k]) == k,
                    decreases self.names().len() - i,
                {
                    v.push(i);
                    i += 1;
                }
                proof {
                    assert forall|k: int| 0 <= k < roots.len() implies self.has(
                        #[trigger] roots[k],
                    ) && positions(v@).contains(self.position(roots[k])) by {
                        self.lemma_position(k);
                        assert(positions(v@)[k] == k);
                    }
                    assert forall|k: int| 0 <= k < v.len() implies (#[trigger] v[k])
                        < self.names().len() && roots.contains(self.names()[v[k] as int]) by {
                        assert(v[k] == k);
                        assert(roots[k] == self.names()[k]);
                    }
                }
            },
        }
        Ok(v)
    }

    /// Collects what is reached from the roots, whose positions are `seeds`.
    fn close<'a>(&'a self, seeds: &Vec<usize>, Ghost(roots): Ghost<Seq<Seq<char>>>) -> (r: Result<
        Subgraph<'a>,
        NbError,
    >)
        requires
            self.wf(),
            roots_present(*self, roots),
            seeds_of(*self, roots, seeds@),
        ensures
            match r {
                Ok(g) => {
                    &&& g.wf()
                    &&& g.db() == *self
                    &&& g.closed()
                    &&& closed_in(*self, roots)
                    &&& forall|n: Seq<char>| g.has(n) <==> reachable(*self, roots, n)
                },
                Err(e) => {
                    &&& e@ matches NbErrorView::MissingDependency(d, p)
                    &&& reachable(*self, roots, p)
                    &&& depends_on(*self, p, d)
                    &&& !self.has(d)
                    &&& !closed_in(*self, roots)
                },
            },
    {
        let n = self.len();
        let mut state: Vec<u8> = Vec::new();
        while state.len() < n
            invariant
                state.len() <= n,
                forall|i: int| 0 <= i < state.len() ==> state[i] == 0,
            decreases n - state.len(),
        {
            state.push(0u8);
        }
        let mut pending: Vec<usize> = Vec::new();
        let mut g = Subgraph::new(self);
        assert(positions(pending@) =~= Seq::<int>::empty());
        assert(marks_ok(*self, roots, state@, positions(pending@), g.nodes()));
        let mut k: usize = 0;
        while k < seeds.len()
            invariant
                self.wf(),
                n == self.names().len(),
                seeds_of(*self, roots, seeds@),
                k <= seeds.len(),
                g.count() == 0,
                marks_ok(*self, roots, state@, positions(pending@), g.nodes()),
                forall|a: int| 0 <= a < k ==> state[(#[trigger] seeds[a]) as int] != 0,
            decreases seeds.len() - k,
        {
            let s = seeds[k];
            if state[s] == 0 {
                proof {
                    lemma_root_reachable(*self, roots, self.names()[s as int]);
                    lemma_mark_pending(
                        *self,
                        roots,
                        state@,
                        positions(pending@),
                        g.nodes(),
                        s as int,
                    );
                    assert(positions(pending@.push(s)) =~= positions(pending@).push(s as int));
                }
                state.set(s, 1u8);
                pending.push(s);
            }
            k += 1;
        }
        proof {
            assert forall|i: int| 0 <= i < roots.len() implies covered(
                *self,
                state@,
                #[trigger] roots[i],
            ) by {
                let w = choose|w: int|
                    0 <= w < positions(seeds@).len() && positions(seeds@)[w] == self.position(
                        roots[i],
                    );
                assert(state[seeds[w] as int] != 0);
            }
        }
        while pending.len() > 0
            invariant
                self.wf(),
                n == self.names().len(),
                g.wf(),
                g.db() == *self,
                marks_ok(*self, roots, state@, positions(pending@), g.nodes()),
                forall|i: int| 0 <= i < roots.len() ==> covered(*self, state@, #[trigger] roots[i]),
                forall|a: int, j: int|
                    0 <= a < g.count() && 0 <= j < g.info(a).deps().len() ==> covered(
                        *self,
                        state@,
                        (#[trigger] g.info(a).deps()[j]).0,
                    ),
            decreases n - g.count(),
        {
            let ghost state0 = state@;
            let ghost pending0 = positions(pending@);
            let ghost nodes0 = g.nodes();
            let ghost g0 = g;
            let cur = pending.pop().unwrap();
            proof {
                assert(pending0.last() == cur as int);
                assert(positions(pending@) =~= pending0.drop_last());
                lemma_mark_resolved(*self, roots, state0, pending0, nodes0);
                assert(0 <= pending0[pending0.len() - 1] < state0.len());
            }
            state.set(cur, 2u8);
            let added = g.add_node(cur);
            assert(added);
            let node = self.info_at(cur);
            let cur_name = self.name_at(cur);
            proof {
                assert(state0[cur as int] == 1);
                assert(reachable(*self, roots, self.names()[cur as int]));
                self.lemma_position(cur as int);
                lemma_distinct_bounded(g.nodes(), n as int);
            }
            let ghost last = g.count() - 1;
            proof {
                assert(g.nodes() == nodes0.push(cur as int));
                assert(g.nodes()[last] == cur as int);
                assert forall|i: int| 0 <= i < roots.len() implies covered(
                    *self,
                    state@,
                    #[trigger] roots[i],
                ) by {
                    assert(covered(*self, state0, roots[i]));
                }
                assert forall|a: int, b: int|
                    0 <= a < last && 0 <= b < g.info(a).deps().len() implies covered(
                    *self,
                    state@,
                    (#[trigger] g.info(a).deps()[b]).0,
                ) by {
                    assert(g.nodes()[a] == nodes0[a]);
                    assert(g.info(a) == g0.info(a));
                    assert(covered(*self, state0, (g0.info(a).deps()[b]).0));
                }
            }
            let mut j: usize = 0;
            while j < node.dep_count()
                invariant
                    self.wf(),
                    n == self.names().len(),
                    g.wf(),
                    g.db() == *self,
                    cur < n,
                    last == g.count() - 1,
                    g.nodes()[last] == cur as int,
                    g.count() <= n,
                    node@ == self.infos()[cur as int],
                    cur_name@ == self.names()[cur as int],
                    reachable(*self, roots, self.names()[cur as int]),
                    j <= node@.deps().len(),
                    marks_ok(*self, roots, state@, positions(pending@), g.nodes()),
                    forall|i: int|
                        0 <= i < roots.len() ==> covered(*self, state@, #[trigger] roots[i]),
                    forall|a: int, b: int|
                        0 <= a < last && 0 <= b < g.info(a).deps().len() ==> covered(
                            *self,
                            state@,
                            (#[trigger] g.info(a).deps()[b]).0,
                        ),
                    forall|b: int|
                        0 <= b < j ==> covered(*self, state@, (#[trigger] node@.deps()[b]).0),
                decreases node@.deps().len() - j,
            {
                let dep = node.dep(j);
                proof {
                    assert(self.record(cur_name@).deps()[j as int].0 == dep.0@);
                    assert(depends_on(*self, cur_name@, dep.0@));
                    lemma_step_reachable(*self, roots, cur_name@, dep.0@);
                }
                match self.find(dep.0.as_str()) {
                    None => {
                        let e = NbError::MissingDependency(dep.0.clone(), cur_name.clone());
                        return Err(e);
                    },
                    Some(d) => {
                        proof {
                            self.lemma_has(dep.0@);
                        }
                        if state[d] == 0 {
                            proof {
                                lemma_mark_pending(
                                    *self,
                                    roots,
                                    state@,
                                    positions(pending@),
                                    g.nodes(),
                                    d as int,
                                );
                                assert(positions(pending@.push(d)) =~= positions(pending@).push(
                                    d as int,
                                ));
                            }
                            state.set(d, 1u8);
                            pending.push(d);
                        }
                        assert(covered(*self, state@, node@.deps()[j as int].0));
                    },
                }
                j += 1;
            }
            proof {
                assert forall|a: int, b: int|
                    0 <= a < g.count() && 0 <= b < g.info(a).deps().len() implies covered(
                    *self,
                    state@,
                    (#[trigger] g.info(a).deps()[b]).0,
                ) by {
                    if a == last {
                        assert(g.info(a) == node@);
                    }
                }
            }
        }
        proof {
            assert(positions(pending@).len() == 0);
            assert forall|name: Seq<char>| covered(*self, state@, name) implies g.has(name) by {
                let at = self.position(name);
                self.lemma_has(name);
                if state@[at] == 1 {
                    assert(positions(pending@).contains(at));
                }
                assert(state@[at] == 2);
                assert(g.nodes().contains(at));
                let a = choose|a: int| 0 <= a < g.nodes().len() && g.nodes()[a] == at;
                assert(g.name(a) == name);
            }
            assert(g.closed());
            assert forall|i: int| 0 <= i < roots.len() implies g.has(#[trigger] roots[i]) by {
                assert(covered(*self, state@, roots[i]));
            }
            assert forall|name: Seq<char>| g.has(name) <==> reachable(*self, roots, name) by {
                if g.has(name) {
                    let a = choose|a: int| 0 <= a < g.count() && #[trigger] g.name(a) == name;
                    assert(state@[g.nodes()[a]] == 2);
                }
                if reachable(*self, roots, name) {
                    let steps = choose|steps: nat| reach(*self, roots, name, steps);
                    lemma_closed_has_reached(g, roots, name, steps);
                }
            }
            assert forall|name: Seq<char>| #[trigger]
                reachable(*self, roots, name) implies self.has(name) by {
                assert(g.has(name));
                let a = choose|a: int| 0 <= a < g.count() && #[trigger] g.name(a) == name;
                g.lemma_node(a);
            }
        }
        Ok(g)
    }
}

impl PkgDb {
    /// Resolves a selection of packages, or the whole database where there is
    /// no selection, to a part of the database.
    ///
    /// Without following dependencies the result holds exactly the selected
    /// packages. With it, the result holds exactly what is reached from the
    /// selection through dependencies, and it is consistent: every dependency
    /// in it is met in it. The resolution fails where a selected name, or a
    /// name that is reached, is no package of the database, and where a
    /// dependency on the way is there in a version that its requirement refuses.
    pub fn get_subgraph<'a>(&'a self, select: Option<&[&str]>, follow_deps: bool) -> (r: Result<
        Subgraph<'a>,
        NbError,
    >)
        requires
            self.wf(),
        ensures
            r is Ok <==> resolvable(*self, roots_of(*self, select), follow_deps),
            match r {
                Ok(g) => {
                    &&& g.wf()
                    &&& g.db() == *self
                    &&& forall|n: Seq<char>|
                        g.has(n) <==> wanted(*self, roots_of(*self, select), follow_deps, n)
                    &&& follow_deps ==> g.closed() && g.integral()
                },
                Err(e) => resolution_error(*self, roots_of(*self, select), follow_deps, e@),
            },
    {
        let ghost roots = roots_of(*self, select);
        let seeds = match self.seeds(select) {
            Ok(v) => v,
            Err(e) => {
                proof {
                    let i = choose|i: int| #[trigger]
                        is_first_absent(*self, roots, i) && e@ == NbErrorView::PkgNotFound(
                            roots[i],
                        );
                    assert(!self.has(roots[i]));
                }
                return Err(e);
            },
        };
        if !follow_deps {
            let mut g = Subgraph::new(self);
            let mut k: usize = 0;
            while k < seeds.len()
                invariant
                    self.wf(),
                    g.wf(),
                    g.db() == *self,
                    k <= seeds.len(),
                    seeds_of(*self, roots, seeds@),
                    forall|a: int| 0 <= a < k ==> g.nodes().contains((#[trigger] seeds[a]) as int),
                    forall|a: int|
                        0 <= a < g.count() ==> positions(seeds@).contains(#[trigger] g.nodes()[a]),
                decreases seeds.len() - k,
            {
                let ghost before = g.nodes();
                let at = seeds[k];
                let added = g.add_node(at);
                proof {
                    assert(positions(seeds@)[k as int] == at as int);
                    if added {
                        assert(g.nodes()[before.len() as int] == at as int);
                        assert forall|a: int| 0 <= a < k implies g.nodes().contains(
                            (#[trigger] seeds[a]) as int,
                        ) by {
                            let w = choose|w: int|
                                0 <= w < before.len() && before[w] == seeds[a] as int;
                            assert(g.nodes()[w] == seeds[a] as int);
                        }
                        assert forall|a: int| 0 <= a < g.count() implies positions(
                            seeds@,
                        ).contains(#[trigger] g.nodes()[a]) by {
                            if a < before.len() {
                                assert(g.nodes()[a] == before[a]);
                            }
                        }
                    }
                }
                k += 1;
            }
            proof {
                assert forall|n: Seq<char>| g.has(n) <==> roots.contains(n) by {
                    if g.has(n) {
                        let a = choose|a: int| 0 <= a < g.count() && #[trigger] g.name(a) == n;
                        let w = choose|w: int|
                            0 <= w < positions(seeds@).len() && positions(seeds@)[w] == g.nodes()[a];
                        assert(roots.contains(self.names()[seeds[w] as int]));
                    }
                    if roots.contains(n) {
                        let i = choose|i: int| 0 <= i < roots.len() && roots[i] == n;
                        assert(self.has(roots[i]));
                        self.lemma_has(n);
                        let w = choose|w: int|
                            0 <= w < positions(seeds@).len() && positions(seeds@)[w]
                                == self.position(roots[i]);
                        assert(g.nodes().contains(seeds[w] as int));
                        let a = choose|a: int|
                            0 <= a < g.nodes().len() && g.nodes()[a] == seeds[w] as int;
                        assert(g.name(a) == n);
                    }
                }
            }
            return Ok(g);
        }
        let g = match self.close(&seeds, Ghost(roots)) {
            Ok(g) => g,
            Err(e) => {
                return Err(e);
            },
        };
        match PkgDb::check_subgraph_integrity(&g) {
            Ok(_) => {
                proof {
                    assert forall|p: Seq<char>, j: int|
                        reachable(*self, roots, p) && self.has(p) && 0 <= j < self.record(
                            p,
                        ).deps().len() implies #[trigger] dependency_met(*self, p, j) by {
                        assert(g.has(p));
                        let a = choose|a: int| 0 <= a < g.count() && #[trigger] g.name(a) == p;
                        g.lemma_node(a);
                        assert(g.edge_ok(a, j));
                        let d = g.info(a).deps()[j].0;
                        let b = choose|b: int| 0 <= b < g.count() && #[trigger] g.name(b) == d;
                        g.lemma_node(b);
                    }
                }
                Ok(g)
            },
            Err(e) => {
                proof {
                    let (a, j) = choose|a: int, j: int| #[trigger]
                        g.first_broken_edge(a, j) && e@ == g.edge_error(a, j);
                    g.lemma_node(a);
                    let p = g.name(a);
                    let dep = g.info(a).deps()[j];
                    assert(g.has(dep.0));
                    let b = choose|b: int| 0 <= b < g.count() && #[trigger] g.name(b) == dep.0;
                    g.lemma_node(b);
                    assert(self.record(p).deps()[j] == dep);
                    assert(!dependency_met(*self, p, j));
                }
                Err(e)
            },
        }
    }
}

/// Removing the targets breaks the dependency at position `j` of the package
/// at position `p` of the database: that package stays, and the dependency
/// names a target whose version meets the requirement.
pub open spec fn breaks(db: PkgDb, targets: Seq<Seq<char>>, p: int, j: int) -> bool {
    let dep = db.infos()[p].deps()[j];
    &&& !targets.contains(db.names()[p])
    &&& targets.contains(dep.0)
    &&& db.has(dep.0)
    &&& req_matches(dep.1, db.record(dep.0).version)
}

/// The dependency at `(p, j)` is broken by the removal, and it is the first
/// such in the order of the packages and, within a package, of its
/// dependencies.
pub open spec fn first_break(db: PkgDb, targets: Seq<Seq<char>>, p: int, j: int) -> bool {
    &&& 0 <= p < db.names().len()
    &&& 0 <= j < db.infos()[p].deps().len()
    &&& breaks(db, targets, p, j)
    &&& forall|q: int, j2: int|
        0 <= q < p && 0 <= j2 < db.infos()[q].deps().len() ==> !#[trigger] breaks(
            db,
            targets,
            q,
            j2,
        )
    &&& forall|j2: int| 0 <= j2 < j ==> !#[trigger] breaks(db, targets, p, j2)
}

/// The targets can be removed: they are packages of the database, and no
/// package that stays depends on one of them.
pub open spec fn removable(db: PkgDb, targets: Seq<Seq<char>>) -> bool {
    &&& roots_present(db, targets)
    &&& forall|p: int, j: int|
        0 <= p < db.names().len() && 0 <= j < db.infos()[p].deps().len() ==> !#[trigger] breaks(
            db,
            targets,
            p,
            j,
        )
}

/// The error `e` is owed for the check of a removal: the first target that is
/// no package of the database, or else the first dependency that the removal
/// would break, with the target first and then the package that needs it.
pub open spec fn removal_error(db: PkgDb, targets: Seq<Seq<char>>, e: NbErrorView) -> bool {
    match e {
        NbErrorView::PkgNotFound(n) => exists|i: int| #[trigger]
            is_first_absent(db, targets, i) && targets[i] == n,
        NbErrorView::RemoveBreaksPkg(d, pk) => {
            &&& roots_present(db, targets)
            &&& exists|p: int, j: int| #[trigger]
                first_break(db, targets, p, j) && d == db.infos()[p].deps()[j].0 && pk
                    == db.names()[p]
        },
        _ => false,
    }
}

impl PkgDb {
    /// Checks that the packages `to_remove` can be removed: that each is in the
    /// database, and that no package that stays depends on one of them in a
    /// version that meets its requirement. Nothing is removed.
    pub fn check_remove(&self, to_remove: Vec<&str>) -> (r: Result<(), NbError>)
        requires
            self.wf(),
        ensures
            r is Ok <==> removable(*self, selection_names(to_remove@)),
            r matches Err(e) ==> removal_error(*self, selection_names(to_remove@), e@),
    {
        let ghost targets = selection_names(to_remove@);
        let seeds = match self.seeds(Some(to_remove.as_slice())) {
            Ok(v) => v,
            Err(e) => {
                proof {
                    let i = choose|i: int| #[trigger]
                        is_first_absent(*self, targets, i) && e@ == NbErrorView::PkgNotFound(
                            targets[i],
                        );
                    assert(!self.has(targets[i]));
                }
                return Err(e);
            },
        };
        let n = self.len();
        let mut mark: Vec<bool> = Vec::new();
        while mark.len() < n
            invariant
                mark.len() <= n,
                forall|i: int| 0 <= i < mark.len() ==> !mark[i],
            decreases n - mark.len(),
        {
            mark.push(false);
        }
        let mut k: usize = 0;
        while k < seeds.len()
            invariant
                n == self.names().len(),
                mark.len() == n,
                k <= seeds.len(),
                seeds_of(*self, targets, seeds@),
                forall|a: int| 0 <= a < k ==> mark[(#[trigger] seeds[a]) as int],
                forall|i: int|
                    0 <= i < n && #[trigger] mark[i] ==> positions(seeds@).contains(i),
            decreases seeds.len() - k,
        {
            let at = seeds[k];
            assert(positions(seeds@)[k as int] == at as int);
            mark.set(at, true);
            k += 1;
        }
        proof {
            assert forall|i: int| 0 <= i < n implies (#[trigger] mark[i] <==> targets.contains(
                self.names()[i],
            )) by {
                if mark[i] {
                    let w = choose|w: int|
                        0 <= w < positions(seeds@).len() && positions(seeds@)[w] == i;
                    assert(targets.contains(self.names()[seeds[w] as int]));
                }
                if targets.contains(self.names()[i]) {
                    let t = choose|t: int| 0 <= t < targets.len() && targets[t] == self.names()[i];
                    self.lemma_position(i);
                    let w = choose|w: int|
                        0 <= w < positions(seeds@).len() && positions(seeds@)[w]
                            == self.position(targets[t]);
                    assert(mark[seeds[w] as int]);
                }
            }
        }
        let mut p: usize = 0;
        while p < n
            invariant
                self.wf(),
                targets == selection_names(to_remove@),
                n == self.names().len(),
                mark.len() == n,
                p <= n,
                roots_present(*self, targets),
                forall|i: int|
                    0 <= i < n ==> (#[trigger] mark[i] <==> targets.contains(self.names()[i])),
                forall|q: int, j2: int|
                    0 <= q < p && 0 <= j2 < self.infos()[q].deps().len() ==> !#[trigger] breaks(
                        *self,
                        targets,
                        q,
                        j2,
                    ),
            decreases n - p,
        {
            if !mark[p] {
                let node = self.info_at(p);
                let mut j: usize = 0;
                while j < node.dep_count()
                    invariant
                        self.wf(),
                        targets == selection_names(to_remove@),
                        n == self.names().len(),
                        mark.len() == n,
                        p < n,
                        !mark[p as int],
                        node@ == self.infos()[p as int],
                        j <= node@.deps().len(),
                        roots_present(*self, targets),
                        forall|i: int|
                            0 <= i < n ==> (#[trigger] mark[i] <==> targets.contains(
                                self.names()[i],
                            )),
                        forall|q: int, j2: int|
                            0 <= q < p && 0 <= j2 < self.infos()[q].deps().len()
                                ==> !#[trigger] breaks(*self, targets, q, j2),
                        forall|j2: int| 0 <= j2 < j ==> !#[trigger] breaks(*self, targets, p as int, j2),
                    decreases node@.deps().len() - j,
                {
                    let dep = node.dep(j);
                    match self.find(dep.0.as_str()) {
                        Some(d) => {
                            proof {
                                self.lemma_has(dep.0@);
                            }
                            let goes = mark[d];
                            let accepted = goes && dep.1.matches(self.info_at(d).version());
                            if let Err(e) = break_outcome(
                                dep.0.as_str(),
                                self.name_at(p).as_str(),
                                accepted,
                            ) {
                                proof {
                                    assert(breaks(*self, targets, p as int, j as int));
                                    assert(first_break(*self, targets, p as int, j as int));
                                    assert(e@ == NbErrorView::RemoveBreaksPkg(
                                        self.infos()[p as int].deps()[j as int].0,
                                        self.names()[p as int],
                                    ));
                                }
                                return Err(e);
                            }
                            assert(!breaks(*self, targets, p as int, j as int));
                        },
                        None => {
                            assert(!breaks(*self, targets, p as int, j as int));
                        },
                    }
                    j += 1;
                }
            } else {
                assert forall|j2: int|
                    0 <= j2 < self.infos()[p as int].deps().len() implies !#[trigger] breaks(
                    *self,
                    targets,
                    p as int,
                    j2,
                ) by {}
            }
            p += 1;
        }
        Ok(())
    }
}

} // verus!
