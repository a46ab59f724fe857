//! A graph of packages that owns its packages, with the check that it is
//! consistent.

use vstd::prelude::*;
use vstd::string::StringExecFns;
use crate::errors::{NbError, NbErrorView};
use crate::package::{Package, PackageView};
use crate::pkgdb::DEFAULT_SET;
use crate::requirement::{req_matches, requirement_text};
use crate::resolve::edge_outcome;
use crate::set::PkgSet;
use crate::version::version_text;

verus! {

/// Packages of one set, no two of the same name, each a node whose
/// dependencies are its edges.
#[derive(Debug)]
pub struct Graph {
    set: PkgSet,
    nodes: Vec<Package>,
}

/// The values of a list of packages, in order.
pub open spec fn packages_view(list: Seq<Package>) -> Seq<PackageView> {
    list.map_values(|p: Package| p@)
}

/// No two of the packages have the same name.
pub open spec fn distinct_names(nodes: Seq<PackageView>) -> bool {
    forall|a: int, b: int|
        0 <= a < nodes.len() && 0 <= b < nodes.len() && a != b ==> (#[trigger] nodes[a]).name != (
        #[trigger] nodes[b]).name
}

/// One of the packages has this name.
pub open spec fn names(nodes: Seq<PackageView>, name: Seq<char>) -> bool {
    exists|k: int| 0 <= k < nodes.len() && (#[trigger] nodes[k]).name == name
}

/// The package of this name.
pub open spec fn named(nodes: Seq<PackageView>, name: Seq<char>) -> PackageView {
    nodes[choose|k: int| 0 <= k < nodes.len() && (#[trigger] nodes[k]).name == name]
}

/// The packages after `node` was added: as they were where one of them has
/// the name of `node`, else with `node` at the end.
pub open spec fn with_node(nodes: Seq<PackageView>, node: PackageView) -> Seq<PackageView> {
    if names(nodes, node.name) {
        nodes
    } else {
        nodes.push(node)
    }
}

/// The packages after the first `k` of `list` were added, one after the
/// other.
pub open spec fn with_nodes(list: Seq<PackageView>, k: nat) -> Seq<PackageView>
    decreases k,
{
    if k == 0 {
        Seq::empty()
    } else {
        with_node(with_nodes(list, (k - 1) as nat), list[k - 1])
    }
}

/// The dependency at position `j` of the package at position `k` is met:
/// the package it names is there, in a version that the requirement accepts.
pub open spec fn node_edge_ok(nodes: Seq<PackageView>, k: int, j: int) -> bool {
    let dep = nodes[k].deps()[j];
    names(nodes, dep.0) && req_matches(dep.1, named(nodes, dep.0).version)
}

/// Every dependency of every package is met.
pub open spec fn nodes_integral(nodes: Seq<PackageView>) -> bool {
    forall|k: int, j: int|
        0 <= k < nodes.len() && 0 <= j < nodes[k].deps().len() ==> #[trigger] node_edge_ok(
            nodes,
            k,
            j,
        )
}

/// The dependency at `(k, j)` is not met, and it is the first such in the
/// order of the packages and, within a package, of its dependencies.
pub open spec fn first_broken_node_edge(nodes: Seq<PackageView>, k: int, j: int) -> bool {
    &&& 0 <= k < nodes.len()
    &&& 0 <= j < nodes[k].deps().len()
    &&& !node_edge_ok(nodes, k, j)
    &&& forall|k2: int, j2: int|
        0 <= k2 < k && 0 <= j2 < nodes[k2].deps().len() ==> #[trigger] node_edge_ok(nodes, k2, j2)
    &&& forall|j2: int| 0 <= j2 < j ==> #[trigger] node_edge_ok(nodes, k, j2)
}

/// The error for a dependency that is not met.
pub open spec fn node_edge_error(nodes: Seq<PackageView>, k: int, j: int) -> NbErrorView {
    let dep = nodes[k].deps()[j];
    if names(nodes, dep.0) {
        NbErrorView::BrokenDependency(dep.0, dep.1, named(nodes, dep.0).version, nodes[k].name)
    } else {
        NbErrorView::MissingDependency(dep.0, nodes[k].name)
    }
}

/// The outcome of the check of a graph.
pub open spec fn integrity_outcome(nodes: Seq<PackageView>, r: Result<(), NbError>) -> bool {
    match r {
        Ok(_) => nodes_integral(nodes),
        Err(e) => exists|k: int, j: int| #[trigger]
            first_broken_node_edge(nodes, k, j) && e@ == node_edge_error(nodes, k, j),
    }
}

/// The text of the dependencies of a package: each in brackets, with a blank
/// before and after.
pub open spec fn edges_text(deps: Seq<crate::query::QueryView>) -> Seq<char>
    decreases deps.len(),
{
    if deps.len() == 0 {
        Seq::empty()
    } else {
        edges_text(deps.drop_last()) + " ["@ + deps.last().0 + requirement_text(deps.last().1)
            + "] "@
    }
}

/// The lines of one package: its name and version, and, where the package has
/// a list of dependencies, a line with them.
pub open spec fn node_text(node: PackageView) -> Seq<char> {
    "    - "@ + node.name + " "@ + version_text(node.version) + "\n"@ + match node.depends {
        Some(deps) => "        depends:"@ + edges_text(deps) + "\n"@,
        None => Seq::empty(),
    }
}

/// The lines of the packages, in order.
pub open spec fn nodes_text(nodes: Seq<PackageView>) -> Seq<char>
    decreases nodes.len(),
{
    if nodes.len() == 0 {
        Seq::empty()
    } else {
        nodes_text(nodes.drop_last()) + node_text(nodes.last())
    }
}

/// The text of a graph: its set, and its packages.
pub open spec fn graph_text(set: PkgSet, nodes: Seq<PackageView>) -> Seq<char> {
    "* Set: "@ + (match set {
        PkgSet::Universe => "Universe"@,
        PkgSet::Local => "Local"@,
    }) + "\n* Packages:\n"@ + nodes_text(nodes)
}

impl Graph {
    /// The set of the graph.
    pub closed spec fn spec_set(&self) -> PkgSet {
        self.set
    }

    /// The packages of the graph, in the order in which it holds them.
    pub closed spec fn nodes(&self) -> Seq<PackageView> {
        packages_view(self.nodes@)
    }

    /// The invariant of a graph: no two packages have the same name.
    pub open spec fn wf(&self) -> bool {
        distinct_names(self.nodes())
    }

    /// An empty graph of the default set.
    pub fn new() -> (g: Graph)
        ensures
            g.wf(),
            g.spec_set() == DEFAULT_SET,
            g.nodes().len() == 0,
    {
        Graph { set: DEFAULT_SET, nodes: Vec::new() }
    }

    /// A graph of the given set with the given packages, each added as
    /// `add_node` adds it. With `check`, the graph is checked as
    /// `check_integrity` checks it, and refused with the error of the check
    /// where it is not consistent.
    pub fn from(set: PkgSet, map: Vec<Package>, check: bool) -> (r: Result<Graph, NbError>)
        ensures
            match r {
                Ok(g) => {
                    &&& g.wf()
                    &&& g.spec_set() == set
                    &&& g.nodes() == with_nodes(packages_view(map@), map.len() as nat)
                    &&& check ==> nodes_integral(g.nodes())
                },
                Err(e) => check && integrity_outcome(
                    with_nodes(packages_view(map@), map.len() as nat),
                    Err(e),
                ),
            },
    {
        let mut map = map;
        let ghost all = packages_view(map@);
        let ghost total = map.len();
        let mut g = Graph { set, nodes: Vec::new() };
        // The packages are taken from the end, so the list is turned first.
        let mut turned: Vec<Package> = Vec::new();
        while map.len() > 0
            invariant
                map.len() + turned.len() == total,
                total == all.len(),
                forall|i: int| 0 <= i < map.len() ==> (#[trigger] map[i])@ == all[i],
                forall|i: int|
                    0 <= i < turned.len() ==> (#[trigger] turned[i])@ == all[total - 1 - i],
            decreases map.len(),
        {
            let p = map.pop().unwrap();
            turned.push(p);
        }
        let mut k: usize = 0;
        while turned.len() > 0
            invariant
                k + turned.len() == total,
                total == all.len(),
                forall|i: int|
                    0 <= i < turned.len() ==> (#[trigger] turned[i])@ == all[total - 1 - i],
                g.wf(),
                g.spec_set() == set,
                g.nodes() == with_nodes(all, k as nat),
            decreases turned.len(),
        {
            let p = turned.pop().unwrap();
            assert(p@ == all[k as int]);
            g.add_node(p);
            k += 1;
        }
        if check {
            match g.check_integrity() {
                Ok(_) => Ok(g),
                Err(e) => Err(e),
            }
        } else {
            Ok(g)
        }
    }

    /// The position of the package of this name, if the graph has one.
    fn find(&self, name: &str) -> (r: Option<usize>)
        requires
            self.wf(),
        ensures
            match r {
                Some(k) => k < self.nodes().len() && self.nodes()[k as int].name == name@
                    && names(self.nodes(), name@) && named(self.nodes(), name@)
                    == self.nodes()[k as int],
                None => !names(self.nodes(), name@),
            },
    {
        let key = String::from_str(name);
        let mut k: usize = 0;
        while k < self.nodes.len()
            invariant
                self.wf(),
                key@ == name@,
                k <= self.nodes.len(),
                forall|i: int| 0 <= i < k ==> (#[trigger] self.nodes()[i]).name != name@,
            decreases self.nodes.len() - k,
        {
            let same = String::from_str(self.nodes[k].name()) == key;
            assert(self.nodes()[k as int] == self.nodes@[k as int]@);
            if same {
                proof {
                    let c = choose|c: int|
                        0 <= c < self.nodes().len() && (#[trigger] self.nodes()[c]).name == name@;
                    assert(c == k);
                }
                return Some(k);
            }
            k += 1;
        }
        None
    }

    /// Tells whether the graph has a package of this name.
    pub fn contains_node(&self, name: &str) -> (b: bool)
        requires
            self.wf(),
        ensures
            b == names(self.nodes(), name@),
    {
        self.find(name).is_some()
    }

    /// Adds a package, unless the graph has one of the same name.
    pub fn add_node(&mut self, node: Package)
        requires
            old(self).wf(),
        ensures
            final(self).wf(),
            final(self).spec_set() == old(self).spec_set(),
            final(self).nodes() == with_node(old(self).nodes(), node@),
    {
        if !self.contains_node(node.name()) {
            let ghost before = self.nodes();
            self.nodes.push(node);
            proof {
                assert(self.nodes() =~= before.push(node@));
                assert forall|a: int, b: int|
                    0 <= a < self.nodes().len() && 0 <= b < self.nodes().len() && a
                        != b implies (#[trigger] self.nodes()[a]).name != (
                #[trigger] self.nodes()[b]).name by {
                    if a < before.len() && b < before.len() {
                        assert(before[a].name != before[b].name);
                    } else if a < before.len() {
                        assert(before[a].name != node@.name);
                    } else {
                        assert(before[b].name != node@.name);
                    }
                }
            }
        }
    }

    /// Checks that the graph is consistent: that every dependency of every
    /// package names a package of the graph whose version meets the
    /// requirement. Fails for the first dependency that is not met, in the
    /// order of the packages and of the dependencies of each.
    pub fn check_integrity(&self) -> (r: Result<(), NbError>)
        requires
            self.wf(),
        ensures
            integrity_outcome(self.nodes(), r),
    {
        let ghost nodes = self.nodes();
        let mut k: usize = 0;
        while k < self.nodes.len()
            invariant
                self.wf(),
                nodes == self.nodes(),
                k <= nodes.len(),
                forall|k2: int, j2: int|
                    0 <= k2 < k && 0 <= j2 < nodes[k2].deps().len() ==> #[trigger] node_edge_ok(
                        nodes,
                        k2,
                        j2,
                    ),
            decreases nodes.len() - k,
        {
            let node = &self.nodes[k];
            assert(node@ == nodes[k as int]);
            let mut j: usize = 0;
            while j < node.dep_count()
                invariant
                    self.wf(),
                    nodes == self.nodes(),
                    k < nodes.len(),
                    node@ == nodes[k as int],
                    j <= node@.deps().len(),
                    forall|k2: int, j2: int|
                        0 <= k2 < k && 0 <= j2 < nodes[k2].deps().len()
                            ==> #[trigger] node_edge_ok(nodes, k2, j2),
                    forall|j2: int| 0 <= j2 < j ==> #[trigger] node_edge_ok(nodes, k as int, j2),
                decreases node@.deps().len() - j,
            {
                let dep = node.dep(j);
                let found = match self.find(dep.0.as_str()) {
                    Some(at) => {
                        let named = &self.nodes[at];
                        assert(named@ == nodes[at as int]);
                        Some((named.version(), dep.1.matches(named.version())))
                    },
                    None => None,
                };
                match edge_outcome(dep.0.as_str(), &dep.1, node.name(), found) {
                    Ok(_) => {},
                    Err(e) => {
                        proof {
                            assert(first_broken_node_edge(nodes, k as int, j as int));
                            assert(e@ == node_edge_error(nodes, k as int, j as int));
                        }
                        return Err(e);
                    },
                }
                assert(node_edge_ok(nodes, k as int, j as int));
                j += 1;
            }
            k += 1;
        }
        Ok(())
    }

    /// The text of the graph: its set, and each package with its version and
    /// its dependencies.
    pub fn to_text(&self) -> (s: String)
        ensures
            s@ == graph_text(self.spec_set(), self.nodes()),
    {
        let ghost nodes = self.nodes();
        let mut s = String::from_str("* Set: ");
        match self.set {
            PkgSet::Universe => s.append("Universe"),
            PkgSet::Local => s.append("Local"),
        }
        s.append("\n* Packages:\n");
        let ghost head = s@;
        let mut k: usize = 0;
        while k < self.nodes.len()
            invariant
                nodes == self.nodes(),
                k <= nodes.len(),
                s@ == head + nodes_text(nodes.take(k as int)),
            decreases nodes.len() - k,
        {
            let node = &self.nodes[k];
            proof {
                assert(node@ == nodes[k as int]);
                assert(nodes.take(k + 1).drop_last() =~= nodes.take(k as int));
                assert(nodes.take(k + 1).last() == nodes[k as int]);
            }
            let ghost before = s@;
            let version = node.version().to_text();
            s.append("    - ");
            s.append(node.name());
            s.append(" ");
            s.append(version.as_str());
            s.append("\n");
            match node.depends() {
                Some(deps) => {
                    s.append("        depends:");
                    let ghost line = s@;
                    let ghost all = crate::pkginfo::queries_view(deps@);
                    let mut j: usize = 0;
                    while j < deps.len()
                        invariant
                            all == crate::pkginfo::queries_view(deps@),
                            j <= deps.len(),
                            s@ == line + edges_text(all.take(j as int)),
                        decreases deps.len() - j,
                    {
                        proof {
                            assert(all.take(j + 1).drop_last() =~= all.take(j as int));
                            assert(all.take(j + 1).last() == (deps@[j as int].0@, deps@[j as int].1@));
                        }
                        let req = deps[j].1.to_text();
                        s.append(" [");
                        s.append(deps[j].0.as_str());
                        s.append(req.as_str());
                        s.append("] ");
                        j += 1;
                    }
                    assert(all.take(deps.len() as int) =~= all);
                    s.append("\n");
                    assert(s@ =~= before + node_text(node@));
                },
                None => {
                    assert(s@ =~= before + node_text(node@));
                },
            }
            assert(s@ =~= head + (nodes_text(nodes.take(k as int)) + node_text(node@)));
            k += 1;
        }
        assert(nodes.take(nodes.len() as int) =~= nodes);
        s
    }
}

impl Default for Graph {
    fn default() -> (g: Graph)
        ensures
            g.wf(),
            g.spec_set() == DEFAULT_SET,
            g.nodes().len() == 0,
    {
        Graph::new()
    }
}

} // verus!
