//! A part of a package database: some of its records, seen through the
//! database and never copied out of it.

use vstd::prelude::*;
use crate::pkgdb::PkgDb;
use crate::pkginfo::{PkgInfo, PkgInfoView};

verus! {

/// Some of the packages of one database, each held as its position there. A
/// subgraph borrows its database, so it cannot outlive it.
#[derive(Debug)]
pub struct Subgraph<'a> {
    db: &'a PkgDb,
    nodes: Vec<usize>,
}

impl<'a> View for Subgraph<'a> {
    type V = Map<Seq<char>, PkgInfoView>;

    /// The subgraph as a map from names to records.
    open spec fn view(&self) -> Map<Seq<char>, PkgInfoView> {
        Map::new(|name: Seq<char>| self.has(name), |name: Seq<char>| self.record(name))
    }
}

impl<'a> Subgraph<'a> {
    /// The database that the subgraph is a part of.
    pub closed spec fn db(&self) -> PkgDb {
        *self.db
    }

    /// The positions in the database of the packages of the subgraph, in the
    /// order in which the subgraph holds them.
    pub closed spec fn nodes(&self) -> Seq<int> {
        self.nodes@.map_values(|i: usize| i as int)
    }

    /// The invariant of a subgraph: its database is well formed, and it holds
    /// positions of that database, none of them twice.
    pub open spec fn wf(&self) -> bool {
        &&& self.db().wf()
        &&& forall|k: int|
            0 <= k < self.nodes().len() ==> 0 <= #[trigger] self.nodes()[k] < self.db().names().len()
        &&& self.nodes().no_duplicates()
    }

    /// The number of packages.
    pub open spec fn count(&self) -> nat {
        self.nodes().len()
    }

    /// The name of the package at position `k` of the subgraph.
    pub open spec fn name(&self, k: int) -> Seq<char> {
        self.db().names()[self.nodes()[k]]
    }

    /// The record of the package at position `k` of the subgraph.
    pub open spec fn info(&self, k: int) -> PkgInfoView {
        self.db().infos()[self.nodes()[k]]
    }

    /// The subgraph has a package of this name.
    pub open spec fn has(&self, name: Seq<char>) -> bool {
        exists|k: int| 0 <= k < self.count() && #[trigger] self.name(k) == name
    }

    /// The record of the package of this name: the one of the database.
    pub open spec fn record(&self, name: Seq<char>) -> PkgInfoView {
        self.db().record(name)
    }

    /// A package of the subgraph is a package of its database, with the same
    /// record, and stands in the subgraph once.
    pub proof fn lemma_node(&self, k: int)
        requires
            self.wf(),
            0 <= k < self.count(),
        ensures
            self.has(self.name(k)),
            self.db().has(self.name(k)),
            self.db().position(self.name(k)) == self.nodes()[k],
            self.record(self.name(k)) == self.info(k),
            forall|other: int|
                0 <= other < self.count() && self.name(other) == self.name(k) ==> other == k,
    {
        self.db().lemma_position(self.nodes()[k]);
        assert forall|other: int|
            0 <= other < self.count() && self.name(other) == self.name(k) implies other == k by {
            self.db().lemma_position(self.nodes()[other]);
        }
    }

    /// A subgraph of `db` without packages.
    pub fn new(db: &'a PkgDb) -> (g: Subgraph<'a>)
        requires
            db.wf(),
        ensures
            g.wf(),
            g.db() == *db,
            g.count() == 0,
    {
        Subgraph { db, nodes: Vec::new() }
    }

    /// The database that the subgraph is a part of.
    pub fn source(&self) -> (db: &'a PkgDb)
        ensures
            *db == self.db(),
    {
        self.db
    }

    /// The number of packages.
    pub fn len(&self) -> (n: usize)
        ensures
            n == self.count(),
    {
        self.nodes.len()
    }

    /// The position in the database of the package at position `k`.
    pub fn node_at(&self, k: usize) -> (i: usize)
        requires
            k < self.count(),
        ensures
            i == self.nodes()[k as int],
    {
        self.nodes[k]
    }

    /// The name of the package at position `k`.
    pub fn name_at(&self, k: usize) -> (name: &'a String)
        requires
            self.wf(),
            k < self.count(),
        ensures
            name@ == self.name(k as int),
    {
        assert(0 <= self.nodes()[k as int] < self.db().names().len());
        self.db.name_at(self.nodes[k])
    }

    /// The record of the package at position `k`.
    pub fn info_at(&self, k: usize) -> (info: &'a PkgInfo)
        requires
            self.wf(),
            k < self.count(),
        ensures
            info@ == self.info(k as int),
    {
        assert(0 <= self.nodes()[k as int] < self.db().names().len());
        self.db.info_at(self.nodes[k])
    }

    /// The position in the subgraph of the package that stands at position `i`
    /// of the database, if the subgraph has it.
    pub fn find_node(&self, i: usize) -> (r: Option<usize>)
        ensures
            match r {
                Some(k) => k < self.count() && self.nodes()[k as int] == i,
                None => forall|k: int| 0 <= k < self.count() ==> self.nodes()[k] != i,
            },
    {
        let mut k: usize = 0;
        while k < self.nodes.len()
            invariant
                k <= self.nodes.len(),
                forall|j: int| 0 <= j < k ==> self.nodes()[j] != i,
            decreases self.nodes.len() - k,
        {
            if self.nodes[k] == i {
                return Some(k);
            }
            k += 1;
        }
        None
    }

    /// The position in the subgraph of the package of this name, if the
    /// subgraph has one.
    pub fn find(&self, name: &str) -> (r: Option<usize>)
        requires
            self.wf(),
        ensures
            match r {
                Some(k) => k < self.count() && self.name(k as int) == name@,
                None => !self.has(name@),
            },
    {
        match self.db.find(name) {
            Some(i) => {
                let r = self.find_node(i);
                proof {
                    match r {
                        Some(k) => {
                            self.db().lemma_has(name@);
                        },
                        None => {
                            if self.has(name@) {
                                let k = choose|k: int|
                                    0 <= k < self.count() && #[trigger] self.name(k) == name@;
                                self.lemma_node(k);
                            }
                        },
                    }
                }
                r
            },
            None => {
                proof {
                    if self.has(name@) {
                        let k = choose|k: int|
                            0 <= k < self.count() && #[trigger] self.name(k) == name@;
                        self.lemma_node(k);
                    }
                }
                None
            },
        }
    }

    /// Tells whether the subgraph has a package of this name.
    pub fn contains_name(&self, name: &str) -> (b: bool)
        requires
            self.wf(),
        ensures
            b == self.has(name@),
    {
        let r = self.find(name);
        proof {
            if let Some(k) = r {
                self.lemma_node(k as int);
            }
        }
        r.is_some()
    }

    /// The record of the package of this name, if the subgraph has one.
    pub fn get(&self, name: &str) -> (r: Option<&'a PkgInfo>)
        requires
            self.wf(),
        ensures
            match r {
                Some(info) => self.has(name@) && info@ == self.record(name@),
                None => !self.has(name@),
            },
    {
        match self.find(name) {
            Some(k) => {
                proof {
                    self.lemma_node(k as int);
                }
                Some(self.info_at(k))
            },
            None => None,
        }
    }

    /// Adds the package that stands at position `i` of the database, unless the
    /// subgraph has it. Tells whether it was added.
    pub fn add_node(&mut self, i: usize) -> (added: bool)
        requires
            old(self).wf(),
            i < old(self).db().names().len(),
        ensures
            final(self).wf(),
            final(self).db() == old(self).db(),
            added == !old(self).nodes().contains(i as int),
            added ==> final(self).nodes() == old(self).nodes().push(i as int),
            !added ==> final(self).nodes() == old(self).nodes(),
    {
        match self.find_node(i) {
            Some(k) => {
                assert(self.nodes()[k as int] == i as int);
                false
            },
            None => {
                let ghost before = self.nodes();
                self.nodes.push(i);
                proof {
                    assert(self.nodes() =~= before.push(i as int));
                    assert(!before.contains(i as int));
                }
                true
            },
        }
    }

    /// Keeps the packages whose positions in the database are `nodes`, and no
    /// others.
    pub fn set_nodes(&mut self, nodes: Vec<usize>)
        requires
            old(self).db().wf(),
            nodes@.no_duplicates(),
            forall|k: int| 0 <= k < nodes.len() ==> (#[trigger] nodes[k]) < old(self).db().names().len(),
        ensures
            final(self).wf(),
            final(self).db() == old(self).db(),
            final(self).nodes() == nodes@.map_values(|i: usize| i as int),
    {
        proof {
            let mapped = nodes@.map_values(|i: usize| i as int);
            assert forall|a: int, b: int|
                0 <= a < mapped.len() && 0 <= b < mapped.len() && a != b implies mapped[a]
                != mapped[b] by {
                assert(nodes@[a] != nodes@[b]);
            }
        }
        self.nodes = nodes;
    }

    /// Takes the package at position `k` out of the subgraph.
    pub fn remove_at(&mut self, k: usize)
        requires
            old(self).wf(),
            k < old(self).count(),
        ensures
            final(self).wf(),
            final(self).db() == old(self).db(),
            final(self).nodes() == old(self).nodes().remove(k as int),
    {
        let ghost before = self.nodes();
        self.nodes.remove(k);
        proof {
            assert(self.nodes() =~= before.remove(k as int));
            assert forall|a: int, b: int|
                0 <= a < self.nodes().len() && 0 <= b < self.nodes().len() && a != b implies self.nodes()[a]
                != self.nodes()[b] by {
                let a0 = if a < k { a } else { a + 1 };
                let b0 = if b < k { b } else { b + 1 };
                assert(before[a0] != before[b0]);
            }
        }
    }
}

} // verus!
