//! The package database: the records of one set, each under its name.

use vstd::prelude::*;
use vstd::string::StringExecFns;
use crate::errors::{NbError, NbErrorView};
use crate::pkginfo::{named_view, texts, Named, NamedView, PkgInfo, PkgInfoView};
use crate::resolve::{removable, removal_error, selection_names};
use crate::set::PkgSet;
use crate::version::Version;

verus! {

/// The set of a database that is made without naming one.
pub const DEFAULT_SET: PkgSet = PkgSet::Universe;

/// The records of the packages of one set. No two records have the same name,
/// and a record that belongs to a set belongs to the set of the database.
#[derive(Debug)]
pub struct PkgDb {
    set: PkgSet,
    names: Vec<String>,
    infos: Vec<PkgInfo>,
}

/// The values of a list of records, in order.
pub open spec fn records_view(list: Seq<PkgInfo>) -> Seq<PkgInfoView> {
    list.map_values(|i: PkgInfo| i@)
}

impl View for PkgDb {
    type V = Map<Seq<char>, PkgInfoView>;

    /// The database as a map from names to records.
    open spec fn view(&self) -> Map<Seq<char>, PkgInfoView> {
        Map::new(|name: Seq<char>| self.has(name), |name: Seq<char>| self.record(name))
    }
}

impl PkgDb {
    /// The set of the database.
    pub closed spec fn spec_set(&self) -> PkgSet {
        self.set
    }

    /// The names of the packages, in the order in which the database holds
    /// them.
    pub closed spec fn names(&self) -> Seq<Seq<char>> {
        texts(self.names@)
    }

    /// The records of the packages, each at the position of its name.
    pub closed spec fn infos(&self) -> Seq<PkgInfoView> {
        records_view(self.infos@)
    }

    /// The invariant of the database.
    pub open spec fn wf(&self) -> bool {
        &&& self.names().len() == self.infos().len()
        &&& self.names().no_duplicates()
        &&& forall|i: int|
            0 <= i < self.infos().len() ==> (#[trigger] self.infos()[i]).fits(self.spec_set())
    }

    /// The database has a package of this name.
    pub open spec fn has(&self, name: Seq<char>) -> bool {
        self.names().contains(name)
    }

    /// The position of a name in the database.
    pub open spec fn position(&self, name: Seq<char>) -> int {
        self.names().index_of(name)
    }

    /// The record of the package of this name.
    pub open spec fn record(&self, name: Seq<char>) -> PkgInfoView {
        self.infos()[self.position(name)]
    }

    /// In a well-formed database a name stands at one position only.
    pub proof fn lemma_position(&self, i: int)
        requires
            self.wf(),
            0 <= i < self.names().len(),
        ensures
            self.has(self.names()[i]),
            self.position(self.names()[i]) == i,
            self.record(self.names()[i]) == self.infos()[i],
    {
        let name = self.names()[i];
        assert(self.names().contains(name));
        let p = self.names().index_of(name);
        assert(0 <= p < self.names().len() && self.names()[p] == name);
    }

    /// A name that the database has stands at its position.
    pub proof fn lemma_has(&self, name: Seq<char>)
        requires
            self.has(name),
        ensures
            0 <= self.position(name) < self.names().len(),
            self.names()[self.position(name)] == name,
    {
    }

    /// An empty database of the default set.
    pub fn new() -> (db: PkgDb)
        ensures
            db.wf(),
            db.spec_set() == DEFAULT_SET,
            db.names().len() == 0,
    {
        PkgDb::with_set(DEFAULT_SET)
    }

    /// An empty database of the given set.
    pub fn with_set(set: PkgSet) -> (db: PkgDb)
        ensures
            db.wf(),
            db.spec_set() == set,
            db.names().len() == 0,
    {
        PkgDb { set, names: Vec::new(), infos: Vec::new() }
    }

    /// The set of the database.
    pub fn set(&self) -> (set: PkgSet)
        ensures
            set == self.spec_set(),
    {
        self.set
    }

    /// The number of packages.
    pub fn len(&self) -> (n: usize)
        ensures
            n == self.names().len(),
    {
        self.names.len()
    }

    /// The name at position `i`.
    pub fn name_at(&self, i: usize) -> (name: &String)
        requires
            i < self.names().len(),
        ensures
            name@ == self.names()[i as int],
    {
        &self.names[i]
    }

    /// The record at position `i`.
    pub fn info_at(&self, i: usize) -> (info: &PkgInfo)
        requires
            self.wf(),
            i < self.names().len(),
        ensures
            info@ == self.infos()[i as int],
    {
        &self.infos[i]
    }

    /// The position of a name, if the database has it.
    pub fn find(&self, name: &str) -> (r: Option<usize>)
        requires
            self.wf(),
        ensures
            match r {
                Some(i) => self.has(name@) && i == self.position(name@) && i < self.names().len(),
                None => !self.has(name@),
            },
    {
        let key = String::from_str(name);
        let mut i: usize = 0;
        while i < self.names.len()
            invariant
                self.wf(),
                key@ == name@,
                i <= self.names.len(),
                forall|k: int| 0 <= k < i ==> self.names()[k] != name@,
            decreases self.names.len() - i,
        {
            if self.names[i] == key {
                proof {
                    assert(self.names()[i as int] == name@);
                    self.lemma_position(i as int);
                }
                return Some(i);
            }
            assert(self.names()[i as int] != name@);
            i += 1;
        }
        None
    }

    /// Tells whether the database has a package of this name.
    pub fn contains_name(&self, name: &str) -> (b: bool)
        requires
            self.wf(),
        ensures
            b == self.has(name@),
    {
        self.find(name).is_some()
    }

    /// The record of the package of this name, if the database has one.
    pub fn get_pkg_info(&self, name: &str) -> (r: Option<&PkgInfo>)
        requires
            self.wf(),
        ensures
            match r {
                Some(info) => self.has(name@) && info@ == self.record(name@),
                None => !self.has(name@),
            },
    {
        match self.find(name) {
            Some(i) => Some(&self.infos[i]),
            None => None,
        }
    }

    /// Tells whether the database has a package of this name in this very
    /// version: equal numbers and an equal pre-release tag, whatever the build
    /// metadata.
    pub fn contains(&self, name: &str, version: &Version) -> (b: bool)
        requires
            self.wf(),
        ensures
            b == (self.has(name@) && self.record(name@).version.same_release(version@)),
    {
        match self.get_pkg_info(name) {
            Some(info) => info.version().same_release(version),
            None => false,
        }
    }

    /// Puts a record under a name, in place of the record that is there under
    /// that name, if any, which is returned. A record that belongs to another
    /// set than the database is refused, and the database stays as it is.
    pub fn insert(&mut self, name: &str, info: PkgInfo) -> (r: Result<Option<PkgInfo>, NbError>)
        requires
            old(self).wf(),
        ensures
            final(self).wf(),
            final(self).spec_set() == old(self).spec_set(),
            match r {
                Ok(Some(previous)) => {
                    &&& info@.fits(old(self).spec_set())
                    &&& old(self).has(name@)
                    &&& previous@ == old(self).record(name@)
                    &&& final(self).names() == old(self).names()
                    &&& final(self).infos() == old(self).infos().update(
                        old(self).position(name@),
                        info@,
                    )
                },
                Ok(None) => {
                    &&& info@.fits(old(self).spec_set())
                    &&& !old(self).has(name@)
                    &&& final(self).names() == old(self).names().push(name@)
                    &&& final(self).infos() == old(self).infos().push(info@)
                },
                Err(e) => {
                    &&& !info@.fits(old(self).spec_set())
                    &&& e@ == NbErrorView::BrokenSetConsistency(name@, old(self).spec_set())
                    &&& final(self).names() == old(self).names()
                    &&& final(self).infos() == old(self).infos()
                },
            },
    {
        if !info.fits(self.set) {
            return Err(NbError::BrokenSetConsistency(String::from_str(name), self.set));
        }
        match self.find(name) {
            Some(i) => {
                let ghost before = self.infos();
                self.infos.push(info);
                let previous = self.infos.swap_remove(i);
                proof {
                    assert(self.infos() =~= before.update(i as int, info@));
                }
                Ok(Some(previous))
            },
            None => {
                let ghost names_before = self.names();
                let ghost infos_before = self.infos();
                self.names.push(String::from_str(name));
                self.infos.push(info);
                proof {
                    assert(self.names() =~= names_before.push(name@));
                    assert(self.infos() =~= infos_before.push(info@));
                }
                Ok(None)
            },
        }
    }
}

impl PkgDb {
    /// Removes the package of this name. With `check_conflicts`, the removal is
    /// first checked as `check_remove` does, and refused with its error where
    /// that check fails. A database that is not changed is as it was.
    pub fn remove(&mut self, name: &str, check_conflicts: bool) -> (r: Result<(), NbError>)
        requires
            old(self).wf(),
        ensures
            final(self).wf(),
            final(self).spec_set() == old(self).spec_set(),
            r is Ok <==> old(self).has(name@) && (check_conflicts ==> removable(
                *old(self),
                seq![name@],
            )),
            match r {
                Ok(_) => {
                    &&& final(self).names() == old(self).names().remove(old(self).position(name@))
                    &&& final(self).infos() == old(self).infos().remove(old(self).position(name@))
                },
                Err(e) => {
                    &&& final(self).names() == old(self).names()
                    &&& final(self).infos() == old(self).infos()
                    &&& if check_conflicts {
                        removal_error(*old(self), seq![name@], e@)
                    } else {
                        e@ == NbErrorView::PkgNotFound(name@)
                    }
                },
            },
    {
        if check_conflicts {
            let mut targets: Vec<&str> = Vec::new();
            targets.push(name);
            assert(selection_names(targets@) =~= seq![name@]);
            match self.check_remove(targets) {
                Ok(_) => {
                    assert(self.has(seq![name@][0]));
                },
                Err(e) => {
                    return Err(e);
                },
            }
        }
        match self.find(name) {
            Some(i) => {
                let ghost names_before = self.names();
                let ghost infos_before = self.infos();
                self.names.remove(i);
                self.infos.remove(i);
                proof {
                    assert(self.names() =~= names_before.remove(i as int));
                    assert(self.infos() =~= infos_before.remove(i as int));
                    assert forall|a: int, b: int|
                        0 <= a < self.names().len() && 0 <= b < self.names().len() && a
                            != b implies self.names()[a] != self.names()[b] by {
                        let a0 = if a < i { a } else { a + 1 };
                        let b0 = if b < i { b } else { b + 1 };
                        assert(names_before[a0] != names_before[b0]);
                    }
                    assert forall|a: int| 0 <= a < self.infos().len() implies (
                    #[trigger] self.infos()[a]).fits(self.spec_set()) by {
                        let a0 = if a < i { a } else { a + 1 };
                        assert(infos_before[a0].fits(self.spec_set()));
                    }
                }
                Ok(())
            },
            None => Err(NbError::PkgNotFound(String::from_str(name))),
        }
    }
}

/// The names and the records of a database after a record was put under a
/// name: in place of the record of that name, or else at the end.
pub open spec fn upsert(
    names: Seq<Seq<char>>,
    infos: Seq<PkgInfoView>,
    name: Seq<char>,
    info: PkgInfoView,
) -> (Seq<Seq<char>>, Seq<PkgInfoView>) {
    if names.contains(name) {
        (names, infos.update(names.index_of(name), info))
    } else {
        (names.push(name), infos.push(info))
    }
}

/// Putting a record under a name changes the record of that name and nothing
/// else: the database then has that name with the new record, and has every
/// other name exactly where it had it, with the record it had.
pub proof fn lemma_upsert(
    names: Seq<Seq<char>>,
    infos: Seq<PkgInfoView>,
    name: Seq<char>,
    info: PkgInfoView,
)
    requires
        names.no_duplicates(),
        names.len() == infos.len(),
    ensures
        upsert(names, infos, name, info).0.no_duplicates(),
        upsert(names, infos, name, info).0.len() == upsert(names, infos, name, info).1.len(),
        upsert(names, infos, name, info).0.contains(name),
        upsert(names, infos, name, info).1[upsert(names, infos, name, info).0.index_of(name)]
            == info,
        forall|other: Seq<char>|
            other != name ==> (upsert(names, infos, name, info).0.contains(other)
                <==> names.contains(other)),
        forall|other: Seq<char>|
            other != name && names.contains(other) ==> upsert(names, infos, name, info).1[upsert(
                names,
                infos,
                name,
                info,
            ).0.index_of(other)] == infos[names.index_of(other)],
{
    let (names2, infos2) = upsert(names, infos, name, info);
    if names.contains(name) {
        let at = names.index_of(name);
        assert(names2.contains(name));
        assert forall|other: Seq<char>| other != name && names.contains(other) implies infos2[names2.index_of(
            other,
        )] == infos[names.index_of(other)] by {
            let o = names.index_of(other);
            assert(names[o] == other);
        }
    } else {
        let last = names.len() as int;
        assert(names2[last] == name);
        assert forall|a: int, b: int|
            0 <= a < names2.len() && 0 <= b < names2.len() && a != b implies names2[a]
            != names2[b] by {
            if a < last && b < last {
                assert(names[a] != names[b]);
            } else if a < last {
                assert(names.contains(names[a]));
            } else {
                assert(names.contains(names[b]));
            }
        }
        assert(names2.contains(name));
        let at = names2.index_of(name);
        assert(names2[at] == name && names2[last] == name);
        assert(at == last);
        assert forall|other: Seq<char>| other != name implies (names2.contains(other)
            <==> names.contains(other)) by {
            if names.contains(other) {
                let o = names.index_of(other);
                assert(names2[o] == other);
            }
            if names2.contains(other) {
                let o = names2.index_of(other);
                assert(names2[o] == other);
                assert(o != last);
                assert(names[o] == other);
            }
        }
        assert forall|other: Seq<char>| other != name && names.contains(other) implies infos2[names2.index_of(
            other,
        )] == infos[names.index_of(other)] by {
            let o = names.index_of(other);
            assert(names[o] == other);
            assert(names2[o] == other);
            assert(names2.contains(other));
            let o2 = names2.index_of(other);
            assert(names2[o2] == other);
            assert(o2 == o);
        }
    }
}

/// Taking the record at position `at` out of a database takes out the name at
/// that position and nothing else: the database then has every other name,
/// with the record it had.
pub proof fn lemma_removed(names: Seq<Seq<char>>, infos: Seq<PkgInfoView>, at: int)
    requires
        names.no_duplicates(),
        names.len() == infos.len(),
        0 <= at < names.len(),
    ensures
        names.remove(at).no_duplicates(),
        !names.remove(at).contains(names[at]),
        forall|other: Seq<char>|
            other != names[at] ==> (names.remove(at).contains(other) <==> names.contains(other)),
        forall|other: Seq<char>|
            other != names[at] && names.contains(other) ==> infos.remove(at)[names.remove(
                at,
            ).index_of(other)] == infos[names.index_of(other)],
{
    let names2 = names.remove(at);
    let infos2 = infos.remove(at);
    assert forall|a: int, b: int|
        0 <= a < names2.len() && 0 <= b < names2.len() && a != b implies names2[a] != names2[b] by {
        let a0 = if a < at { a } else { a + 1 };
        let b0 = if b < at { b } else { b + 1 };
        assert(names[a0] != names[b0]);
    }
    if names2.contains(names[at]) {
        let o = names2.index_of(names[at]);
        let o0 = if o < at { o } else { o + 1 };
        assert(names[o0] == names[at]);
    }
    assert forall|other: Seq<char>| other != names[at] implies (names2.contains(other)
        <==> names.contains(other)) by {
        if names.contains(other) {
            let o = names.index_of(other);
            assert(names[o] == other);
            let o2 = if o < at { o } else { o - 1 };
            assert(names2[o2] == other);
        }
        if names2.contains(other) {
            let o = names2.index_of(other);
            assert(names2[o] == other);
            let o0 = if o < at { o } else { o + 1 };
            assert(names[o0] == other);
        }
    }
    assert forall|other: Seq<char>| other != names[at] && names.contains(other) implies infos2[names2.index_of(
        other,
    )] == infos[names.index_of(other)] by {
        let o = names.index_of(other);
        assert(names[o] == other);
        let o2 = if o < at { o } else { o - 1 };
        assert(names2[o2] == other);
        assert(names2.contains(other));
        let o3 = names2.index_of(other);
        assert(names2[o3] == other);
        assert(o3 == o2);
    }
}

/// As a map, a database into which a record was put is the database as it was
/// with that record under that name.
pub proof fn lemma_insert_as_map(before: PkgDb, after: PkgDb, name: Seq<char>, info: PkgInfoView)
    requires
        before.wf(),
        (after.names(), after.infos()) == upsert(before.names(), before.infos(), name, info),
    ensures
        after@ == before@.insert(name, info),
{
    lemma_upsert(before.names(), before.infos(), name, info);
    assert forall|n: Seq<char>| after@.dom().contains(n) <==> before@.insert(
        name,
        info,
    ).dom().contains(n) by {
        if n != name {
            assert(after.names().contains(n) <==> before.names().contains(n));
        }
    }
    assert forall|n: Seq<char>| after@.dom().contains(n) implies after@[n] == before@.insert(
        name,
        info,
    )[n] by {
        if n != name {
            assert(before.names().contains(n));
        }
    }
    assert(after@ =~= before@.insert(name, info));
}

/// As a map, a database out of which a package was taken is the database as it
/// was without the name of that package.
pub proof fn lemma_remove_as_map(before: PkgDb, after: PkgDb, name: Seq<char>)
    requires
        before.wf(),
        before.has(name),
        after.names() == before.names().remove(before.position(name)),
        after.infos() == before.infos().remove(before.position(name)),
    ensures
        after@ == before@.remove(name),
{
    before.lemma_has(name);
    lemma_removed(before.names(), before.infos(), before.position(name));
    assert forall|n: Seq<char>| after@.dom().contains(n) <==> before@.remove(name).dom().contains(
        n,
    ) by {
        if n != name {
            assert(after.names().contains(n) <==> before.names().contains(n));
        }
    }
    assert forall|n: Seq<char>| after@.dom().contains(n) implies after@[n] == before@.remove(
        name,
    )[n] by {
        assert(n != name);
        assert(before.names().contains(n));
    }
    assert(after@ =~= before@.remove(name));
}

/// The names and the records of a database after the first `k` of the given
/// records were put in, one after the other.
pub open spec fn upsert_all(
    names: Seq<Seq<char>>,
    infos: Seq<PkgInfoView>,
    records: Seq<NamedView>,
    k: nat,
) -> (Seq<Seq<char>>, Seq<PkgInfoView>)
    decreases k,
{
    if k == 0 {
        (names, infos)
    } else {
        let before = upsert_all(names, infos, records, (k - 1) as nat);
        upsert(before.0, before.1, records[k - 1].0, records[k - 1].1)
    }
}

/// Putting records in, one after the other, keeps the names different, and
/// leaves in the database every name that was there and every name that was
/// put in. The record under a name that was put in is the last one that was
/// put in under it, and the record under any other name is the one that was
/// there.
pub proof fn lemma_upsert_all(
    names: Seq<Seq<char>>,
    infos: Seq<PkgInfoView>,
    records: Seq<NamedView>,
    k: nat,
)
    requires
        names.no_duplicates(),
        names.len() == infos.len(),
        k <= records.len(),
    ensures
        upsert_all(names, infos, records, k).0.no_duplicates(),
        upsert_all(names, infos, records, k).0.len() == upsert_all(names, infos, records, k).1.len(),
        forall|n: Seq<char>| names.contains(n) ==> upsert_all(names, infos, records, k).0.contains(n),
        forall|i: int|
            0 <= i < k ==> upsert_all(names, infos, records, k).0.contains((#[trigger] records[i]).0),
        forall|i: int|
            0 <= i < k && (forall|j: int| i < j < k ==> (#[trigger] records[j]).0 != records[i].0)
                ==> upsert_all(names, infos, records, k).1[upsert_all(
                names,
                infos,
                records,
                k,
            ).0.index_of((#[trigger] records[i]).0)] == records[i].1,
        forall|n: Seq<char>|
            names.contains(n) && (forall|i: int| 0 <= i < k ==> (#[trigger] records[i]).0 != n)
                ==> upsert_all(names, infos, records, k).1[upsert_all(
                names,
                infos,
                records,
                k,
            ).0.index_of(n)] == infos[names.index_of(n)],
    decreases k,
{
    if k > 0 {
        let before = upsert_all(names, infos, records, (k - 1) as nat);
        let last = records[k - 1];
        lemma_upsert_all(names, infos, records, (k - 1) as nat);
        lemma_upsert(before.0, before.1, last.0, last.1);
        let after = upsert_all(names, infos, records, k);
        assert(after == upsert(before.0, before.1, last.0, last.1));
        assert forall|n: Seq<char>| names.contains(n) implies after.0.contains(n) by {
            assert(before.0.contains(n));
        }
        assert forall|i: int| 0 <= i < k implies after.0.contains((#[trigger] records[i]).0) by {
            if i < k - 1 {
                assert(before.0.contains(records[i].0));
            }
        }
        assert forall|i: int|
            0 <= i < k && (forall|j: int|
                i < j < k ==> (#[trigger] records[j]).0 != records[i].0) implies after.1[after.0.index_of(
            (#[trigger] records[i]).0,
        )] == records[i].1 by {
            if i < k - 1 {
                assert(records[k - 1].0 != records[i].0);
                assert(before.0.contains(records[i].0));
                assert forall|j: int| i < j < k - 1 implies (#[trigger] records[j]).0
                    != records[i].0 by {}
                assert(before.1[before.0.index_of(records[i].0)] == records[i].1);
            }
        }
        assert forall|n: Seq<char>|
            names.contains(n) && (forall|i: int|
                0 <= i < k ==> (#[trigger] records[i]).0 != n) implies after.1[after.0.index_of(n)]
            == infos[names.index_of(n)] by {
            assert(records[k - 1].0 != n);
            assert(before.0.contains(n));
            assert forall|i: int| 0 <= i < k - 1 implies (#[trigger] records[i]).0 != n by {}
            assert(before.1[before.0.index_of(n)] == infos[names.index_of(n)]);
        }
    }
}

/// The record at position `i` does not belong to the set, and it is the first
/// such record.
pub open spec fn first_misfit(records: Seq<NamedView>, set: PkgSet, i: int) -> bool {
    &&& 0 <= i < records.len()
    &&& !records[i].1.fits(set)
    &&& forall|j: int| 0 <= j < i ==> (#[trigger] records[j]).1.fits(set)
}

impl PkgDb {
    /// Puts every one of the records in, each under its name, as `insert`
    /// does, in order. Where one of them belongs to another set than the
    /// database, none is put in, and the error names the first such record.
    pub fn insert_all(&mut self, records: &Vec<Named>) -> (r: Result<(), NbError>)
        requires
            old(self).wf(),
        ensures
            final(self).wf(),
            final(self).spec_set() == old(self).spec_set(),
            match r {
                Ok(_) => {
                    &&& forall|i: int|
                        0 <= i < records.len() ==> (#[trigger] records[i]).1@.fits(
                            old(self).spec_set(),
                        )
                    &&& (final(self).names(), final(self).infos()) == upsert_all(
                        old(self).names(),
                        old(self).infos(),
                        named_view(records@),
                        records.len() as nat,
                    )
                },
                Err(e) => {
                    &&& final(self).names() == old(self).names()
                    &&& final(self).infos() == old(self).infos()
                    &&& exists|i: int| #[trigger]
                        first_misfit(
                            named_view(records@),
                            old(self).spec_set(),
                            i,
                        ) && e@ == NbErrorView::BrokenSetConsistency(
                            records[i].0@,
                            old(self).spec_set(),
                        )
                },
            },
    {
        let ghost all = named_view(records@);
        let mut i: usize = 0;
        while i < records.len()
            invariant
                i <= records.len(),
                all == named_view(records@),
                *self == *old(self),
                self.wf(),
                forall|j: int| 0 <= j < i ==> (#[trigger] all[j]).1.fits(self.spec_set()),
            decreases records.len() - i,
        {
            if !records[i].1.fits(self.set) {
                let e = NbError::BrokenSetConsistency(records[i].0.clone(), self.set);
                proof {
                    assert(all[i as int] == (records[i as int].0@, records[i as int].1@));
                    assert(first_misfit(all, self.spec_set(), i as int));
                }
                return Err(e);
            }
            assert(all[i as int].1.fits(self.spec_set()));
            i += 1;
        }
        let mut k: usize = 0;
        while k < records.len()
            invariant
                k <= records.len(),
                all == named_view(records@),
                self.wf(),
                self.spec_set() == old(self).spec_set(),
                forall|j: int| 0 <= j < records.len() ==> (#[trigger] all[j]).1.fits(self.spec_set()),
                (self.names(), self.infos()) == upsert_all(
                    old(self).names(),
                    old(self).infos(),
                    all,
                    k as nat,
                ),
            decreases records.len() - k,
        {
            assert(all[k as int] == (records[k as int].0@, records[k as int].1@));
            let _ = self.insert(records[k].0.as_str(), records[k].1.clone());
            k += 1;
        }
        proof {
            assert forall|i: int| 0 <= i < records.len() implies (#[trigger] records[i]).1@.fits(
                old(self).spec_set(),
            ) by {
                assert(all[i].1.fits(self.spec_set()));
            }
        }
        Ok(())
    }
}

impl PkgDb {
    /// The database of the given set that holds the given records, each put in
    /// under its name as `insert` puts it, in order: what loading a database
    /// file comes to, once the file is read. Fails where a record belongs to
    /// another set than the database: the error names the first such record.
    pub fn from_records(set: PkgSet, records: &Vec<Named>) -> (r: Result<PkgDb, NbError>)
        ensures
            match r {
                Ok(db) => {
                    &&& db.wf()
                    &&& db.spec_set() == set
                    &&& (db.names(), db.infos()) == upsert_all(
                        Seq::empty(),
                        Seq::empty(),
                        named_view(records@),
                        records.len() as nat,
                    )
                },
                Err(e) => exists|i: int| #[trigger]
                    first_misfit(named_view(records@), set, i) && e@
                        == NbErrorView::BrokenSetConsistency(records[i].0@, set),
            },
    {
        let mut db = PkgDb::with_set(set);
        assert(db.names() =~= Seq::empty());
        assert(db.infos() =~= Seq::empty());
        match db.insert_all(records) {
            Ok(_) => Ok(db),
            Err(e) => Err(e),
        }
    }
}

impl Default for PkgDb {
    fn default() -> (db: PkgDb)
        ensures
            db.wf(),
            db.spec_set() == DEFAULT_SET,
            db.names().len() == 0,
    {
        PkgDb::new()
    }
}

} // verus!
