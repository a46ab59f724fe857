//! A package record as a database file holds it: the version and each
//! dependency as one text. Writing a record and reading it again gives the
//! record back.

use vstd::prelude::*;
use vstd::string::StringExecFns;
use crate::errors::{NbError, NbErrorView};
use crate::pkgdb::{first_misfit, upsert_all, PkgDb};
use crate::set::PkgSet;
use crate::pkginfo::{
    dependencies_view, named_view, queries_view, set_info_view, texts, Named, NamedView, PkgInfo,
    PkgInfoView, SetInfo, SetInfoView,
};
use crate::query::{parse_pkg_str_info, parse_query, query_text, query_to_text, QueryView};
use crate::requirement::{ReqParseError, VersionReqView};
use crate::version::{parsed_version, version_text, Version};
use crate::wrappers::{DependencyWrap, VersionWrap};

verus! {

/// A record in the form of a database file.
#[derive(Debug)]
pub struct RecordText {
    /// The version, as text.
    pub version: String,
    /// The dependencies, each as the text of a package reference.
    pub depends: Option<Vec<String>>,
    /// The description.
    pub description: String,
    /// The part that depends on the set.
    pub set_info: Option<SetInfo>,
}

/// The mathematical value of a [`RecordText`].
pub struct RecordTextView {
    pub version: Seq<char>,
    pub depends: Option<Seq<Seq<char>>>,
    pub description: Seq<char>,
    pub set_info: Option<SetInfoView>,
}

impl View for RecordText {
    type V = RecordTextView;

    open spec fn view(&self) -> RecordTextView {
        RecordTextView {
            version: self.version@,
            depends: match self.depends {
                Some(list) => Some(texts(list@)),
                None => None,
            },
            description: self.description@,
            set_info: set_info_view(self.set_info),
        }
    }
}

/// Why a record does not read.
#[derive(Debug)]
pub enum RecordError {
    /// The version is no version: the message of the parser.
    Version(String),
    /// The dependency at this position is no package reference: the error of
    /// the parser.
    Dependency(usize, ReqParseError),
}

/// Every text of the list reads as a package reference.
pub open spec fn all_readable(list: Seq<Seq<char>>) -> bool {
    forall|i: int| 0 <= i < list.len() ==> parse_query(#[trigger] list[i]) is Ok
}

/// The text at position `i` is the first that does not read as a package
/// reference.
pub open spec fn is_first_unreadable(list: Seq<Seq<char>>, i: int) -> bool {
    &&& 0 <= i < list.len()
    &&& parse_query(list[i]) is Err
    &&& forall|j: int| 0 <= j < i ==> parse_query(#[trigger] list[j]) is Ok
}

/// What a text reads as, where it reads as a package reference.
pub open spec fn query_read(text: Seq<char>) -> QueryView {
    match parse_query(text) {
        Ok(q) => q,
        Err(_) => (text, VersionReqView::Any),
    }
}

/// What the texts of a list read as, in order.
pub open spec fn queries_read(list: Seq<Seq<char>>) -> Seq<QueryView> {
    list.map_values(|d: Seq<char>| query_read(d))
}

/// The record that the form of a file stands for: there is one where the
/// version reads as a version and every dependency as a package reference.
pub open spec fn record_read(t: RecordTextView) -> Option<PkgInfoView> {
    match parsed_version(t.version) {
        None => None,
        Some(version) => match t.depends {
            None => Some(
                PkgInfoView {
                    version,
                    depends: None,
                    description: t.description,
                    set_info: t.set_info,
                },
            ),
            Some(list) => if all_readable(list) {
                Some(
                    PkgInfoView {
                        version,
                        depends: Some(queries_read(list)),
                        description: t.description,
                        set_info: t.set_info,
                    },
                )
            } else {
                None
            },
        },
    }
}

/// The form of a file for a record: the text of the version, and the text of
/// each dependency.
pub open spec fn record_written(info: PkgInfoView) -> RecordTextView {
    RecordTextView {
        version: version_text(info.version),
        depends: match info.depends {
            Some(list) => Some(list.map_values(|q: QueryView| query_text(q))),
            None => None,
        },
        description: info.description,
        set_info: info.set_info,
    }
}

/// The record reads back from its written form as itself.
pub open spec fn reads_back(info: PkgInfoView) -> bool {
    record_read(record_written(info)) == Some(info)
}

impl PkgInfo {
    /// Reads a record from the form of a file. Fails where the version is no
    /// version, and else for the first dependency that is no package reference.
    pub fn from_text(t: RecordText) -> (r: Result<PkgInfo, RecordError>)
        ensures
            match r {
                Ok(info) => record_read(t@) == Some(info@),
                Err(RecordError::Version(_)) => parsed_version(t@.version) is None,
                Err(RecordError::Dependency(i, e)) => {
                    &&& parsed_version(t@.version) is Some
                    &&& t@.depends matches Some(list)
                    &&& is_first_unreadable(list, i as int)
                    &&& parse_query(list[i as int]) == Err::<QueryView, ReqParseError>(e)
                },
            },
            r is Ok <==> record_read(t@) is Some,
    {
        let ghost form = t@;
        let RecordText { version, depends, description, set_info } = t;
        let version = match Version::parse(version.as_str()) {
            Ok(v) => v,
            Err(message) => {
                return Err(RecordError::Version(message));
            },
        };
        let depends = match depends {
            None => None,
            Some(list) => {
                let ghost all = texts(list@);
                let mut read: Vec<DependencyWrap> = Vec::new();
                let mut i: usize = 0;
                while i < list.len()
                    invariant
                        i <= list.len(),
                        all == texts(list@),
                        form == t@,
                        form.depends == Some(all),
                        parsed_version(form.version) is Some,
                        read.len() == i,
                        forall|j: int| 0 <= j < i ==> parse_query(#[trigger] all[j]) is Ok,
                        forall|j: int| 0 <= j < i ==> (#[trigger] read[j])@ == query_read(all[j]),
                    decreases list.len() - i,
                {
                    assert(all[i as int] == list@[i as int]@);
                    match parse_pkg_str_info(list[i].as_str()) {
                        Ok(q) => {
                            read.push(DependencyWrap::from(q));
                        },
                        Err(e) => {
                            proof {
                                assert(is_first_unreadable(all, i as int));
                                assert(!all_readable(all));
                            }
                            return Err(RecordError::Dependency(i, e));
                        },
                    }
                    i += 1;
                }
                proof {
                    assert(all_readable(all));
                    assert(dependencies_view(read@) =~= queries_read(all));
                }
                Some(read)
            },
        };
        Ok(PkgInfo::from(VersionWrap::from(version), depends, description, set_info))
    }

    /// Writes a record in the form of a file. The form is handed out only
    /// where it reads back as this very record, so that nothing is written
    /// that would be read as something else.
    pub fn to_text(&self) -> (r: Option<RecordText>)
        ensures
            match r {
                Some(t) => t@ == record_written(self@) && record_read(t@) == Some(self@),
                None => !reads_back(self@),
            },
    {
        let version = self.version().to_text();
        match Version::parse(version.as_str()) {
            Ok(back) => {
                if !back.equals(self.version()) {
                    return None;
                }
            },
            Err(_) => {
                return None;
            },
        }
        let depends = match self.depends() {
            None => None,
            Some(list) => {
                let ghost all = queries_view(list@);
                let mut written: Vec<String> = Vec::new();
                let mut i: usize = 0;
                while i < list.len()
                    invariant
                        i <= list.len(),
                        all == queries_view(list@),
                        self@.depends == Some(all),
                        parsed_version(version_text(self@.version)) == Some(self@.version),
                        written.len() == i,
                        forall|j: int| 0 <= j < i ==> (#[trigger] written[j])@ == query_text(all[j]),
                        forall|j: int|
                            0 <= j < i ==> parse_query(query_text(#[trigger] all[j])) == Ok::<
                                QueryView,
                                ReqParseError,
                            >(all[j]),
                    decreases list.len() - i,
                {
                    assert(all[i as int] == (list@[i as int].0@, list@[i as int].1@));
                    let text = query_to_text(list[i].0.as_str(), &list[i].1);
                    let same = match parse_pkg_str_info(text.as_str()) {
                        Ok(back) => back.0 == list[i].0 && back.1.equals(&list[i].1),
                        Err(_) => false,
                    };
                    if !same {
                        proof {
                            let form = record_written(self@);
                            let texts_written = form.depends->0;
                            assert(texts_written[i as int] == query_text(all[i as int]));
                            if all_readable(texts_written) {
                                assert(parse_query(texts_written[i as int]) is Ok);
                                assert(queries_read(texts_written)[i as int] != all[i as int]);
                            }
                        }
                        return None;
                    }
                    written.push(text);
                    i += 1;
                }
                proof {
                    let form = record_written(self@);
                    assert(texts(written@) =~= form.depends->0);
                    assert(all_readable(texts(written@)));
                    assert(queries_read(texts(written@)) =~= all);
                }
                Some(written)
            },
        };
        let description = String::from_str(self.description());
        let set_info = match self.set_info() {
            Some(s) => Some(s.clone()),
            None => None,
        };
        Some(RecordText { version, depends, description, set_info })
    }
}

/// The names and the records of a database, each record under its name.
pub open spec fn named_of(names: Seq<Seq<char>>, infos: Seq<PkgInfoView>) -> Seq<NamedView> {
    Seq::new(names.len(), |i: int| (names[i], infos[i]))
}

/// A database that is made anew from its own records, each put in under its
/// name, in order, is the same database: it has the same names, each with the
/// same record.
pub proof fn lemma_rebuilt_is_same(names: Seq<Seq<char>>, infos: Seq<PkgInfoView>, k: nat)
    requires
        names.no_duplicates(),
        names.len() == infos.len(),
        k <= names.len(),
    ensures
        upsert_all(Seq::empty(), Seq::empty(), named_of(names, infos), k) == (
            names.take(k as int),
            infos.take(k as int),
        ),
    decreases k,
{
    if k > 0 {
        lemma_rebuilt_is_same(names, infos, (k - 1) as nat);
        let before = names.take(k - 1);
        if before.contains(names[k - 1]) {
            let i = choose|i: int| 0 <= i < before.len() && before[i] == names[k - 1];
            assert(names[i] == names[k - 1]);
        }
        assert(names.take(k as int) =~= before.push(names[k - 1]));
        assert(infos.take(k as int) =~= infos.take(k - 1).push(infos[k - 1]));
    } else {
        assert(names.take(0) =~= Seq::empty());
        assert(infos.take(0) =~= Seq::empty());
    }
}

/// A record in the form of a file, under the name of its package.
pub type NamedText = (String, RecordText);

/// The values of a list of named forms, in order.
pub open spec fn named_texts_view(list: Seq<NamedText>) -> Seq<(Seq<char>, RecordTextView)> {
    list.map_values(|r: NamedText| (r.0@, r.1@))
}

/// Every form of the list reads as a record.
pub open spec fn all_records_readable(list: Seq<(Seq<char>, RecordTextView)>) -> bool {
    forall|i: int| 0 <= i < list.len() ==> record_read((#[trigger] list[i]).1) is Some
}

/// The form at position `i` is the first that does not read as a record.
pub open spec fn is_first_unreadable_record(list: Seq<(Seq<char>, RecordTextView)>, i: int) -> bool {
    &&& 0 <= i < list.len()
    &&& record_read(list[i].1) is None
    &&& forall|j: int| 0 <= j < i ==> record_read((#[trigger] list[j]).1) is Some
}

/// What a named form reads as, where it reads as a record.
pub open spec fn named_read(r: (Seq<char>, RecordTextView)) -> NamedView {
    (
        r.0,
        match record_read(r.1) {
            Some(info) => info,
            None => PkgInfoView {
                version: arbitrary(),
                depends: None,
                description: r.1.description,
                set_info: r.1.set_info,
            },
        },
    )
}

/// What the forms of a list read as, in order.
pub open spec fn records_read(list: Seq<(Seq<char>, RecordTextView)>) -> Seq<NamedView> {
    list.map_values(|r: (Seq<char>, RecordTextView)| named_read(r))
}

/// Why a database does not load from the forms of its records.
#[derive(Debug)]
pub enum LoadError {
    /// A record does not read: the name of its package, and why.
    Unreadable(String, RecordError),
    /// A record belongs to another set than the database.
    Misplaced(NbError),
}

impl PkgDb {
    /// Writes the records of the database in the form of a file, each under
    /// its name, in the order of the database. The forms are handed out only
    /// where each reads back as the record it was written from.
    pub fn to_texts(&self) -> (r: Option<Vec<NamedText>>)
        requires
            self.wf(),
        ensures
            match r {
                Some(list) => {
                    &&& list.len() == self.names().len()
                    &&& forall|i: int|
                        0 <= i < list.len() ==> (#[trigger] list[i]).0@ == self.names()[i]
                            && list[i].1@ == record_written(self.infos()[i]) && record_read(
                            list[i].1@,
                        ) == Some(self.infos()[i])
                    &&& records_read(named_texts_view(list@)) == named_of(
                        self.names(),
                        self.infos(),
                    )
                },
                None => exists|i: int|
                    0 <= i < self.infos().len() && !reads_back(#[trigger] self.infos()[i]),
            },
    {
        let mut list: Vec<NamedText> = Vec::new();
        let mut i: usize = 0;
        while i < self.len()
            invariant
                self.wf(),
                i <= self.names().len(),
                list.len() == i,
                forall|j: int|
                    0 <= j < i ==> (#[trigger] list[j]).0@ == self.names()[j] && list[j].1@
                        == record_written(self.infos()[j]) && record_read(list[j].1@) == Some(
                        self.infos()[j],
                    ),
            decreases self.names().len() - i,
        {
            match self.info_at(i).to_text() {
                Some(t) => {
                    list.push((self.name_at(i).clone(), t));
                },
                None => {
                    assert(!reads_back(self.infos()[i as int]));
                    return None;
                },
            }
            i += 1;
        }
        proof {
            assert(records_read(named_texts_view(list@)) =~= named_of(self.names(), self.infos()));
        }
        Some(list)
    }

    /// Reads a database of the given set from the forms of its records, each
    /// put in under its name as `insert` puts it, in order. Fails for the
    /// first form that does not read as a record, and else where a record
    /// belongs to another set than the database.
    pub fn from_texts(set: PkgSet, list: Vec<NamedText>) -> (r: Result<PkgDb, LoadError>)
        ensures
            match r {
                Ok(db) => {
                    &&& db.wf()
                    &&& db.spec_set() == set
                    &&& all_records_readable(named_texts_view(list@))
                    &&& (db.names(), db.infos()) == upsert_all(
                        Seq::empty(),
                        Seq::empty(),
                        records_read(named_texts_view(list@)),
                        list.len() as nat,
                    )
                },
                Err(LoadError::Unreadable(name, _)) => exists|i: int| #[trigger]
                    is_first_unreadable_record(named_texts_view(list@), i) && name@ == list[i].0@,
                Err(LoadError::Misplaced(e)) => {
                    &&& all_records_readable(named_texts_view(list@))
                    &&& exists|i: int| #[trigger]
                        first_misfit(records_read(named_texts_view(list@)), set, i) && e@
                            == NbErrorView::BrokenSetConsistency(list[i].0@, set)
                },
            },
    {
        let ghost all = named_texts_view(list@);
        let ghost total = list.len();
        let mut rest = list;
        // The forms are taken from the end, so the list is turned first.
        let mut turned: Vec<NamedText> = Vec::new();
        while rest.len() > 0
            invariant
                rest.len() + turned.len() == total,
                total == all.len(),
                forall|i: int| 0 <= i < rest.len() ==> ((#[trigger] rest[i]).0@, rest[i].1@) == all[i],
                forall|i: int|
                    0 <= i < turned.len() ==> ((#[trigger] turned[i]).0@, turned[i].1@)
                        == all[total - 1 - i],
            decreases rest.len(),
        {
            let last = rest.pop().unwrap();
            turned.push(last);
        }
        let mut records: Vec<Named> = Vec::new();
        while turned.len() > 0
            invariant
                records.len() + turned.len() == total,
                total == all.len(),
                all == named_texts_view(list@),
                forall|i: int|
                    0 <= i < turned.len() ==> ((#[trigger] turned[i]).0@, turned[i].1@)
                        == all[total - 1 - i],
                forall|j: int| 0 <= j < records.len() ==> record_read((#[trigger] all[j]).1) is Some,
                forall|j: int|
                    0 <= j < records.len() ==> ((#[trigger] records[j]).0@, records[j].1@)
                        == named_read(all[j]),
            decreases turned.len(),
        {
            let ghost at = records.len() as int;
            let (name, text) = turned.pop().unwrap();
            assert((name@, text@) == all[at]);
            match PkgInfo::from_text(text) {
                Ok(info) => {
                    records.push((name, info));
                },
                Err(e) => {
                    proof {
                        assert(is_first_unreadable_record(all, at));
                        assert(all[at].0 == list[at].0@);
                    }
                    return Err(LoadError::Unreadable(name, e));
                },
            }
        }
        proof {
            assert(all_records_readable(all));
            assert(named_view(records@) =~= records_read(all));
        }
        match PkgDb::from_records(set, &records) {
            Ok(db) => Ok(db),
            Err(e) => Err(LoadError::Misplaced(e)),
        }
    }
}

/// A database that is written in the form of a file and read again is the
/// same database: it has the same names in the same order, each with the same
/// record. This holds of every database whose records read back from their
/// written form, which are those that `to_texts` writes.
pub proof fn lemma_database_round_trip(db: PkgDb)
    requires
        db.wf(),
    ensures
        (forall|i: int| 0 <= i < db.infos().len() ==> reads_back(#[trigger] db.infos()[i])) ==> ({
            let written = Seq::new(
                db.names().len(),
                |i: int| (db.names()[i], record_written(db.infos()[i])),
            );
            &&& all_records_readable(written)
            &&& upsert_all(Seq::empty(), Seq::empty(), records_read(written), written.len()) == (
                db.names(),
                db.infos(),
            )
        }),
{
    if forall|i: int| 0 <= i < db.infos().len() ==> reads_back(#[trigger] db.infos()[i]) {
        let written = Seq::new(
            db.names().len(),
            |i: int| (db.names()[i], record_written(db.infos()[i])),
        );
        assert forall|i: int| 0 <= i < written.len() implies record_read((#[trigger] written[i]).1)
            is Some by {
            assert(reads_back(db.infos()[i]));
        }
        assert forall|i: int| 0 <= i < written.len() implies records_read(written)[i] == (
            db.names()[i],
            db.infos()[i],
        ) by {
            assert(reads_back(db.infos()[i]));
        }
        assert(records_read(written) =~= named_of(db.names(), db.infos()));
        lemma_rebuilt_is_same(db.names(), db.infos(), db.names().len());
        assert(db.names().take(db.names().len() as int) =~= db.names());
        assert(db.infos().take(db.infos().len() as int) =~= db.infos());
    }
}

} // verus!
