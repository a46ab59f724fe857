//! The decisions of an installation run. The run says what has to be done
//! next; whoever drives it does that work and reports how it went.

use vstd::prelude::*;
use vstd::string::StringExecFns;
use crate::config::{slash, with_slash, Config};
use crate::errors::{NbError, NbErrorView, NbpmError, NbpmErrorView};
use crate::files::rollback_error;
use crate::install::{download_plan, downloads_view, Download, DownloadView};
use crate::pkgdb::{lemma_upsert_all, upsert_all, PkgDb};
use crate::pkginfo::{
    clone_texts, named_view, texts, Named, NamedView, PkgInfo, PkgInfoView, SetInfoView,
};
use crate::repo::REPO_PKG_INFO;
use crate::set::PkgSet;
use crate::subgraph::Subgraph;

verus! {

/// What an installation run waits for.
#[derive(Clone, Copy, Debug, PartialEq, Eq, Structural)]
pub enum Stage {
    /// The working directory is being made ready.
    Preparing,
    /// The archive of the current package is being downloaded.
    Fetching,
    /// The archive of the current package is being unpacked.
    Extracting,
    /// The record inside the unpacked package is being read.
    ReadingInfo,
    /// The files of the current package are being copied.
    Copying,
    /// What was unpacked is being cleared away.
    Cleaning,
    /// The files copied in this run are being removed again.
    RollingBack,
    /// The run is over.
    Done,
}

/// What the driver of a run reports.
#[derive(Debug)]
pub enum InstallEvent {
    /// The work asked for was done.
    Completed,
    /// The work asked for failed.
    Failed,
    /// The record file was read: the records it holds, each under its name.
    InfoRead(Vec<Named>),
    /// The files were copied: the files written.
    Copied(Vec<String>),
    /// Copying failed: the files written before it did.
    CopyFailed(Vec<String>),
    /// The removal was tried: the files that could not be removed.
    RolledBack(Vec<String>),
}

/// The mathematical value of an [`InstallEvent`].
pub enum EventView {
    Completed,
    Failed,
    InfoRead(Seq<NamedView>),
    Copied(Seq<Seq<char>>),
    CopyFailed(Seq<Seq<char>>),
    RolledBack(Seq<Seq<char>>),
}

impl View for InstallEvent {
    type V = EventView;

    open spec fn view(&self) -> EventView {
        match self {
            InstallEvent::Completed => EventView::Completed,
            InstallEvent::Failed => EventView::Failed,
            InstallEvent::InfoRead(records) => EventView::InfoRead(named_view(records@)),
            InstallEvent::Copied(files) => EventView::Copied(texts(files@)),
            InstallEvent::CopyFailed(files) => EventView::CopyFailed(texts(files@)),
            InstallEvent::RolledBack(files) => EventView::RolledBack(texts(files@)),
        }
    }
}

/// What a run asks its driver to do.
#[derive(Debug)]
pub enum InstallAction {
    /// Make the working directory and, inside it, the directory for unpacking,
    /// both empty.
    PrepareWorkDir { work_dir: String, scratch: String },
    /// Download the archive at `url` to the file `dest`.
    Fetch { url: String, dest: String },
    /// Unpack the archive into the directory `dest`.
    Extract { archive: String, dest: String },
    /// Read the records of the file `path`.
    ReadInfo { path: String },
    /// Copy the files under `from`, but for the record file, to the same places
    /// under `to`.
    CopyFiles { from: String, to: String },
    /// Empty the directory for unpacking.
    CleanScratch { scratch: String },
    /// Remove these files.
    Rollback { files: Vec<String> },
    /// Nothing is left to do: the run ended thus.
    Finish(Result<(), NbpmError>),
}

/// The mathematical value of an [`InstallAction`].
pub enum ActionView {
    PrepareWorkDir { work_dir: Seq<char>, scratch: Seq<char> },
    Fetch { url: Seq<char>, dest: Seq<char> },
    Extract { archive: Seq<char>, dest: Seq<char> },
    ReadInfo { path: Seq<char> },
    CopyFiles { from: Seq<char>, to: Seq<char> },
    CleanScratch { scratch: Seq<char> },
    Rollback { files: Seq<Seq<char>> },
    Finish(Result<(), NbpmErrorView>),
}

impl View for InstallAction {
    type V = ActionView;

    open spec fn view(&self) -> ActionView {
        match self {
            InstallAction::PrepareWorkDir { work_dir, scratch } => ActionView::PrepareWorkDir {
                work_dir: work_dir@,
                scratch: scratch@,
            },
            InstallAction::Fetch { url, dest } => ActionView::Fetch { url: url@, dest: dest@ },
            InstallAction::Extract { archive, dest } => ActionView::Extract {
                archive: archive@,
                dest: dest@,
            },
            InstallAction::ReadInfo { path } => ActionView::ReadInfo { path: path@ },
            InstallAction::CopyFiles { from, to } => ActionView::CopyFiles { from: from@, to: to@ },
            InstallAction::CleanScratch { scratch } => ActionView::CleanScratch {
                scratch: scratch@,
            },
            InstallAction::Rollback { files } => ActionView::Rollback { files: texts(files@) },
            InstallAction::Finish(Ok(_)) => ActionView::Finish(Ok(())),
            InstallAction::Finish(Err(e)) => ActionView::Finish(Err(e@)),
        }
    }
}

/// An installation run: the packages to install, how far the run has come, and
/// what it has done.
#[derive(Debug)]
pub struct InstallRun {
    targets: Vec<Download>,
    metas: Vec<Named>,
    root: String,
    scratch: String,
    work_dir: String,
    stage: Stage,
    next: usize,
    current: Option<PkgInfo>,
    staged: Vec<Named>,
    copied: Vec<String>,
    unremoved: Vec<String>,
    succeeded: bool,
}

/// The mathematical value of an [`InstallRun`].
pub struct RunView {
    /// The packages with an archive, in the order in which they are installed.
    pub targets: Seq<DownloadView>,
    /// The packages without files of their own.
    pub metas: Seq<NamedView>,
    /// The directory under which files are installed.
    pub root: Seq<char>,
    /// The directory in which one package at a time is unpacked.
    pub scratch: Seq<char>,
    /// The directory into which archives are downloaded.
    pub work_dir: Seq<char>,
    /// What the run waits for.
    pub stage: Stage,
    /// The position of the current package among the targets.
    pub next: nat,
    /// The record of the current package, once it is read.
    pub current: Option<PkgInfoView>,
    /// The records of the packages whose files are copied.
    pub staged: Seq<NamedView>,
    /// The files copied in this run.
    pub copied: Seq<Seq<char>>,
    /// After a removal, the files that could not be removed.
    pub unremoved: Seq<Seq<char>>,
    /// Every package was installed.
    pub succeeded: bool,
}

/// The value of a record that may be absent.
pub open spec fn record_view(r: Option<PkgInfo>) -> Option<PkgInfoView> {
    match r {
        Some(i) => Some(i@),
        None => None,
    }
}

impl View for InstallRun {
    type V = RunView;

    closed spec fn view(&self) -> RunView {
        RunView {
            targets: downloads_view(self.targets@),
            metas: named_view(self.metas@),
            root: self.root@,
            scratch: self.scratch@,
            work_dir: self.work_dir@,
            stage: self.stage,
            next: self.next as nat,
            current: record_view(self.current),
            staged: named_view(self.staged@),
            copied: texts(self.copied@),
            unremoved: texts(self.unremoved@),
            succeeded: self.succeeded,
        }
    }
}

/// The record at position `i` is the first of that name.
pub open spec fn named_at(records: Seq<NamedView>, name: Seq<char>, i: int) -> bool {
    &&& 0 <= i < records.len()
    &&& records[i].0 == name
    &&& forall|j: int| 0 <= j < i ==> (#[trigger] records[j]).0 != name
}

/// The first record of that name, if there is one.
pub open spec fn lookup(records: Seq<NamedView>, name: Seq<char>) -> Option<PkgInfoView> {
    if exists|i: int| named_at(records, name, i) {
        Some(records[choose|i: int| named_at(records, name, i)].1)
    } else {
        None
    }
}

/// The record to install for a package, from the records that its archive
/// holds: the record of its name, with the paths it owns put under the root. No
/// record of that name, or one of a package that a repository offers, cannot be
/// installed.
pub open spec fn installable(records: Seq<NamedView>, name: Seq<char>, root: Seq<char>) -> Option<
    PkgInfoView,
> {
    match lookup(records, name) {
        Some(info) => match info.set_info {
            Some(SetInfoView::Universe(_)) => None,
            _ => Some(info.prefixed(root)),
        },
        None => None,
    }
}

impl RunView {
    /// The invariant of a run.
    pub open spec fn wf(self) -> bool {
        &&& self.next <= self.targets.len()
        &&& (self.stage == Stage::Fetching || self.stage == Stage::Extracting || self.stage
            == Stage::ReadingInfo || self.stage == Stage::Copying || self.stage == Stage::Cleaning)
            ==> self.next < self.targets.len()
        &&& self.stage == Stage::Copying ==> self.current is Some
        &&& self.succeeded ==> self.stage == Stage::Done && self.next == self.targets.len()
    }

    /// How the run ended, once it is over.
    pub open spec fn outcome(self) -> Result<(), NbpmErrorView> {
        if self.succeeded {
            Ok(())
        } else if self.unremoved.len() == 0 {
            Err(NbpmErrorView::CleanUnSuccessfulInstallation)
        } else {
            Err(NbpmErrorView::DirtyUnSuccessfulInstallation(self.unremoved))
        }
    }

    /// The run gives up: what it copied has to be removed.
    pub open spec fn roll_back(self) -> (RunView, ActionView) {
        (
            RunView { stage: Stage::RollingBack, current: None, ..self },
            ActionView::Rollback { files: self.copied },
        )
    }

    /// The run turns to the package at position `next`, or ends well where
    /// there is none.
    pub open spec fn fetch_next(self) -> (RunView, ActionView) {
        if self.next < self.targets.len() {
            (
                RunView { stage: Stage::Fetching, ..self },
                ActionView::Fetch {
                    url: self.targets[self.next as int].url,
                    dest: self.targets[self.next as int].path,
                },
            )
        } else {
            (RunView { stage: Stage::Done, succeeded: true, ..self }, ActionView::Finish(Ok(())))
        }
    }

    /// The run after an event, and what it asks for next.
    ///
    /// A package goes through download, unpacking, the reading of its record,
    /// the copying of its files and the clearing of what was unpacked, in this
    /// order, and the next package is turned to only after that. Whatever fails
    /// ends the work on packages: the run asks for the removal of every file
    /// that it copied, and ends with an error that tells whether all of them
    /// could be removed.
    pub open spec fn advance(self, e: EventView) -> (RunView, ActionView) {
        match self.stage {
            Stage::Preparing => if e is Completed {
                self.fetch_next()
            } else {
                self.roll_back()
            },
            Stage::Fetching => if e is Completed {
                (
                    RunView { stage: Stage::Extracting, ..self },
                    ActionView::Extract {
                        archive: self.targets[self.next as int].path,
                        dest: self.scratch,
                    },
                )
            } else {
                self.roll_back()
            },
            Stage::Extracting => if e is Completed {
                (
                    RunView { stage: Stage::ReadingInfo, ..self },
                    ActionView::ReadInfo { path: slash(self.scratch, REPO_PKG_INFO@) },
                )
            } else {
                self.roll_back()
            },
            Stage::ReadingInfo => match e {
                EventView::InfoRead(records) => match installable(
                    records,
                    self.targets[self.next as int].name,
                    self.root,
                ) {
                    Some(info) => (
                        RunView { stage: Stage::Copying, current: Some(info), ..self },
                        ActionView::CopyFiles { from: self.scratch, to: self.root },
                    ),
                    None => self.roll_back(),
                },
                _ => self.roll_back(),
            },
            Stage::Copying => match e {
                EventView::Copied(files) => (
                    RunView {
                        stage: Stage::Cleaning,
                        current: None,
                        copied: self.copied + files,
                        staged: self.staged.push(
                            (self.targets[self.next as int].name, self.current->0),
                        ),
                        ..self
                    },
                    ActionView::CleanScratch { scratch: self.scratch },
                ),
                EventView::CopyFailed(files) => (RunView {
                    copied: self.copied + files,
                    ..self
                }).roll_back(),
                _ => self.roll_back(),
            },
            Stage::Cleaning => if e is Completed {
                (RunView { next: self.next + 1, ..self }).fetch_next()
            } else {
                self.roll_back()
            },
            Stage::RollingBack => match e {
                EventView::RolledBack(failed) => {
                    let ended = RunView { stage: Stage::Done, unremoved: failed, ..self };
                    (ended, ActionView::Finish(ended.outcome()))
                },
                _ => (self, ActionView::Rollback { files: self.copied }),
            },
            Stage::Done => (self, ActionView::Finish(self.outcome())),
        }
    }

    /// The records that a run that ended well leaves to be entered in the local
    /// database: those of the packages whose files were copied, then those of
    /// the packages without files. A run that did not end well leaves none.
    pub open spec fn records(self) -> Seq<NamedView> {
        if self.succeeded {
            self.staged + self.metas
        } else {
            Seq::empty()
        }
    }
}

impl<'a> Subgraph<'a> {
    /// The records of the packages without files of their own among the first
    /// `k` packages, each under its name, in order.
    pub open spec fn metas(&self, k: nat) -> Seq<NamedView>
        decreases k,
    {
        if k == 0 {
            Seq::empty()
        } else {
            let before = self.metas((k - 1) as nat);
            if self.info(k - 1).is_meta() {
                before.push((self.name(k - 1), self.info(k - 1)))
            } else {
                before
            }
        }
    }
}

/// Copies the records of the packages without files of their own.
fn collect_metas(graph: &Subgraph) -> (metas: Vec<Named>)
    requires
        graph.wf(),
    ensures
        named_view(metas@) == graph.metas(graph.count()),
{
    let mut metas: Vec<Named> = Vec::new();
    let mut k: usize = 0;
    while k < graph.len()
        invariant
            graph.wf(),
            k <= graph.count(),
            named_view(metas@) == graph.metas(k as nat),
        decreases graph.count() - k,
    {
        let info = graph.info_at(k);
        if info.is_meta() {
            let ghost before = named_view(metas@);
            let entry = (graph.name_at(k).clone(), info.clone());
            metas.push(entry);
            proof {
                assert(named_view(metas@) =~= before.push((graph.name(k as int), graph.info(k as int))));
            }
        }
        k += 1;
    }
    metas
}

/// Finds the first record of a name.
fn find_named(records: &Vec<Named>, name: &String) -> (r: Option<usize>)
    ensures
        match r {
            Some(i) => named_at(named_view(records@), name@, i as int) && lookup(
                named_view(records@),
                name@,
            ) == Some(records@[i as int].1@),
            None => lookup(named_view(records@), name@) is None,
        },
{
    let ghost all = named_view(records@);
    let mut i: usize = 0;
    while i < records.len()
        invariant
            i <= records.len(),
            all == named_view(records@),
            forall|j: int| 0 <= j < i ==> (#[trigger] all[j]).0 != name@,
        decreases records.len() - i,
    {
        if records[i].0 == *name {
            proof {
                assert(named_at(all, name@, i as int));
                let c = choose|c: int| named_at(all, name@, c);
                if c < i {
                    assert(all[c].0 != name@);
                } else if i < c {
                    assert(all[i as int].0 == name@);
                }
            }
            return Some(i);
        }
        assert(all[i as int].0 != name@);
        i += 1;
    }
    proof {
        if exists|c: int| named_at(all, name@, c) {
            let c = choose|c: int| named_at(all, name@, c);
            assert(all[c].0 != name@);
        }
    }
    None
}

impl InstallRun {
    /// The run as it starts for the packages of `graph`: nothing is done yet.
    pub open spec fn initial(graph: Subgraph, config: crate::config::ConfigView) -> RunView {
        let targets = graph.downloads(graph.count(), config.repo_url, config.work_dir);
        RunView {
            targets,
            metas: graph.metas(graph.count()),
            root: config.root,
            scratch: config.work_curr,
            work_dir: config.work_dir,
            stage: if targets.len() == 0 {
                Stage::Done
            } else {
                Stage::Preparing
            },
            next: 0,
            current: None,
            staged: Seq::empty(),
            copied: Seq::empty(),
            unremoved: Seq::empty(),
            succeeded: targets.len() == 0,
        }
    }

    /// What a run asks for first: to make the working directory ready, or,
    /// where no package has an archive, nothing.
    pub open spec fn first_action(run: RunView) -> ActionView {
        if run.targets.len() == 0 {
            ActionView::Finish(Ok(()))
        } else {
            ActionView::PrepareWorkDir { work_dir: run.work_dir, scratch: run.scratch }
        }
    }

    /// Starts a run that installs the packages of `graph`, and says what to do
    /// first. Fails, as `download_plan` does, where a package of the graph is
    /// an installed one.
    pub fn start(graph: &Subgraph, config: &Config) -> (r: Result<(InstallRun, InstallAction), NbError>)
        requires
            graph.wf(),
        ensures
            match r {
                Ok((run, action)) => {
                    &&& run@ == InstallRun::initial(*graph, config@)
                    &&& run@.wf()
                    &&& action@ == InstallRun::first_action(run@)
                    &&& forall|k: int| !graph.first_local(k)
                },
                Err(e) => exists|k: int| #[trigger]
                    graph.first_local(k) && e@ == NbErrorView::BrokenSetConsistency(
                        graph.name(k),
                        PkgSet::Universe,
                    ),
            },
    {
        let targets = match download_plan(graph, config) {
            Ok(t) => t,
            Err(e) => {
                return Err(e);
            },
        };
        let metas = collect_metas(graph);
        let none = targets.len() == 0;
        let run = InstallRun {
            targets,
            metas,
            root: String::from_str(config.root()),
            scratch: String::from_str(config.work_curr()),
            work_dir: String::from_str(config.work_dir()),
            stage: if none {
                Stage::Done
            } else {
                Stage::Preparing
            },
            next: 0,
            current: None,
            staged: Vec::new(),
            copied: Vec::new(),
            unremoved: Vec::new(),
            succeeded: none,
        };
        proof {
            assert(run@.staged =~= Seq::empty());
            assert(run@.copied =~= Seq::empty());
            assert(run@.unremoved =~= Seq::empty());
        }
        let action = if none {
            InstallAction::Finish(Ok(()))
        } else {
            InstallAction::PrepareWorkDir {
                work_dir: run.work_dir.clone(),
                scratch: run.scratch.clone(),
            }
        };
        Ok((run, action))
    }

    /// What the run waits for.
    pub fn stage(&self) -> (stage: Stage)
        ensures
            stage == self@.stage,
    {
        self.stage
    }

    /// Tells whether the run ended with every package installed.
    pub fn succeeded(&self) -> (b: bool)
        ensures
            b == self@.succeeded,
    {
        self.succeeded
    }

    /// How the run ended.
    fn outcome(&self) -> (r: Result<(), NbpmError>)
        ensures
            match r {
                Ok(_) => self@.outcome() == Ok::<(), NbpmErrorView>(()),
                Err(e) => self@.outcome() == Err::<(), NbpmErrorView>(e@),
            },
    {
        if self.succeeded {
            Ok(())
        } else {
            assert(self@.unremoved.len() == self.unremoved.len());
            Err(rollback_error(clone_texts(&self.unremoved)))
        }
    }

    /// Gives up the work on packages.
    fn roll_back(&mut self) -> (action: InstallAction)
        ensures
            (final(self)@, action@) == old(self)@.roll_back(),
    {
        self.stage = Stage::RollingBack;
        self.current = None;
        InstallAction::Rollback { files: clone_texts(&self.copied) }
    }

    /// Turns to the package at position `next`.
    fn fetch_next(&mut self) -> (action: InstallAction)
        requires
            old(self)@.next <= old(self)@.targets.len(),
        ensures
            (final(self)@, action@) == old(self)@.fetch_next(),
    {
        if self.next < self.targets.len() {
            self.stage = Stage::Fetching;
            let target = &self.targets[self.next];
            assert(self@.targets[self.next as int] == target@);
            InstallAction::Fetch { url: target.url.clone(), dest: target.path.clone() }
        } else {
            self.stage = Stage::Done;
            self.succeeded = true;
            InstallAction::Finish(Ok(()))
        }
    }

    /// Takes note of the files that were copied.
    fn note_copied(&mut self, files: Vec<String>)
        ensures
            final(self)@ == (RunView { copied: old(self)@.copied + texts(files@), ..old(self)@ }),
    {
        let mut files = files;
        let ghost before = self.copied@;
        let ghost added = files@;
        self.copied.append(&mut files);
        proof {
            assert(texts(before + added) =~= texts(before) + texts(added));
        }
    }

    /// Takes the report of the driver, and says what to do next.
    pub fn step(&mut self, event: InstallEvent) -> (action: InstallAction)
        requires
            old(self)@.wf(),
        ensures
            (final(self)@, action@) == old(self)@.advance(event@),
            final(self)@.wf(),
    {
        match self.stage {
            Stage::Preparing => match event {
                InstallEvent::Completed => self.fetch_next(),
                _ => self.roll_back(),
            },
            Stage::Fetching => match event {
                InstallEvent::Completed => {
                    self.stage = Stage::Extracting;
                    let target = &self.targets[self.next];
                    assert(self@.targets[self.next as int] == target@);
                    InstallAction::Extract {
                        archive: target.path.clone(),
                        dest: self.scratch.clone(),
                    }
                },
                _ => self.roll_back(),
            },
            Stage::Extracting => match event {
                InstallEvent::Completed => {
                    self.stage = Stage::ReadingInfo;
                    InstallAction::ReadInfo {
                        path: with_slash(self.scratch.as_str(), REPO_PKG_INFO),
                    }
                },
                _ => self.roll_back(),
            },
            Stage::ReadingInfo => match event {
                InstallEvent::InfoRead(records) => {
                    let mut records = records;
                    let ghost all = named_view(records@);
                    let target = &self.targets[self.next];
                    assert(self@.targets[self.next as int] == target@);
                    match find_named(&records, &target.name) {
                        Some(i) => {
                            let found = records.remove(i);
                            assert(found.1@ == all[i as int].1);
                            if found.1.fits(PkgSet::Local) {
                                let info = found.1.with_path_prefix(self.root.as_str());
                                self.current = Some(info);
                                self.stage = Stage::Copying;
                                InstallAction::CopyFiles {
                                    from: self.scratch.clone(),
                                    to: self.root.clone(),
                                }
                            } else {
                                self.roll_back()
                            }
                        },
                        None => self.roll_back(),
                    }
                },
                _ => self.roll_back(),
            },
            Stage::Copying => match event {
                InstallEvent::Copied(files) => {
                    self.note_copied(files);
                    let ghost before = named_view(self.staged@);
                    let info = self.current.take().unwrap();
                    let name = self.targets[self.next].name.clone();
                    assert(self@.targets[self.next as int].name == name@);
                    self.staged.push((name, info));
                    proof {
                        assert(named_view(self.staged@) =~= before.push((name@, info@)));
                    }
                    self.stage = Stage::Cleaning;
                    InstallAction::CleanScratch { scratch: self.scratch.clone() }
                },
                InstallEvent::CopyFailed(files) => {
                    self.note_copied(files);
                    self.roll_back()
                },
                _ => self.roll_back(),
            },
            Stage::Cleaning => match event {
                InstallEvent::Completed => {
                    assert(self@.next < self@.targets.len());
                    assert(self.next < self.targets.len());
                    self.next = self.next + 1;
                    self.fetch_next()
                },
                _ => self.roll_back(),
            },
            Stage::RollingBack => match event {
                InstallEvent::RolledBack(failed) => {
                    self.stage = Stage::Done;
                    self.unremoved = failed;
                    InstallAction::Finish(self.outcome())
                },
                _ => InstallAction::Rollback { files: clone_texts(&self.copied) },
            },
            Stage::Done => InstallAction::Finish(self.outcome()),
        }
    }

    /// Ends the run and hands out the records to enter in the local database.
    pub fn into_records(self) -> (records: Vec<Named>)
        ensures
            named_view(records@) == self@.records(),
    {
        if self.succeeded {
            let mut records = self.staged;
            let mut metas = self.metas;
            let ghost a = records@;
            let ghost b = metas@;
            records.append(&mut metas);
            proof {
                assert(named_view(a + b) =~= named_view(a) + named_view(b));
            }
            records
        } else {
            let records: Vec<Named> = Vec::new();
            assert(named_view(records@) =~= Seq::empty());
            records
        }
    }
}

impl RunView {
    /// The run works on packages: it has neither given up nor ended.
    pub open spec fn working(self) -> bool {
        self.stage != Stage::RollingBack && self.stage != Stage::Done
    }

    /// The run after a sequence of events, each taken as `advance` takes it.
    pub open spec fn after(self, events: Seq<EventView>) -> RunView
        decreases events.len(),
    {
        if events.len() == 0 {
            self
        } else {
            self.after(events.drop_last()).advance(events.last()).0
        }
    }

    /// What the run asks for after a sequence of at least one event.
    pub open spec fn asks_after(self, events: Seq<EventView>) -> ActionView
        recommends
            events.len() > 0,
    {
        self.after(events.drop_last()).advance(events.last()).1
    }
}

/// The invariant of a run holds after every event.
pub proof fn lemma_advance_wf(s: RunView, e: EventView)
    requires
        s.wf(),
    ensures
        s.advance(e).0.wf(),
{
}

/// Whatever makes a working run give up, the run then asks for the removal of
/// every file that was copied in it, the files of the package at hand
/// included, and of nothing else. It keeps the records it had, and has not
/// succeeded.
pub proof fn lemma_failure_asks_removal(s: RunView, e: EventView)
    requires
        s.wf(),
        s.working(),
        s.advance(e).0.stage == Stage::RollingBack,
    ensures
        s.advance(e).1 == (ActionView::Rollback { files: s.advance(e).0.copied }),
        s.advance(e).0.copied == match e {
            EventView::CopyFailed(files) if s.stage == Stage::Copying => s.copied + files,
            _ => s.copied,
        },
        s.advance(e).0.staged == s.staged,
        s.advance(e).0.next == s.next,
        !s.advance(e).0.succeeded,
{
}

/// A run that has given up or ended does no more work on packages, whatever is
/// reported to it: it asks only for the removal or says how it ended, and it
/// turns to no other package, copies nothing and keeps its records.
pub proof fn lemma_no_work_after_failure(s: RunView, e: EventView)
    requires
        !s.working(),
    ensures
        !s.advance(e).0.working(),
        s.advance(e).1 is Rollback || s.advance(e).1 is Finish,
        s.advance(e).0.next == s.next,
        s.advance(e).0.copied == s.copied,
        s.advance(e).0.staged == s.staged,
        s.advance(e).0.succeeded == s.succeeded,
{
}

/// The same of any number of events: once a run has given up or ended, no
/// package that it had not turned to is ever downloaded.
pub proof fn lemma_failure_is_final(s: RunView, events: Seq<EventView>)
    requires
        !s.working(),
    ensures
        !s.after(events).working(),
        s.after(events).next == s.next,
        s.after(events).copied == s.copied,
        s.after(events).staged == s.staged,
        s.after(events).succeeded == s.succeeded,
        events.len() > 0 ==> s.asks_after(events) is Rollback || s.asks_after(events) is Finish,
    decreases events.len(),
{
    if events.len() > 0 {
        lemma_failure_is_final(s, events.drop_last());
        lemma_no_work_after_failure(s.after(events.drop_last()), events.last());
    }
}

/// After the removal the run ends with an error: a clean one where every file
/// was removed, else one that lists the files that were not.
pub proof fn lemma_removal_ends_run(s: RunView, unremoved: Seq<Seq<char>>)
    requires
        s.wf(),
        s.stage == Stage::RollingBack,
    ensures
        s.advance(EventView::RolledBack(unremoved)).0.stage == Stage::Done,
        s.advance(EventView::RolledBack(unremoved)).0.records().len() == 0,
        s.advance(EventView::RolledBack(unremoved)).1 == ActionView::Finish(
            if unremoved.len() == 0 {
                Err(NbpmErrorView::CleanUnSuccessfulInstallation)
            } else {
                Err(NbpmErrorView::DirtyUnSuccessfulInstallation(unremoved))
            },
        ),
{
}

/// A run succeeds only when it has turned to every package.
pub proof fn lemma_success_is_complete(s: RunView, e: EventView)
    requires
        s.wf(),
        s.advance(e).0.succeeded,
    ensures
        s.advance(e).0.next == s.targets.len(),
        s.advance(e).0.stage == Stage::Done,
{
}

/// The packages without files of their own among the first `k` of a graph in
/// which no package has files are those `k` packages.
proof fn lemma_all_metas(graph: Subgraph, k: nat, repo_url: Seq<char>, work_dir: Seq<char>)
    requires
        k <= graph.count(),
        forall|i: int| 0 <= i < graph.count() ==> (#[trigger] graph.info(i)).is_meta(),
    ensures
        graph.downloads(k, repo_url, work_dir).len() == 0,
        graph.metas(k).len() == k,
        forall|i: int| 0 <= i < k ==> #[trigger] graph.metas(k)[i] == (graph.name(i), graph.info(i)),
    decreases k,
{
    if k > 0 {
        lemma_all_metas(graph, (k - 1) as nat, repo_url, work_dir);
        assert(graph.info(k - 1).is_meta());
    }
}

/// Packages without files of their own are installed without any work on
/// files: a run for a graph of such packages has ended well as it starts, asks
/// for nothing, and leaves the record of every package of the graph to be
/// entered in the local database.
pub proof fn lemma_meta_packages_need_no_work(graph: Subgraph, config: crate::config::ConfigView)
    requires
        forall|i: int| 0 <= i < graph.count() ==> (#[trigger] graph.info(i)).is_meta(),
    ensures
        InstallRun::initial(graph, config).stage == Stage::Done,
        InstallRun::initial(graph, config).succeeded,
        InstallRun::initial(graph, config).copied.len() == 0,
        InstallRun::first_action(InstallRun::initial(graph, config)) == ActionView::Finish(Ok(())),
        InstallRun::initial(graph, config).records().len() == graph.count(),
        forall|i: int|
            0 <= i < graph.count() ==> #[trigger] InstallRun::initial(graph, config).records()[i]
                == (graph.name(i), graph.info(i)),
{
    lemma_all_metas(graph, graph.count(), config.repo_url, config.work_dir);
    let run = InstallRun::initial(graph, config);
    assert(run.records() =~= graph.metas(graph.count()));
}

impl RunView {
    /// What every run keeps of the run it started as: its packages, and that
    /// each record it holds for the database is that of one of its packages
    /// with an archive.
    pub open spec fn continues(self, start: RunView) -> bool {
        &&& self.wf()
        &&& self.targets == start.targets
        &&& self.metas == start.metas
        &&& forall|i: int| 0 <= i < self.staged.len() ==> #[trigger] self.staged_is_target(i)
    }

    /// The record at position `i` of those held for the database is under the
    /// name of one of the packages with an archive.
    pub open spec fn staged_is_target(self, i: int) -> bool {
        exists|t: int| 0 <= t < self.targets.len() && (#[trigger] self.targets[t]).name == self.staged[i].0
    }
}

/// An event leaves a run a continuation of what it started as.
pub proof fn lemma_step_continues(start: RunView, s: RunView, e: EventView)
    requires
        s.continues(start),
    ensures
        s.advance(e).0.continues(start),
{
    let next = s.advance(e).0;
    assert(next.wf());
    assert(next.targets == s.targets);
    assert(next.metas == s.metas);
    assert forall|i: int| 0 <= i < next.staged.len() implies #[trigger] next.staged_is_target(i) by {
        if i < s.staged.len() {
            assert(s.staged_is_target(i));
            assert(next.staged[i] == s.staged[i]);
            let t = choose|t: int|
                0 <= t < s.targets.len() && (#[trigger] s.targets[t]).name == s.staged[i].0;
            assert(next.targets[t].name == next.staged[i].0);
        } else {
            assert(next.targets[s.next as int].name == next.staged[i].0);
        }
    }
}

/// So do any number of events.
pub proof fn lemma_after_continues(start: RunView, events: Seq<EventView>)
    requires
        start.wf(),
        start.staged.len() == 0,
    ensures
        start.after(events).continues(start),
    decreases events.len(),
{
    if events.len() > 0 {
        lemma_after_continues(start, events.drop_last());
        lemma_step_continues(start, start.after(events.drop_last()), events.last());
    }
}

/// Each download for the first `k` packages of a graph is for one of them.
pub proof fn lemma_downloads_are_packages(
    graph: Subgraph,
    k: nat,
    repo_url: Seq<char>,
    work_dir: Seq<char>,
)
    requires
        k <= graph.count(),
    ensures
        forall|t: int|
            0 <= t < graph.downloads(k, repo_url, work_dir).len() ==> exists|a: int|
                0 <= a < k && graph.name(a) == (#[trigger] graph.downloads(
                    k,
                    repo_url,
                    work_dir,
                )[t]).name,
    decreases k,
{
    if k > 0 {
        lemma_downloads_are_packages(graph, (k - 1) as nat, repo_url, work_dir);
        let before = graph.downloads((k - 1) as nat, repo_url, work_dir);
        let now = graph.downloads(k, repo_url, work_dir);
        assert forall|t: int| 0 <= t < now.len() implies exists|a: int|
            0 <= a < k && graph.name(a) == (#[trigger] now[t]).name by {
            if t < before.len() {
                assert(now[t] == before[t]);
                let a = choose|a: int| 0 <= a < k - 1 && graph.name(a) == before[t].name;
                assert(0 <= a < k && graph.name(a) == now[t].name);
            } else {
                assert(graph.name(k - 1) == now[t].name);
            }
        }
    }
}

/// The records of the packages without files among the first `k` packages of a
/// graph are the records of those packages, each once: every entry is the name
/// and the record of such a package, every such package has its entry, and no
/// two entries have the same name.
pub proof fn lemma_metas_are_packages(graph: Subgraph, k: nat)
    requires
        graph.wf(),
        k <= graph.count(),
    ensures
        forall|i: int|
            0 <= i < graph.metas(k).len() ==> exists|a: int|
                0 <= a < k && (#[trigger] graph.metas(k)[i]) == (graph.name(a), graph.info(a)),
        forall|a: int|
            0 <= a < k && (#[trigger] graph.info(a)).is_meta() ==> graph.metas(k).contains(
                (graph.name(a), graph.info(a)),
            ),
        forall|i: int, j: int|
            0 <= i < j < graph.metas(k).len() ==> (#[trigger] graph.metas(k)[i]).0 != (
            #[trigger] graph.metas(k)[j]).0,
    decreases k,
{
    if k > 0 {
        lemma_metas_are_packages(graph, (k - 1) as nat);
        let before = graph.metas((k - 1) as nat);
        let now = graph.metas(k);
        assert forall|i: int| 0 <= i < now.len() implies exists|a: int|
            0 <= a < k && (#[trigger] now[i]) == (graph.name(a), graph.info(a)) by {
            if i < before.len() {
                assert(now[i] == before[i]);
                let a = choose|a: int|
                    0 <= a < k - 1 && before[i] == (graph.name(a), graph.info(a));
                assert(0 <= a < k && now[i] == (graph.name(a), graph.info(a)));
            } else {
                assert(now[i] == (graph.name(k - 1), graph.info(k - 1)));
            }
        }
        assert forall|a: int| 0 <= a < k && (#[trigger] graph.info(a)).is_meta() implies now.contains(
            (graph.name(a), graph.info(a)),
        ) by {
            if a < k - 1 {
                let entry = (graph.name(a), graph.info(a));
                assert(before.contains(entry));
                let i = choose|i: int| 0 <= i < before.len() && before[i] == entry;
                assert(now[i] == entry);
            } else {
                assert(now[now.len() - 1] == (graph.name(a), graph.info(a)));
            }
        }
        assert forall|i: int, j: int| 0 <= i < j < now.len() implies (#[trigger] now[i]).0 != (
        #[trigger] now[j]).0 by {
            if j < before.len() {
                assert(now[i] == before[i] && now[j] == before[j]);
            } else {
                assert(now[i] == before[i]);
                let a = choose|a: int|
                    0 <= a < k - 1 && before[i] == (graph.name(a), graph.info(a));
                graph.lemma_node(k - 1);
                assert(graph.name(a) != graph.name(k - 1));
            }
        }
    }
}

/// The run as it starts meets the invariant of a run.
pub proof fn lemma_initial_wf(graph: Subgraph, config: crate::config::ConfigView)
    ensures
        InstallRun::initial(graph, config).wf(),
        InstallRun::initial(graph, config).staged.len() == 0,
{
}

/// What a run that ended well does to the local database, whatever was
/// reported on the way. Every package of the graph without files of its own
/// is then in the database, under its name and with its record. And every
/// package of the database whose name is not in the graph is there as it was.
///
/// The database is given by its names and records, and the state after the
/// run is what `insert_all` makes of it with the records that the run hands
/// out.
pub proof fn lemma_install_enters_meta_packages(
    graph: Subgraph,
    config: crate::config::ConfigView,
    events: Seq<EventView>,
    names: Seq<Seq<char>>,
    infos: Seq<PkgInfoView>,
)
    requires
        graph.wf(),
        InstallRun::initial(graph, config).after(events).succeeded,
        names.no_duplicates(),
        names.len() == infos.len(),
    ensures
        ({
            let records = InstallRun::initial(graph, config).after(events).records();
            let after = upsert_all(names, infos, records, records.len());
            &&& forall|k: int|
                0 <= k < graph.count() && (#[trigger] graph.info(k)).is_meta() ==> after.0.contains(
                    graph.name(k),
                ) && after.1[after.0.index_of(graph.name(k))] == graph.info(k)
            &&& forall|n: Seq<char>|
                names.contains(n) && !graph.has(n) ==> #[trigger] after.0.contains(n)
                    && after.1[after.0.index_of(n)] == infos[names.index_of(n)]
        }),
{
    let start = InstallRun::initial(graph, config);
    let run = start.after(events);
    let records = run.records();
    let total = records.len();
    let after = upsert_all(names, infos, records, total);
    lemma_initial_wf(graph, config);
    lemma_after_continues(start, events);
    lemma_metas_are_packages(graph, graph.count());
    lemma_downloads_are_packages(graph, graph.count(), config.repo_url, config.work_dir);
    lemma_upsert_all(names, infos, records, total);
    let metas = graph.metas(graph.count());
    assert(run.metas == metas);
    assert(records == run.staged + metas);
    let offset = run.staged.len() as int;
    assert forall|k: int|
        0 <= k < graph.count() && (#[trigger] graph.info(k)).is_meta() implies after.0.contains(
        graph.name(k),
    ) && after.1[after.0.index_of(graph.name(k))] == graph.info(k) by {
        let entry = (graph.name(k), graph.info(k));
        assert(metas.contains(entry));
        let i = choose|i: int| 0 <= i < metas.len() && metas[i] == entry;
        let at = offset + i;
        assert(records[at] == entry);
        assert forall|j: int| at < j < total implies (#[trigger] records[j]).0 != records[at].0 by {
            assert(records[j] == metas[j - offset]);
            assert(metas[i].0 != metas[j - offset].0);
        }
        assert(after.0.contains(records[at].0));
    }
    assert forall|n: Seq<char>| names.contains(n) && !graph.has(n) implies #[trigger] after.0.contains(
        n,
    ) && after.1[after.0.index_of(n)] == infos[names.index_of(n)] by {
        assert forall|i: int| 0 <= i < total implies (#[trigger] records[i]).0 != n by {
            if i < offset {
                assert(records[i] == run.staged[i]);
                assert(run.staged_is_target(i));
                let t = choose|t: int|
                    0 <= t < run.targets.len() && (#[trigger] run.targets[t]).name
                        == run.staged[i].0;
                assert(run.targets == start.targets);
                let a = choose|a: int|
                    0 <= a < graph.count() && graph.name(a) == start.targets[t].name;
                assert(graph.has(graph.name(a)));
            } else {
                assert(records[i] == metas[i - offset]);
                let a = choose|a: int|
                    0 <= a < graph.count() && metas[i - offset] == (graph.name(a), graph.info(a));
                assert(graph.has(graph.name(a)));
            }
        }
    }
}

} // verus!
