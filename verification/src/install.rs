//! What is decided before an installation: which packages are left to
//! install, and what has to be downloaded for them.

use vstd::prelude::*;
use vstd::string::StringExecFns;
use crate::config::{slash, with_slash, Config};
use crate::errors::{NbError, NbErrorView, NbpmError, NbpmErrorView};
use crate::pkgdb::PkgDb;
use crate::pkginfo::{PkgInfoView, SetInfo, SetInfoView};
use crate::repo::REPO_BIN_DIR;
use crate::set::PkgSet;
use crate::subgraph::Subgraph;
use crate::version::{precedence_of, VersionOrder, VersionView};

verus! {

/// How a package that is to be installed stands to what is installed.
#[derive(Clone, Copy, Debug, PartialEq, Eq, Structural)]
pub enum Standing {
    /// No package of that name is installed.
    Absent,
    /// The very version is installed.
    Same,
    /// A newer version is installed.
    Older,
    /// An older version is installed.
    Newer,
}

/// What is done with a package that is left to install.
#[derive(Clone, Copy, Debug, PartialEq, Eq, Structural)]
pub enum Action {
    /// The package is installed for the first time.
    Install,
    /// The package replaces an older version of itself.
    Update,
}

/// A package that is left to install, with what is done with it.
#[derive(Debug)]
pub struct Planned {
    pub name: String,
    pub action: Action,
}

/// How a package stands, given the precedence of its version relative to the
/// installed one, or `None` where no package of its name is installed.
pub open spec fn standing_for(installed: Option<VersionOrder>) -> Standing {
    match installed {
        None => Standing::Absent,
        Some(VersionOrder::Same) => Standing::Same,
        Some(VersionOrder::Older) => Standing::Older,
        Some(VersionOrder::Newer) => Standing::Newer,
    }
}

/// Says how a package stands, given the precedence of its version relative to
/// the installed one, or `None` where no package of its name is installed.
pub fn standing_of(installed: Option<VersionOrder>) -> (s: Standing)
    ensures
        s == standing_for(installed),
{
    match installed {
        None => Standing::Absent,
        Some(VersionOrder::Same) => Standing::Same,
        Some(VersionOrder::Older) => Standing::Older,
        Some(VersionOrder::Newer) => Standing::Newer,
    }
}

/// How the version `target` of the package `name` stands to the local
/// database.
pub open spec fn standing(target: VersionView, name: Seq<char>, local: PkgDb) -> Standing {
    standing_for(
        if local.has(name) {
            Some(precedence_of(target, local.record(name).version))
        } else {
            None
        },
    )
}

impl<'a> Subgraph<'a> {
    /// How the package at position `k` stands to the local database.
    pub open spec fn standing_at(&self, k: int, local: PkgDb) -> Standing {
        standing(self.info(k).version, self.name(k), local)
    }

    /// The package at position `k` would replace a newer version, and it is
    /// the first such package.
    pub open spec fn first_downgrade(&self, k: int, local: PkgDb) -> bool {
        &&& 0 <= k < self.count()
        &&& self.standing_at(k, local) == Standing::Older
        &&& forall|k2: int| 0 <= k2 < k ==> #[trigger] self.standing_at(k2, local) != Standing::Older
    }
}

/// What is done with a package that stands thus and is not dropped.
pub open spec fn action_for(s: Standing) -> Action {
    if s == Standing::Absent {
        Action::Install
    } else {
        Action::Update
    }
}

/// Takes out of `graph` the packages that are installed in the very version,
/// and tells of each package that is left whether it is installed for the first
/// time or replaces an older version. Fails, and leaves the graph as it is,
/// where a package would replace a newer version of itself: the error names the
/// first such package, the installed version and the version asked for.
pub fn purge_already_installed(graph: &mut Subgraph, db: &PkgDb) -> (r: Result<
    Vec<Planned>,
    NbpmError,
>)
    requires
        old(graph).wf(),
        db.wf(),
    ensures
        final(graph).wf(),
        final(graph).db() == old(graph).db(),
        r is Err <==> exists|k: int| old(graph).first_downgrade(k, *db),
        match r {
            Ok(plan) => {
                &&& forall|k: int|
                    0 <= k < old(graph).count() ==> (final(graph).nodes().contains(
                        #[trigger] old(graph).nodes()[k],
                    ) <==> old(graph).standing_at(k, *db) != Standing::Same)
                &&& forall|a: int|
                    0 <= a < final(graph).count() ==> old(graph).nodes().contains(
                        #[trigger] final(graph).nodes()[a],
                    )
                &&& forall|a: int, c: int|
                    0 <= a < c < final(graph).count() ==> old(graph).nodes().index_of(
                        #[trigger] final(graph).nodes()[a],
                    ) < old(graph).nodes().index_of(#[trigger] final(graph).nodes()[c])
                &&& plan.len() == final(graph).count()
                &&& forall|a: int|
                    0 <= a < plan.len() ==> (#[trigger] plan[a]).name@ == final(graph).name(a)
                        && plan[a].action == action_for(final(graph).standing_at(a, *db))
            },
            Err(e) => {
                &&& final(graph).nodes() == old(graph).nodes()
                &&& exists|k: int| #[trigger]
                    old(graph).first_downgrade(k, *db) && e@ == NbpmErrorView::RequiresPkgDowngrade(
                        old(graph).name(k),
                        db.record(old(graph).name(k)).version,
                        old(graph).info(k).version,
                    )
            },
        },
{
    let mut kept: Vec<usize> = Vec::new();
    let mut plan: Vec<Planned> = Vec::new();
    // For each package that is kept, its position in the graph as it was.
    let ghost mut origin: Seq<int> = Seq::empty();
    let mut k: usize = 0;
    while k < graph.len()
        invariant
            graph.wf(),
            *graph == *old(graph),
            db.wf(),
            k <= graph.count(),
            plan.len() == kept.len(),
            origin.len() == kept.len(),
            forall|k2: int| 0 <= k2 < k ==> #[trigger] graph.standing_at(k2, *db) != Standing::Older,
            forall|a: int|
                0 <= a < kept.len() ==> {
                    &&& 0 <= #[trigger] origin[a] < k
                    &&& graph.nodes()[origin[a]] == kept[a] as int
                    &&& graph.standing_at(origin[a], *db) != Standing::Same
                    &&& plan[a].name@ == graph.name(origin[a])
                    &&& plan[a].action == action_for(graph.standing_at(origin[a], *db))
                },
            forall|b: int|
                0 <= b < k && #[trigger] graph.standing_at(b, *db) != Standing::Same
                    ==> origin.contains(b),
            forall|a: int, c: int| 0 <= a < c < origin.len() ==> origin[a] < origin[c],
        decreases graph.count() - k,
    {
        let name = graph.name_at(k);
        let info = graph.info_at(k);
        let node = graph.node_at(k);
        let ghost origin0 = origin;
        let found = db.get_pkg_info(name.as_str());
        let order = match found {
            Some(installed) => Some(info.version().precedence(installed.version())),
            None => None,
        };
        let action = match standing_of(order) {
            Standing::Absent => Some(Action::Install),
            Standing::Same => None,
            Standing::Newer => Some(Action::Update),
            Standing::Older => {
                let installed = found.unwrap();
                let e = NbpmError::RequiresPkgDowngrade(
                    name.clone(),
                    installed.version().clone(),
                    info.version().clone(),
                );
                proof {
                    assert(graph.first_downgrade(k as int, *db));
                }
                return Err(e);
            },
        };
        match action {
            Some(action) => {
                proof {
                    assert(graph.standing_at(k as int, *db) != Standing::Same);
                    assert(action == action_for(graph.standing_at(k as int, *db)));
                    origin = origin.push(k as int);
                }
                kept.push(node);
                plan.push(Planned { name: name.clone(), action });
                proof {
                    assert forall|b: int|
                        0 <= b < k + 1 && #[trigger] graph.standing_at(b, *db)
                            != Standing::Same implies origin.contains(b) by {
                        if b < k {
                            let w = choose|w: int| 0 <= w < origin0.len() && origin0[w] == b;
                            assert(origin[w] == b);
                        } else {
                            assert(origin[origin0.len() as int] == b);
                        }
                    }
                }
            },
            None => {
                assert(graph.standing_at(k as int, *db) == Standing::Same);
            },
        }
        k += 1;
    }
    let ghost before = *graph;
    proof {
        assert forall|a: int| 0 <= a < kept.len() implies (#[trigger] kept[a])
            < graph.db().names().len() by {
            assert(0 <= origin[a] < k);
            assert(0 <= graph.nodes()[origin[a]] < graph.db().names().len());
        }
        assert forall|a: int, c: int|
            0 <= a < kept.len() && 0 <= c < kept.len() && a != c implies kept[a] != kept[c] by {
            // Distinct packages that are kept come from distinct positions.
            assert(0 <= origin[a] < k && 0 <= origin[c] < k);
            if a < c {
                assert(origin[a] < origin[c]);
            } else {
                assert(origin[c] < origin[a]);
            }
            assert(graph.nodes()[origin[a]] != graph.nodes()[origin[c]]);
        }
    }
    graph.set_nodes(kept);
    proof {
        assert forall|b: int| 0 <= b < before.count() implies (graph.nodes().contains(
            #[trigger] before.nodes()[b],
        ) <==> before.standing_at(b, *db) != Standing::Same) by {
            if before.standing_at(b, *db) != Standing::Same {
                let w = choose|w: int| 0 <= w < origin.len() && origin[w] == b;
                assert(graph.nodes()[w] == before.nodes()[b]);
            }
            if graph.nodes().contains(before.nodes()[b]) {
                let w = choose|w: int|
                    0 <= w < graph.nodes().len() && graph.nodes()[w] == before.nodes()[b];
                assert(0 <= origin[w] < k);
                assert(before.nodes()[origin[w]] == before.nodes()[b]);
            }
        }
        assert forall|a: int| 0 <= a < graph.count() implies before.nodes().contains(
            #[trigger] graph.nodes()[a],
        ) by {
            assert(0 <= origin[a] < k);
            assert(before.nodes()[origin[a]] == graph.nodes()[a]);
        }
        assert forall|a: int| 0 <= a < plan.len() implies (#[trigger] plan[a]).name@ == graph.name(
            a,
        ) && plan[a].action == action_for(graph.standing_at(a, *db)) by {
            assert(0 <= origin[a] < k);
            assert(graph.nodes()[a] == before.nodes()[origin[a]]);
        }
        assert forall|k2: int| 0 <= k2 < before.count() implies !before.first_downgrade(k2, *db) by {
            assert(before.standing_at(k2, *db) != Standing::Older);
        }
        assert forall|a: int, c: int| 0 <= a < c < graph.count() implies before.nodes().index_of(
            #[trigger] graph.nodes()[a],
        ) < before.nodes().index_of(#[trigger] graph.nodes()[c]) by {
            assert(0 <= origin[a] < k && 0 <= origin[c] < k);
            assert(origin[a] < origin[c]);
            assert(before.nodes()[origin[a]] == graph.nodes()[a]);
            assert(before.nodes()[origin[c]] == graph.nodes()[c]);
            let ia = before.nodes().index_of(graph.nodes()[a]);
            let ic = before.nodes().index_of(graph.nodes()[c]);
            assert(before.nodes().contains(graph.nodes()[a]));
            assert(before.nodes().contains(graph.nodes()[c]));
            assert(before.nodes()[ia] == graph.nodes()[a]);
            assert(before.nodes()[ic] == graph.nodes()[c]);
            assert(ia == origin[a]);
            assert(ic == origin[c]);
        }
    }
    Ok(plan)
}

/// One archive to download: the package, where the archive is, and the file
/// to download it to.
#[derive(Debug)]
pub struct Download {
    pub name: String,
    pub url: String,
    pub path: String,
}

/// The mathematical value of a [`Download`].
pub struct DownloadView {
    pub name: Seq<char>,
    pub url: Seq<char>,
    pub path: Seq<char>,
}

impl View for Download {
    type V = DownloadView;

    open spec fn view(&self) -> DownloadView {
        DownloadView { name: self.name@, url: self.url@, path: self.path@ }
    }
}

impl Clone for Download {
    fn clone(&self) -> (copy: Download)
        ensures
            copy@ == self@,
    {
        Download { name: self.name.clone(), url: self.url.clone(), path: self.path.clone() }
    }
}

/// The values of a list of downloads, in order.
pub open spec fn downloads_view(list: Seq<Download>) -> Seq<DownloadView> {
    list.map_values(|d: Download| d@)
}

/// The file name of the archive of a package.
pub open spec fn archive_name(name: Seq<char>) -> Seq<char> {
    name + ".tar.xz"@
}

/// The download of the package `name`, whose archive is at `location` in the
/// repository at `repo_url`, into the directory `work_dir`.
pub open spec fn download_of(
    name: Seq<char>,
    location: Seq<char>,
    repo_url: Seq<char>,
    work_dir: Seq<char>,
) -> DownloadView {
    DownloadView {
        name,
        url: slash(slash(slash(repo_url, REPO_BIN_DIR@), location), archive_name(name)),
        path: slash(work_dir, archive_name(name)),
    }
}

impl<'a> Subgraph<'a> {
    /// The downloads for the first `k` packages, in order: one for each package
    /// that has a place in a repository.
    pub open spec fn downloads(&self, k: nat, repo_url: Seq<char>, work_dir: Seq<char>) -> Seq<
        DownloadView,
    >
        decreases k,
    {
        if k == 0 {
            Seq::empty()
        } else {
            let before = self.downloads((k - 1) as nat, repo_url, work_dir);
            match self.info(k - 1).set_info {
                Some(SetInfoView::Universe(location)) => before.push(
                    download_of(self.name(k - 1), location, repo_url, work_dir),
                ),
                _ => before,
            }
        }
    }

    /// The package at position `k` is an installed one, and it is the first
    /// such package.
    pub open spec fn first_local(&self, k: int) -> bool {
        &&& 0 <= k < self.count()
        &&& self.info(k).set_info matches Some(SetInfoView::Local(_))
        &&& forall|k2: int|
            0 <= k2 < k ==> !((#[trigger] self.info(k2)).set_info matches Some(
                SetInfoView::Local(_),
            ))
    }
}

/// Says what has to be downloaded to install the packages of `graph`: for each
/// package that has a place in the repository, the address of its archive and
/// the file in the working directory to download it to. A package without
/// files of its own needs no download. Fails where a package is an installed
/// one, which cannot be downloaded: the error names the first such package.
pub fn download_plan(graph: &Subgraph, config: &Config) -> (r: Result<Vec<Download>, NbError>)
    requires
        graph.wf(),
    ensures
        match r {
            Ok(plan) => {
                &&& downloads_view(plan@) == graph.downloads(
                    graph.count(),
                    config@.repo_url,
                    config@.work_dir,
                )
                &&& forall|k: int| !graph.first_local(k)
            },
            Err(e) => exists|k: int| #[trigger]
                graph.first_local(k) && e@ == NbErrorView::BrokenSetConsistency(
                    graph.name(k),
                    PkgSet::Universe,
                ),
        },
{
    let mut plan: Vec<Download> = Vec::new();
    let mut k: usize = 0;
    while k < graph.len()
        invariant
            graph.wf(),
            k <= graph.count(),
            downloads_view(plan@) == graph.downloads(k as nat, config@.repo_url, config@.work_dir),
            forall|k2: int|
                0 <= k2 < k ==> !((#[trigger] graph.info(k2)).set_info matches Some(
                    SetInfoView::Local(_),
                )),
        decreases graph.count() - k,
    {
        let name = graph.name_at(k);
        let info = graph.info_at(k);
        let ghost before = downloads_view(plan@);
        match info.set_info() {
            Some(SetInfo::Universe(u)) => {
                let mut file = name.clone();
                file.append(".tar.xz");
                let base = with_slash(config.repo_url(), REPO_BIN_DIR);
                let dir = with_slash(base.as_str(), u.location());
                let url = with_slash(dir.as_str(), file.as_str());
                let path = with_slash(config.work_dir(), file.as_str());
                let d = Download { name: name.clone(), url, path };
                plan.push(d);
                proof {
                    assert(downloads_view(plan@) =~= before.push(d@));
                }
            },
            Some(SetInfo::Local(_)) => {
                let e = NbError::BrokenSetConsistency(name.clone(), PkgSet::Universe);
                proof {
                    assert(graph.first_local(k as int));
                }
                return Err(e);
            },
            None => {},
        }
        k += 1;
    }
    proof {
        assert forall|k2: int| !graph.first_local(k2) by {
            if 0 <= k2 < graph.count() {
                assert(!(graph.info(k2).set_info matches Some(SetInfoView::Local(_))));
            }
        }
    }
    Ok(plan)
}

} // verus!
