//! The projects of a repository with their last known state, and the
//! changes that are pending.

use std::collections::HashMap;
use vstd::prelude::*;
use crate::builder::GithubInfo;
use crate::walk::{build_plan, plan_fails, plan_of, Walk};
use crate::changelog::{Changelog, CommitInfo, FullPr};
use crate::config::ConfigFile;
use crate::error::Error;
use crate::plan::Plan;
use crate::last_commits::{find_last_commits, last_commits_fail, records_last_commits};
use crate::project::{Project, ProjectId};
use crate::repo::{Branch, Repo};
use crate::state::{
    changelogs_among, text_map, write_views, CommitState, CommitStateView, StateWrite, Write,
    WriteView,
};
use crate::tags::{find_old_tags, records_tags, tags_unresolved, text_at, OldTags};
use crate::text::{owned, same_text};

verus! {

broadcast use vstd::std_specs::hash::group_hash_axioms;

/// What is written for the branch when none is checked out.
pub open spec fn no_branch() -> Seq<char> {
    "((No branch))"@
}

/// Whether the branch that is checked out agrees with the one that the
/// configuration asks for: `Ok`, or the branch asked for and the branch
/// found. A configuration without a branch agrees with every branch, and a
/// branch that could not be found out agrees with every configuration.
pub open spec fn branch_check(wanted: Option<String>, found: Branch) -> Result<(), (Seq<char>, Seq<char>)> {
    match (wanted, found) {
        (Some(w), Branch::Named(b)) => if w@ != b@ {
            Err((w@, b@))
        } else {
            Ok(())
        },
        (Some(w), Branch::Detached) => Err((w@, no_branch())),
        _ => Ok(()),
    }
}

/// A repository of several projects.
pub struct Mono<'r> {
    pub current: ConfigFile,
    pub old_tags: OldTags,
    pub next: StateWrite,
    pub last_commits: HashMap<u32, String>,
    pub repo: &'r Repo,
}

impl<'r> Mono<'r> {
    /// The configuration is valid.
    pub open spec fn wf(&self) -> bool {
        self.current.wf()
    }

    /// Why a repository with this configuration cannot be opened, if it
    /// cannot: the configuration is not valid, a tag pattern was not asked
    /// about, or a commit of the main line cannot be dealt with.
    pub open spec fn open_fails(file: ConfigFile, repo: Repo, e: Error) -> bool {
        if !file.wf() {
            e == Error::ConfigParse
        } else if tags_unresolved(file, repo) {
            e == Error::TagResolve
        } else {
            last_commits_fail(repo, file, e)
        }
    }

    /// Opens the repository: takes the configuration and works out the last
    /// known versions and the last commit of every project.
    pub fn open(file: ConfigFile, repo: &'r Repo) -> (r: Result<Mono<'r>, Error>)
        ensures
            match r {
                Ok(m) => {
                    &&& m.wf()
                    &&& m.current == file
                    &&& m.repo == repo
                    &&& m.next@ == Seq::<WriteView>::empty()
                    &&& !m.next.changelogs_only
                    &&& records_tags(file, *repo, m.old_tags)
                    &&& records_last_commits(*repo, file, m.last_commits@)
                },
                Err(e) => Self::open_fails(file, *repo, e),
            },
    {
        if !file.is_valid() {
            return Err(Error::ConfigParse);
        }
        let old_tags = match find_old_tags(&file, repo) {
            Ok(t) => t,
            Err(e) => {
                return Err(e);
            },
        };
        let last_commits = match find_last_commits(&file, repo) {
            Ok(l) => l,
            Err(e) => {
                return Err(e);
            },
        };
        Ok(Mono { current: file, old_tags, next: StateWrite::new(), last_commits, repo })
    }

    /// Opens the repository that the command was started in.
    pub fn here(file: ConfigFile, repo: &'r Repo) -> (r: Result<Mono<'r>, Error>)
        ensures
            match r {
                Ok(m) => {
                    &&& m.wf()
                    &&& m.current == file
                    &&& m.repo == repo
                    &&& m.next@ == Seq::<WriteView>::empty()
                    &&& !m.next.changelogs_only
                    &&& records_tags(file, *repo, m.old_tags)
                    &&& records_last_commits(*repo, file, m.last_commits@)
                },
                Err(e) => Self::open_fails(file, *repo, e),
            },
    {
        Mono::open(file, repo)
    }

    /// Checks the branch that is checked out against the configuration.
    /// On a mismatch the error holds the branch that the configuration
    /// asks for and the branch that was found.
    pub fn check_branch(&self) -> (r: Result<(), (String, String)>)
        ensures
            match r {
                Ok(()) => branch_check(self.current.branch, self.repo.branch) is Ok,
                Err((wanted, found)) => branch_check(self.current.branch, self.repo.branch) == Err::<
                    (),
                    (Seq<char>, Seq<char>),
                >((wanted@, found@)),
            },
    {
        match self.repo.branch_name() {
            Branch::Unknown => Ok(()),
            Branch::Named(branch_name) => {
                match self.current.branch() {
                    Some(cfg_name) => {
                        if !same_text(branch_name.as_str(), cfg_name.as_str()) {
                            Err((cfg_name.clone(), branch_name.clone()))
                        } else {
                            Ok(())
                        }
                    },
                    None => Ok(()),
                }
            },
            Branch::Detached => {
                match self.current.branch() {
                    Some(cfg_name) => Err((cfg_name.clone(), owned("((No branch))"))),
                    None => Ok(()),
                }
            },
        }
    }

    /// Asks for the changelogs to be written out without a commit, and
    /// hands back the changelogs to write. The pending changes stay as
    /// they are.
    pub fn write_changelogs(&mut self) -> (r: Result<Vec<Write>, Error>)
        ensures
            r is Ok,
            write_views(r->Ok_0@) == changelogs_among(old(self).next@),
            final(self).next.changelogs_only,
            final(self).next.writes == old(self).next.writes,
            final(self).current == old(self).current,
            final(self).old_tags == old(self).old_tags,
            final(self).last_commits == old(self).last_commits,
            final(self).repo == old(self).repo,
    {
        self.next.changelogs_only = true;
        Ok(self.next.changelog_writes())
    }

    /// The state that holds the changes `writes` and what the committer
    /// needs to know of this repository.
    pub open spec fn handed_over(&self, writes: Seq<WriteView>, advance_prev: bool, pause: bool) -> CommitStateView {
        CommitStateView {
            writes,
            prev_tag: self.current.prev_tag@,
            last_commits: text_map(self.last_commits@),
            old_tags: text_map(self.old_tags.current@),
            advance_prev,
            pause,
        }
    }

    /// Hands the pending changes over to be committed, or to be kept while
    /// the release is paused. Nothing is pending afterwards.
    pub fn commit(&mut self, advance_prev: bool, pause: bool) -> (r: Result<CommitState, Error>)
        ensures
            r is Ok,
            r->Ok_0@ == old(self).handed_over(old(self).next@, advance_prev, pause),
            final(self).next@ == Seq::<WriteView>::empty(),
            final(self).next.changelogs_only == old(self).next.changelogs_only,
            final(self).current == old(self).current,
            final(self).old_tags == old(self).old_tags,
            final(self).last_commits == old(self).last_commits,
            final(self).repo == old(self).repo,
    {
        let mut writes: Vec<Write> = Vec::new();
        std::mem::swap(&mut writes, &mut self.next.writes);
        assert(self.next@ =~= Seq::<WriteView>::empty());
        Ok(
            CommitState {
                writes,
                prev_tag: owned(self.current.prev_tag()),
                last_commits: self.last_commits.clone(),
                old_tags: self.old_tags.current.clone(),
                advance_prev,
                pause,
            },
        )
    }

    /// The project with the identifier `id`.
    pub fn get_project(&self, id: &ProjectId) -> (r: Result<&Project, Error>)
        ensures
            match r {
                Ok(p) => self.current.has(*id) && p.id == *id && self.current.projects@.contains(*p),
                Err(e) => e == Error::NoSuchProject && !self.current.has(*id),
            },
    {
        match self.current.get_project(id) {
            Some(p) => Ok(p),
            None => Err(Error::NoSuchProject),
        }
    }

    pub fn config(&self) -> (r: &ConfigFile)
        ensures
            *r == self.current,
    {
        &self.current
    }

    pub fn repo(&self) -> (r: &Repo)
        ensures
            *r == *self.repo,
    {
        self.repo
    }

    /// What stays as it is when a change is added to the pending ones.
    pub open spec fn same_but_next(&self, other: &Mono<'r>) -> bool {
        &&& self.current == other.current
        &&& self.old_tags == other.old_tags
        &&& self.last_commits == other.last_commits
        &&& self.repo == other.repo
        &&& self.next.changelogs_only == other.next.changelogs_only
    }

    /// Decides that the version of project `id` becomes `val`.
    ///
    /// Fails with `NoSuchProject`, and changes nothing, when there is no
    /// such project.
    pub fn set_by_id(&mut self, id: &ProjectId, val: &str) -> (r: Result<(), Error>)
        ensures
            final(self).same_but_next(old(self)),
            match r {
                Ok(()) => old(self).current.has(*id) && final(self).next@ == old(self).next@.push(
                    WriteView::SetValue { id: *id, value: val@ },
                ),
                Err(e) => e == Error::NoSuchProject && !old(self).current.has(*id) && final(self).next
                    == old(self).next,
            },
    {
        if self.current.position(id).is_none() {
            return Err(Error::NoSuchProject);
        }
        self.next.push(Write::SetValue { id: *id, value: owned(val) });
        Ok(())
    }

    /// Decides that project `id` is tagged at the version `val`.
    ///
    /// Fails with `NoSuchProject`, and changes nothing, when there is no
    /// such project.
    pub fn forward_by_id(&mut self, id: &ProjectId, val: &str) -> (r: Result<(), Error>)
        ensures
            final(self).same_but_next(old(self)),
            match r {
                Ok(()) => old(self).current.has(*id) && final(self).next@ == old(self).next@.push(
                    WriteView::ForwardTag { id: *id, value: val@ },
                ),
                Err(e) => e == Error::NoSuchProject && !old(self).current.has(*id) && final(self).next
                    == old(self).next,
            },
    {
        if self.current.position(id).is_none() {
            return Err(Error::NoSuchProject);
        }
        self.next.push(Write::ForwardTag { id: *id, value: owned(val) });
        Ok(())
    }

    /// Sets the version of the one project whose name holds `name`.
    pub fn set_by_name(&mut self, name: &str, val: &str) -> (r: Result<(), Error>)
        ensures
            final(self).same_but_next(old(self)),
            match r {
                Ok(()) => exists|i: int|
                    0 <= i < old(self).current.projects@.len() && old(self).current.name_holds(i, name@)
                        && (forall|j: int|
                        0 <= j < old(self).current.projects@.len() && j != i ==> !old(self).current.name_holds(j, name@)) && final(self).next@ == old(self).next@.push(
                        WriteView::SetValue { id: old(self).current.projects@[i].id, value: val@ },
                    ),
                Err(e) => final(self).next == old(self).next && if e == Error::NoSuchProject {
                    forall|j: int|
                        0 <= j < old(self).current.projects@.len() ==> !old(self).current.name_holds(
                            j,
                            name@,
                        )
                } else {
                    e == Error::AmbiguousProject && exists|i: int, j: int|
                        0 <= i < j < old(self).current.projects@.len() && old(self).current.name_holds(
                            i,
                            name@,
                        ) && old(self).current.name_holds(j, name@)
                },
            },
    {
        let id = match self.current.find_unique(name) {
            Ok(id) => id,
            Err(e) => {
                return Err(e);
            },
        };
        proof {
            let i = choose|i: int|
                0 <= i < self.current.projects@.len() && self.current.projects@[i].id == id
                    && self.current.name_holds(i, name@) && forall|j: int|
                    0 <= j < self.current.projects@.len() && j != i ==> !self.current.name_holds(
                        j,
                        name@,
                    );
            assert(self.current.projects@[i].id == id);
        }
        match self.set_by_id(&id, val) {
            Ok(()) => Ok(()),
            Err(e) => Err(e),
        }
    }

    /// Sets the version of the one project whose name is `name`.
    pub fn set_by_exact_name(&mut self, name: &str, val: &str) -> (r: Result<(), Error>)
        ensures
            final(self).same_but_next(old(self)),
            match r {
                Ok(()) => exists|i: int|
                    0 <= i < old(self).current.projects@.len() && old(self).current.projects@[i].name@
                        == name@ && (forall|j: int|
                        0 <= j < old(self).current.projects@.len() && j != i ==> old(self).current.projects@[j].name@ != name@) && final(self).next@ == old(self).next@.push(
                        WriteView::SetValue { id: old(self).current.projects@[i].id, value: val@ },
                    ),
                Err(e) => final(self).next == old(self).next && if e == Error::NoSuchProject {
                    forall|j: int|
                        0 <= j < old(self).current.projects@.len() ==> old(self).current.projects@[j].name@
                            != name@
                } else {
                    e == Error::AmbiguousProject && exists|i: int, j: int|
                        0 <= i < j < old(self).current.projects@.len() && old(self).current.projects@[i].name@ == name@ && old(self).current.projects@[j].name@
                            == name@
                },
            },
    {
        let id = match self.current.find_exact(name) {
            Ok(id) => id,
            Err(e) => {
                return Err(e);
            },
        };
        proof {
            let i = choose|i: int|
                0 <= i < self.current.projects@.len() && self.current.projects@[i].id == id
                    && self.current.projects@[i].name@ == name@ && forall|j: int|
                    0 <= j < self.current.projects@.len() && j != i ==> self.current.projects@[j].name@
                        != name@;
            assert(self.current.projects@[i].id == id);
        }
        match self.set_by_id(&id, val) {
            Ok(()) => Ok(()),
            Err(e) => Err(e),
        }
    }

    /// Sets the version of the only project.
    ///
    /// Fails with `NoSoloProject`, and changes nothing, unless the
    /// configuration has exactly one project.
    pub fn set_by_only(&mut self, val: &str) -> (r: Result<(), Error>)
        ensures
            final(self).same_but_next(old(self)),
            match r {
                Ok(()) => old(self).current.projects@.len() == 1 && final(self).next@ == old(self).next@.push(WriteView::SetValue { id: old(self).current.projects@[0].id, value: val@ }),
                Err(e) => e == Error::NoSoloProject && old(self).current.projects@.len() != 1 && final(self).next == old(self).next,
            },
    {
        if self.current.projects.len() != 1 {
            return Err(Error::NoSoloProject);
        }
        let id = self.current.projects[0].id;
        self.next.push(Write::SetValue { id, value: owned(val) });
        Ok(())
    }

    /// The version of project number `k` as the working tree has it.
    pub open spec fn value_of(&self, k: u32) -> Option<Seq<char>> {
        text_at(self.repo.values@, k)
    }

    /// The version of project number `k` as of the last release.
    pub open spec fn prev_value_of(&self, k: u32) -> Option<Seq<char>> {
        text_at(self.repo.prev_values@, k)
    }

    /// The version of project `id` as the working tree has it.
    pub fn get_value(&self, id: &ProjectId) -> (r: Option<&String>)
        ensures
            crate::release::opt_ref_text(r) == self.value_of(id.id),
    {
        self.repo.values.get(&id.id)
    }

    /// The version of project `id` as of the last release.
    pub fn get_prev_value(&self, id: &ProjectId) -> (r: Option<&String>)
        ensures
            crate::release::opt_ref_text(r) == self.prev_value_of(id.id),
    {
        self.repo.prev_values.get(&id.id)
    }

    /// Checks that every project has a version that can be read.
    ///
    /// Fails with `NoSuchValue` when the first project at fault has no
    /// version, and with `VersionParse` when it has one that is no version.
    pub fn check(&self) -> (r: Result<(), Error>)
        ensures
            match r {
                Ok(()) => forall|i: int|
                    0 <= i < self.current.projects@.len() ==> self.readable(
                        #[trigger] self.current.projects@[i].id.id,
                    ) is Ok,
                Err(e) => exists|i: int|
                    0 <= i < self.current.projects@.len() && self.readable(
                        #[trigger] self.current.projects@[i].id.id,
                    ) == Err::<(), Error>(e) && forall|j: int|
                        0 <= j < i ==> self.readable(#[trigger] self.current.projects@[j].id.id) is Ok,
            },
    {
        let mut i: usize = 0;
        while i < self.current.projects.len()
            invariant
                i <= self.current.projects.len(),
                forall|j: int|
                    0 <= j < i ==> self.readable(#[trigger] self.current.projects@[j].id.id) is Ok,
            decreases self.current.projects.len() - i,
        {
            let id = self.current.projects[i].id;
            match self.get_value(&id) {
                None => {
                    assert(self.readable(self.current.projects@[i as int].id.id) == Err::<(), Error>(
                        Error::NoSuchValue,
                    ));
                    return Err(Error::NoSuchValue);
                },
                Some(v) => {
                    if crate::version::parse(v.as_str()).is_none() {
                        assert(self.readable(self.current.projects@[i as int].id.id) == Err::<
                            (),
                            Error,
                        >(Error::VersionParse));
                        return Err(Error::VersionParse);
                    }
                },
            }
            i += 1;
        }
        Ok(())
    }

    /// Whether project number `k` has a version that can be read.
    pub open spec fn readable(&self, k: u32) -> Result<(), Error> {
        match self.value_of(k) {
            None => Err(Error::NoSuchValue),
            Some(v) => if crate::version::version_of(v) is Some {
                Ok(())
            } else {
                Err(Error::VersionParse)
            },
        }
    }
}

/// The change that one chain write asks for: the new version of the
/// upstream project goes where the downstream project keeps it. The
/// downstream project has to exist and to depend on the upstream project,
/// and the upstream project has to have a new version.
pub open spec fn chain_write(cfg: ConfigFile, edge: (ProjectId, ProjectId), vers: Map<u32, Seq<char>>) -> Result<
    WriteView,
    Error,
> {
    if !cfg.has(edge.1) {
        Err(Error::NoSuchDependent)
    } else if !cfg.projects@[cfg.index_of(edge.1)].depends_on(edge.0) {
        Err(Error::NoSuchDepends)
    } else if !vers.contains_key(edge.0.id) {
        Err(Error::NoNewValue)
    } else {
        Ok(WriteView::ChainValue { upstream: edge.0, downstream: edge.1, value: vers[edge.0.id] })
    }
}

/// The changes that the first `upto` chain writes ask for, or the error of
/// the first of them that cannot be made.
pub open spec fn chain_writes_of(
    cfg: ConfigFile,
    chain: Seq<(ProjectId, ProjectId)>,
    vers: Map<u32, Seq<char>>,
    upto: int,
) -> Result<Seq<WriteView>, Error>
    decreases upto,
{
    if upto <= 0 {
        Ok(Seq::empty())
    } else {
        match chain_writes_of(cfg, chain, vers, upto - 1) {
            Err(e) => Err(e),
            Ok(ws) => match chain_write(cfg, chain[upto - 1], vers) {
                Err(e) => Err(e),
                Ok(w) => Ok(ws.push(w)),
            },
        }
    }
}

/// Once the chain writes fail they stay failed, with the same error.
pub proof fn lemma_chain_error_stays(
    cfg: ConfigFile,
    chain: Seq<(ProjectId, ProjectId)>,
    vers: Map<u32, Seq<char>>,
    at: int,
    upto: int,
)
    requires
        at <= upto,
        chain_writes_of(cfg, chain, vers, at) is Err,
    ensures
        chain_writes_of(cfg, chain, vers, upto) == chain_writes_of(cfg, chain, vers, at),
    decreases upto - at,
{
    if at < upto {
        lemma_chain_error_stays(cfg, chain, vers, at, upto - 1);
    }
}

impl<'r> Mono<'r> {
    /// The changes that the chain writes `ids` ask for, given the new
    /// versions `vers`.
    pub fn chain_changes(&self, ids: &[(ProjectId, ProjectId)], vers: &HashMap<u32, String>) -> (r:
        Result<Vec<Write>, Error>)
        requires
            self.wf(),
        ensures
            match r {
                Ok(ws) => chain_writes_of(self.current, ids@, text_map(vers@), ids@.len() as int)
                    == Ok::<Seq<WriteView>, Error>(write_views(ws@)),
                Err(e) => chain_writes_of(self.current, ids@, text_map(vers@), ids@.len() as int)
                    == Err::<Seq<WriteView>, Error>(e),
            },
    {
        let mut ws: Vec<Write> = Vec::new();
        let mut i: usize = 0;
        assert(write_views(ws@) =~= Seq::<WriteView>::empty());
        while i < ids.len()
            invariant
                i <= ids@.len(),
                crate::config::distinct_ids(self.current.projects@),
                chain_writes_of(self.current, ids@, text_map(vers@), i as int) == Ok::<
                    Seq<WriteView>,
                    Error,
                >(write_views(ws@)),
            decreases ids@.len() - i,
        {
            let up = ids[i].0;
            let down = ids[i].1;
            let ghost before = write_views(ws@);
            let step: Result<Write, Error> = match self.current.get_project(&down) {
                None => Err(Error::NoSuchDependent),
                Some(dproj) => {
                    match dproj.dependency(&up) {
                        None => Err(Error::NoSuchDepends),
                        Some(_) => {
                            match vers.get(&up.id) {
                                None => Err(Error::NoNewValue),
                                Some(val) => Ok(
                                    Write::ChainValue { upstream: up, downstream: down, value: val.clone() },
                                ),
                            }
                        },
                    }
                },
            };
            match step {
                Err(e) => {
                    proof {
                        assert(chain_write(self.current, ids@[i as int], text_map(vers@)) == Err::<
                            WriteView,
                            Error,
                        >(e));
                        lemma_chain_error_stays(
                            self.current,
                            ids@,
                            text_map(vers@),
                            i + 1,
                            ids@.len() as int,
                        );
                    }
                    return Err(e);
                },
                Ok(w) => {
                    assert(chain_write(self.current, ids@[i as int], text_map(vers@)) == Ok::<
                        WriteView,
                        Error,
                    >(w@));
                    ws.push(w);
                    assert(write_views(ws@) =~= before.push(w@));
                },
            }
            i += 1;
        }
        Ok(ws)
    }

    /// Decides on the chain writes `ids`: for each of them the new version
    /// of the upstream project, taken from `vers`, is to be written where
    /// the downstream project keeps it.
    ///
    /// Fails, and changes nothing, where one of them cannot be made.
    pub fn write_chains(&mut self, ids: &[(ProjectId, ProjectId)], vers: &HashMap<u32, String>) -> (r:
        Result<(), Error>)
        requires
            old(self).wf(),
        ensures
            final(self).same_but_next(old(self)),
            match r {
                Ok(()) => chain_writes_of(
                    old(self).current,
                    ids@,
                    text_map(vers@),
                    ids@.len() as int,
                ) is Ok && final(self).next@ == old(self).next@ + chain_writes_of(
                    old(self).current,
                    ids@,
                    text_map(vers@),
                    ids@.len() as int,
                )->Ok_0,
                Err(e) => chain_writes_of(old(self).current, ids@, text_map(vers@), ids@.len() as int)
                    == Err::<Seq<WriteView>, Error>(e) && final(self).next == old(self).next,
            },
    {
        match self.chain_changes(ids, vers) {
            Err(e) => Err(e),
            Ok(ws) => {
                self.next.append(ws);
                Ok(())
            },
        }
    }

    /// Decides that the changelog of project `id` is written for the
    /// version `new_vers`, if the project keeps a changelog and `changelog`
    /// has entries, and says where it goes.
    ///
    /// Fails with `NoSuchProject`, and changes nothing, when there is no
    /// such project.
    pub fn write_changelog(&mut self, id: &ProjectId, changelog: &Changelog, new_vers: &str) -> (r:
        Result<Option<String>, Error>)
        requires
            old(self).wf(),
        ensures
            final(self).same_but_next(old(self)),
            match r {
                Ok(path) => {
                    let p = old(self).current.projects@[old(self).current.index_of(*id)];
                    let to = if changelog@.len() > 0 {
                        crate::changelog::opt_text(p.changelog)
                    } else {
                        None
                    };
                    &&& old(self).current.has(*id)
                    &&& crate::changelog::opt_text(path) == to
                    &&& final(self).next@ == match to {
                        Some(t) => old(self).next@.push(
                            WriteView::Changelog { id: *id, version: new_vers@, path: t },
                        ),
                        None => old(self).next@,
                    }
                },
                Err(e) => e == Error::NoSuchProject && !old(self).current.has(*id) && final(self).next
                    == old(self).next,
            },
    {
        let path = match self.current.get_project(id) {
            None => {
                return Err(Error::NoSuchProject);
            },
            Some(p) => if changelog.is_empty() {
                None
            } else {
                crate::changelog::copy_opt(&p.changelog)
            },
        };
        match &path {
            Some(to) => {
                self.next.push(Write::Changelog { id: *id, version: owned(new_vers), path: to.clone() });
            },
            None => {},
        }
        Ok(path)
    }
}

/// A file with the kind of the commit that touched it.
pub struct KeyedFile {
    pub kind: Option<String>,
    pub path: String,
}

/// The files of a commit, each with the kind of the commit.
pub open spec fn commit_keyed(commit: CommitInfo) -> Seq<(Option<Seq<char>>, Seq<char>)> {
    Seq::new(
        commit.files@.len(),
        |i: int| (crate::changelog::opt_text(commit.kind), commit.files@[i]@),
    )
}

/// The files of the first `upto` commits, commit by commit.
pub open spec fn commits_keyed(commits: Seq<CommitInfo>, upto: int) -> Seq<(Option<Seq<char>>, Seq<char>)>
    decreases upto,
{
    if upto <= 0 {
        Seq::empty()
    } else {
        commits_keyed(commits, upto - 1) + commit_keyed(commits[upto - 1])
    }
}

/// The files of a pull request; none for one that was made up.
pub open spec fn pr_keyed(pr: FullPr) -> Seq<(Option<Seq<char>>, Seq<char>)> {
    if pr.best_guess {
        Seq::empty()
    } else {
        commits_keyed(pr.commits@, pr.commits@.len() as int)
    }
}

/// The files of the first `upto` pull requests, one pull request after
/// the other.
pub open spec fn prs_keyed(prs: Seq<FullPr>, upto: int) -> Seq<(Option<Seq<char>>, Seq<char>)>
    decreases upto,
{
    if upto <= 0 {
        Seq::empty()
    } else {
        prs_keyed(prs, upto - 1) + pr_keyed(prs[upto - 1])
    }
}

/// The views of a run of keyed files.
pub open spec fn keyed_views(fs: Seq<KeyedFile>) -> Seq<(Option<Seq<char>>, Seq<char>)> {
    Seq::new(fs.len(), |i: int| (crate::changelog::opt_text(fs[i].kind), fs[i].path@))
}

/// Appends the files of a pull request, each with the kind of its commit.
pub fn pr_keyed_files(pr: &FullPr, out: &mut Vec<KeyedFile>)
    ensures
        keyed_views(final(out)@) == keyed_views(old(out)@) + pr_keyed(*pr),
{
    let ghost start = keyed_views(out@);
    if pr.best_guess() {
        assert(keyed_views(out@) =~= start + pr_keyed(*pr));
        return ;
    }
    let mut c: usize = 0;
    assert(keyed_views(out@) =~= start + commits_keyed(pr.commits@, 0));
    while c < pr.commits.len()
        invariant
            c <= pr.commits@.len(),
            keyed_views(out@) == start + commits_keyed(pr.commits@, c as int),
        decreases pr.commits@.len() - c,
    {
        let commit = &pr.commits[c];
        let ghost before = keyed_views(out@);
        let mut f: usize = 0;
        while f < commit.files.len()
            invariant
                f <= commit.files@.len(),
                keyed_views(out@) == before + commit_keyed(*commit).take(f as int),
            decreases commit.files@.len() - f,
        {
            let ghost prior = keyed_views(out@);
            out.push(
                KeyedFile { kind: crate::changelog::copy_opt(&commit.kind), path: commit.files[f].clone() },
            );
            proof {
                assert(keyed_views(out@) =~= prior.push(commit_keyed(*commit)[f as int]));
                assert(commit_keyed(*commit).take(f + 1) =~= commit_keyed(*commit).take(f as int).push(
                    commit_keyed(*commit)[f as int],
                ));
            }
            f += 1;
        }
        proof {
            assert(commit_keyed(*commit).take(commit.files@.len() as int) =~= commit_keyed(*commit));
            assert(start + commits_keyed(pr.commits@, c as int) + commit_keyed(*commit) =~= start
                + commits_keyed(pr.commits@, c + 1));
        }
        c += 1;
    }
}

/// The files that the pull requests touched, each with the kind of the
/// commit that touched it; pull requests that were made up are left out.
pub fn keyed_files(changes: &Vec<FullPr>) -> (r: Vec<KeyedFile>)
    ensures
        keyed_views(r@) == prs_keyed(changes@, changes@.len() as int),
{
    let mut out: Vec<KeyedFile> = Vec::new();
    let mut i: usize = 0;
    assert(keyed_views(out@) =~= prs_keyed(changes@, 0));
    while i < changes.len()
        invariant
            i <= changes.len(),
            keyed_views(out@) == prs_keyed(changes@, i as int),
        decreases changes.len() - i,
    {
        pr_keyed_files(&changes[i], &mut out);
        i += 1;
    }
    out
}

impl<'r> Mono<'r> {
    /// What the plan of this repository is built on.
    pub open spec fn walk(&self, github_info: Option<GithubInfo>) -> Walk {
        Walk { cfg: self.current, history: self.repo.history, gh: github_info }
    }

    /// The files that the pull requests touched, each with the kind of the
    /// commit that touched it; pull requests that were made up are left out.
    pub fn keyed_files(&self, changes: &Vec<FullPr>) -> (r: Vec<KeyedFile>)
        ensures
            keyed_views(r@) == prs_keyed(changes@, changes@.len() as int),
    {
        keyed_files(changes)
    }

    /// Builds the plan for the pull requests `changes`, given in the order
    /// they were discovered in: walks them, carries the bumps along the
    /// dependencies, and orders and deduplicates the changelogs.
    pub fn build_plan(&self, changes: &Vec<FullPr>, github_info: Option<GithubInfo>) -> (r: Result<
        Plan,
        Error,
    >)
        requires
            self.wf(),
        ensures
            match r {
                Ok(plan) => plan.wf() && plan_of(self.walk(github_info), changes@, plan),
                Err(e) => plan_fails(self.walk(github_info), changes@, e),
            },
    {
        build_plan(&self.repo.history, &self.current, github_info, changes)
    }
}

/// Takes up a paused release: the state that was kept, now to be
/// committed without pausing again. The state is to be removed from where
/// it was kept before anything is committed.
///
/// Fails with `MissingPauseFile` exactly when no release is paused.
pub fn resume(kept: Option<CommitState>) -> (r: Result<CommitState, Error>)
    ensures
        match r {
            Ok(state) => kept is Some && state == (CommitState { pause: false, ..kept->0 }) && state@
                == (CommitStateView { pause: false, ..kept->0@ }),
            Err(e) => e == Error::MissingPauseFile && kept is None,
        },
{
    match kept {
        None => Err(Error::MissingPauseFile),
        Some(state) => Ok(CommitState { pause: false, ..state }),
    }
}

/// Pausing and resuming comes to the same as not pausing: the state that a
/// paused release keeps is, once it is resumed, the state that the same
/// release hands over to be committed when it does not pause.
pub proof fn law_resume_is_release(mono: Mono, writes: Seq<WriteView>, kept: CommitState, resumed: CommitState)
    requires
        kept@ == mono.handed_over(writes, true, true),
        resumed == (CommitState { pause: false, ..kept }),
    ensures
        resumed@ == mono.handed_over(writes, true, false),
{
}

/// Gives a paused release up: there has to be one.
///
/// Fails with `MissingPauseFile` exactly when no release is paused.
pub fn abort(paused: bool) -> (r: Result<(), Error>)
    ensures
        r == if paused {
            Ok::<(), Error>(())
        } else {
            Err::<(), Error>(Error::MissingPauseFile)
        },
{
    if paused {
        Ok(())
    } else {
        Err(Error::MissingPauseFile)
    }
}

} // verus!
