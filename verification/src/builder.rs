//! Building a plan out of the pull requests, commits and files of a walk
//! through the history.

use vstd::prelude::*;
use crate::changelog::{
    commit_views, copy_opt, opt_text, pr_views, Changelog, CommitInfo, CommitView, EntryView,
    FullPr, LoggedCommit, LoggedPr, PrView,
};
use crate::config::ConfigFile;
use crate::deps::{
    carry_ok, deps_applied, lemma_carry_bounds, lemma_carry_done, lemma_carry_edge,
    lemma_carry_next, lemma_carry_skip, lemma_carry_start, writes,
};
use crate::error::Error;
use crate::graph::{acyclic, carried, depends_on, is_topo, lemma_topo_acyclic, topo_order, topo_with};
use crate::history::{History, Slicer};
use crate::number::{decimal, decimal_chars};
use crate::plan::{
    lemma_planned_order, place_of, plan_model, planned, slot_views, unused_slots_empty, Plan,
    PlanEntry, PlanInfo, Slot, SlotView,
};
use crate::project::{Project, ProjectId};
use crate::size::Size;
use crate::order::{deduped, is_stable_sort};
use crate::text::{push_range, push_text};
use crate::walk::{built, deps_done, lemma_cover_error, ordered, BuilderView, Walk};

verus! {

/// Where the repository lives on the hosting service.
#[derive(Clone, Debug)]
pub struct GithubInfo {
    pub owner_name: String,
    pub repo_name: String,
}

/// The address of the repository's page.
pub open spec fn repo_address(gh: GithubInfo) -> Seq<char> {
    "https://github.com/"@ + gh.owner_name@ + "/"@ + gh.repo_name@
}

/// The address of a pull request, where the hosting service is known.
pub open spec fn pr_address(gh: Option<GithubInfo>, number: u32) -> Option<Seq<char>> {
    match gh {
        Some(g) => Some(repo_address(g) + "/pull/"@ + decimal(number as nat)),
        None => None,
    }
}

/// The address of a commit, where the hosting service is known.
pub open spec fn commit_address(gh: Option<GithubInfo>, oid: Seq<char>) -> Option<Seq<char>> {
    match gh {
        Some(g) => Some(repo_address(g) + "/commit/"@ + oid),
        None => None,
    }
}

fn repo_url(gh: &GithubInfo) -> (r: String)
    ensures
        r@ == repo_address(*gh),
{
    let mut r = String::new();
    push_text(&mut r, "https://github.com/");
    push_text(&mut r, gh.owner_name.as_str());
    push_text(&mut r, "/");
    push_text(&mut r, gh.repo_name.as_str());
    assert(r@ =~= repo_address(*gh));
    r
}

/// Executable form of [`pr_address`].
pub fn pr_url(gh: &Option<GithubInfo>, number: u32) -> (r: Option<String>)
    ensures
        opt_text(r) == pr_address(*gh, number),
{
    match gh {
        Some(g) => {
            let mut r = repo_url(g);
            push_text(&mut r, "/pull/");
            let d = decimal_chars(number);
            push_range(&mut r, &d, 0, d.len());
            assert(d@.subrange(0, d@.len() as int) =~= d@);
            Some(r)
        },
        None => None,
    }
}

/// Executable form of [`commit_address`].
pub fn commit_url(gh: &Option<GithubInfo>, oid: &str) -> (r: Option<String>)
    ensures
        opt_text(r) == commit_address(*gh, oid@),
{
    match gh {
        Some(g) => {
            let mut r = repo_url(g);
            push_text(&mut r, "/commit/");
            push_text(&mut r, oid);
            Some(r)
        },
        None => None,
    }
}

/// The strongest size among the commits that apply; `None` when none does.
pub open spec fn applied_size(cs: Seq<CommitView>) -> Option<Size>
    decreases cs.len(),
{
    if cs.len() == 0 {
        None
    } else if cs.last().applies {
        match applied_size(cs.drop_last()) {
            Some(s) => Some(s.join(cs.last().size)),
            None => Some(cs.last().size),
        }
    } else {
        applied_size(cs.drop_last())
    }
}

/// The size of a pull request for a project is that of the strongest
/// commit that applies: there is a size exactly when some commit applies,
/// none of those commits is stronger, and one of them has that size.
pub proof fn law_applied_size_is_strongest(cs: Seq<CommitView>)
    ensures
        applied_size(cs) is Some <==> exists|j: int| 0 <= j < cs.len() && (#[trigger] cs[j]).applies,
        applied_size(cs) is Some ==> {
            &&& forall|j: int|
                0 <= j < cs.len() && (#[trigger] cs[j]).applies ==> cs[j].size.at_most(
                    applied_size(cs)->0,
                )
            &&& exists|j: int|
                0 <= j < cs.len() && (#[trigger] cs[j]).applies && cs[j].size == applied_size(cs)->0
        },
    decreases cs.len(),
{
    if cs.len() > 0 {
        let rest = cs.drop_last();
        law_applied_size_is_strongest(rest);
        assert(cs[cs.len() - 1] == cs.last());
        if exists|j: int| 0 <= j < rest.len() && (#[trigger] rest[j]).applies {
            let j = choose|j: int| 0 <= j < rest.len() && (#[trigger] rest[j]).applies;
            assert(cs[j] == rest[j]);
        }
        if exists|j: int| 0 <= j < cs.len() && (#[trigger] cs[j]).applies {
            let j = choose|j: int| 0 <= j < cs.len() && (#[trigger] cs[j]).applies;
            if j < rest.len() {
                assert(rest[j] == cs[j]);
            }
        }
        if applied_size(cs) is Some {
            let m = applied_size(cs)->0;
            assert forall|j: int| 0 <= j < cs.len() && (#[trigger] cs[j]).applies implies cs[j].size.at_most(
                m,
            ) by {
                if j < rest.len() {
                    assert(rest[j] == cs[j]);
                }
            }
            if cs.last().applies && m == cs.last().size {
            } else {
                let j = choose|j: int|
                    0 <= j < rest.len() && (#[trigger] rest[j]).applies && rest[j].size == applied_size(
                        rest,
                    )->0;
                assert(cs[j] == rest[j]);
            }
        }
    }
}

/// Executable form of [`applied_size`].
pub fn applied_size_of(cs: &Vec<LoggedCommit>) -> (r: Option<Size>)
    ensures
        r == applied_size(commit_views(cs@)),
{
    let ghost views = commit_views(cs@);
    let mut r: Option<Size> = None;
    let mut i: usize = 0;
    assert(views.take(0) =~= Seq::<CommitView>::empty());
    while i < cs.len()
        invariant
            i <= cs.len(),
            views == commit_views(cs@),
            r == applied_size(views.take(i as int)),
        decreases cs.len() - i,
    {
        proof {
            let now = views.take(i + 1);
            assert(now.drop_last() =~= views.take(i as int));
            assert(now.last() == cs@[i as int]@);
        }
        if cs[i].applies {
            r = match r {
                Some(s) => Some(s.max(cs[i].size)),
                None => Some(cs[i].size),
            };
        }
        i += 1;
    }
    assert(views.take(cs@.len() as int) =~= views);
    r
}

/// Whether project `id` of the configuration `snap` covers `path`.
pub open spec fn attributed(snap: Seq<Project>, id: ProjectId, path: Seq<char>) -> bool {
    exists|k: int|
        0 <= k < snap.len() && (#[trigger] snap[k]).id == id && snap[k].covers_path(path) == Ok::<
            bool,
            Error,
        >(true)
}

/// Whether, among the projects of `snap` that `current` still has, one
/// cannot say whether it covers `path`, for the reason `e`.
pub open spec fn cover_fails(snap: Seq<Project>, current: ConfigFile, path: Seq<char>, e: Error) -> bool {
    exists|k: int|
        0 <= k < snap.len() && current.has((#[trigger] snap[k]).id) && snap[k].covers_path(path)
            == Err::<bool, Error>(e)
}

/// Whether every project of `snap` that `current` still has can say whether
/// it covers `path`.
pub open spec fn cover_decided(snap: Seq<Project>, current: ConfigFile, path: Seq<char>) -> bool {
    forall|k: int|
        0 <= k < snap.len() && current.has((#[trigger] snap[k]).id) ==> snap[k].covers_path(path) is Ok
}

/// The pull request with its last commit marked as applying, if `hit`.
pub open spec fn with_last_applied(pr: PrView, hit: bool) -> PrView {
    if hit && pr.commits.len() > 0 {
        PrView {
            commits: pr.commits.update(
                pr.commits.len() - 1,
                CommitView { applies: true, ..pr.commits.last() },
            ),
            ..pr
        }
    } else {
        pr
    }
}

/// What a slot turns into when the log `pr` of a finished pull request is
/// merged into it: the plan now speaks of the project, and where a commit
/// of the pull request applies, the slot takes up the pull request and
/// its size.
pub open spec fn merged(slot: SlotView, pr: PrView) -> SlotView {
    match applied_size(pr.commits) {
        Some(s) => SlotView {
            present: true,
            size: slot.size.join(s),
            changelog: slot.changelog.push(EntryView::Pr(pr, s)),
        },
        None => SlotView { present: true, ..slot },
    }
}

/// Whether none of the logs holds a commit that applies.
pub open spec fn touches_none(prs: Seq<PrView>) -> bool {
    forall|i: int| 0 <= i < prs.len() ==> applied_size(#[trigger] prs[i].commits) is None
}

/// The commit that `start_commit` logs for every project.
pub open spec fn logged_commit(commit: CommitInfo, size: Size, url: Option<Seq<char>>) -> CommitView {
    CommitView {
        oid: commit.id@,
        summary: commit.summary@,
        message: commit.message@,
        size,
        applies: false,
        duplicate: false,
        url,
    }
}

/// The pull request with one more commit at its end.
pub open spec fn with_commit(pr: PrView, c: CommitView) -> PrView {
    PrView { commits: pr.commits.push(c), ..pr }
}

/// Builds a plan step by step.
///
/// `on_pr_sizes` holds, while a pull request is open, its log for each
/// project of the current configuration, in the order of the projects;
/// `incrs` holds one slot for each project, in the same order.
pub struct PlanBuilder<'s> {
    pub on_pr_sizes: Vec<LoggedPr>,
    pub on_ineffective: Option<LoggedPr>,
    pub on_commit: Option<CommitInfo>,
    pub prev: Slicer<'s>,
    pub current: &'s ConfigFile,
    pub incrs: Vec<Slot>,
    pub ineffective: Vec<LoggedPr>,
    pub github_info: Option<GithubInfo>,
    pub chain_writes: Vec<(ProjectId, ProjectId)>,
    pub info: PlanInfo,
}

impl<'s> PlanBuilder<'s> {
    /// The number of projects in the current configuration.
    pub open spec fn count(&self) -> int {
        self.current.projects@.len() as int
    }

    /// Whether a pull request is open.
    pub open spec fn on_pr(&self) -> bool {
        self.on_ineffective is Some
    }

    /// What the builder works on.
    pub open spec fn walk(&self) -> Walk {
        Walk { cfg: *self.current, history: *self.prev.history(), gh: self.github_info }
    }

    /// What the builder holds.
    pub open spec fn model(&self) -> BuilderView {
        BuilderView {
            on_pr: pr_views(self.on_pr_sizes@),
            reserve: match self.on_ineffective {
                Some(p) => Some(p@),
                None => None,
            },
            on_commit: match self.on_commit {
                Some(c) => Some(c.id@),
                None => None,
            },
            cursor: match self.prev {
                Slicer::Orig(_) => None,
                Slicer::Slice(_, at) => Some(at),
            },
            slots: slot_views(self.incrs@),
            ineffective: pr_views(self.ineffective@),
            chain_writes: self.chain_writes@,
            failed: self.info.ids(),
        }
    }

    pub open spec fn wf(&self) -> bool {
        &&& self.current.wf()
        &&& self.incrs@.len() == self.count()
        &&& unused_slots_empty(slot_views(self.incrs@))
        &&& self.on_pr_sizes@.len() == if self.on_pr() {
            self.count()
        } else {
            0
        }
        &&& self.on_commit is Some ==> {
            &&& self.on_pr()
            &&& self.prev.snapshot() is Some
            &&& forall|i: int|
                0 <= i < self.count() ==> (#[trigger] self.on_pr_sizes@[i]).commits@.len() > 0
        }
        &&& self.info.wf()
    }

    /// A builder for the projects of `current`, with nothing planned yet.
    pub fn create(repo: &'s History, current: &'s ConfigFile, github_info: Option<GithubInfo>) -> (r:
        PlanBuilder<'s>)
        requires
            current.wf(),
        ensures
            r.wf(),
            r.current == current,
            r.prev == Slicer::Orig(repo),
            r.github_info == github_info,
            !r.on_pr(),
            r.on_commit is None,
            forall|i: int|
                0 <= i < r.count() ==> !(#[trigger] r.incrs@[i]).present && r.incrs@[i].size
                    == Size::Empty && r.incrs@[i].changelog@.len() == 0,
            r.ineffective@.len() == 0,
            r.chain_writes@.len() == 0,
            r.info.failed_commits@.len() == 0,
            r.model() == r.walk().initial(),
    {
        let mut incrs: Vec<Slot> = Vec::new();
        let mut i: usize = 0;
        while i < current.projects.len()
            invariant
                i <= current.projects.len(),
                incrs@.len() == i,
                forall|j: int|
                    0 <= j < i ==> !(#[trigger] incrs@[j]).present && incrs@[j].size == Size::Empty
                        && incrs@[j].changelog@ == Seq::<EntryView>::empty(),
            decreases current.projects.len() - i,
        {
            incrs.push(Slot { present: false, size: Size::Empty, changelog: Changelog::empty() });
            i += 1;
        }
        let r = PlanBuilder {
            on_pr_sizes: Vec::new(),
            on_ineffective: None,
            on_commit: None,
            prev: Slicer::init(repo),
            current,
            incrs,
            ineffective: Vec::new(),
            github_info,
            chain_writes: Vec::new(),
            info: PlanInfo::new(),
        };
        proof {
            let m = r.model();
            let i = r.walk().initial();
            assert(m.on_pr =~= i.on_pr);
            assert(m.slots =~= i.slots);
            assert(m.ineffective =~= i.ineffective);
            assert(m.chain_writes =~= i.chain_writes);
            assert(m.failed =~= i.failed);
        }
        r
    }

    /// Opens a pull request: an empty log of it for every project, and one
    /// more to keep in case it touches none. A pull request that was still
    /// open is dropped.
    pub fn start_pr(&mut self, pr: &FullPr) -> (r: Result<(), Error>)
        requires
            old(self).wf(),
        ensures
            r is Ok,
            final(self).wf(),
            final(self).on_pr_sizes@.len() == final(self).count(),
            forall|i: int|
                0 <= i < final(self).count() ==> (#[trigger] final(self).on_pr_sizes@[i])@
                    == captured(*pr, old(self).github_info),
            final(self).on_ineffective is Some && final(self).on_ineffective->0@ == captured(
                *pr,
                old(self).github_info,
            ),
            final(self).on_commit is None,
            final(self).prev == old(self).prev,
            final(self).current == old(self).current,
            final(self).incrs == old(self).incrs,
            final(self).ineffective == old(self).ineffective,
            final(self).github_info == old(self).github_info,
            final(self).chain_writes == old(self).chain_writes,
            final(self).info == old(self).info,
            final(self).model() == old(self).walk().started_pr(old(self).model(), *pr),
    {
        let url = pr_url(&self.github_info, pr.number());
        let mut logs: Vec<LoggedPr> = Vec::new();
        let n: usize = self.current.projects.len();
        let mut i: usize = 0;
        while i < n
            invariant
                i <= n,
                logs@.len() == i,
                opt_text(url) == pr_address(self.github_info, pr.number),
                forall|j: int| 0 <= j < i ==> (#[trigger] logs@[j])@ == captured(*pr, self.github_info),
            decreases n - i,
        {
            logs.push(LoggedPr::capture(pr, copy_opt(&url)));
            i += 1;
        }
        self.on_pr_sizes = logs;
        self.on_ineffective = Some(LoggedPr::capture(pr, url));
        self.on_commit = None;
        proof {
            let m = self.model();
            let t = old(self).walk().started_pr(old(self).model(), *pr);
            assert(m.on_pr =~= t.on_pr);
        }
        Ok(())
    }

    /// Logs a commit of the open pull request for every project, with the
    /// size that the current configuration gives to its kind, and moves the
    /// history to the commit. A commit whose size is `Failure` is recorded
    /// among the failed commits.
    ///
    /// Fails, and changes nothing, outside a pull request and where the
    /// history has no readable configuration for the commit.
    #[verifier::loop_isolation(false)]
    pub fn start_commit(&mut self, commit: &CommitInfo) -> (r: Result<(), Error>)
        requires
            old(self).wf(),
        ensures
            final(self).wf(),
            final(self).walk() == old(self).walk(),
            match r {
                Ok(()) => old(self).walk().started_commit(old(self).model(), *commit) == Ok::<
                    BuilderView,
                    Error,
                >(final(self).model()),
                Err(e) => old(self).walk().started_commit(old(self).model(), *commit) == Err::<
                    BuilderView,
                    Error,
                >(e),
            },
            match r {
                Ok(()) => {
                    let size = old(self).current.sizes.size_of(opt_text(commit.kind));
                    let url = commit_address(old(self).github_info, commit.id@);
                    &&& old(self).on_pr()
                    &&& old(self).prev.target(commit.id@) is Ok
                    &&& final(self).prev == Slicer::Slice(
                        old(self).prev.history(),
                        old(self).prev.target(commit.id@)->Ok_0,
                    )
                    &&& final(self).on_pr_sizes@.len() == old(self).on_pr_sizes@.len()
                    &&& forall|i: int|
                        0 <= i < old(self).count() ==> (#[trigger] final(self).on_pr_sizes@[i])@
                            == with_commit(old(self).on_pr_sizes@[i]@, logged_commit(*commit, size, url))
                    &&& final(self).on_commit is Some
                    &&& final(self).on_commit->0.id@ == commit.id@
                    &&& if size == Size::Failure && old(self).count() > 0 && !old(self).info.holds(
                        commit.id@,
                    ) {
                        final(self).info.ids() == old(self).info.ids().insert(
                            crate::plan::rank_of(old(self).info.ids(), commit.id@),
                            commit.id@,
                        )
                    } else {
                        final(self).info == old(self).info
                    }
                    &&& final(self).on_ineffective == old(self).on_ineffective
                    &&& final(self).current == old(self).current
                    &&& final(self).incrs == old(self).incrs
                    &&& final(self).ineffective == old(self).ineffective
                    &&& final(self).github_info == old(self).github_info
                    &&& final(self).chain_writes == old(self).chain_writes
                },
                Err(e) => {
                    &&& *final(self) == *old(self)
                    &&& if !old(self).on_pr() {
                        e == Error::NotOnPr
                    } else {
                        old(self).prev.target(commit.id@) == Err::<usize, Error>(e)
                    }
                },
            },
    {
        if self.on_ineffective.is_none() {
            return Err(Error::NotOnPr);
        }
        match self.prev.slice_to(commit.id()) {
            Err(e) => {
                return Err(e);
            },
            Ok(()) => {},
        }
        let size = self.current.sizes.size_for(&commit.kind);
        let url = commit_url(&self.github_info, commit.id());
        let ghost view = logged_commit(*commit, size, opt_text(url));
        let n: usize = self.current.projects.len();
        let mut i: usize = 0;
        while i < n
            invariant
                i <= n,
                n == self.count(),
                self.on_pr_sizes@.len() == n,
                view == logged_commit(*commit, size, opt_text(url)),
                forall|j: int|
                    0 <= j < i ==> (#[trigger] self.on_pr_sizes@[j])@ == with_commit(
                        old(self).on_pr_sizes@[j]@,
                        view,
                    ),
                forall|j: int| i <= j < n ==> #[trigger] self.on_pr_sizes@[j] == old(self).on_pr_sizes@[j],
                self.on_ineffective == old(self).on_ineffective,
                self.current == old(self).current,
                self.incrs == old(self).incrs,
                self.ineffective == old(self).ineffective,
                self.github_info == old(self).github_info,
                self.chain_writes == old(self).chain_writes,
                self.info == old(self).info,
                self.on_commit == old(self).on_commit,
                self.prev == Slicer::Slice(
                    old(self).prev.history(),
                    old(self).prev.target(commit.id@)->Ok_0,
                ),
            decreases n - i,
        {
            let logged = LoggedCommit::new(
                commit.id.clone(),
                commit.summary.clone(),
                commit.message.clone(),
                size,
                copy_opt(&url),
            );
            let ghost before = self.on_pr_sizes@;
            self.on_pr_sizes[i].commits.push(logged);
            proof {
                assert(forall|j: int| 0 <= j < n && j != i ==> self.on_pr_sizes@[j] == before[j]);
                assert(self.on_pr_sizes@[i as int]@.commits =~= before[i as int]@.commits.push(view));
            }
            i += 1;
        }
        if size.is_failure() && n > 0 {
            let failure = commit.replicate();
            self.info.add_failed_commit(failure);
        }
        proof {
            assert forall|j: int| 0 <= j < n implies (#[trigger] self.on_pr_sizes@[j]).commits@.len()
                > 0 by {
                assert(self.on_pr_sizes@[j]@.commits.len() == self.on_pr_sizes@[j].commits@.len());
            }
        }
        self.on_commit = Some(commit.replicate());
        proof {
            let m = self.model();
            let t = old(self).walk().started_commit(old(self).model(), *commit)->Ok_0;
            assert(m.on_pr =~= t.on_pr);
            assert(m.failed == t.failed);
        }
        Ok(())
    }

    /// Attributes a file of the commit at hand: for every project that the
    /// configuration at that commit has, that the current configuration still
    /// has, and that covered the path then, the commit now applies.
    ///
    /// Fails, and changes nothing, outside a commit and where such a project
    /// cannot say whether it covers the path.
    #[verifier::loop_isolation(false)]
    pub fn start_file(&mut self, path: &str) -> (r: Result<(), Error>)
        requires
            old(self).wf(),
        ensures
            final(self).wf(),
            final(self).walk() == old(self).walk(),
            match r {
                Ok(()) => old(self).walk().started_file(old(self).model(), path@) == Ok::<
                    BuilderView,
                    Error,
                >(final(self).model()),
                Err(e) => old(self).walk().started_file(old(self).model(), path@) == Err::<
                    BuilderView,
                    Error,
                >(e),
            },
            match r {
                Ok(()) => {
                    let snap = old(self).prev.snapshot()->0.projects@;
                    &&& old(self).on_commit is Some
                    &&& cover_decided(snap, *old(self).current, path@)
                    &&& final(self).on_pr_sizes@.len() == old(self).on_pr_sizes@.len()
                    &&& forall|i: int|
                        0 <= i < old(self).count() ==> (#[trigger] final(self).on_pr_sizes@[i])@
                            == with_last_applied(
                            old(self).on_pr_sizes@[i]@,
                            attributed(snap, old(self).current.projects@[i].id, path@),
                        )
                    &&& final(self).on_ineffective == old(self).on_ineffective
                    &&& final(self).on_commit == old(self).on_commit
                    &&& final(self).prev == old(self).prev
                    &&& final(self).current == old(self).current
                    &&& final(self).incrs == old(self).incrs
                    &&& final(self).ineffective == old(self).ineffective
                    &&& final(self).github_info == old(self).github_info
                    &&& final(self).chain_writes == old(self).chain_writes
                    &&& final(self).info == old(self).info
                },
                Err(e) => {
                    &&& *final(self) == *old(self)
                    &&& if old(self).on_commit is None {
                        e == Error::NotOnCommit
                    } else {
                        cover_fails(
                            old(self).prev.snapshot()->0.projects@,
                            *old(self).current,
                            path@,
                            e,
                        )
                    }
                },
            },
    {
        if self.on_commit.is_none() {
            return Err(Error::NotOnCommit);
        }
        let prev = self.prev;
        let file = match prev.file() {
            Ok(f) => f,
            Err(e) => {
                return Err(e);
            },
        };
        let ghost snap = file.projects@;
        let current = self.current;
        let n: usize = current.projects.len();
        let mut hits: Vec<bool> = Vec::new();
        let mut i: usize = 0;
        while i < n
            invariant
                i <= n,
                hits@.len() == i,
                forall|j: int| 0 <= j < i ==> !hits@[j],
            decreases n - i,
        {
            hits.push(false);
            i += 1;
        }
        let mut k: usize = 0;
        while k < file.projects.len()
            invariant
                k <= file.projects.len(),
                hits@.len() == n,
                forall|j: int|
                    0 <= j < n ==> hits@[j] == attributed(
                        snap.take(k as int),
                        current.projects@[j].id,
                        path@,
                    ),
                cover_decided(snap.take(k as int), *current, path@),
            decreases file.projects.len() - k,
        {
            let q = &file.projects[k];
            let ghost before = snap.take(k as int);
            let ghost after = snap.take(k + 1);
            let ghost hits0 = hits@;
            assert(after[k as int] == snap[k as int]);
            assert(forall|j: int| 0 <= j < k ==> before[j] == after[j]);
            let mut hit: Option<usize> = None;
            match current.position(&q.id) {
                Some(p) => {
                    match q.does_cover(path) {
                        Err(e) => {
                            assert(cover_fails(snap, *current, path@, e));
                            proof {
                                lemma_cover_error(snap, *current, path@, e);
                            }
                            return Err(e);
                        },
                        Ok(true) => {
                            hits[p] = true;
                            hit = Some(p);
                        },
                        Ok(false) => {},
                    }
                },
                None => {},
            }
            proof {
                assert forall|j: int| 0 <= j < n implies hits@[j] == attributed(
                    after,
                    current.projects@[j].id,
                    path@,
                ) by {
                    let id = current.projects@[j].id;
                    if attributed(before, id, path@) {
                        let w = choose|w: int|
                            0 <= w < before.len() && (#[trigger] before[w]).id == id
                                && before[w].covers_path(path@) == Ok::<bool, Error>(true);
                        assert(after[w].id == id);
                    }
                    if attributed(after, id, path@) && !attributed(before, id, path@) {
                        let w = choose|w: int|
                            0 <= w < after.len() && (#[trigger] after[w]).id == id
                                && after[w].covers_path(path@) == Ok::<bool, Error>(true);
                        if w < k {
                            assert(before[w].id == id);
                        }
                        assert(w == k);
                    }
                    if hit == Some(j as usize) {
                        assert(after[k as int].id == id);
                    }
                    if hit is Some && hit->0 != j {
                        assert(current.projects@[hit->0 as int].id == q.id);
                        assert(hits@[j] == hits0[j]);
                    }
                }
                assert forall|w: int|
                    0 <= w < after.len() && current.has((#[trigger] after[w]).id) implies after[w].covers_path(
                    path@,
                ) is Ok by {
                    if w < k {
                        assert(before[w] == after[w]);
                    }
                }
            }
            k += 1;
        }
        assert(snap.take(snap.len() as int) =~= snap);
        let mut i: usize = 0;
        while i < n
            invariant
                i <= n,
                self.on_pr_sizes@.len() == n,
                forall|j: int|
                    0 <= j < i ==> (#[trigger] self.on_pr_sizes@[j])@ == with_last_applied(
                        old(self).on_pr_sizes@[j]@,
                        hits@[j],
                    ),
                forall|j: int| i <= j < n ==> #[trigger] self.on_pr_sizes@[j] == old(self).on_pr_sizes@[j],
                forall|j: int| 0 <= j < n ==> (#[trigger] self.on_pr_sizes@[j]).commits@.len() > 0,
                self.on_ineffective == old(self).on_ineffective,
                self.on_commit == old(self).on_commit,
                self.prev == old(self).prev,
                self.current == old(self).current,
                self.incrs == old(self).incrs,
                self.ineffective == old(self).ineffective,
                self.github_info == old(self).github_info,
                self.chain_writes == old(self).chain_writes,
                self.info == old(self).info,
            decreases n - i,
        {
            if hits[i] {
                let ghost before = self.on_pr_sizes@;
                let m: usize = self.on_pr_sizes[i].commits.len();
                self.on_pr_sizes[i].commits[m - 1].applies = true;
                proof {
                    assert(forall|j: int| 0 <= j < n && j != i ==> self.on_pr_sizes@[j] == before[j]);
                    let was = before[i as int]@;
                    assert(was.commits.len() == m);
                    assert(self.on_pr_sizes@[i as int]@.commits =~= was.commits.update(
                        m - 1,
                        CommitView { applies: true, ..was.commits.last() },
                    ));
                }
            }
            i += 1;
        }
        proof {
            let m = self.model();
            let t = old(self).walk().started_file(old(self).model(), path@)->Ok_0;
            assert(old(self).walk().snap(old(self).model()) == snap);
            assert(m.on_pr =~= t.on_pr);
        }
        Ok(())
    }

    /// Closes the pull request. The plan from now on speaks of every
    /// project. Each project with a commit that applies takes the pull
    /// request into its changelog, with the strongest size among those
    /// commits, and grows to that size if it was smaller. A pull request
    /// with no such commit for any project goes to the ineffective ones.
    ///
    /// Fails, and changes nothing, when no pull request is open.
    #[verifier::loop_isolation(false)]
    pub fn finish_pr(&mut self) -> (r: Result<(), Error>)
        requires
            old(self).wf(),
        ensures
            final(self).wf(),
            final(self).walk() == old(self).walk(),
            match r {
                Ok(()) => old(self).walk().finished_pr(old(self).model()) == Ok::<BuilderView, Error>(
                    final(self).model(),
                ),
                Err(e) => old(self).walk().finished_pr(old(self).model()) == Err::<BuilderView, Error>(
                    e,
                ),
            },
            match r {
                Ok(()) => {
                    &&& old(self).on_pr()
                    &&& final(self).incrs@.len() == old(self).incrs@.len()
                    &&& forall|i: int|
                        0 <= i < old(self).count() ==> (#[trigger] final(self).incrs@[i])@ == merged(
                            old(self).incrs@[i]@,
                            old(self).on_pr_sizes@[i]@,
                        )
                    &&& pr_views(final(self).ineffective@) == if touches_none(
                        pr_views(old(self).on_pr_sizes@),
                    ) {
                        pr_views(old(self).ineffective@).push(old(self).on_ineffective->0@)
                    } else {
                        pr_views(old(self).ineffective@)
                    }
                    &&& final(self).on_pr_sizes@.len() == 0
                    &&& final(self).on_ineffective is None
                    &&& final(self).on_commit is None
                    &&& final(self).prev == old(self).prev
                    &&& final(self).current == old(self).current
                    &&& final(self).github_info == old(self).github_info
                    &&& final(self).chain_writes == old(self).chain_writes
                    &&& final(self).info == old(self).info
                },
                Err(e) => e == Error::NotOnPr && !old(self).on_pr() && *final(self) == *old(self),
            },
    {
        let mut kept: Option<LoggedPr> = None;
        std::mem::swap(&mut kept, &mut self.on_ineffective);
        let reserve = match kept {
            Some(p) => p,
            None => {
                return Err(Error::NotOnPr);
            },
        };
        let mut logs: Vec<LoggedPr> = Vec::new();
        std::mem::swap(&mut logs, &mut self.on_pr_sizes);
        self.on_commit = None;
        let ghost all = logs@;
        let ghost slots = self.incrs@;
        let n: usize = self.incrs.len();
        let mut found = false;
        let mut i: usize = 0;
        for logged in it: logs
            invariant
                i == it.index(),
                it.seq() == all,
                all.len() == n,
                self.incrs@.len() == n,
                forall|j: int| 0 <= j < i ==> (#[trigger] self.incrs@[j])@ == merged(slots[j]@, all[j]@),
                forall|j: int| i <= j < n ==> #[trigger] self.incrs@[j] == slots[j],
                found == !touches_none(pr_views(all.take(i as int))),
                self.on_pr_sizes@.len() == 0,
                self.on_ineffective is None,
                self.on_commit is None,
                self.prev == old(self).prev,
                self.current == old(self).current,
                self.ineffective == old(self).ineffective,
                self.github_info == old(self).github_info,
                self.chain_writes == old(self).chain_writes,
                self.info == old(self).info,
        {
            let ghost before = self.incrs@;
            let ghost pre = pr_views(all.take(i as int));
            let ghost post = pr_views(all.take(i + 1));
            assert(logged == all[i as int]);
            let size = applied_size_of(&logged.commits);
            self.incrs[i].present = true;
            match size {
                Some(s) => {
                    found = true;
                    self.incrs[i].size = self.incrs[i].size.max(s);
                    self.incrs[i].changelog.add_entry(logged, s);
                },
                None => {},
            }
            proof {
                assert(forall|j: int| 0 <= j < n && j != i ==> self.incrs@[j] == before[j]);
                assert(post[i as int] == all[i as int]@);
                assert(forall|j: int| 0 <= j < i ==> pre[j] == post[j]);
                if !touches_none(pre) {
                    let w = choose|w: int|
                        0 <= w < pre.len() && !(applied_size(#[trigger] pre[w].commits) is None);
                    assert(!(applied_size(post[w].commits) is None));
                }
                if !touches_none(post) && size is None {
                    let w = choose|w: int|
                        0 <= w < post.len() && !(applied_size(#[trigger] post[w].commits) is None);
                    assert(!(applied_size(pre[w].commits) is None));
                }
            }
            i += 1;
        }
        proof {
            assert(all.take(all.len() as int) =~= all);
        }
        if !found {
            let ghost was = pr_views(self.ineffective@);
            self.ineffective.push(reserve);
            assert(pr_views(self.ineffective@) =~= was.push(reserve@));
        }
        proof {
            let m = self.model();
            let t = old(self).walk().finished_pr(old(self).model())->Ok_0;
            assert(m.on_pr =~= t.on_pr);
            assert(m.slots =~= t.slots);
        }
        Ok(())
    }

    /// Puts every changelog in display order, marks the commits that a
    /// changelog holds more than once, and resizes the pull requests.
    pub fn sort_and_dedup(&mut self) -> (r: Result<(), Error>)
        requires
            old(self).wf(),
        ensures
            r is Ok,
            final(self).wf(),
            final(self).walk() == old(self).walk(),
            ordered(old(self).model(), final(self).model()),
            final(self).incrs@.len() == old(self).incrs@.len(),
            forall|i: int|
                0 <= i < old(self).incrs@.len() ==> {
                    &&& (#[trigger] final(self).incrs@[i]).present == old(self).incrs@[i].present
                    &&& final(self).incrs@[i].size == old(self).incrs@[i].size
                    &&& final(self).incrs@[i].changelog@.len() == old(self).incrs@[i].changelog@.len()
                    &&& exists|sorted: Seq<EntryView>|
                        is_stable_sort(sorted, old(self).incrs@[i].changelog@) && final(self).incrs@[i].changelog@ == deduped(sorted)
                },
            final(self).on_pr_sizes == old(self).on_pr_sizes,
            final(self).on_ineffective == old(self).on_ineffective,
            final(self).on_commit == old(self).on_commit,
            final(self).prev == old(self).prev,
            final(self).current == old(self).current,
            final(self).ineffective == old(self).ineffective,
            final(self).github_info == old(self).github_info,
            final(self).chain_writes == old(self).chain_writes,
            final(self).info == old(self).info,
    {
        let n: usize = self.incrs.len();
        let mut i: usize = 0;
        while i < n
            invariant
                i <= n,
                self.incrs@.len() == n,
                n == old(self).incrs@.len(),
                forall|j: int|
                    0 <= j < i ==> {
                        &&& (#[trigger] self.incrs@[j]).present == old(self).incrs@[j].present
                        &&& self.incrs@[j].size == old(self).incrs@[j].size
                        &&& self.incrs@[j].changelog@.len() == old(self).incrs@[j].changelog@.len()
                        &&& exists|sorted: Seq<EntryView>|
                            is_stable_sort(sorted, old(self).incrs@[j].changelog@)
                                && self.incrs@[j].changelog@ == deduped(sorted)
                    },
                forall|j: int| i <= j < n ==> #[trigger] self.incrs@[j] == old(self).incrs@[j],
                self.on_pr_sizes == old(self).on_pr_sizes,
                self.on_ineffective == old(self).on_ineffective,
                self.on_commit == old(self).on_commit,
                self.prev == old(self).prev,
                self.current == old(self).current,
                self.ineffective == old(self).ineffective,
                self.github_info == old(self).github_info,
                self.chain_writes == old(self).chain_writes,
                self.info == old(self).info,
            decreases n - i,
        {
            let ghost before = self.incrs@;
            self.incrs[i].changelog.sort_and_dedup();
            assert(forall|j: int| 0 <= j < n && j != i ==> self.incrs@[j] == before[j]);
            i += 1;
        }
        proof {
            let now = slot_views(self.incrs@);
            let was = slot_views(old(self).incrs@);
            assert forall|j: int| 0 <= j < now.len() && !(#[trigger] now[j]).present implies now[j].size
                == Size::Empty && now[j].changelog.len() == 0 by {
                assert(self.incrs@[j].present == old(self).incrs@[j].present);
                assert(!was[j].present);
            }
        }
        Ok(())
    }

    /// Carries the bumps along the dependencies: every project is taken
    /// after the projects it depends on, and each project that depends on
    /// it grows to what its size amounts to over the edge and notes the
    /// upstream project in its changelog, unless that is `Empty`. Every
    /// edge is recorded among the chain writes.
    ///
    /// Fails with `DependencyCycle`, and changes nothing, exactly when the
    /// dependencies form a cycle.
    pub fn handle_deps(&mut self) -> (r: Result<(), Error>)
        requires
            old(self).wf(),
        ensures
            final(self).wf(),
            final(self).walk() == old(self).walk(),
            r is Ok ==> deps_done(*old(self).current, old(self).model(), final(self).model()),
            match r {
                Ok(()) => {
                    &&& acyclic(*old(self).current)
                    &&& exists|order: Seq<usize>|
                        {
                            &&& is_topo(*old(self).current, order)
                            &&& deps_applied(
                                *old(self).current,
                                order,
                                slot_views(old(self).incrs@),
                                slot_views(final(self).incrs@),
                            )
                            &&& final(self).chain_writes@ == old(self).chain_writes@ + writes(
                                *old(self).current,
                                order,
                                order.len() as int,
                            )
                        }
                    &&& final(self).on_pr_sizes == old(self).on_pr_sizes
                    &&& final(self).on_ineffective == old(self).on_ineffective
                    &&& final(self).on_commit == old(self).on_commit
                    &&& final(self).prev == old(self).prev
                    &&& final(self).current == old(self).current
                    &&& final(self).ineffective == old(self).ineffective
                    &&& final(self).github_info == old(self).github_info
                    &&& final(self).info == old(self).info
                },
                Err(e) => e == Error::DependencyCycle && !acyclic(*old(self).current) && *final(self)
                    == *old(self),
            },
    {
        let current = self.current;
        let order = match topo_order(current) {
            Some(o) => o,
            None => {
                return Err(Error::DependencyCycle);
            },
        };
        let ghost pos = choose|pos: Seq<int>| topo_with(*current, order@, pos);
        let ghost before = slot_views(self.incrs@);
        let ghost chain0 = self.chain_writes@;
        proof {
            lemma_topo_acyclic(*current, order@);
            lemma_carry_start(*current, order@, pos, before, chain0);
        }
        let n: usize = current.projects.len();
        let mut p: usize = 0;
        while p < order.len()
            invariant
                n == current.projects@.len(),
                self.incrs@.len() == n,
                p <= order@.len(),
                carry_ok(
                    *current,
                    order@,
                    pos,
                    p as int,
                    0,
                    before,
                    slot_views(self.incrs@),
                    chain0,
                    self.chain_writes@,
                ),
                self.on_pr_sizes == old(self).on_pr_sizes,
                self.on_ineffective == old(self).on_ineffective,
                self.on_commit == old(self).on_commit,
                self.prev == old(self).prev,
                self.current == old(self).current,
                self.ineffective == old(self).ineffective,
                self.github_info == old(self).github_info,
                self.info == old(self).info,
            decreases order@.len() - p,
        {
            proof {
                lemma_carry_bounds(
                    *current,
                    order@,
                    pos,
                    p as int,
                    0,
                    before,
                    slot_views(self.incrs@),
                    chain0,
                    self.chain_writes@,
                );
            }
            let u: usize = order[p];
            let size = self.incrs[u].size;
            let mut d: usize = 0;
            while d < n
                invariant
                    n == current.projects@.len(),
                    self.incrs@.len() == n,
                    p < order@.len(),
                    u == order@[p as int],
                    u < n,
                    d <= n,
                    size == self.incrs@[u as int].size,
                    carry_ok(
                        *current,
                        order@,
                        pos,
                        p as int,
                        d as int,
                        before,
                        slot_views(self.incrs@),
                        chain0,
                        self.chain_writes@,
                    ),
                    self.on_pr_sizes == old(self).on_pr_sizes,
                    self.on_ineffective == old(self).on_ineffective,
                    self.on_commit == old(self).on_commit,
                    self.prev == old(self).prev,
                    self.current == old(self).current,
                    self.ineffective == old(self).ineffective,
                    self.github_info == old(self).github_info,
                    self.info == old(self).info,
                decreases n - d,
            {
                let ghost now = slot_views(self.incrs@);
                let ghost slots = self.incrs@;
                let ghost chain = self.chain_writes@;
                match depends_on(current, u, d) {
                    Some(mapper) => {
                        let conv = mapper.convert(size);
                        if conv != Size::Empty {
                            self.incrs[d].present = true;
                            self.incrs[d].size = self.incrs[d].size.max(conv);
                            self.incrs[d].changelog.add_dep(
                                current.projects[u].id,
                                current.projects[u].name(),
                            );
                        }
                        self.chain_writes.push((current.projects[u].id, current.projects[d].id));
                        proof {
                            let next = slot_views(self.incrs@);
                            assert(forall|x: int| 0 <= x < n && x != d ==> self.incrs@[x] == slots[x]);
                            assert(now[u as int].size == size);
                            assert(conv == carried(*current, u as int, d as int, now[u as int].size));
                            lemma_carry_edge(
                                *current,
                                order@,
                                pos,
                                p as int,
                                d as int,
                                before,
                                now,
                                chain0,
                                chain,
                                next,
                            );
                        }
                    },
                    None => {
                        proof {
                            lemma_carry_skip(
                                *current,
                                order@,
                                pos,
                                p as int,
                                d as int,
                                before,
                                now,
                                chain0,
                                chain,
                            );
                        }
                    },
                }
                d += 1;
            }
            proof {
                lemma_carry_next(
                    *current,
                    order@,
                    pos,
                    p as int,
                    before,
                    slot_views(self.incrs@),
                    chain0,
                    self.chain_writes@,
                );
            }
            p += 1;
        }
        proof {
            lemma_carry_done(
                *current,
                order@,
                pos,
                before,
                slot_views(self.incrs@),
                chain0,
                self.chain_writes@,
            );
        }
        Ok(())
    }

    /// The plan as it stands: an entry for each project that the plan
    /// speaks of, in the order of the configuration.
    pub fn build(self) -> (plan: Plan)
        requires
            self.wf(),
        ensures
            plan.wf(),
            plan_model(plan.incrs@) == planned(
                project_ids(self.current.projects@),
                slot_views(self.incrs@),
                self.incrs@.len() as int,
            ),
            plan.ineffective == self.ineffective,
            plan.chain_writes == self.chain_writes,
            plan.info == self.info,
            built(*self.current, self.model(), plan),
    {
        let ghost ids = project_ids(self.current.projects@);
        let ghost slots = slot_views(self.incrs@);
        let ghost all = self.incrs@;
        let current = self.current;
        let n: usize = self.incrs.len();
        let mut incrs: Vec<PlanEntry> = Vec::new();
        let mut i: usize = 0;
        for slot in it: self.incrs
            invariant
                i == it.index(),
                it.seq() == all,
                n == all.len(),
                n == current.projects@.len(),
                ids == project_ids(current.projects@),
                slots == slot_views(all),
                plan_model(incrs@) == planned(ids, slots, i as int),
        {
            let ghost before = plan_model(incrs@);
            assert(slot == all[i as int]);
            assert(slots[i as int] == slot@);
            if slot.present {
                incrs.push(PlanEntry { id: current.projects[i].id, size: slot.size, changelog: slot.changelog });
                assert(plan_model(incrs@) =~= before.push((ids[i as int], slot@.size, slot@.changelog)));
            }
            i += 1;
        }
        proof {
            assert forall|a: int, b: int| 0 <= a < b < incrs@.len() implies (#[trigger] incrs@[a]).id != (
            #[trigger] incrs@[b]).id by {
                lemma_planned_order(ids, slots, n as int, a, b);
                assert(plan_model(incrs@)[a].0 == incrs@[a].id);
                assert(plan_model(incrs@)[b].0 == incrs@[b].id);
                let k = place_of(ids, slots, n as int, a);
                let l = place_of(ids, slots, n as int, b);
                assert(current.projects@[k].id != current.projects@[l].id);
            }
        }
        Plan { incrs, ineffective: self.ineffective, chain_writes: self.chain_writes, info: self.info }
    }

    pub fn finish_commit(&mut self) -> (r: Result<(), Error>)
        ensures
            r is Ok,
            *final(self) == *old(self),
    {
        Ok(())
    }

    pub fn finish_file(&mut self) -> (r: Result<(), Error>)
        ensures
            r is Ok,
            *final(self) == *old(self),
    {
        Ok(())
    }
}

/// The identifiers of a run of projects.
pub open spec fn project_ids(projects: Seq<Project>) -> Seq<ProjectId> {
    Seq::new(projects.len(), |i: int| projects[i].id)
}

/// The log of `pr` before any commit is logged in it.
pub open spec fn captured(pr: FullPr, gh: Option<GithubInfo>) -> PrView {
    PrView {
        number: pr.number,
        title: pr.title@,
        closed_at: pr.closed_at,
        discovery_order: pr.discovery_order,
        commits: Seq::empty(),
        url: pr_address(gh, pr.number),
    }
}

} // verus!
