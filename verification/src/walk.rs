//! Planning as a walk through pull requests, commits and files: what each
//! step makes of the state of the builder, and the plan that the whole walk
//! comes to.

use vstd::prelude::*;
use crate::builder::{
    applied_size, attributed, captured, commit_address, cover_decided, cover_fails, logged_commit,
    merged, project_ids, touches_none, with_commit, with_last_applied, GithubInfo, PlanBuilder,
};
use crate::changelog::{opt_text, pr_views, CommitInfo, EntryView, FullPr, PrView};
use crate::config::ConfigFile;
use crate::deps::{deps_applied, writes};
use crate::error::Error;
use crate::graph::{acyclic, is_topo};
use crate::history::{History, Slicer};
use crate::order::{deduped, is_stable_sort};
use crate::plan::{plan_model, planned, Plan, SlotView};
use crate::project::{Project, ProjectId};
use crate::size::Size;

verus! {

/// What a [`PlanBuilder`] holds, as plain values.
pub struct BuilderView {
    /// The log of the open pull request for each project; empty when none
    /// is open.
    pub on_pr: Seq<PrView>,
    /// The log that is kept in case the pull request touches no project.
    pub reserve: Option<PrView>,
    /// The identifier of the commit at hand.
    pub on_commit: Option<Seq<char>>,
    /// The snapshot that the history stands at.
    pub cursor: Option<usize>,
    pub slots: Seq<SlotView>,
    pub ineffective: Seq<PrView>,
    pub chain_writes: Seq<(ProjectId, ProjectId)>,
    /// The identifiers of the failed commits.
    pub failed: Seq<Seq<char>>,
}

/// What a builder works on and does not change: the current
/// configuration, the history and the place of the repository on the
/// hosting service.
pub struct Walk {
    pub cfg: ConfigFile,
    pub history: History,
    pub gh: Option<GithubInfo>,
}

impl Walk {
    /// The number of projects in the current configuration.
    pub open spec fn count(self) -> nat {
        self.cfg.projects@.len()
    }

    /// The builder that has planned nothing yet.
    pub open spec fn initial(self) -> BuilderView {
        BuilderView {
            on_pr: Seq::empty(),
            reserve: None,
            on_commit: None,
            cursor: None,
            slots: Seq::new(
                self.count(),
                |i: int| SlotView { present: false, size: Size::Empty, changelog: Seq::empty() },
            ),
            ineffective: Seq::empty(),
            chain_writes: Seq::empty(),
            failed: Seq::empty(),
        }
    }

    /// The projects of the configuration that the history stands at.
    pub open spec fn snap(self, v: BuilderView) -> Seq<Project> {
        self.history.snapshots@[v.cursor->0 as int].file->0.projects@
    }

    /// The builder after a pull request has been opened.
    pub open spec fn started_pr(self, v: BuilderView, pr: FullPr) -> BuilderView {
        BuilderView {
            on_pr: Seq::new(self.count(), |i: int| captured(pr, self.gh)),
            reserve: Some(captured(pr, self.gh)),
            on_commit: None,
            ..v
        }
    }

    /// The builder after a commit has been logged, or why it cannot be.
    pub open spec fn started_commit(self, v: BuilderView, commit: CommitInfo) -> Result<
        BuilderView,
        Error,
    > {
        if v.reserve is None {
            Err(Error::NotOnPr)
        } else {
            match Slicer::Orig(&self.history).target(commit.id@) {
                Err(e) => Err(e),
                Ok(at) => {
                    let size = self.cfg.sizes.size_of(opt_text(commit.kind));
                    let logged = logged_commit(commit, size, commit_address(self.gh, commit.id@));
                    Ok(
                        BuilderView {
                            on_pr: Seq::new(v.on_pr.len(), |i: int| with_commit(v.on_pr[i], logged)),
                            on_commit: Some(commit.id@),
                            cursor: Some(at),
                            failed: if size == Size::Failure && self.count() > 0 && !v.failed.contains(
                                commit.id@,
                            ) {
                                v.failed.insert(crate::plan::rank_of(v.failed, commit.id@), commit.id@)
                            } else {
                                v.failed
                            },
                            ..v
                        },
                    )
                },
            }
        }
    }

    /// The builder after a file has been attributed, or why it cannot be.
    pub open spec fn started_file(self, v: BuilderView, path: Seq<char>) -> Result<BuilderView, Error> {
        if v.on_commit is None {
            Err(Error::NotOnCommit)
        } else if !cover_decided(self.snap(v), self.cfg, path) {
            Err(cover_error(path))
        } else {
            Ok(
                BuilderView {
                    on_pr: Seq::new(
                        v.on_pr.len(),
                        |i: int|
                            with_last_applied(
                                v.on_pr[i],
                                attributed(self.snap(v), self.cfg.projects@[i].id, path),
                            ),
                    ),
                    ..v
                },
            )
        }
    }

    /// The builder after the pull request has been closed, or why it
    /// cannot be.
    pub open spec fn finished_pr(self, v: BuilderView) -> Result<BuilderView, Error> {
        if v.reserve is None {
            Err(Error::NotOnPr)
        } else {
            Ok(
                BuilderView {
                    on_pr: Seq::empty(),
                    reserve: None,
                    on_commit: None,
                    slots: Seq::new(v.slots.len(), |i: int| merged(v.slots[i], v.on_pr[i])),
                    ineffective: if touches_none(v.on_pr) {
                        v.ineffective.push(v.reserve->0)
                    } else {
                        v.ineffective
                    },
                    ..v
                },
            )
        }
    }

    /// The builder after the first `upto` of the files have been
    /// attributed, or the error of the first that cannot be.
    pub open spec fn walked_files(self, v: BuilderView, files: Seq<String>, upto: int) -> Result<
        BuilderView,
        Error,
    >
        decreases upto,
    {
        if upto <= 0 {
            Ok(v)
        } else {
            match self.walked_files(v, files, upto - 1) {
                Err(e) => Err(e),
                Ok(w) => self.started_file(w, files[upto - 1]@),
            }
        }
    }

    /// The builder after a commit and its files.
    pub open spec fn walked_commit(self, v: BuilderView, commit: CommitInfo) -> Result<BuilderView, Error> {
        match self.started_commit(v, commit) {
            Err(e) => Err(e),
            Ok(w) => self.walked_files(w, commit.files@, commit.files@.len() as int),
        }
    }

    /// The builder after the first `upto` of the commits.
    pub open spec fn walked_commits(self, v: BuilderView, commits: Seq<CommitInfo>, upto: int) -> Result<
        BuilderView,
        Error,
    >
        decreases upto,
    {
        if upto <= 0 {
            Ok(v)
        } else {
            match self.walked_commits(v, commits, upto - 1) {
                Err(e) => Err(e),
                Ok(w) => self.walked_commit(w, commits[upto - 1]),
            }
        }
    }

    /// The builder after a pull request, from its opening to its closing.
    pub open spec fn walked_pr(self, v: BuilderView, pr: FullPr) -> Result<BuilderView, Error> {
        match self.walked_commits(self.started_pr(v, pr), pr.commits@, pr.commits@.len() as int) {
            Err(e) => Err(e),
            Ok(w) => self.finished_pr(w),
        }
    }

    /// The builder after the first `upto` of the pull requests.
    pub open spec fn walked_prs(self, v: BuilderView, prs: Seq<FullPr>, upto: int) -> Result<
        BuilderView,
        Error,
    >
        decreases upto,
    {
        if upto <= 0 {
            Ok(v)
        } else {
            match self.walked_prs(v, prs, upto - 1) {
                Err(e) => Err(e),
                Ok(w) => self.walked_pr(w, prs[upto - 1]),
            }
        }
    }
}

/// Why a project cannot say whether it covers `path`: the path holds a
/// backslash, or else one of its patterns cannot be matched.
pub open spec fn cover_error(path: Seq<char>) -> Error {
    if !crate::project::portable(path) {
        Error::PathNotPortable
    } else {
        Error::BadPattern
    }
}

/// The one reason for which the projects of a snapshot cannot say whether
/// they cover a path.
pub proof fn lemma_cover_error(snap: Seq<Project>, current: ConfigFile, path: Seq<char>, e: Error)
    requires
        cover_fails(snap, current, path, e),
    ensures
        e == cover_error(path),
        !cover_decided(snap, current, path),
{
}

/// Whether `w` is `v` with the bumps carried along the dependencies (see
/// [`deps_applied`]) and every edge added to the chain writes.
pub open spec fn deps_done(cfg: ConfigFile, v: BuilderView, w: BuilderView) -> bool {
    &&& exists|order: Seq<usize>|
        {
            &&& is_topo(cfg, order)
            &&& deps_applied(cfg, order, v.slots, w.slots)
            &&& w.chain_writes == v.chain_writes + writes(cfg, order, order.len() as int)
        }
    &&& w.on_pr == v.on_pr
    &&& w.reserve == v.reserve
    &&& w.on_commit == v.on_commit
    &&& w.cursor == v.cursor
    &&& w.ineffective == v.ineffective
    &&& w.failed == v.failed
}

/// Whether `w` is `v` with every changelog put in display order and then
/// deduplicated.
pub open spec fn ordered(v: BuilderView, w: BuilderView) -> bool {
    &&& w.slots.len() == v.slots.len()
    &&& forall|i: int|
        0 <= i < v.slots.len() ==> {
            &&& (#[trigger] w.slots[i]).present == v.slots[i].present
            &&& w.slots[i].size == v.slots[i].size
            &&& exists|sorted: Seq<EntryView>|
                is_stable_sort(sorted, v.slots[i].changelog) && w.slots[i].changelog == deduped(sorted)
        }
    &&& w.on_pr == v.on_pr
    &&& w.reserve == v.reserve
    &&& w.on_commit == v.on_commit
    &&& w.cursor == v.cursor
    &&& w.ineffective == v.ineffective
    &&& w.chain_writes == v.chain_writes
    &&& w.failed == v.failed
}

/// Whether `plan` is what the builder `v` has planned: an entry for each
/// project that it speaks of, and its other findings.
pub open spec fn built(cfg: ConfigFile, v: BuilderView, plan: Plan) -> bool {
    &&& plan_model(plan.incrs@) == planned(project_ids(cfg.projects@), v.slots, v.slots.len() as int)
    &&& pr_views(plan.ineffective@) == v.ineffective
    &&& plan.chain_writes@ == v.chain_writes
    &&& plan.info.ids() == v.failed
}

/// Whether `plan` is the plan for the pull requests `prs`: the outcome of
/// walking them one after the other, then carrying the bumps along the
/// dependencies, then ordering and deduplicating the changelogs.
pub open spec fn plan_of(w: Walk, prs: Seq<FullPr>, plan: Plan) -> bool {
    exists|a: BuilderView, b: BuilderView, c: BuilderView|
        #![trigger deps_done(w.cfg, a, b), ordered(b, c)]
        {
            &&& w.walked_prs(w.initial(), prs, prs.len() as int) == Ok::<BuilderView, Error>(a)
            &&& deps_done(w.cfg, a, b)
            &&& ordered(b, c)
            &&& built(w.cfg, c, plan)
        }
}

/// Why there is no plan for the pull requests `prs`: walking them fails,
/// or the dependencies form a cycle.
pub open spec fn plan_fails(w: Walk, prs: Seq<FullPr>, e: Error) -> bool {
    match w.walked_prs(w.initial(), prs, prs.len() as int) {
        Err(x) => e == x,
        Ok(_) => e == Error::DependencyCycle && !acyclic(w.cfg),
    }
}

/// Once walking the pull requests fails it stays failed, with the same
/// error.
pub proof fn lemma_prs_error_stays(w: Walk, v: BuilderView, prs: Seq<FullPr>, at: int, upto: int)
    requires
        at <= upto,
        w.walked_prs(v, prs, at) is Err,
    ensures
        w.walked_prs(v, prs, upto) == w.walked_prs(v, prs, at),
    decreases upto - at,
{
    if at < upto {
        lemma_prs_error_stays(w, v, prs, at, upto - 1);
    }
}

/// Once walking the commits fails it stays failed, with the same error.
pub proof fn lemma_commits_error_stays(
    w: Walk,
    v: BuilderView,
    commits: Seq<CommitInfo>,
    at: int,
    upto: int,
)
    requires
        at <= upto,
        w.walked_commits(v, commits, at) is Err,
    ensures
        w.walked_commits(v, commits, upto) == w.walked_commits(v, commits, at),
    decreases upto - at,
{
    if at < upto {
        lemma_commits_error_stays(w, v, commits, at, upto - 1);
    }
}

/// Once walking the files fails it stays failed, with the same error.
pub proof fn lemma_files_error_stays(w: Walk, v: BuilderView, files: Seq<String>, at: int, upto: int)
    requires
        at <= upto,
        w.walked_files(v, files, at) is Err,
    ensures
        w.walked_files(v, files, upto) == w.walked_files(v, files, at),
    decreases upto - at,
{
    if at < upto {
        lemma_files_error_stays(w, v, files, at, upto - 1);
    }
}

/// Builds the plan for the pull requests `changes`, given in the order
/// they were discovered in.
pub fn build_plan(
    repo: &History,
    current: &ConfigFile,
    github_info: Option<GithubInfo>,
    changes: &Vec<FullPr>,
) -> (r: Result<Plan, Error>)
    requires
        current.wf(),
    ensures
        match r {
            Ok(plan) => plan.wf() && plan_of(
                Walk { cfg: *current, history: *repo, gh: github_info },
                changes@,
                plan,
            ),
            Err(e) => plan_fails(Walk { cfg: *current, history: *repo, gh: github_info }, changes@, e),
        },
{
    let ghost w = Walk { cfg: *current, history: *repo, gh: github_info };
    let mut plan = PlanBuilder::create(repo, current, github_info);
    let ghost start = plan.model();
    let n: usize = changes.len();
    let mut i: usize = 0;
    while i < n
        invariant
            n == changes@.len(),
            i <= n,
            plan.wf(),
            plan.walk() == w,
            w == (Walk { cfg: *current, history: *repo, gh: github_info }),
            start == w.initial(),
            w.walked_prs(start, changes@, i as int) == Ok::<BuilderView, Error>(plan.model()),
        decreases n - i,
    {
        let pr = &changes[i];
        let ghost entered = plan.model();
        let _ = plan.start_pr(pr);
        let m: usize = pr.commits.len();
        let mut c: usize = 0;
        while c < m
            invariant
                n == changes@.len(),
                i < n,
                *pr == changes@[i as int],
                m == pr.commits@.len(),
                c <= m,
                plan.wf(),
                plan.walk() == w,
                w == (Walk { cfg: *current, history: *repo, gh: github_info }),
                start == w.initial(),
                w.walked_prs(start, changes@, i as int) == Ok::<BuilderView, Error>(entered),
                w.walked_commits(w.started_pr(entered, *pr), pr.commits@, c as int) == Ok::<
                    BuilderView,
                    Error,
                >(plan.model()),
            decreases m - c,
        {
            let commit = &pr.commits[c];
            let ghost before = plan.model();
            match plan.start_commit(commit) {
                Err(e) => {
                    proof {
                        assert(w.walked_commit(before, *commit) == Err::<BuilderView, Error>(e));
                        assert(w.walked_commits(w.started_pr(entered, *pr), pr.commits@, c + 1) == Err::<
                            BuilderView,
                            Error,
                        >(e));
                        lemma_commits_error_stays(
                            w,
                            w.started_pr(entered, *pr),
                            pr.commits@,
                            c + 1,
                            m as int,
                        );
                        assert(w.walked_pr(entered, *pr) == Err::<BuilderView, Error>(e));
                        assert(w.walked_prs(start, changes@, i + 1) == Err::<BuilderView, Error>(e));
                        lemma_prs_error_stays(w, start, changes@, i + 1, n as int);
                    }
                    return Err(e);
                },
                Ok(()) => {},
            }
            let ghost logged = plan.model();
            let k: usize = commit.files.len();
            let mut f: usize = 0;
            while f < k
                invariant
                    n == changes@.len(),
                    i < n,
                    *pr == changes@[i as int],
                    m == pr.commits@.len(),
                    c < m,
                    *commit == pr.commits@[c as int],
                    k == commit.files@.len(),
                    f <= k,
                    plan.wf(),
                    plan.walk() == w,
                    w == (Walk { cfg: *current, history: *repo, gh: github_info }),
                    start == w.initial(),
                    w.walked_prs(start, changes@, i as int) == Ok::<BuilderView, Error>(entered),
                    w.walked_commits(w.started_pr(entered, *pr), pr.commits@, c as int) == Ok::<
                        BuilderView,
                        Error,
                    >(before),
                    w.started_commit(before, *commit) == Ok::<BuilderView, Error>(logged),
                    w.walked_files(logged, commit.files@, f as int) == Ok::<BuilderView, Error>(
                        plan.model(),
                    ),
                decreases k - f,
            {
                match plan.start_file(commit.files[f].as_str()) {
                    Err(e) => {
                        proof {
                            assert(w.walked_files(logged, commit.files@, f + 1) == Err::<
                                BuilderView,
                                Error,
                            >(e));
                            lemma_files_error_stays(w, logged, commit.files@, f + 1, k as int);
                            assert(w.walked_commit(before, *commit) == Err::<BuilderView, Error>(e));
                            assert(w.walked_commits(w.started_pr(entered, *pr), pr.commits@, c + 1)
                                == Err::<BuilderView, Error>(e));
                            lemma_commits_error_stays(
                                w,
                                w.started_pr(entered, *pr),
                                pr.commits@,
                                c + 1,
                                m as int,
                            );
                            assert(w.walked_pr(entered, *pr) == Err::<BuilderView, Error>(e));
                            assert(w.walked_prs(start, changes@, i + 1) == Err::<BuilderView, Error>(e));
                            lemma_prs_error_stays(w, start, changes@, i + 1, n as int);
                        }
                        return Err(e);
                    },
                    Ok(()) => {},
                }
                let _ = plan.finish_file();
                f += 1;
            }
            let _ = plan.finish_commit();
            c += 1;
        }
        match plan.finish_pr() {
            Err(e) => {
                proof {
                    lemma_prs_error_stays(w, start, changes@, i + 1, n as int);
                }
                return Err(e);
            },
            Ok(()) => {},
        }
        i += 1;
    }
    let ghost a = plan.model();
    match plan.handle_deps() {
        Err(e) => {
            return Err(e);
        },
        Ok(()) => {},
    }
    let ghost b = plan.model();
    let _ = plan.sort_and_dedup();
    let ghost c = plan.model();
    let built_plan = plan.build();
    proof {
        assert(deps_done(w.cfg, a, b));
        assert(ordered(b, c));
        assert(built(w.cfg, c, built_plan));
    }
    Ok(built_plan)
}

/// A pull request that touches no project goes to the ineffective ones,
/// once, and into no changelog; a pull request that touches a project does
/// not go to the ineffective ones.
pub proof fn law_ineffective_once(w: Walk, v: BuilderView)
    requires
        v.reserve is Some,
        v.on_pr.len() == v.slots.len(),
    ensures
        w.finished_pr(v) is Ok,
        touches_none(v.on_pr) ==> w.finished_pr(v)->Ok_0.ineffective == v.ineffective.push(
            v.reserve->0,
        ) && forall|i: int|
            0 <= i < v.slots.len() ==> (#[trigger] w.finished_pr(v)->Ok_0.slots[i]).changelog
                == v.slots[i].changelog,
        !touches_none(v.on_pr) ==> w.finished_pr(v)->Ok_0.ineffective == v.ineffective,
{
    if touches_none(v.on_pr) {
        assert forall|i: int| 0 <= i < v.slots.len() implies (#[trigger] w.finished_pr(
            v,
        )->Ok_0.slots[i]).changelog == v.slots[i].changelog by {
            assert(applied_size(v.on_pr[i].commits) is None);
        }
    }
}

/// Which commits apply to a project is settled by the configuration at
/// the commit. Two current configurations with the same projects in the
/// same order attribute a file alike, whatever paths they cover themselves.
pub proof fn law_attribution_is_historical(one: Walk, other: Walk, v: BuilderView, path: Seq<char>)
    requires
        v.on_pr.len() <= one.count(),
        one.history == other.history,
        one.cfg.projects@.len() == other.cfg.projects@.len(),
        forall|i: int|
            0 <= i < one.cfg.projects@.len() ==> (#[trigger] one.cfg.projects@[i]).id
                == other.cfg.projects@[i].id,
    ensures
        one.started_file(v, path) == other.started_file(v, path),
{
    let snap = one.snap(v);
    assert forall|id: ProjectId| one.cfg.has(id) == other.cfg.has(id) by {
        if one.cfg.has(id) {
            let i = choose|i: int|
                0 <= i < one.cfg.projects@.len() && (#[trigger] one.cfg.projects@[i]).id == id;
            assert(other.cfg.projects@[i].id == id);
        }
        if other.cfg.has(id) {
            let i = choose|i: int|
                0 <= i < other.cfg.projects@.len() && (#[trigger] other.cfg.projects@[i]).id == id;
            assert(one.cfg.projects@[i].id == id);
        }
    }
    assert(cover_decided(snap, one.cfg, path) == cover_decided(snap, other.cfg, path)) by {
        if cover_decided(snap, one.cfg, path) {
            assert forall|k: int|
                0 <= k < snap.len() && other.cfg.has((#[trigger] snap[k]).id) implies snap[k].covers_path(
                path,
            ) is Ok by {
                assert(one.cfg.has(snap[k].id));
            }
        }
        if cover_decided(snap, other.cfg, path) {
            assert forall|k: int|
                0 <= k < snap.len() && one.cfg.has((#[trigger] snap[k]).id) implies snap[k].covers_path(
                path,
            ) is Ok by {
                assert(other.cfg.has(snap[k].id));
            }
        }
    }
    if v.on_commit is Some && cover_decided(snap, one.cfg, path) {
        let a = one.started_file(v, path)->Ok_0;
        let b = other.started_file(v, path)->Ok_0;
        assert(a.on_pr =~= b.on_pr) by {
            assert forall|i: int| 0 <= i < v.on_pr.len() implies a.on_pr[i] == b.on_pr[i] by {
                if i < one.cfg.projects@.len() {
                    assert(one.cfg.projects@[i].id == other.cfg.projects@[i].id);
                }
            }
        }
    }
}

/// The failed commits are those whose size is `Failure`: logging a commit
/// adds it to them exactly when its size is `Failure` and there is a
/// project to log it for, and takes none away.
pub proof fn law_failed_means_failure(w: Walk, v: BuilderView, commit: CommitInfo, id: Seq<char>)
    requires
        w.started_commit(v, commit) is Ok,
    ensures
        w.started_commit(v, commit)->Ok_0.failed.contains(id) <==> v.failed.contains(id) || (id
            == commit.id@ && w.cfg.sizes.size_of(opt_text(commit.kind)) == Size::Failure && w.count()
            > 0),
{
    let out = w.started_commit(v, commit)->Ok_0;
    let size = w.cfg.sizes.size_of(opt_text(commit.kind));
    if size == Size::Failure && w.count() > 0 && !v.failed.contains(commit.id@) {
        let at = crate::plan::rank_of(v.failed, commit.id@);
        crate::plan::lemma_rank_bounds(v.failed, commit.id@);
        assert(out.failed == v.failed.insert(at, commit.id@));
        if v.failed.contains(id) {
            let k = choose|k: int| 0 <= k < v.failed.len() && v.failed[k] == id;
            if k < at {
                assert(out.failed[k] == id);
            } else {
                assert(out.failed[k + 1] == id);
            }
        }
        if id == commit.id@ {
            assert(out.failed[at] == id);
        }
        if out.failed.contains(id) && id != commit.id@ {
            let k = choose|k: int| 0 <= k < out.failed.len() && out.failed[k] == id;
            if k < at {
                assert(v.failed[k] == id);
            } else {
                assert(v.failed[k - 1] == id);
            }
        }
    }
}

} // verus!
