//! Deciding, for one project, what a release does with its version.

use std::collections::HashMap;
use vstd::prelude::*;
use crate::changelog::{copy_opt, opt_text};
use crate::error::Error;
use crate::mono::{branch_check, chain_writes_of, Mono};
use crate::plan::{commit_ids, Plan, PlanEntry};
use crate::project::{Project, ProjectId};
use crate::size::Size;
use crate::state::{changelogs_among, text_map, write_views, CommitState, Write, WriteView};
use crate::text::{chars_of, owned, push_range, push_text};
use crate::version::{lemma_render_round_trip, version_of, Version};

verus! {

broadcast use vstd::std_specs::hash::group_hash_axioms;

/// How far a release goes.
#[derive(Clone, Copy, Debug, PartialEq, Eq, Structural)]
pub enum Engagement {
    /// Reports the plan and touches nothing.
    Dry,
    /// Writes the changelogs; commits and tags nothing.
    Changelog,
    /// Commits the new versions and changelogs and tags the projects.
    Full,
}

/// What a release does with one project.
#[derive(Clone, Copy, Debug, PartialEq, Eq, Structural)]
pub enum Outcome {
    /// Nothing changed; the version stays.
    NoChange,
    /// The project has no earlier version; its version is tagged.
    New,
    /// As `New`, but tags are locked: nothing is tagged.
    NewLocked,
    /// The version is already at or past the target; it is tagged.
    Forward,
    /// As `Forward`, but tags are locked: nothing is tagged.
    ForwardLocked,
    /// The version moves up to the target.
    Bump,
}

/// What a release decides for one project.
#[derive(Clone, Debug)]
pub struct Step {
    pub outcome: Outcome,
    /// The version that the project has after the release.
    pub version: String,
    /// The version that the plan asks for, where the project has an earlier
    /// version and the plan a size that moves versions.
    pub target: Option<String>,
}

/// Outcome, final version and target of a decision, as plain values.
pub struct StepView {
    pub outcome: Outcome,
    pub version: Seq<char>,
    pub target: Option<Seq<char>>,
}

impl View for Step {
    type V = StepView;

    open spec fn view(&self) -> StepView {
        StepView {
            outcome: self.outcome,
            version: self.version@,
            target: crate::changelog::opt_text(self.target),
        }
    }
}

/// The text behind an optional reference to a string.
pub open spec fn opt_ref_text(o: Option<&String>) -> Option<Seq<char>> {
    match o {
        Some(s) => Some(s@),
        None => None,
    }
}

/// What a release does with a project whose last release had the version
/// `prev` (if there was one), whose version now is `curt`, and for which
/// the plan has the size `size`.
///
/// - A size of `Empty` changes nothing: the version stays `curt`.
/// - A size of `Failure` stops the release.
/// - Without an earlier version the version stays `curt`, which has to meet
///   the restrictions of the project, and is tagged unless tags are locked.
/// - Otherwise the target is `size` applied to `prev`. Where the target is
///   newer than `curt`, the version becomes the target, which has to meet
///   the restrictions. Where it is not, the version stays `curt`, which has
///   to meet them, and is tagged unless tags are locked.
pub open spec fn decision(
    project: Project,
    prev: Option<Seq<char>>,
    curt: Seq<char>,
    size: Size,
    locktags: bool,
) -> Result<StepView, Error> {
    if size == Size::Empty {
        Ok(StepView { outcome: Outcome::NoChange, version: curt, target: None })
    } else if size == Size::Failure {
        Err(Error::ConventionalParse)
    } else {
        match prev {
            None => match project.verified(curt) {
                Err(e) => Err(e),
                Ok(()) => Ok(
                    StepView {
                        outcome: if locktags {
                            Outcome::NewLocked
                        } else {
                            Outcome::New
                        },
                        version: curt,
                        target: None,
                    },
                ),
            },
            Some(before) => match size.applied(before) {
                Err(e) => Err(e),
                Ok(target) => match (version_of(curt), version_of(target)) {
                    (Some(c), Some(t)) => if c.before(t) {
                        match project.verified(target) {
                            Err(e) => Err(e),
                            Ok(()) => Ok(
                                StepView {
                                    outcome: Outcome::Bump,
                                    version: target,
                                    target: Some(target),
                                },
                            ),
                        }
                    } else {
                        match project.verified(curt) {
                            Err(e) => Err(e),
                            Ok(()) => Ok(
                                StepView {
                                    outcome: if locktags {
                                        Outcome::ForwardLocked
                                    } else {
                                        Outcome::Forward
                                    },
                                    version: curt,
                                    target: Some(target),
                                },
                            ),
                        }
                    },
                    _ => Err(Error::VersionParse),
                },
            },
        }
    }
}

/// Executable form of [`decision`].
pub fn decide(project: &Project, prev: Option<&str>, curt: &str, size: Size, locktags: bool) -> (r:
    Result<Step, Error>)
    ensures
        match r {
            Ok(step) => decision(
                *project,
                match prev {
                    Some(p) => Some(p@),
                    None => None,
                },
                curt@,
                size,
                locktags,
            ) == Ok::<StepView, Error>(step@),
            Err(e) => decision(
                *project,
                match prev {
                    Some(p) => Some(p@),
                    None => None,
                },
                curt@,
                size,
                locktags,
            ) == Err::<StepView, Error>(e),
        },
{
    if size == Size::Empty {
        return Ok(Step { outcome: Outcome::NoChange, version: owned(curt), target: None });
    }
    if size == Size::Failure {
        return Err(Error::ConventionalParse);
    }
    match prev {
        None => {
            match project.verify_restrictions(curt) {
                Err(e) => Err(e),
                Ok(()) => Ok(
                    Step {
                        outcome: if locktags {
                            Outcome::NewLocked
                        } else {
                            Outcome::New
                        },
                        version: owned(curt),
                        target: None,
                    },
                ),
            }
        },
        Some(before) => {
            let target = match size.apply(before) {
                Err(e) => {
                    return Err(e);
                },
                Ok(t) => t,
            };
            let newer = match Size::less_than(curt, target.as_str()) {
                Err(e) => {
                    return Err(e);
                },
                Ok(b) => b,
            };
            if newer {
                match project.verify_restrictions(target.as_str()) {
                    Err(e) => Err(e),
                    Ok(()) => Ok(
                        Step { outcome: Outcome::Bump, version: target.clone(), target: Some(target) },
                    ),
                }
            } else {
                match project.verify_restrictions(curt) {
                    Err(e) => Err(e),
                    Ok(()) => Ok(
                        Step {
                            outcome: if locktags {
                                Outcome::ForwardLocked
                            } else {
                                Outcome::Forward
                            },
                            version: owned(curt),
                            target: Some(target),
                        },
                    ),
                }
            }
        },
    }
}

/// A size that moves versions never moves one back.
pub proof fn lemma_bump_not_older(size: Size, v: Version)
    requires
        size.bump(v) is Some,
    ensures
        v.at_most(size.bump(v)->0),
{
}

/// The version that a size turns a version string into is a version, and
/// not an older one.
pub proof fn lemma_applied_not_older(size: Size, text: Seq<char>)
    requires
        size.applied(text) is Ok,
    ensures
        version_of(text) is Some,
        version_of(size.applied(text)->Ok_0) is Some,
        version_of(text)->0.at_most(version_of(size.applied(text)->Ok_0)->0),
{
    let v = version_of(text)->0;
    if size != Size::NoBump {
        let t = size.bump(v)->0;
        lemma_render_round_trip(t);
        lemma_bump_not_older(size, v);
    }
}

/// A release never moves a version back: the version after the release is
/// not older than the version before it. Where the project has an earlier
/// release and the plan has a size other than `Empty`, the version after
/// the release is not older than that of the earlier release either.
pub proof fn law_release_not_older(
    project: Project,
    prev: Option<Seq<char>>,
    curt: Seq<char>,
    size: Size,
    locktags: bool,
)
    requires
        decision(project, prev, curt, size, locktags) is Ok,
        version_of(curt) is Some,
    ensures
        ({
            let last = decision(project, prev, curt, size, locktags)->Ok_0.version;
            &&& version_of(last) is Some
            &&& version_of(curt)->0.at_most(version_of(last)->0)
            &&& prev is Some && size != Size::Empty ==> version_of(prev->0) is Some && version_of(
                prev->0,
            )->0.at_most(version_of(last)->0)
        }),
{
    if size != Size::Empty && prev is Some {
        lemma_applied_not_older(size, prev->0);
    }
}

/// Versions only move forward: where the version before the release is not
/// older than that of the earlier release, the version after the release
/// is not older than the version before it, which is not older than that of
/// the earlier release.
pub proof fn law_versions_monotone(
    project: Project,
    prev: Option<Seq<char>>,
    curt: Seq<char>,
    size: Size,
    locktags: bool,
)
    requires
        decision(project, prev, curt, size, locktags) is Ok,
        version_of(curt) is Some,
        prev is Some ==> version_of(prev->0) is Some && version_of(prev->0)->0.at_most(
            version_of(curt)->0,
        ),
    ensures
        ({
            let last = decision(project, prev, curt, size, locktags)->Ok_0.version;
            &&& version_of(last) is Some
            &&& version_of(curt)->0.at_most(version_of(last)->0)
            &&& prev is Some ==> version_of(prev->0)->0.at_most(version_of(curt)->0) && version_of(
                prev->0,
            )->0.at_most(version_of(last)->0)
        }),
{
    law_release_not_older(project, prev, curt, size, locktags);
}

/// The identifiers of the first `upto` failed commits, each cut down to
/// its first seven characters, with commas between them.
pub open spec fn joined_short(ids: Seq<Seq<char>>, upto: int) -> Seq<char>
    decreases upto,
{
    if upto <= 0 {
        Seq::empty()
    } else if upto == 1 {
        short_oid(ids[0])
    } else {
        joined_short(ids, upto - 1) + ","@ + short_oid(ids[upto - 1])
    }
}

/// The first seven characters of a commit identifier, or all of it if it
/// has fewer.
pub open spec fn short_oid(id: Seq<char>) -> Seq<char> {
    if id.len() > 7 {
        id.take(7)
    } else {
        id
    }
}

/// How the failed commits are listed: the first five of them, cut short,
/// with `,…` behind them if there are more; `<unfound>` if that comes to
/// nothing.
pub open spec fn failed_text(ids: Seq<Seq<char>>) -> Seq<char> {
    let shown = if ids.len() > 5 {
        joined_short(ids, 5) + ",…"@
    } else {
        joined_short(ids, ids.len() as int)
    };
    if shown.len() == 0 {
        "<unfound>"@
    } else {
        shown
    }
}

/// Executable form of [`failed_text`].
pub fn failed_hashes(plan: &Plan) -> (r: String)
    ensures
        r@ == failed_text(plan.info.ids()),
{
    let commits = plan.info().failed_commits();
    let ghost ids = plan.info.ids();
    let n: usize = if commits.len() > 5 {
        5
    } else {
        commits.len()
    };
    let mut out = String::new();
    let mut i: usize = 0;
    assert(out@ =~= joined_short(ids, 0));
    while i < n
        invariant
            i <= n <= commits@.len(),
            ids == commit_ids(commits@),
            out@ == joined_short(ids, i as int),
        decreases n - i,
    {
        if i > 0 {
            push_text(&mut out, ",");
        }
        let v = chars_of(commits[i].id());
        let cut: usize = if v.len() > 7 {
            7
        } else {
            v.len()
        };
        push_range(&mut out, &v, 0, cut);
        proof {
            assert(v@ == ids[i as int]);
            assert(v@.subrange(0, cut as int) =~= short_oid(ids[i as int]));
        }
        i += 1;
    }
    if commits.len() > 5 {
        push_text(&mut out, ",…");
    }
    if out.as_str().unicode_len() == 0 {
        push_text(&mut out, "<unfound>");
        assert(out@ =~= "<unfound>"@);
    }
    out
}

/// What a release that was stopped by failed commits says.
pub open spec fn poison_text(ids: Seq<Seq<char>>) -> Seq<char> {
    "Couldn't parse conventional commit(s): "@ + failed_text(ids)
}

/// Executable form of [`poison_text`].
pub fn poison_message(plan: &Plan) -> (r: String)
    ensures
        r@ == poison_text(plan.info.ids()),
{
    let mut out = String::new();
    push_text(&mut out, "Couldn't parse conventional commit(s): ");
    let list = failed_hashes(plan);
    push_text(&mut out, list.as_str());
    assert(out@ =~= poison_text(plan.info.ids()));
    out
}

/// What a release says that was stopped because the branch `found` is
/// checked out where the configuration asks for `wanted`.
pub open spec fn branch_text(found: Seq<char>, wanted: Seq<char>) -> Seq<char> {
    "Branch name \""@ + found + "\" doesn't match \""@ + wanted + "\""@
}

/// Executable form of [`branch_text`].
pub fn branch_message(found: &str, wanted: &str) -> (r: String)
    ensures
        r@ == branch_text(found@, wanted@),
{
    let mut out = String::new();
    push_text(&mut out, "Branch name \"");
    push_text(&mut out, found);
    push_text(&mut out, "\" doesn't match \"");
    push_text(&mut out, wanted);
    push_text(&mut out, "\"");
    assert(out@ =~= branch_text(found@, wanted@));
    out
}

/// What a release reports of one project.
#[derive(Clone, Debug)]
pub struct ReportLine {
    pub id: ProjectId,
    pub name: String,
    /// The version as of the last release.
    pub prev: Option<String>,
    /// The version before this release.
    pub curt: String,
    pub step: Step,
    /// Where the changelog of the project goes, if one is written.
    pub logged: Option<String>,
}

/// What a [`ReportLine`] holds, as plain values.
pub struct ReportView {
    pub id: ProjectId,
    pub name: Seq<char>,
    pub prev: Option<Seq<char>>,
    pub curt: Seq<char>,
    pub step: StepView,
    pub logged: Option<Seq<char>>,
}

impl View for ReportLine {
    type V = ReportView;

    open spec fn view(&self) -> ReportView {
        ReportView {
            id: self.id,
            name: self.name@,
            prev: opt_text(self.prev),
            curt: self.curt@,
            step: self.step@,
            logged: opt_text(self.logged),
        }
    }
}

/// The views of a run of report lines.
pub open spec fn report_views(lines: Seq<ReportLine>) -> Seq<ReportView> {
    Seq::new(lines.len(), |i: int| lines[i]@)
}

/// How a release ended.
#[derive(Clone, Debug)]
pub enum Finish {
    /// The plan speaks of no project: there was nothing to do.
    Empty,
    /// Nothing was touched.
    Dry,
    /// These changelogs are to be written; nothing is committed.
    WroteChangelogs(Vec<Write>),
    /// The release is to be kept for later.
    Paused(CommitState),
    /// The release is to be committed and tagged.
    Committed(CommitState),
}

/// What a release came to.
#[derive(Clone, Debug)]
pub struct Released {
    pub lines: Vec<ReportLine>,
    pub finish: Finish,
}

/// The project with the identifier `id`.
pub open spec fn project_of(mono: Mono, id: ProjectId) -> Project {
    mono.current.projects@[mono.current.index_of(id)]
}

/// What a release reports of the project of one entry of the plan, or why
/// it fails: the project has to exist and to have a version in the working
/// tree, and the decision on it has to come off. A changelog is written
/// where the project keeps one and the plan has entries for it.
pub open spec fn entry_report(mono: Mono, entry: PlanEntry, locktags: bool) -> Result<ReportView, Error> {
    if !mono.current.has(entry.id) {
        Err(Error::NoSuchProject)
    } else {
        match mono.value_of(entry.id.id) {
            None => Err(Error::NoSuchValue),
            Some(curt) => {
                let p = project_of(mono, entry.id);
                let prev = mono.prev_value_of(entry.id.id);
                match decision(p, prev, curt, entry.size, locktags) {
                    Err(e) => Err(e),
                    Ok(step) => Ok(
                        ReportView {
                            id: entry.id,
                            name: p.name@,
                            prev,
                            curt,
                            step,
                            logged: if entry.changelog@.len() > 0 {
                                opt_text(p.changelog)
                            } else {
                                None
                            },
                        },
                    ),
                }
            },
        }
    }
}

/// The changes that a report line asks for: the new version is written
/// where the version moves up, the version is tagged where it is new or
/// already past the target and tags are not locked, and the changelog is
/// written where the project keeps one.
pub open spec fn line_writes(line: ReportView) -> Seq<WriteView> {
    let first = match line.step.outcome {
        Outcome::Bump => seq![WriteView::SetValue { id: line.id, value: line.step.version }],
        Outcome::Forward | Outcome::New => seq![
            WriteView::ForwardTag { id: line.id, value: line.step.version },
        ],
        _ => Seq::empty(),
    };
    match line.logged {
        Some(path) => first.push(
            WriteView::Changelog { id: line.id, version: line.step.version, path },
        ),
        None => first,
    }
}

/// The report lines for the first `upto` entries of the plan, or the error
/// of the first entry that fails.
pub open spec fn report_of(mono: Mono, incrs: Seq<PlanEntry>, locktags: bool, upto: int) -> Result<
    Seq<ReportView>,
    Error,
>
    decreases upto,
{
    if upto <= 0 {
        Ok(Seq::empty())
    } else {
        match report_of(mono, incrs, locktags, upto - 1) {
            Err(e) => Err(e),
            Ok(lines) => match entry_report(mono, incrs[upto - 1], locktags) {
                Err(e) => Err(e),
                Ok(line) => Ok(lines.push(line)),
            },
        }
    }
}

/// The changes that the report lines ask for, line by line.
pub open spec fn report_writes(lines: Seq<ReportView>) -> Seq<WriteView>
    decreases lines.len(),
{
    if lines.len() == 0 {
        Seq::empty()
    } else {
        report_writes(lines.drop_last()) + line_writes(lines.last())
    }
}

/// The version that each project has after the release, by its number.
pub open spec fn final_versions(lines: Seq<ReportView>) -> Map<u32, Seq<char>>
    decreases lines.len(),
{
    if lines.len() == 0 {
        Map::empty()
    } else {
        final_versions(lines.drop_last()).insert(lines.last().id.id, lines.last().step.version)
    }
}

/// Once the report fails it stays failed, with the same error.
pub proof fn lemma_report_error_stays(
    mono: Mono,
    incrs: Seq<PlanEntry>,
    locktags: bool,
    at: int,
    upto: int,
)
    requires
        at <= upto,
        report_of(mono, incrs, locktags, at) is Err,
    ensures
        report_of(mono, incrs, locktags, upto) == report_of(mono, incrs, locktags, at),
    decreases upto - at,
{
    if at < upto {
        lemma_report_error_stays(mono, incrs, locktags, at, upto - 1);
    }
}

/// All the changes that a release of `plan` asks for: those of the report
/// lines, then the chain writes with the versions after the release. An
/// error where the report or a chain write fails.
pub open spec fn release_changes(mono: Mono, plan: Plan, locktags: bool) -> Result<Seq<WriteView>, Error> {
    match report_of(mono, plan.incrs@, locktags, plan.incrs@.len() as int) {
        Err(e) => Err(e),
        Ok(lines) => match chain_writes_of(
            mono.current,
            plan.chain_writes@,
            final_versions(lines),
            plan.chain_writes@.len() as int,
        ) {
            Err(e) => Err(e),
            Ok(chain) => Ok(report_writes(lines) + chain),
        },
    }
}

/// Whether the branch that is checked out is not the one that the
/// configuration asks for.
pub open spec fn branch_mismatch(mono: Mono) -> bool {
    branch_check(mono.current.branch, mono.repo.branch) is Err
}

/// What a release does, or why it fails.
///
/// - A branch other than the one the configuration asks for stops it with
///   `BranchMismatch`.
/// - A plan with a `Failure` in it stops it with `ConventionalParse`.
/// - A plan that speaks of no project leaves nothing to do.
/// - Otherwise every entry of the plan gets its report line, and the
///   changes they ask for are followed by the chain writes.
pub open spec fn release_outcome(mono: Mono, plan: Plan, locktags: bool) -> Result<
    Option<Seq<WriteView>>,
    Error,
> {
    if branch_mismatch(mono) {
        Err(Error::BranchMismatch)
    } else if plan.poisoned() {
        Err(Error::ConventionalParse)
    } else if plan.incrs@.len() == 0 {
        Ok(None)
    } else {
        match release_changes(mono, plan, locktags) {
            Err(e) => Err(e),
            Ok(ws) => Ok(Some(ws)),
        }
    }
}

/// Carries out the plan as far as deciding goes.
///
/// On failure nothing changes. On success the report has a line for every
/// entry of the plan. With `Dry` nothing changes either. With `Changelog`
/// the changes are pending and the changelogs are asked for. With `Full`
/// the changes go, with those that were pending before, into the state
/// that is to be committed, or to be kept if the release pauses, and
/// nothing stays pending.
pub fn release(mono: &mut Mono, plan: &Plan, dry: &Engagement, locktags: bool, pause: bool) -> (r:
    Result<Released, Error>)
    requires
        old(mono).wf(),
    ensures
        final(mono).current == old(mono).current,
        final(mono).old_tags == old(mono).old_tags,
        final(mono).last_commits == old(mono).last_commits,
        final(mono).repo == old(mono).repo,
        plan.poisoned() ==> r is Err,
        match r {
            Err(e) => release_outcome(*old(mono), *plan, locktags) == Err::<
                Option<Seq<WriteView>>,
                Error,
            >(e) && *final(mono) == *old(mono),
            Ok(done) => match release_outcome(*old(mono), *plan, locktags) {
                Err(_) => false,
                Ok(None) => done.lines@.len() == 0 && done.finish is Empty && *final(mono) == *old(mono),
                Ok(Some(ws)) => {
                    &&& report_of(*old(mono), plan.incrs@, locktags, plan.incrs@.len() as int) == Ok::<
                        Seq<ReportView>,
                        Error,
                    >(report_views(done.lines@))
                    &&& match *dry {
                        Engagement::Dry => done.finish is Dry && *final(mono) == *old(mono),
                        Engagement::Changelog => done.finish is WroteChangelogs && write_views(
                            done.finish->WroteChangelogs_0@,
                        ) == changelogs_among(old(mono).next@ + ws) && final(mono).next@ == old(mono).next@ + ws && final(mono).next.changelogs_only,
                        Engagement::Full => {
                            let state = if pause {
                                done.finish->Paused_0
                            } else {
                                done.finish->Committed_0
                            };
                            &&& if pause {
                                done.finish is Paused
                            } else {
                                done.finish is Committed
                            }
                            &&& state@ == old(mono).handed_over(old(mono).next@ + ws, true, pause)
                            &&& final(mono).next@ == Seq::<WriteView>::empty()
                            &&& final(mono).next.changelogs_only == old(mono).next.changelogs_only
                        },
                    }
                },
            },
        },
{
    if mono.check_branch().is_err() {
        return Err(Error::BranchMismatch);
    }
    if plan.is_poisoned() {
        return Err(Error::ConventionalParse);
    }
    if plan.incrs.len() == 0 {
        return Ok(Released { lines: Vec::new(), finish: Finish::Empty });
    }
    let mut lines: Vec<ReportLine> = Vec::new();
    let mut writes: Vec<Write> = Vec::new();
    let mut final_sizes: HashMap<u32, String> = HashMap::new();
    let n: usize = plan.incrs.len();
    let mut i: usize = 0;
    proof {
        assert(report_views(lines@) =~= Seq::<ReportView>::empty());
        assert(write_views(writes@) =~= report_writes(report_views(lines@)));
        assert(text_map(final_sizes@) =~= final_versions(report_views(lines@)));
    }
    while i < n
        invariant
            n == plan.incrs@.len(),
            n > 0,
            i <= n,
            mono.wf(),
            *mono == *old(mono),
            !branch_mismatch(*mono),
            !plan.poisoned(),
            report_of(*mono, plan.incrs@, locktags, i as int) == Ok::<Seq<ReportView>, Error>(
                report_views(lines@),
            ),
            write_views(writes@) == report_writes(report_views(lines@)),
            text_map(final_sizes@) == final_versions(report_views(lines@)),
        decreases n - i,
    {
        let entry = &plan.incrs[i];
        let line = match report_line(mono, entry, locktags) {
            Err(e) => {
                proof {
                    lemma_report_error_stays(*mono, plan.incrs@, locktags, i + 1, n as int);
                }
                return Err(e);
            },
            Ok(line) => line,
        };
        let ghost before = report_views(lines@);
        let ghost wrote = write_views(writes@);
        let ghost sizes = text_map(final_sizes@);
        push_line_writes(&line, &mut writes);
        final_sizes.insert(entry.id.id, line.step.version.clone());
        lines.push(line);
        proof {
            let now = report_views(lines@);
            assert(now =~= before.push(line@));
            assert(now.drop_last() =~= before);
            assert(now.last() == line@);
            assert(text_map(final_sizes@) =~= sizes.insert(line@.id.id, line@.step.version));
        }
        i += 1;
    }
    let chain = match mono.chain_changes(plan.chain_writes(), &final_sizes) {
        Err(e) => {
            return Err(e);
        },
        Ok(c) => c,
    };
    let ghost ws = write_views(writes@) + write_views(chain@);
    let finish = match dry {
        Engagement::Dry => Finish::Dry,
        Engagement::Changelog => {
            mono.next.append(writes);
            mono.next.append(chain);
            assert(mono.next@ =~= old(mono).next@ + ws);
            match mono.write_changelogs() {
                Ok(logs) => Finish::WroteChangelogs(logs),
                Err(e) => {
                    return Err(e);
                },
            }
        },
        Engagement::Full => {
            mono.next.append(writes);
            mono.next.append(chain);
            assert(mono.next@ =~= old(mono).next@ + ws);
            match mono.commit(true, pause) {
                Ok(state) => {
                    if pause {
                        Finish::Paused(state)
                    } else {
                        Finish::Committed(state)
                    }
                },
                Err(e) => {
                    return Err(e);
                },
            }
        },
    };
    Ok(Released { lines, finish })
}

/// Executable form of [`entry_report`].
pub fn report_line(mono: &Mono, entry: &PlanEntry, locktags: bool) -> (r: Result<ReportLine, Error>)
    requires
        mono.wf(),
    ensures
        match r {
            Ok(line) => entry_report(*mono, *entry, locktags) == Ok::<ReportView, Error>(line@),
            Err(e) => entry_report(*mono, *entry, locktags) == Err::<ReportView, Error>(e),
        },
{
    let proj = match mono.current.get_project(&entry.id) {
        None => {
            return Err(Error::NoSuchProject);
        },
        Some(p) => p,
    };
    let curt = match mono.get_value(&entry.id) {
        None => {
            return Err(Error::NoSuchValue);
        },
        Some(c) => c,
    };
    let prev = mono.get_prev_value(&entry.id);
    let step = match prev {
        Some(p) => decide(proj, Some(p.as_str()), curt.as_str(), entry.size, locktags),
        None => decide(proj, None, curt.as_str(), entry.size, locktags),
    };
    match step {
        Err(e) => Err(e),
        Ok(step) => Ok(
            ReportLine {
                id: entry.id,
                name: proj.name.clone(),
                prev: match prev {
                    Some(p) => Some(p.clone()),
                    None => None,
                },
                curt: curt.clone(),
                step,
                logged: if entry.changelog.is_empty() {
                    None
                } else {
                    copy_opt(&proj.changelog)
                },
            },
        ),
    }
}

/// Appends the changes that a report line asks for.
pub fn push_line_writes(line: &ReportLine, out: &mut Vec<Write>)
    ensures
        write_views(final(out)@) == write_views(old(out)@) + line_writes(line@),
{
    let ghost start = write_views(out@);
    match line.step.outcome {
        Outcome::Bump => {
            out.push(Write::SetValue { id: line.id, value: line.step.version.clone() });
        },
        Outcome::Forward => {
            out.push(Write::ForwardTag { id: line.id, value: line.step.version.clone() });
        },
        Outcome::New => {
            out.push(Write::ForwardTag { id: line.id, value: line.step.version.clone() });
        },
        _ => {},
    }
    match &line.logged {
        Some(path) => {
            out.push(
                Write::Changelog { id: line.id, version: line.step.version.clone(), path: path.clone() },
            );
        },
        None => {},
    }
    assert(write_views(out@) =~= start + line_writes(line@));
}

} // verus!
