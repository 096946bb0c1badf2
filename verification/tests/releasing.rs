use std::collections::HashMap;
use versio::walk::build_plan;
use versio::changelog::{Changelog, CommitInfo, FullPr, Timestamp};
use versio::commands::sanity_check;
use versio::config::{ConfigFile, SizeRules};
use versio::error::Error;
use versio::history::{History, Snapshot};
use versio::mono::{abort, keyed_files, resume, Mono};
use versio::plan::{Plan, PlanEntry, PlanInfo};
use versio::project::{Depends, Dependency, Project, ProjectId, Restriction, SizeMapper};
use versio::release::{
    branch_message, decide, failed_hashes, poison_message, release, Engagement, Finish, Outcome,
};
use versio::repo::{Branch, Repo};
use versio::size::Size;
use versio::state::{StateWrite, Write};

fn pid(n: u32) -> ProjectId {
    ProjectId::from_id(n)
}

fn project(id: u32, name: &str, covers: &[&str]) -> Project {
    let mut p = Project::new(pid(id), name.to_string());
    p.covers = covers.iter().map(|s| s.to_string()).collect();
    p.tag_prefix = Some(String::new());
    p
}

fn sizes() -> SizeRules {
    let mut rules = SizeRules::new(Size::NoBump);
    rules.add("feat".to_string(), Size::Minor);
    rules.add("fix".to_string(), Size::Patch);
    rules
}

fn config(projects: Vec<Project>) -> ConfigFile {
    ConfigFile { projects, sizes: sizes(), prev_tag: "versio-prev".to_string(), branch: None }
}

fn map(entries: &[(u32, &str)]) -> HashMap<u32, String> {
    entries.iter().map(|(k, v)| (*k, v.to_string())).collect()
}

fn repo(values: &[(u32, &str)], prev_values: &[(u32, &str)]) -> Repo {
    Repo {
        branch: Branch::Unknown,
        tag_answers: vec![versio::repo::TagAnswer { pattern: "v*".to_string(), tags: vec![] }],
        commits_to_head: vec![],
        line_commits: vec![],
        prev_versions: map(prev_values),
        values: map(values),
        prev_values: map(prev_values),
        history: History { snapshots: vec![] },
    }
}

fn one_line() -> Changelog {
    let mut log = Changelog::empty();
    log.add_dep(pid(99), "elsewhere");
    log
}

fn plan_of(entries: &[(u32, Size)], chain: &[(u32, u32)]) -> Plan {
    Plan {
        incrs: entries
            .iter()
            .map(|(id, size)| PlanEntry { id: pid(*id), size: *size, changelog: one_line() })
            .collect(),
        ineffective: vec![],
        chain_writes: chain.iter().map(|(u, d)| (pid(*u), pid(*d))).collect(),
        info: PlanInfo::new(),
    }
}

fn commit(id: &str, message: &str, files: &[&str]) -> CommitInfo {
    CommitInfo::new(
        id.to_string(),
        message.to_string(),
        message.to_string(),
        files.iter().map(|s| s.to_string()).collect(),
    )
}

fn shown(w: &Write) -> String {
    match w {
        Write::SetValue { id, value } => format!("set {} {}", id.id(), value),
        Write::ForwardTag { id, value } => format!("tag {} {}", id.id(), value),
        Write::ChainValue { upstream, downstream, value } => {
            format!("chain {}->{} {}", upstream.id(), downstream.id(), value)
        }
        Write::Changelog { id, version, path } => format!("log {} {} {}", id.id(), version, path),
    }
}

fn all_shown(ws: &[Write]) -> Vec<String> {
    ws.iter().map(shown).collect()
}

#[test]
fn an_empty_size_changes_nothing() {
    let p = project(1, "p", &[]);
    for locked in [false, true] {
        for prev in [None, Some("9.9.9"), Some("junk")] {
            let step = decide(&p, prev, "1.2.3", Size::Empty, locked).expect("a step");
            assert_eq!(step.outcome, Outcome::NoChange);
            assert_eq!(step.version, "1.2.3");
            assert_eq!(step.target, None);
        }
    }
    let odd = decide(&p, None, "not even a version", Size::Empty, false).expect("a step");
    assert_eq!(odd.version, "not even a version");
}

#[test]
fn a_project_without_an_earlier_version_is_new() {
    let p = project(1, "p", &[]);
    let step = decide(&p, None, "0.1.0", Size::Major, false).expect("a step");
    assert_eq!((step.outcome, step.version.as_str(), step.target), (Outcome::New, "0.1.0", None));
    let locked = decide(&p, None, "0.1.0", Size::Major, true).expect("a step");
    assert_eq!((locked.outcome, locked.version.as_str()), (Outcome::NewLocked, "0.1.0"));
    assert_eq!(decide(&p, None, "zero", Size::Patch, false).err(), Some(Error::VersionParse));
}

#[test]
fn a_target_past_the_current_version_is_a_bump() {
    let p = project(1, "p", &[]);
    for locked in [false, true] {
        let step = decide(&p, Some("1.2.3"), "1.2.3", Size::Minor, locked).expect("a step");
        assert_eq!(step.outcome, Outcome::Bump);
        assert_eq!(step.version, "1.3.0");
        assert_eq!(step.target, Some("1.3.0".to_string()));
    }
    let ahead = decide(&p, Some("1.2.3"), "1.2.9", Size::Minor, false).expect("a step");
    assert_eq!((ahead.outcome, ahead.version.as_str()), (Outcome::Bump, "1.3.0"));
}

#[test]
fn locktags_forward() {
    let p = project(1, "p", &[]);
    let locked = decide(&p, Some("1.0.0"), "1.2.0", Size::Patch, true).expect("a step");
    assert_eq!(locked.outcome, Outcome::ForwardLocked);
    assert_eq!(locked.version, "1.2.0");
    assert_eq!(locked.target, Some("1.0.1".to_string()));
    let open = decide(&p, Some("1.0.0"), "1.2.0", Size::Patch, false).expect("a step");
    assert_eq!(open.outcome, Outcome::Forward);
    assert_eq!(open.version, "1.2.0");
    assert_eq!(p.full_version(&open.version), Some("v1.2.0".to_string()));
}

#[test]
fn a_target_equal_to_the_current_version_is_a_forward() {
    let p = project(1, "p", &[]);
    let step = decide(&p, Some("1.2.3"), "1.2.4", Size::Patch, false).expect("a step");
    assert_eq!((step.outcome, step.version.as_str()), (Outcome::Forward, "1.2.4"));
    let none = decide(&p, Some("1.2.3"), "1.2.3", Size::NoBump, false).expect("a step");
    assert_eq!((none.outcome, none.version.as_str()), (Outcome::Forward, "1.2.3"));
    assert_eq!(none.target, Some("1.2.3".to_string()));
}

#[test]
fn a_failure_stops_the_decision() {
    let p = project(1, "p", &[]);
    assert_eq!(decide(&p, Some("1.0.0"), "1.0.0", Size::Failure, false).err(), Some(Error::ConventionalParse));
    assert_eq!(decide(&p, None, "1.0.0", Size::Failure, true).err(), Some(Error::ConventionalParse));
}

#[test]
fn restrictions_hold_for_the_version_that_is_released() {
    let mut p = project(1, "p", &[]);
    p.restrictions.push(Restriction { majors: vec![1] });
    assert_eq!(decide(&p, Some("1.9.0"), "1.9.0", Size::Major, false).err(), Some(Error::RestrictionViolation));
    assert!(decide(&p, Some("1.9.0"), "1.9.0", Size::Minor, false).is_ok());
    assert_eq!(decide(&p, Some("1.0.0"), "2.0.0", Size::Patch, false).err(), Some(Error::RestrictionViolation));
    assert_eq!(decide(&p, None, "2.0.0", Size::Patch, true).err(), Some(Error::RestrictionViolation));
    assert!(decide(&p, None, "2.0.0", Size::Empty, false).is_ok());
}

#[test]
fn versions_that_cannot_be_read_or_raised_stop_the_decision() {
    let p = project(1, "p", &[]);
    assert_eq!(decide(&p, Some("one"), "1.0.0", Size::Patch, false).err(), Some(Error::VersionParse));
    assert_eq!(decide(&p, Some("1.0.0"), "one", Size::Patch, false).err(), Some(Error::VersionParse));
    assert_eq!(
        decide(&p, Some("4294967295.0.0"), "1.0.0", Size::Major, false).err(),
        Some(Error::VersionOverflow)
    );
}

#[test]
fn the_released_version_is_never_older_than_the_current_one() {
    let p = project(1, "p", &[]);
    let versions = ["0.0.1", "0.9.0", "1.0.0", "1.0.1", "1.2.0", "2.0.0"];
    for prev in versions {
        for curt in versions {
            for size in [Size::Empty, Size::NoBump, Size::Patch, Size::Minor, Size::Major] {
                for locked in [false, true] {
                    let step = decide(&p, Some(prev), curt, size, locked).expect("a step");
                    assert_eq!(Size::less_than(&step.version, curt), Ok(false));
                    if size != Size::Empty {
                        assert_eq!(Size::less_than(&step.version, prev), Ok(false));
                    }
                    if Size::less_than(curt, prev) == Ok(false) {
                        assert_eq!(Size::less_than(&step.version, prev), Ok(false));
                    }
                }
            }
        }
    }
    let back = decide(&p, Some("2.0.0"), "1.0.0", Size::Empty, false).expect("a step");
    assert_eq!(Size::less_than(&back.version, "2.0.0"), Ok(true));
}

#[test]
fn single_project_release_moves_the_version_up() {
    let cfg = config(vec![project(1, "core", &["src/*"])]);
    let hist = History { snapshots: vec![Snapshot { commit: "y".to_string(), file: Some(cfg.clone()) }] };
    let prs = vec![FullPr {
        number: 1,
        title: "t".to_string(),
        closed_at: Timestamp { secs: 0, nanos: 0, offset: 0 },
        discovery_order: 0,
        commits: vec![commit("y", "feat: more", &["src/a.rs"])],
        best_guess: false,
    }];
    let plan = build_plan(&hist, &cfg, None, &prs).expect("a plan");
    let r = repo(&[(1, "1.2.3")], &[(1, "1.2.3")]);
    let mut mono = Mono::open(cfg, &r).expect("a repository");
    let done = release(&mut mono, &plan, &Engagement::Full, false, false).expect("a release");
    assert_eq!(done.lines.len(), 1);
    assert_eq!(done.lines[0].step.outcome, Outcome::Bump);
    assert_eq!(done.lines[0].step.version, "1.3.0");
    assert_eq!(done.lines[0].name, "core");
    assert_eq!(done.lines[0].prev, Some("1.2.3".to_string()));
    assert_eq!(done.lines[0].curt, "1.2.3");
    match &done.finish {
        Finish::Committed(state) => {
            assert_eq!(all_shown(&state.writes), vec!["set 1 1.3.0"]);
            assert!(state.advance_prev && !state.pause);
            assert_eq!(state.prev_tag, "versio-prev");
        }
        _ => panic!("a commit"),
    }
    assert!(mono.next.writes.is_empty());
    assert_eq!(mono.get_project(&pid(1)).unwrap().full_version("1.3.0"), Some("v1.3.0".to_string()));
}

#[test]
fn a_release_writes_versions_tags_changelogs_and_chains() {
    let mut a = project(1, "A", &[]);
    a.changelog = Some("a/CHANGELOG.md".to_string());
    let mut b = project(2, "B", &[]);
    b.depends.push(Dependency { on: pid(1), edge: Depends::new(SizeMapper::identity()) });
    let c = project(3, "C", &[]);
    let cfg = config(vec![a, b, c]);
    let r = repo(&[(1, "1.0.0"), (2, "2.5.0"), (3, "0.3.0")], &[(1, "1.0.0"), (2, "2.0.0")]);
    let mut mono = Mono::open(cfg, &r).expect("a repository");
    mono.set_by_id(&pid(3), "0.3.1").expect("a pending write");
    let plan = plan_of(&[(1, Size::Minor), (2, Size::Patch), (3, Size::Major)], &[(1, 2)]);
    let done = release(&mut mono, &plan, &Engagement::Full, false, true).expect("a release");
    let outcomes: Vec<Outcome> = done.lines.iter().map(|l| l.step.outcome).collect();
    assert_eq!(outcomes, vec![Outcome::Bump, Outcome::Forward, Outcome::New]);
    assert_eq!(done.lines[0].logged, Some("a/CHANGELOG.md".to_string()));
    assert_eq!(done.lines[1].logged, None);
    match &done.finish {
        Finish::Paused(state) => {
            assert!(state.pause && state.advance_prev);
            assert_eq!(
                all_shown(&state.writes),
                vec![
                    "set 3 0.3.1",
                    "set 1 1.1.0",
                    "log 1 1.1.0 a/CHANGELOG.md",
                    "tag 2 2.5.0",
                    "tag 3 0.3.0",
                    "chain 1->2 1.1.0",
                ]
            );
        }
        _ => panic!("a pause"),
    }
    assert!(mono.next.writes.is_empty());
}

#[test]
fn locked_tags_write_no_tags() {
    let cfg = config(vec![project(1, "A", &[]), project(2, "B", &[])]);
    let r = repo(&[(1, "1.2.0"), (2, "0.1.0")], &[(1, "1.0.0")]);
    let mut mono = Mono::open(cfg, &r).expect("a repository");
    let plan = plan_of(&[(1, Size::Patch), (2, Size::Patch)], &[]);
    let done = release(&mut mono, &plan, &Engagement::Full, true, false).expect("a release");
    let outcomes: Vec<Outcome> = done.lines.iter().map(|l| l.step.outcome).collect();
    assert_eq!(outcomes, vec![Outcome::ForwardLocked, Outcome::NewLocked]);
    match &done.finish {
        Finish::Committed(state) => assert!(state.writes.is_empty()),
        _ => panic!("a commit"),
    }
}

#[test]
fn a_dry_release_touches_nothing() {
    let cfg = config(vec![project(1, "A", &[])]);
    let r = repo(&[(1, "1.0.0")], &[(1, "1.0.0")]);
    let mut mono = Mono::open(cfg, &r).expect("a repository");
    let plan = plan_of(&[(1, Size::Minor)], &[]);
    let done = release(&mut mono, &plan, &Engagement::Dry, false, false).expect("a release");
    assert!(matches!(done.finish, Finish::Dry));
    assert_eq!(done.lines[0].step.version, "1.1.0");
    assert!(mono.next.writes.is_empty());
    assert!(!mono.next.changelogs_only);
}

#[test]
fn a_changelog_release_leaves_the_changes_pending() {
    let mut a = project(1, "A", &[]);
    a.changelog = Some("CHANGELOG.md".to_string());
    let cfg = config(vec![a]);
    let r = repo(&[(1, "1.0.0")], &[(1, "1.0.0")]);
    let mut mono = Mono::open(cfg, &r).expect("a repository");
    let plan = plan_of(&[(1, Size::Minor)], &[]);
    let done = release(&mut mono, &plan, &Engagement::Changelog, false, false).expect("a release");
    match &done.finish {
        Finish::WroteChangelogs(logs) => assert_eq!(all_shown(logs), vec!["log 1 1.1.0 CHANGELOG.md"]),
        _ => panic!("changelogs"),
    }
    assert_eq!(all_shown(&mono.next.writes), vec!["set 1 1.1.0", "log 1 1.1.0 CHANGELOG.md"]);
    assert!(mono.next.changelogs_only);
}

#[test]
fn a_project_without_entries_gets_no_changelog() {
    let mut a = project(1, "A", &[]);
    a.changelog = Some("CHANGELOG.md".to_string());
    let cfg = config(vec![a]);
    let r = repo(&[(1, "1.0.0")], &[(1, "1.0.0")]);
    let mut mono = Mono::open(cfg, &r).expect("a repository");
    let mut plan = plan_of(&[(1, Size::Empty)], &[]);
    plan.incrs[0].changelog = Changelog::empty();
    let done = release(&mut mono, &plan, &Engagement::Changelog, false, false).expect("a release");
    assert_eq!(done.lines[0].step.outcome, Outcome::NoChange);
    assert_eq!(done.lines[0].logged, None);
    assert!(mono.next.writes.is_empty());
}

#[test]
fn an_empty_plan_leaves_nothing_to_release() {
    let cfg = config(vec![project(1, "A", &[])]);
    let r = repo(&[(1, "1.0.0")], &[]);
    let mut mono = Mono::open(cfg, &r).expect("a repository");
    let done = release(&mut mono, &plan_of(&[], &[]), &Engagement::Full, false, false).expect("a release");
    assert!(matches!(done.finish, Finish::Empty));
    assert!(done.lines.is_empty());
}

#[test]
fn a_poisoned_plan_is_not_released() {
    let cfg = config(vec![project(1, "A", &[])]);
    let r = repo(&[(1, "1.0.0")], &[(1, "1.0.0")]);
    let mut mono = Mono::open(cfg, &r).expect("a repository");
    mono.set_by_id(&pid(1), "1.0.1").expect("a pending write");
    let mut failed = plan_of(&[(1, Size::Minor)], &[]);
    failed.info.add_failed_commit(commit("abcdef0123", "WIP", &[]));
    assert!(failed.is_poisoned());
    for mode in [Engagement::Dry, Engagement::Changelog, Engagement::Full] {
        assert_eq!(release(&mut mono, &failed, &mode, false, false).err(), Some(Error::ConventionalParse));
        assert_eq!(all_shown(&mono.next.writes), vec!["set 1 1.0.1"]);
    }
    let sized = plan_of(&[(1, Size::Failure)], &[]);
    assert!(sized.is_poisoned());
    assert_eq!(
        release(&mut mono, &sized, &Engagement::Full, false, false).err(),
        Some(Error::ConventionalParse)
    );
    let empty = Plan { info: failed.info.clone(), ..plan_of(&[], &[]) };
    assert_eq!(
        release(&mut mono, &empty, &Engagement::Full, false, false).err(),
        Some(Error::ConventionalParse)
    );
}

#[test]
fn a_release_fails_before_any_write() {
    let mut a = project(1, "A", &[]);
    a.restrictions.push(Restriction { majors: vec![1] });
    let cfg = config(vec![project(2, "B", &[]), a]);
    let r = repo(&[(1, "1.0.0"), (2, "1.0.0")], &[(1, "1.0.0"), (2, "1.0.0")]);
    let mut mono = Mono::open(cfg, &r).expect("a repository");
    let plan = plan_of(&[(2, Size::Minor), (1, Size::Major)], &[]);
    assert_eq!(
        release(&mut mono, &plan, &Engagement::Full, false, false).err(),
        Some(Error::RestrictionViolation)
    );
    assert!(mono.next.writes.is_empty());
    let stranger = plan_of(&[(7, Size::Minor)], &[]);
    assert_eq!(release(&mut mono, &stranger, &Engagement::Full, false, false).err(), Some(Error::NoSuchProject));
    let unchained = plan_of(&[(2, Size::Minor)], &[(2, 1)]);
    assert_eq!(release(&mut mono, &unchained, &Engagement::Full, false, false).err(), Some(Error::NoSuchDepends));
    assert!(mono.next.writes.is_empty());
}

#[test]
fn a_project_without_a_version_cannot_be_released() {
    let cfg = config(vec![project(1, "A", &[])]);
    let r = repo(&[], &[]);
    let mut mono = Mono::open(cfg, &r).expect("a repository");
    let plan = plan_of(&[(1, Size::Minor)], &[]);
    assert_eq!(release(&mut mono, &plan, &Engagement::Full, false, false).err(), Some(Error::NoSuchValue));
}

#[test]
fn the_wrong_branch_stops_a_release() {
    let mut cfg = config(vec![project(1, "A", &[])]);
    cfg.branch = Some("main".to_string());
    let mut r = repo(&[(1, "1.0.0")], &[(1, "1.0.0")]);
    r.branch = Branch::Named("topic".to_string());
    let mut mono = Mono::open(cfg.clone(), &r).expect("a repository");
    assert_eq!(mono.check_branch(), Err(("main".to_string(), "topic".to_string())));
    let plan = plan_of(&[(1, Size::Minor)], &[]);
    assert_eq!(release(&mut mono, &plan, &Engagement::Full, false, false).err(), Some(Error::BranchMismatch));
    assert!(mono.next.writes.is_empty());
    assert_eq!(branch_message("topic", "main"), "Branch name \"topic\" doesn't match \"main\"");

    r.branch = Branch::Detached;
    let detached = Mono::open(cfg.clone(), &r).expect("a repository");
    assert_eq!(detached.check_branch(), Err(("main".to_string(), "((No branch))".to_string())));
    r.branch = Branch::Named("main".to_string());
    assert_eq!(Mono::open(cfg.clone(), &r).expect("a repository").check_branch(), Ok(()));
    r.branch = Branch::Unknown;
    assert_eq!(Mono::open(cfg, &r).expect("a repository").check_branch(), Ok(()));
    let free = config(vec![project(1, "A", &[])]);
    r.branch = Branch::Detached;
    assert_eq!(Mono::open(free.clone(), &r).expect("a repository").check_branch(), Ok(()));
    r.branch = Branch::Named("anything".to_string());
    assert_eq!(Mono::open(free, &r).expect("a repository").check_branch(), Ok(()));
}

#[test]
fn pause_and_resume() {
    let cfg = config(vec![project(1, "A", &[])]);
    let r = repo(&[(1, "1.0.0")], &[(1, "1.0.0")]);
    let mut mono = Mono::open(cfg, &r).expect("a repository");
    let plan = plan_of(&[(1, Size::Minor)], &[]);
    let done = release(&mut mono, &plan, &Engagement::Full, false, true).expect("a release");
    let kept = match done.finish {
        Finish::Paused(state) => state,
        _ => panic!("a pause"),
    };
    assert!(kept.pause);
    assert_eq!(sanity_check(true), Err(Error::PausedState));
    assert_eq!(sanity_check(false), Ok(()));
    let resumed = resume(Some(kept.clone())).expect("a state");
    assert!(!resumed.pause && resumed.advance_prev);
    assert_eq!(all_shown(&resumed.writes), all_shown(&kept.writes));
    assert_eq!(resumed.prev_tag, kept.prev_tag);
    assert_eq!(resume(None).err(), Some(Error::MissingPauseFile));
    assert_eq!(abort(true), Ok(()));
    assert_eq!(abort(false), Err(Error::MissingPauseFile));
}

#[test]
fn failed_hashes_list_the_first_five_short_identifiers() {
    let mut plan = plan_of(&[], &[]);
    assert_eq!(failed_hashes(&plan), "<unfound>");
    plan.info.add_failed_commit(commit("bbbbbbbbbbbb", "WIP", &[]));
    assert_eq!(failed_hashes(&plan), "bbbbbbb");
    plan.info.add_failed_commit(commit("aaaaaaa", "WIP", &[]));
    plan.info.add_failed_commit(commit("ccc", "WIP", &[]));
    assert_eq!(failed_hashes(&plan), "aaaaaaa,bbbbbbb,ccc");
    plan.info.add_failed_commit(commit("dddddddd1", "WIP", &[]));
    plan.info.add_failed_commit(commit("eeeeeeee2", "WIP", &[]));
    assert_eq!(failed_hashes(&plan), "aaaaaaa,bbbbbbb,ccc,ddddddd,eeeeeee");
    plan.info.add_failed_commit(commit("ffffffff3", "WIP", &[]));
    assert_eq!(failed_hashes(&plan), "aaaaaaa,bbbbbbb,ccc,ddddddd,eeeeeee,\u{2026}");
    assert_eq!(
        poison_message(&plan),
        "Couldn't parse conventional commit(s): aaaaaaa,bbbbbbb,ccc,ddddddd,eeeeeee,\u{2026}"
    );
}

#[test]
fn chain_writes_need_a_dependent_a_dependency_and_a_version() {
    let mut b = project(2, "B", &[]);
    b.depends.push(Dependency { on: pid(1), edge: Depends::new(SizeMapper::identity()) });
    let cfg = config(vec![project(1, "A", &[]), b]);
    let r = repo(&[], &[]);
    let mut mono = Mono::open(cfg, &r).expect("a repository");
    let vers = map(&[(1, "1.1.0"), (2, "2.0.0")]);
    assert_eq!(mono.write_chains(&[(pid(1), pid(2))], &vers), Ok(()));
    assert_eq!(all_shown(&mono.next.writes), vec!["chain 1->2 1.1.0"]);
    assert_eq!(mono.write_chains(&[(pid(1), pid(9))], &vers), Err(Error::NoSuchDependent));
    assert_eq!(mono.write_chains(&[(pid(2), pid(1))], &vers), Err(Error::NoSuchDepends));
    assert_eq!(mono.write_chains(&[(pid(1), pid(2))], &map(&[(2, "2.0.0")])), Err(Error::NoNewValue));
    assert_eq!(
        mono.write_chains(&[(pid(1), pid(2)), (pid(1), pid(9))], &vers),
        Err(Error::NoSuchDependent)
    );
    assert_eq!(all_shown(&mono.next.writes), vec!["chain 1->2 1.1.0"]);
    assert_eq!(mono.write_chains(&[], &vers), Ok(()));
}

#[test]
fn pending_writes_are_kept_in_order_and_handed_over_once() {
    let mut a = project(1, "A", &[]);
    a.changelog = Some("A.md".to_string());
    let cfg = config(vec![a, project(2, "B", &[])]);
    let r = repo(&[], &[]);
    let mut mono = Mono::open(cfg, &r).expect("a repository");
    assert_eq!(mono.forward_by_id(&pid(2), "2.0.0"), Ok(()));
    assert_eq!(mono.forward_by_id(&pid(5), "2.0.0"), Err(Error::NoSuchProject));
    assert_eq!(mono.set_by_id(&pid(5), "2.0.0"), Err(Error::NoSuchProject));
    assert_eq!(mono.write_changelog(&pid(1), &Changelog::empty(), "1.0.1"), Ok(None));
    assert_eq!(mono.write_changelog(&pid(1), &one_line(), "1.0.1"), Ok(Some("A.md".to_string())));
    assert_eq!(mono.write_changelog(&pid(2), &one_line(), "2.0.0"), Ok(None));
    assert_eq!(mono.write_changelog(&pid(5), &one_line(), "2.0.0"), Err(Error::NoSuchProject));
    assert_eq!(mono.write_changelogs().map(|logs| all_shown(&logs)), Ok(vec!["log 1 1.0.1 A.md".to_string()]));
    assert!(mono.next.changelogs_only);
    let state = mono.commit(false, false).expect("a state");
    assert_eq!(all_shown(&state.writes), vec!["tag 2 2.0.0", "log 1 1.0.1 A.md"]);
    assert!(!state.advance_prev && !state.pause);
    assert!(mono.next.writes.is_empty());
    assert!(mono.commit(true, true).expect("a state").writes.is_empty());
    let fresh = StateWrite::new();
    assert!(fresh.writes.is_empty() && !fresh.changelogs_only);
}

#[test]
fn the_versions_of_a_release_lie_over_the_last_known_ones() {
    let cfg = config(vec![project(1, "A", &[]), project(2, "B", &[]), project(3, "C", &[])]);
    let mut r = repo(&[(1, "1.0.0"), (2, "2.5.0"), (3, "3.0.0")], &[(1, "1.0.0"), (2, "2.0.0"), (3, "3.0.0")]);
    r.prev_versions = map(&[(1, "1.0.0"), (2, "2.0.0"), (3, "3.0.0"), (4, "4.0.0")]);
    let mut mono = Mono::open(cfg, &r).expect("a repository");
    let plan = plan_of(&[(1, Size::Minor), (2, Size::Patch), (3, Size::Empty)], &[]);
    let done = release(&mut mono, &plan, &Engagement::Full, false, false).expect("a release");
    let state = match done.finish {
        Finish::Committed(state) => state,
        _ => panic!("a commit"),
    };
    let versions = state.versions();
    assert_eq!(versions.get(&1), Some(&"1.1.0".to_string()));
    assert_eq!(versions.get(&2), Some(&"2.5.0".to_string()));
    assert_eq!(versions.get(&3), Some(&"3.0.0".to_string()));
    assert_eq!(versions.get(&4), None);
    assert_eq!(versions.len(), 3);
}

#[test]
fn opening_a_repository_checks_the_configuration() {
    let r = repo(&[], &[]);
    let twice = config(vec![project(1, "A", &[]), project(1, "B", &[])]);
    assert!(!twice.is_valid());
    assert_eq!(Mono::open(twice, &r).err(), Some(Error::ConfigParse));
    let mut dangling = project(1, "A", &[]);
    dangling.depends.push(Dependency { on: pid(2), edge: Depends::new(SizeMapper::identity()) });
    assert_eq!(Mono::here(config(vec![dangling]), &r).err(), Some(Error::ConfigParse));
    let mut doubled = project(1, "A", &[]);
    for _ in 0..2 {
        doubled.depends.push(Dependency { on: pid(2), edge: Depends::new(SizeMapper::identity()) });
    }
    assert_eq!(Mono::open(config(vec![doubled, project(2, "B", &[])]), &r).err(), Some(Error::ConfigParse));
    let mut prefixed = project(1, "A", &[]);
    prefixed.tag_prefix = Some("a".to_string());
    assert_eq!(Mono::open(config(vec![prefixed]), &r).err(), Some(Error::TagResolve));
    let fine = Mono::here(config(vec![project(1, "A", &[])]), &r).expect("a repository");
    assert_eq!(fine.config().projects().len(), 1);
    assert_eq!(fine.config().prev_tag(), "versio-prev");
    assert!(fine.config().sizes().rules.len() == 2 && fine.config().branch().is_none());
    assert!(fine.repo().line_commits.is_empty());
    assert!(fine.last_commits.is_empty());
}

#[test]
fn keyed_files_pair_each_file_with_the_kind_of_its_commit() {
    let at = Timestamp { secs: 0, nanos: 0, offset: 0 };
    let prs = vec![
        FullPr {
            number: 1,
            title: "one".to_string(),
            closed_at: at,
            discovery_order: 0,
            commits: vec![commit("c1", "feat: x", &["a", "b"]), commit("c2", "WIP", &["c"])],
            best_guess: false,
        },
        FullPr {
            number: 2,
            title: "guess".to_string(),
            closed_at: at,
            discovery_order: 1,
            commits: vec![commit("c3", "fix: y", &["d"])],
            best_guess: true,
        },
        FullPr {
            number: 3,
            title: "three".to_string(),
            closed_at: at,
            discovery_order: 2,
            commits: vec![commit("c4", "fix: z", &["e"])],
            best_guess: false,
        },
    ];
    let files: Vec<(Option<String>, String)> =
        keyed_files(&prs).into_iter().map(|f| (f.kind, f.path)).collect();
    assert_eq!(
        files,
        vec![
            (Some("feat".to_string()), "a".to_string()),
            (Some("feat".to_string()), "b".to_string()),
            (None, "c".to_string()),
            (Some("fix".to_string()), "e".to_string()),
        ]
    );
    assert_eq!(prs[1].number(), 2);
    assert_eq!(prs[1].title(), "guess");
    assert_eq!(prs[1].closed_at(), &at);
    assert_eq!(prs[1].discovery_order(), 1);
    assert_eq!(prs[1].included_commits().len(), 1);
}
