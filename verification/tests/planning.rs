use versio::builder::{commit_url, pr_url, GithubInfo, PlanBuilder};
use versio::walk::build_plan;
use versio::changelog::{
    Changelog, ChangelogEntry, CommitInfo, FullPr, LoggedCommit, LoggedPr, Timestamp,
};
use versio::config::{ConfigFile, SizeRules};
use versio::error::Error;
use versio::history::{History, Slicer, Snapshot};
use versio::plan::{Plan, PlanEntry, PlanInfo};
use versio::project::{Depends, Dependency, Project, ProjectId, SizeMapper};
use versio::size::Size;

fn pid(n: u32) -> ProjectId {
    ProjectId::from_id(n)
}

fn project(id: u32, name: &str, covers: &[&str]) -> Project {
    let mut p = Project::new(pid(id), name.to_string());
    p.covers = covers.iter().map(|s| s.to_string()).collect();
    p
}

fn depend(p: &mut Project, on: u32, mapper: SizeMapper) {
    p.depends.push(Dependency { on: pid(on), edge: Depends::new(mapper) });
}

fn sizes() -> SizeRules {
    let mut rules = SizeRules::new(Size::NoBump);
    rules.add("feat".to_string(), Size::Minor);
    rules.add("fix".to_string(), Size::Patch);
    rules
}

fn config(projects: Vec<Project>) -> ConfigFile {
    ConfigFile { projects, sizes: sizes(), prev_tag: "versio-prev".to_string(), branch: None }
}

fn commit(id: &str, message: &str, files: &[&str]) -> CommitInfo {
    CommitInfo::new(
        id.to_string(),
        message.lines().next().unwrap_or("").to_string(),
        message.to_string(),
        files.iter().map(|s| s.to_string()).collect(),
    )
}

fn when() -> Timestamp {
    Timestamp { secs: 1_700_000_000, nanos: 0, offset: 3600 }
}

fn pr(number: u32, order: usize, commits: Vec<CommitInfo>) -> FullPr {
    FullPr {
        number,
        title: format!("PR {}", number),
        closed_at: when(),
        discovery_order: order,
        commits,
        best_guess: false,
    }
}

fn history(cfg: &ConfigFile, commits: &[&str]) -> History {
    History {
        snapshots: commits
            .iter()
            .map(|c| Snapshot { commit: c.to_string(), file: Some(cfg.clone()) })
            .collect(),
    }
}

fn entry(plan: &Plan, id: u32) -> &PlanEntry {
    plan.entry(&pid(id)).expect("the plan speaks of the project")
}

fn logged_prs(log: &Changelog) -> Vec<(u32, Size)> {
    log.entries()
        .iter()
        .filter_map(|e| match e {
            ChangelogEntry::Pr(p, s) => Some((p.number(), *s)),
            ChangelogEntry::Dep(_, _) => None,
        })
        .collect()
}

fn logged_deps(log: &Changelog) -> Vec<(u32, String)> {
    log.entries()
        .iter()
        .filter_map(|e| match e {
            ChangelogEntry::Dep(id, name) => Some((id.id(), name.clone())),
            ChangelogEntry::Pr(_, _) => None,
        })
        .collect()
}

#[test]
fn single_project_feat_commit() {
    let cfg = config(vec![project(1, "core", &["src/*"])]);
    let hist = history(&cfg, &["yyyyyyy1"]);
    let prs = vec![pr(5, 0, vec![commit("yyyyyyy1", "feat: a new thing", &["src/a.rs"])])];
    let plan = build_plan(&hist, &cfg, None, &prs).expect("a plan");
    assert_eq!(plan.incrs().len(), 1);
    let e = entry(&plan, 1);
    assert_eq!(e.size, Size::Minor);
    assert_eq!(logged_prs(&e.changelog), vec![(5, Size::Minor)]);
    assert!(plan.ineffective().is_empty());
    assert!(plan.chain_writes().is_empty());
    assert!(plan.info().failed_commits().is_empty());
    assert!(!plan.is_poisoned());
    assert_eq!(Size::Minor.apply("1.2.3"), Ok("1.3.0".to_string()));
}

#[test]
fn dependency_cascade() {
    let a = project(1, "A", &["a/*"]);
    let mut b = project(2, "B", &["b/*"]);
    depend(&mut b, 1, SizeMapper::identity().with(Size::Minor, Size::Patch));
    let cfg = config(vec![a, b]);
    let hist = history(&cfg, &["c1"]);
    let prs = vec![pr(1, 0, vec![commit("c1", "feat: in a", &["a/x"])])];
    let plan = build_plan(&hist, &cfg, None, &prs).expect("a plan");
    assert_eq!(entry(&plan, 1).size, Size::Minor);
    assert_eq!(entry(&plan, 2).size, Size::Patch);
    assert_eq!(plan.chain_writes(), &[(pid(1), pid(2))]);
    assert_eq!(logged_deps(&entry(&plan, 2).changelog), vec![(1, "A".to_string())]);
    assert!(logged_prs(&entry(&plan, 2).changelog).is_empty());
    assert!(logged_deps(&entry(&plan, 1).changelog).is_empty());
    assert_eq!(Size::Minor.apply("1.0.0"), Ok("1.1.0".to_string()));
    assert_eq!(Size::Patch.apply("1.0.0"), Ok("1.0.1".to_string()));
}

#[test]
fn duplicate_commit_across_prs() {
    let cfg = config(vec![project(1, "core", &["src/*"])]);
    let hist = history(&cfg, &["abc"]);
    let prs = vec![
        pr(10, 0, vec![commit("abc", "feat: once", &["src/a.rs"])]),
        pr(11, 1, vec![commit("abc", "feat: once", &["src/a.rs"])]),
    ];
    let plan = build_plan(&hist, &cfg, None, &prs).expect("a plan");
    let e = entry(&plan, 1);
    assert_eq!(logged_prs(&e.changelog), vec![(11, Size::Minor), (10, Size::Empty)]);
    let entries = e.changelog.entries();
    match (&entries[0], &entries[1]) {
        (ChangelogEntry::Pr(first, _), ChangelogEntry::Pr(second, _)) => {
            assert_eq!(first.number(), 11);
            assert!(first.commits()[0].applies() && !first.commits()[0].duplicate());
            assert!(first.commits()[0].included());
            assert_eq!(second.number(), 10);
            assert!(second.commits()[0].applies() && second.commits()[0].duplicate());
            assert!(!second.commits()[0].included());
        }
        _ => panic!("two pull requests"),
    }
    assert_eq!(e.size, Size::Minor);
}

#[test]
fn failed_conventional() {
    let cfg = config(vec![project(1, "core", &["src/*"])]);
    let hist = history(&cfg, &["1111111aaa", "2222222bbb"]);
    let prs = vec![pr(
        3,
        0,
        vec![commit("2222222bbb", "WIP", &["src/a.rs"]), commit("1111111aaa", "more WIP", &["README"])],
    )];
    let plan = build_plan(&hist, &cfg, None, &prs).expect("a plan");
    assert!(plan.is_poisoned());
    assert_eq!(entry(&plan, 1).size, Size::Failure);
    let failed: Vec<&str> = plan.info().failed_commits().iter().map(|c| c.id()).collect();
    assert_eq!(failed, vec!["1111111aaa", "2222222bbb"]);
    assert_eq!(
        versio::release::poison_message(&plan),
        "Couldn't parse conventional commit(s): 1111111,2222222"
    );
}

#[test]
fn a_pr_that_touches_no_project_is_ineffective_once() {
    let cfg = config(vec![project(1, "core", &["src/*"]), project(2, "extras", &["lib/*"])]);
    let hist = history(&cfg, &["c1", "c2"]);
    let prs = vec![
        pr(1, 0, vec![commit("c1", "feat: elsewhere", &["docs/a.md", "README"])]),
        pr(2, 1, vec![commit("c2", "fix: here", &["lib/a.rs"])]),
    ];
    let plan = build_plan(&hist, &cfg, None, &prs).expect("a plan");
    let numbers: Vec<u32> = plan.ineffective().iter().map(|p| p.number()).collect();
    assert_eq!(numbers, vec![1]);
    assert!(logged_prs(&entry(&plan, 1).changelog).is_empty());
    assert_eq!(logged_prs(&entry(&plan, 2).changelog), vec![(2, Size::Patch)]);
    assert_eq!(entry(&plan, 1).size, Size::Empty);
    assert_eq!(entry(&plan, 2).size, Size::Patch);
}

#[test]
fn attribution_goes_by_the_configuration_at_the_commit() {
    let now = config(vec![project(1, "core", &["src/*", "moved/*"])]);
    let then = config(vec![project(1, "core", &["src/*"])]);
    let hist = History {
        snapshots: vec![
            Snapshot { commit: "old".to_string(), file: Some(then) },
            Snapshot { commit: "new".to_string(), file: Some(now.clone()) },
        ],
    };
    let prs = vec![
        pr(1, 0, vec![commit("old", "feat: before the move", &["moved/a.rs"])]),
        pr(2, 1, vec![commit("new", "fix: after the move", &["moved/a.rs"])]),
    ];
    let plan = build_plan(&hist, &now, None, &prs).expect("a plan");
    assert_eq!(logged_prs(&entry(&plan, 1).changelog), vec![(2, Size::Patch)]);
    assert_eq!(entry(&plan, 1).size, Size::Patch);
    assert_eq!(plan.ineffective().iter().map(|p| p.number()).collect::<Vec<_>>(), vec![1]);
}

#[test]
fn a_project_that_the_current_configuration_lacks_gets_nothing() {
    let now = config(vec![project(1, "core", &["src/*"])]);
    let then = config(vec![project(1, "core", &["src/*"]), project(2, "gone", &["gone/*"])]);
    let hist = History { snapshots: vec![Snapshot { commit: "c".to_string(), file: Some(then) }] };
    let prs = vec![pr(1, 0, vec![commit("c", "feat: x", &["gone/a.rs"])])];
    let plan = build_plan(&hist, &now, None, &prs).expect("a plan");
    assert_eq!(plan.incrs().len(), 1);
    assert_eq!(entry(&plan, 1).size, Size::Empty);
    assert_eq!(plan.ineffective().len(), 1);
}

#[test]
fn the_strongest_applying_commit_sizes_the_pull_request() {
    let cfg = config(vec![project(1, "core", &["src/*"])]);
    let hist = history(&cfg, &["c1", "c2", "c3"]);
    let prs = vec![pr(
        1,
        0,
        vec![
            commit("c1", "fix: small", &["src/a.rs"]),
            commit("c2", "feat: bigger", &["src/b.rs"]),
            commit("c3", "feat!: elsewhere", &["docs/x"]),
        ],
    )];
    let plan = build_plan(&hist, &cfg, None, &prs).expect("a plan");
    let e = entry(&plan, 1);
    assert_eq!(e.size, Size::Minor);
    match &e.changelog.entries()[0] {
        ChangelogEntry::Pr(p, s) => {
            assert_eq!(*s, Size::Minor);
            let flags: Vec<(&str, Size, bool)> =
                p.commits().iter().map(|c| (c.oid(), c.size(), c.applies())).collect();
            assert_eq!(
                flags,
                vec![("c1", Size::Patch, true), ("c2", Size::Minor, true), ("c3", Size::NoBump, false)]
            );
        }
        _ => panic!("a pull request"),
    }
}

#[test]
fn sizes_only_grow_across_pull_requests() {
    let cfg = config(vec![project(1, "core", &["src/*"])]);
    let hist = history(&cfg, &["c1", "c2"]);
    let prs = vec![
        pr(1, 0, vec![commit("c1", "feat: big", &["src/a.rs"])]),
        pr(2, 1, vec![commit("c2", "fix: small", &["src/a.rs"])]),
    ];
    let plan = build_plan(&hist, &cfg, None, &prs).expect("a plan");
    assert_eq!(entry(&plan, 1).size, Size::Minor);
    assert_eq!(logged_prs(&entry(&plan, 1).changelog), vec![(2, Size::Patch), (1, Size::Minor)]);
}

#[test]
fn no_pull_requests_make_an_empty_plan() {
    let cfg = config(vec![project(1, "core", &["src/*"])]);
    let plan = build_plan(&History { snapshots: vec![] }, &cfg, None, &vec![]).expect("a plan");
    assert!(plan.incrs().is_empty());
    assert!(plan.ineffective().is_empty() && plan.chain_writes().is_empty());
}

#[test]
fn every_edge_is_a_chain_write_whatever_the_size() {
    let a = project(1, "A", &["a/*"]);
    let mut b = project(2, "B", &["b/*"]);
    depend(&mut b, 1, SizeMapper::identity());
    let mut c = project(3, "C", &["c/*"]);
    depend(&mut c, 1, SizeMapper::identity());
    depend(&mut c, 2, SizeMapper::identity());
    let cfg = config(vec![c, b, a]);
    let plan = build_plan(&History { snapshots: vec![] }, &cfg, None, &vec![]).expect("a plan");
    let mut writes = plan.chain_writes().to_vec();
    writes.sort();
    assert_eq!(writes, vec![(pid(1), pid(2)), (pid(1), pid(3)), (pid(2), pid(3))]);
    let at = |e: (ProjectId, ProjectId)| plan.chain_writes().iter().position(|w| *w == e).unwrap();
    assert!(at((pid(1), pid(2))) < at((pid(2), pid(3))));
    assert!(plan.incrs().is_empty());
}

#[test]
fn a_bump_reaches_the_dependents_of_dependents() {
    let a = project(1, "A", &["a/*"]);
    let mut b = project(2, "B", &["b/*"]);
    depend(&mut b, 1, SizeMapper::identity());
    let mut c = project(3, "C", &["c/*"]);
    depend(&mut c, 2, SizeMapper::identity());
    let cfg = config(vec![c, b, a]);
    let hist = history(&cfg, &["c1"]);
    let prs = vec![pr(1, 0, vec![commit("c1", "feat: in a", &["a/x"])])];
    let plan = build_plan(&hist, &cfg, None, &prs).expect("a plan");
    assert_eq!(entry(&plan, 1).size, Size::Minor);
    assert_eq!(entry(&plan, 2).size, Size::Minor);
    assert_eq!(entry(&plan, 3).size, Size::Minor);
    assert!(plan.chain_writes().contains(&(pid(1), pid(2))));
    assert!(plan.chain_writes().contains(&(pid(2), pid(3))));
    assert_eq!(logged_deps(&entry(&plan, 3).changelog), vec![(2, "B".to_string())]);
}

#[test]
fn a_mapper_can_drop_a_bump() {
    let a = project(1, "A", &["a/*"]);
    let mut b = project(2, "B", &["b/*"]);
    depend(&mut b, 1, SizeMapper::identity().with(Size::Minor, Size::Empty));
    let cfg = config(vec![a, b]);
    let hist = history(&cfg, &["c1"]);
    let prs = vec![pr(1, 0, vec![commit("c1", "feat: in a", &["a/x"])])];
    let plan = build_plan(&hist, &cfg, None, &prs).expect("a plan");
    assert_eq!(entry(&plan, 2).size, Size::Empty);
    assert!(entry(&plan, 2).changelog.is_empty());
    assert_eq!(plan.chain_writes(), &[(pid(1), pid(2))]);
}

#[test]
fn a_dependency_cycle_is_an_error() {
    let mut a = project(1, "A", &["a/*"]);
    depend(&mut a, 2, SizeMapper::identity());
    let mut b = project(2, "B", &["b/*"]);
    depend(&mut b, 1, SizeMapper::identity());
    let cfg = config(vec![a, b, project(3, "C", &[])]);
    assert_eq!(
        build_plan(&History { snapshots: vec![] }, &cfg, None, &vec![]).err(),
        Some(Error::DependencyCycle)
    );
    let mut own = project(1, "A", &[]);
    depend(&mut own, 1, SizeMapper::identity());
    assert_eq!(
        build_plan(&History { snapshots: vec![] }, &config(vec![own]), None, &vec![]).err(),
        Some(Error::DependencyCycle)
    );
}

#[test]
fn dependencies_are_listed_before_pull_requests_and_by_identifier_text() {
    let mut z = project(7, "Z", &["z/*"]);
    for up in [9, 10, 2] {
        depend(&mut z, up, SizeMapper::identity());
    }
    let cfg = config(vec![
        project(2, "two", &["two/*"]),
        project(9, "nine", &["nine/*"]),
        project(10, "ten", &["ten/*"]),
        z,
    ]);
    let hist = history(&cfg, &["c1"]);
    let prs =
        vec![pr(1, 0, vec![commit("c1", "fix: all over", &["two/a", "nine/a", "ten/a", "z/a"])])];
    let plan = build_plan(&hist, &cfg, None, &prs).expect("a plan");
    let log = &entry(&plan, 7).changelog;
    let ids: Vec<u32> = logged_deps(log).iter().map(|d| d.0).collect();
    assert_eq!(ids, vec![10, 2, 9]);
    assert!(matches!(log.entries()[3], ChangelogEntry::Pr(_, _)));
    assert_eq!(log.entries().len(), 4);
}

#[test]
fn a_commit_without_a_snapshot_stops_the_plan() {
    let cfg = config(vec![project(1, "core", &["src/*"])]);
    let prs = vec![pr(1, 0, vec![commit("c1", "feat: x", &["src/a.rs"])])];
    assert_eq!(
        build_plan(&History { snapshots: vec![] }, &cfg, None, &prs).err(),
        Some(Error::MissingConfigAtRev)
    );
    let unreadable = History { snapshots: vec![Snapshot { commit: "c1".to_string(), file: None }] };
    assert_eq!(build_plan(&unreadable, &cfg, None, &prs).err(), Some(Error::ConfigParse));
}

#[test]
fn a_path_or_pattern_that_cannot_be_matched_stops_the_plan() {
    let cfg = config(vec![project(1, "core", &["src/*"])]);
    let hist = history(&cfg, &["c1"]);
    let prs = vec![pr(1, 0, vec![commit("c1", "feat: x", &["src\\a.rs"])])];
    assert_eq!(build_plan(&hist, &cfg, None, &prs).err(), Some(Error::PathNotPortable));
    let bad = config(vec![project(1, "core", &["a**b"])]);
    let hist = history(&bad, &["c1"]);
    let prs = vec![pr(1, 0, vec![commit("c1", "feat: x", &["src/a.rs"])])];
    assert_eq!(build_plan(&hist, &bad, None, &prs).err(), Some(Error::BadPattern));
}

#[test]
fn the_steps_of_the_builder_have_to_come_in_order() {
    let cfg = config(vec![project(1, "core", &["src/*"])]);
    let hist = history(&cfg, &["c1"]);
    let mut b = PlanBuilder::create(&hist, &cfg, None);
    assert_eq!(b.start_commit(&commit("c1", "feat: x", &[])), Err(Error::NotOnPr));
    assert_eq!(b.start_file("src/a.rs"), Err(Error::NotOnCommit));
    assert_eq!(b.finish_pr(), Err(Error::NotOnPr));
    assert_eq!(b.start_pr(&pr(1, 0, vec![])), Ok(()));
    assert_eq!(b.start_file("src/a.rs"), Err(Error::NotOnCommit));
    assert_eq!(b.start_commit(&commit("c1", "feat: x", &[])), Ok(()));
    assert_eq!(b.start_file("src/a.rs"), Ok(()));
    assert_eq!(b.finish_file(), Ok(()));
    assert_eq!(b.finish_commit(), Ok(()));
    assert_eq!(b.finish_pr(), Ok(()));
    assert_eq!(b.finish_pr(), Err(Error::NotOnPr));
    assert_eq!(b.handle_deps(), Ok(()));
    assert_eq!(b.sort_and_dedup(), Ok(()));
    let plan = b.build();
    assert_eq!(entry(&plan, 1).size, Size::Minor);
}

#[test]
fn addresses_point_to_the_hosting_service() {
    let gh = Some(GithubInfo { owner_name: "owner".to_string(), repo_name: "repo".to_string() });
    assert_eq!(pr_url(&gh, 42), Some("https://github.com/owner/repo/pull/42".to_string()));
    assert_eq!(commit_url(&gh, "abc123"), Some("https://github.com/owner/repo/commit/abc123".to_string()));
    assert_eq!(pr_url(&None, 42), None);
    assert_eq!(commit_url(&None, "abc123"), None);
    let cfg = config(vec![project(1, "core", &["src/*"])]);
    let hist = history(&cfg, &["c1"]);
    let prs = vec![pr(8, 0, vec![commit("c1", "feat: x", &["src/a.rs"])])];
    let plan = build_plan(&hist, &cfg, gh, &prs).expect("a plan");
    match &entry(&plan, 1).changelog.entries()[0] {
        ChangelogEntry::Pr(p, _) => {
            assert_eq!(p.url(), &Some("https://github.com/owner/repo/pull/8".to_string()));
            assert_eq!(p.commits()[0].url(), &Some("https://github.com/owner/repo/commit/c1".to_string()));
            assert_eq!(p.title(), "PR 8");
            assert_eq!(p._closed_at(), &when());
            assert_eq!(p.discovery_order(), 0);
            assert_eq!(p.commits()[0].summary(), "feat: x");
            assert_eq!(p.commits()[0].message(), "feat: x");
        }
        _ => panic!("a pull request"),
    }
}

#[test]
fn failed_commits_are_kept_once_and_in_order() {
    let mut info = PlanInfo::new();
    for id in ["m", "c", "x", "c", "a", "m"] {
        info.add_failed_commit(commit(id, "WIP", &[]));
    }
    let ids: Vec<&str> = info.failed_commits().iter().map(|c| c.id()).collect();
    assert_eq!(ids, vec!["a", "c", "m", "x"]);
}

#[test]
fn logged_values_can_be_copied() {
    let c = LoggedCommit::new("o".to_string(), "s".to_string(), "m".to_string(), Size::Patch, None);
    assert!(!c.applies() && !c.duplicate() && !c.included());
    let d = c.replicate();
    assert_eq!((d.oid(), d.summary(), d.message(), d.size()), ("o", "s", "m", Size::Patch));
    let p = LoggedPr::capture(&pr(4, 2, vec![]), Some("u".to_string()));
    let q = p.replicate();
    assert_eq!((q.number(), q.title(), q.discovery_order()), (4, "PR 4", 2));
    assert!(q.commits().is_empty());
    let mut log = Changelog::empty();
    assert!(log.is_empty());
    log.add_entry(p, Size::Minor);
    log.add_dep(pid(3), "three");
    assert_eq!(log.entries().len(), 2);
    assert!(!log.is_empty());
}

#[test]
fn the_slicer_stands_where_it_was_sliced_to() {
    let one = config(vec![project(1, "core", &[])]);
    let two = config(vec![project(1, "core", &[]), project(2, "extras", &[])]);
    let hist = History {
        snapshots: vec![
            Snapshot { commit: "a".to_string(), file: Some(one) },
            Snapshot { commit: "b".to_string(), file: Some(two) },
            Snapshot { commit: "c".to_string(), file: None },
        ],
    };
    let mut s = Slicer::init(&hist);
    assert_eq!(s.file().err(), Some(Error::NotSliced));
    assert_eq!(s.slice_to("b"), Ok(()));
    assert_eq!(s.file().map(|f| f.projects().len()), Ok(2));
    assert_eq!(s.slice_to("a"), Ok(()));
    assert_eq!(s.file().map(|f| f.projects().len()), Ok(1));
    assert_eq!(s.slice_to("zzz"), Err(Error::MissingConfigAtRev));
    assert_eq!(s.slice_to("c"), Err(Error::ConfigParse));
    assert_eq!(s.file().map(|f| f.projects().len()), Ok(1));
}

fn logged(number: u32, order: usize, commits: &[(&str, Size, bool)]) -> LoggedPr {
    let mut p = LoggedPr::capture(&pr(number, order, vec![]), None);
    for (oid, size, applies) in commits {
        let mut c = LoggedCommit::new(oid.to_string(), String::new(), String::new(), *size, None);
        c.applies = *applies;
        p.commits.push(c);
    }
    p
}

#[test]
fn no_commit_is_included_twice_in_a_changelog() {
    let mut log = Changelog::empty();
    log.add_entry(
        logged(1, 0, &[("a", Size::Major, true), ("b", Size::Patch, true), ("a", Size::Major, true)]),
        Size::Major,
    );
    log.add_dep(pid(4), "four");
    log.add_entry(logged(2, 1, &[("b", Size::Patch, true), ("c", Size::Minor, false)]), Size::Patch);
    log.add_entry(logged(3, 2, &[("c", Size::Minor, true), ("d", Size::Patch, true)]), Size::Minor);
    log.sort_and_dedup();
    let mut included: Vec<String> = Vec::new();
    let mut shape: Vec<(u32, Size, Vec<(String, bool)>)> = Vec::new();
    for e in log.entries() {
        if let ChangelogEntry::Pr(p, size) = e {
            for c in p.commits().iter().filter(|c| c.included()) {
                assert!(!included.contains(&c.oid().to_string()), "{} twice", c.oid());
                included.push(c.oid().to_string());
            }
            let flags = p.commits().iter().map(|c| (c.oid().to_string(), c.duplicate())).collect();
            shape.push((p.number(), *size, flags));
        }
    }
    assert!(matches!(log.entries()[0], ChangelogEntry::Dep(_, _)));
    let s = |t: &str| t.to_string();
    assert_eq!(
        shape,
        vec![
            (3, Size::Minor, vec![(s("c"), false), (s("d"), false)]),
            (2, Size::Patch, vec![(s("b"), false), (s("c"), true)]),
            (1, Size::Major, vec![(s("a"), false), (s("b"), true), (s("a"), true)]),
        ]
    );
    assert_eq!(included, vec![s("c"), s("d"), s("b"), s("a")]);
}

#[test]
fn a_commit_that_does_not_apply_still_marks_later_ones_as_duplicates() {
    let mut log = Changelog::empty();
    log.add_entry(logged(1, 0, &[("a", Size::Minor, true)]), Size::Minor);
    log.add_entry(logged(2, 1, &[("a", Size::Minor, false)]), Size::Empty);
    log.sort_and_dedup();
    match (&log.entries()[0], &log.entries()[1]) {
        (ChangelogEntry::Pr(first, s1), ChangelogEntry::Pr(second, s2)) => {
            assert_eq!((first.number(), *s1), (2, Size::Empty));
            assert_eq!((second.number(), *s2), (1, Size::Empty));
            assert!(second.commits()[0].duplicate());
        }
        _ => panic!("two pull requests"),
    }
}

#[test]
fn entries_that_tie_keep_their_order() {
    let mut log = Changelog::empty();
    log.add_entry(logged(7, 3, &[]), Size::Empty);
    log.add_dep(pid(5), "first five");
    log.add_entry(logged(8, 3, &[]), Size::Empty);
    log.add_dep(pid(5), "second five");
    log.add_entry(logged(9, 4, &[]), Size::Empty);
    log.sort_and_dedup();
    let seen: Vec<String> = log
        .entries()
        .iter()
        .map(|e| match e {
            ChangelogEntry::Pr(p, _) => format!("pr {}", p.number()),
            ChangelogEntry::Dep(_, name) => name.clone(),
        })
        .collect();
    assert_eq!(seen, vec!["first five", "second five", "pr 9", "pr 7", "pr 8"]);
}
