use std::cmp::Ordering;
use std::collections::HashMap;
use versio::changelog::CommitInfo;
use versio::config::{ConfigFile, SizeRules};
use versio::error::Error;
use versio::history::{History, Snapshot};
use versio::last_commits::{find_last_commits, LastCommitBuilder};
use versio::project::{Project, ProjectId};
use versio::repo::{Branch, Repo, TagAnswer, TagRef};
use versio::size::Size;
use versio::tag_order::version_sort;
use versio::tags::{
    best_version, clip_signature, fill_from_prev, find_old_tags, tag_fnmatches, tags_to_versions,
    version_of_tag, OldTags,
};

fn project(id: u32, name: &str, prefix: Option<&str>, covers: &[&str]) -> Project {
    let mut p = Project::new(ProjectId::from_id(id), name.to_string());
    p.tag_prefix = prefix.map(|s| s.to_string());
    p.covers = covers.iter().map(|s| s.to_string()).collect();
    p
}

fn config(projects: Vec<Project>) -> ConfigFile {
    ConfigFile {
        projects,
        sizes: SizeRules::new(Size::NoBump),
        prev_tag: "versio-prev".to_string(),
        branch: None,
    }
}

fn answer(pattern: &str, tags: &[(&str, &str)]) -> TagAnswer {
    TagAnswer {
        pattern: pattern.to_string(),
        tags: tags.iter().map(|(n, o)| TagRef { name: n.to_string(), oid: o.to_string() }).collect(),
    }
}

fn repo(answers: Vec<TagAnswer>, commits: &[&str], prev: &[(u32, &str)]) -> Repo {
    Repo {
        branch: Branch::Unknown,
        tag_answers: answers,
        commits_to_head: commits.iter().map(|s| s.to_string()).collect(),
        line_commits: vec![],
        prev_versions: prev.iter().map(|(k, v)| (*k, v.to_string())).collect(),
        values: HashMap::new(),
        prev_values: HashMap::new(),
        history: History { snapshots: vec![] },
    }
}

fn strings(v: &[&str]) -> Vec<String> {
    v.iter().map(|s| s.to_string()).collect()
}

#[test]
fn a_project_without_a_prefix_has_no_tag_patterns() {
    assert!(tag_fnmatches(&project(1, "p", None, &[])).is_empty());
    let mut p = project(1, "p", None, &[]);
    p.tag_majors = Some(vec![1, 2]);
    assert!(tag_fnmatches(&p).is_empty());
}

#[test]
fn the_empty_prefix_gives_bare_version_patterns() {
    let mut p = project(1, "p", Some(""), &[]);
    assert_eq!(tag_fnmatches(&p), strings(&["v*"]));
    p.tag_majors = Some(vec![1, 12]);
    assert_eq!(tag_fnmatches(&p), strings(&["v1.*", "v12.*"]));
    p.tag_majors = Some(vec![]);
    assert!(tag_fnmatches(&p).is_empty());
}

#[test]
fn a_prefix_and_separator_go_before_the_version_pattern() {
    let mut p = project(1, "p", Some("proj"), &[]);
    assert_eq!(tag_fnmatches(&p), strings(&["proj-v*"]));
    p.tag_prefix_separator = "/".to_string();
    p.tag_majors = Some(vec![0, 3]);
    assert_eq!(tag_fnmatches(&p), strings(&["proj/v0.*", "proj/v3.*"]));
}

#[test]
fn the_version_of_a_tag_follows_its_last_dash() {
    assert_eq!(version_of_tag("v1.2.3"), Some("1.2.3".to_string()));
    assert_eq!(version_of_tag("proj-v1.2.3"), Some("1.2.3".to_string()));
    assert_eq!(version_of_tag("my-proj-v10.0.1"), Some("10.0.1".to_string()));
    assert_eq!(version_of_tag("proj-v1.2.3-rc1"), None);
    assert_eq!(version_of_tag("proj-"), None);
    assert_eq!(version_of_tag(""), None);
    assert_eq!(version_of_tag("v"), None);
    assert_eq!(version_of_tag("v1.2"), None);
}

#[test]
fn the_first_character_after_the_dash_is_dropped_whatever_it_is() {
    assert_eq!(version_of_tag("x1.2.3"), Some("1.2.3".to_string()));
    assert_eq!(version_of_tag("11.2.3"), Some("1.2.3".to_string()));
    assert_eq!(version_of_tag("1.2.3"), None);
}

#[test]
fn tags_that_name_no_version_are_dropped() {
    let tags = strings(&["v1.0.0", "latest", "p-v2.1.0", "v3", "p-v0.0.1-beta", "v0.9.10"]);
    assert_eq!(tags_to_versions(&tags), strings(&["1.0.0", "2.1.0", "0.9.10"]));
    assert!(tags_to_versions(&[]).is_empty());
}

#[test]
fn version_sort_puts_the_newest_first() {
    let cmp = |a: &str, b: &str| version_sort(&a.to_string(), &b.to_string());
    assert_eq!(cmp("1.2.3", "1.2.4"), Ordering::Greater);
    assert_eq!(cmp("1.2.4", "1.2.3"), Ordering::Less);
    assert_eq!(cmp("1.3.0", "1.2.9"), Ordering::Less);
    assert_eq!(cmp("2.0.0", "10.0.0"), Ordering::Greater);
    assert_eq!(cmp("1.2.3", "1.2.3"), Ordering::Equal);
    assert_eq!(cmp("1.2.3", "01.2.3"), Ordering::Equal);
    assert_eq!(cmp("1.2.3", "junk"), Ordering::Greater);
    assert_eq!(cmp("junk", "1.2.3"), Ordering::Less);
    assert_eq!(cmp("junk", "more junk"), Ordering::Equal);
    let mut versions = strings(&["1.2.3", "0.9.0", "1.10.0", "1.2.10"]);
    versions.sort_by(version_sort);
    assert_eq!(versions, strings(&["1.10.0", "1.2.10", "1.2.3", "0.9.0"]));
}

#[test]
fn the_best_version_is_the_first_of_the_newest() {
    assert_eq!(best_version(&strings(&["1.2.3", "1.10.0", "1.9.9"])), Some("1.10.0".to_string()));
    assert_eq!(best_version(&strings(&["1.0.0", "01.0.0"])), Some("1.0.0".to_string()));
    assert_eq!(best_version(&strings(&["01.0.0", "1.0.0"])), Some("01.0.0".to_string()));
    assert_eq!(best_version(&vec![]), None);
}

#[test]
fn the_newest_tagged_commit_gives_the_current_version() {
    let cfg = config(vec![project(1, "p", Some(""), &[])]);
    let r = repo(
        vec![answer("v*", &[("v1.0.0", "c1"), ("v1.1.0", "c3"), ("v1.0.5", "c3"), ("v0.9.0", "c4")])],
        &["c5", "c4", "c3", "c2", "c1"],
        &[],
    );
    let old = find_old_tags(&cfg, &r).expect("old tags");
    assert_eq!(old.current().get(&1), Some(&"0.9.0".to_string()));
    assert!(old.prev().is_empty());
}

#[test]
fn of_the_tags_on_one_commit_the_highest_version_counts() {
    let cfg = config(vec![project(1, "p", Some("p"), &[])]);
    let r = repo(
        vec![answer("p-v*", &[("p-v1.2.0", "c2"), ("p-v1.10.0", "c2"), ("p-v1.9.0", "c2")])],
        &["c3", "c2", "c1"],
        &[],
    );
    let old = find_old_tags(&cfg, &r).expect("old tags");
    assert_eq!(old.current().get(&1), Some(&"1.10.0".to_string()));
}

#[test]
fn tags_off_the_walk_and_tags_without_a_version_do_not_count() {
    let cfg = config(vec![project(1, "p", Some(""), &[]), project(2, "q", Some("q"), &[])]);
    let r = repo(
        vec![
            answer("v*", &[("v9.9.9", "elsewhere"), ("vnext", "c2")]),
            answer("q-v*", &[("q-v2.0.0", "c1")]),
        ],
        &["c2", "c1"],
        &[(1, "0.1.0"), (2, "1.0.0"), (3, "3.0.0")],
    );
    let old = find_old_tags(&cfg, &r).expect("old tags");
    assert_eq!(old.current().get(&1), Some(&"0.1.0".to_string()));
    assert_eq!(old.current().get(&2), Some(&"2.0.0".to_string()));
    assert_eq!(old.current().get(&3), None);
    assert_eq!(old.prev().get(&3), Some(&"3.0.0".to_string()));
    assert_eq!(old.prev().len(), 3);
}

#[test]
fn a_project_without_tags_or_an_earlier_release_has_no_current_version() {
    let cfg = config(vec![project(1, "p", None, &[]), project(2, "q", Some(""), &[])]);
    let r = repo(vec![answer("v*", &[])], &["c1"], &[]);
    let old = find_old_tags(&cfg, &r).expect("old tags");
    assert!(old.current().is_empty());
}

#[test]
fn a_pattern_that_was_not_asked_about_is_an_error() {
    let cfg = config(vec![project(1, "p", Some("p"), &[])]);
    let r = repo(vec![answer("v*", &[])], &["c1"], &[]);
    assert_eq!(find_old_tags(&cfg, &r).err(), Some(Error::TagResolve));
}

#[test]
fn fill_from_prev_fills_only_what_is_missing_and_listed() {
    let prev: HashMap<u32, String> =
        [(1, "1.0.0"), (2, "2.0.0"), (3, "3.0.0")].iter().map(|(k, v)| (*k, v.to_string())).collect();
    let mut current: HashMap<u32, String> = [(1, "1.5.0".to_string())].into_iter().collect();
    let ids = vec![ProjectId::from_id(1), ProjectId::from_id(2), ProjectId::from_id(4)];
    fill_from_prev(&prev, &ids, &mut current);
    assert_eq!(current.get(&1), Some(&"1.5.0".to_string()));
    assert_eq!(current.get(&2), Some(&"2.0.0".to_string()));
    assert_eq!(current.get(&3), None);
    assert_eq!(current.get(&4), None);
    assert_eq!(current.len(), 2);
}

#[test]
fn old_tags_hold_what_they_were_given() {
    let current: HashMap<u32, String> = [(1, "1.0.0".to_string())].into_iter().collect();
    let old = OldTags::new(current.clone(), HashMap::new());
    assert_eq!(old.current(), &current);
    assert!(old.prev().is_empty());
}

#[test]
fn a_signature_is_clipped_off_the_annotation() {
    let signed = "{\"versions\":{\"1\":\"1.2.3\"}}\n-----BEGIN PGP SIGNATURE-----\nabc\n-----END PGP SIGNATURE-----\n";
    assert_eq!(clip_signature(signed), "{\"versions\":{\"1\":\"1.2.3\"}}");
    assert_eq!(clip_signature("{\"versions\":{}}"), "{\"versions\":{}}");
    assert_eq!(clip_signature(""), "");
    assert_eq!(clip_signature("\n-----BEGIN PGP SIGNATURE-----"), "");
    assert_eq!(clip_signature("-----BEGIN PGP SIGNATURE-----"), "-----BEGIN PGP SIGNATURE-----");
    assert_eq!(
        clip_signature("a\n-----BEGIN PGP SIGNATURE-----b\n-----BEGIN PGP SIGNATURE-----c"),
        "a"
    );
}

fn line_commit(id: &str, files: &[&str]) -> CommitInfo {
    CommitInfo::new(
        id.to_string(),
        "s".to_string(),
        "fix: s".to_string(),
        files.iter().map(|s| s.to_string()).collect(),
    )
}

fn line_repo(commits: Vec<CommitInfo>, snapshots: Vec<(&str, Option<ConfigFile>)>) -> Repo {
    let mut r = repo(vec![], &[], &[]);
    r.line_commits = commits;
    r.history = History {
        snapshots: snapshots
            .into_iter()
            .map(|(c, f)| Snapshot { commit: c.to_string(), file: f })
            .collect(),
    };
    r
}

#[test]
fn the_newest_commit_that_touched_a_project_is_its_last_commit() {
    let cfg = config(vec![project(1, "p", None, &["p/*"]), project(2, "q", None, &["q/*"])]);
    let r = line_repo(
        vec![
            line_commit("c3", &["README"]),
            line_commit("c2", &["q/a", "p/a"]),
            line_commit("c1", &["p/b"]),
        ],
        vec![("c1", Some(cfg.clone())), ("c2", Some(cfg.clone())), ("c3", Some(cfg.clone()))],
    );
    let last = find_last_commits(&cfg, &r).expect("last commits");
    assert_eq!(last.get(&1), Some(&"c2".to_string()));
    assert_eq!(last.get(&2), Some(&"c2".to_string()));
    assert_eq!(last.len(), 2);
}

#[test]
fn last_commits_go_by_the_coverage_at_the_commit() {
    let now = config(vec![project(1, "p", None, &["p/*", "moved/*"])]);
    let then = config(vec![project(1, "p", None, &["p/*"]), project(2, "gone", None, &["moved/*"])]);
    let r = line_repo(
        vec![line_commit("c2", &["moved/a"]), line_commit("c1", &["p/a"])],
        vec![("c1", Some(then.clone())), ("c2", Some(then))],
    );
    let last = find_last_commits(&now, &r).expect("last commits");
    assert_eq!(last.get(&1), Some(&"c1".to_string()));
    assert_eq!(last.get(&2), None);
}

#[test]
fn a_project_that_no_commit_touched_has_no_last_commit() {
    let cfg = config(vec![project(1, "p", None, &["p/*"])]);
    let r = line_repo(vec![line_commit("c1", &["other"])], vec![("c1", Some(cfg.clone()))]);
    assert!(find_last_commits(&cfg, &r).expect("last commits").is_empty());
    let none = line_repo(vec![], vec![]);
    assert!(find_last_commits(&cfg, &none).expect("last commits").is_empty());
}

#[test]
fn last_commits_fail_where_the_history_or_the_coverage_does() {
    let cfg = config(vec![project(1, "p", None, &["p/*"])]);
    let missing = line_repo(vec![line_commit("c1", &["p/a"])], vec![]);
    assert_eq!(find_last_commits(&cfg, &missing).err(), Some(Error::MissingConfigAtRev));
    let unreadable = line_repo(vec![line_commit("c1", &["p/a"])], vec![("c1", None)]);
    assert_eq!(find_last_commits(&cfg, &unreadable).err(), Some(Error::ConfigParse));
    let slashed = line_repo(vec![line_commit("c1", &["p\\a"])], vec![("c1", Some(cfg.clone()))]);
    assert_eq!(find_last_commits(&cfg, &slashed).err(), Some(Error::PathNotPortable));
    let bad = config(vec![project(1, "p", None, &["[p"])]);
    let patterned = line_repo(vec![line_commit("c1", &["p/a"])], vec![("c1", Some(bad))]);
    assert_eq!(find_last_commits(&cfg, &patterned).err(), Some(Error::BadPattern));
}

#[test]
fn the_line_builder_needs_a_commit_before_a_file() {
    let cfg = config(vec![project(1, "p", None, &["p/*"])]);
    let hist = History { snapshots: vec![Snapshot { commit: "c1".to_string(), file: Some(cfg.clone()) }] };
    let mut b = LastCommitBuilder::create(&hist, &cfg);
    assert_eq!(b.start_line_file("p/a"), Err(Error::NotOnLineCommit));
    assert_eq!(b.start_line_commit(&line_commit("zz", &[])), Err(Error::MissingConfigAtRev));
    assert_eq!(b.start_line_file("p/a"), Err(Error::NotOnLineCommit));
    assert_eq!(b.start_line_commit(&line_commit("c1", &[])), Ok(()));
    assert_eq!(b.start_line_file("p/a"), Ok(()));
    assert_eq!(b.finish_line_file(), Ok(()));
    assert_eq!(b.finish_line_commit(), Ok(()));
    let built = b.build().expect("a map");
    assert_eq!(built.get(&1), Some(&"c1".to_string()));
}
