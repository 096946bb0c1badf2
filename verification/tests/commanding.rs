use std::collections::HashMap;
use versio::commands::{check, get, info, pick, show, EarlyInfo, InfoShow, NameMatch};
use versio::config::{ConfigFile, SizeRules};
use versio::error::Error;
use versio::history::History;
use versio::mono::Mono;
use versio::project::{Project, ProjectId};
use versio::repo::{Branch, Repo};
use versio::size::Size;
use versio::state::Write;

fn project(id: u32, name: &str, labels: &[&str]) -> Project {
    let mut p = Project::new(ProjectId::from_id(id), name.to_string());
    p.labels = labels.iter().map(|s| s.to_string()).collect();
    p
}

fn config(projects: Vec<Project>) -> ConfigFile {
    ConfigFile {
        projects,
        sizes: SizeRules::new(Size::NoBump),
        prev_tag: "versio-prev".to_string(),
        branch: None,
    }
}

fn map(entries: &[(u32, &str)]) -> HashMap<u32, String> {
    entries.iter().map(|(k, v)| (*k, v.to_string())).collect()
}

fn repo(values: &[(u32, &str)], prev_values: &[(u32, &str)]) -> Repo {
    Repo {
        branch: Branch::Unknown,
        tag_answers: vec![
            versio::repo::TagAnswer { pattern: "v*".to_string(), tags: vec![] },
            versio::repo::TagAnswer { pattern: "api-v*".to_string(), tags: vec![] },
        ],
        commits_to_head: vec![],
        line_commits: vec![],
        prev_versions: HashMap::new(),
        values: map(values),
        prev_values: map(prev_values),
        history: History { snapshots: vec![] },
    }
}

fn three() -> ConfigFile {
    let mut web = project(1, "web-app", &["front"]);
    web.tag_prefix = Some(String::new());
    web.root = Some("web".to_string());
    let mut api = project(2, "web-api", &["back", "rust"]);
    api.tag_prefix = Some("api".to_string());
    config(vec![web, api, project(3, "tools", &["rust"])])
}

fn strings(v: &[&str]) -> Vec<String> {
    v.iter().map(|s| s.to_string()).collect()
}

#[test]
fn early_info_holds_what_it_was_given() {
    let e = EarlyInfo::new(3, "/repo".to_string(), "/repo/sub".to_string());
    assert_eq!(e.project_count(), 3);
    assert_eq!(e.working_dir(), "/repo");
    assert_eq!(e.orig_dir(), "/repo/sub");
}

#[test]
fn info_show_starts_with_everything_off() {
    let s = InfoShow::new();
    assert!(!s.all() && !s.id() && !s.name() && !s.root());
    assert!(!s.tag_prefix() && !s.full_version() && !s.version());
    assert_eq!(InfoShow::default(), s);
}

#[test]
fn info_show_switches_turn_one_thing_on_or_off() {
    let s = InfoShow::new();
    assert!(s.pick_all(true).all() && !s.pick_all(true).id());
    assert!(s.show_id(true).id() && !s.show_id(true).name());
    assert!(s.show_name(true).name() && !s.show_name(true).root());
    assert!(s.show_root(true).root() && !s.show_root(true).tag_prefix());
    assert!(s.show_tag_prefix(true).tag_prefix() && !s.show_tag_prefix(true).full_version());
    assert!(s.show_full_version(true).full_version() && !s.show_full_version(true).version());
    assert!(s.show_version(true).version() && !s.show_version(true).all());
    let every = s
        .pick_all(true)
        .show_id(true)
        .show_name(true)
        .show_root(true)
        .show_tag_prefix(true)
        .show_full_version(true)
        .show_version(true);
    assert!(every.all() && every.id() && every.name() && every.root());
    assert!(every.tag_prefix() && every.full_version() && every.version());
    assert_eq!(every.show_id(false).show_id(true), every);
    assert!(!every.show_version(false).version());
}

#[test]
fn a_part_of_the_name_goes_before_the_whole_name() {
    let part = Some("web".to_string());
    let whole = Some("web-app".to_string());
    assert!(matches!(NameMatch::from(&part, &whole), NameMatch::Partial(n) if n == "web"));
    assert!(matches!(NameMatch::from(&part, &None), NameMatch::Partial(n) if n == "web"));
    assert!(matches!(NameMatch::from(&None, &whole), NameMatch::Exact(n) if n == "web-app"));
    assert!(matches!(NameMatch::from(&None, &None), NameMatch::Absent));
}

#[test]
fn a_project_is_picked_by_identifier_name_or_for_being_the_only_one() {
    let r = repo(&[], &[]);
    let mono = Mono::open(three(), &r).expect("a repository");
    assert_eq!(pick(&mono, Some(2), &NameMatch::Absent), Ok(1));
    assert_eq!(pick(&mono, Some(2), &NameMatch::Exact("tools".to_string())), Ok(1));
    assert_eq!(pick(&mono, Some(9), &NameMatch::Absent), Err(Error::NoSuchProject));
    assert_eq!(pick(&mono, None, &NameMatch::Partial("api".to_string())), Ok(1));
    assert_eq!(pick(&mono, None, &NameMatch::Partial("web".to_string())), Err(Error::AmbiguousProject));
    assert_eq!(pick(&mono, None, &NameMatch::Partial("zzz".to_string())), Err(Error::NoSuchProject));
    assert_eq!(pick(&mono, None, &NameMatch::Partial(String::new())), Err(Error::AmbiguousProject));
    assert_eq!(pick(&mono, None, &NameMatch::Exact("tools".to_string())), Ok(2));
    assert_eq!(pick(&mono, None, &NameMatch::Exact("tool".to_string())), Err(Error::NoSuchProject));
    assert_eq!(pick(&mono, None, &NameMatch::Absent), Err(Error::NoSoloProject));
    let solo = Mono::open(config(vec![project(7, "only", &[])]), &r).expect("a repository");
    assert_eq!(pick(&solo, None, &NameMatch::Absent), Ok(0));
    let none = Mono::open(config(vec![]), &r).expect("a repository");
    assert_eq!(pick(&none, None, &NameMatch::Absent), Err(Error::NoSoloProject));
}

#[test]
fn the_configuration_finds_projects_by_name() {
    let cfg = three();
    assert_eq!(cfg.find_unique("api"), Ok(ProjectId::from_id(2)));
    assert_eq!(cfg.find_unique("web"), Err(Error::AmbiguousProject));
    assert_eq!(cfg.find_unique("nope"), Err(Error::NoSuchProject));
    assert_eq!(cfg.find_exact("web-app"), Ok(ProjectId::from_id(1)));
    assert_eq!(cfg.find_exact("web"), Err(Error::NoSuchProject));
    assert_eq!(cfg.position(&ProjectId::from_id(3)), Some(2));
    assert_eq!(cfg.position(&ProjectId::from_id(4)), None);
    assert_eq!(cfg.get_project(&ProjectId::from_id(3)).map(|p| p.name()), Some("tools"));
    assert!(cfg.is_valid());
    let twins = config(vec![project(1, "same", &[]), project(2, "same", &[])]);
    assert_eq!(twins.find_exact("same"), Err(Error::AmbiguousProject));
}

#[test]
fn get_reports_the_version_of_the_picked_project() {
    let r = repo(&[(1, "1.2.3"), (2, "0.4.0")], &[(1, "1.0.0")]);
    let mono = Mono::open(three(), &r).expect("a repository");
    let line = get(&mono, false, Some(1), &NameMatch::Absent).expect("a line");
    assert_eq!(line.id, ProjectId::from_id(1));
    assert_eq!(line.name, "web-app");
    assert_eq!(line.root, Some("web".to_string()));
    assert_eq!(line.tag_prefix, Some(String::new()));
    assert_eq!(line.version, "1.2.3");
    assert_eq!(line.full_version, Some("v1.2.3".to_string()));
    let before = get(&mono, true, Some(1), &NameMatch::Absent).expect("a line");
    assert_eq!(before.version, "1.0.0");
    let api = get(&mono, false, None, &NameMatch::Partial("api".to_string())).expect("a line");
    assert_eq!(api.full_version, Some("api-v0.4.0".to_string()));
    assert_eq!(get(&mono, true, Some(2), &NameMatch::Absent).err(), Some(Error::NoSuchValue));
    assert_eq!(get(&mono, false, Some(3), &NameMatch::Absent).err(), Some(Error::NoSuchValue));
    assert_eq!(get(&mono, false, Some(4), &NameMatch::Absent).err(), Some(Error::NoSuchProject));
    assert_eq!(get(&mono, false, None, &NameMatch::Absent).err(), Some(Error::NoSoloProject));
}

#[test]
fn show_reports_every_project_in_order() {
    let r = repo(&[(1, "1.2.3"), (2, "0.4.0"), (3, "3.0.0")], &[(1, "1.0.0")]);
    let mono = Mono::open(three(), &r).expect("a repository");
    let lines = show(&mono, false).expect("lines");
    let versions: Vec<(&str, &str)> = lines.iter().map(|l| (l.name.as_str(), l.version.as_str())).collect();
    assert_eq!(versions, vec![("web-app", "1.2.3"), ("web-api", "0.4.0"), ("tools", "3.0.0")]);
    assert_eq!(lines[2].full_version, None);
    assert_eq!(show(&mono, true).err(), Some(Error::NoSuchValue));
}

#[test]
fn info_picks_by_identifier_names_and_labels() {
    let r = repo(&[(1, "1.2.3"), (2, "0.4.0"), (3, "3.0.0")], &[]);
    let mono = Mono::open(three(), &r).expect("a repository");
    let names = |ids: &[u32], ns: &[&str], es: &[&str], ls: &[&str], show: InfoShow| {
        info(&mono, ids, &strings(ns), &strings(es), &strings(ls), &show)
            .map(|lines| lines.iter().map(|l| l.name.clone()).collect::<Vec<_>>())
    };
    let none = InfoShow::new();
    assert_eq!(names(&[], &[], &[], &[], none), Ok(vec![]));
    assert_eq!(names(&[], &[], &[], &[], none.pick_all(true)), Ok(strings(&["web-app", "web-api", "tools"])));
    assert_eq!(names(&[3, 1], &[], &[], &[], none), Ok(strings(&["web-app", "tools"])));
    assert_eq!(names(&[], &["web"], &[], &[], none), Ok(strings(&["web-app", "web-api"])));
    assert_eq!(names(&[], &[], &["web", "tools"], &[], none), Ok(strings(&["tools"])));
    assert_eq!(names(&[], &[], &[], &["rust"], none), Ok(strings(&["web-api", "tools"])));
    assert_eq!(names(&[], &[], &[], &["rus"], none), Ok(vec![]));
    assert_eq!(names(&[1], &["api"], &[], &["front"], none), Ok(strings(&["web-app", "web-api"])));
    let gap = repo(&[(1, "1.2.3"), (3, "3.0.0")], &[]);
    let holed = Mono::open(three(), &gap).expect("a repository");
    assert_eq!(info(&holed, &[1, 3], &[], &[], &[], &none).map(|l| l.len()), Ok(2));
    assert_eq!(info(&holed, &[], &[], &[], &[], &none.pick_all(true)).err(), Some(Error::NoSuchValue));
}

#[test]
fn set_hands_the_new_version_over_to_be_committed() {
    let r = repo(&[], &[]);
    let mut mono = Mono::open(three(), &r).expect("a repository");
    let state = versio::commands::set(&mut mono, None, &NameMatch::Exact("tools".to_string()), "4.0.0").expect("a state");
    assert_eq!(state.writes.len(), 1);
    assert!(matches!(&state.writes[0], Write::SetValue { id, value } if id.id() == 3 && value == "4.0.0"));
    assert!(!state.advance_prev && !state.pause);
    assert!(mono.next.writes.is_empty());
    assert_eq!(versio::commands::set(&mut mono, Some(8), &NameMatch::Absent, "1.0.0").err(), Some(Error::NoSuchProject));
    assert_eq!(versio::commands::set(&mut mono, None, &NameMatch::Absent, "1.0.0").err(), Some(Error::NoSoloProject));
    let part = NameMatch::Partial("web".to_string());
    assert_eq!(versio::commands::set(&mut mono, None, &part, "1.0.0").err(), Some(Error::AmbiguousProject));
    assert!(mono.next.writes.is_empty());
}

#[test]
fn versions_are_set_by_name_or_for_the_only_project() {
    let r = repo(&[], &[]);
    let mut mono = Mono::open(three(), &r).expect("a repository");
    assert_eq!(mono.set_by_name("api", "1.0.0"), Ok(()));
    assert_eq!(mono.set_by_name("web", "1.0.0"), Err(Error::AmbiguousProject));
    assert_eq!(mono.set_by_name("zzz", "1.0.0"), Err(Error::NoSuchProject));
    assert_eq!(mono.set_by_exact_name("web-app", "2.0.0"), Ok(()));
    assert_eq!(mono.set_by_exact_name("web", "2.0.0"), Err(Error::NoSuchProject));
    assert_eq!(mono.set_by_only("3.0.0"), Err(Error::NoSoloProject));
    let ids: Vec<u32> = mono
        .next
        .writes
        .iter()
        .map(|w| match w {
            Write::SetValue { id, .. } => id.id(),
            _ => 0,
        })
        .collect();
    assert_eq!(ids, vec![2, 1]);
    let mut solo = Mono::open(config(vec![project(7, "only", &[])]), &r).expect("a repository");
    assert_eq!(solo.set_by_only("3.0.0"), Ok(()));
    assert!(matches!(&solo.next.writes[0], Write::SetValue { id, value } if id.id() == 7 && value == "3.0.0"));
}

#[test]
fn check_wants_a_readable_version_for_every_project() {
    let good = repo(&[(1, "1.2.3"), (2, "0.4.0-rc"), (3, "3.0.0")], &[]);
    assert_eq!(check(&Mono::open(three(), &good).expect("a repository")), Ok(()));
    let missing = repo(&[(1, "1.2.3"), (3, "3.0.0")], &[]);
    assert_eq!(check(&Mono::open(three(), &missing).expect("a repository")), Err(Error::NoSuchValue));
    let odd = repo(&[(1, "1.2.3"), (2, "latest"), (3, "3.0.0")], &[]);
    let mono = Mono::open(three(), &odd).expect("a repository");
    assert_eq!(mono.check(), Err(Error::VersionParse));
    assert_eq!(mono.get_value(&ProjectId::from_id(2)), Some(&"latest".to_string()));
    assert_eq!(mono.get_prev_value(&ProjectId::from_id(2)), None);
}
