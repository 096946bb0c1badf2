use versio::error::Error;
use versio::project::{
    cover_verdict, fold_matches, Depends, Dependency, Project, ProjectId, Restriction, SizeMapper,
};

fn project(covers: &[&str], excludes: &[&str]) -> Project {
    let mut p = Project::new(ProjectId::from_id(1), "one".to_string());
    p.covers = covers.iter().map(|s| s.to_string()).collect();
    p.excludes = excludes.iter().map(|s| s.to_string()).collect();
    p
}

#[test]
fn a_pattern_that_matches_covers_the_path() {
    let p = project(&["src/*"], &[]);
    assert_eq!(p.does_cover("src/a.rs"), Ok(true));
    assert_eq!(p.does_cover("lib/a.rs"), Ok(false));
    assert_eq!(p.does_cover("src"), Ok(false));
}

#[test]
fn the_pattern_is_matched_and_not_just_compared() {
    let p = project(&["src/?.rs"], &[]);
    assert_eq!(p.does_cover("src/?.rs"), Ok(true));
    assert_eq!(p.does_cover("src/a.rs"), Ok(true));
    assert_eq!(p.does_cover("src/ab.rs"), Ok(false));
    let q = project(&["src/a.rs"], &[]);
    assert_eq!(q.does_cover("src/a.rs"), Ok(true));
    assert_eq!(q.does_cover("src/b.rs"), Ok(false));
}

#[test]
fn any_of_several_patterns_is_enough() {
    let p = project(&["docs/*", "src/**/*.rs"], &[]);
    assert_eq!(p.does_cover("docs/guide.md"), Ok(true));
    assert_eq!(p.does_cover("src/deep/er/x.rs"), Ok(true));
    assert_eq!(p.does_cover("Cargo.toml"), Ok(false));
}

#[test]
fn an_excluded_path_is_not_covered() {
    let p = project(&["src/*"], &["src/generated/*"]);
    assert_eq!(p.does_cover("src/a.rs"), Ok(true));
    assert_eq!(p.does_cover("src/generated/a.rs"), Ok(false));
}

#[test]
fn a_project_without_patterns_covers_nothing() {
    let p = project(&[], &[]);
    assert_eq!(p.does_cover("src/a.rs"), Ok(false));
    assert_eq!(p.does_cover(""), Ok(false));
}

#[test]
fn a_malformed_pattern_is_reported() {
    assert_eq!(project(&["a**b"], &[]).does_cover("ab"), Err(Error::BadPattern));
    assert_eq!(project(&["src/*", "x[unclosed"], &[]).does_cover("src/a.rs"), Err(Error::BadPattern));
    assert_eq!(project(&["src/*"], &["***"]).does_cover("src/a.rs"), Err(Error::BadPattern));
}

#[test]
fn a_pattern_with_a_backslash_is_reported() {
    assert_eq!(project(&["src\\*"], &[]).does_cover("src/a.rs"), Err(Error::BadPattern));
}

#[test]
fn a_path_with_a_backslash_is_refused() {
    assert_eq!(project(&["src/*"], &[]).does_cover("src\\a.rs"), Err(Error::PathNotPortable));
    assert_eq!(project(&["a**b"], &[]).does_cover("src\\a.rs"), Err(Error::PathNotPortable));
    assert_eq!(project(&[], &[]).does_cover("\\"), Err(Error::PathNotPortable));
}

#[test]
fn a_new_project_is_bare() {
    let p = Project::new(ProjectId::from_id(9), "nine".to_string());
    assert_eq!(p.id(), &ProjectId::from_id(9));
    assert_eq!(p.name(), "nine");
    assert!(p.covers.is_empty() && p.excludes.is_empty() && p.depends.is_empty());
    assert!(p.tag_prefix.is_none() && p.tag_majors.is_none() && p.root.is_none());
    assert_eq!(p.tag_prefix_separator, "-");
    assert!(p.labels.is_empty() && p.restrictions.is_empty() && p.changelog.is_none());
}

#[test]
fn the_first_dependency_on_a_project_counts() {
    let mut p = Project::new(ProjectId::from_id(2), "two".to_string());
    let to_patch = SizeMapper::identity().with(vsize("minor"), vsize("patch"));
    p.depends.push(Dependency { on: ProjectId::from_id(1), edge: Depends::new(to_patch) });
    p.depends.push(Dependency { on: ProjectId::from_id(1), edge: Depends::new(SizeMapper::identity()) });
    assert_eq!(p.dependency(&ProjectId::from_id(1)), Some(Depends::new(to_patch)));
    assert_eq!(p.dependency(&ProjectId::from_id(1)).map(|d| *d.size()), Some(to_patch));
    assert_eq!(p.dependency(&ProjectId::from_id(3)), None);
}

fn vsize(name: &str) -> versio::size::Size {
    match name {
        "minor" => versio::size::Size::Minor,
        _ => versio::size::Size::Patch,
    }
}

#[test]
fn restrictions_go_by_the_major_number() {
    let mut p = Project::new(ProjectId::from_id(1), "one".to_string());
    assert_eq!(p.verify_restrictions("7.0.0"), Ok(()));
    assert_eq!(p.verify_restrictions("seven"), Err(Error::VersionParse));
    p.restrictions.push(Restriction { majors: vec![1, 2] });
    assert_eq!(p.verify_restrictions("1.9.9"), Ok(()));
    assert_eq!(p.verify_restrictions("2.0.0-rc"), Ok(()));
    assert_eq!(p.verify_restrictions("3.0.0"), Err(Error::RestrictionViolation));
    assert_eq!(p.verify_restrictions("x"), Err(Error::VersionParse));
    p.restrictions.push(Restriction { majors: vec![2, 3] });
    assert_eq!(p.verify_restrictions("1.0.0"), Err(Error::RestrictionViolation));
    assert_eq!(p.verify_restrictions("2.0.0"), Ok(()));
    assert!(Restriction { majors: vec![] }.allows(0) == false);
}

#[test]
fn tag_names_put_prefix_and_separator_before_the_version() {
    let mut p = Project::new(ProjectId::from_id(1), "one".to_string());
    assert_eq!(p.full_version("1.3.0"), None);
    p.tag_prefix = Some(String::new());
    assert_eq!(p.full_version("1.3.0"), Some("v1.3.0".to_string()));
    p.tag_prefix = Some("one".to_string());
    assert_eq!(p.full_version("1.3.0"), Some("one-v1.3.0".to_string()));
    p.tag_prefix_separator = "/".to_string();
    assert_eq!(p.full_version("1.3.0"), Some("one/v1.3.0".to_string()));
}

#[test]
fn matches_fold_to_any_match_unless_a_pattern_failed() {
    assert_eq!(fold_matches(&vec![]), Some(false));
    assert_eq!(fold_matches(&vec![Some(false), Some(false)]), Some(false));
    assert_eq!(fold_matches(&vec![Some(false), Some(true), Some(false)]), Some(true));
    assert_eq!(fold_matches(&vec![Some(true), None]), None);
    assert_eq!(fold_matches(&vec![None, Some(true)]), None);
}

#[test]
fn a_project_covers_what_is_included_and_not_excluded() {
    assert_eq!(cover_verdict(Some(false), Some(true)), Ok(true));
    assert_eq!(cover_verdict(Some(true), Some(true)), Ok(false));
    assert_eq!(cover_verdict(Some(false), Some(false)), Ok(false));
    assert_eq!(cover_verdict(Some(true), Some(false)), Ok(false));
    assert_eq!(cover_verdict(None, Some(true)), Err(Error::BadPattern));
    assert_eq!(cover_verdict(Some(false), None), Err(Error::BadPattern));
    assert_eq!(cover_verdict(None, None), Err(Error::BadPattern));
}
