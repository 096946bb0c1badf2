use versio::changelog::CommitInfo;
use versio::config::SizeRules;
use versio::conventional::conventional_kind;
use versio::size::Size;

fn kind(message: &str) -> Option<String> {
    conventional_kind(message)
}

#[test]
fn a_plain_kind_is_read() {
    assert_eq!(kind("feat: add a thing"), Some("feat".to_string()));
    assert_eq!(kind("fix:no space"), Some("fix".to_string()));
    assert_eq!(kind("build-2_x: odd but fine"), Some("build-2_x".to_string()));
}

#[test]
fn a_scope_is_left_out_of_the_kind() {
    assert_eq!(kind("fix(parser): reject empty input"), Some("fix".to_string()));
    assert_eq!(kind("fix(a(b)c): nested"), Some("fix".to_string()));
    assert_eq!(kind("fix(): empty scope"), Some("fix".to_string()));
}

#[test]
fn a_bang_stays_part_of_the_kind() {
    assert_eq!(kind("feat!: break it"), Some("feat!".to_string()));
    assert_eq!(kind("feat(api)!: break it"), Some("feat!".to_string()));
}

#[test]
fn only_the_first_line_counts() {
    assert_eq!(kind("WIP\nfeat: later line"), None);
    assert_eq!(kind("feat: first\n\nfix: body"), Some("feat".to_string()));
    assert_eq!(kind("\nfeat: second line"), None);
}

#[test]
fn messages_outside_the_form_have_no_kind() {
    for message in [
        "WIP", "", ":", ": nothing before", "!: only a bang", "(scope): no kind", "two words: x",
        "feat(scope: unclosed", "feat(scope)x: trailing", "feat)(: backwards", "Merge branch 'a' into b",
        "fe\u{e4}t: not ascii", "feat : space before colon",
    ] {
        assert_eq!(kind(message), None, "{:?}", message);
    }
}

#[test]
fn a_commit_gets_the_kind_of_its_message() {
    let c = CommitInfo::new("abc".to_string(), "s".to_string(), "feat: x".to_string(), vec![]);
    assert_eq!(c.kind(), &Some("feat".to_string()));
    assert_eq!(c.id(), "abc");
    assert_eq!(c.summary(), "s");
    assert_eq!(c.message(), "feat: x");
    assert!(c.files().is_empty());
    let w = CommitInfo::new("abd".to_string(), "s".to_string(), "WIP".to_string(), vec!["a".to_string()]);
    assert_eq!(w.kind(), &None);
    assert_eq!(w.files(), &vec!["a".to_string()]);
}

#[test]
fn sizes_go_by_the_first_rule_and_else_by_the_default() {
    let mut rules = SizeRules::new(Size::NoBump);
    rules.add("feat".to_string(), Size::Minor);
    rules.add("fix".to_string(), Size::Patch);
    rules.add("feat".to_string(), Size::Major);
    assert_eq!(rules.size_for(&Some("feat".to_string())), Size::Minor);
    assert_eq!(rules.size_for(&Some("fix".to_string())), Size::Patch);
    assert_eq!(rules.size_for(&Some("docs".to_string())), Size::NoBump);
    assert_eq!(rules.size_for(&Some("feat!".to_string())), Size::NoBump);
}

#[test]
fn a_commit_without_a_kind_is_a_failure() {
    let rules = SizeRules::new(Size::NoBump);
    assert_eq!(rules.size_for(&None), Size::Failure);
}
