use coliru::manifest::{get_manifest_tags, tags_match, Manifest, Step};
use coliru::tags::TagRule;

fn step_with_tags(tags: &[&str]) -> Step {
    Step { copy: vec![], link: vec![], run: vec![], tags: tags.iter().map(|s| s.to_string()).collect() }
}

#[test]
fn comma_rules_examples() {
    assert_eq!(tags_match(&["a"], &["a"]), true);
    assert_eq!(tags_match(&["a"], &["b"]), false);
    assert_eq!(tags_match(&["a,b"], &["b"]), true);
    assert_eq!(tags_match(&["^a"], &["a"]), false);
    assert_eq!(tags_match(&["^a"], &["b"]), true);
}

#[test]
fn comma_rules_empty_tags() {
    let none: [&str; 0] = [];
    assert_eq!(tags_match(&none, &none), true);
    assert_eq!(tags_match(&none, &["x", "y"]), true);
    assert_eq!(tags_match(&["^a", "b"], &none), false);
    assert_eq!(tags_match(&["^a", "^b,c"], &none), true);
}

#[test]
fn comma_rules_exact_comparison() {
    assert_eq!(tags_match(&["Linux"], &["linux"]), false);
    assert_eq!(tags_match(&["linux "], &["linux"]), false);
    assert_eq!(tags_match(&["lin"], &["linux"]), false);
    assert_eq!(tags_match(&["a,"], &[""]), true);
    assert_eq!(tags_match(&["^"], &[""]), false);
    assert_eq!(tags_match(&["^"], &["a"]), true);
}

#[test]
fn doc_example_pipe_and_comma() {
    let rules = ["linux|macos", "system", "^work"].map(|x| x.to_string());
    let tags_1 = ["macos", "system", "user"].map(|x| x.to_string());
    let tags_2 = ["linux", "system", "work"].map(|x| x.to_string());
    assert_eq!(coliru::tags::tags_match(&rules, &tags_1), true);
    assert_eq!(coliru::tags::tags_match(&rules, &tags_2), false);
    let rules = ["linux,macos", "system", "^work"];
    assert_eq!(tags_match(&rules, &["macos", "system", "user"]), true);
    assert_eq!(tags_match(&rules, &["linux", "system", "work"]), false);
}

#[test]
fn parse_rule_negated_union() {
    let rule = TagRule::parse("^a,b", ',');
    assert_eq!(rule.negated, true);
    assert_eq!(rule.labels, vec!["a".to_string(), "b".to_string()]);
    assert_eq!(rule.holds(&["b"]), false);
    assert_eq!(rule.holds(&["c"]), true);
}

#[test]
fn parse_rule_empty_pieces() {
    let rule = TagRule::parse("", ',');
    assert_eq!(rule.negated, false);
    assert_eq!(rule.labels, vec!["".to_string()]);
    let rule = TagRule::parse(",x,", ',');
    assert_eq!(rule.labels, vec!["".to_string(), "x".to_string(), "".to_string()]);
    let rule = TagRule::parse("a|b", ',');
    assert_eq!(rule.labels, vec!["a|b".to_string()]);
}

#[test]
fn manifest_tags_sorted_without_repeats() {
    let manifest = Manifest {
        steps: vec![
            step_with_tags(&["windows", "linux", "macos"]),
            step_with_tags(&["linux", "macos"]),
            step_with_tags(&["windows"]),
        ],
        base_dir: String::from("examples/test"),
    };
    assert_eq!(get_manifest_tags(manifest), vec!["linux".to_string(), "macos".to_string(), "windows".to_string()]);
}

#[test]
fn manifest_tags_code_point_order() {
    let manifest = Manifest {
        steps: vec![step_with_tags(&["b", "B", "ab", "a", "é", "a"]), step_with_tags(&[])],
        base_dir: String::from("."),
    };
    let expected: Vec<String> = ["B", "a", "ab", "b", "é"].iter().map(|s| s.to_string()).collect();
    assert_eq!(get_manifest_tags(manifest), expected);
}
