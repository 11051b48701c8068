use coliru::manifest::{get_manifest_tags, tags_match, Manifest};

#[test]
fn test_manifest_tags_match_empty_parameters() {
    let tags_1 = [];
    let tags_2 = ["linux", "user"];
    assert_eq!(tags_match(&tags_1, &tags_1), true);
    assert_eq!(tags_match(&tags_1, &tags_2), true);
    assert_eq!(tags_match(&tags_2, &tags_1), false);
}

#[test]
fn test_manifest_tags_match_one_match() {
    let tags_1 = ["linux"];
    let tags_2 = ["linux", "windows"];

    assert_eq!(tags_match(&tags_1.clone(), &tags_1.clone()), true);
    assert_eq!(tags_match(&tags_1.clone(), &tags_2.clone()), true);
    assert_eq!(tags_match(&tags_2.clone(), &tags_1.clone()), false);
    assert_eq!(tags_match(&tags_2.clone(), &tags_2.clone()), true);
}

#[test]
fn test_manifest_tags_match_two_matches() {
    let tags_1 = ["linux", "user"];
    let tags_2 = ["linux", "user", "windows"];

    assert_eq!(tags_match(&tags_1.clone(), &tags_1.clone()), true);
    assert_eq!(tags_match(&tags_1.clone(), &tags_2.clone()), true);
    assert_eq!(tags_match(&tags_2.clone(), &tags_1.clone()), false);
    assert_eq!(tags_match(&tags_2.clone(), &tags_2.clone()), true);
}

#[test]
fn test_manifest_tags_match_negated() {
    let rules = ["^linux"];
    let tags_1 = ["linux"];
    let tags_2 = ["windows"];
    let tags_3 = ["macos"];
    let tags_4 = ["linux", "macos"];

    assert_eq!(tags_match(&rules.clone(), &tags_1.clone()), false);
    assert_eq!(tags_match(&rules.clone(), &tags_2.clone()), true);
    assert_eq!(tags_match(&rules.clone(), &tags_3.clone()), true);
    assert_eq!(tags_match(&rules.clone(), &tags_4.clone()), false);
}

#[test]
fn test_manifest_tags_match_negated_two_rules() {
    let rules_1 = ["^linux", "^user"];
    let rules_2 = ["^linux", "user"];
    let tags_1 = ["linux", "system"];
    let tags_2 = ["windows", "user"];
    let tags_3 = ["macos", "system"];
    let tags_4 = ["linux", "macos", "user"];

    assert_eq!(tags_match(&rules_1.clone(), &tags_1.clone()), false);
    assert_eq!(tags_match(&rules_1.clone(), &tags_2.clone()), false);
    assert_eq!(tags_match(&rules_1.clone(), &tags_3.clone()), true);
    assert_eq!(tags_match(&rules_1.clone(), &tags_4.clone()), false);
    assert_eq!(tags_match(&rules_2.clone(), &tags_1.clone()), false);
    assert_eq!(tags_match(&rules_2.clone(), &tags_2.clone()), true);
    assert_eq!(tags_match(&rules_2.clone(), &tags_3.clone()), false);
    assert_eq!(tags_match(&rules_2.clone(), &tags_4.clone()), false);
}

#[test]
fn test_manifest_tags_match_union() {
    let rules = ["linux,macos"];
    let tags_1 = ["linux"];
    let tags_2 = ["macos"];
    let tags_3 = ["linux", "macos"];
    let tags_4 = ["windows"];

    assert_eq!(tags_match(&rules.clone(), &tags_1.clone()), true);
    assert_eq!(tags_match(&rules.clone(), &tags_2.clone()), true);
    assert_eq!(tags_match(&rules.clone(), &tags_3.clone()), true);
    assert_eq!(tags_match(&rules.clone(), &tags_4.clone()), false);
}

#[test]
fn test_manifest_tags_match_union_two_rules() {
    let rules_1 = ["linux,macos", "user,system"];
    let rules_2 = ["linux,macos", "user"];
    let tags_1 = ["user", "linux"];
    let tags_2 = ["system", "macos"];
    let tags_3 = ["user", "linux", "macos"];
    let tags_4 = ["system", "windows"];

    assert_eq!(tags_match(&rules_1.clone(), &tags_1.clone()), true);
    assert_eq!(tags_match(&rules_1.clone(), &tags_2.clone()), true);
    assert_eq!(tags_match(&rules_1.clone(), &tags_3.clone()), true);
    assert_eq!(tags_match(&rules_1.clone(), &tags_4.clone()), false);
    assert_eq!(tags_match(&rules_2.clone(), &tags_1.clone()), true);
    assert_eq!(tags_match(&rules_2.clone(), &tags_2.clone()), false);
    assert_eq!(tags_match(&rules_2.clone(), &tags_3.clone()), true);
    assert_eq!(tags_match(&rules_2.clone(), &tags_4.clone()), false);
}

#[test]
fn test_manifest_tags_match_union_negated() {
    let rules = ["^linux,macos"];
    let tags_1 = ["linux"];
    let tags_2 = ["macos"];
    let tags_3 = ["linux", "macos"];
    let tags_4 = ["windows"];

    assert_eq!(tags_match(&rules.clone(), &tags_1.clone()), false);
    assert_eq!(tags_match(&rules.clone(), &tags_2.clone()), false);
    assert_eq!(tags_match(&rules.clone(), &tags_3.clone()), false);
    assert_eq!(tags_match(&rules.clone(), &tags_4.clone()), true);
}

#[test]
fn test_manifest_tags_match_union_negated_two_rules() {
    let rules_1 = ["^linux,macos", "^user"];
    let rules_2 = ["^linux,macos", "user,system"];
    let rules_3 = ["^linux,macos", "user"];
    let tags_1 = ["linux", "macos", "system"];
    let tags_2 = ["windows", "user"];
    let tags_3 = ["windows", "system"];

    assert_eq!(tags_match(&rules_1.clone(), &tags_1.clone()), false);
    assert_eq!(tags_match(&rules_1.clone(), &tags_2.clone()), false);
    assert_eq!(tags_match(&rules_1.clone(), &tags_3.clone()), true);
    assert_eq!(tags_match(&rules_2.clone(), &tags_1.clone()), false);
    assert_eq!(tags_match(&rules_2.clone(), &tags_2.clone()), true);
    assert_eq!(tags_match(&rules_2.clone(), &tags_3.clone()), true);
    assert_eq!(tags_match(&rules_3.clone(), &tags_1.clone()), false);
    assert_eq!(tags_match(&rules_3.clone(), &tags_2.clone()), true);
    assert_eq!(tags_match(&rules_3.clone(), &tags_3.clone()), false);
}

#[test]
fn test_manifest_get_manifest_tags_empty() {
    let manifest = Manifest {
        steps: vec![],
        base_dir: String::from("examples/test/empty.yml"),
    };
    let expected: Vec<String> = vec![];
    let actual = get_manifest_tags(manifest);
    assert_eq!(actual, expected);
}
