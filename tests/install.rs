use coliru::install::{command_of, exit_code, plan_install, Action, Effect, InstallOptions};
use coliru::manifest::{CopyLinkOptions, Manifest, RunOptions, Step};

fn entry(src: &str, dst: &str) -> CopyLinkOptions {
    CopyLinkOptions { src: src.to_string(), dst: dst.to_string() }
}

fn script(prefix: &str, src: &str, postfix: &str) -> RunOptions {
    RunOptions { src: src.to_string(), prefix: prefix.to_string(), postfix: postfix.to_string() }
}

fn strings(v: &[&str]) -> Vec<String> {
    v.iter().map(|s| s.to_string()).collect()
}

fn sample_manifest() -> Manifest {
    Manifest {
        steps: vec![
            Step {
                copy: vec![entry("gitconfig", "~/.gitconfig")],
                link: vec![],
                run: vec![],
                tags: strings(&["linux", "macos", "windows"]),
            },
            Step {
                copy: vec![],
                link: vec![entry("vimrc", "~/.vimrc")],
                run: vec![script("sh", "script.sh", "arg1 $COLIRU_RULES")],
                tags: strings(&["linux", "macos"]),
            },
        ],
        base_dir: String::from("examples/test"),
    }
}

fn options(rules: &[&str], host: &str, dry_run: bool, copy: bool) -> InstallOptions {
    InstallOptions {
        tag_rules: strings(rules),
        host: host.to_string(),
        dry_run,
        copy,
        staging_dir: String::from("/tmp/stage"),
    }
}

fn announced(step: usize, total: usize, text: &str, effect: Option<Effect>) -> Action {
    Action::Announced { step, total, text: text.to_string(), effect }
}

#[test]
fn plan_local_end_to_end() {
    let plan = plan_install(&sample_manifest(), &options(&["linux"], "", false, false));
    let expected = vec![
        announced(1, 2, "Copy gitconfig to ~/.gitconfig", Some(Effect::Copy {
            src: "gitconfig".to_string(),
            dst: "~/.gitconfig".to_string(),
        })),
        announced(2, 2, "Link vimrc to ~/.vimrc", Some(Effect::Link {
            src: "vimrc".to_string(),
            dst: "~/.vimrc".to_string(),
        })),
        announced(2, 2, "Run sh script.sh arg1 linux", Some(Effect::RunLocal {
            command: "sh script.sh arg1 linux".to_string(),
        })),
    ];
    assert_eq!(plan, expected);
}

#[test]
fn plan_skips_unselected_steps() {
    let plan = plan_install(&sample_manifest(), &options(&["windows"], "", false, false));
    let expected = vec![announced(1, 1, "Copy gitconfig to ~/.gitconfig", Some(Effect::Copy {
        src: "gitconfig".to_string(),
        dst: "~/.gitconfig".to_string(),
    }))];
    assert_eq!(plan, expected);
}

#[test]
fn plan_nothing_selected() {
    let plan = plan_install(&sample_manifest(), &options(&["bsd"], "", false, false));
    assert_eq!(plan, vec![]);
    let plan = plan_install(&sample_manifest(), &options(&["^linux,windows"], "", false, false));
    assert_eq!(plan, vec![]);
}

#[test]
fn plan_empty_manifest() {
    let manifest = Manifest { steps: vec![], base_dir: String::from(".") };
    assert_eq!(plan_install(&manifest, &options(&[], "", false, false)), vec![]);
}

#[test]
fn plan_no_rules_selects_every_step() {
    let plan = plan_install(&sample_manifest(), &options(&[], "", false, false));
    assert_eq!(plan.len(), 3);
    assert_eq!(plan[2], announced(2, 2, "Run sh script.sh arg1 ", Some(Effect::RunLocal {
        command: "sh script.sh arg1 ".to_string(),
    })));
}

#[test]
fn plan_dry_run_only_announces() {
    let plan = plan_install(&sample_manifest(), &options(&["linux"], "", true, false));
    let expected = vec![
        announced(1, 2, "Copy gitconfig to ~/.gitconfig", None),
        announced(2, 2, "Link vimrc to ~/.vimrc", None),
        announced(2, 2, "Run sh script.sh arg1 linux", None),
    ];
    assert_eq!(plan, expected);
}

#[test]
fn plan_remote_dry_run_has_no_transfer() {
    let plan = plan_install(&sample_manifest(), &options(&["linux"], "user@host", true, false));
    assert_eq!(plan.len(), 4);
    for action in &plan {
        assert!(matches!(action, Action::Announced { effect: None, .. }));
    }
}

#[test]
fn plan_copy_instead_of_link() {
    let plan = plan_install(&sample_manifest(), &options(&["linux"], "", false, true));
    assert_eq!(plan[1], announced(2, 2, "Copy vimrc to ~/.vimrc", Some(Effect::Copy {
        src: "vimrc".to_string(),
        dst: "~/.vimrc".to_string(),
    })));
    assert_eq!(plan.len(), 3);
}

#[test]
fn plan_remote() {
    let plan = plan_install(&sample_manifest(), &options(&["linux", "^work"], "user@host", false, false));
    let flush = || Action::Flush { host: "user@host".to_string() };
    let expected = vec![
        announced(1, 2, "Copy gitconfig to user@host:~/.gitconfig", Some(Effect::Stage {
            src: "gitconfig".to_string(),
            staged: "/tmp/stage/home/.gitconfig".to_string(),
        })),
        flush(),
        flush(),
        flush(),
        flush(),
        announced(2, 2, "Copy vimrc to user@host:~/.vimrc", Some(Effect::Stage {
            src: "vimrc".to_string(),
            staged: "/tmp/stage/home/.vimrc".to_string(),
        })),
        flush(),
        announced(2, 2, "Copy script.sh to user@host:~/.coliru/script.sh", Some(Effect::Stage {
            src: "script.sh".to_string(),
            staged: "/tmp/stage/home/.coliru/script.sh".to_string(),
        })),
        flush(),
        announced(2, 2, "Run sh script.sh arg1 linux ^work on user@host", Some(Effect::RunRemote {
            command: "cd .coliru && sh script.sh arg1 linux ^work".to_string(),
            host: "user@host".to_string(),
        })),
    ];
    assert_eq!(plan, expected);
}

#[test]
fn plan_remote_absolute_and_relative_destinations() {
    let manifest = Manifest {
        steps: vec![Step {
            copy: vec![entry("a", "/etc/a"), entry("b", "dir/b")],
            link: vec![],
            run: vec![],
            tags: vec![],
        }],
        base_dir: String::from("."),
    };
    let plan = plan_install(&manifest, &options(&[], "h", false, false));
    assert_eq!(plan, vec![
        announced(1, 1, "Copy a to h:/etc/a", Some(Effect::Stage {
            src: "a".to_string(),
            staged: "/tmp/stage/root/etc/a".to_string(),
        })),
        announced(1, 1, "Copy b to h:~/.coliru/dir/b", Some(Effect::Stage {
            src: "b".to_string(),
            staged: "/tmp/stage/home/.coliru/dir/b".to_string(),
        })),
        Action::Flush { host: "h".to_string() },
        Action::Flush { host: "h".to_string() },
        Action::Flush { host: "h".to_string() },
    ]);
}

#[test]
fn plan_every_script_planned() {
    let manifest = Manifest {
        steps: vec![Step {
            copy: vec![],
            link: vec![],
            run: vec![script("sh", "fail.sh", ""), script("sh", "two.sh", ""), script("", "three.sh", "x")],
            tags: vec![],
        }],
        base_dir: String::from("."),
    };
    let plan = plan_install(&manifest, &options(&[], "", false, false));
    assert_eq!(plan, vec![
        announced(1, 1, "Run sh fail.sh ", Some(Effect::RunLocal { command: "sh fail.sh ".to_string() })),
        announced(1, 1, "Run sh two.sh ", Some(Effect::RunLocal { command: "sh two.sh ".to_string() })),
        announced(1, 1, "Run  three.sh x", Some(Effect::RunLocal { command: " three.sh x".to_string() })),
    ]);
}

#[test]
fn exit_code_soft_errors() {
    assert_eq!(exit_code(&[true, false, false]), 1);
    assert_eq!(exit_code(&[false, true, true]), 1);
    assert_eq!(exit_code(&[true, true, true]), 1);
    assert_eq!(exit_code(&[false, false, false]), 0);
    assert_eq!(exit_code(&[]), 0);
}

#[test]
fn command_substitutes_every_marker() {
    let run = script("bash", "s.sh", "$COLIRU_RULES x $COLIRU_RULES");
    assert_eq!(command_of(&run, "linux ^work"), "bash s.sh linux ^work x linux ^work");
    let run = script("", "s.sh", "$COLIRU_RULE");
    assert_eq!(command_of(&run, "linux"), " s.sh $COLIRU_RULE");
    let run = script("", "s.sh", "$$COLIRU_RULESS");
    assert_eq!(command_of(&run, "a"), " s.sh $aS");
}
