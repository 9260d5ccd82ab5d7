use branchless::hooks::{SHEBANG, UPDATE_MARKER_END, UPDATE_MARKER_START};
use branchless::install::{
    determine_hook_path, executable_mode, alias_setting, aliases_to_install, hooks_to_install,
    configs_to_set, update_hook_contents, GitVersion, Hook,
};

#[test]
fn test_determine_hook_path() {
    assert_eq!(
        determine_hook_path("/repo/.git", false, "/repo/.git/hooks", "post-commit"),
        Hook::RegularHook { path: vec!["/repo/.git/hooks".to_owned(), "post-commit".to_owned()] }
    );
    assert_eq!(
        determine_hook_path("/repo/.git", true, "/repo/.git/hooks", "post-commit"),
        Hook::MultiHook {
            path: vec![
                "/repo/.git".to_owned(),
                "hooks_multi".to_owned(),
                "post-commit.d".to_owned(),
                "00_local_branchless".to_owned()
            ]
        }
    );
}

#[test]
fn test_new_hook_contents() {
    let hook = determine_hook_path("/repo/.git", false, "/repo/.git/hooks", "post-commit");
    assert_eq!(
        update_hook_contents(&hook, None, "\nrun \"$@\"\n"),
        "#!/bin/sh\n## START BRANCHLESS CONFIG\n\nrun \"$@\"\n## END BRANCHLESS CONFIG\n"
    );
    assert_eq!(SHEBANG, "#!/bin/sh");
    assert_eq!(UPDATE_MARKER_START, "## START BRANCHLESS CONFIG");
    assert_eq!(UPDATE_MARKER_END, "## END BRANCHLESS CONFIG");
}

#[test]
fn test_existing_hook_contents_are_updated() {
    let hook = determine_hook_path("/repo/.git", false, "/repo/.git/hooks", "post-commit");
    let existing = "#!/bin/sh\nmine\n## START BRANCHLESS CONFIG\nold\n## END BRANCHLESS CONFIG\nmore\n";
    assert_eq!(
        update_hook_contents(&hook, Some(existing), "new\n"),
        "#!/bin/sh\nmine\n## START BRANCHLESS CONFIG\nnew\n## END BRANCHLESS CONFIG\nmore\n"
    );
    assert_eq!(update_hook_contents(&hook, Some(""), "new\n"), "");
}

#[test]
fn test_installing_twice_changes_nothing() {
    let hook = determine_hook_path("/repo/.git", false, "/repo/.git/hooks", "post-commit");
    for (_, script) in hooks_to_install() {
        let first = update_hook_contents(&hook, None, script);
        let second = update_hook_contents(&hook, Some(&first), script);
        assert_eq!(first, second);
        let existing = format!("#!/bin/sh\nmine\n{}", first);
        let updated = update_hook_contents(&hook, Some(&existing), script);
        let again = update_hook_contents(&hook, Some(&updated), script);
        assert_eq!(updated, again);
    }
}

#[test]
fn test_multi_hook_contents() {
    let hook = determine_hook_path("/repo/.git", true, "/repo/.git/hooks", "post-commit");
    assert_eq!(update_hook_contents(&hook, None, "\nrun\n"), "#!/bin/sh\n\nrun\n");
    assert_eq!(update_hook_contents(&hook, Some("whatever"), "\nrun\n"), "#!/bin/sh\n\nrun\n");
}

#[test]
fn test_hooks_to_install() {
    let hooks = hooks_to_install();
    let kinds: Vec<&str> = hooks.iter().map(|(kind, _)| *kind).collect();
    assert_eq!(
        kinds,
        vec!["post-commit", "post-rewrite", "post-checkout", "pre-auto-gc", "reference-transaction"]
    );
    assert_eq!(hooks[0].1, "\ngit branchless hook-post-commit \"$@\"\n");
    assert_eq!(hooks[1].1, "\ngit branchless hook-post-rewrite \"$@\"\n");
    assert_eq!(hooks[2].1, "\ngit branchless hook-post-checkout \"$@\"\n");
    assert_eq!(hooks[3].1, "\ngit branchless hook-pre-auto-gc \"$@\"\n");
    assert!(hooks[4].1.contains("git branchless hook-reference-transaction \"$@\" || (\n"));
    assert!(hooks[4].1.contains("echo 'branchless: This is a bug. Please report it.'\n)\n"));
    assert!(hooks[4].1.starts_with("\n# Avoid canceling the reference transaction"));
}

#[test]
fn test_aliases_to_install() {
    assert_eq!(
        aliases_to_install(),
        vec![
            ("smartlog", "smartlog"),
            ("sl", "smartlog"),
            ("hide", "hide"),
            ("unhide", "unhide"),
            ("prev", "prev"),
            ("next", "next"),
            ("restack", "restack"),
            ("undo", "undo"),
            ("move", "move")
        ]
    );
    assert_eq!(
        alias_setting("sl", "smartlog"),
        ("alias.sl".to_owned(), "branchless smartlog".to_owned())
    );
    assert_eq!(configs_to_set(), vec![("advice.detachedHead", false)]);
}

#[test]
fn test_executable_mode() {
    assert_eq!(executable_mode(0o644), 0o755);
    assert_eq!(executable_mode(0o600), 0o711);
    assert_eq!(executable_mode(0o755), 0o755);
    assert_eq!(executable_mode(0), 0o111);
}

#[test]
fn test_git_version_gate() {
    assert!(GitVersion(2, 28, 9).is_before(&GitVersion(2, 29, 0)));
    assert!(!GitVersion(2, 29, 0).is_before(&GitVersion(2, 29, 0)));
    assert!(GitVersion(1, 99, 99).is_before(&GitVersion(2, 0, 0)));
    assert!(GitVersion(2, 29, 0).is_before(&GitVersion(2, 29, 1)));
    assert!(!GitVersion(2, 28, 0).reports_reference_transactions());
    assert!(GitVersion(2, 29, 0).reports_reference_transactions());
    assert!(GitVersion(2, 30, 1).reports_reference_transactions());
    assert!(GitVersion(3, 0, 0).reports_reference_transactions());
}

#[test]
fn test_git_version_parse() {
    assert_eq!(GitVersion::parse("git version 2.29.0"), Some(GitVersion(2, 29, 0)));
    assert_eq!(GitVersion::parse("git version 2.28.0\n"), Some(GitVersion(2, 28, 0)));
    assert_eq!(GitVersion::parse("  git version 12.34.56.78 (Apple Git-1)\n"), Some(GitVersion(12, 34, 56)));
    assert_eq!(GitVersion::parse("git version 2.29.0.windows.1"), Some(GitVersion(2, 29, 0)));
    assert_eq!(GitVersion::parse("git version 2.29"), None);
    assert_eq!(GitVersion::parse("git version"), None);
    assert_eq!(GitVersion::parse("git  version 2.29.0"), None);
    assert_eq!(GitVersion::parse("git version 2.x.0"), None);
    assert_eq!(GitVersion::parse("git version 2.29.0-rc1"), None);
    assert_eq!(GitVersion::parse("git version ..."), None);
    assert_eq!(GitVersion::parse(""), None);
    assert_eq!(GitVersion::parse("2.29.0"), None);
}
