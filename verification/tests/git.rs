use kickoff::git::{is_valid_branch_name, BranchStatus, RepoInfo};

#[test]
fn branch_name_rules() {
    for ok in ["main", "feat/login", "fix-1.2", "user@host"] {
        assert!(is_valid_branch_name(ok), "{ok}");
    }
    for bad in [
        "", "@", "-x", "/x", "x/", "x.", "x.lock", "a..b", "a//b", "a@{b", "a b", "a~b", "a:b",
        "a/.b",
    ] {
        assert!(!is_valid_branch_name(bad), "{bad}");
    }
}

#[test]
fn branch_name_rules_on_components_and_characters() {
    assert!(!is_valid_branch_name("a.lock/b"));
    assert!(!is_valid_branch_name(".hidden"));
    assert!(!is_valid_branch_name("a^b"));
    assert!(!is_valid_branch_name("a?b"));
    assert!(!is_valid_branch_name("a*b"));
    assert!(!is_valid_branch_name("a[b"));
    assert!(!is_valid_branch_name("a\\b"));
    assert!(!is_valid_branch_name("a\u{7}b"));
    assert!(is_valid_branch_name("a.locked"));
    assert!(is_valid_branch_name("@x"));
}

fn repo() -> RepoInfo {
    RepoInfo {
        root: "/r".to_string(),
        current_branch: Some("main".to_string()),
        base: Some("origin/main".to_string()),
        branches: vec!["main".to_string(), "feat/idle".to_string(), "feat/busy".to_string()],
        worktrees: vec![
            ("main".to_string(), "/r".to_string()),
            ("feat/busy".to_string(), "/old".to_string()),
            ("feat/busy".to_string(), "/wt".to_string()),
        ],
    }
}

#[test]
fn branch_status_classifies() {
    let info = repo();
    assert_eq!(info.branch_status("feat/idle"), BranchStatus::Existing);
    assert_eq!(info.branch_status("feat/new"), BranchStatus::New);
    assert_eq!(info.branch_status(""), BranchStatus::Empty);
    assert_eq!(info.branch_status("bad name"), BranchStatus::Invalid);
    assert_eq!(
        info.branch_status("feat/busy"),
        BranchStatus::CheckedOut("/wt".to_string())
    );
    assert!(info.is_current("main"));
    assert!(!info.is_current("feat/idle"));
}

use kickoff::git::{command_text, default_branch, parse_worktrees, repo_info};

#[test]
fn command_text_drops_trailing_newlines() {
    assert_eq!(command_text("main\n\n"), Some("main".to_string()));
    assert_eq!(command_text("\n"), None);
    assert_eq!(command_text(""), None);
    assert_eq!(command_text("a\nb\n"), Some("a\nb".to_string()));
}

#[test]
fn worktree_porcelain_is_parsed() {
    let porcelain = "worktree /r\nHEAD abc\nbranch refs/heads/main\n\nworktree /wt\nHEAD def\nbranch refs/heads/feat/busy\n\nworktree /detached\nHEAD 123\ndetached";
    assert_eq!(
        parse_worktrees(porcelain),
        vec![
            ("main".to_string(), "/r".to_string()),
            ("feat/busy".to_string(), "/wt".to_string()),
        ]
    );
    assert!(parse_worktrees("").is_empty());
}

#[test]
fn default_branch_prefers_origin_head_then_main_then_master() {
    let branches = vec!["master".to_string(), "main".to_string()];
    assert_eq!(
        default_branch(Some("origin/trunk".to_string()), &branches),
        Some("origin/trunk".to_string())
    );
    assert_eq!(default_branch(None, &branches), Some("main".to_string()));
    assert_eq!(
        default_branch(None, &vec!["master".to_string()]),
        Some("master".to_string())
    );
    assert_eq!(default_branch(None, &vec!["dev".to_string()]), None);
}

#[test]
fn repo_info_puts_current_branch_first() {
    let info = repo_info(
        "/r".to_string(),
        Some("main".to_string()),
        Some("feat/a\nmain\nzeta".to_string()),
        Some("worktree /r\nbranch refs/heads/main".to_string()),
        None,
    );
    assert_eq!(info.branches, ["main", "feat/a", "zeta"]);
    assert_eq!(info.base.as_deref(), Some("main"));
    assert_eq!(info.worktrees, vec![("main".to_string(), "/r".to_string())]);
    assert_eq!(info.branch_status("main"), BranchStatus::CheckedOut("/r".to_string()));
    let bare = repo_info("/b".to_string(), None, None, None, Some("origin/main".to_string()));
    assert!(bare.branches.is_empty());
    assert_eq!(bare.base.as_deref(), Some("origin/main"));
}
