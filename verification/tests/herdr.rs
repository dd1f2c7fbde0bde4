use kickoff::app::{BranchSwitch, Launch, Request};
use kickoff::config::Harness;
use kickoff::herdr::{
    after_create, after_pane_list, create_reply, error_message, failure_message, first_pane_id,
    harness_to_start, launch_args, open_popup_args, pane_list_args, pane_run_args,
    pick_error_message, reply_from, start_launch, switch_args, switch_failure_message, CreateReply,
    LaunchAction,
};

#[test]
fn error_message_prefers_json_message() {
    assert_eq!(
        error_message(r#"{"id":"x","error":{"code":"bad","message":"branch exists"}}"#),
        Some("branch exists".into())
    );
    assert_eq!(
        error_message("plain failure\n"),
        Some("plain failure".into())
    );
    assert_eq!(error_message("  "), None);
}

#[test]
fn error_message_falls_back_to_error_string() {
    assert_eq!(error_message(r#"{"error":"nope"}"#), Some("nope".into()));
    assert_eq!(error_message(r#"{"error":{"code":1}}"#), Some(r#"{"error":{"code":1}}"#.into()));
    assert_eq!(pick_error_message("t", None, None), "t");
    assert_eq!(pick_error_message("t", None, Some("e".into())), "e");
    assert_eq!(pick_error_message("t", Some("m".into()), Some("e".into())), "m");
}

fn request(launch: Launch, command: &str) -> Request {
    Request {
        directory: "/home/me/repo".into(),
        harness: Harness {
            name: "X".into(),
            command: command.into(),
        },
        title: "repo".into(),
        launch,
    }
}

#[test]
fn launch_args_per_launch() {
    let in_place = request(Launch::InPlace { switch: None }, "x");
    assert_eq!(
        launch_args(&in_place),
        ["workspace", "create", "--cwd", "/home/me/repo", "--label", "repo", "--focus"]
    );
    let create = request(
        Launch::CreateWorktree {
            repo_root: "/r".into(),
            branch: "feat".into(),
            base: Some("origin/main".into()),
        },
        "x",
    );
    assert_eq!(
        launch_args(&create),
        [
            "worktree", "create", "--cwd", "/r", "--branch", "feat", "--label", "repo", "--focus",
            "--base", "origin/main"
        ]
    );
    let open = request(
        Launch::OpenWorktree {
            repo_root: "/r".into(),
            branch: "feat".into(),
        },
        "x",
    );
    assert_eq!(
        launch_args(&open),
        ["worktree", "open", "--cwd", "/r", "--branch", "feat", "--label", "repo", "--focus"]
    );
}

#[test]
fn harness_starts_unless_open_or_shell() {
    let r = request(Launch::InPlace { switch: None }, "  agent --go ");
    assert_eq!(harness_to_start(&r, false), Some("agent --go".to_string()));
    assert_eq!(harness_to_start(&r, true), None);
    let shell = request(Launch::InPlace { switch: None }, "  ");
    assert_eq!(harness_to_start(&shell, false), None);
}

#[test]
fn small_argument_lists() {
    assert_eq!(
        open_popup_args("kick"),
        ["plugin", "pane", "open", "--plugin", "kick", "--entrypoint", "launcher", "--focus"]
    );
    assert_eq!(pane_run_args("p1", "agent"), ["pane", "run", "p1", "agent"]);
    assert_eq!(pane_list_args("w1"), ["pane", "list", "--workspace", "w1"]);
}

#[test]
fn switch_args_for_new_and_existing_branches() {
    let existing = BranchSwitch {
        repo_root: "/r".into(),
        branch: "feat/old".into(),
        create: false,
        base: None,
    };
    assert_eq!(switch_args(&existing), ["-C", "/r", "switch", "feat/old"]);
    let new = BranchSwitch {
        repo_root: "/r".into(),
        branch: "feat/new".into(),
        create: true,
        base: Some("origin/main".into()),
    };
    assert_eq!(
        switch_args(&new),
        ["-C", "/r", "switch", "-c", "feat/new", "origin/main"]
    );
}

fn strings(items: &[&str]) -> Vec<String> {
    items.iter().map(|s| s.to_string()).collect()
}

#[test]
fn create_reply_reads_result_fields() {
    let reply = create_reply(
        r#"{"result":{"already_open":false,"root_pane":{"pane_id":"p1"},"workspace":{"workspace_id":"w1"}}}"#,
    );
    assert_eq!(
        reply,
        CreateReply {
            already_open: false,
            root_pane: Some("p1".into()),
            workspace: Some("w1".into()),
        }
    );
    let reopened = create_reply(r#"{"result":{"already_open":true}}"#);
    assert!(reopened.already_open);
    assert_eq!(reopened.root_pane, None);
    let nothing = CreateReply {
        already_open: false,
        root_pane: None,
        workspace: None,
    };
    assert_eq!(create_reply("not json"), nothing);
    assert_eq!(create_reply(""), nothing);
    assert_eq!(create_reply(r#"{"result":{"already_open":"yes"}}"#), nothing);
}

#[test]
fn first_pane_id_reads_the_first_listed_pane() {
    assert_eq!(
        first_pane_id(r#"{"result":{"panes":[{"pane_id":"a"},{"pane_id":"b"}]}}"#),
        Some("a".into())
    );
    assert_eq!(first_pane_id(r#"{"result":{"panes":[]}}"#), None);
    assert_eq!(first_pane_id("oops"), None);
}

#[test]
fn launch_starts_with_the_create_call() {
    let r = request(Launch::InPlace { switch: None }, "x");
    assert_eq!(
        start_launch(&r),
        LaunchAction::Create(strings(&[
            "workspace", "create", "--cwd", "/home/me/repo", "--label", "repo", "--focus"
        ]))
    );
}

#[test]
fn after_create_runs_in_the_root_pane_or_lists_panes() {
    let r = request(Launch::InPlace { switch: None }, " agent --go ");
    let reply = |already_open: bool, root: Option<&str>, ws: Option<&str>| CreateReply {
        already_open,
        root_pane: root.map(String::from),
        workspace: ws.map(String::from),
    };
    assert_eq!(
        after_create(&r, &reply(false, Some("p1"), Some("w1"))),
        LaunchAction::Run(strings(&["pane", "run", "p1", "agent --go"]))
    );
    assert_eq!(
        after_create(&r, &reply(false, None, Some("w1"))),
        LaunchAction::ListPanes {
            args: strings(&["pane", "list", "--workspace", "w1"]),
            workspace: "w1".into(),
        }
    );
    assert_eq!(
        after_create(&r, &reply(false, None, None)),
        LaunchAction::Fail("herdr did not report the new workspace".into())
    );
    assert_eq!(
        after_create(&r, &reply(true, Some("p1"), Some("w1"))),
        LaunchAction::Done
    );
    let shell = request(Launch::InPlace { switch: None }, "  ");
    assert_eq!(
        after_create(&shell, &reply(false, Some("p1"), Some("w1"))),
        LaunchAction::Done
    );
}

#[test]
fn after_pane_list_runs_in_the_first_pane() {
    let r = request(Launch::InPlace { switch: None }, "agent");
    assert_eq!(
        after_pane_list(&r, "w1", Some("p9".into())),
        LaunchAction::Run(strings(&["pane", "run", "p9", "agent"]))
    );
    assert_eq!(
        after_pane_list(&r, "w1", None),
        LaunchAction::Fail("workspace w1 has no pane to start the harness in".into())
    );
}

#[test]
fn failure_message_prefers_stderr_then_stdout() {
    let args = strings(&["worktree", "create", "--cwd", "/r"]);
    assert_eq!(failure_message(" boom \n", "out", &args), "boom");
    assert_eq!(failure_message("", "out\n", &args), "out");
    assert_eq!(
        failure_message(r#"{"error":{"message":"branch exists"}}"#, "", &args),
        "branch exists"
    );
    assert_eq!(failure_message(" ", "", &args), "herdr worktree create failed");
}

#[test]
fn switch_failure_message_is_git_stderr_or_a_fallback() {
    let switch = BranchSwitch {
        repo_root: "/r".into(),
        branch: "feat".into(),
        create: false,
        base: None,
    };
    assert_eq!(
        switch_failure_message(&switch, "error: local changes\n"),
        "error: local changes"
    );
    assert_eq!(switch_failure_message(&switch, "\n"), "git switch feat failed");
}

#[test]
fn reply_from_counts_only_true_as_already_open() {
    assert!(reply_from(Some(true), None, None).already_open);
    assert!(!reply_from(Some(false), None, None).already_open);
    let r = reply_from(None, Some("p".into()), Some("w".into()));
    assert!(!r.already_open);
    assert_eq!(r.root_pane.as_deref(), Some("p"));
    assert_eq!(r.workspace.as_deref(), Some("w"));
}
