use kickoff::config::Harness;
use kickoff::harness::executable_candidates;
use kickoff::startup::{preferred_names, startup_message, zoxide_dirs_from};

#[test]
fn zoxide_lines_skip_blanks() {
    assert_eq!(
        zoxide_dirs_from("/a\n\n/b c\r\n/d\n"),
        ["/a", "/b c", "/d"]
    );
    assert!(zoxide_dirs_from("").is_empty());
}

#[test]
fn preferred_names_last_then_default() {
    assert_eq!(preferred_names(Some(" pi\n"), Some("Codex")), ["pi", "Codex"]);
    assert_eq!(preferred_names(None, Some("Codex")), ["Codex"]);
    assert!(preferred_names(None, None).is_empty());
}

fn harness(command: &str) -> Harness {
    Harness {
        name: "t".into(),
        command: command.into(),
    }
}

#[test]
fn candidates_follow_path_entries() {
    assert_eq!(executable_candidates(&harness(""), None), None);
    assert_eq!(
        executable_candidates(&harness("agent --flag"), Some("/bin:/usr/bin/")),
        Some(vec!["/bin/agent".to_string(), "/usr/bin/agent".to_string()])
    );
    assert_eq!(
        executable_candidates(&harness("agent"), None),
        Some(Vec::new())
    );
    assert_eq!(
        executable_candidates(&harness("./tools/agent -x"), Some("/bin")),
        Some(vec!["./tools/agent".to_string()])
    );
    assert_eq!(
        executable_candidates(&harness("agent"), Some("::")),
        Some(vec!["agent".to_string(), "agent".to_string(), "agent".to_string()])
    );
}

#[test]
fn startup_message_joins_the_problems() {
    assert_eq!(startup_message(None, None), None);
    assert_eq!(
        startup_message(Some("invalid config.toml".into()), None),
        Some("invalid config.toml; using built-in harnesses".into())
    );
    assert_eq!(
        startup_message(None, Some("running zoxide".into())),
        Some("running zoxide; type a /path instead".into())
    );
    assert_eq!(
        startup_message(Some("a".into()), Some("b".into())),
        Some("a; using built-in harnesses; b; type a /path instead".into())
    );
}

#[test]
fn zoxide_failure_is_reported() {
    assert_eq!(
        kickoff::startup::zoxide_result(true, "/a\n\n/b\n", "ignored"),
        Ok(vec!["/a".to_string(), "/b".to_string()])
    );
    assert_eq!(
        kickoff::startup::zoxide_result(false, "/a\n", " no database \n"),
        Err("zoxide query --list failed: no database".to_string())
    );
    assert_eq!(
        kickoff::startup::zoxide_result(false, "", ""),
        Err("zoxide query --list failed".to_string())
    );
}
