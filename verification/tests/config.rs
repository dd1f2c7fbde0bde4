use kickoff::config::Harness;

#[test]
fn program_is_first_word() {
    let agent = Harness {
        name: "x".to_string(),
        command: "codex --continue".to_string(),
    };
    assert_eq!(agent.program(), Some("codex"));
    let shell = Harness {
        name: "Shell".to_string(),
        command: String::new(),
    };
    assert_eq!(shell.program(), None);
}

#[test]
fn program_skips_leading_space() {
    let h = Harness {
        name: "x".to_string(),
        command: "  \tpi  -x".to_string(),
    };
    assert_eq!(h.program(), Some("pi"));
    let blank = Harness {
        name: "x".to_string(),
        command: "   ".to_string(),
    };
    assert_eq!(blank.program(), None);
}

use kickoff::config::{builtin_harnesses, Config};

fn names(config: &Config) -> Vec<&str> {
    config.harnesses.iter().map(|h| h.name.as_str()).collect()
}

#[test]
fn empty_config_uses_builtins() {
    let config = Config::from_entries(None, Vec::new());
    assert_eq!(names(&config), ["Opencode", "Codex", "pi", "omp", "Shell"]);
    assert_eq!(config.default_harness, None);
    assert_eq!(config.harnesses, builtin_harnesses());
}

#[test]
fn override_replaces_by_name_and_new_ones_go_before_shell() {
    let config = Config::from_entries(
        Some("Codex".to_string()),
        vec![
            ("codex".to_string(), "codex --continue".to_string()),
            ("Aider".to_string(), "aider".to_string()),
        ],
    );
    assert_eq!(
        names(&config),
        ["Opencode", "codex", "pi", "omp", "Aider", "Shell"]
    );
    assert_eq!(config.harnesses[1].command, "codex --continue");
    assert_eq!(config.default_harness.as_deref(), Some("Codex"));
}

#[test]
fn configured_entries_are_trimmed_and_later_ones_win() {
    let config = Config::from_entries(
        None,
        vec![
            ("  Goose ".to_string(), " goose run ".to_string()),
            ("GOOSE".to_string(), "goose".to_string()),
        ],
    );
    assert_eq!(names(&config), ["Opencode", "Codex", "pi", "omp", "GOOSE", "Shell"]);
    assert_eq!(config.harnesses[4].command, "goose");
}

#[test]
fn configured_shell_replaces_the_builtin_one() {
    let config = Config::from_entries(
        None,
        vec![
            ("shell".to_string(), "bash".to_string()),
            ("Extra".to_string(), "extra".to_string()),
        ],
    );
    // Shell is found ignoring case, so it stays last under its new spelling.
    assert_eq!(names(&config), ["Opencode", "Codex", "pi", "omp", "Extra", "shell"]);
    assert_eq!(config.harnesses[5].command, "bash");
}
