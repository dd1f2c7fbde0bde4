use kickoff::app::{
    App, BranchSwitch, Field, HarnessChoice, Key, KeyCode, Launch, LaunchMode, Outcome, Picker,
    PickerKind, Probe, Request,
};
use kickoff::config::Harness;
use kickoff::git::{BranchStatus, RepoInfo};
use kickoff::ui::Tone;
use kickoff::app::{after_submit, SubmitStep};

struct FakeProbe;

impl Probe for FakeProbe {
    fn inspect(&self, dir: &str) -> Option<RepoInfo> {
        let name = dir.rsplit('/').next()?;
        let current_branch = match name {
            "repo" => Some("main".to_string()),
            "detached" => None,
            _ => return None,
        };
        Some(RepoInfo {
            root: dir.to_string(),
            current_branch,
            base: Some("origin/main".to_string()),
            branches: vec!["main".into(), "feat/wt".into(), "feat/old".into()],
            worktrees: vec![
                ("main".into(), dir.to_string()),
                ("feat/wt".into(), "/wt/feat-wt".into()),
            ],
        })
    }
    fn is_dir(&self, path: &str) -> bool {
        path == "/typed/dir"
    }
    fn home(&self) -> Option<String> {
        Some("/home/me".to_string())
    }
}

fn harness(name: &str, available: bool) -> HarnessChoice {
    HarnessChoice {
        harness: Harness {
            name: name.into(),
            command: name.to_lowercase(),
        },
        available,
    }
}

fn app() -> App<FakeProbe> {
    App::new(
        FakeProbe,
        vec![
            "/home/me/src/repo".into(),
            "/home/me/notes".into(),
            "/home/me/src/detached".into(),
        ],
        vec![
            harness("Opencode", true),
            harness("pi", false),
            harness("Codex", true),
        ],
        &["pi", "Codex"],
    )
}

fn press(app: &mut App<FakeProbe>, code: KeyCode) -> Outcome {
    app.handle_key(Key { code, ctrl: false })
}

fn ctrl(app: &mut App<FakeProbe>, c: char) -> Outcome {
    app.handle_key(Key {
        code: KeyCode::Char(c),
        ctrl: true,
    })
}

fn type_text(app: &mut App<FakeProbe>, text: &str) {
    for c in text.chars() {
        press(app, KeyCode::Char(c));
    }
}

fn pick(app: &mut App<FakeProbe>, query: &str) {
    type_text(app, query);
    press(app, KeyCode::Enter);
}

#[test]
fn opens_with_picker_and_skips_unavailable_preferred_harness() {
    let app = app();
    assert!(app.picker.is_some());
    assert_eq!(
        app.harness,
        Some(2),
        "pi is unavailable so Codex is preselected"
    );
}

#[test]
fn escape_in_initial_picker_cancels() {
    let mut app = app();
    assert_eq!(press(&mut app, KeyCode::Esc), Outcome::Cancel);
}

#[test]
fn picking_a_repo_fills_branch_and_title() {
    let mut app = app();
    pick(&mut app, "repo");
    assert!(app.picker.is_none());
    assert_eq!(app.directory, Some("/home/me/src/repo".to_string()));
    assert_eq!(app.field, Field::Harness);
    assert_eq!(app.mode, LaunchMode::InPlace);
    assert_eq!(app.branch, "main");
    assert_eq!(app.title, "repo");
    assert_eq!(app.directory_label().as_deref(), Some("~/src/repo"));
}

#[test]
fn typed_path_is_offered_first() {
    let mut app = app();
    type_text(&mut app, "/typed/dir/");
    assert_eq!(app.picker.as_ref().unwrap().entries, ["/typed/dir"]);
    press(&mut app, KeyCode::Enter);
    assert_eq!(app.directory, Some("/typed/dir".to_string()));
    assert!(app.repo.is_none());
    assert_eq!(app.title, "dir");
}

#[test]
fn escape_closes_picker_once_a_directory_is_chosen() {
    let mut app = app();
    pick(&mut app, "repo");
    app.field = Field::Directory;
    press(&mut app, KeyCode::Enter);
    assert!(app.picker.is_some());
    assert_eq!(press(&mut app, KeyCode::Esc), Outcome::Continue);
    assert!(app.picker.is_none());
    assert_eq!(press(&mut app, KeyCode::Esc), Outcome::Cancel);
}

#[test]
fn harness_cycling_skips_unavailable() {
    let mut app = app();
    pick(&mut app, "repo");
    press(&mut app, KeyCode::Right);
    assert_eq!(app.harness, Some(0));
    press(&mut app, KeyCode::Right);
    assert_eq!(app.harness, Some(2));
    press(&mut app, KeyCode::Left);
    assert_eq!(app.harness, Some(0));
}

#[test]
fn refresh_moves_off_a_harness_that_disappears() {
    let mut app = app();
    app.refresh_availability(|h| h.name != "Codex");
    assert_eq!(app.harness, Some(0));
    assert!(app.harnesses[1].available);
}

fn branch_status(app: &App<FakeProbe>) -> BranchStatus {
    app.repo.as_ref().unwrap().branch_status(&app.branch)
}

fn branch_picker(app: &App<FakeProbe>) -> &Picker {
    let picker = app.picker.as_ref().expect("picker is open");
    assert_eq!(picker.kind, PickerKind::Branch);
    picker
}

#[test]
fn enter_on_branch_opens_picker_current_first() {
    let mut app = app();
    pick(&mut app, "repo");
    app.field = Field::Branch;
    press(&mut app, KeyCode::Enter);
    assert_eq!(branch_picker(&app).entries, ["main", "feat/wt", "feat/old"]);
}

#[test]
fn typing_on_branch_opens_filtered_picker() {
    let mut app = app();
    pick(&mut app, "repo");
    app.field = Field::Branch;
    type_text(&mut app, "feat");
    let picker = branch_picker(&app);
    assert_eq!(picker.query, "feat");
    assert_eq!(picker.entries, ["feat/wt", "feat/old", "feat"]);
    type_text(&mut app, " old");
    assert_eq!(branch_picker(&app).entries, ["feat/old"]);
}

#[test]
fn picking_a_branch_in_place_updates_branch_and_title() {
    let mut app = app();
    pick(&mut app, "repo");
    app.field = Field::Branch;
    pick(&mut app, "old");
    assert!(app.picker.is_none());
    assert_eq!(app.mode, LaunchMode::InPlace);
    assert_eq!(app.branch, "feat/old");
    assert_eq!(app.title, "repo:feat/old");
    assert_eq!(app.field, Field::Title);
}

#[test]
fn typed_new_branch_is_offered_last_unless_invalid() {
    let mut app = app();
    pick(&mut app, "repo");
    app.field = Field::Branch;
    type_text(&mut app, "feat/");
    // "feat/" is not a valid branch name, so it isn't offered.
    assert_eq!(branch_picker(&app).entries, ["feat/wt", "feat/old"]);
    type_text(&mut app, "w");
    // "feat/w" is new but matches feat/wt, which is picked by default.
    assert_eq!(branch_picker(&app).entries, ["feat/wt", "feat/w"]);
    type_text(&mut app, "x");
    assert_eq!(branch_picker(&app).entries, ["feat/wx"]);
    press(&mut app, KeyCode::Enter);
    assert_eq!(app.branch, "feat/wx");
    assert_eq!(branch_status(&app), BranchStatus::New);
}

#[test]
fn escape_closes_branch_picker_and_keeps_branch() {
    let mut app = app();
    pick(&mut app, "repo");
    app.field = Field::Branch;
    type_text(&mut app, "old");
    assert_eq!(press(&mut app, KeyCode::Esc), Outcome::Continue);
    assert!(app.picker.is_none());
    assert_eq!(app.branch, "main");
    assert_eq!(app.title, "repo");
}

#[test]
fn mode_toggles_still_work_on_branch_field() {
    let mut app = app();
    pick(&mut app, "repo");
    app.field = Field::Branch;
    press(&mut app, KeyCode::Right);
    assert_eq!(app.mode, LaunchMode::Worktree);
    press(&mut app, KeyCode::Left);
    assert_eq!(app.mode, LaunchMode::InPlace);
    press(&mut app, KeyCode::Char('w'));
    assert_eq!(app.mode, LaunchMode::Worktree);
    assert!(app.picker.is_none());
}

#[test]
fn worktree_mode_picks_branch_and_title_follows() {
    let mut app = app();
    pick(&mut app, "repo");
    app.field = Field::Branch;
    press(&mut app, KeyCode::Char('w'));
    assert_eq!(app.mode, LaunchMode::Worktree);
    assert_eq!(app.branch, "");
    pick(&mut app, "feat/new");
    assert_eq!(app.title, "repo:feat/new");
    assert_eq!(branch_status(&app), BranchStatus::New);
    app.field = Field::Branch;
    press(&mut app, KeyCode::Left);
    assert_eq!(app.mode, LaunchMode::InPlace);
    assert_eq!(app.branch, "main");
    assert_eq!(app.title, "repo");
}

#[test]
fn edited_title_stops_following() {
    let mut app = app();
    pick(&mut app, "repo");
    app.field = Field::Title;
    type_text(&mut app, "!");
    app.field = Field::Branch;
    press(&mut app, KeyCode::Right);
    type_text(&mut app, "x");
    assert_eq!(app.title, "repo!");
}

#[test]
fn non_repo_forces_in_place() {
    let mut app = app();
    pick(&mut app, "notes");
    app.field = Field::Branch;
    press(&mut app, KeyCode::Right);
    assert_eq!(app.mode, LaunchMode::InPlace);
    assert_eq!(app.branch, "");
}

#[test]
fn submit_in_place() {
    let mut app = app();
    pick(&mut app, "repo");
    app.field = Field::Title;
    let Outcome::Submit(request) = press(&mut app, KeyCode::Enter) else {
        panic!("expected submit");
    };
    assert_eq!(request.launch, Launch::InPlace { switch: None });
    assert_eq!(request.harness.name, "Codex");
    assert_eq!(request.title, "repo");
}

fn submit_worktree(branch: &str) -> Launch {
    let mut app = app();
    pick(&mut app, "repo");
    app.field = Field::Branch;
    press(&mut app, KeyCode::Right);
    pick(&mut app, branch);
    match ctrl(&mut app, 's') {
        Outcome::Submit(request) => request.launch,
        other => panic!("expected submit, got {other:?} ({:?})", app.error),
    }
}

#[test]
fn submit_worktree_variants() {
    let root = "/home/me/src/repo".to_string();
    assert_eq!(
        submit_worktree("feat/new"),
        Launch::CreateWorktree {
            repo_root: root.clone(),
            branch: "feat/new".into(),
            base: Some("origin/main".into())
        }
    );
    assert_eq!(
        submit_worktree("feat/old"),
        Launch::CreateWorktree {
            repo_root: root.clone(),
            branch: "feat/old".into(),
            base: None
        }
    );
    assert_eq!(
        submit_worktree("feat/wt"),
        Launch::OpenWorktree {
            repo_root: root,
            branch: "feat/wt".into()
        }
    );
}

/// Submit In Place after picking `branch` (`None` leaves it as prefilled).
fn submit_in_place_on(dir: &str, branch: Option<&str>) -> (App<FakeProbe>, Outcome) {
    let mut app = app();
    pick(&mut app, dir);
    if let Some(branch) = branch {
        app.field = Field::Branch;
        pick(&mut app, branch);
    }
    let outcome = ctrl(&mut app, 's');
    (app, outcome)
}

fn in_place_switch(branch: Option<&str>) -> Option<BranchSwitch> {
    match submit_in_place_on("repo", branch) {
        (
            _,
            Outcome::Submit(Request {
                launch: Launch::InPlace { switch },
                ..
            }),
        ) => switch,
        (app, other) => panic!("expected in-place submit, got {other:?} ({:?})", app.error),
    }
}

#[test]
fn in_place_unchanged_branch_does_not_switch() {
    assert_eq!(in_place_switch(None), None);
    assert_eq!(in_place_switch(Some("main")), None);
}

#[test]
fn in_place_existing_branch_switches() {
    assert_eq!(
        in_place_switch(Some("feat/old")),
        Some(BranchSwitch {
            repo_root: "/home/me/src/repo".to_string(),
            branch: "feat/old".into(),
            create: false,
            base: None,
        })
    );
}

#[test]
fn in_place_new_branch_is_created_from_default_branch() {
    assert_eq!(
        in_place_switch(Some("feat/new")),
        Some(BranchSwitch {
            repo_root: "/home/me/src/repo".to_string(),
            branch: "feat/new".into(),
            create: true,
            base: Some("origin/main".into()),
        })
    );
}

#[test]
fn in_place_branch_with_worktree_is_refused() {
    let (app, outcome) = submit_in_place_on("repo", Some("feat/wt"));
    assert_eq!(outcome, Outcome::Continue);
    assert_eq!(app.field, Field::Branch);
    assert_eq!(
        app.error.as_deref(),
        Some("'feat/wt' is checked out at /wt/feat-wt, use Worktree mode")
    );
}

#[test]
fn failed_branch_switch_keeps_form_open_on_branch() {
    let (mut app, outcome) = submit_in_place_on("repo", Some("feat/old"));
    assert!(matches!(outcome, Outcome::Submit(_)));
    app.field = Field::Title;
    app.branch_switch_failed("error: your local changes would be overwritten".into());
    assert_eq!(app.field, Field::Branch);
    assert!(app.picker.is_none());
    assert_eq!(
        app.error.as_deref(),
        Some("error: your local changes would be overwritten")
    );
    assert_eq!(
        app.branch, "feat/old",
        "the choice is kept to retry or change"
    );
}

#[test]
fn detached_head_left_alone_does_not_switch() {
    let (_, outcome) = submit_in_place_on("detached", None);
    let Outcome::Submit(request) = outcome else {
        panic!("expected submit");
    };
    assert_eq!(request.launch, Launch::InPlace { switch: None });
    assert_eq!(request.title, "detached");
}

#[test]
fn invalid_submit_reports_error_and_focuses_field() {
    let mut app = app();
    pick(&mut app, "repo");
    app.field = Field::Branch;
    press(&mut app, KeyCode::Right);
    app.field = Field::Title;
    assert_eq!(ctrl(&mut app, 's'), Outcome::Continue);
    assert_eq!(app.field, Field::Branch);
    assert!(app.error.is_some());
}

#[test]
fn submit_without_directory_fails() {
    let mut app = app();
    press(&mut app, KeyCode::Char('z'));
    assert_eq!(ctrl(&mut app, 's'), Outcome::Continue);
    assert_eq!(app.error.as_deref(), Some("Pick a directory first"));
}

#[test]
fn preselection_ignores_case_and_falls_back_to_first_available() {
    let harnesses = || {
        vec![
            harness("Opencode", false),
            harness("pi", true),
            harness("Codex", true),
        ]
    };
    let by_name = App::new(FakeProbe, Vec::new(), harnesses(), &["CODEX", "pi"]);
    assert_eq!(by_name.harness, Some(2));
    let fallback = App::new(FakeProbe, Vec::new(), harnesses(), &["nope", "Opencode"]);
    assert_eq!(fallback.harness, Some(1));
    let none = App::new(
        FakeProbe,
        Vec::new(),
        vec![harness("Opencode", false)],
        &["Opencode"],
    );
    assert_eq!(none.harness, None);
}

#[test]
fn picking_another_directory_returns_to_in_place() {
    let mut app = app();
    pick(&mut app, "repo");
    app.field = Field::Branch;
    press(&mut app, KeyCode::Char('w'));
    assert_eq!(app.mode, LaunchMode::Worktree);
    app.field = Field::Directory;
    press(&mut app, KeyCode::Enter);
    pick(&mut app, "detached");
    assert_eq!(app.mode, LaunchMode::InPlace);
    assert_eq!(app.branch, "(detached)");
    assert_eq!(app.field, Field::Harness);
}

#[test]
fn red_branch_hint_matches_a_refused_submit() {
    let (app, outcome) = submit_in_place_on("repo", Some("feat/wt"));
    assert_eq!(outcome, Outcome::Continue);
    let hint = app.branch_hint("feat/wt");
    assert_eq!(hint.tone, Tone::Red);
    assert_eq!(hint.text, "  checked out at /wt/feat-wt, use Worktree mode");
    let (app, outcome) = submit_in_place_on("repo", Some("feat/old"));
    assert!(matches!(outcome, Outcome::Submit(_)));
    assert_eq!(app.branch_hint("feat/old").tone, Tone::Yellow);
}

#[test]
fn submit_steps_switch_then_launch() {
    let (mut app, outcome) = submit_in_place_on("repo", Some("feat/old"));
    let Outcome::Submit(request) = outcome else {
        panic!("expected submit");
    };
    let SubmitStep::Switch(switch) = after_submit(&request) else {
        panic!("expected a branch switch first");
    };
    assert_eq!(switch.branch, "feat/old");
    assert!(!app.after_switch(Err("error: conflict".into())));
    assert_eq!(app.field, Field::Branch);
    assert_eq!(app.error.as_deref(), Some("error: conflict"));
    assert!(app.after_switch(Ok(())));
    assert_eq!(app.after_launch(&request, Err("herdr failed".into())), None);
    assert_eq!(app.error.as_deref(), Some("herdr failed"));
    assert_eq!(
        app.after_launch(&request, Ok(())),
        Some("Codex".to_string())
    );
}

#[test]
fn requests_without_a_switch_launch_directly() {
    let (_, outcome) = submit_in_place_on("repo", None);
    let Outcome::Submit(request) = outcome else {
        panic!("expected submit");
    };
    assert_eq!(after_submit(&request), SubmitStep::Launch);
}

#[test]
fn request_builder_checks_directory_first() {
    let mut app = app();
    assert_eq!(
        app.build_request(),
        Err(("Pick a directory first".to_string(), Field::Directory))
    );
    assert_eq!(app.default_title(), "");
    pick(&mut app, "repo");
    assert_eq!(app.default_title(), "repo");
    let request = app.build_request().expect("a request");
    assert_eq!(request.title, "repo");
    assert_eq!(request.launch, Launch::InPlace { switch: None });
    assert!(matches!(app.submit(), Outcome::Submit(_)));
}
