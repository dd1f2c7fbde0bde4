//! What the Launcher asks of the herdr CLI: the arguments of each call, and
//! the message shown when herdr reports a failure.

use vstd::prelude::*;

use crate::app::{BranchSwitch, Launch, LaunchView, Request};
use crate::text::{trim, trim_str};
use crate::app::RequestView;
use crate::json::{
    first_elem, first_of, flag_in, flag_of, json_doc, member, member_of, node, parse_json,
    text_in, text_of, Json,
};

verus! {

/// The member at `outer`, then `inner`, of a JSON node.
fn json_at<'a>(value: Option<&'a Json>, outer: &str, inner: &str) -> (r: Option<&'a Json>)
    ensures
        node(r) == member(member(node(value), outer@), inner@),
{
    member_of(member_of(value, outer), inner)
}

/// The message shown for a failure: `error.message`, else `error`, else the text.
pub open spec fn chosen_message(
    message: Option<Seq<char>>,
    error_text: Option<Seq<char>>,
    text: Seq<char>,
) -> Seq<char> {
    match message {
        Some(m) => m,
        None => match error_text {
            Some(e) => e,
            None => text,
        },
    }
}

/// The message of a failure, given what herdr's JSON held: `error.message`,
/// else `error` itself when it is a string, else the whole (trimmed) text.
pub fn pick_error_message(
    text: &str,
    message: Option<String>,
    error_text: Option<String>,
) -> (r: String)
    ensures
        r@ == chosen_message(message.deep_view(), error_text.deep_view(), text@),
{
    match message {
        Some(m) => m,
        None => match error_text {
            Some(e) => e,
            None => String::from_str(text),
        },
    }
}

/// The message a failure's text reports: none when it is blank; else,
/// for the trimmed text, `error.message` of its JSON, else `error` itself
/// when that is a string, else the trimmed text.
pub open spec fn error_message_spec(text: Seq<char>) -> Option<Seq<char>> {
    let t = trim(text);
    if t.len() == 0 {
        None
    } else {
        let error = member(json_doc(t), "error"@);
        Some(chosen_message(text_of(member(error, "message"@)), text_of(error), t))
    }
}

/// herdr reports failures as JSON `{"error":{"message":…}}`; fall back to
/// the raw text. `None` when there is no text at all.
pub fn error_message(text: &str) -> (r: Option<String>)
    ensures
        r.deep_view() == error_message_spec(text@),
{
    let t = trim_str(text);
    if t.as_str().is_empty() {
        return None;
    }
    let doc = parse_json(t.as_str());
    let error = member_of(doc.as_ref(), "error");
    let message = text_in(member_of(error, "message"));
    let error_text = text_in(error);
    let r = pick_error_message(t.as_str(), message, error_text);
    Some(r)
}

/// Arguments of `herdr` that open the Launcher popup for `plugin_id`.
pub fn open_popup_args(plugin_id: &str) -> (r: Vec<String>)
    ensures
        r.deep_view() == seq![
            "plugin"@,
            "pane"@,
            "open"@,
            "--plugin"@,
            plugin_id@,
            "--entrypoint"@,
            "launcher"@,
            "--focus"@,
        ],
{
    let mut v: Vec<String> = Vec::new();
    v.push(String::from_str("plugin"));
    v.push(String::from_str("pane"));
    v.push(String::from_str("open"));
    v.push(String::from_str("--plugin"));
    v.push(String::from_str(plugin_id));
    v.push(String::from_str("--entrypoint"));
    v.push(String::from_str("launcher"));
    v.push(String::from_str("--focus"));
    assert(v.deep_view() =~= seq![
        "plugin"@,
        "pane"@,
        "open"@,
        "--plugin"@,
        plugin_id@,
        "--entrypoint"@,
        "launcher"@,
        "--focus"@,
    ]);
    v
}

/// The `herdr` arguments that create (or reopen) the workspace a request asks for.
pub open spec fn launch_args_spec(r: crate::app::RequestView) -> Seq<Seq<char>> {
    match r.launch {
        LaunchView::InPlace { .. } => seq![
            "workspace"@,
            "create"@,
            "--cwd"@,
            r.directory,
            "--label"@,
            r.title,
            "--focus"@,
        ],
        LaunchView::CreateWorktree { repo_root, branch, base } => {
            let args = seq![
                "worktree"@,
                "create"@,
                "--cwd"@,
                repo_root,
                "--branch"@,
                branch,
                "--label"@,
                r.title,
                "--focus"@,
            ];
            match base {
                Some(b) => args + seq!["--base"@, b],
                None => args,
            }
        },
        LaunchView::OpenWorktree { repo_root, branch } => seq![
            "worktree"@,
            "open"@,
            "--cwd"@,
            repo_root,
            "--branch"@,
            branch,
            "--label"@,
            r.title,
            "--focus"@,
        ],
    }
}

/// The `herdr` arguments that create (or reopen) the workspace a request
/// asks for; any branch switch has already been done by the caller.
pub fn launch_args(request: &Request) -> (r: Vec<String>)
    ensures
        r.deep_view() == launch_args_spec(request@),
{
    let title = request.title.as_str();
    let mut v: Vec<String> = Vec::new();
    match &request.launch {
        Launch::InPlace { .. } => {
            v.push(String::from_str("workspace"));
            v.push(String::from_str("create"));
            v.push(String::from_str("--cwd"));
            v.push(request.directory.clone());
            v.push(String::from_str("--label"));
            v.push(String::from_str(title));
            v.push(String::from_str("--focus"));
        },
        Launch::CreateWorktree { repo_root, branch, base } => {
            v.push(String::from_str("worktree"));
            v.push(String::from_str("create"));
            v.push(String::from_str("--cwd"));
            v.push(repo_root.clone());
            v.push(String::from_str("--branch"));
            v.push(branch.clone());
            v.push(String::from_str("--label"));
            v.push(String::from_str(title));
            v.push(String::from_str("--focus"));
            match base {
                Some(b) => {
                    v.push(String::from_str("--base"));
                    v.push(b.clone());
                },
                None => {},
            }
        },
        Launch::OpenWorktree { repo_root, branch } => {
            v.push(String::from_str("worktree"));
            v.push(String::from_str("open"));
            v.push(String::from_str("--cwd"));
            v.push(repo_root.clone());
            v.push(String::from_str("--branch"));
            v.push(branch.clone());
            v.push(String::from_str("--label"));
            v.push(String::from_str(title));
            v.push(String::from_str("--focus"));
        },
    }
    assert(v.deep_view() =~= launch_args_spec(request@));
    v
}

/// The command to start in the new workspace's first pane: none when the
/// worktree was already open (it keeps whatever runs there) or the harness
/// is the plain Shell (empty command); else the trimmed command.
pub fn harness_to_start(request: &Request, already_open: bool) -> (r: Option<String>)
    ensures
        r.deep_view() == if already_open || trim(request.harness.command@).len() == 0 {
            None
        } else {
            Some(trim(request.harness.command@))
        },
{
    if already_open {
        return None;
    }
    let command = trim_str(request.harness.command.as_str());
    if command.as_str().is_empty() {
        None
    } else {
        Some(command)
    }
}

/// Arguments of `herdr` that run `command` in `pane`.
pub fn pane_run_args(pane: &str, command: &str) -> (r: Vec<String>)
    ensures
        r.deep_view() == seq!["pane"@, "run"@, pane@, command@],
{
    let mut v: Vec<String> = Vec::new();
    v.push(String::from_str("pane"));
    v.push(String::from_str("run"));
    v.push(String::from_str(pane));
    v.push(String::from_str(command));
    assert(v.deep_view() =~= seq!["pane"@, "run"@, pane@, command@]);
    v
}

/// Arguments of `herdr` that list the panes of `workspace`.
pub fn pane_list_args(workspace: &str) -> (r: Vec<String>)
    ensures
        r.deep_view() == seq!["pane"@, "list"@, "--workspace"@, workspace@],
{
    let mut v: Vec<String> = Vec::new();
    v.push(String::from_str("pane"));
    v.push(String::from_str("list"));
    v.push(String::from_str("--workspace"));
    v.push(String::from_str(workspace));
    assert(v.deep_view() =~= seq!["pane"@, "list"@, "--workspace"@, workspace@]);
    v
}

/// Arguments of `git` that check out the branch of an In Place switch in
/// the repo: `switch <branch>` for an existing branch, `switch -c <branch>
/// [<base>]` for a new one.
pub fn switch_args(switch: &BranchSwitch) -> (r: Vec<String>)
    ensures
        r.deep_view() == seq!["-C"@, switch.repo_root@, "switch"@] + if switch.create {
            seq!["-c"@, switch.branch@] + match switch.base {
                Some(b) => seq![b@],
                None => Seq::empty(),
            }
        } else {
            seq![switch.branch@]
        },
{
    let mut v: Vec<String> = Vec::new();
    v.push(String::from_str("-C"));
    v.push(switch.repo_root.clone());
    v.push(String::from_str("switch"));
    if switch.create {
        v.push(String::from_str("-c"));
        v.push(switch.branch.clone());
        match &switch.base {
            Some(b) => v.push(b.clone()),
            None => {},
        }
    } else {
        v.push(switch.branch.clone());
    }
    assert(v.deep_view() =~= seq!["-C"@, switch.repo_root@, "switch"@] + if switch.create {
        seq!["-c"@, switch.branch@] + match switch.base {
            Some(b) => seq![b@],
            None => Seq::empty(),
        }
    } else {
        seq![switch.branch@]
    });
    v
}

/// What herdr reported after creating or reopening a workspace.
#[derive(Debug, Clone, PartialEq, Eq)]
pub struct CreateReply {
    /// The worktree was already open; it keeps whatever runs in it.
    pub already_open: bool,
    /// The id of the new workspace's first pane, when herdr names it.
    pub root_pane: Option<String>,
    /// The id of the new workspace, when herdr names it.
    pub workspace: Option<String>,
}

/// The node at `result` of the JSON document in `text`.
pub open spec fn result_of(text: Seq<char>) -> Option<Json> {
    member(json_doc(text), "result"@)
}

/// Reads herdr's answer to `workspace create`, `worktree create` or
/// `worktree open`: `result.already_open`, `result.root_pane.pane_id` and
/// `result.workspace.workspace_id`. Output that is not JSON reports none of them.
pub fn create_reply(stdout: &str) -> (r: CreateReply)
    ensures
        r.already_open == (flag_of(member(result_of(stdout@), "already_open"@)) == Some(true)),
        r.root_pane.deep_view() == text_of(
            member(member(result_of(stdout@), "root_pane"@), "pane_id"@),
        ),
        r.workspace.deep_view() == text_of(
            member(member(result_of(stdout@), "workspace"@), "workspace_id"@),
        ),
{
    let doc = parse_json(stdout);
    let result = member_of(doc.as_ref(), "result");
    let already_open = flag_in(member_of(result, "already_open"));
    let root_pane = text_in(json_at(result, "root_pane", "pane_id"));
    let workspace = text_in(json_at(result, "workspace", "workspace_id"));
    reply_from(already_open, root_pane, workspace)
}

/// The reply built from what herdr's answer held: `result.already_open` (when
/// it is a boolean), `result.root_pane.pane_id` and
/// `result.workspace.workspace_id` (when they are strings). The worktree
/// counts as already open only when herdr said `true`.
pub fn reply_from(
    already_open: Option<bool>,
    root_pane: Option<String>,
    workspace: Option<String>,
) -> (r: CreateReply)
    ensures
        r.already_open == (already_open == Some(true)),
        r.root_pane == root_pane,
        r.workspace == workspace,
{
    let open = match already_open {
        Some(x) => x,
        None => false,
    };
    CreateReply { already_open: open, root_pane, workspace }
}

/// Reads herdr's answer to `pane list`: the id of the first pane,
/// `result.panes[0].pane_id`. Output that is not JSON names none.
pub fn first_pane_id(stdout: &str) -> (r: Option<String>)
    ensures
        r.deep_view() == text_of(
            member(first_elem(member(result_of(stdout@), "panes"@)), "pane_id"@),
        ),
{
    let doc = parse_json(stdout);
    let panes = json_at(doc.as_ref(), "result", "panes");
    text_in(member_of(first_of(panes), "pane_id"))
}

/// The next step of turning a request into a running workspace.
#[derive(Debug, Clone, PartialEq, Eq)]
pub enum LaunchAction {
    /// Call `herdr` with these arguments to create (or reopen) the
    /// workspace, and hand its answer to `after_create`.
    Create(Vec<String>),
    /// Call `herdr` with these arguments to list the panes of `workspace`,
    /// and hand the first pane's id to `after_pane_list`.
    ListPanes { args: Vec<String>, workspace: String },
    /// Call `herdr` with these arguments to start the harness; then done.
    Run(Vec<String>),
    /// The workspace is up and there is nothing to start in it.
    Done,
    /// Stop and show this message on the form.
    Fail(String),
}

/// `LaunchAction` with its strings as characters.
pub enum ActionView {
    Create(Seq<Seq<char>>),
    ListPanes { args: Seq<Seq<char>>, workspace: Seq<char> },
    Run(Seq<Seq<char>>),
    Done,
    Fail(Seq<char>),
}

impl View for LaunchAction {
    type V = ActionView;

    open spec fn view(&self) -> ActionView {
        match self {
            LaunchAction::Create(args) => ActionView::Create(args.deep_view()),
            LaunchAction::ListPanes { args, workspace } => ActionView::ListPanes {
                args: args.deep_view(),
                workspace: workspace@,
            },
            LaunchAction::Run(args) => ActionView::Run(args.deep_view()),
            LaunchAction::Done => ActionView::Done,
            LaunchAction::Fail(m) => ActionView::Fail(m@),
        }
    }
}

/// The harness command a request starts: the trimmed command, none for the
/// plain Shell.
pub open spec fn command_of(request: RequestView) -> Option<Seq<char>> {
    let c = trim(request.harness.command@);
    if c.len() == 0 {
        None
    } else {
        Some(c)
    }
}

/// What follows herdr's answer to the create call: nothing when the
/// worktree was already open or there is no harness command; else run the
/// command in the reported first pane, or ask for the workspace's panes when
/// herdr did not name one, or fail when it named no workspace either.
pub open spec fn after_create_spec(request: RequestView, reply: CreateReply) -> ActionView {
    match command_of(request) {
        None => ActionView::Done,
        Some(c) => if reply.already_open {
            ActionView::Done
        } else {
            match reply.root_pane {
                Some(p) => ActionView::Run(seq!["pane"@, "run"@, p@, c]),
                None => match reply.workspace {
                    Some(w) => ActionView::ListPanes {
                        args: seq!["pane"@, "list"@, "--workspace"@, w@],
                        workspace: w@,
                    },
                    None => ActionView::Fail("herdr did not report the new workspace"@),
                },
            }
        },
    }
}

/// The first call of a launch: create (or reopen) the workspace.
pub fn start_launch(request: &Request) -> (r: LaunchAction)
    ensures
        r@ == ActionView::Create(launch_args_spec(request@)),
{
    LaunchAction::Create(launch_args(request))
}

/// The step after herdr answered the create call.
pub fn after_create(request: &Request, reply: &CreateReply) -> (r: LaunchAction)
    ensures
        r@ == after_create_spec(request@, *reply),
{
    let command = match harness_to_start(request, reply.already_open) {
        Some(c) => c,
        None => return LaunchAction::Done,
    };
    match &reply.root_pane {
        Some(p) => LaunchAction::Run(pane_run_args(p.as_str(), command.as_str())),
        None => match &reply.workspace {
            Some(w) => LaunchAction::ListPanes {
                args: pane_list_args(w.as_str()),
                workspace: w.clone(),
            },
            None => LaunchAction::Fail(String::from_str("herdr did not report the new workspace")),
        },
    }
}

/// The step after herdr listed the panes of `workspace`: run the harness
/// command in the first one, or fail when there is none.
pub fn after_pane_list(request: &Request, workspace: &str, first_pane: Option<String>) -> (r:
    LaunchAction)
    ensures
        r@ == match command_of(request@) {
            None => ActionView::Done,
            Some(c) => match first_pane {
                Some(p) => ActionView::Run(seq!["pane"@, "run"@, p@, c]),
                None => ActionView::Fail(
                    "workspace "@ + workspace@ + " has no pane to start the harness in"@,
                ),
            },
        },
{
    let command = match harness_to_start(request, false) {
        Some(c) => c,
        None => return LaunchAction::Done,
    };
    match first_pane {
        Some(p) => LaunchAction::Run(pane_run_args(p.as_str(), command.as_str())),
        None => {
            let mut m = String::from_str("workspace ");
            m.append(workspace);
            m.append(" has no pane to start the harness in");
            LaunchAction::Fail(m)
        },
    }
}

/// The message of a failed `herdr` call: what its error output reports, else
/// what its standard output reports, else that the command (named by its
/// first two arguments) failed.
pub fn failure_message(stderr: &str, stdout: &str, args: &Vec<String>) -> (r: String)
    requires
        args.len() >= 2,
    ensures
        r@ == match error_message_spec(stderr@) {
            Some(m) => m,
            None => match error_message_spec(stdout@) {
                Some(m) => m,
                None => "herdr "@ + args@[0]@ + " "@ + args@[1]@ + " failed"@,
            },
        },
{
    match error_message(stderr) {
        Some(m) => m,
        None => match error_message(stdout) {
            Some(m) => m,
            None => {
                let mut m = String::from_str("herdr ");
                m.append(args[0].as_str());
                m.append(" ");
                m.append(args[1].as_str());
                m.append(" failed");
                m
            },
        },
    }
}

/// The message shown when the In Place `git switch` failed: what git wrote
/// on its error output, trimmed, or that the switch failed when it wrote
/// nothing.
pub fn switch_failure_message(switch: &BranchSwitch, stderr: &str) -> (r: String)
    ensures
        r@ == if trim(stderr@).len() == 0 {
            "git switch "@ + switch.branch@ + " failed"@
        } else {
            trim(stderr@)
        },
{
    let t = trim_str(stderr);
    if t.as_str().is_empty() {
        let mut m = String::from_str("git switch ");
        m.append(switch.branch.as_str());
        m.append(" failed");
        m
    } else {
        t
    }
}

/// Submitting creates (or reopens) the workspace focused and labelled with
/// the request's title; a worktree that was already open gets nothing
/// started in it; and the only command ever started is the request's own
/// harness command, trimmed.
pub proof fn launch_focuses_and_starts_only_the_harness(
    request: RequestView,
    reply: CreateReply,
    workspace: Seq<char>,
    first_pane: Option<String>,
)
    ensures
        launch_args_spec(request).contains("--focus"@),
        exists|i: int|
            0 <= i < launch_args_spec(request).len() - 1 && #[trigger] launch_args_spec(request)[i]
                == "--label"@ && launch_args_spec(request)[i + 1] == request.title,
        reply.already_open ==> after_create_spec(request, reply) == ActionView::Done,
        after_create_spec(request, reply) matches ActionView::Run(args) ==> (command_of(request)
            matches Some(c) && args.last() == c),
{
    let a = launch_args_spec(request);
    match request.launch {
        LaunchView::InPlace { .. } => {
            assert(a[6] == "--focus"@);
            assert(a[4] == "--label"@ && a[5] == request.title);
        },
        LaunchView::CreateWorktree { .. } => {
            assert(a[8] == "--focus"@);
            assert(a[6] == "--label"@ && a[7] == request.title);
        },
        LaunchView::OpenWorktree { .. } => {
            assert(a[8] == "--focus"@);
            assert(a[6] == "--label"@ && a[7] == request.title);
        },
    }
}

/// The workspace opens where the request says: an In Place request, with or
/// without a branch switch, creates it in the request's own directory; a
/// worktree request works from the repo's root on the request's branch.
pub proof fn launch_opens_the_requested_directory(request: RequestView)
    ensures
        launch_args_spec(request)[2] == "--cwd"@,
        request.launch is InPlace ==> launch_args_spec(request)[3] == request.directory,
        request.launch matches LaunchView::CreateWorktree { repo_root, branch, .. } ==> (
        launch_args_spec(request)[3] == repo_root && launch_args_spec(request)[4] == "--branch"@
            && launch_args_spec(request)[5] == branch),
        request.launch matches LaunchView::OpenWorktree { repo_root, branch } ==> (
        launch_args_spec(request)[3] == repo_root && launch_args_spec(request)[4] == "--branch"@
            && launch_args_spec(request)[5] == branch),
{
}

} // verus!
