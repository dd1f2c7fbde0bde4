//! Launcher form state and key handling, kept free of terminal and herdr IO.

use vstd::prelude::*;

use crate::config::Harness;
use crate::ui::{help_spec, hint, hint_spec, join_lines, one_line, tag_spec, Hint, Tone};
use crate::git::{BranchStatus, RepoInfo, StatusView};
use crate::text::{
    chars_of, ends_with_char, pieces, push_char, split_char, starts_with_char, str_eq,
    string_of, string_of_range, trim, trim_end_char, trim_end_char_len, trim_range,
};

verus! {

/// The filesystem and git lookups the form needs while you type.
pub trait Probe {
    /// What git reports about the repo holding `dir`, if it is in one.
    fn inspect(&self, dir: &str) -> Option<RepoInfo>;

    /// Whether `answer` is an answer this probe may give when asked if
    /// `path` is an existing directory. A probe that says nothing more
    /// allows every answer; code written for any probe learns it only by
    /// asking.
    closed spec fn reports_dir(&self, path: Seq<char>, answer: bool) -> bool {
        true
    }

    /// Whether `path` is an existing directory.
    fn is_dir(&self, path: &str) -> (r: bool)
        ensures
            self.reports_dir(path@, r),
    ;

    /// The home directory, if known.
    fn home(&self) -> Option<String>;
}

/// The form's fields, in Tab order.
#[derive(Debug, Clone, Copy, PartialEq, Eq, Structural)]
pub enum Field {
    Directory,
    Harness,
    Branch,
    Title,
}

/// Position of a field in Tab order.
pub open spec fn field_index(f: Field) -> int {
    match f {
        Field::Directory => 0,
        Field::Harness => 1,
        Field::Branch => 2,
        Field::Title => 3,
    }
}

/// The field at a position in Tab order (taken modulo 4).
pub open spec fn field_at(i: int) -> Field {
    let k = i % 4;
    if k == 0 {
        Field::Directory
    } else if k == 1 {
        Field::Harness
    } else if k == 2 {
        Field::Branch
    } else {
        Field::Title
    }
}

impl Field {
    /// The field `delta` places further in Tab order, wrapping around.
    pub fn step(self, delta: isize) -> (r: Field)
        ensures
            r == field_at(field_index(self) + delta),
    {
        let i: isize = match self {
            Field::Directory => 0,
            Field::Harness => 1,
            Field::Branch => 2,
            Field::Title => 3,
        };
        let d: isize = delta % 4;
        let j: isize = (i + d + 4) % 4;
        assert((field_index(self) + delta) % 4 == j) by (nonlinear_arith)
            requires
                i == field_index(self),
                d == delta % 4 || (d < 0 && d == delta % 4 - 4) || (d > 0 && d == delta % 4),
                0 <= i < 4,
                -4 < d < 4,
                j == (i + d + 4) % 4,
                (d - delta) % 4 == 0,
        ;
        if j == 0 {
            Field::Directory
        } else if j == 1 {
            Field::Harness
        } else if j == 2 {
            Field::Branch
        } else {
            Field::Title
        }
    }
}

/// Whether the workspace opens the Target Directory itself or a worktree.
#[derive(Debug, Clone, Copy, PartialEq, Eq, Structural)]
pub enum LaunchMode {
    InPlace,
    Worktree,
}

/// A harness and whether its program is on PATH right now.
#[derive(Debug, Clone)]
pub struct HarnessChoice {
    pub harness: Harness,
    pub available: bool,
}

/// What a picker lists.
#[derive(Debug, Clone, Copy, Default, PartialEq, Eq, Structural)]
pub enum PickerKind {
    #[default]
    Directory,
    Branch,
}

/// The list the user picks a directory or branch from.
#[derive(Debug, Default)]
pub struct Picker {
    pub kind: PickerKind,
    pub query: String,
    /// Entries shown, in order. Directories: an existing typed path first, then
    /// zoxide matches. Branches: matching local branches, then the typed name
    /// if it would be a new branch.
    pub entries: Vec<String>,
    pub selected: usize,
}

/// A picker with its strings as characters.
#[verifier::ext_equal]
pub struct PickerView {
    pub kind: PickerKind,
    pub query: Seq<char>,
    pub entries: Seq<Seq<char>>,
    pub selected: usize,
}

impl View for Picker {
    type V = PickerView;

    open spec fn view(&self) -> PickerView {
        PickerView {
            kind: self.kind,
            query: self.query@,
            entries: self.entries.deep_view(),
            selected: self.selected,
        }
    }
}

/// What submitting the form asks herdr to do.
#[derive(Debug, Clone, PartialEq, Eq)]
pub struct Request {
    pub directory: String,
    pub harness: Harness,
    pub title: String,
    pub launch: Launch,
}

/// How the workspace is opened.
#[derive(Debug, Clone, PartialEq, Eq)]
pub enum Launch {
    /// Open the Target Directory itself, switching its branch first if `switch` is set.
    InPlace { switch: Option<BranchSwitch> },
    /// Create a worktree; `base` is set only when the branch is new.
    CreateWorktree { repo_root: String, branch: String, base: Option<String> },
    /// Reopen the worktree that already has the branch checked out.
    OpenWorktree { repo_root: String, branch: String },
}

/// Check out another branch in the Target Directory before launching.
#[derive(Debug, Clone, PartialEq, Eq)]
pub struct BranchSwitch {
    pub repo_root: String,
    pub branch: String,
    /// The branch is new: create it from `base` (HEAD when `None`).
    pub create: bool,
    pub base: Option<String>,
}

/// What a key press leads to.
#[derive(Debug, PartialEq, Eq)]
pub enum Outcome {
    Continue,
    Cancel,
    Submit(Request),
}

/// `BranchSwitch` with its strings as characters.
pub struct SwitchView {
    pub repo_root: Seq<char>,
    pub branch: Seq<char>,
    pub create: bool,
    pub base: Option<Seq<char>>,
}

/// `Launch` with its strings as characters.
pub enum LaunchView {
    InPlace { switch: Option<SwitchView> },
    CreateWorktree { repo_root: Seq<char>, branch: Seq<char>, base: Option<Seq<char>> },
    OpenWorktree { repo_root: Seq<char>, branch: Seq<char> },
}

/// `Request` with its strings as characters.
pub struct RequestView {
    pub directory: Seq<char>,
    pub harness: Harness,
    pub title: Seq<char>,
    pub launch: LaunchView,
}

/// `Outcome` with its strings as characters.
pub enum OutcomeView {
    Continue,
    Cancel,
    Submit(RequestView),
}

impl View for BranchSwitch {
    type V = SwitchView;

    open spec fn view(&self) -> SwitchView {
        SwitchView {
            repo_root: self.repo_root@,
            branch: self.branch@,
            create: self.create,
            base: self.base.deep_view(),
        }
    }
}

impl View for Launch {
    type V = LaunchView;

    open spec fn view(&self) -> LaunchView {
        match self {
            Launch::InPlace { switch } => LaunchView::InPlace {
                switch: match switch {
                    Some(s) => Some(s@),
                    None => None,
                },
            },
            Launch::CreateWorktree { repo_root, branch, base } => LaunchView::CreateWorktree {
                repo_root: repo_root@,
                branch: branch@,
                base: base.deep_view(),
            },
            Launch::OpenWorktree { repo_root, branch } => LaunchView::OpenWorktree {
                repo_root: repo_root@,
                branch: branch@,
            },
        }
    }
}

impl View for Request {
    type V = RequestView;

    open spec fn view(&self) -> RequestView {
        RequestView {
            directory: self.directory@,
            harness: self.harness,
            title: self.title@,
            launch: self.launch@,
        }
    }
}

impl View for Outcome {
    type V = OutcomeView;

    open spec fn view(&self) -> OutcomeView {
        match self {
            Outcome::Continue => OutcomeView::Continue,
            Outcome::Cancel => OutcomeView::Cancel,
            Outcome::Submit(r) => OutcomeView::Submit(r@),
        }
    }
}

/// The whole form state, strings as characters.
#[verifier::ext_equal]
pub struct FormView {
    pub picker: Option<PickerView>,
    pub field: Field,
    pub directory: Option<Seq<char>>,
    pub repo: Option<RepoInfo>,
    pub harnesses: Seq<HarnessChoice>,
    pub harness: Option<usize>,
    pub mode: LaunchMode,
    pub branch: Seq<char>,
    pub title: Seq<char>,
    pub title_edited: bool,
    pub error: Option<Seq<char>>,
    pub zoxide: Seq<Seq<char>>,
}

/// The Launcher form.
pub struct App<P: Probe> {
    probe: P,
    zoxide: Vec<String>,
    pub picker: Option<Picker>,
    pub field: Field,
    pub directory: Option<String>,
    pub repo: Option<RepoInfo>,
    pub harnesses: Vec<HarnessChoice>,
    pub harness: Option<usize>,
    pub mode: LaunchMode,
    pub branch: String,
    pub title: String,
    title_edited: bool,
    pub error: Option<String>,
}

impl<P: Probe> View for App<P> {
    type V = FormView;

    closed spec fn view(&self) -> FormView {
        FormView {
            picker: match self.picker {
                Some(p) => Some(p@),
                None => None,
            },
            field: self.field,
            directory: self.directory.deep_view(),
            repo: self.repo,
            harnesses: self.harnesses@,
            harness: self.harness,
            mode: self.mode,
            branch: self.branch@,
            title: self.title@,
            title_edited: self.title_edited,
            error: self.error.deep_view(),
            zoxide: self.zoxide.deep_view(),
        }
    }
}

// ---------------------------------------------------------------------------
// Paths
// ---------------------------------------------------------------------------

/// `rest` joined onto `base` (`Path::join` on Unix): an absolute `rest`
/// replaces `base`, else a separator goes between them when `base` lacks one.
pub open spec fn join_path(base: Seq<char>, rest: Seq<char>) -> Seq<char> {
    if starts_with_char(rest, '/') {
        rest
    } else if base.len() == 0 || ends_with_char(base, '/') {
        base + rest
    } else {
        base + seq!['/'] + rest
    }
}

/// Among the first `n` pieces, the last one that is a path component: not
/// empty and not `.`; `None` when there is none or it is `..`.
pub open spec fn last_component(ps: Seq<Seq<char>>, n: int) -> Option<Seq<char>>
    decreases n,
{
    if n <= 0 {
        None
    } else if ps[n - 1].len() == 0 || ps[n - 1] == seq!['.'] {
        last_component(ps, n - 1)
    } else if ps[n - 1] == seq!['.', '.'] {
        None
    } else {
        Some(ps[n - 1])
    }
}

/// The last component of a path (`Path::file_name`).
pub open spec fn file_name(p: Seq<char>) -> Option<Seq<char>> {
    last_component(pieces(p, '/'), pieces(p, '/').len() as int)
}

/// A picker query that looks like a path (`/…` or `~…`), expanded, with a
/// trailing slash dropped.
pub open spec fn expand_spec(query: Seq<char>, home: Option<Seq<char>>) -> Option<Seq<char>> {
    let q = trim(query);
    let path = if q == seq!['~'] {
        home
    } else if seq!['~', '/'].is_prefix_of(q) {
        match home {
            Some(h) => Some(join_path(h, q.subrange(2, q.len() as int))),
            None => None,
        }
    } else if starts_with_char(q, '/') {
        Some(q)
    } else {
        None
    };
    match path {
        Some(p) => {
            let t = trim_end_char(p, '/');
            if t.len() == 0 {
                Some(seq!['/'])
            } else {
                Some(t)
            }
        },
        None => None,
    }
}

/// `path` with the home directory shown as `~`.
pub open spec fn display_spec(home: Option<Seq<char>>, path: Seq<char>) -> Seq<char> {
    match home {
        Some(h) => if h.is_prefix_of(path) && (path.len() == h.len() || path[h.len() as int]
            == '/') {
            seq!['~'] + path.subrange(h.len() as int, path.len() as int)
        } else {
            path
        },
        None => path,
    }
}

/// Joins `rest` onto `base` the way `Path::join` does on Unix.
pub(crate) fn join_path_exec(base: &[char], rest: &[char]) -> (r: Vec<char>)
    ensures
        r@ == join_path(base@, rest@),
{
    let mut out: Vec<char> = Vec::new();
    if rest.len() > 0 && rest[0] == '/' {
        append_chars(&mut out, rest);
        return out;
    }
    append_chars(&mut out, base);
    if base.len() > 0 && base[base.len() - 1] != '/' {
        out.push('/');
    }
    append_chars(&mut out, rest);
    out
}

/// Appends the characters of `cs` to `out`.
fn append_chars(out: &mut Vec<char>, cs: &[char])
    ensures
        final(out)@ == old(out)@ + cs@,
{
    let mut i: usize = 0;
    while i < cs.len()
        invariant
            i <= cs@.len(),
            out@ == old(out)@ + cs@.take(i as int),
        decreases cs.len() - i,
    {
        out.push(cs[i]);
        assert(cs@.take(i + 1) == cs@.take(i as int).push(cs@[i as int]));
        i = i + 1;
    }
    assert(cs@.take(cs@.len() as int) == cs@);
}

/// A picker query that looks like a path (`/…` or `~…`), expanded.
pub fn expand_typed_path(query: &str, home: Option<String>) -> (r: Option<String>)
    ensures
        r.deep_view() == expand_spec(query@, home.deep_view()),
{
    let all = chars_of(query);
    let (a, b) = trim_range(all.as_slice());
    let q = string_of_range(all.as_slice(), a, b);
    let qc = chars_of(q.as_str());
    let path: Vec<char> = if qc.len() == 1 && qc[0] == '~' {
        assert(qc@ =~= seq!['~']);
        match home {
            Some(h) => chars_of(h.as_str()),
            None => {
                return None;
            },
        }
    } else if qc.len() >= 2 && qc[0] == '~' && qc[1] == '/' {
        assert(seq!['~', '/'].is_prefix_of(qc@)) by {
            assert(qc@.subrange(0, 2) =~= seq!['~', '/']);
        }
        assert(qc@ != seq!['~']);
        match home {
            Some(h) => {
                let hc = chars_of(h.as_str());
                let rest = string_of_range(qc.as_slice(), 2, qc.len());
                let rc = chars_of(rest.as_str());
                join_path_exec(hc.as_slice(), rc.as_slice())
            },
            None => {
                return None;
            },
        }
    } else if qc.len() > 0 && qc[0] == '/' {
        assert(qc@ != seq!['~']);
        assert(!seq!['~', '/'].is_prefix_of(qc@)) by {
            if seq!['~', '/'].is_prefix_of(qc@) {
                assert(qc@.subrange(0, 2)[0] == '~');
            }
        }
        qc
    } else {
        assert(qc@.len() == 1 ==> qc@ != seq!['~']);
        assert(!seq!['~', '/'].is_prefix_of(qc@)) by {
            if seq!['~', '/'].is_prefix_of(qc@) {
                assert(qc@.subrange(0, 2)[0] == '~');
                assert(qc@.subrange(0, 2)[1] == '/');
            }
        }
        assert(qc@ != seq!['~']) by {
            if qc@ == seq!['~'] {
                assert(qc@.len() == 1 && qc@[0] == '~');
            }
        }
        return None;
    };
    // Normalise a trailing slash so it matches zoxide's spelling.
    let n = trim_end_char_len(path.as_slice(), '/');
    if n == 0 {
        let mut root = String::new();
        push_char(&mut root, '/');
        assert(root@ =~= seq!['/']);
        Some(root)
    } else {
        Some(string_of_range(path.as_slice(), 0, n))
    }
}

/// `path` with the home directory `home` shown as `~`.
pub fn display_path_in(home: Option<&str>, path: &str) -> (r: String)
    ensures
        r@ == display_spec(
            match home {
                Some(h) => Some(h@),
                None => None,
            },
            path@,
        ),
{
    let pc = chars_of(path);
    match home {
        Some(h) => {
            let hc = chars_of(h);
            if crate::text::starts_with_seq(pc.as_slice(), hc.as_slice()) && (pc.len() == hc.len()
                || pc[hc.len()] == '/') {
                let mut out = String::new();
                push_char(&mut out, '~');
                let rest = string_of_range(pc.as_slice(), hc.len(), pc.len());
                out.append(rest.as_str());
                assert(out@ =~= seq!['~'] + pc@.subrange(hc@.len() as int, pc@.len() as int));
                out
            } else {
                String::from_str(path)
            }
        },
        None => String::from_str(path),
    }
}

/// The last component of `path`, if it has one.
fn file_name_exec(path: &str) -> (r: Option<String>)
    ensures
        r.deep_view() == file_name(path@),
{
    let cs = chars_of(path);
    let ps = split_char(cs.as_slice(), '/');
    let mut n: usize = ps.len();
    while n > 0
        invariant
            n <= ps@.len(),
            ps@.len() == pieces(path@, '/').len(),
            forall|k: int| 0 <= k < ps@.len() ==> #[trigger] ps@[k]@ == pieces(path@, '/')[k],
            last_component(pieces(path@, '/'), ps@.len() as int) == last_component(
                pieces(path@, '/'),
                n as int,
            ),
        decreases n,
    {
        let p = &ps[n - 1];
        assert(p@ == pieces(path@, '/')[n - 1]);
        if p.len() == 0 || (p.len() == 1 && p[0] == '.') {
            assert(p@.len() == 1 && p@[0] == '.' ==> p@ =~= seq!['.']);
            n = n - 1;
        } else if p.len() == 2 && p[0] == '.' && p[1] == '.' {
            assert(p@ =~= seq!['.', '.']);
            assert(p@ != seq!['.']);
            return None;
        } else {
            assert(p@ != seq!['.']) by {
                if p@ == seq!['.'] {
                    assert(p@.len() == 1 && p@[0] == '.');
                }
            }
            assert(p@ != seq!['.', '.']) by {
                if p@ == seq!['.', '.'] {
                    assert(p@.len() == 2 && p@[0] == '.' && p@[1] == '.');
                }
            }
            return Some(string_of(p.as_slice()));
        }
    }
    None
}

// ---------------------------------------------------------------------------
// The form model
// ---------------------------------------------------------------------------

/// The branch prefilled for a repo: its checked-out branch, `(detached)`, or
/// nothing outside a repo.
pub open spec fn branch_label(repo: Option<RepoInfo>) -> Seq<char> {
    match repo {
        Some(r) => match r.current_branch {
            Some(b) => b@,
            None => "(detached)"@,
        },
        None => Seq::empty(),
    }
}

/// In Place with a branch other than the one already checked out.
pub open spec fn switches(v: FormView) -> bool {
    v.mode == LaunchMode::InPlace && v.repo is Some && v.branch != branch_label(v.repo)
}

/// The Title the form suggests: the directory name, with `:branch` in
/// Worktree mode (once a branch is named) or when In Place switches branch.
pub open spec fn default_title(v: FormView) -> Seq<char> {
    match v.directory {
        None => Seq::empty(),
        Some(dir) => {
            let base = match file_name(dir) {
                Some(n) => n,
                None => dir,
            };
            let show_branch = match v.mode {
                LaunchMode::Worktree => v.branch.len() > 0,
                LaunchMode::InPlace => switches(v),
            };
            if show_branch {
                base + seq![':'] + v.branch
            } else {
                base
            }
        },
    }
}

/// The Title follows the Target Directory (and a chosen branch) until edited.
pub open spec fn follow(v: FormView) -> FormView {
    if v.title_edited {
        v
    } else {
        FormView { title: default_title(v), ..v }
    }
}

/// The invariant that the Title is the suggested one until the user edits it.
pub open spec fn title_follows(v: FormView) -> bool {
    v.title_edited || v.title == default_title(v)
}

/// A branch was picked.
pub open spec fn after_select_branch(v: FormView, branch: Seq<char>) -> FormView {
    follow(FormView { picker: None, error: None, field: Field::Title, branch, ..v })
}

/// Launch Mode switched; the branch resets to the current one or to nothing.
pub open spec fn after_toggle(v: FormView) -> FormView {
    let mode = match v.mode {
        LaunchMode::InPlace => LaunchMode::Worktree,
        LaunchMode::Worktree => LaunchMode::InPlace,
    };
    let branch = match mode {
        LaunchMode::InPlace => branch_label(v.repo),
        LaunchMode::Worktree => Seq::empty(),
    };
    follow(FormView { mode, branch, ..v })
}

/// A directory was picked and `repo` is what the probe reported for it.
pub open spec fn after_select_directory(
    v: FormView,
    dir: Seq<char>,
    repo: Option<RepoInfo>,
) -> FormView {
    follow(
        FormView {
            repo,
            directory: Some(dir),
            picker: None,
            error: None,
            mode: LaunchMode::InPlace,
            branch: branch_label(repo),
            field: Field::Harness,
            ..v
        },
    )
}

/// The selected harness, when it is in range and available.
pub open spec fn chosen_harness(v: FormView) -> Option<Harness> {
    match v.harness {
        Some(i) => if i < v.harnesses.len() && v.harnesses[i as int].available {
            Some(v.harnesses[i as int].harness)
        } else {
            None
        },
        None => None,
    }
}

/// The message for a name that is not a valid branch name.
pub open spec fn invalid_branch_message(branch: Seq<char>) -> Seq<char> {
    "'"@ + branch + "' is not a valid branch name"@
}

/// How the form's mode, repo and branch translate into a launch, or the
/// error that stops it and the field to fix.
pub open spec fn launch_of(v: FormView) -> Result<LaunchView, (Seq<char>, Field)> {
    match v.repo {
        Some(repo) => if v.mode == LaunchMode::Worktree {
            match repo.status_of(v.branch) {
                StatusView::Empty => Err(("Enter a branch for the worktree"@, Field::Branch)),
                StatusView::Invalid => Err((invalid_branch_message(v.branch), Field::Branch)),
                StatusView::New => Ok(
                    LaunchView::CreateWorktree {
                        repo_root: repo.root@,
                        branch: v.branch,
                        base: repo.base.deep_view(),
                    },
                ),
                StatusView::Existing => Ok(
                    LaunchView::CreateWorktree { repo_root: repo.root@, branch: v.branch, base: None },
                ),
                StatusView::CheckedOut(_) => Ok(
                    LaunchView::OpenWorktree { repo_root: repo.root@, branch: v.branch },
                ),
            }
        } else if switches(v) {
            match repo.status_of(v.branch) {
                StatusView::Empty => Err(("Pick a branch"@, Field::Branch)),
                StatusView::Invalid => Err((invalid_branch_message(v.branch), Field::Branch)),
                StatusView::CheckedOut(path) => Err(
                    (
                        "'"@ + v.branch + "' is checked out at "@ + path + ", use Worktree mode"@,
                        Field::Branch,
                    ),
                ),
                StatusView::New => Ok(
                    LaunchView::InPlace {
                        switch: Some(
                            SwitchView {
                                repo_root: repo.root@,
                                branch: v.branch,
                                create: true,
                                base: repo.base.deep_view(),
                            },
                        ),
                    },
                ),
                StatusView::Existing => Ok(
                    LaunchView::InPlace {
                        switch: Some(
                            SwitchView {
                                repo_root: repo.root@,
                                branch: v.branch,
                                create: false,
                                base: None,
                            },
                        ),
                    },
                ),
            }
        } else {
            Ok(LaunchView::InPlace { switch: None })
        },
        None => Ok(LaunchView::InPlace { switch: None }),
    }
}

/// The title a request carries: the typed one trimmed, or the suggested one
/// when that is blank.
pub open spec fn request_title(v: FormView) -> Seq<char> {
    if trim(v.title).len() == 0 {
        default_title(v)
    } else {
        trim(v.title)
    }
}

/// What submitting the form asks for, or the message and field of the first
/// problem.
pub open spec fn build(v: FormView) -> Result<RequestView, (Seq<char>, Field)> {
    match v.directory {
        None => Err(("Pick a directory first"@, Field::Directory)),
        Some(dir) => match chosen_harness(v) {
            None => Err(("No available harness selected"@, Field::Harness)),
            Some(h) => match launch_of(v) {
                Err(e) => Err(e),
                Ok(launch) => Ok(
                    RequestView { directory: dir, harness: h, title: request_title(v), launch },
                ),
            },
        },
    }
}

/// Submitting: a request, or the error shown on the field to fix.
pub open spec fn submit_step(pre: FormView, post: FormView, out: OutcomeView) -> bool {
    match build(pre) {
        Ok(req) => post == pre && out == OutcomeView::Submit(req),
        Err((msg, f)) => post == FormView { error: Some(msg), field: f, ..pre }
            && out == OutcomeView::Continue,
    }
}

// ---------------------------------------------------------------------------
// Keys
// ---------------------------------------------------------------------------

/// The key that was pressed.
#[derive(Debug, Clone, Copy, PartialEq, Eq, Structural)]
pub enum KeyCode {
    Char(char),
    Enter,
    Esc,
    Tab,
    BackTab,
    Up,
    Down,
    Left,
    Right,
    Backspace,
    /// Any key the form ignores.
    Other,
}

/// A key press: the key and whether Control was held.
#[derive(Debug, Clone, Copy, PartialEq, Eq, Structural)]
pub struct Key {
    pub code: KeyCode,
    pub ctrl: bool,
}

// ---------------------------------------------------------------------------
// Pickers
// ---------------------------------------------------------------------------

/// The first `n` candidates that match `query`, in order, without `typed`.
pub open spec fn kept(
    query: Seq<char>,
    cands: Seq<Seq<char>>,
    typed: Option<Seq<char>>,
    n: int,
) -> Seq<Seq<char>>
    decreases n,
{
    if n <= 0 {
        Seq::empty()
    } else {
        let rest = kept(query, cands, typed, n - 1);
        if crate::filter::query_matches(query, cands[n - 1]) && typed != Some(cands[n - 1]) {
            rest.push(cands[n - 1])
        } else {
            rest
        }
    }
}

/// A picker's entries: the matching candidates in their order, with the
/// typed entry (if any) first or last instead of among them.
pub open spec fn picker_entries(
    query: Seq<char>,
    cands: Seq<Seq<char>>,
    typed: Option<Seq<char>>,
    typed_first: bool,
) -> Seq<Seq<char>> {
    let m = kept(query, cands, typed, cands.len() as int);
    match typed {
        Some(t) => if typed_first {
            seq![t] + m
        } else {
            m.push(t)
        },
        None => m,
    }
}

/// Every entry of an open directory picker is one of zoxide's directories
/// or a path the probe reported as an existing directory.
pub open spec fn dir_entries_reported<P: Probe>(probe: P, v: FormView) -> bool {
    match v.picker {
        Some(p) => p.kind == PickerKind::Directory ==> forall|k: int|
            0 <= k < p.entries.len() ==> v.zoxide.contains(#[trigger] p.entries[k])
                || probe.reports_dir(p.entries[k], true),
        None => true,
    }
}

proof fn lemma_kept_are_candidates(
    query: Seq<char>,
    cands: Seq<Seq<char>>,
    typed: Option<Seq<char>>,
    n: int,
)
    requires
        0 <= n <= cands.len(),
    ensures
        forall|k: int|
            0 <= k < kept(query, cands, typed, n).len() ==> cands.contains(
                #[trigger] kept(query, cands, typed, n)[k],
            ),
    decreases n,
{
    if n > 0 {
        lemma_kept_are_candidates(query, cands, typed, n - 1);
        let rest = kept(query, cands, typed, n - 1);
        assert forall|k: int|
            0 <= k < kept(query, cands, typed, n).len() implies cands.contains(
            #[trigger] kept(query, cands, typed, n)[k],
        ) by {
            if k < rest.len() {
                assert(kept(query, cands, typed, n)[k] == rest[k]);
            } else {
                assert(kept(query, cands, typed, n)[k] == cands[n - 1]);
            }
        }
    }
}

/// A picker's entries are the typed entry or candidates.
proof fn lemma_picker_entries_from(
    query: Seq<char>,
    cands: Seq<Seq<char>>,
    typed: Option<Seq<char>>,
    typed_first: bool,
)
    ensures
        forall|k: int|
            0 <= k < picker_entries(query, cands, typed, typed_first).len() ==> cands.contains(
                #[trigger] picker_entries(query, cands, typed, typed_first)[k],
            ) || typed == Some(picker_entries(query, cands, typed, typed_first)[k]),
{
    let m = kept(query, cands, typed, cands.len() as int);
    lemma_kept_are_candidates(query, cands, typed, cands.len() as int);
    let es = picker_entries(query, cands, typed, typed_first);
    assert forall|k: int| 0 <= k < es.len() implies cands.contains(#[trigger] es[k]) || typed
        == Some(es[k]) by {
        match typed {
            Some(t) => if typed_first {
                if k > 0 {
                    assert(es[k] == m[k - 1]);
                }
            } else {
                if k < m.len() {
                    assert(es[k] == m[k]);
                }
            },
            None => {
                assert(es[k] == m[k]);
            },
        }
    }
}

/// A typed directory the picker may offer: none, or the query expanded with
/// some home directory (and found to be a directory).
pub open spec fn typed_dir_ok(query: Seq<char>, typed: Option<Seq<char>>) -> bool {
    match typed {
        None => true,
        Some(t) => exists|h: Option<Seq<char>>| expand_spec(query, h) == Some(t),
    }
}

/// The typed branch the picker offers: the trimmed query when it would be a
/// new branch.
pub open spec fn typed_branch(query: Seq<char>, repo: RepoInfo) -> Option<Seq<char>> {
    if repo.status_of(trim(query)) is New {
        Some(trim(query))
    } else {
        None
    }
}

/// The form with the open picker's entries replaced and the first selected.
pub open spec fn with_entries(v: FormView, es: Seq<Seq<char>>) -> FormView {
    FormView { picker: Some(PickerView { entries: es, selected: 0, ..v.picker.unwrap() }), ..v }
}

/// The form with a new, empty picker of `kind` holding `query`.
pub open spec fn opened(v: FormView, kind: PickerKind, query: Seq<char>) -> FormView {
    FormView {
        picker: Some(PickerView { kind, query, entries: Seq::empty(), selected: 0 }),
        ..v
    }
}

/// The form with the open picker's query replaced.
pub open spec fn with_query(v: FormView, query: Seq<char>) -> FormView {
    FormView { picker: Some(PickerView { query, ..v.picker.unwrap() }), ..v }
}

/// The form with the open picker's selection moved.
pub open spec fn moved(v: FormView, selected: usize) -> FormView {
    FormView { picker: Some(PickerView { selected, ..v.picker.unwrap() }), ..v }
}

/// `post` is `pre` with the open picker's entries recomputed from its query.
pub open spec fn refiltered(pre: FormView, post: FormView) -> bool {
    match pre.picker {
        None => post == pre,
        Some(p) => match p.kind {
            PickerKind::Directory => exists|typed: Option<Seq<char>>|
                typed_dir_ok(p.query, typed) && post == with_entries(
                    pre,
                    picker_entries(p.query, pre.zoxide, typed, true),
                ),
            PickerKind::Branch => match pre.repo {
                None => post == pre,
                Some(repo) => post == with_entries(
                    pre,
                    picker_entries(p.query, repo.branch_names(), typed_branch(p.query, repo), false),
                ),
            },
        },
    }
}

proof fn lemma_kept_gap(
    query: Seq<char>,
    cands: Seq<Seq<char>>,
    typed: Option<Seq<char>>,
    a: int,
    b: int,
)
    requires
        0 <= a <= b <= cands.len(),
        forall|m: int| a <= m < b ==> !crate::filter::query_matches(query, #[trigger] cands[m]),
    ensures
        kept(query, cands, typed, b) == kept(query, cands, typed, a),
    decreases b - a,
{
    if a < b {
        lemma_kept_gap(query, cands, typed, a, b - 1);
    }
}

proof fn lemma_kept_all(query: Seq<char>, cands: Seq<Seq<char>>, n: int)
    requires
        0 <= n <= cands.len(),
        forall|m: int| 0 <= m < n ==> crate::filter::query_matches(query, #[trigger] cands[m]),
    ensures
        kept(query, cands, None, n) =~= cands.take(n),
    decreases n,
{
    if n > 0 {
        lemma_kept_all(query, cands, n - 1);
        assert(cands.take(n) =~= cands.take(n - 1).push(cands[n - 1]));
    }
}

/// Between consecutive listed indices (and before the first and after the
/// last) no candidate matches.
proof fn lemma_gap(r: Seq<usize>, query: Seq<char>, cands: Seq<&str>, j: int, m: int)
    requires
        crate::filter::lists_matches(r, query, cands),
        0 <= j <= r.len(),
        (if j == 0 {
            0
        } else {
            r[j - 1] + 1
        }) <= m,
        m < (if j < r.len() {
            r[j] as int
        } else {
            cands.len() as int
        }),
        0 <= m < cands.len(),
        cands.len() <= usize::MAX,
    ensures
        !crate::filter::query_matches(query, cands[m]@),
{
    if crate::filter::query_matches(query, cands[m]@) {
        assert(r.contains(m as usize));
        let w = choose|w: int| 0 <= w < r.len() && r[w] == m as usize;
        if w < j {
            if w < j - 1 {
                assert(r[w] < r[j - 1]);
            }
        } else if w > j {
            assert(r[j] < r[w]);
        }
    }
}

/// The strings of `v` as string slices.
fn as_strs(v: &Vec<String>) -> (r: Vec<&str>)
    ensures
        r@.len() == v@.len(),
        forall|i: int| 0 <= i < v@.len() ==> #[trigger] r@[i]@ == v@[i]@,
{
    let mut out: Vec<&str> = Vec::new();
    let mut i: usize = 0;
    while i < v.len()
        invariant
            i <= v@.len(),
            out@.len() == i,
            forall|k: int| 0 <= k < i ==> #[trigger] out@[k]@ == v@[k]@,
        decreases v.len() - i,
    {
        out.push(v[i].as_str());
        i = i + 1;
    }
    out
}

/// A copy of an optional string.
fn copy_opt(o: &Option<String>) -> (r: Option<String>)
    ensures
        r == *o,
{
    match o {
        Some(s) => Some(s.clone()),
        None => None,
    }
}

/// The entries a picker shows for `query` over `candidates`.
fn build_entries(
    query: &str,
    candidates: &Vec<String>,
    typed: Option<String>,
    typed_first: bool,
) -> (r: Vec<String>)
    ensures
        r.deep_view() == picker_entries(
            query@,
            candidates.deep_view(),
            typed.deep_view(),
            typed_first,
        ),
{
    let ghost cands = candidates.deep_view();
    let ghost t = typed.deep_view();
    let refs = as_strs(candidates);
    let idx = crate::filter::filter(query, refs.as_slice());
    assert(refs@.len() == refs.len());
    assert forall|m: int| 0 <= m < cands.len() implies (crate::filter::query_matches(
        query@,
        #[trigger] cands[m],
    ) <==> crate::filter::query_matches(query@, refs@[m]@)) by {
        assert(refs@[m]@ == candidates@[m]@);
    }
    let mut entries: Vec<String> = Vec::new();
    let mut j: usize = 0;
    while j < idx.len()
        invariant
            j <= idx@.len(),
            cands == candidates.deep_view(),
            t == typed.deep_view(),
            refs@.len() == candidates@.len(),
            refs@.len() <= usize::MAX,
            forall|m: int| 0 <= m < refs@.len() ==> #[trigger] refs@[m]@ == candidates@[m]@,
            crate::filter::lists_matches(idx@, query@, refs@),
            entries.deep_view() == kept(
                query@,
                cands,
                t,
                if j == 0 {
                    0
                } else {
                    idx@[j - 1] + 1
                },
            ),
        decreases idx.len() - j,
    {
        let i = idx[j];
        let ghost lo: int = if j == 0 {
            0
        } else {
            idx@[j - 1] + 1
        };
        proof {
            assert(crate::filter::query_matches(query@, refs@[i as int]@));
            if j > 0 {
                assert(idx@[j - 1] < idx@[j as int]);
            }
            assert forall|m: int| lo <= m < i implies !crate::filter::query_matches(
                query@,
                #[trigger] cands[m],
            ) by {
                lemma_gap(idx@, query@, refs@, j as int, m);
                assert(refs@[m]@ == candidates@[m]@);
            }
            lemma_kept_gap(query@, cands, t, lo, i as int);
            assert(cands[i as int] == candidates@[i as int]@);
        }
        let c = &candidates[i];
        let same = match &typed {
            Some(tt) => str_eq(tt.as_str(), c.as_str()),
            None => false,
        };
        if !same {
            entries.push(c.clone());
        }
        assert(entries.deep_view() =~= kept(query@, cands, t, i + 1));
        j = j + 1;
    }
    proof {
        let lo: int = if idx@.len() == 0 {
            0
        } else {
            idx@[idx@.len() - 1] + 1
        };
        assert forall|m: int| lo <= m < cands.len() implies !crate::filter::query_matches(
            query@,
            #[trigger] cands[m],
        ) by {
            lemma_gap(idx@, query@, refs@, idx@.len() as int, m);
            assert(refs@[m]@ == candidates@[m]@);
        }
        lemma_kept_gap(query@, cands, t, lo, cands.len() as int);
    }
    match typed {
        Some(tt) => {
            if typed_first {
                entries.insert(0, tt);
            } else {
                entries.push(tt);
            }
        },
        None => {},
    }
    assert(entries.deep_view() =~= picker_entries(query@, cands, t, typed_first));
    entries
}

// ---------------------------------------------------------------------------
// Harness selection
// ---------------------------------------------------------------------------

/// Harness `i` is available and, when `name` is given, has that name (ASCII
/// case ignored).
pub open spec fn pick_ok(hs: Seq<HarnessChoice>, name: Option<Seq<char>>, i: int) -> bool {
    hs[i].available && match name {
        Some(n) => crate::text::eq_ignore_case(hs[i].harness.name@, n),
        None => true,
    }
}

/// The first of the first `n` harnesses that `pick_ok` accepts.
pub open spec fn first_pick(hs: Seq<HarnessChoice>, name: Option<Seq<char>>, n: int) -> Option<
    int,
>
    decreases n,
{
    if n <= 0 {
        None
    } else {
        match first_pick(hs, name, n - 1) {
            Some(i) => Some(i),
            None => if pick_ok(hs, name, n - 1) {
                Some(n - 1)
            } else {
                None
            },
        }
    }
}

/// The first available harness.
pub open spec fn first_available(hs: Seq<HarnessChoice>) -> Option<int> {
    first_pick(hs, None, hs.len() as int)
}

/// Going through the first `k` preferred names in order, the first available
/// harness with one of them.
pub open spec fn preferred_pick(hs: Seq<HarnessChoice>, prefs: Seq<&str>, k: int) -> Option<int>
    decreases k,
{
    if k <= 0 {
        None
    } else {
        match preferred_pick(hs, prefs, k - 1) {
            Some(i) => Some(i),
            None => first_pick(hs, Some(prefs[k - 1]@), hs.len() as int),
        }
    }
}

/// The harness preselected when the form opens: the first preferred name
/// that is available, else the first available harness.
pub open spec fn initial_harness(hs: Seq<HarnessChoice>, prefs: Seq<&str>) -> Option<int> {
    match preferred_pick(hs, prefs, prefs.len() as int) {
        Some(i) => Some(i),
        None => first_available(hs),
    }
}

/// The first harness that is available and named `name`, if any.
fn find_harness(hs: &Vec<HarnessChoice>, name: Option<&str>) -> (r: Option<usize>)
    ensures
        match r {
            Some(i) => first_pick(
                hs@,
                match name {
                    Some(n) => Some(n@),
                    None => None,
                },
                hs@.len() as int,
            ) == Some(i as int),
            None => first_pick(
                hs@,
                match name {
                    Some(n) => Some(n@),
                    None => None,
                },
                hs@.len() as int,
            ) is None,
        },
{
    let ghost nm = match name {
        Some(n) => Some(n@),
        None => None::<Seq<char>>,
    };
    let mut i: usize = 0;
    while i < hs.len()
        invariant
            i <= hs@.len(),
            first_pick(hs@, nm, i as int) is None,
            nm == match name {
                Some(n) => Some(n@),
                None => None::<Seq<char>>,
            },
        decreases hs.len() - i,
    {
        let ok = hs[i].available && match name {
            Some(n) => crate::text::eq_ignore_ascii_case(hs[i].harness.name.as_str(), n),
            None => true,
        };
        if ok {
            assert(pick_ok(hs@, nm, i as int));
            assert(first_pick(hs@, nm, i + 1) == Some(i as int));
            proof {
                lemma_first_pick_stable(hs@, nm, i + 1, hs@.len() as int);
            }
            return Some(i);
        }
        i = i + 1;
    }
    None
}

proof fn lemma_first_pick_stable(hs: Seq<HarnessChoice>, name: Option<Seq<char>>, k: int, n: int)
    requires
        0 <= k <= n,
        first_pick(hs, name, k) is Some,
    ensures
        first_pick(hs, name, n) == first_pick(hs, name, k),
    decreases n - k,
{
    if k < n {
        lemma_first_pick_stable(hs, name, k, n - 1);
    }
}

/// Where stepping `step` places from `start` by `delta` lands among `len` harnesses.
pub open spec fn cycle_index(len: int, start: int, delta: int, step: int) -> int {
    (start + delta * step) % len
}

/// Stepping by `delta` from `start`, the first available harness reached
/// within steps `step..=len`.
pub open spec fn cycle_from(hs: Seq<HarnessChoice>, start: int, delta: int, step: int) -> Option<
    int,
>
    decreases hs.len() + 1 - step,
{
    if step < 1 || step > hs.len() {
        None
    } else if hs[cycle_index(hs.len() as int, start, delta, step)].available {
        Some(cycle_index(hs.len() as int, start, delta, step))
    } else {
        cycle_from(hs, start, delta, step + 1)
    }
}

/// The harness selection after cycling by `delta`: the next available one,
/// or unchanged when none is.
pub open spec fn after_cycle(v: FormView, delta: int) -> FormView {
    let start: int = match v.harness {
        Some(i) => i as int,
        None => -1,
    };
    match cycle_from(v.harnesses, start, delta, 1) {
        Some(i) => FormView { harness: Some(i as usize), ..v },
        None => v,
    }
}

proof fn lemma_wrap(x: int, len: int)
    requires
        len > 0,
        -2 * len <= x < 2 * len,
    ensures
        x < -len ==> x % len == x + 2 * len,
        -len <= x < 0 ==> x % len == x + len,
        0 <= x < len ==> x % len == x,
        len <= x ==> x % len == x - len,
{
    if x < -len {
        vstd::arithmetic::div_mod::lemma_mod_add_multiples_vanish(x, len);
        vstd::arithmetic::div_mod::lemma_mod_add_multiples_vanish(x + len, len);
        vstd::arithmetic::div_mod::lemma_small_mod((x + 2 * len) as nat, len as nat);
    } else if x < 0 {
        vstd::arithmetic::div_mod::lemma_mod_add_multiples_vanish(x, len);
        vstd::arithmetic::div_mod::lemma_small_mod((x + len) as nat, len as nat);
    } else if x < len {
        vstd::arithmetic::div_mod::lemma_small_mod(x as nat, len as nat);
    } else {
        vstd::arithmetic::div_mod::lemma_mod_sub_multiples_vanish(x, len);
        vstd::arithmetic::div_mod::lemma_small_mod((x - len) as nat, len as nat);
    }
}

// ---------------------------------------------------------------------------
// Key handling
// ---------------------------------------------------------------------------

/// `x - 1`, stopping at 0.
pub open spec fn dec(x: usize) -> usize {
    if x > 0 {
        (x - 1) as usize
    } else {
        0
    }
}

/// A picker's selection moved down one, stopping at the last entry.
pub open spec fn down(p: PickerView) -> usize {
    let last = dec(p.entries.len() as usize);
    if p.selected < last {
        (p.selected + 1) as usize
    } else {
        last
    }
}

/// A key while a picker is open.
pub open spec fn picker_step(pre: FormView, key: Key, post: FormView, out: OutcomeView) -> bool {
    let p = pre.picker.unwrap();
    if key.code == KeyCode::Esc {
        if pre.directory is None {
            post == pre && out == OutcomeView::Cancel
        } else {
            post == FormView { picker: None, ..pre } && out == OutcomeView::Continue
        }
    } else {
        &&& out == OutcomeView::Continue
        &&& match key.code {
            KeyCode::Enter => if p.selected < p.entries.len() {
                match p.kind {
                    PickerKind::Directory => post == after_select_directory(
                        pre,
                        p.entries[p.selected as int],
                        post.repo,
                    ),
                    PickerKind::Branch => post == after_select_branch(
                        pre,
                        p.entries[p.selected as int],
                    ),
                }
            } else {
                post == pre
            },
            KeyCode::Up => post == moved(pre, dec(p.selected)),
            KeyCode::BackTab => post == moved(pre, dec(p.selected)),
            KeyCode::Down => post == moved(pre, down(p)),
            KeyCode::Tab => post == moved(pre, down(p)),
            KeyCode::Char(c) => if key.ctrl {
                if c == 'p' {
                    post == moved(pre, dec(p.selected))
                } else if c == 'n' {
                    post == moved(pre, down(p))
                } else if c == 'u' {
                    refiltered(with_query(pre, Seq::empty()), post)
                } else {
                    post == pre
                }
            } else {
                refiltered(with_query(pre, p.query.push(c)), post)
            },
            KeyCode::Backspace => refiltered(
                with_query(
                    pre,
                    if p.query.len() > 0 {
                        p.query.drop_last()
                    } else {
                        p.query
                    },
                ),
                post,
            ),
            _ => post == pre,
        }
    }
}

/// A key on the Directory field.
pub open spec fn directory_step(pre: FormView, key: Key, post: FormView) -> bool {
    match key.code {
        KeyCode::Enter => refiltered(opened(pre, PickerKind::Directory, Seq::empty()), post),
        KeyCode::Char(c) => if !key.ctrl {
            refiltered(opened(pre, PickerKind::Directory, seq![c]), post)
        } else {
            post == pre
        },
        _ => post == pre,
    }
}

/// A key on the Harness field.
pub open spec fn harness_step(pre: FormView, key: Key) -> FormView {
    match key.code {
        KeyCode::Left => after_cycle(pre, -1),
        KeyCode::Right => after_cycle(pre, 1),
        KeyCode::Char(c) => if c == 'h' {
            after_cycle(pre, -1)
        } else if c == 'l' || c == ' ' {
            after_cycle(pre, 1)
        } else {
            pre
        },
        KeyCode::Enter => FormView { field: Field::Branch, ..pre },
        _ => pre,
    }
}

/// A key on the Branch field.
pub open spec fn branch_step(pre: FormView, key: Key, post: FormView) -> bool {
    if pre.repo is None {
        if key.code == KeyCode::Enter {
            post == FormView { field: Field::Title, ..pre }
        } else {
            post == pre
        }
    } else {
        match key.code {
            KeyCode::Left => post == after_toggle(pre),
            KeyCode::Right => post == after_toggle(pre),
            KeyCode::Enter => refiltered(opened(pre, PickerKind::Branch, Seq::empty()), post),
            KeyCode::Char(c) => if c == 'w' && pre.mode == LaunchMode::InPlace {
                post == after_toggle(pre)
            } else if !key.ctrl {
                refiltered(opened(pre, PickerKind::Branch, seq![c]), post)
            } else {
                post == pre
            },
            _ => post == pre,
        }
    }
}

/// A key on the Title field.
pub open spec fn title_step(pre: FormView, key: Key, post: FormView, out: OutcomeView) -> bool {
    if key.code == KeyCode::Enter {
        submit_step(pre, post, out)
    } else {
        &&& out == OutcomeView::Continue
        &&& match key.code {
            KeyCode::Char(c) => if key.ctrl {
                if c == 'u' {
                    post == FormView { title: Seq::empty(), title_edited: true, ..pre }
                } else {
                    post == pre
                }
            } else {
                post == FormView { title: pre.title.push(c), title_edited: true, ..pre }
            },
            KeyCode::Backspace => post == FormView {
                title: if pre.title.len() > 0 {
                    pre.title.drop_last()
                } else {
                    pre.title
                },
                title_edited: true,
                ..pre
            },
            _ => post == pre,
        }
    }
}

/// What one key press does to the form and what it asks of the caller.
pub open spec fn key_step(pre: FormView, key: Key, post: FormView, out: OutcomeView) -> bool {
    if key.ctrl && key.code == KeyCode::Char('c') {
        post == pre && out == OutcomeView::Cancel
    } else if key.ctrl && key.code == KeyCode::Char('s') {
        submit_step(pre, post, out)
    } else if pre.picker is Some {
        picker_step(pre, key, post, out)
    } else if key.code == KeyCode::Esc {
        post == pre && out == OutcomeView::Cancel
    } else if key.code == KeyCode::Tab || key.code == KeyCode::Down {
        post == FormView { field: field_at(field_index(pre.field) + 1), ..pre } && out
            == OutcomeView::Continue
    } else if key.code == KeyCode::BackTab || key.code == KeyCode::Up {
        post == FormView { field: field_at(field_index(pre.field) - 1), ..pre } && out
            == OutcomeView::Continue
    } else {
        match pre.field {
            Field::Directory => directory_step(pre, key, post) && out == OutcomeView::Continue,
            Field::Harness => post == harness_step(pre, key) && out == OutcomeView::Continue,
            Field::Branch => branch_step(pre, key, post) && out == OutcomeView::Continue,
            Field::Title => title_step(pre, key, post, out),
        }
    }
}

/// The state the key handling relies on: the selected harness index lies
/// within the harness list.
pub open spec fn wf(v: FormView) -> bool {
    &&& v.harnesses.len() <= usize::MAX
    &&& v.harness matches Some(i) ==> i < v.harnesses.len()
}

/// The picker's selection is one of its entries (or the first place of an
/// empty list).
pub open spec fn selection_in_range(v: FormView) -> bool {
    v.picker matches Some(p) ==> (p.selected == 0 || p.selected < p.entries.len())
}

/// The form as it opens: the directory picker over every zoxide entry and the
/// preselected harness.
pub open spec fn initial_form(
    zoxide: Seq<Seq<char>>,
    harnesses: Seq<HarnessChoice>,
    preferred: Seq<&str>,
) -> FormView {
    FormView {
        picker: Some(
            PickerView {
                kind: PickerKind::Directory,
                query: Seq::empty(),
                entries: zoxide,
                selected: 0,
            },
        ),
        field: Field::Directory,
        directory: None,
        repo: None,
        harnesses,
        harness: match initial_harness(harnesses, preferred) {
            Some(i) => Some(i as usize),
            None => None,
        },
        mode: LaunchMode::InPlace,
        branch: Seq::empty(),
        title: Seq::empty(),
        title_edited: false,
        error: None,
        zoxide,
    }
}

proof fn lemma_expand_empty(h: Option<Seq<char>>)
    ensures
        expand_spec(Seq::empty(), h) is None,
{
    let e = Seq::<char>::empty();
    assert(crate::text::trim_start(e) == e);
    assert(crate::text::trim_end_by(e, |c: char| crate::text::is_space(c)) == e);
    assert(trim(e) == e);
    assert(e != seq!['~']) by {
        assert(seq!['~'].len() == 1);
    }
}

proof fn lemma_words_empty()
    ensures
        crate::text::words(Seq::empty()).len() == 0,
{
    let e = Seq::<char>::empty();
    assert(crate::text::scan_words(e, 0).1.len() == 0);
}

/// The message for a name that is not a valid branch name.
fn invalid_branch(branch: &str) -> (r: String)
    ensures
        r@ == invalid_branch_message(branch@),
{
    let mut m = String::from_str("'");
    m.append(branch);
    m.append("' is not a valid branch name");
    m
}

impl<P: Probe> App<P> {
    /// The state's view is built from its fields.
    pub closed spec fn probe_spec(&self) -> P {
        self.probe
    }

    fn current_branch_label(&self) -> (r: String)
        ensures
            r@ == branch_label(self@.repo),
    {
        match &self.repo {
            Some(repo) => match &repo.current_branch {
                Some(b) => b.clone(),
                None => String::from_str("(detached)"),
            },
            None => String::new(),
        }
    }

    /// In Place with a branch other than the one already checked out.
    pub fn switches_branch(&self) -> (r: bool)
        ensures
            r == switches(self@),
    {
        let label = self.current_branch_label();
        self.mode == LaunchMode::InPlace && self.repo.is_some() && !str_eq(
            self.branch.as_str(),
            label.as_str(),
        )
    }

    pub fn default_title(&self) -> (r: String)
        ensures
            r@ == default_title(self@),
    {
        let dir = match &self.directory {
            Some(d) => d,
            None => {
                return String::new();
            },
        };
        let base = match file_name_exec(dir.as_str()) {
            Some(n) => n,
            None => dir.clone(),
        };
        let show_branch = match self.mode {
            LaunchMode::Worktree => !self.branch.as_str().is_empty(),
            LaunchMode::InPlace => self.switches_branch(),
        };
        if show_branch {
            let mut t = base;
            push_char(&mut t, ':');
            t.append(self.branch.as_str());
            t
        } else {
            base
        }
    }

    /// The Title follows the Target Directory (and a chosen branch) until edited.
    fn follow_title(&mut self)
        ensures
            final(self)@ == follow(old(self)@),
            final(self).probe_spec() == old(self).probe_spec(),
    {
        if !self.title_edited {
            self.title = self.default_title();
        }
        assert(self@ =~~= follow(old(self)@));
    }

    fn set_branch(&mut self, branch: String)
        ensures
            final(self)@ == follow(FormView { branch: branch@, ..old(self)@ }),
            final(self).probe_spec() == old(self).probe_spec(),
    {
        self.branch = branch;
        self.follow_title();
    }

    fn select_branch(&mut self, branch: String)
        ensures
            final(self)@ == after_select_branch(old(self)@, branch@),
            final(self).probe_spec() == old(self).probe_spec(),
    {
        self.picker = None;
        self.error = None;
        self.field = Field::Title;
        self.set_branch(branch);
    }

    fn toggle_mode(&mut self)
        ensures
            final(self)@ == after_toggle(old(self)@),
            final(self).probe_spec() == old(self).probe_spec(),
    {
        self.mode = match self.mode {
            LaunchMode::InPlace => LaunchMode::Worktree,
            LaunchMode::Worktree => LaunchMode::InPlace,
        };
        self.branch = match self.mode {
            LaunchMode::InPlace => self.current_branch_label(),
            LaunchMode::Worktree => String::new(),
        };
        self.follow_title();
    }

    pub fn build_request(&self) -> (r: Result<Request, (String, Field)>)
        requires
            self@.harness matches Some(i) ==> i < self@.harnesses.len(),
        ensures
            match r {
                Ok(req) => build(self@) == Ok::<RequestView, (Seq<char>, Field)>(req@),
                Err((m, f)) => build(self@) == Err::<RequestView, (Seq<char>, Field)>((m@, f)),
            },
    {
        let directory = match &self.directory {
            Some(d) => d.clone(),
            None => {
                return Err((String::from_str("Pick a directory first"), Field::Directory));
            },
        };
        let harness = match self.harness {
            Some(i) => if self.harnesses[i].available {
                self.harnesses[i].harness.copy()
            } else {
                return Err((String::from_str("No available harness selected"), Field::Harness));
            },
            None => {
                return Err((String::from_str("No available harness selected"), Field::Harness));
            },
        };
        let launch = match &self.repo {
            Some(repo) => if self.mode == LaunchMode::Worktree {
                let branch = self.branch.clone();
                let repo_root = repo.root.clone();
                match repo.branch_status(branch.as_str()) {
                    BranchStatus::Empty => {
                        return Err(
                            (String::from_str("Enter a branch for the worktree"), Field::Branch),
                        );
                    },
                    BranchStatus::Invalid => {
                        return Err((invalid_branch(branch.as_str()), Field::Branch));
                    },
                    BranchStatus::New => Launch::CreateWorktree {
                        repo_root,
                        branch,
                        base: copy_opt(&repo.base),
                    },
                    BranchStatus::Existing => Launch::CreateWorktree {
                        repo_root,
                        branch,
                        base: None,
                    },
                    BranchStatus::CheckedOut(_) => Launch::OpenWorktree { repo_root, branch },
                }
            } else if self.switches_branch() {
                let branch = self.branch.clone();
                let (create, base) = match repo.branch_status(branch.as_str()) {
                    BranchStatus::Empty => {
                        return Err((String::from_str("Pick a branch"), Field::Branch));
                    },
                    BranchStatus::Invalid => {
                        return Err((invalid_branch(branch.as_str()), Field::Branch));
                    },
                    BranchStatus::CheckedOut(path) => {
                        let mut m = String::from_str("'");
                        m.append(branch.as_str());
                        m.append("' is checked out at ");
                        m.append(path.as_str());
                        m.append(", use Worktree mode");
                        return Err((m, Field::Branch));
                    },
                    BranchStatus::New => (true, copy_opt(&repo.base)),
                    BranchStatus::Existing => (false, None),
                };
                Launch::InPlace {
                    switch: Some(BranchSwitch { repo_root: repo.root.clone(), branch, create, base }),
                }
            } else {
                Launch::InPlace { switch: None }
            },
            None => Launch::InPlace { switch: None },
        };
        let trimmed = crate::text::trim_str(self.title.as_str());
        let title = if trimmed.as_str().is_empty() {
            self.default_title()
        } else {
            trimmed
        };
        Ok(Request { directory, harness, title, launch })
    }

    pub fn submit(&mut self) -> (r: Outcome)
        requires
            old(self)@.harness matches Some(i) ==> i < old(self)@.harnesses.len(),
        ensures
            submit_step(old(self)@, final(self)@, r@),
            final(self).probe_spec() == old(self).probe_spec(),
    {
        match self.build_request() {
            Ok(request) => Outcome::Submit(request),
            Err((message, field)) => {
                self.error = Some(message);
                self.field = field;
                assert(self@ =~~= FormView { error: Some(message@), field, ..old(self)@ });
                Outcome::Continue
            },
        }
    }

    /// Recomputes the open picker's entries from its query.
    pub fn refilter(&mut self)
        ensures
            refiltered(old(self)@, final(self)@),
            final(self).probe_spec() == old(self).probe_spec(),
            dir_entries_reported(final(self).probe_spec(), final(self)@),
    {
        let mut picker = match self.picker.take() {
            Some(p) => p,
            None => {
                return;
            },
        };
        let ghost pre = old(self)@;
        let ghost p0 = picker@;
        match picker.kind {
            PickerKind::Directory => {
                let home = self.probe.home();
                let ghost h = home.deep_view();
                let typed = match expand_typed_path(picker.query.as_str(), home) {
                    Some(path) => if self.probe.is_dir(path.as_str()) {
                        Some(path)
                    } else {
                        None
                    },
                    None => None,
                };
                assert(typed matches Some(x) ==> self.probe_spec().reports_dir(x@, true));
                let ghost t = typed.deep_view();
                proof {
                    if let Some(x) = t {
                        assert(expand_spec(p0.query, h) == Some(x));
                    }
                    assert(typed_dir_ok(p0.query, t));
                    lemma_picker_entries_from(p0.query, pre.zoxide, t, true);
                }
                let entries = build_entries(picker.query.as_str(), &self.zoxide, typed, true);
                picker.entries = entries;
                picker.selected = 0;
                self.picker = Some(picker);
                assert(self@ =~~= with_entries(pre, picker_entries(p0.query, pre.zoxide, t, true)));
                assert(typed_dir_ok(p0.query, t) && self@ == with_entries(
                    pre,
                    picker_entries(p0.query, pre.zoxide, t, true),
                ));
            },
            PickerKind::Branch => {
                let entries = match &self.repo {
                    None => {
                        self.picker = Some(picker);
                        assert(self@ =~~= pre);
                        return;
                    },
                    Some(repo) => {
                        let query = crate::text::trim_str(picker.query.as_str());
                        let typed = match repo.branch_status(query.as_str()) {
                            BranchStatus::New => Some(query),
                            _ => None,
                        };
                        assert(typed.deep_view() == typed_branch(p0.query, *repo));
                        build_entries(picker.query.as_str(), &repo.branches, typed, false)
                    },
                };
                picker.entries = entries;
                picker.selected = 0;
                self.picker = Some(picker);
                assert(self@ =~~= with_entries(
                    pre,
                    picker_entries(
                        p0.query,
                        pre.repo.unwrap().branch_names(),
                        typed_branch(p0.query, pre.repo.unwrap()),
                        false,
                    ),
                ));
            },
        }
    }

    fn open_picker(&mut self, kind: PickerKind, query: String)
        ensures
            refiltered(opened(old(self)@, kind, query@), final(self)@),
            final(self).probe_spec() == old(self).probe_spec(),
            dir_entries_reported(final(self).probe_spec(), final(self)@),
    {
        self.picker = Some(Picker { kind, query, entries: Vec::new(), selected: 0 });
        assert(self@ =~~= opened(old(self)@, kind, query@));
        self.refilter();
    }

    fn select_directory(&mut self, dir: String)
        ensures
            final(self)@ == after_select_directory(old(self)@, dir@, final(self)@.repo),
            final(self).probe_spec() == old(self).probe_spec(),
    {
        self.repo = self.probe.inspect(dir.as_str());
        self.directory = Some(dir);
        self.picker = None;
        self.error = None;
        self.mode = LaunchMode::InPlace;
        self.branch = self.current_branch_label();
        self.field = Field::Harness;
        let ghost mid = self@;
        assert(mid =~~= FormView {
            repo: self.repo,
            directory: Some(dir@),
            picker: None,
            error: None,
            mode: LaunchMode::InPlace,
            branch: branch_label(self.repo),
            field: Field::Harness,
            ..old(self)@
        });
        self.follow_title();
    }

    fn cycle_harness(&mut self, delta: isize)
        requires
            delta == 1 || delta == -1,
            old(self)@.harness matches Some(i) ==> i < old(self)@.harnesses.len(),
        ensures
            final(self)@ == after_cycle(old(self)@, delta as int),
            final(self).probe_spec() == old(self).probe_spec(),
    {
        let len = self.harnesses.len();
        let ghost hs = self@.harnesses;
        let ghost start: int = match self.harness {
            Some(i) => i as int,
            None => -1,
        };
        let s1: usize = match self.harness {
            Some(i) => i + 1,
            None => 0,
        };
        assert(s1 == start + 1);
        let mut k: usize = 0;
        while k < len
            invariant
                len == hs.len(),
                hs == self@.harnesses,
                self@ == old(self)@,
                self.probe_spec() == old(self).probe_spec(),
                s1 == start + 1,
                start == match old(self)@.harness {
                    Some(i) => i as int,
                    None => -1,
                },
                0 <= s1 <= len,
                delta == 1 || delta == -1,
                k <= len,
                cycle_from(hs, start, delta as int, 1) == cycle_from(
                    hs,
                    start,
                    delta as int,
                    k + 1,
                ),
            decreases len - k,
        {
            let idx: usize = if delta > 0 {
                if k >= len - s1 {
                    k - (len - s1)
                } else {
                    s1 + k
                }
            } else {
                if s1 >= 2 && s1 - 2 >= k {
                    s1 - 2 - k
                } else if s1 <= k {
                    let e = k - s1 + 1;
                    if e < len {
                        len - e - 1
                    } else {
                        len - 1
                    }
                } else {
                    len - 1
                }
            };
            proof {
                let x = start + (delta as int) * (k + 1);
                assert(x == start + k + 1 || x == start - k - 1) by (nonlinear_arith)
                    requires
                        delta == 1 || delta == -1,
                        x == start + (delta as int) * (k + 1),
                ;
                if delta > 0 {
                    assert(x == start + k + 1) by (nonlinear_arith)
                        requires
                            delta == 1,
                            x == start + (delta as int) * (k + 1),
                    ;
                } else {
                    assert(x == start - k - 1) by (nonlinear_arith)
                        requires
                            delta == -1,
                            x == start + (delta as int) * (k + 1),
                    ;
                }
                lemma_wrap(x, len as int);
                assert(idx as int == cycle_index(len as int, start, delta as int, k + 1));
            }
            if self.harnesses[idx].available {
                assert(cycle_from(hs, start, delta as int, k + 1) == Some(idx as int));
                self.harness = Some(idx);
                assert(self@ =~~= after_cycle(old(self)@, delta as int));
                return;
            }
            k = k + 1;
        }
        assert(cycle_from(hs, start, delta as int, len + 1) is None);
    }

    /// Re-check which harnesses are installed, keeping the selection on an
    /// available one.
    pub fn refresh_availability(&mut self, is_available: impl Fn(&Harness) -> bool)
        requires
            forall|h: &Harness| is_available.requires((h,)),
            old(self)@.harness matches Some(i) ==> i < old(self)@.harnesses.len(),
        ensures
            final(self)@.harnesses.len() == old(self)@.harnesses.len(),
            forall|i: int|
                0 <= i < old(self)@.harnesses.len() ==> (#[trigger] final(self)@.harnesses[i]).harness
                    == old(self)@.harnesses[i].harness && is_available.ensures(
                    (&old(self)@.harnesses[i].harness,),
                    final(self)@.harnesses[i].available,
                ),
            final(self)@.harness == match old(self)@.harness {
                Some(i) => if final(self)@.harnesses[i as int].available {
                    Some(i)
                } else {
                    match first_available(final(self)@.harnesses) {
                        Some(j) => Some(j as usize),
                        None => None,
                    }
                },
                None => match first_available(final(self)@.harnesses) {
                    Some(j) => Some(j as usize),
                    None => None,
                },
            },
            final(self)@ == (FormView {
                harnesses: final(self)@.harnesses,
                harness: final(self)@.harness,
                ..old(self)@
            }),
    {
        let mut i: usize = 0;
        while i < self.harnesses.len()
            invariant
                i <= self.harnesses@.len(),
                self.harnesses@.len() == old(self)@.harnesses.len(),
                forall|h: &Harness| is_available.requires((h,)),
                forall|k: int|
                    0 <= k < self.harnesses@.len() ==> (#[trigger] self.harnesses@[k]).harness
                        == old(self)@.harnesses[k].harness,
                forall|k: int|
                    0 <= k < i ==> is_available.ensures(
                        (&old(self)@.harnesses[k].harness,),
                        #[trigger] self.harnesses@[k].available,
                    ),
                self@ == (FormView { harnesses: self@.harnesses, ..old(self)@ }),
                self.probe_spec() == old(self).probe_spec(),
            decreases self.harnesses.len() - i,
        {
            let a = is_available(&self.harnesses[i].harness);
            let h = self.harnesses[i].harness.copy();
            self.harnesses.set(i, HarnessChoice { harness: h, available: a });
            assert(self@ =~~= FormView { harnesses: self@.harnesses, ..old(self)@ });
            i = i + 1;
        }
        let keep = match self.harness {
            Some(i) => self.harnesses[i].available,
            None => false,
        };
        if !keep {
            self.harness = find_harness(&self.harnesses, None);
        }
        assert(self@ =~~= FormView {
            harnesses: self@.harnesses,
            harness: self@.harness,
            ..old(self)@
        });
    }

    /// A new form: `preferred` are harness names to preselect, in order of
    /// preference.
    pub fn new(
        probe: P,
        zoxide: Vec<String>,
        harnesses: Vec<HarnessChoice>,
        preferred: &[&str],
    ) -> (app: Self)
        ensures
            app@ == initial_form(zoxide.deep_view(), harnesses@, preferred@),
            app.probe_spec() == probe,
            dir_entries_reported(app.probe_spec(), app@),
    {
        let mut app = App {
            probe,
            zoxide,
            picker: None,
            field: Field::Directory,
            directory: None,
            repo: None,
            harnesses,
            harness: None,
            mode: LaunchMode::InPlace,
            branch: String::new(),
            title: String::new(),
            title_edited: false,
            error: None,
        };
        let ghost hs = app.harnesses@;
        let mut chosen: Option<usize> = None;
        let mut k: usize = 0;
        while k < preferred.len()
            invariant
                k <= preferred@.len(),
                hs == app.harnesses@,
                match chosen {
                    Some(i) => preferred_pick(hs, preferred@, k as int) == Some(i as int),
                    None => preferred_pick(hs, preferred@, k as int) is None,
                },
            decreases preferred.len() - k,
        {
            if chosen.is_none() {
                chosen = find_harness(&app.harnesses, Some(preferred[k]));
            }
            k = k + 1;
        }
        if chosen.is_none() {
            chosen = find_harness(&app.harnesses, None);
        }
        app.harness = chosen;
        let ghost before = app@;
        app.open_picker(PickerKind::Directory, String::new());
        proof {
            let z = zoxide.deep_view();
            let pre = opened(before, PickerKind::Directory, Seq::empty());
            let typed = choose|typed: Option<Seq<char>>|
                typed_dir_ok(Seq::empty(), typed) && app@ == with_entries(
                    pre,
                    picker_entries(Seq::empty(), pre.zoxide, typed, true),
                );
            if let Some(x) = typed {
                let h = choose|h: Option<Seq<char>>| expand_spec(Seq::empty(), h) == Some(x);
                lemma_expand_empty(h);
            }
            lemma_words_empty();
            lemma_kept_all(Seq::empty(), z, z.len() as int);
            assert(z.take(z.len() as int) =~= z);
            assert(app@ =~~= initial_form(z, hs, preferred@));
        }
        app
    }

    /// `path` with the home directory shown as `~`.
    pub fn display_path(&self, path: &str) -> (r: String)
        ensures
            exists|h: Option<Seq<char>>| r@ == display_spec(h, path@),
    {
        let home = self.probe.home();
        let r = match &home {
            Some(h) => display_path_in(Some(h.as_str()), path),
            None => display_path_in(None, path),
        };
        assert(r@ == display_spec(home.deep_view(), path@));
        r
    }

    /// The chosen directory as shown, home as `~`.
    pub fn directory_label(&self) -> (r: Option<String>)
        ensures
            match self@.directory {
                None => r is None,
                Some(d) => r matches Some(x) && exists|h: Option<Seq<char>>| x@ == display_spec(
                    h,
                    d,
                ),
            },
    {
        match &self.directory {
            Some(d) => {
                let x = self.display_path(d.as_str());
                let ghost h = choose|h: Option<Seq<char>>| x@ == display_spec(h, d@);
                assert(x@ == display_spec(h, self@.directory.unwrap()));
                Some(x)
            },
            None => None,
        }
    }

    pub fn handle_picker_key(&mut self, key: Key, ctrl: bool) -> (r: Outcome)
        requires
            ctrl == key.ctrl,
            old(self)@.picker is Some,
            wf(old(self)@),
        ensures
            picker_step(old(self)@, key, final(self)@, r@),
            final(self).probe_spec() == old(self).probe_spec(),
            dir_entries_reported(old(self).probe_spec(), old(self)@) ==> dir_entries_reported(
                final(self).probe_spec(),
                final(self)@,
            ),
    {
        let ghost pre = self@;
        let mut picker = self.picker.take().unwrap();
        let ghost p = picker@;
        match key.code {
            KeyCode::Esc => {
                // Closing the picker before any directory is chosen leaves nothing to edit.
                if self.directory.is_none() {
                    self.picker = Some(picker);
                    assert(self@ =~~= pre);
                    return Outcome::Cancel;
                }
                assert(self@ =~~= FormView { picker: None, ..pre });
                return Outcome::Continue;
            },
            KeyCode::Enter => {
                if picker.selected < picker.entries.len() {
                    let entry = picker.entries[picker.selected].clone();
                    assert(entry@ == p.entries[p.selected as int]);
                    match picker.kind {
                        PickerKind::Directory => self.select_directory(entry),
                        PickerKind::Branch => self.select_branch(entry),
                    }
                } else {
                    self.picker = Some(picker);
                    assert(self@ =~~= pre);
                }
            },
            KeyCode::Up | KeyCode::BackTab => {
                picker.selected = if picker.selected > 0 {
                    picker.selected - 1
                } else {
                    0
                };
                self.picker = Some(picker);
                assert(self@ =~~= moved(pre, dec(p.selected)));
            },
            KeyCode::Char('p') if ctrl => {
                picker.selected = if picker.selected > 0 {
                    picker.selected - 1
                } else {
                    0
                };
                self.picker = Some(picker);
                assert(self@ =~~= moved(pre, dec(p.selected)));
            },
            KeyCode::Down | KeyCode::Tab => {
                let last = if picker.entries.len() > 0 {
                    picker.entries.len() - 1
                } else {
                    0
                };
                picker.selected = if picker.selected < last {
                    picker.selected + 1
                } else {
                    last
                };
                self.picker = Some(picker);
                assert(self@ =~~= moved(pre, down(p)));
            },
            KeyCode::Char('n') if ctrl => {
                let last = if picker.entries.len() > 0 {
                    picker.entries.len() - 1
                } else {
                    0
                };
                picker.selected = if picker.selected < last {
                    picker.selected + 1
                } else {
                    last
                };
                self.picker = Some(picker);
                assert(self@ =~~= moved(pre, down(p)));
            },
            KeyCode::Char('u') if ctrl => {
                picker.query = String::new();
                self.picker = Some(picker);
                assert(self@ =~~= with_query(pre, Seq::empty()));
                self.refilter();
            },
            KeyCode::Backspace => {
                let _ = crate::text::pop_char(&mut picker.query);
                self.picker = Some(picker);
                assert(self@ =~~= with_query(
                    pre,
                    if p.query.len() > 0 {
                        p.query.drop_last()
                    } else {
                        p.query
                    },
                ));
                self.refilter();
            },
            KeyCode::Char(c) if !ctrl => {
                push_char(&mut picker.query, c);
                self.picker = Some(picker);
                assert(self@ =~~= with_query(pre, p.query.push(c)));
                self.refilter();
            },
            _ => {
                self.picker = Some(picker);
                assert(self@ =~~= pre);
            },
        }
        Outcome::Continue
    }

    fn handle_directory_key(&mut self, key: Key)
        ensures
            directory_step(old(self)@, key, final(self)@),
            final(self).probe_spec() == old(self).probe_spec(),
            dir_entries_reported(old(self).probe_spec(), old(self)@) ==> dir_entries_reported(
                final(self).probe_spec(),
                final(self)@,
            ),
    {
        match key.code {
            KeyCode::Enter => self.open_picker(PickerKind::Directory, String::new()),
            KeyCode::Char(c) => {
                if !key.ctrl {
                    let mut q = String::new();
                    push_char(&mut q, c);
                    assert(q@ =~= seq![c]);
                    self.open_picker(PickerKind::Directory, q)
                }
            },
            _ => {},
        }
    }

    fn handle_harness_key(&mut self, key: Key)
        requires
            old(self)@.harness matches Some(i) ==> i < old(self)@.harnesses.len(),
        ensures
            final(self)@ == harness_step(old(self)@, key),
            final(self).probe_spec() == old(self).probe_spec(),
    {
        match key.code {
            KeyCode::Left | KeyCode::Char('h') => self.cycle_harness(-1),
            KeyCode::Right | KeyCode::Char('l') | KeyCode::Char(' ') => self.cycle_harness(1),
            KeyCode::Enter => {
                self.field = Field::Branch;
                assert(self@ =~~= FormView { field: Field::Branch, ..old(self)@ });
            },
            _ => {},
        }
    }

    fn handle_branch_key(&mut self, key: Key, ctrl: bool)
        requires
            ctrl == key.ctrl,
        ensures
            branch_step(old(self)@, key, final(self)@),
            final(self).probe_spec() == old(self).probe_spec(),
            dir_entries_reported(old(self).probe_spec(), old(self)@) ==> dir_entries_reported(
                final(self).probe_spec(),
                final(self)@,
            ),
    {
        if self.repo.is_none() {
            if key.code == KeyCode::Enter {
                self.field = Field::Title;
                assert(self@ =~~= FormView { field: Field::Title, ..old(self)@ });
            }
            return;
        }
        match key.code {
            KeyCode::Left | KeyCode::Right => self.toggle_mode(),
            KeyCode::Enter => self.open_picker(PickerKind::Branch, String::new()),
            KeyCode::Char(c) => {
                if c == 'w' && self.mode == LaunchMode::InPlace {
                    self.toggle_mode()
                } else if !ctrl {
                    let mut q = String::new();
                    push_char(&mut q, c);
                    assert(q@ =~= seq![c]);
                    self.open_picker(PickerKind::Branch, q)
                }
            },
            _ => {},
        }
    }

    fn handle_title_key(&mut self, key: Key, ctrl: bool) -> (r: Outcome)
        requires
            ctrl == key.ctrl,
            old(self)@.harness matches Some(i) ==> i < old(self)@.harnesses.len(),
        ensures
            title_step(old(self)@, key, final(self)@, r@),
            final(self).probe_spec() == old(self).probe_spec(),
    {
        match key.code {
            KeyCode::Enter => {
                return self.submit();
            },
            KeyCode::Char(c) => {
                if ctrl {
                    if c == 'u' {
                        self.title = String::new();
                        self.title_edited = true;
                        assert(self@ =~~= FormView {
                            title: Seq::empty(),
                            title_edited: true,
                            ..old(self)@
                        });
                    }
                } else {
                    push_char(&mut self.title, c);
                    self.title_edited = true;
                    assert(self@ =~~= FormView {
                        title: old(self)@.title.push(c),
                        title_edited: true,
                        ..old(self)@
                    });
                }
            },
            KeyCode::Backspace => {
                let _ = crate::text::pop_char(&mut self.title);
                self.title_edited = true;
                assert(self@ =~~= FormView {
                    title: if old(self)@.title.len() > 0 {
                        old(self)@.title.drop_last()
                    } else {
                        old(self)@.title
                    },
                    title_edited: true,
                    ..old(self)@
                });
            },
            _ => {},
        }
        Outcome::Continue
    }

    /// Applies one key press to the form and says whether to keep going,
    /// cancel, or launch the request.
    pub fn handle_key(&mut self, key: Key) -> (r: Outcome)
        requires
            wf(old(self)@),
        ensures
            key_step(old(self)@, key, final(self)@, r@),
            final(self).probe_spec() == old(self).probe_spec(),
            dir_entries_reported(old(self).probe_spec(), old(self)@) ==> dir_entries_reported(
                final(self).probe_spec(),
                final(self)@,
            ),
    {
        let ctrl = key.ctrl;
        if ctrl && key.code == KeyCode::Char('c') {
            return Outcome::Cancel;
        }
        if ctrl && key.code == KeyCode::Char('s') {
            return self.submit();
        }
        if self.picker.is_some() {
            return self.handle_picker_key(key, ctrl);
        }
        match key.code {
            KeyCode::Esc => {
                return Outcome::Cancel;
            },
            KeyCode::Tab | KeyCode::Down => {
                self.field = self.field.step(1);
                assert(self@ =~~= FormView {
                    field: field_at(field_index(old(self)@.field) + 1),
                    ..old(self)@
                });
            },
            KeyCode::BackTab | KeyCode::Up => {
                self.field = self.field.step(-1);
                assert(self@ =~~= FormView {
                    field: field_at(field_index(old(self)@.field) - 1),
                    ..old(self)@
                });
            },
            _ => match self.field {
                Field::Directory => self.handle_directory_key(key),
                Field::Harness => self.handle_harness_key(key),
                Field::Branch => self.handle_branch_key(key, ctrl),
                Field::Title => {
                    return self.handle_title_key(key, ctrl);
                },
            },
        }
        Outcome::Continue
    }

    /// An In Place `git switch` failed: nothing was launched, so show git's
    /// error on the Branch field for the user to fix or cancel.
    pub fn branch_switch_failed(&mut self, message: String)
        ensures
            final(self)@ == (FormView { error: Some(message@), field: Field::Branch, ..old(self)@ }),
    {
        self.error = Some(message);
        self.field = Field::Branch;
        assert(self@ =~~= FormView { error: Some(message@), field: Field::Branch, ..old(self)@ });
    }

    /// After the In Place branch switch ran: launch when it went through;
    /// else nothing is launched, and git's message shows on the Branch field.
    pub fn after_switch(&mut self, result: Result<(), String>) -> (launch: bool)
        ensures
            launch == result is Ok,
            result is Ok ==> final(self)@ == old(self)@,
            result matches Err(m) ==> final(self)@ == (FormView {
                error: Some(m@),
                field: Field::Branch,
                ..old(self)@
            }),
    {
        match result {
            Ok(()) => true,
            Err(m) => {
                self.branch_switch_failed(m);
                false
            },
        }
    }

    /// After herdr was asked to launch `request`: when it went through the
    /// form is done and the harness's name is to be remembered; else herdr's
    /// message shows on the form, which stays open.
    pub fn after_launch(&mut self, request: &Request, result: Result<(), String>) -> (remember:
        Option<String>)
        ensures
            result is Ok ==> final(self)@ == old(self)@,
            result is Ok ==> (remember matches Some(n) && n@ == request.harness.name@),
            result matches Err(m) ==> remember is None && final(self)@ == (FormView {
                error: Some(m@),
                ..old(self)@
            }),
    {
        match result {
            Ok(()) => Some(request.harness.name.clone()),
            Err(m) => {
                let ghost m_view = m@;
                self.error = Some(m);
                assert(self@ =~~= FormView { error: Some(m_view), ..old(self)@ });
                None
            },
        }
    }
}

/// What to do first with a submitted request.
#[derive(Debug, PartialEq, Eq)]
pub enum SubmitStep {
    /// Check out this branch in the Target Directory, then hand the result
    /// to `App::after_switch`.
    Switch(BranchSwitch),
    /// Launch the request with herdr, then hand the result to `App::after_launch`.
    Launch,
}

/// An In Place request that switches branch runs `git switch` first;
/// every other request goes straight to herdr.
pub fn after_submit(request: &Request) -> (r: SubmitStep)
    ensures
        match request@.launch {
            LaunchView::InPlace { switch: Some(s) } => r matches SubmitStep::Switch(t) && t@ == s,
            _ => r is Launch,
        },
{
    match &request.launch {
        Launch::InPlace { switch: Some(s) } => SubmitStep::Switch(
            BranchSwitch {
                repo_root: s.repo_root.clone(),
                branch: s.branch.clone(),
                create: s.create,
                base: copy_opt(&s.base),
            },
        ),
        _ => SubmitStep::Launch,
    }
}

/// What the form shows, decided from its state.
impl<P: Probe> App<P> {
    /// The help line for the form state.
    pub fn help_text(&self) -> (r: String)
        ensures
            r@ == help_spec(self@),
    {
        let text = match &self.picker {
            Some(p) => if p.kind == PickerKind::Branch {
                "type to filter or name a new branch · ↑↓ select · enter pick · esc back"
            } else {
                "type to filter · ↑↓ select · enter pick · esc back"
            },
            None => match self.field {
                Field::Directory => "enter/type: choose directory · tab next · ^S launch · esc cancel",
                Field::Harness => "←→ choose harness · tab next · ^S launch · esc cancel",
                Field::Branch => if self.repo.is_none() {
                    "not a git repo · tab next · ^S launch · esc cancel"
                } else {
                    match self.mode {
                        LaunchMode::InPlace => "enter/type: choose branch · ←→/w: worktree · tab next · ^S launch · esc cancel",
                        LaunchMode::Worktree => "enter/type: choose branch · ←→ switch mode · tab next · ^S launch · esc cancel",
                    }
                },
                Field::Title => "type title · enter/^S launch · esc cancel",
            },
        };
        String::from_str(text)
    }

    /// What launching on `branch` would do in the current Launch Mode.
    pub fn branch_hint(&self, branch: &str) -> (r: Hint)
        ensures
            (r.text@, r.tone) == hint_spec(self@, branch@),
    {
        let repo = match &self.repo {
            None => {
                return Hint { text: String::new(), tone: Tone::Plain };
            },
            Some(r) => r,
        };
        let current = repo.is_current(branch);
        let status = repo.branch_status(branch);
        if let BranchStatus::Invalid = status {
            return hint("  invalid branch name", Tone::Red);
        }
        if self.mode == LaunchMode::InPlace && current {
            return hint("  current", Tone::Dim);
        }
        match status {
            BranchStatus::New => match &repo.base {
                Some(b) => {
                    let mut t = String::from_str("  new branch from ");
                    t.append(b.as_str());
                    Hint { text: t, tone: Tone::Green }
                },
                None => hint("  new branch from HEAD", Tone::Green),
            },
            BranchStatus::Existing => if self.mode == LaunchMode::InPlace {
                hint("  switch to existing branch", Tone::Yellow)
            } else {
                hint("  existing branch", Tone::Yellow)
            },
            BranchStatus::CheckedOut(path) => if self.mode == LaunchMode::InPlace {
                let mut t = String::from_str("  checked out at ");
                t.append(path.as_str());
                t.append(", use Worktree mode");
                Hint { text: t, tone: Tone::Red }
            } else {
                let mut t = String::from_str("  reopen worktree ");
                t.append(path.as_str());
                Hint { text: t, tone: Tone::Yellow }
            },
            _ => hint("  choose a branch", Tone::Dim),
        }
    }

    /// The tag after a branch in the picker list.
    pub fn branch_tag(&self, branch: &str) -> (r: Hint)
        ensures
            (r.text@, r.tone) == tag_spec(self@, branch@),
    {
        let repo = match &self.repo {
            None => {
                return Hint { text: String::new(), tone: Tone::Plain };
            },
            Some(r) => r,
        };
        if repo.is_current(branch) {
            return hint("  (current)", Tone::Dim);
        }
        match repo.branch_status(branch) {
            BranchStatus::CheckedOut(_) => hint("  ⎇ worktree", Tone::Yellow),
            BranchStatus::New => hint("  + new", Tone::Green),
            _ => Hint { text: String::new(), tone: Tone::Plain },
        }
    }

    /// What follows the branch on the Branch field: `(current)` when In
    /// Place leaves it as prefilled (a detached HEAD included), else the hint.
    pub fn branch_suffix(&self) -> (r: Hint)
        ensures
            (r.text@, r.tone) == if self@.mode == LaunchMode::InPlace && !switches(self@) {
                (" (current)"@, Tone::Dim)
            } else {
                hint_spec(self@, self@.branch)
            },
    {
        if self.mode == LaunchMode::InPlace && !self.switches_branch() {
            hint(" (current)", Tone::Dim)
        } else {
            self.branch_hint(self.branch.as_str())
        }
    }

    /// The status line: launching, the error (on one line), or nothing.
    pub fn status_text(&self, busy: bool) -> (r: Hint)
        ensures
            busy ==> r.text@ == "Launching…"@ && r.tone == Tone::Accent,
            !busy && self@.error is None ==> r.text@.len() == 0 && r.tone == Tone::Plain,
            !busy && self@.error is Some ==> r.text@ == one_line(self@.error.unwrap()) && r.tone
                == Tone::Red,
    {
        if busy {
            return hint("Launching…", Tone::Accent);
        }
        match &self.error {
            Some(e) => Hint { text: join_lines(e.as_str()), tone: Tone::Red },
            None => Hint { text: String::new(), tone: Tone::Plain },
        }
    }
}

} // verus!
