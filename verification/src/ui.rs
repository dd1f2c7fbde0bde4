//! What the Launcher shows: the texts and their tones, decided from the form
//! state; drawing them is left to the terminal layer.

use vstd::prelude::*;

use crate::app::{build, chosen_harness, switches, Field, FormView, HarnessChoice, LaunchMode, PickerKind};
use crate::git::StatusView;

verus! {

/// How a piece of text is shown.
#[derive(Debug, Clone, Copy, PartialEq, Eq, Structural)]
pub enum Tone {
    Plain,
    Dim,
    Accent,
    Red,
    Green,
    Yellow,
    /// An unavailable harness: dimmed and struck through.
    Struck,
    /// The selected harness: dark on the accent colour.
    Highlight,
}

/// A piece of text and how it is shown.
#[derive(Debug, Clone, PartialEq, Eq)]
pub struct Hint {
    pub text: String,
    pub tone: Tone,
}

/// The help line for the form state.
pub open spec fn help_spec(v: FormView) -> Seq<char> {
    match v.picker {
        Some(p) => if p.kind == PickerKind::Branch {
            "type to filter or name a new branch · ↑↓ select · enter pick · esc back"@
        } else {
            "type to filter · ↑↓ select · enter pick · esc back"@
        },
        None => match v.field {
            Field::Directory => "enter/type: choose directory · tab next · ^S launch · esc cancel"@,
            Field::Harness => "←→ choose harness · tab next · ^S launch · esc cancel"@,
            Field::Branch => if v.repo is None {
                "not a git repo · tab next · ^S launch · esc cancel"@
            } else {
                match v.mode {
                    LaunchMode::InPlace => "enter/type: choose branch · ←→/w: worktree · tab next · ^S launch · esc cancel"@,
                    LaunchMode::Worktree => "enter/type: choose branch · ←→ switch mode · tab next · ^S launch · esc cancel"@,
                }
            },
            Field::Title => "type title · enter/^S launch · esc cancel"@,
        },
    }
}

/// The hint after a branch: what launching on it would do in the current
/// Launch Mode.
pub open spec fn hint_spec(v: FormView, branch: Seq<char>) -> (Seq<char>, Tone) {
    match v.repo {
        None => (Seq::empty(), Tone::Plain),
        Some(repo) => {
            let new_from = match repo.base {
                Some(b) => ("  new branch from "@ + b@, Tone::Green),
                None => ("  new branch from HEAD"@, Tone::Green),
            };
            let status = repo.status_of(branch);
            if status is Invalid {
                ("  invalid branch name"@, Tone::Red)
            } else if v.mode == LaunchMode::InPlace && repo.is_current_spec(branch) {
                ("  current"@, Tone::Dim)
            } else {
                match status {
                    StatusView::New => new_from,
                    StatusView::Existing => if v.mode == LaunchMode::InPlace {
                        ("  switch to existing branch"@, Tone::Yellow)
                    } else {
                        ("  existing branch"@, Tone::Yellow)
                    },
                    StatusView::CheckedOut(path) => if v.mode == LaunchMode::InPlace {
                        ("  checked out at "@ + path + ", use Worktree mode"@, Tone::Red)
                    } else {
                        ("  reopen worktree "@ + path, Tone::Yellow)
                    },
                    _ => ("  choose a branch"@, Tone::Dim),
                }
            }
        },
    }
}

/// The tag after a branch in the picker list.
pub open spec fn tag_spec(v: FormView, branch: Seq<char>) -> (Seq<char>, Tone) {
    match v.repo {
        None => (Seq::empty(), Tone::Plain),
        Some(repo) => if repo.is_current_spec(branch) {
            ("  (current)"@, Tone::Dim)
        } else {
            match repo.status_of(branch) {
                StatusView::CheckedOut(_) => ("  ⎇ worktree"@, Tone::Yellow),
                StatusView::New => ("  + new"@, Tone::Green),
                _ => (Seq::empty(), Tone::Plain),
            }
        },
    }
}

/// A hint with the given text and tone.
pub(crate) fn hint(text: &str, tone: Tone) -> (r: Hint)
    ensures
        r.text@ == text@,
        r.tone == tone,
{
    Hint { text: String::from_str(text), tone }
}

/// `s` with each newline shown as ` · `.
pub open spec fn one_line(s: Seq<char>) -> Seq<char>
    decreases s.len(),
{
    if s.len() == 0 {
        Seq::empty()
    } else if s.last() == '\n' {
        one_line(s.drop_last()) + " · "@
    } else {
        one_line(s.drop_last()).push(s.last())
    }
}

/// `s` with each newline replaced by ` · `.
pub(crate) fn join_lines(s: &str) -> (r: String)
    ensures
        r@ == one_line(s@),
{
    let cs = crate::text::chars_of(s);
    let mut out = String::new();
    let mut i: usize = 0;
    while i < cs.len()
        invariant
            i <= cs@.len(),
            cs@ == s@,
            out@ == one_line(cs@.take(i as int)),
        decreases cs.len() - i,
    {
        assert(cs@.take(i + 1).drop_last() =~= cs@.take(i as int));
        if cs[i] == '\n' {
            out.append(" · ");
        } else {
            crate::text::push_char(&mut out, cs[i]);
        }
        i = i + 1;
    }
    assert(cs@.take(cs@.len() as int) =~= cs@);
    out
}

/// The label of a harness on the Harness field.
pub fn harness_label(choice: &HarnessChoice, selected: bool) -> (r: Hint)
    ensures
        !choice.available ==> r.text@ == choice.harness.name@ + " (not on PATH)"@ && r.tone
            == Tone::Struck,
        choice.available && selected ==> r.text@ == " "@ + choice.harness.name@ + " "@ && r.tone
            == Tone::Highlight,
        choice.available && !selected ==> r.text@ == choice.harness.name@ && r.tone == Tone::Plain,
{
    let name = choice.harness.name.as_str();
    if !choice.available {
        let mut t = String::from_str(name);
        t.append(" (not on PATH)");
        Hint { text: t, tone: Tone::Struck }
    } else if selected {
        let mut t = String::from_str(" ");
        t.append(name);
        t.append(" ");
        Hint { text: t, tone: Tone::Highlight }
    } else {
        hint(name, Tone::Plain)
    }
}

/// The label of a picker and what it shows when nothing matches.
pub fn picker_labels(kind: PickerKind) -> (r: (String, String))
    ensures
        kind == PickerKind::Directory ==> r.0@ == "Directory "@ && r.1@
            == "no matches (type /path or ~/path)"@,
        kind == PickerKind::Branch ==> r.0@ == "Branch "@ && r.1@
            == "no matches (type a new branch name)"@,
{
    match kind {
        PickerKind::Directory => (
            String::from_str("Directory "),
            String::from_str("no matches (type /path or ~/path)"),
        ),
        PickerKind::Branch => (
            String::from_str("Branch "),
            String::from_str("no matches (type a new branch name)"),
        ),
    }
}

/// The branch hint warns in red exactly when submitting would be refused
/// over the branch: for a named branch the form would act on (any in
/// Worktree mode, one other than the checked-out one In Place), once a
/// directory and an available harness are chosen.
pub proof fn red_hint_iff_branch_refused(v: FormView)
    requires
        v.directory is Some,
        chosen_harness(v) is Some,
        v.repo is Some,
        v.mode == LaunchMode::Worktree || switches(v),
        v.branch.len() > 0,
    ensures
        hint_spec(v, v.branch).1 == Tone::Red <==> build(v) is Err,
{
}

} // verus!
