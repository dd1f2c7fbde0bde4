//! Properties of the Launcher form that hold across key presses.

use vstd::prelude::*;

use crate::app::{
    after_cycle, after_toggle, branch_label, build, chosen_harness, cycle_from, cycle_index,
    default_title, field_at, field_index, first_available, first_pick, follow, initial_form,
    initial_harness, key_step, opened, pick_ok, picker_entries, preferred_pick, refiltered,
    selection_in_range, switches, title_follows, typed_dir_ok, wf, with_entries, with_query,
    Field, FormView, HarnessChoice, Key, KeyCode, LaunchMode, LaunchView, OutcomeView,
    PickerKind, RequestView, request_title,
};
use crate::git::{RepoInfo, StatusView};
use crate::app::{dir_entries_reported, Probe};
use crate::text::trim;

verus! {

/// Recomputing a picker's entries touches nothing but the picker, and leaves
/// its first entry selected (or the picker as it was).
proof fn lemma_refiltered(pre: FormView, post: FormView)
    requires
        refiltered(pre, post),
    ensures
        post == (FormView { picker: post.picker, ..pre }),
        post.picker is Some <==> pre.picker is Some,
        post.picker matches Some(p) ==> (p.selected == 0 || post == pre),
        post.picker matches Some(p) ==> p.kind == pre.picker.unwrap().kind,
{
    match pre.picker {
        None => {},
        Some(p) => match p.kind {
            PickerKind::Directory => {
                let typed = choose|typed: Option<Seq<char>>|
                    typed_dir_ok(p.query, typed) && post == with_entries(
                        pre,
                        picker_entries(p.query, pre.zoxide, typed, true),
                    );
                assert(post == with_entries(pre, picker_entries(p.query, pre.zoxide, typed, true)));
            },
            PickerKind::Branch => {},
        },
    }
}

/// The suggested Title depends only on the directory, repo, mode and branch.
proof fn lemma_default_title_inputs(a: FormView, b: FormView)
    requires
        a.directory == b.directory,
        a.repo == b.repo,
        a.mode == b.mode,
        a.branch == b.branch,
    ensures
        default_title(a) == default_title(b),
{
}

/// Following the Title makes it the suggested one unless it was edited.
proof fn lemma_follow(v: FormView)
    ensures
        title_follows(follow(v)),
        follow(v) == (FormView { title: follow(v).title, ..v }),
{
    lemma_default_title_inputs(v, follow(v));
}

/// The Title stays the suggested one until the user edits it: once it
/// follows the directory and branch, every key press keeps it so.
pub proof fn title_follows_until_edited(pre: FormView, key: Key, post: FormView, out: OutcomeView)
    requires
        title_follows(pre),
        key_step(pre, key, post, out),
    ensures
        title_follows(post),
        pre.title_edited ==> post.title_edited,
{
    if key.ctrl && key.code == KeyCode::Char('c') {
    } else if key.ctrl && key.code == KeyCode::Char('s') {
        lemma_default_title_inputs(pre, post);
    } else if pre.picker is Some {
        let p = pre.picker.unwrap();
        if key.code == KeyCode::Esc {
            lemma_default_title_inputs(pre, post);
        } else {
            match key.code {
                KeyCode::Enter => if p.selected < p.entries.len() {
                    match p.kind {
                        PickerKind::Directory => lemma_follow(
                            FormView {
                                repo: post.repo,
                                directory: Some(p.entries[p.selected as int]),
                                picker: None,
                                error: None,
                                mode: LaunchMode::InPlace,
                                branch: branch_label(post.repo),
                                field: Field::Harness,
                                ..pre
                            },
                        ),
                        PickerKind::Branch => lemma_follow(
                            FormView {
                                picker: None,
                                error: None,
                                field: Field::Title,
                                branch: p.entries[p.selected as int],
                                ..pre
                            },
                        ),
                    }
                },
                KeyCode::Char(c) => if key.ctrl {
                    if c == 'u' {
                        lemma_refiltered(with_query(pre, Seq::empty()), post);
                        lemma_default_title_inputs(pre, post);
                    } else {
                        lemma_default_title_inputs(pre, post);
                    }
                } else {
                    lemma_refiltered(with_query(pre, p.query.push(c)), post);
                    lemma_default_title_inputs(pre, post);
                },
                KeyCode::Backspace => {
                    lemma_refiltered(
                        with_query(
                            pre,
                            if p.query.len() > 0 {
                                p.query.drop_last()
                            } else {
                                p.query
                            },
                        ),
                        post,
                    );
                    lemma_default_title_inputs(pre, post);
                },
                _ => {
                    lemma_default_title_inputs(pre, post);
                },
            }
        }
    } else if key.code == KeyCode::Esc {
    } else if key.code == KeyCode::Tab || key.code == KeyCode::Down || key.code
        == KeyCode::BackTab || key.code == KeyCode::Up {
        lemma_default_title_inputs(pre, post);
    } else {
        match pre.field {
            Field::Directory => {
                match key.code {
                    KeyCode::Enter => lemma_refiltered(
                        opened(pre, PickerKind::Directory, Seq::empty()),
                        post,
                    ),
                    KeyCode::Char(c) => if !key.ctrl {
                        lemma_refiltered(opened(pre, PickerKind::Directory, seq![c]), post);
                    },
                    _ => {},
                }
                lemma_default_title_inputs(pre, post);
            },
            Field::Harness => {
                lemma_default_title_inputs(pre, post);
            },
            Field::Branch => {
                if pre.repo is Some {
                    match key.code {
                        KeyCode::Left => lemma_toggle(pre),
                        KeyCode::Right => lemma_toggle(pre),
                        KeyCode::Enter => {
                            lemma_refiltered(opened(pre, PickerKind::Branch, Seq::empty()), post);
                            lemma_default_title_inputs(pre, post);
                        },
                        KeyCode::Char(c) => if c == 'w' && pre.mode == LaunchMode::InPlace {
                            lemma_toggle(pre);
                        } else if !key.ctrl {
                            lemma_refiltered(opened(pre, PickerKind::Branch, seq![c]), post);
                            lemma_default_title_inputs(pre, post);
                        } else {
                            lemma_default_title_inputs(pre, post);
                        },
                        _ => {
                            lemma_default_title_inputs(pre, post);
                        },
                    }
                } else {
                    lemma_default_title_inputs(pre, post);
                }
            },
            Field::Title => {
                lemma_default_title_inputs(pre, post);
            },
        }
    }
}

proof fn lemma_toggle(v: FormView)
    ensures
        title_follows(after_toggle(v)),
{
    let mode = match v.mode {
        LaunchMode::InPlace => LaunchMode::Worktree,
        LaunchMode::Worktree => LaunchMode::InPlace,
    };
    let branch = match mode {
        LaunchMode::InPlace => branch_label(v.repo),
        LaunchMode::Worktree => Seq::empty(),
    };
    lemma_follow(FormView { mode, branch, ..v });
}

/// The selected harness, if any, is in the list (which fits in memory) and available.
pub open spec fn harness_ok(v: FormView) -> bool {
    &&& v.harnesses.len() <= usize::MAX
    &&& v.harness matches Some(i) ==> i < v.harnesses.len() && v.harnesses[i as int].available
}

proof fn lemma_cycle_from(hs: Seq<HarnessChoice>, start: int, delta: int, step: int)
    ensures
        cycle_from(hs, start, delta, step) matches Some(i) ==> 0 <= i < hs.len()
            && hs[i].available,
    decreases hs.len() + 1 - step,
{
    if 1 <= step <= hs.len() {
        let i = cycle_index(hs.len() as int, start, delta, step);
        assert(0 <= i < hs.len());
        if !hs[i].available {
            lemma_cycle_from(hs, start, delta, step + 1);
        }
    }
}

proof fn lemma_after_cycle(v: FormView, delta: int)
    requires
        v.harnesses.len() <= usize::MAX,
    ensures
        after_cycle(v, delta) == (FormView { harness: after_cycle(v, delta).harness, ..v }),
        after_cycle(v, delta).harness == v.harness || (after_cycle(v, delta).harness matches Some(
            i,
        ) && i < v.harnesses.len() && v.harnesses[i as int].available),
{
    let start: int = match v.harness {
        Some(i) => i as int,
        None => -1,
    };
    lemma_cycle_from(v.harnesses, start, delta, 1);
}

/// What any key press keeps: the harness list and zoxide entries stay, the
/// harness selection stays or moves to an available harness, and the
/// picker's selection stays within its entries.
proof fn lemma_key_frame(pre: FormView, key: Key, post: FormView, out: OutcomeView)
    requires
        key_step(pre, key, post, out),
        pre.harnesses.len() <= usize::MAX,
    ensures
        post.harnesses == pre.harnesses,
        post.zoxide == pre.zoxide,
        post.harness == pre.harness || (post.harness matches Some(i) && i < pre.harnesses.len()
            && pre.harnesses[i as int].available),
        selection_in_range(pre) && (post.picker matches Some(p) ==> p.entries.len()
            <= usize::MAX) ==> selection_in_range(post),
{
    if key.ctrl && key.code == KeyCode::Char('c') {
    } else if key.ctrl && key.code == KeyCode::Char('s') {
    } else if pre.picker is Some {
        let p = pre.picker.unwrap();
        if key.code != KeyCode::Esc {
            match key.code {
                KeyCode::Char(c) => if key.ctrl {
                    if c == 'u' {
                        lemma_refiltered(with_query(pre, Seq::empty()), post);
                    }
                } else {
                    lemma_refiltered(with_query(pre, p.query.push(c)), post);
                },
                KeyCode::Backspace => {
                    lemma_refiltered(
                        with_query(
                            pre,
                            if p.query.len() > 0 {
                                p.query.drop_last()
                            } else {
                                p.query
                            },
                        ),
                        post,
                    );
                },
                _ => {},
            }
        }
    } else if key.code == KeyCode::Esc {
    } else if key.code == KeyCode::Tab || key.code == KeyCode::Down || key.code
        == KeyCode::BackTab || key.code == KeyCode::Up {
    } else {
        match pre.field {
            Field::Directory => {
                match key.code {
                    KeyCode::Enter => lemma_refiltered(
                        opened(pre, PickerKind::Directory, Seq::empty()),
                        post,
                    ),
                    KeyCode::Char(c) => if !key.ctrl {
                        lemma_refiltered(opened(pre, PickerKind::Directory, seq![c]), post);
                    },
                    _ => {},
                }
            },
            Field::Harness => {
                lemma_after_cycle(pre, -1);
                lemma_after_cycle(pre, 1);
            },
            Field::Branch => {
                if pre.repo is Some {
                    match key.code {
                        KeyCode::Left => lemma_toggle_frame(pre),
                        KeyCode::Right => lemma_toggle_frame(pre),
                        KeyCode::Enter => lemma_refiltered(
                            opened(pre, PickerKind::Branch, Seq::empty()),
                            post,
                        ),
                        KeyCode::Char(c) => if c == 'w' && pre.mode == LaunchMode::InPlace {
                            lemma_toggle_frame(pre);
                        } else if !key.ctrl {
                            lemma_refiltered(opened(pre, PickerKind::Branch, seq![c]), post);
                        },
                        _ => {},
                    }
                }
            },
            Field::Title => {},
        }
    }
}

proof fn lemma_toggle_frame(v: FormView)
    ensures
        after_toggle(v).harnesses == v.harnesses,
        after_toggle(v).harness == v.harness,
        after_toggle(v).zoxide == v.zoxide,
        after_toggle(v).picker == v.picker,
        after_toggle(v).directory == v.directory,
        after_toggle(v).repo == v.repo,
{
}

/// Every key press keeps the selected harness within the harness list.
pub proof fn key_keeps_wf(pre: FormView, key: Key, post: FormView, out: OutcomeView)
    requires
        wf(pre),
        key_step(pre, key, post, out),
    ensures
        wf(post),
{
    lemma_key_frame(pre, key, post, out);
}

/// Every key press keeps the picker's selection on one of its entries (or
/// at the top of an empty list), the entries being a list that fits in
/// memory.
pub proof fn key_keeps_selection_in_range(
    pre: FormView,
    key: Key,
    post: FormView,
    out: OutcomeView,
)
    requires
        wf(pre),
        selection_in_range(pre),
        key_step(pre, key, post, out),
        post.picker matches Some(p) ==> p.entries.len() <= usize::MAX,
    ensures
        selection_in_range(post),
{
    lemma_key_frame(pre, key, post, out);
}

/// Unavailable harnesses can't be picked: once the selection is on an
/// available harness (or none), every key press keeps it so.
pub proof fn key_keeps_harness_available(
    pre: FormView,
    key: Key,
    post: FormView,
    out: OutcomeView,
)
    requires
        harness_ok(pre),
        key_step(pre, key, post, out),
    ensures
        harness_ok(post),
{
    lemma_key_frame(pre, key, post, out);
}

proof fn lemma_first_pick(hs: Seq<HarnessChoice>, name: Option<Seq<char>>, n: int)
    requires
        0 <= n <= hs.len(),
    ensures
        match first_pick(hs, name, n) {
            Some(i) => 0 <= i < n && pick_ok(hs, name, i) && forall|j: int|
                0 <= j < i ==> !pick_ok(hs, name, j),
            None => forall|j: int| 0 <= j < n ==> !pick_ok(hs, name, j),
        },
    decreases n,
{
    if n > 0 {
        lemma_first_pick(hs, name, n - 1);
    }
}

proof fn lemma_preferred_pick_ok(hs: Seq<HarnessChoice>, prefs: Seq<&str>, k: int)
    requires
        0 <= k <= prefs.len(),
    ensures
        preferred_pick(hs, prefs, k) matches Some(i) ==> 0 <= i < hs.len() && hs[i].available,
    decreases k,
{
    if k > 0 {
        lemma_preferred_pick_ok(hs, prefs, k - 1);
        lemma_first_pick(hs, Some(prefs[k - 1]@), hs.len() as int);
    }
}

proof fn lemma_preferred_none(hs: Seq<HarnessChoice>, prefs: Seq<&str>, k: int)
    requires
        0 <= k <= prefs.len(),
        forall|j: int, i: int|
            0 <= j < k && 0 <= i < hs.len() ==> !#[trigger] pick_ok(hs, Some(prefs[j]@), i),
    ensures
        preferred_pick(hs, prefs, k) is None,
    decreases k,
{
    if k > 0 {
        lemma_preferred_none(hs, prefs, k - 1);
        lemma_first_pick(hs, Some(prefs[k - 1]@), hs.len() as int);
    }
}

proof fn lemma_preferred_stable(hs: Seq<HarnessChoice>, prefs: Seq<&str>, k: int, n: int)
    requires
        0 <= k <= n,
        preferred_pick(hs, prefs, k) is Some,
    ensures
        preferred_pick(hs, prefs, n) == preferred_pick(hs, prefs, k),
    decreases n - k,
{
    if k < n {
        lemma_preferred_stable(hs, prefs, k, n - 1);
    }
}

/// The preselected Harness is the most preferred one (the last one launched,
/// then the configured default) that is still available: the first
/// available harness with the earliest preferred name that any available
/// harness has, ASCII case ignored; when none has one, the first available
/// harness, and none only when no harness is available.
pub proof fn preselects_most_preferred_available(hs: Seq<HarnessChoice>, prefs: Seq<&str>)
    ensures
        forall|k: int|
            #![trigger prefs[k]]
            0 <= k < prefs.len() && (exists|i: int| 0 <= i < hs.len() && pick_ok(hs, Some(prefs[k]@), i))
                && (forall|j: int, i: int|
                0 <= j < k && 0 <= i < hs.len() ==> !#[trigger] pick_ok(hs, Some(prefs[j]@), i))
                ==> (initial_harness(hs, prefs) matches Some(i) && 0 <= i < hs.len() && pick_ok(
                hs,
                Some(prefs[k]@),
                i,
            ) && forall|j: int| 0 <= j < i ==> !pick_ok(hs, Some(prefs[k]@), j)),
        (forall|j: int, i: int|
            0 <= j < prefs.len() && 0 <= i < hs.len() ==> !#[trigger] pick_ok(hs, Some(prefs[j]@), i))
            ==> initial_harness(hs, prefs) == first_available(hs),
        initial_harness(hs, prefs) is None <==> forall|i: int| 0 <= i < hs.len() ==> !hs[i].available,
{
    assert forall|k: int|
        #![trigger prefs[k]]
        0 <= k < prefs.len() && (exists|i: int| 0 <= i < hs.len() && pick_ok(hs, Some(prefs[k]@), i))
            && (forall|j: int, i: int|
            0 <= j < k && 0 <= i < hs.len() ==> !#[trigger] pick_ok(hs, Some(prefs[j]@), i))
        implies (initial_harness(hs, prefs) matches Some(i) && 0 <= i < hs.len() && pick_ok(
        hs,
        Some(prefs[k]@),
        i,
    ) && forall|j: int| 0 <= j < i ==> !pick_ok(hs, Some(prefs[k]@), j)) by {
        lemma_preferred_none(hs, prefs, k);
        lemma_first_pick(hs, Some(prefs[k]@), hs.len() as int);
        lemma_preferred_stable(hs, prefs, k + 1, prefs.len() as int);
    }
    if forall|j: int, i: int|
        0 <= j < prefs.len() && 0 <= i < hs.len() ==> !#[trigger] pick_ok(hs, Some(prefs[j]@), i) {
        lemma_preferred_none(hs, prefs, prefs.len() as int);
    }
    lemma_preferred_pick_ok(hs, prefs, prefs.len() as int);
    lemma_first_pick(hs, None, hs.len() as int);
    if initial_harness(hs, prefs) is None {
        assert forall|i: int| 0 <= i < hs.len() implies !hs[i].available by {
            assert(!pick_ok(hs, None, i));
        }
    } else {
        let i = initial_harness(hs, prefs).unwrap();
        assert(0 <= i < hs.len() && hs[i].available);
    }
}

/// The form opens in a sound state: indices in range, the preselected
/// harness available, and the Title following the (absent) directory.
pub proof fn opening_form_is_sound(
    zoxide: Seq<Seq<char>>,
    harnesses: Seq<HarnessChoice>,
    preferred: Seq<&str>,
)
    requires
        harnesses.len() <= usize::MAX,
    ensures
        wf(initial_form(zoxide, harnesses, preferred)),
        selection_in_range(initial_form(zoxide, harnesses, preferred)),
        no_repo_no_branch(initial_form(zoxide, harnesses, preferred)),
        initial_form(zoxide, harnesses, preferred).mode == LaunchMode::InPlace,
        harness_ok(initial_form(zoxide, harnesses, preferred)),
        title_follows(initial_form(zoxide, harnesses, preferred)),
{
    lemma_preferred_pick_ok(harnesses, preferred, preferred.len() as int);
    lemma_first_pick(harnesses, None, harnesses.len() as int);
}

/// Cancelling changes nothing: a key press that cancels leaves the form as it was.
pub proof fn cancel_changes_nothing(pre: FormView, key: Key, post: FormView, out: OutcomeView)
    requires
        key_step(pre, key, post, out),
        out == OutcomeView::Cancel,
    ensures
        post == pre,
{
}

/// Submitting leaves the form as it was and asks for the chosen directory
/// with an available harness.
pub proof fn submitted_request_is_sound(
    pre: FormView,
    key: Key,
    post: FormView,
    req: RequestView,
)
    requires
        key_step(pre, key, post, OutcomeView::Submit(req)),
    ensures
        post == pre,
        pre.directory == Some(req.directory),
        pre.harness matches Some(i) && i < pre.harnesses.len() && pre.harnesses[i as int].available
            && pre.harnesses[i as int].harness == req.harness,
        build(pre) == Ok::<RequestView, (Seq<char>, Field)>(req),
{
}

/// In Place changes the checked-out branch only when the user picked a
/// different one: a request switches exactly when the branch differs from
/// the checked-out one, to that branch in the repo, creating it from the
/// repo's default branch when it doesn't exist yet.
pub proof fn in_place_switches_only_to_another_branch(v: FormView)
    requires
        v.mode == LaunchMode::InPlace,
    ensures
        build(v) matches Ok(req) ==> (req.launch matches LaunchView::InPlace { switch } && (
        switch is Some <==> switches(v))),
        build(v) matches Ok(req) ==> (req.launch matches LaunchView::InPlace { switch: Some(s) }
            ==> (v.repo matches Some(repo) && s.repo_root == repo.root@ && s.branch == v.branch
            && v.branch != branch_label(v.repo) && (s.create <==> repo.status_of(v.branch)
            == StatusView::New) && s.base == (if s.create {
            repo.base.deep_view()
        } else {
            None
        }))),
{
}

/// In Place can't switch to a branch that is checked out in another
/// worktree: such a submission is refused on the Branch field, naming the
/// worktree, and nothing is launched.
pub proof fn in_place_refuses_branch_checked_out_elsewhere(v: FormView, path: Seq<char>)
    requires
        v.mode == LaunchMode::InPlace,
        v.directory is Some,
        chosen_harness(v) is Some,
        switches(v),
        v.repo.unwrap().status_of(v.branch) == StatusView::CheckedOut(path),
    ensures
        build(v) == Err::<RequestView, (Seq<char>, Field)>(
            (
                "'"@ + v.branch + "' is checked out at "@ + path + ", use Worktree mode"@,
                Field::Branch,
            ),
        ),
{
}

/// Worktree mode follows the branch's status: a new branch gets a worktree
/// created from the repo's default branch, an existing branch gets a new
/// worktree, a branch that already has a worktree gets it reopened, and an
/// empty or invalid name is refused on the Branch field.
pub proof fn worktree_launch_follows_branch_status(v: FormView, repo: RepoInfo)
    requires
        v.mode == LaunchMode::Worktree,
        v.repo == Some(repo),
        v.directory is Some,
        chosen_harness(v) is Some,
    ensures
        match repo.status_of(v.branch) {
            StatusView::New => build(v) matches Ok(req) && req.launch
                == LaunchView::CreateWorktree {
                repo_root: repo.root@,
                branch: v.branch,
                base: repo.base.deep_view(),
            },
            StatusView::Existing => build(v) matches Ok(req) && req.launch
                == LaunchView::CreateWorktree { repo_root: repo.root@, branch: v.branch, base: None },
            StatusView::CheckedOut(_) => build(v) matches Ok(req) && req.launch
                == LaunchView::OpenWorktree { repo_root: repo.root@, branch: v.branch },
            _ => build(v) matches Err((_, f)) && f == Field::Branch,
        },
{
}

/// What a key press can do to the directory, repo, mode and branch: leave
/// them, pick a directory (In Place, with the repo's current branch), toggle
/// the mode or pick a branch in a repo.
proof fn lemma_key_targets(pre: FormView, key: Key, post: FormView, out: OutcomeView)
    requires
        key_step(pre, key, post, out),
    ensures
        (post.directory == pre.directory && post.repo == pre.repo && (post.mode == pre.mode
            || pre.repo is Some)) || (post.directory is Some && post.mode == LaunchMode::InPlace
            && post.branch == branch_label(post.repo) && post.field == Field::Harness
            && post.picker is None && pre.picker is Some && pre.picker.unwrap().kind
            == PickerKind::Directory && pre.picker.unwrap().selected
            < pre.picker.unwrap().entries.len() && post.directory == Some(
            pre.picker.unwrap().entries[pre.picker.unwrap().selected as int],
        )),
{
    if key.ctrl && key.code == KeyCode::Char('c') {
    } else if key.ctrl && key.code == KeyCode::Char('s') {
    } else if pre.picker is Some {
        let p = pre.picker.unwrap();
        if key.code != KeyCode::Esc {
            match key.code {
                KeyCode::Enter => if p.selected < p.entries.len() {
                    match p.kind {
                        PickerKind::Directory => {
                            let w = FormView {
                                repo: post.repo,
                                directory: Some(p.entries[p.selected as int]),
                                picker: None,
                                error: None,
                                mode: LaunchMode::InPlace,
                                branch: branch_label(post.repo),
                                field: Field::Harness,
                                ..pre
                            };
                            lemma_follow(w);
                        },
                        PickerKind::Branch => {
                            let w = FormView {
                                picker: None,
                                error: None,
                                field: Field::Title,
                                branch: p.entries[p.selected as int],
                                ..pre
                            };
                            lemma_follow(w);
                        },
                    }
                },
                KeyCode::Char(c) => if key.ctrl {
                    if c == 'u' {
                        lemma_refiltered(with_query(pre, Seq::empty()), post);
                    }
                } else {
                    lemma_refiltered(with_query(pre, p.query.push(c)), post);
                },
                KeyCode::Backspace => {
                    lemma_refiltered(
                        with_query(
                            pre,
                            if p.query.len() > 0 {
                                p.query.drop_last()
                            } else {
                                p.query
                            },
                        ),
                        post,
                    );
                },
                _ => {},
            }
        }
    } else if key.code == KeyCode::Esc {
    } else if key.code == KeyCode::Tab || key.code == KeyCode::Down || key.code
        == KeyCode::BackTab || key.code == KeyCode::Up {
    } else {
        match pre.field {
            Field::Directory => {
                match key.code {
                    KeyCode::Enter => lemma_refiltered(
                        opened(pre, PickerKind::Directory, Seq::empty()),
                        post,
                    ),
                    KeyCode::Char(c) => if !key.ctrl {
                        lemma_refiltered(opened(pre, PickerKind::Directory, seq![c]), post);
                    },
                    _ => {},
                }
            },
            Field::Harness => {
                if pre.harnesses.len() <= usize::MAX {
                    lemma_after_cycle(pre, -1);
                    lemma_after_cycle(pre, 1);
                }
            },
            Field::Branch => {
                if pre.repo is Some {
                    match key.code {
                        KeyCode::Left => lemma_toggle_frame(pre),
                        KeyCode::Right => lemma_toggle_frame(pre),
                        KeyCode::Enter => lemma_refiltered(
                            opened(pre, PickerKind::Branch, Seq::empty()),
                            post,
                        ),
                        KeyCode::Char(c) => if c == 'w' && pre.mode == LaunchMode::InPlace {
                            lemma_toggle_frame(pre);
                        } else if !key.ctrl {
                            lemma_refiltered(opened(pre, PickerKind::Branch, seq![c]), post);
                        },
                        _ => {},
                    }
                }
            },
            Field::Title => {},
        }
    }
}

/// A Target Directory that isn't a git repo only allows In Place: once that
/// holds, every key press keeps it so.
pub proof fn non_repo_stays_in_place(pre: FormView, key: Key, post: FormView, out: OutcomeView)
    requires
        pre.repo is None ==> pre.mode == LaunchMode::InPlace,
        key_step(pre, key, post, out),
    ensures
        post.repo is None ==> post.mode == LaunchMode::InPlace,
{
    lemma_key_targets(pre, key, post, out);
}

/// A form on a directory that isn't a git repo has no branch: outside a
/// repo the branch stays empty and no branch picker is open, whatever key
/// is pressed.
pub open spec fn no_repo_no_branch(v: FormView) -> bool {
    v.repo is None ==> (v.branch.len() == 0 && !(v.picker matches Some(p) && p.kind
        == PickerKind::Branch))
}

/// Outside a git repo the branch stays empty: once that holds, every key
/// press keeps it so.
pub proof fn non_repo_keeps_empty_branch(pre: FormView, key: Key, post: FormView, out: OutcomeView)
    requires
        no_repo_no_branch(pre),
        key_step(pre, key, post, out),
    ensures
        no_repo_no_branch(post),
{
    if key.ctrl && key.code == KeyCode::Char('c') {
    } else if key.ctrl && key.code == KeyCode::Char('s') {
    } else if pre.picker is Some {
        let p = pre.picker.unwrap();
        if key.code != KeyCode::Esc {
            match key.code {
                KeyCode::Enter => if p.selected < p.entries.len() {
                    match p.kind {
                        PickerKind::Directory => {
                            let w = FormView {
                                repo: post.repo,
                                directory: Some(p.entries[p.selected as int]),
                                picker: None,
                                error: None,
                                mode: LaunchMode::InPlace,
                                branch: branch_label(post.repo),
                                field: Field::Harness,
                                ..pre
                            };
                            lemma_follow(w);
                        },
                        PickerKind::Branch => {
                            let w = FormView {
                                picker: None,
                                error: None,
                                field: Field::Title,
                                branch: p.entries[p.selected as int],
                                ..pre
                            };
                            lemma_follow(w);
                        },
                    }
                },
                KeyCode::Char(c) => if key.ctrl {
                    if c == 'u' {
                        lemma_refiltered(with_query(pre, Seq::empty()), post);
                    }
                } else {
                    lemma_refiltered(with_query(pre, p.query.push(c)), post);
                },
                KeyCode::Backspace => {
                    lemma_refiltered(
                        with_query(
                            pre,
                            if p.query.len() > 0 {
                                p.query.drop_last()
                            } else {
                                p.query
                            },
                        ),
                        post,
                    );
                },
                _ => {},
            }
        }
    } else if key.code == KeyCode::Esc {
    } else if key.code == KeyCode::Tab || key.code == KeyCode::Down || key.code
        == KeyCode::BackTab || key.code == KeyCode::Up {
    } else {
        match pre.field {
            Field::Directory => {
                match key.code {
                    KeyCode::Enter => lemma_refiltered(
                        opened(pre, PickerKind::Directory, Seq::empty()),
                        post,
                    ),
                    KeyCode::Char(c) => if !key.ctrl {
                        lemma_refiltered(opened(pre, PickerKind::Directory, seq![c]), post);
                    },
                    _ => {},
                }
            },
            Field::Harness => {
                if pre.harnesses.len() <= usize::MAX {
                    lemma_after_cycle(pre, -1);
                    lemma_after_cycle(pre, 1);
                }
            },
            Field::Branch => {
                if pre.repo is Some {
                    match key.code {
                        KeyCode::Left => lemma_toggle_frame(pre),
                        KeyCode::Right => lemma_toggle_frame(pre),
                        KeyCode::Enter => lemma_refiltered(
                            opened(pre, PickerKind::Branch, Seq::empty()),
                            post,
                        ),
                        KeyCode::Char(c) => if c == 'w' && pre.mode == LaunchMode::InPlace {
                            lemma_toggle_frame(pre);
                        } else if !key.ctrl {
                            lemma_refiltered(opened(pre, PickerKind::Branch, seq![c]), post);
                        },
                        _ => {},
                    }
                }
            },
            Field::Title => {},
        }
    }
}

/// In Place is the default Launch Mode: a key press that picks another
/// directory leaves the form In Place on that directory's current branch,
/// with the Harness field next.
pub proof fn picking_a_directory_starts_in_place(
    pre: FormView,
    key: Key,
    post: FormView,
    out: OutcomeView,
)
    requires
        key_step(pre, key, post, out),
        post.directory != pre.directory,
    ensures
        post.mode == LaunchMode::InPlace,
        post.branch == branch_label(post.repo),
        post.field == Field::Harness,
        post.picker is None,
{
    lemma_key_targets(pre, key, post, out);
}

/// Submitting checks the directory first, then the harness, before anything
/// about the branch; a request carries the chosen directory and harness and
/// the typed title trimmed, or the suggested one when that is blank.
pub proof fn submit_checks_directory_then_harness(v: FormView)
    ensures
        v.directory is None ==> build(v) == Err::<RequestView, (Seq<char>, Field)>(
            ("Pick a directory first"@, Field::Directory),
        ),
        v.directory is Some && chosen_harness(v) is None ==> build(v) == Err::<
            RequestView,
            (Seq<char>, Field),
        >(("No available harness selected"@, Field::Harness)),
        build(v) matches Ok(req) ==> v.directory == Some(req.directory) && chosen_harness(v)
            == Some(req.harness) && req.title == request_title(v),
{
}

/// In an open picker, Down, Tab and Ctrl-N move the selection down exactly
/// one entry, stopping on the last; Up, Shift-Tab and Ctrl-P move it up one,
/// stopping on the first. The entries stay as they are.
pub proof fn picker_selection_moves_one_entry(
    pre: FormView,
    key: Key,
    post: FormView,
    out: OutcomeView,
)
    requires
        key_step(pre, key, post, out),
        pre.picker matches Some(p) && (p.selected == 0 || p.selected < p.entries.len())
            && p.entries.len() <= usize::MAX,
    ensures
        ({
            let p = pre.picker.unwrap();
            let n = p.entries.len();
            (key.code == KeyCode::Down || key.code == KeyCode::Tab || (key.ctrl && key.code
                == KeyCode::Char('n'))) ==> (post.picker matches Some(q) && q.entries == p.entries
                && q.selected == if p.selected + 1 < n {
                p.selected + 1
            } else if n > 0 {
                n - 1
            } else {
                0
            })
        }),
        ({
            let p = pre.picker.unwrap();
            (key.code == KeyCode::Up || key.code == KeyCode::BackTab || (key.ctrl && key.code
                == KeyCode::Char('p'))) ==> (post.picker matches Some(q) && q.entries == p.entries
                && q.selected == if p.selected > 0 {
                p.selected - 1
            } else {
                0
            })
        }),
{
}

/// A submitted request carries the typed title, trimmed; only a blank title
/// falls back to the suggested one.
pub proof fn submitted_title_is_the_typed_one(v: FormView)
    ensures
        build(v) matches Ok(req) ==> (trim(v.title).len() > 0 ==> req.title == trim(v.title)) && (
        trim(v.title).len() == 0 ==> req.title == default_title(v)),
{
}

/// A directory picked from the directory picker is one of zoxide's
/// directories or a path the probe reported as an existing directory, as
/// long as the picker offered only such entries.
pub proof fn picked_directory_was_offered<P: Probe>(
    probe: P,
    pre: FormView,
    key: Key,
    post: FormView,
    out: OutcomeView,
)
    requires
        dir_entries_reported(probe, pre),
        key_step(pre, key, post, out),
        post.directory != pre.directory,
    ensures
        post.directory matches Some(d) && (pre.zoxide.contains(d) || probe.reports_dir(d, true)),
{
    lemma_key_targets(pre, key, post, out);
    let p = pre.picker.unwrap();
    assert(p.entries[p.selected as int] == p.entries[p.selected as int]);
}

/// Tab then Shift-Tab comes back to the same field, and four Tabs go all
/// the way round.
pub proof fn tab_round_trip(f: Field)
    ensures
        field_at(field_index(field_at(field_index(f) + 1)) - 1) == f,
        field_at(field_index(f) + 4) == f,
{
}

} // verus!
