//! What the Launcher knows about the git repo behind a Target Directory, and
//! the rules a branch name must follow.

use vstd::prelude::*;

use crate::text::{
    chars_of, contains_seq, ends_with_char, ends_with_seq, has_substring, is_control,
    is_control_char, lines, lines_of, pieces, split_char, split_on, split_str, starts_with_char,
    starts_with_seq, str_eq, string_of, string_of_range, trim_end_char, trim_end_char_len,
};

verus! {

/// What the Launcher needs to know about the git repo behind a Target Directory.
#[derive(Debug, Clone, PartialEq, Eq)]
pub struct RepoInfo {
    pub root: String,
    /// Checked-out branch, or `None` when HEAD is detached.
    pub current_branch: Option<String>,
    /// Ref new branches start from: the default branch, if one can be found.
    pub base: Option<String>,
    /// Local branches, in the order they are offered.
    pub branches: Vec<String>,
    /// Branch name and the path of the worktree that has it checked out; a
    /// later entry for the same branch wins.
    pub worktrees: Vec<(String, String)>,
}

/// How a branch name relates to a repo.
#[derive(Debug, Clone, PartialEq, Eq)]
pub enum BranchStatus {
    Empty,
    Invalid,
    /// Will be created from `RepoInfo::base`.
    New,
    /// Exists locally with no worktree.
    Existing,
    /// Already checked out in the worktree at this path.
    CheckedOut(String),
}

/// `BranchStatus` with the path as its characters.
pub enum StatusView {
    Empty,
    Invalid,
    New,
    Existing,
    CheckedOut(Seq<char>),
}

impl View for BranchStatus {
    type V = StatusView;

    open spec fn view(&self) -> StatusView {
        match self {
            BranchStatus::Empty => StatusView::Empty,
            BranchStatus::Invalid => StatusView::Invalid,
            BranchStatus::New => StatusView::New,
            BranchStatus::Existing => StatusView::Existing,
            BranchStatus::CheckedOut(p) => StatusView::CheckedOut(p@),
        }
    }
}

/// The worktree path recorded for `branch` among the first `n` entries of
/// `wts`: the last matching entry's.
pub open spec fn worktree_in(wts: Seq<(Seq<char>, Seq<char>)>, branch: Seq<char>, n: int) -> Option<
    Seq<char>,
>
    decreases n,
{
    if n <= 0 {
        None
    } else if wts[n - 1].0 == branch {
        Some(wts[n - 1].1)
    } else {
        worktree_in(wts, branch, n - 1)
    }
}

impl RepoInfo {
    /// The local branch names.
    pub open spec fn branch_names(&self) -> Seq<Seq<char>> {
        self.branches.deep_view()
    }

    /// The worktree that has `branch` checked out, if any.
    pub open spec fn worktree_of(&self, branch: Seq<char>) -> Option<Seq<char>> {
        let wts = self.worktrees.deep_view();
        worktree_in(wts, branch, wts.len() as int)
    }

    /// What launching on `branch` would mean in this repo.
    pub open spec fn status_of(&self, branch: Seq<char>) -> StatusView {
        if branch.len() == 0 {
            StatusView::Empty
        } else if !valid_branch_name(branch) {
            StatusView::Invalid
        } else if let Some(path) = self.worktree_of(branch) {
            StatusView::CheckedOut(path)
        } else if self.branch_names().contains(branch) {
            StatusView::Existing
        } else {
            StatusView::New
        }
    }

    /// Whether `branch` is the checked-out branch.
    pub open spec fn is_current_spec(&self, branch: Seq<char>) -> bool {
        match self.current_branch {
            Some(b) => b@ == branch,
            None => false,
        }
    }

    /// Classifies `branch`: empty, not a valid name, checked out in a
    /// worktree, an existing local branch, or a new one.
    pub fn branch_status(&self, branch: &str) -> (r: BranchStatus)
        ensures
            r@ == self.status_of(branch@),
    {
        let cs = crate::text::chars_of(branch);
        if cs.len() == 0 {
            return BranchStatus::Empty;
        }
        if !is_valid_branch_name(branch) {
            return BranchStatus::Invalid;
        }
        let mut found: Option<String> = None;
        let mut i: usize = 0;
        while i < self.worktrees.len()
            invariant
                i <= self.worktrees@.len(),
                match found {
                    Some(p) => worktree_in(self.worktrees.deep_view(), branch@, i as int) == Some(
                        p@,
                    ),
                    None => worktree_in(self.worktrees.deep_view(), branch@, i as int) is None,
                },
            decreases self.worktrees.len() - i,
        {
            if crate::text::str_eq(self.worktrees[i].0.as_str(), branch) {
                found = Some(self.worktrees[i].1.clone());
            }
            i = i + 1;
        }
        if let Some(path) = found {
            return BranchStatus::CheckedOut(path);
        }
        let mut j: usize = 0;
        while j < self.branches.len()
            invariant
                j <= self.branches@.len(),
                forall|k: int| 0 <= k < j ==> self.branches@[k]@ != branch@,
                branch@.len() > 0,
                valid_branch_name(branch@),
                self.worktree_of(branch@) is None,
            decreases self.branches.len() - j,
        {
            if crate::text::str_eq(self.branches[j].as_str(), branch) {
                assert(self.branch_names()[j as int] == branch@);
                return BranchStatus::Existing;
            }
            j = j + 1;
        }
        assert(!self.branch_names().contains(branch@));
        BranchStatus::New
    }

    /// Whether `branch` is the checked-out branch.
    pub fn is_current(&self, branch: &str) -> (r: bool)
        ensures
            r == self.is_current_spec(branch@),
    {
        match &self.current_branch {
            Some(b) => crate::text::str_eq(b.as_str(), branch),
            None => false,
        }
    }
}

/// Characters a branch name may not hold.
pub open spec fn forbidden_char(c: char) -> bool {
    c == ' ' || c == '~' || c == '^' || c == ':' || c == '?' || c == '*' || c == '[' || c == '\\'
}

/// The suffix no branch name or name component may end with.
pub open spec fn lock_suffix() -> Seq<char> {
    seq!['.', 'l', 'o', 'c', 'k']
}

/// The rules of `git check-ref-format --branch`.
pub open spec fn valid_branch_name(s: Seq<char>) -> bool {
    &&& s.len() > 0
    &&& s != seq!['@']
    &&& !starts_with_char(s, '-')
    &&& !starts_with_char(s, '/')
    &&& !ends_with_char(s, '/')
    &&& !ends_with_char(s, '.')
    &&& !lock_suffix().is_suffix_of(s)
    &&& !has_substring(s, seq!['.', '.'])
    &&& !has_substring(s, seq!['/', '/'])
    &&& !has_substring(s, seq!['@', '{'])
    &&& forall|i: int| 0 <= i < s.len() ==> !forbidden_char(#[trigger] s[i])
    &&& forall|i: int| 0 <= i < s.len() ==> !is_control_char(#[trigger] s[i])
    &&& forall|k: int|
        0 <= k < pieces(s, '/').len() ==> !starts_with_char(#[trigger] pieces(s, '/')[k], '.')
            && !lock_suffix().is_suffix_of(pieces(s, '/')[k])
}

/// Whether some character of `cs` satisfies `forbidden_char` or is a control character.
fn has_bad_char(cs: &[char]) -> (r: bool)
    ensures
        r == exists|i: int| 0 <= i < cs@.len() && (forbidden_char(cs@[i]) || is_control_char(cs@[i])),
{
    let mut i: usize = 0;
    while i < cs.len()
        invariant
            i <= cs@.len(),
            forall|k: int| 0 <= k < i ==> !forbidden_char(cs@[k]) && !is_control_char(cs@[k]),
        decreases cs.len() - i,
    {
        let c = cs[i];
        if c == ' ' || c == '~' || c == '^' || c == ':' || c == '?' || c == '*' || c == '['
            || c == '\\' || is_control(c) {
            return true;
        }
        i = i + 1;
    }
    false
}

/// The rules of `git check-ref-format --branch`, checked without spawning git.
pub fn is_valid_branch_name(name: &str) -> (r: bool)
    ensures
        r == valid_branch_name(name@),
{
    let cs = crate::text::chars_of(name);
    let s = cs.as_slice();
    let lock = vec!['.', 'l', 'o', 'c', 'k'];
    assert(lock@ == lock_suffix());
    if cs.len() == 0 {
        return false;
    }
    if cs.len() == 1 && cs[0] == '@' {
        assert(cs@ =~= seq!['@']);
        return false;
    }
    if cs[0] == '-' || cs[0] == '/' {
        return false;
    }
    let last = cs[cs.len() - 1];
    if last == '/' || last == '.' {
        return false;
    }
    if ends_with_seq(s, lock.as_slice()) {
        return false;
    }
    let dots = vec!['.', '.'];
    let slashes = vec!['/', '/'];
    let at_brace = vec!['@', '{'];
    if contains_seq(s, dots.as_slice()) || contains_seq(s, slashes.as_slice()) || contains_seq(
        s,
        at_brace.as_slice(),
    ) {
        return false;
    }
    if has_bad_char(s) {
        return false;
    }
    let parts = split_char(s, '/');
    let mut k: usize = 0;
    while k < parts.len()
        invariant
            k <= parts@.len(),
            parts@.len() == pieces(name@, '/').len(),
            forall|m: int| 0 <= m < parts@.len() ==> #[trigger] parts@[m]@ == pieces(name@, '/')[m],
            lock@ == lock_suffix(),
            forall|m: int|
                0 <= m < k ==> !starts_with_char(#[trigger] pieces(name@, '/')[m], '.')
                    && !lock_suffix().is_suffix_of(pieces(name@, '/')[m]),
        decreases parts.len() - k,
    {
        let part = &parts[k];
        assert(part@ == pieces(name@, '/')[k as int]);
        if part.len() > 0 && part[0] == '.' {
            return false;
        }
        if ends_with_seq(part.as_slice(), lock.as_slice()) {
            return false;
        }
        k = k + 1;
    }
    true
}

// ---------------------------------------------------------------------------
// Reading git's output
// ---------------------------------------------------------------------------

/// What a git command printed, without trailing newlines; `None` when that
/// leaves nothing.
pub open spec fn output_text(stdout: Seq<char>) -> Option<Seq<char>> {
    let t = trim_end_char(stdout, '\n');
    if t.len() == 0 {
        None
    } else {
        Some(t)
    }
}

/// What a git command printed, without trailing newlines; `None` when that
/// leaves nothing.
pub fn command_text(stdout: &str) -> (r: Option<String>)
    ensures
        r.deep_view() == output_text(stdout@),
{
    let cs = chars_of(stdout);
    let n = trim_end_char_len(cs.as_slice(), '\n');
    if n == 0 {
        None
    } else {
        Some(string_of_range(cs.as_slice(), 0, n))
    }
}

/// `line` after `prefix`, when it starts with it.
pub open spec fn after_prefix(line: Seq<char>, prefix: Seq<char>) -> Option<Seq<char>> {
    if prefix.is_prefix_of(line) {
        Some(line.skip(prefix.len() as int))
    } else {
        None
    }
}

/// The worktree path and branch named by the first `k` lines of a porcelain
/// block; a later line of the same kind wins.
pub open spec fn scan_block(ls: Seq<Seq<char>>, k: int) -> (Option<Seq<char>>, Option<Seq<char>>)
    decreases k,
{
    if k <= 0 {
        (None, None)
    } else {
        let (path, branch) = scan_block(ls, k - 1);
        match after_prefix(ls[k - 1], "worktree "@) {
            Some(p) => (Some(p), branch),
            None => match after_prefix(ls[k - 1], "branch refs/heads/"@) {
                Some(b) => (path, Some(b)),
                None => (path, branch),
            },
        }
    }
}

/// The (branch, path) pairs of the first `k` porcelain blocks that name both.
pub open spec fn block_entries(blocks: Seq<Seq<char>>, k: int) -> Seq<(Seq<char>, Seq<char>)>
    decreases k,
{
    if k <= 0 {
        Seq::empty()
    } else {
        let rest = block_entries(blocks, k - 1);
        let ls = lines(blocks[k - 1]);
        match scan_block(ls, ls.len() as int) {
            (Some(p), Some(b)) => rest.push((b, p)),
            _ => rest,
        }
    }
}

/// The worktrees that `git worktree list --porcelain` reports: for each
/// blank-line-separated block with both a `worktree` and a `branch` line,
/// the branch and the worktree's path.
pub open spec fn parsed_worktrees(porcelain: Seq<char>) -> Seq<(Seq<char>, Seq<char>)> {
    let blocks = split_on(porcelain, seq!['\n', '\n']);
    block_entries(blocks, blocks.len() as int)
}

/// `line` after `prefix`, when it starts with it.
fn strip_prefix(line: &str, prefix: &str) -> (r: Option<String>)
    ensures
        r.deep_view() == after_prefix(line@, prefix@),
{
    let l = chars_of(line);
    let p = chars_of(prefix);
    if starts_with_seq(l.as_slice(), p.as_slice()) {
        let rest = string_of_range(l.as_slice(), p.len(), l.len());
        assert(rest@ =~= line@.skip(prefix@.len() as int));
        Some(rest)
    } else {
        None
    }
}

/// The branch → worktree path pairs of `git worktree list --porcelain` output.
pub fn parse_worktrees(porcelain: &str) -> (r: Vec<(String, String)>)
    ensures
        r.deep_view() == parsed_worktrees(porcelain@),
{
    let cs = chars_of(porcelain);
    let sep = vec!['\n', '\n'];
    assert(sep@ == seq!['\n', '\n']);
    let blocks = split_str(cs.as_slice(), sep.as_slice());
    let ghost bs = split_on(porcelain@, seq!['\n', '\n']);
    let mut worktrees: Vec<(String, String)> = Vec::new();
    let mut k: usize = 0;
    while k < blocks.len()
        invariant
            k <= blocks@.len(),
            bs == split_on(porcelain@, seq!['\n', '\n']),
            blocks@.len() == bs.len(),
            forall|m: int| 0 <= m < blocks@.len() ==> #[trigger] blocks@[m]@ == bs[m],
            worktrees.deep_view() == block_entries(bs, k as int),
        decreases blocks.len() - k,
    {
        let block = string_of(blocks[k].as_slice());
        assert(block@ == bs[k as int]);
        let ls = lines_of(block.as_str());
        let mut path: Option<String> = None;
        let mut branch: Option<String> = None;
        let mut j: usize = 0;
        while j < ls.len()
            invariant
                j <= ls@.len(),
                ls@.len() == lines(block@).len(),
                forall|m: int| 0 <= m < ls@.len() ==> #[trigger] ls@[m]@ == lines(block@)[m],
                (path.deep_view(), branch.deep_view()) == scan_block(lines(block@), j as int),
            decreases ls.len() - j,
        {
            assert(ls@[j as int]@ == lines(block@)[j as int]);
            match strip_prefix(ls[j].as_str(), "worktree ") {
                Some(p) => {
                    path = Some(p);
                },
                None => match strip_prefix(ls[j].as_str(), "branch refs/heads/") {
                    Some(b) => {
                        branch = Some(b);
                    },
                    None => {},
                },
            }
            j = j + 1;
        }
        match (path, branch) {
            (Some(p), Some(b)) => {
                worktrees.push((b, p));
            },
            _ => {},
        }
        assert(worktrees.deep_view() =~= block_entries(bs, k + 1));
        k = k + 1;
    }
    worktrees
}

/// The ref new branches start from: `origin/HEAD` when the remote
/// advertises one, else a local `main` or `master`.
pub open spec fn default_base(origin_head: Option<Seq<char>>, branches: Seq<Seq<char>>) -> Option<
    Seq<char>,
> {
    match origin_head {
        Some(h) => Some(h),
        None => if branches.contains("main"@) {
            Some("main"@)
        } else if branches.contains("master"@) {
            Some("master"@)
        } else {
            None
        },
    }
}

/// Whether some string of `v` is `s`.
fn contains_str(v: &Vec<String>, s: &str) -> (r: bool)
    ensures
        r == v.deep_view().contains(s@),
{
    let mut i: usize = 0;
    while i < v.len()
        invariant
            i <= v@.len(),
            forall|k: int| 0 <= k < i ==> v@[k]@ != s@,
        decreases v.len() - i,
    {
        if str_eq(v[i].as_str(), s) {
            assert(v.deep_view()[i as int] == s@);
            return true;
        }
        i = i + 1;
    }
    assert(!v.deep_view().contains(s@)) by {
        if v.deep_view().contains(s@) {
            let k = choose|k: int| 0 <= k < v.deep_view().len() && v.deep_view()[k] == s@;
            assert(v@[k]@ == s@);
        }
    }
    false
}

/// `origin/HEAD` (what `git symbolic-ref` printed for it) when the remote
/// advertises one, else a local `main` or `master`.
pub fn default_branch(origin_head: Option<String>, branches: &Vec<String>) -> (r: Option<String>)
    ensures
        r.deep_view() == default_base(origin_head.deep_view(), branches.deep_view()),
{
    match origin_head {
        Some(h) => Some(h),
        None => if contains_str(branches, "main") {
            Some(String::from_str("main"))
        } else if contains_str(branches, "master") {
            Some(String::from_str("master"))
        } else {
            None
        },
    }
}

/// `ls` without any copy of `c`.
pub open spec fn without(ls: Seq<Seq<char>>, c: Seq<char>, n: int) -> Seq<Seq<char>>
    decreases n,
{
    if n <= 0 {
        Seq::empty()
    } else if ls[n - 1] == c {
        without(ls, c, n - 1)
    } else {
        without(ls, c, n - 1).push(ls[n - 1])
    }
}

/// The local branches in the order they are offered: the checked-out one
/// first, then the others in git's order.
pub open spec fn offered_branches(ls: Seq<Seq<char>>, current: Option<Seq<char>>) -> Seq<
    Seq<char>,
> {
    match current {
        Some(c) => if ls.contains(c) {
            seq![c] + without(ls, c, ls.len() as int)
        } else {
            ls
        },
        None => ls,
    }
}

/// What the Launcher knows about a repo, from what git printed: its root,
/// the checked-out branch, `git for-each-ref` over `refs/heads`, `git
/// worktree list --porcelain` and `git symbolic-ref refs/remotes/origin/HEAD`
/// (each `None` when git failed or printed nothing).
pub fn repo_info(
    root: String,
    current_branch: Option<String>,
    branch_list: Option<String>,
    worktree_list: Option<String>,
    origin_head: Option<String>,
) -> (r: RepoInfo)
    ensures
        r.root == root,
        r.current_branch == current_branch,
        r.branch_names() == offered_branches(
            match branch_list {
                Some(t) => lines(t@),
                None => Seq::empty(),
            },
            current_branch.deep_view(),
        ),
        r.worktrees.deep_view() == match worktree_list {
            Some(t) => parsed_worktrees(t@),
            None => Seq::empty(),
        },
        r.base.deep_view() == default_base(origin_head.deep_view(), r.branch_names()),
{
    let listed: Vec<String> = match &branch_list {
        Some(t) => lines_of(t.as_str()),
        None => Vec::new(),
    };
    let ghost ls = listed.deep_view();
    assert(ls =~= match branch_list {
        Some(t) => lines(t@),
        None => Seq::empty(),
    });
    let mut branches: Vec<String> = Vec::new();
    let found = match &current_branch {
        Some(c) => contains_str(&listed, c.as_str()),
        None => false,
    };
    match &current_branch {
        Some(c) => if found {
            branches.push(c.clone());
        },
        None => {},
    }
    let mut i: usize = 0;
    while i < listed.len()
        invariant
            i <= listed@.len(),
            ls == listed.deep_view(),
            branches.deep_view() == if found {
                seq![current_branch.deep_view().unwrap()] + without(
                    ls,
                    current_branch.deep_view().unwrap(),
                    i as int,
                )
            } else {
                ls.take(i as int)
            },
            found == match current_branch.deep_view() {
                Some(c) => ls.contains(c),
                None => false,
            },
        decreases listed.len() - i,
    {
        let ghost before = branches.deep_view();
        let skip = found && match &current_branch {
            Some(c) => str_eq(listed[i].as_str(), c.as_str()),
            None => false,
        };
        if !skip {
            branches.push(listed[i].clone());
            assert(branches.deep_view() =~= before.push(ls[i as int]));
        } else {
            assert(branches.deep_view() =~= before);
        }
        proof {
            if found {
                let c = current_branch.deep_view().unwrap();
                assert(skip == (ls[i as int] == c));
                if ls[i as int] == c {
                    assert(without(ls, c, i + 1) == without(ls, c, i as int));
                } else {
                    assert(without(ls, c, i + 1) == without(ls, c, i as int).push(ls[i as int]));
                }
            }
        }
        assert(ls[i as int] == listed@[i as int]@);
        assert(ls.take(i + 1) =~= ls.take(i as int).push(ls[i as int]));
        assert(branches.deep_view() =~= if found {
            seq![current_branch.deep_view().unwrap()] + without(
                ls,
                current_branch.deep_view().unwrap(),
                i + 1,
            )
        } else {
            ls.take(i + 1)
        });
        i = i + 1;
    }
    assert(ls.take(ls.len() as int) =~= ls);
    let worktrees = match &worktree_list {
        Some(t) => parse_worktrees(t.as_str()),
        None => Vec::new(),
    };
    assert(worktrees.deep_view() =~= match worktree_list {
        Some(t) => parsed_worktrees(t@),
        None => Seq::empty(),
    });
    let base = default_branch(origin_head, &branches);
    RepoInfo { root, current_branch, base, branches, worktrees }
}

} // verus!
