//! The harness list: built-ins, merged with the user's configured entries.

use vstd::prelude::*;

use crate::text::{
    ascii_lower, chars_of, eq_ignore_ascii_case, eq_ignore_case, is_space, is_whitespace, lemma_first_word,
    trim, trim_str, words,
};
use vstd::string::StrSliceExecFns;

verus! {

/// A coding-agent CLI the Launcher can start in the new workspace.
/// An empty `command` is the plain Shell harness.
#[derive(Debug, Clone, PartialEq, Eq)]
pub struct Harness {
    pub name: String,
    pub command: String,
}

impl Harness {
    fn new(name: &str, command: &str) -> (r: Harness)
        ensures
            r.name@ == name@,
            r.command@ == command@,
    {
        Harness { name: String::from_str(name), command: String::from_str(command) }
    }

    /// A field-for-field copy.
    pub(crate) fn copy(&self) -> (r: Harness)
        ensures
            r == *self,
    {
        Harness { name: self.name.clone(), command: self.command.clone() }
    }

    /// The executable that must be on PATH for this harness: the first word of
    /// its command, if it has one.
    pub open spec fn program_spec(&self) -> Option<Seq<char>> {
        if words(self.command@).len() > 0 {
            Some(words(self.command@)[0])
        } else {
            None
        }
    }

    /// The executable that must be on PATH for this harness to be available.
    pub fn program(&self) -> (r: Option<&str>)
        ensures
            match r {
                Some(p) => self.program_spec() == Some(p@),
                None => self.program_spec() is None,
            },
    {
        let cs = chars_of(self.command.as_str());
        let mut i: usize = 0;
        while i < cs.len() && is_whitespace(cs[i])
            invariant
                cs@ == self.command@,
                i <= cs@.len(),
                forall|m: int| 0 <= m < i ==> is_space(#[trigger] cs@[m]),
            decreases cs.len() - i,
        {
            i = i + 1;
        }
        let mut j: usize = i;
        while j < cs.len() && !is_whitespace(cs[j])
            invariant
                cs@ == self.command@,
                i <= j <= cs@.len(),
                forall|m: int| i <= m < j ==> !is_space(#[trigger] cs@[m]),
            decreases cs.len() - j,
        {
            j = j + 1;
        }
        proof {
            lemma_first_word(cs@, i as int, j as int);
        }
        if i < cs.len() {
            Some(self.command.as_str().substring_char(i, j))
        } else {
            None
        }
    }
}

/// The harnesses offered when nothing is configured, Shell last.
pub fn builtin_harnesses() -> (r: Vec<Harness>)
    ensures
        harness_views(r@) == builtin_views(),
{
    let mut v: Vec<Harness> = Vec::new();
    v.push(Harness::new("Opencode", "opencode"));
    v.push(Harness::new("Codex", "codex"));
    v.push(Harness::new("pi", "pi"));
    v.push(Harness::new("omp", "omp"));
    v.push(Harness::new("Shell", ""));
    assert(harness_views(v@) =~= builtin_views());
    v
}

/// A harness as its name and command.
pub open spec fn harness_view(h: Harness) -> (Seq<char>, Seq<char>) {
    (h.name@, h.command@)
}

/// The harness list as names and commands.
pub open spec fn harness_views(hs: Seq<Harness>) -> Seq<(Seq<char>, Seq<char>)> {
    hs.map_values(|h: Harness| harness_view(h))
}

/// The name of the harness that always stays last.
pub open spec fn shell_name() -> Seq<char> {
    "Shell"@
}

/// The first harness among the first `n` whose name is `name`, ASCII case ignored.
pub open spec fn position_named(hs: Seq<(Seq<char>, Seq<char>)>, name: Seq<char>, n: int) -> Option<
    int,
>
    decreases n,
{
    if n <= 0 {
        None
    } else {
        match position_named(hs, name, n - 1) {
            Some(i) => Some(i),
            None => if eq_ignore_case(hs[n - 1].0, name) {
                Some(n - 1)
            } else {
                None
            },
        }
    }
}

/// The first harness among the first `n` named `Shell`, ASCII case ignored.
pub open spec fn position_of_shell(hs: Seq<(Seq<char>, Seq<char>)>, n: int) -> Option<int>
    decreases n,
{
    if n <= 0 {
        None
    } else {
        match position_of_shell(hs, n - 1) {
            Some(i) => Some(i),
            None => if eq_ignore_case(hs[n - 1].0, shell_name()) {
                Some(n - 1)
            } else {
                None
            },
        }
    }
}

/// One configured entry applied to the list: it replaces the harness of the
/// same name (ASCII case ignored), or goes in before Shell (at the end when
/// there is no Shell). Name and command are trimmed.
pub open spec fn add_entry(hs: Seq<(Seq<char>, Seq<char>)>, entry: (Seq<char>, Seq<char>)) -> Seq<
    (Seq<char>, Seq<char>),
> {
    let h = (trim(entry.0), trim(entry.1));
    match position_named(hs, h.0, hs.len() as int) {
        Some(i) => hs.update(i, h),
        None => {
            let at = match position_of_shell(hs, hs.len() as int) {
                Some(j) => j,
                None => hs.len() as int,
            };
            hs.insert(at, h)
        },
    }
}

/// The first `k` configured entries applied in order to `hs`.
pub open spec fn merged(
    hs: Seq<(Seq<char>, Seq<char>)>,
    entries: Seq<(Seq<char>, Seq<char>)>,
    k: int,
) -> Seq<(Seq<char>, Seq<char>)>
    decreases k,
{
    if k <= 0 {
        hs
    } else {
        add_entry(merged(hs, entries, k - 1), entries[k - 1])
    }
}

/// The built-in harnesses, as names and commands.
pub open spec fn builtin_views() -> Seq<(Seq<char>, Seq<char>)> {
    seq![
        ("Opencode"@, "opencode"@),
        ("Codex"@, "codex"@),
        ("pi"@, "pi"@),
        ("omp"@, "omp"@),
        ("Shell"@, ""@),
    ]
}

/// The harness list and the default to preselect when nothing was used before.
#[derive(Debug, Clone)]
pub struct Config {
    pub default_harness: Option<String>,
    pub harnesses: Vec<Harness>,
}

proof fn lemma_position_named(hs: Seq<(Seq<char>, Seq<char>)>, name: Seq<char>, n: int)
    requires
        0 <= n <= hs.len(),
    ensures
        match position_named(hs, name, n) {
            Some(i) => 0 <= i < n && eq_ignore_case(hs[i].0, name),
            None => forall|j: int| 0 <= j < n ==> !eq_ignore_case(#[trigger] hs[j].0, name),
        },
    decreases n,
{
    if n > 0 {
        lemma_position_named(hs, name, n - 1);
    }
}

proof fn lemma_position_of_shell(hs: Seq<(Seq<char>, Seq<char>)>, n: int)
    requires
        0 <= n <= hs.len(),
    ensures
        match position_of_shell(hs, n) {
            Some(i) => 0 <= i < n && eq_ignore_case(hs[i].0, shell_name()),
            None => forall|j: int| 0 <= j < n ==> !eq_ignore_case(#[trigger] hs[j].0, shell_name()),
        },
    decreases n,
{
    if n > 0 {
        lemma_position_of_shell(hs, n - 1);
    }
}

proof fn lemma_position_stable_named(hs: Seq<(Seq<char>, Seq<char>)>, name: Seq<char>, k: int, n: int)
    requires
        0 <= k <= n,
        position_named(hs, name, k) is Some,
    ensures
        position_named(hs, name, n) == position_named(hs, name, k),
    decreases n - k,
{
    if k < n {
        lemma_position_stable_named(hs, name, k, n - 1);
    }
}

proof fn lemma_position_stable_shell(hs: Seq<(Seq<char>, Seq<char>)>, k: int, n: int)
    requires
        0 <= k <= n,
        position_of_shell(hs, k) is Some,
    ensures
        position_of_shell(hs, n) == position_of_shell(hs, k),
    decreases n - k,
{
    if k < n {
        lemma_position_stable_shell(hs, k, n - 1);
    }
}

/// Applies one configured entry to the harness list.
fn add_harness(hs: &mut Vec<Harness>, name: &str, command: &str)
    ensures
        harness_views(final(hs)@) == add_entry(harness_views(old(hs)@), (name@, command@)),
{
    let ghost v = harness_views(hs@);
    let harness = Harness::new(trim_str(name).as_str(), trim_str(command).as_str());
    let ghost h = (trim(name@), trim(command@));
    assert(harness_view(harness) == h);
    let mut i: usize = 0;
    while i < hs.len()
        invariant
            i <= hs@.len(),
            v == harness_views(hs@),
            v.len() == hs@.len(),
            position_named(v, h.0, i as int) is None,
            harness_view(harness) == h,
            h == (trim(name@), trim(command@)),
            hs@ == old(hs)@,
        decreases hs.len() - i,
    {
        if eq_ignore_ascii_case(hs[i].name.as_str(), harness.name.as_str()) {
            assert(v[i as int].0 == hs@[i as int].name@);
            assert(position_named(v, h.0, i + 1) == Some(i as int));
            proof {
                lemma_position_stable_named(v, h.0, i + 1, v.len() as int);
            }
            assert(position_named(v, h.0, v.len() as int) == Some(i as int));
            assert(add_entry(v, (name@, command@)) == v.update(i as int, h));
            hs.set(i, harness);
            assert(harness_views(hs@) =~= v.update(i as int, h));
            return;
        }
        assert(v[i as int].0 == hs@[i as int].name@);
        i = i + 1;
    }
    let mut j: usize = 0;
    while j < hs.len() && !eq_ignore_ascii_case(hs[j].name.as_str(), "Shell")
        invariant
            j <= hs@.len(),
            v == harness_views(hs@),
            v.len() == hs@.len(),
            position_of_shell(v, j as int) is None,
        decreases hs.len() - j,
    {
        assert(v[j as int].0 == hs@[j as int].name@);
        j = j + 1;
    }
    if j < hs.len() {
        assert(v[j as int].0 == hs@[j as int].name@);
        assert(position_of_shell(v, j + 1) == Some(j as int));
        proof {
            lemma_position_stable_shell(v, j + 1, v.len() as int);
        }
    }
    let at = j;
    assert(at as int == match position_of_shell(v, v.len() as int) {
        Some(p) => p,
        None => v.len() as int,
    });
    hs.insert(at, harness);
    assert(harness_views(hs@) =~= v.insert(at as int, h));
}

impl Config {
    /// The configuration from the file's `default_harness` and its
    /// `[[harnesses]]` entries (name, command): configured harnesses replace a
    /// built-in of the same name (ASCII case ignored) or are added before
    /// Shell, which stays last.
    pub fn from_entries(default_harness: Option<String>, entries: Vec<(String, String)>) -> (r:
        Config)
        ensures
            r.default_harness == default_harness,
            harness_views(r.harnesses@) == merged(
                builtin_views(),
                entries.deep_view(),
                entries@.len() as int,
            ),
    {
        let mut harnesses = builtin_harnesses();
        let mut k: usize = 0;
        while k < entries.len()
            invariant
                k <= entries@.len(),
                harness_views(harnesses@) == merged(builtin_views(), entries.deep_view(), k as int),
            decreases entries.len() - k,
        {
            let (name, command) = &entries[k];
            add_harness(&mut harnesses, name.as_str(), command.as_str());
            assert(entries.deep_view()[k as int] == (name@, command@));
            k = k + 1;
        }
        Config { default_harness, harnesses }
    }
}

/// Shell is the last harness and the only one named `Shell` (ASCII case
/// ignored).
pub open spec fn shell_last(hs: Seq<(Seq<char>, Seq<char>)>) -> bool {
    &&& hs.len() > 0
    &&& eq_ignore_case(hs.last().0, shell_name())
    &&& forall|i: int| 0 <= i < hs.len() - 1 ==> !eq_ignore_case(#[trigger] hs[i].0, shell_name())
}

/// Names equal ignoring ASCII case are so both ways round and in chains.
proof fn lemma_eq_ignore_case(a: Seq<char>, b: Seq<char>, c: Seq<char>)
    ensures
        eq_ignore_case(a, b) ==> eq_ignore_case(b, a),
        eq_ignore_case(a, b) && eq_ignore_case(b, c) ==> eq_ignore_case(a, c),
{
}

proof fn lemma_add_entry_keeps_shell_last(
    hs: Seq<(Seq<char>, Seq<char>)>,
    entry: (Seq<char>, Seq<char>),
)
    requires
        shell_last(hs),
    ensures
        shell_last(add_entry(hs, entry)),
{
    let h = (trim(entry.0), trim(entry.1));
    let n = hs.len() as int;
    lemma_position_named(hs, h.0, n);
    lemma_position_of_shell(hs, n);
    match position_named(hs, h.0, n) {
        Some(i) => {
            let r = hs.update(i, h);
            if i == n - 1 {
                lemma_eq_ignore_case(hs[n - 1].0, h.0, shell_name());
                lemma_eq_ignore_case(h.0, hs[n - 1].0, shell_name());
            } else {
                lemma_eq_ignore_case(hs[i].0, h.0, shell_name());
                lemma_eq_ignore_case(h.0, hs[i].0, shell_name());
                assert(!eq_ignore_case(hs[i].0, shell_name()));
            }
            assert forall|j: int| 0 <= j < r.len() - 1 implies !eq_ignore_case(
                #[trigger] r[j].0,
                shell_name(),
            ) by {
                if j != i {
                    assert(r[j] == hs[j]);
                }
            }
        },
        None => {
            lemma_eq_ignore_case(h.0, hs[n - 1].0, shell_name());
            assert(!eq_ignore_case(h.0, hs[n - 1].0));
            assert(!eq_ignore_case(h.0, shell_name())) by {
                if eq_ignore_case(h.0, shell_name()) {
                    lemma_eq_ignore_case(shell_name(), hs[n - 1].0, h.0);
                    lemma_eq_ignore_case(hs[n - 1].0, shell_name(), h.0);
                }
            }
            assert(position_of_shell(hs, n) == Some(n - 1)) by {
                if position_of_shell(hs, n) is None {
                    assert(!eq_ignore_case(hs[n - 1].0, shell_name()));
                }
            }
            let r = hs.insert(n - 1, h);
            assert(r.last() == hs.last());
            assert forall|j: int| 0 <= j < r.len() - 1 implies !eq_ignore_case(
                #[trigger] r[j].0,
                shell_name(),
            ) by {
                if j < n - 1 {
                    assert(r[j] == hs[j]);
                }
            }
        },
    }
}

/// Shell always stays last: whatever the configured entries, the merged
/// list ends with the harness named Shell (ASCII case ignored) and no other
/// harness has that name.
pub proof fn shell_stays_last(entries: Seq<(Seq<char>, Seq<char>)>, k: int)
    requires
        0 <= k <= entries.len(),
    ensures
        shell_last(merged(builtin_views(), entries, k)),
    decreases k,
{
    if k == 0 {
        reveal_strlit("Shell");
        reveal_strlit("Opencode");
        reveal_strlit("Codex");
        reveal_strlit("pi");
        reveal_strlit("omp");
        reveal_strlit("");
        let b = builtin_views();
        assert(!eq_ignore_case(b[0].0, shell_name())) by {
            assert(b[0].0.len() != shell_name().len());
        }
        assert(!eq_ignore_case(b[1].0, shell_name())) by {
            assert(ascii_lower(b[1].0[0]) != ascii_lower(shell_name()[0]));
        }
        assert(!eq_ignore_case(b[2].0, shell_name())) by {
            assert(b[2].0.len() != shell_name().len());
        }
        assert(!eq_ignore_case(b[3].0, shell_name())) by {
            assert(b[3].0.len() != shell_name().len());
        }
        assert(b.last().0 == shell_name());
    } else {
        shell_stays_last(entries, k - 1);
        lemma_add_entry_keeps_shell_last(merged(builtin_views(), entries, k - 1), entries[k - 1]);
    }
}

proof fn lemma_add_entry_adds(hs: Seq<(Seq<char>, Seq<char>)>, entry: (Seq<char>, Seq<char>))
    ensures
        add_entry(hs, entry).contains((trim(entry.0), trim(entry.1))),
{
    let h = (trim(entry.0), trim(entry.1));
    let n = hs.len() as int;
    lemma_position_named(hs, h.0, n);
    lemma_position_of_shell(hs, n);
    match position_named(hs, h.0, n) {
        Some(i) => {
            assert(add_entry(hs, entry)[i] == h);
        },
        None => {
            let at = match position_of_shell(hs, n) {
                Some(j) => j,
                None => n,
            };
            assert(add_entry(hs, entry)[at] == h);
        },
    }
}

proof fn lemma_add_entry_keeps(
    hs: Seq<(Seq<char>, Seq<char>)>,
    x: (Seq<char>, Seq<char>),
    entry: (Seq<char>, Seq<char>),
)
    requires
        hs.contains(x),
        !eq_ignore_case(x.0, trim(entry.0)),
    ensures
        add_entry(hs, entry).contains(x),
{
    let h = (trim(entry.0), trim(entry.1));
    let n = hs.len() as int;
    lemma_position_named(hs, h.0, n);
    lemma_position_of_shell(hs, n);
    let p = choose|p: int| 0 <= p < hs.len() && hs[p] == x;
    match position_named(hs, h.0, n) {
        Some(i) => {
            assert(i != p);
            assert(add_entry(hs, entry)[p] == x);
        },
        None => {
            let at = match position_of_shell(hs, n) {
                Some(j) => j,
                None => n,
            };
            if p < at {
                assert(add_entry(hs, entry)[p] == x);
            } else {
                assert(add_entry(hs, entry)[p + 1] == x);
            }
        },
    }
}

proof fn lemma_merged_keeps(
    hs: Seq<(Seq<char>, Seq<char>)>,
    entries: Seq<(Seq<char>, Seq<char>)>,
    x: (Seq<char>, Seq<char>),
    k: int,
    n: int,
)
    requires
        0 <= k <= n <= entries.len(),
        merged(hs, entries, k).contains(x),
        forall|j: int| k <= j < n ==> !eq_ignore_case(x.0, trim(#[trigger] entries[j].0)),
    ensures
        merged(hs, entries, n).contains(x),
    decreases n - k,
{
    if k < n {
        lemma_merged_keeps(hs, entries, x, k, n - 1);
        lemma_add_entry_keeps(merged(hs, entries, n - 1), x, entries[n - 1]);
    }
}

/// A configured entry ends up in the list, name and command trimmed, unless
/// a later entry has the same name (ASCII case ignored).
pub proof fn configured_entry_is_kept(entries: Seq<(Seq<char>, Seq<char>)>, k: int)
    requires
        0 <= k < entries.len(),
        forall|j: int|
            k < j < entries.len() ==> !eq_ignore_case(
                trim(entries[k].0),
                trim(#[trigger] entries[j].0),
            ),
    ensures
        merged(builtin_views(), entries, entries.len() as int).contains(
            (trim(entries[k].0), trim(entries[k].1)),
        ),
{
    lemma_add_entry_adds(merged(builtin_views(), entries, k), entries[k]);
    lemma_merged_keeps(
        builtin_views(),
        entries,
        (trim(entries[k].0), trim(entries[k].1)),
        k + 1,
        entries.len() as int,
    );
}

/// A built-in harness that no configured entry names (ASCII case ignored)
/// stays in the list as it is.
pub proof fn unnamed_builtin_is_kept(entries: Seq<(Seq<char>, Seq<char>)>, b: int)
    requires
        0 <= b < builtin_views().len(),
        forall|j: int|
            0 <= j < entries.len() ==> !eq_ignore_case(
                builtin_views()[b].0,
                trim(#[trigger] entries[j].0),
            ),
    ensures
        merged(builtin_views(), entries, entries.len() as int).contains(builtin_views()[b]),
{
    assert(merged(builtin_views(), entries, 0) == builtin_views());
    assert(builtin_views()[b] == builtin_views()[b]);
    lemma_merged_keeps(builtin_views(), entries, builtin_views()[b], 0, entries.len() as int);
}

} // verus!
