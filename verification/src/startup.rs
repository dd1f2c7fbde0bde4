//! What the Launcher gathers when it starts: zoxide's directories and the
//! harness names to preselect.

use vstd::prelude::*;

use crate::text::{lines, lines_of, trim, trim_str};

verus! {

/// The non-empty lines among the first `n` of `ls`.
pub open spec fn non_empty(ls: Seq<Seq<char>>, n: int) -> Seq<Seq<char>>
    decreases n,
{
    if n <= 0 {
        Seq::empty()
    } else if ls[n - 1].len() == 0 {
        non_empty(ls, n - 1)
    } else {
        non_empty(ls, n - 1).push(ls[n - 1])
    }
}

/// The directories `zoxide query --list` printed: its non-empty lines, in
/// zoxide's order.
pub fn zoxide_dirs_from(stdout: &str) -> (r: Vec<String>)
    ensures
        r.deep_view() == non_empty(lines(stdout@), lines(stdout@).len() as int),
{
    let ls = lines_of(stdout);
    let ghost want = lines(stdout@);
    let mut out: Vec<String> = Vec::new();
    let mut i: usize = 0;
    while i < ls.len()
        invariant
            i <= ls@.len(),
            ls@.len() == want.len(),
            want == lines(stdout@),
            forall|m: int| 0 <= m < ls@.len() ==> #[trigger] ls@[m]@ == want[m],
            out.deep_view() == non_empty(want, i as int),
        decreases ls.len() - i,
    {
        assert(ls@[i as int]@ == want[i as int]);
        if !ls[i].as_str().is_empty() {
            out.push(ls[i].clone());
        }
        assert(out.deep_view() =~= non_empty(want, i + 1));
        i = i + 1;
    }
    out
}

/// The harness names to preselect, in order: the one launched last (as
/// remembered, trimmed), then the configured default.
pub fn preferred_names(last_harness: Option<&str>, default_harness: Option<&str>) -> (r: Vec<
    String,
>)
    ensures
        r.deep_view() == match last_harness {
            Some(l) => seq![trim(l@)],
            None => Seq::<Seq<char>>::empty(),
        } + match default_harness {
            Some(d) => seq![d@],
            None => Seq::<Seq<char>>::empty(),
        },
{
    let mut out: Vec<String> = Vec::new();
    match last_harness {
        Some(l) => out.push(trim_str(l)),
        None => {},
    }
    match default_harness {
        Some(d) => out.push(String::from_str(d)),
        None => {},
    }
    assert(out.deep_view() =~= match last_harness {
        Some(l) => seq![trim(l@)],
        None => Seq::<Seq<char>>::empty(),
    } + match default_harness {
        Some(d) => seq![d@],
        None => Seq::<Seq<char>>::empty(),
    });
    out
}

/// The problems met at start-up, as one message: a configuration that could
/// not be read (the built-in harnesses are used instead) and a zoxide that
/// could not be run (a path can still be typed), joined by `; `.
pub open spec fn startup_spec(config_error: Option<Seq<char>>, zoxide_error: Option<Seq<char>>) -> Option<
    Seq<char>,
> {
    let c = match config_error {
        Some(e) => Some(e + "; using built-in harnesses"@),
        None => None,
    };
    let z = match zoxide_error {
        Some(e) => Some(e + "; type a /path instead"@),
        None => None,
    };
    match (c, z) {
        (Some(a), Some(b)) => Some(a + "; "@ + b),
        (Some(a), None) => Some(a),
        (None, Some(b)) => Some(b),
        (None, None) => None,
    }
}

/// The message to show when the form opens, if start-up met a problem.
pub fn startup_message(config_error: Option<String>, zoxide_error: Option<String>) -> (r: Option<
    String,
>)
    ensures
        r.deep_view() == startup_spec(config_error.deep_view(), zoxide_error.deep_view()),
{
    let c = match config_error {
        Some(e) => {
            let mut m = e;
            m.append("; using built-in harnesses");
            Some(m)
        },
        None => None,
    };
    let z = match zoxide_error {
        Some(e) => {
            let mut m = e;
            m.append("; type a /path instead");
            Some(m)
        },
        None => None,
    };
    match (c, z) {
        (Some(a), Some(b)) => {
            let mut m = a;
            m.append("; ");
            m.append(b.as_str());
            Some(m)
        },
        (Some(a), None) => Some(a),
        (None, Some(b)) => Some(b),
        (None, None) => None,
    }
}

/// What `zoxide query --list` gave: its directories when it exited
/// successfully; else a message saying it failed, with what it wrote on its
/// error output (trimmed), if anything.
pub fn zoxide_result(success: bool, stdout: &str, stderr: &str) -> (r: Result<Vec<String>, String>)
    ensures
        success ==> (r matches Ok(v) && v.deep_view() == non_empty(
            lines(stdout@),
            lines(stdout@).len() as int,
        )),
        !success ==> (r matches Err(m) && m@ == if trim(stderr@).len() == 0 {
            "zoxide query --list failed"@
        } else {
            "zoxide query --list failed"@ + ": "@ + trim(stderr@)
        }),
{
    if success {
        return Ok(zoxide_dirs_from(stdout));
    }
    let t = trim_str(stderr);
    let mut m = String::from_str("zoxide query --list failed");
    if !t.as_str().is_empty() {
        m.append(": ");
        m.append(t.as_str());
    }
    Err(m)
}

} // verus!
