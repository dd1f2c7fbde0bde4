//! Small fzf-style matcher for the directory picker.
//!
//! Space-separated terms must all match as subsequences. Matches score higher
//! when characters are consecutive, start a path segment, or land in the last
//! segment, so `herdr plug` prefers `~/src/herdr-plugin` over deep paths that
//! merely contain those letters.

use vstd::prelude::*;

use crate::text::{
    ascii_lower, chars_of, is_uppercase, scan_words, split_whitespace, to_ascii_lower,
    trim_end_char, trim_end_char_len, uppercase_char, words,
};
use crate::filter::has_upper;

verus! {

/// Characters after which a match counts as starting a path segment.
pub open spec fn is_separator(c: char) -> bool {
    c == '/' || c == '-' || c == '_' || c == '.' || c == ' '
}

/// A character as compared: itself in a case-sensitive term, else in ASCII lower case.
pub open spec fn fold(case_sensitive: bool, c: char) -> char {
    if case_sensitive {
        c
    } else {
        ascii_lower(c)
    }
}

/// Index of the last `ch` among the first `n` characters of `s`, or -1.
pub open spec fn last_index_of(s: Seq<char>, ch: char, n: int) -> int
    decreases n,
{
    if n <= 0 {
        -1
    } else if s[n - 1] == ch {
        n - 1
    } else {
        last_index_of(s, ch, n - 1)
    }
}

/// Where the last path segment of `candidate` starts (trailing slashes ignored).
pub open spec fn basename_start(candidate: Seq<char>) -> int {
    let t = trim_end_char(candidate, '/');
    last_index_of(t, '/', t.len() as int) + 1
}

/// First index at or after `from` whose folded character is `wanted`.
pub open spec fn first_from(c: Seq<char>, cs: bool, from: int, wanted: char) -> Option<int>
    decreases c.len() - from,
{
    if from < 0 || from >= c.len() {
        None
    } else if fold(cs, c[from]) == wanted {
        Some(from)
    } else {
        first_from(c, cs, from + 1, wanted)
    }
}

/// Points for matching a term character at `at`, after one matched at `prev`.
pub open spec fn gain(c: Seq<char>, base: int, prev: Option<int>, at: int) -> int {
    1 + match prev {
        Some(p) => if p + 1 == at {
            5int
        } else if at - p < 5 {
            -(at - p)
        } else {
            -5int
        },
        None => 0int,
    } + (if at == 0 || is_separator(c[at - 1]) {
        8int
    } else {
        0int
    }) + (if at >= base {
        2int
    } else {
        0int
    })
}

/// The greedy left-to-right match of the first `k` characters of `term` in
/// `c`: the next search position, the last matched position and the points so far.
pub open spec fn walk(term: Seq<char>, c: Seq<char>, cs: bool, k: int) -> Option<
    (int, Option<int>, int),
>
    decreases k,
{
    if k <= 0 {
        Some((0int, None, 0int))
    } else {
        match walk(term, c, cs, k - 1) {
            None => None,
            Some((pos, prev, total)) => match first_from(c, cs, pos, fold(cs, term[k - 1])) {
                None => None,
                Some(at) => Some((at + 1, Some(at), total + gain(c, basename_start(c), prev, at))),
            },
        }
    }
}

/// Score of one term against `candidate`, or `None` when its (folded)
/// characters do not occur in order.
pub open spec fn term_score(term: Seq<char>, candidate: Seq<char>) -> Option<int> {
    match walk(term, candidate, has_upper(term), term.len() as int) {
        Some((_, _, total)) => Some(total),
        None => None,
    }
}

/// Sum of the scores of the first `k` words of a query, `None` if one misses.
pub open spec fn words_score(ws: Seq<Seq<char>>, candidate: Seq<char>, k: int) -> Option<int>
    decreases k,
{
    if k <= 0 {
        Some(0int)
    } else {
        match (words_score(ws, candidate, k - 1), term_score(ws[k - 1], candidate)) {
            (Some(a), Some(b)) => Some(a + b),
            _ => None,
        }
    }
}

/// Score of `query` against `candidate`: the sum over its terms, or `None`.
pub open spec fn query_score(query: Seq<char>, candidate: Seq<char>) -> Option<int> {
    words_score(words(query), candidate, words(query).len() as int)
}

/// Sum of the lengths of the first `k` sequences in `ws`.
pub open spec fn total_len(ws: Seq<Seq<char>>, k: int) -> int
    decreases k,
{
    if k <= 0 {
        0
    } else {
        total_len(ws, k - 1) + ws[k - 1].len()
    }
}

proof fn lemma_total_len_push(ws: Seq<Seq<char>>, w: Seq<char>)
    ensures
        total_len(ws.push(w), (ws.len() + 1) as int) == total_len(ws, ws.len() as int) + w.len(),
{
    lemma_total_len_prefix(ws.push(w), ws, ws.len() as int);
}

proof fn lemma_total_len_prefix(a: Seq<Seq<char>>, b: Seq<Seq<char>>, k: int)
    requires
        0 <= k <= a.len(),
        k <= b.len(),
        forall|i: int| 0 <= i < k ==> a[i] == b[i],
    ensures
        total_len(a, k) == total_len(b, k),
    decreases k,
{
    if k > 0 {
        lemma_total_len_prefix(a, b, k - 1);
    }
}

proof fn lemma_scan_words_len(s: Seq<char>, i: int)
    requires
        0 <= i <= s.len(),
    ensures
        total_len(scan_words(s, i).0, scan_words(s, i).0.len() as int) + scan_words(s, i).1.len()
            <= i,
    decreases i,
{
    if i > 0 {
        lemma_scan_words_len(s, i - 1);
        let (done, cur) = scan_words(s, i - 1);
        if crate::text::is_space(s[i - 1]) && cur.len() > 0 {
            lemma_total_len_push(done, cur);
        }
    }
}

/// The words of a string are no longer in total than the string.
proof fn lemma_words_len(s: Seq<char>)
    ensures
        total_len(words(s), words(s).len() as int) <= s.len(),
{
    lemma_scan_words_len(s, s.len() as int);
    let (done, cur) = scan_words(s, s.len() as int);
    if cur.len() > 0 {
        lemma_total_len_push(done, cur);
    }
}

proof fn lemma_first_from(c: Seq<char>, cs: bool, from: int, wanted: char)
    requires
        from >= 0,
    ensures
        match first_from(c, cs, from, wanted) {
            Some(at) => from <= at < c.len() && fold(cs, c[at]) == wanted && forall|j: int|
                from <= j < at ==> fold(cs, #[trigger] c[j]) != wanted,
            None => forall|j: int| from <= j < c.len() ==> fold(cs, #[trigger] c[j]) != wanted,
        },
    decreases c.len() - from,
{
    if from < c.len() && fold(cs, c[from]) != wanted {
        lemma_first_from(c, cs, from + 1, wanted);
    }
}

/// Index of the first character at or after `from` that folds to `wanted`.
fn find_from(c: &[char], cs: bool, from: usize, wanted: char) -> (r: Option<usize>)
    requires
        from <= c@.len(),
    ensures
        match r {
            Some(at) => first_from(c@, cs, from as int, wanted) == Some(at as int),
            None => first_from(c@, cs, from as int, wanted) is None,
        },
{
    let mut j: usize = from;
    while j < c.len()
        invariant
            from <= j <= c@.len(),
            forall|m: int| from <= m < j ==> fold(cs, #[trigger] c@[m]) != wanted,
        decreases c.len() - j,
    {
        let x = if cs {
            c[j]
        } else {
            to_ascii_lower(c[j])
        };
        if x == wanted {
            proof {
                lemma_first_from(c@, cs, from as int, wanted);
                match first_from(c@, cs, from as int, wanted) {
                    Some(at) => {
                        if at < j {
                            assert(fold(cs, c@[at]) != wanted);
                        } else if at > j {
                            assert(fold(cs, c@[j as int]) != wanted);
                        }
                    },
                    None => {
                        assert(fold(cs, c@[j as int]) != wanted);
                    },
                }
            }
            return Some(j);
        }
        j = j + 1;
    }
    proof {
        lemma_first_from(c@, cs, from as int, wanted);
        match first_from(c@, cs, from as int, wanted) {
            Some(at) => {
                assert(fold(cs, c@[at]) != wanted);
            },
            None => {},
        }
    }
    None
}

proof fn lemma_last_index_of(s: Seq<char>, ch: char, n: int)
    requires
        0 <= n <= s.len(),
    ensures
        -1 <= last_index_of(s, ch, n) < n,
        last_index_of(s, ch, n) >= 0 ==> s[last_index_of(s, ch, n)] == ch,
        forall|j: int| last_index_of(s, ch, n) < j < n ==> #[trigger] s[j] != ch,
    decreases n,
{
    if n > 0 && s[n - 1] != ch {
        lemma_last_index_of(s, ch, n - 1);
    }
}

/// Where the last path segment of `c` starts.
fn basename_start_exec(c: &[char]) -> (r: usize)
    ensures
        r as int == basename_start(c@),
        r <= c@.len(),
{
    let n = trim_end_char_len(c, '/');
    let ghost t = c@.subrange(0, n as int);
    let mut j: usize = n;
    while j > 0 && c[j - 1] != '/'
        invariant
            j <= n <= c@.len(),
            t == c@.subrange(0, n as int),
            last_index_of(t, '/', n as int) == last_index_of(t, '/', j as int),
        decreases j,
    {
        assert(t[j - 1] == c@[j - 1]);
        j = j - 1;
    }
    if j > 0 {
        assert(t[j - 1] == c@[j - 1]);
    }
    j
}

/// Points for one term, or `None` when it does not match.
fn score_term(term: &[char], candidate: &[char]) -> (r: Option<i64>)
    requires
        16 * term@.len() <= i64::MAX,
    ensures
        match r {
            Some(s) => term_score(term@, candidate@) == Some(s as int),
            None => term_score(term@, candidate@) is None,
        },
        r matches Some(s) ==> -4 * term@.len() <= s <= 16 * term@.len(),
{
    // Smart case: an upper-case letter in the term makes it case-sensitive.
    let mut case_sensitive = false;
    let mut i: usize = 0;
    while i < term.len()
        invariant
            i <= term@.len(),
            case_sensitive == exists|k: int| 0 <= k < i && uppercase_char(term@[k]),
        decreases term.len() - i,
    {
        if is_uppercase(term[i]) {
            case_sensitive = true;
        }
        i = i + 1;
    }
    assert(case_sensitive == has_upper(term@));
    let ghost cs = case_sensitive;
    let base = basename_start_exec(candidate);
    let mut total: i64 = 0;
    let mut pos: usize = 0;
    let mut previous: Option<usize> = None;
    let mut k: usize = 0;
    while k < term.len()
        invariant
            cs == case_sensitive,
            cs == has_upper(term@),
            base as int == basename_start(candidate@),
            k <= term@.len(),
            16 * term@.len() <= i64::MAX,
            pos <= candidate@.len(),
            -4 * k <= total <= 16 * k,
            walk(term@, candidate@, cs, k as int) == Some(
                (
                    pos as int,
                    match previous {
                        Some(p) => Some(p as int),
                        None => None,
                    },
                    total as int,
                ),
            ),
            previous matches Some(p) ==> p < pos && pos == p + 1,
        decreases term.len() - k,
    {
        let wanted = if case_sensitive {
            term[k]
        } else {
            to_ascii_lower(term[k])
        };
        let found = find_from(candidate, case_sensitive, pos, wanted);
        let at = match found {
            Some(at) => at,
            None => {
                assert(walk(term@, candidate@, cs, k + 1) is None);
                proof {
                    lemma_walk_stays_none(term@, candidate@, cs, k + 1, term@.len() as int);
                }
                return None;
            },
        };
        proof {
            lemma_first_from(candidate@, cs, pos as int, wanted);
        }
        let ghost prev_spec = match previous {
            Some(p) => Some(p as int),
            None => None::<int>,
        };
        total = total + 1;
        match previous {
            Some(p) => {
                if p + 1 == at {
                    total = total + 5;
                } else if at - p < 5 {
                    total = total - ((at - p) as i64);
                } else {
                    total = total - 5;
                }
            },
            None => {},
        }
        if at == 0 || is_sep(candidate[at - 1]) {
            total = total + 8;
        }
        if at >= base {
            total = total + 2;
        }
        assert(total == walk(term@, candidate@, cs, k as int).unwrap().2 + gain(
            candidate@,
            basename_start(candidate@),
            prev_spec,
            at as int,
        ));
        previous = Some(at);
        pos = at + 1;
        k = k + 1;
    }
    Some(total)
}

proof fn lemma_walk_stays_none(term: Seq<char>, c: Seq<char>, cs: bool, k: int, n: int)
    requires
        0 <= k <= n,
        walk(term, c, cs, k) is None,
    ensures
        walk(term, c, cs, n) is None,
    decreases n - k,
{
    if k < n {
        lemma_walk_stays_none(term, c, cs, k + 1, n);
    }
}

/// Whether `c` is one of the path-segment separators.
fn is_sep(c: char) -> (r: bool)
    ensures
        r == is_separator(c),
{
    c == '/' || c == '-' || c == '_' || c == '.' || c == ' '
}

/// Score of `query` against `candidate`: every term must match as a
/// subsequence; higher is better.
pub fn score(query: &str, candidate: &str) -> (r: Option<i64>)
    requires
        16 * query@.len() <= i64::MAX,
    ensures
        match r {
            Some(s) => query_score(query@, candidate@) == Some(s as int),
            None => query_score(query@, candidate@) is None,
        },
{
    let q = chars_of(query);
    let c = chars_of(candidate);
    let terms = split_whitespace(q.as_slice());
    proof {
        lemma_words_len(query@);
    }
    let ghost ws = words(query@);
    let mut total: i64 = 0;
    let mut k: usize = 0;
    while k < terms.len()
        invariant
            ws == words(query@),
            c@ == candidate@,
            terms@.len() == ws.len(),
            forall|m: int| 0 <= m < terms@.len() ==> #[trigger] terms@[m]@ == ws[m],
            k <= terms@.len(),
            total_len(ws, ws.len() as int) <= query@.len(),
            16 * query@.len() <= i64::MAX,
            -4 * total_len(ws, k as int) <= total <= 16 * total_len(ws, k as int),
            words_score(ws, candidate@, k as int) == Some(total as int),
        decreases terms.len() - k,
    {
        let term = terms[k].as_slice();
        assert(term@ == ws[k as int]);
        proof {
            lemma_total_len_mono(ws, k + 1, ws.len() as int);
        }
        match score_term(term, c.as_slice()) {
            Some(s) => {
                total = total + s;
            },
            None => {
                proof {
                    lemma_words_score_stays_none(ws, candidate@, k + 1, ws.len() as int);
                }
                return None;
            },
        }
        k = k + 1;
    }
    Some(total)
}

proof fn lemma_total_len_mono(ws: Seq<Seq<char>>, k: int, n: int)
    requires
        0 <= k <= n <= ws.len(),
    ensures
        total_len(ws, k) <= total_len(ws, n),
    decreases n - k,
{
    if k < n {
        lemma_total_len_mono(ws, k, n - 1);
    }
}

proof fn lemma_words_score_stays_none(ws: Seq<Seq<char>>, c: Seq<char>, k: int, n: int)
    requires
        0 <= k <= n,
        words_score(ws, c, k) is None,
    ensures
        words_score(ws, c, n) is None,
    decreases n - k,
{
    if k < n {
        lemma_words_score_stays_none(ws, c, k, n - 1);
    }
}

/// `a` (score `sa`, index `ia`) ranks before `b`: a higher score, or the same
/// score and an earlier index.
pub open spec fn ranks_before(sa: int, ia: int, sb: int, ib: int) -> bool {
    sa > sb || (sa == sb && ia < ib)
}

/// The score of candidate `i`, for one that matches.
pub open spec fn score_at(query: Seq<char>, candidates: Seq<&str>, i: int) -> int {
    query_score(query, candidates[i]@).unwrap()
}

/// `r` holds exactly the indices of the candidates that match `query`, best
/// first, ties in input order.
pub open spec fn ranked(r: Seq<usize>, query: Seq<char>, candidates: Seq<&str>) -> bool {
    &&& forall|k: int|
        0 <= k < r.len() ==> r[k] < candidates.len() && query_score(
            query,
            candidates[r[k] as int]@,
        ) is Some
    &&& forall|i: int|
        0 <= i < candidates.len() && #[trigger] query_score(query, candidates[i]@) is Some
            ==> r.contains(i as usize)
    &&& forall|a: int, b: int|
        0 <= a < b < r.len() ==> ranks_before(
            score_at(query, candidates, r[a] as int),
            r[a] as int,
            score_at(query, candidates, r[b] as int),
            r[b] as int,
        )
}

/// Indices of `candidates` that match `query`, best first; ties keep input order.
pub fn filter(query: &str, candidates: &[&str]) -> (r: Vec<usize>)
    requires
        16 * query@.len() <= i64::MAX,
    ensures
        ranked(r@, query@, candidates@),
{
    let mut scored: Vec<(usize, i64)> = Vec::new();
    let mut i: usize = 0;
    while i < candidates.len()
        invariant
            i <= candidates@.len(),
            16 * query@.len() <= i64::MAX,
            forall|k: int|
                0 <= k < scored@.len() ==> scored@[k].0 < i && query_score(
                    query@,
                    candidates@[scored@[k].0 as int]@,
                ) == Some(scored@[k].1 as int),
            forall|j: int|
                0 <= j < i && #[trigger] query_score(query@, candidates@[j]@) is Some
                    ==> exists|k: int| 0 <= k < scored@.len() && scored@[k].0 == j,
            forall|a: int, b: int|
                0 <= a < b < scored@.len() ==> ranks_before(
                    scored@[a].1 as int,
                    scored@[a].0 as int,
                    scored@[b].1 as int,
                    scored@[b].0 as int,
                ),
        decreases candidates.len() - i,
    {
        let ghost before = scored@;
        match score(query, candidates[i]) {
            Some(s) => {
                let mut p: usize = 0;
                while p < scored.len() && scored[p].1 >= s
                    invariant
                        p <= scored@.len(),
                        scored@ == before,
                        forall|k: int| 0 <= k < p ==> scored@[k].1 >= s,
                    decreases scored.len() - p,
                {
                    p = p + 1;
                }
                scored.insert(p, (i, s));
                assert forall|a: int, b: int| 0 <= a < b < scored@.len() implies ranks_before(
                    scored@[a].1 as int,
                    scored@[a].0 as int,
                    scored@[b].1 as int,
                    scored@[b].0 as int,
                ) by {
                    if b < p {
                    } else if a > p {
                        assert(scored@[a] == before[a - 1]);
                        assert(scored@[b] == before[b - 1]);
                    } else if a == p {
                        assert(scored@[b] == before[b - 1]);
                        assert(p < before.len());
                        assert(before[p as int].1 < s);
                        if b - 1 > p {
                            assert(ranks_before(
                                before[p as int].1 as int,
                                before[p as int].0 as int,
                                before[b - 1].1 as int,
                                before[b - 1].0 as int,
                            ));
                        }
                    } else {
                        assert(scored@[a] == before[a]);
                        if b > p {
                            assert(scored@[b] == before[b - 1]);
                        }
                    }
                }
                assert forall|j: int|
                    0 <= j < i + 1 && #[trigger] query_score(query@, candidates@[j]@) is Some
                        implies exists|k: int| 0 <= k < scored@.len() && scored@[k].0 == j by {
                    if j == i {
                        assert(scored@[p as int].0 == j);
                    } else {
                        let w = choose|w: int| 0 <= w < before.len() && before[w].0 == j;
                        if w < p {
                            assert(scored@[w].0 == j);
                        } else {
                            assert(scored@[w + 1].0 == j);
                        }
                    }
                }
                assert forall|k: int| 0 <= k < scored@.len() implies scored@[k].0 < i + 1
                    && query_score(query@, candidates@[scored@[k].0 as int]@) == Some(
                    scored@[k].1 as int,
                ) by {
                    if k < p {
                        assert(scored@[k] == before[k]);
                    } else if k > p {
                        assert(scored@[k] == before[k - 1]);
                    }
                }
            },
            None => {},
        }
        i = i + 1;
    }
    let mut out: Vec<usize> = Vec::new();
    let mut k: usize = 0;
    while k < scored.len()
        invariant
            k <= scored@.len(),
            out@.len() == k,
            forall|m: int| 0 <= m < k ==> out@[m] == scored@[m].0,
        decreases scored.len() - k,
    {
        out.push(scored[k].0);
        k = k + 1;
    }
    assert forall|j: int|
        0 <= j < candidates@.len() && #[trigger] query_score(query@, candidates@[j]@) is Some
            implies out@.contains(j as usize) by {
        let w = choose|w: int| 0 <= w < scored@.len() && scored@[w].0 == j;
        assert(out@[w] == j as usize);
    }
    out
}

/// `f` places the first `k` characters of `term`, in order, on characters of
/// `c` that compare equal (folded as `cs` says).
pub open spec fn embedding(f: Seq<int>, term: Seq<char>, c: Seq<char>, cs: bool, k: int) -> bool {
    &&& f.len() == k
    &&& forall|a: int, b: int| 0 <= a < b < k ==> #[trigger] f[a] < #[trigger] f[b]
    &&& forall|j: int|
        0 <= j < k ==> 0 <= #[trigger] f[j] < c.len() && fold(cs, c[f[j]]) == fold(cs, term[j])
}

/// `term` occurs in `c` as a subsequence, compared as `cs` says.
pub open spec fn is_subsequence(term: Seq<char>, c: Seq<char>, cs: bool) -> bool {
    exists|f: Seq<int>| embedding(f, term, c, cs, term.len() as int)
}

/// The positions the greedy walk matched for the first `k` term characters.
pub open spec fn greedy(term: Seq<char>, c: Seq<char>, cs: bool, k: int) -> Seq<int>
    decreases k,
{
    if k <= 0 {
        Seq::empty()
    } else {
        match walk(term, c, cs, k) {
            Some((pos, _, _)) => greedy(term, c, cs, k - 1).push(pos - 1),
            None => Seq::empty(),
        }
    }
}

proof fn lemma_embedding_prefix(f: Seq<int>, term: Seq<char>, c: Seq<char>, cs: bool, k: int)
    requires
        k > 0,
        embedding(f, term, c, cs, k),
    ensures
        embedding(f.take(k - 1), term, c, cs, k - 1),
{
    let p = f.take(k - 1);
    assert forall|j: int| 0 <= j < k - 1 implies p[j] == f[j] by {}
    assert forall|a: int, b: int| 0 <= a < b < k - 1 implies p[a] < p[b] by {
        assert(p[a] == f[a] && p[b] == f[b]);
    }
    assert forall|j: int| 0 <= j < k - 1 implies 0 <= p[j] < c.len() && fold(cs, c[p[j]]) == fold(
        cs,
        term[j],
    ) by {
        assert(p[j] == f[j]);
    }
}

/// The greedy walk succeeds exactly when the prefix embeds, and it matches
/// each character as early as any embedding can.
proof fn lemma_greedy(term: Seq<char>, c: Seq<char>, cs: bool, k: int)
    requires
        0 <= k <= term.len(),
    ensures
        walk(term, c, cs, k) matches Some((pos, _, _)) ==> {
            &&& embedding(greedy(term, c, cs, k), term, c, cs, k)
            &&& (k == 0 ==> pos == 0)
            &&& (k > 0 ==> pos == greedy(term, c, cs, k)[k - 1] + 1)
            &&& forall|g: Seq<int>|
                #![trigger embedding(g, term, c, cs, k)]
                embedding(g, term, c, cs, k) && k > 0 ==> g[k - 1] >= greedy(term, c, cs, k)[k
                    - 1]
        },
        walk(term, c, cs, k) is None ==> forall|g: Seq<int>| !embedding(g, term, c, cs, k),
    decreases k,
{
    if k > 0 {
        lemma_greedy(term, c, cs, k - 1);
        match walk(term, c, cs, k - 1) {
            None => {
                assert forall|g: Seq<int>| !embedding(g, term, c, cs, k) by {
                    if embedding(g, term, c, cs, k) {
                        lemma_embedding_prefix(g, term, c, cs, k);
                    }
                }
            },
            Some((pos, prev, total)) => {
                let wanted = fold(cs, term[k - 1]);
                let gp = greedy(term, c, cs, k - 1);
                lemma_first_from(c, cs, pos, wanted);
                assert forall|g: Seq<int>| embedding(g, term, c, cs, k) implies g[k - 1] >= pos
                    && fold(cs, c[g[k - 1]]) == wanted by {
                    if k > 1 {
                        lemma_embedding_prefix(g, term, c, cs, k);
                        assert(embedding(g.take(k - 1), term, c, cs, k - 1));
                        assert(g.take(k - 1)[k - 2] >= gp[k - 2]);
                        assert(g[k - 2] < g[k - 1]);
                    }
                }
                match first_from(c, cs, pos, wanted) {
                    None => {
                        assert forall|g: Seq<int>| !embedding(g, term, c, cs, k) by {
                            if embedding(g, term, c, cs, k) {
                                assert(fold(cs, c[g[k - 1]]) == wanted);
                            }
                        }
                    },
                    Some(at) => {
                        let gk = greedy(term, c, cs, k);
                        assert(walk(term, c, cs, k) == Some(
                            (at + 1, Some(at), total + gain(c, basename_start(c), prev, at)),
                        ));
                        assert(gk == gp.push(at));
                        assert(k > 1 ==> pos == gp[k - 2] + 1);
                        assert(k == 1 ==> pos == 0);
                        assert forall|j: int| 0 <= j < k implies 0 <= gk[j] < c.len() && fold(
                            cs,
                            c[gk[j]],
                        ) == fold(cs, term[j]) by {
                            if j < k - 1 {
                                assert(gk[j] == gp[j]);
                            }
                        }
                        assert forall|a: int, b: int| 0 <= a < b < k implies gk[a] < gk[b] by {
                            if b == k - 1 && k > 1 {
                                assert(gk[a] <= gp[k - 2]);
                            }
                        }
                        assert forall|g: Seq<int>|
                            #![trigger embedding(g, term, c, cs, k)]
                            embedding(g, term, c, cs, k) && k > 0 implies g[k - 1] >= gk[k
                            - 1] by {
                            if g[k - 1] < at {
                                assert(fold(cs, c[g[k - 1]]) != wanted);
                            }
                        }
                    },
                }
            },
        }
    }
}

/// A term matches exactly when its characters occur in the candidate in
/// order (a subsequence), compared case-insensitively unless the term has
/// an upper-case letter.
pub proof fn term_matches_iff_subsequence(term: Seq<char>, candidate: Seq<char>)
    ensures
        term_score(term, candidate) is Some <==> is_subsequence(
            term,
            candidate,
            has_upper(term),
        ),
{
    let cs = has_upper(term);
    let n = term.len() as int;
    lemma_greedy(term, candidate, cs, n);
    if walk(term, candidate, cs, n) is Some {
        assert(embedding(greedy(term, candidate, cs, n), term, candidate, cs, n));
    }
}

proof fn lemma_words_score(ws: Seq<Seq<char>>, c: Seq<char>, k: int)
    requires
        0 <= k <= ws.len(),
    ensures
        words_score(ws, c, k) is Some <==> forall|j: int|
            0 <= j < k ==> #[trigger] term_score(ws[j], c) is Some,
    decreases k,
{
    if k > 0 {
        lemma_words_score(ws, c, k - 1);
    }
}

/// A query matches exactly when every one of its white-space-separated terms
/// occurs in the candidate as a subsequence (each compared
/// case-insensitively unless it has an upper-case letter).
pub proof fn query_matches_iff_every_term_is_subsequence(query: Seq<char>, candidate: Seq<char>)
    ensures
        query_score(query, candidate) is Some <==> forall|j: int|
            0 <= j < words(query).len() ==> is_subsequence(
                #[trigger] words(query)[j],
                candidate,
                has_upper(words(query)[j]),
            ),
{
    let ws = words(query);
    lemma_words_score(ws, candidate, ws.len() as int);
    assert forall|j: int| 0 <= j < ws.len() implies (term_score(ws[j], candidate) is Some
        <==> is_subsequence(ws[j], candidate, has_upper(ws[j]))) by {
        term_matches_iff_subsequence(ws[j], candidate);
    }
}

/// An empty (or blank) query matches every candidate with score 0, so all
/// of them come out in input order.
pub proof fn empty_query_keeps_everything(query: Seq<char>, candidates: Seq<&str>, r: Seq<usize>)
    requires
        words(query).len() == 0,
        candidates.len() <= usize::MAX,
        ranked(r, query, candidates),
    ensures
        r.len() == candidates.len(),
        forall|k: int| 0 <= k < r.len() ==> r[k] == k,
{
    assert forall|i: usize| i < candidates.len() implies #[trigger] r.contains(i) by {
        assert(query_score(query, candidates[i as int]@) is Some);
    }
    assert forall|a: int, b: int| 0 <= a < b < r.len() implies r[a] < r[b] by {
        assert(query_score(query, candidates[r[a] as int]@) == Some(0int));
        assert(query_score(query, candidates[r[b] as int]@) == Some(0int));
        assert(ranks_before(
            score_at(query, candidates, r[a] as int),
            r[a] as int,
            score_at(query, candidates, r[b] as int),
            r[b] as int,
        ));
    }
    crate::filter::lemma_all_indices(r, candidates.len() as int);
}

proof fn lemma_words_score_prefix(ws: Seq<Seq<char>>, vs: Seq<Seq<char>>, c: Seq<char>, k: int)
    requires
        0 <= k <= ws.len(),
        k <= vs.len(),
        forall|j: int| 0 <= j < k ==> ws[j] == vs[j],
    ensures
        words_score(ws, c, k) == words_score(vs, c, k),
    decreases k,
{
    if k > 0 {
        lemma_words_score_prefix(ws, vs, c, k - 1);
    }
}

proof fn lemma_words_score_concat(w1: Seq<Seq<char>>, w2: Seq<Seq<char>>, c: Seq<char>, k: int)
    requires
        0 <= k <= w2.len(),
    ensures
        words_score(w1 + w2, c, w1.len() + k) == match (
            words_score(w1, c, w1.len() as int),
            words_score(w2, c, k),
        ) {
            (Some(a), Some(b)) => Some(a + b),
            _ => None,
        },
    decreases k,
{
    let ws = w1 + w2;
    if k == 0 {
        lemma_words_score_prefix(ws, w1, c, w1.len() as int);
    } else {
        lemma_words_score_concat(w1, w2, c, k - 1);
        assert(ws[w1.len() + k - 1] == w2[k - 1]);
    }
}

/// The score of two queries joined by a space is the sum of their scores,
/// or `None` when either does not match.
pub proof fn joined_query_scores_the_sum(q1: Seq<char>, q2: Seq<char>, candidate: Seq<char>)
    ensures
        query_score(q1 + seq![' '] + q2, candidate) == match (
            query_score(q1, candidate),
            query_score(q2, candidate),
        ) {
            (Some(a), Some(b)) => Some(a + b),
            _ => None,
        },
{
    crate::text::lemma_words_joined(q1, q2);
    lemma_words_score_concat(words(q1), words(q2), candidate, words(q2).len() as int);
}

} // verus!
