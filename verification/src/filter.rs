//! Directory filter matching `zoxide query -i`, which runs fzf with
//! `--exact --no-sort`: every space-separated term must appear as a substring,
//! and matches keep zoxide's frecency order rather than being re-ranked.

use vstd::prelude::*;

use crate::text::{
    chars_of, contains_seq, has_substring, is_uppercase, lowercase, split_whitespace,
    to_lowercase, uppercase_char, words, lemma_words_joined,
};

verus! {

/// `r` lists, in increasing order, exactly the indices of the candidates
/// that match `query`.
pub open spec fn lists_matches(r: Seq<usize>, query: Seq<char>, candidates: Seq<&str>) -> bool {
    &&& forall|a: int, b: int| 0 <= a < b < r.len() ==> r[a] < r[b]
    &&& forall|k: int|
        0 <= k < r.len() ==> r[k] < candidates.len() && query_matches(
            query,
            candidates[r[k] as int]@,
        )
    &&& forall|i: int|
        0 <= i < candidates.len() && #[trigger] query_matches(query, candidates[i]@)
            ==> r.contains(i as usize)
}

/// Some character of `term` is upper case, which makes it case-sensitive.
pub open spec fn has_upper(term: Seq<char>) -> bool {
    exists|i: int| 0 <= i < term.len() && uppercase_char(term[i])
}

/// One term matches: a case-sensitive term as a substring of `candidate`, any
/// other as a substring of `candidate` in lower case.
pub open spec fn term_matches(term: Seq<char>, candidate: Seq<char>) -> bool {
    if has_upper(term) {
        has_substring(candidate, term)
    } else {
        has_substring(lowercase(candidate), term)
    }
}

/// Every white-space-separated term of `query` matches `candidate`.
pub open spec fn query_matches(query: Seq<char>, candidate: Seq<char>) -> bool {
    forall|k: int| 0 <= k < words(query).len() ==> term_matches(#[trigger] words(query)[k], candidate)
}

/// Whether some character of `cs` is upper case.
fn any_upper(cs: &[char]) -> (r: bool)
    ensures
        r == has_upper(cs@),
{
    let mut i: usize = 0;
    while i < cs.len()
        invariant
            i <= cs@.len(),
            forall|k: int| 0 <= k < i ==> !uppercase_char(cs@[k]),
        decreases cs.len() - i,
    {
        if is_uppercase(cs[i]) {
            return true;
        }
        i = i + 1;
    }
    false
}

/// Whether every term of `query` appears in `candidate` (smart case, like fzf:
/// an upper-case letter makes a term case-sensitive).
pub fn matches(query: &str, candidate: &str) -> (r: bool)
    ensures
        r == query_matches(query@, candidate@),
{
    let folded = chars_of(to_lowercase(candidate).as_str());
    let plain = chars_of(candidate);
    let q = chars_of(query);
    let terms = split_whitespace(q.as_slice());
    let mut k: usize = 0;
    while k < terms.len()
        invariant
            k <= terms@.len(),
            terms@.len() == words(query@).len(),
            forall|m: int| 0 <= m < terms@.len() ==> #[trigger] terms@[m]@ == words(query@)[m],
            folded@ == lowercase(candidate@),
            plain@ == candidate@,
            forall|m: int| 0 <= m < k ==> term_matches(#[trigger] words(query@)[m], candidate@),
        decreases terms.len() - k,
    {
        let term = terms[k].as_slice();
        assert(term@ == words(query@)[k as int]);
        let ok = if any_upper(term) {
            contains_seq(plain.as_slice(), term)
        } else {
            contains_seq(folded.as_slice(), term)
        };
        if !ok {
            return false;
        }
        k = k + 1;
    }
    true
}

/// Indices of `candidates` that match `query`, in their original order.
pub fn filter(query: &str, candidates: &[&str]) -> (r: Vec<usize>)
    ensures
        lists_matches(r@, query@, candidates@),
{
    let mut out: Vec<usize> = Vec::new();
    let mut i: usize = 0;
    while i < candidates.len()
        invariant
            i <= candidates@.len(),
            forall|a: int, b: int| 0 <= a < b < out@.len() ==> out@[a] < out@[b],
            forall|k: int|
                0 <= k < out@.len() ==> out@[k] < i && query_matches(
                    query@,
                    candidates@[out@[k] as int]@,
                ),
            forall|j: int|
                0 <= j < i && query_matches(query@, candidates@[j]@) ==> out@.contains(
                    j as usize,
                ),
        decreases candidates.len() - i,
    {
        let ghost before = out@;
        if matches(query, candidates[i]) {
            out.push(i);
            assert(out@[out@.len() - 1] == i);
        }
        assert forall|j: int|
            0 <= j < i + 1 && query_matches(query@, candidates@[j]@) implies out@.contains(
            j as usize,
        ) by {
            if j < i {
                let w = choose|w: int| 0 <= w < before.len() && before[w] == j as usize;
                assert(out@[w] == j as usize);
            }
        }
        i = i + 1;
    }
    out
}

/// A strictly increasing list of indices below `n` that holds every one of
/// them is `0, 1, …, n - 1`.
pub proof fn lemma_all_indices(r: Seq<usize>, n: int)
    requires
        0 <= n <= usize::MAX,
        forall|a: int, b: int| 0 <= a < b < r.len() ==> r[a] < r[b],
        forall|k: int| 0 <= k < r.len() ==> r[k] < n,
        forall|i: usize| i < n ==> #[trigger] r.contains(i),
    ensures
        r.len() == n,
        forall|k: int| 0 <= k < r.len() ==> r[k] == k,
{
    assert forall|k: int| 0 <= k < r.len() implies r[k] >= k by {
        lemma_increasing_lower_bound(r, k);
    }
    lemma_identity_prefix(r, n, r.len() as int);
    if r.len() < n {
        assert(r.contains((n - 1) as usize));
        let w = choose|w: int| 0 <= w < r.len() && r[w] == (n - 1) as usize;
        assert(r[w] == w);
    }
    if r.len() > n {
        assert(r[n] >= n);
    }
}

proof fn lemma_increasing_lower_bound(r: Seq<usize>, k: int)
    requires
        forall|a: int, b: int| 0 <= a < b < r.len() ==> r[a] < r[b],
        0 <= k < r.len(),
    ensures
        r[k] >= k,
    decreases k,
{
    if k > 0 {
        lemma_increasing_lower_bound(r, k - 1);
        assert(r[k - 1] < r[k]);
    }
}

proof fn lemma_identity_prefix(r: Seq<usize>, n: int, k: int)
    requires
        0 <= n <= usize::MAX,
        0 <= k <= r.len(),
        forall|a: int, b: int| 0 <= a < b < r.len() ==> r[a] < r[b],
        forall|j: int| 0 <= j < r.len() ==> r[j] < n,
        forall|j: int| 0 <= j < r.len() ==> r[j] >= j,
        forall|i: usize| i < n ==> #[trigger] r.contains(i),
    ensures
        forall|j: int| 0 <= j < k ==> r[j] == j,
    decreases k,
{
    if k > 0 {
        lemma_identity_prefix(r, n, k - 1);
        let j = k - 1;
        if r[j] != j {
            assert(r[j] > j);
            assert(j < n);
            assert(r.contains(j as usize));
            let w = choose|w: int| 0 <= w < r.len() && r[w] == j as usize;
            if w < j {
                assert(r[w] == w);
            } else if w > j {
                assert(r[j] < r[w]);
            }
        }
    }
}

/// An empty (or blank) query matches every candidate, in order.
pub proof fn empty_query_keeps_everything(query: Seq<char>, candidates: Seq<&str>, r: Seq<usize>)
    requires
        words(query).len() == 0,
        candidates.len() <= usize::MAX,
        lists_matches(r, query, candidates),
    ensures
        r.len() == candidates.len(),
        forall|k: int| 0 <= k < r.len() ==> r[k] == k,
{
    assert forall|i: usize| i < candidates.len() implies #[trigger] r.contains(i) by {
        assert(query_matches(query, candidates[i as int]@));
    }
    lemma_all_indices(r, candidates.len() as int);
}

/// More terms only narrow the matches: when every term of `wide` is also a
/// term of `narrow`, each candidate listed for `narrow` is listed for `wide`
/// too (both lists in candidate order, so the one is a subsequence of the other).
pub proof fn more_terms_narrow_matches(
    wide: Seq<char>,
    narrow: Seq<char>,
    candidates: Seq<&str>,
    r_wide: Seq<usize>,
    r_narrow: Seq<usize>,
)
    requires
        forall|k: int| 0 <= k < words(wide).len() ==> words(narrow).contains(#[trigger] words(wide)[k]),
        lists_matches(r_wide, wide, candidates),
        lists_matches(r_narrow, narrow, candidates),
    ensures
        forall|k: int| 0 <= k < r_narrow.len() ==> r_wide.contains(#[trigger] r_narrow[k]),
{
    assert forall|k: int| 0 <= k < r_narrow.len() implies r_wide.contains(#[trigger] r_narrow[k]) by {
        let i = r_narrow[k] as int;
        let c = candidates[i]@;
        assert(query_matches(narrow, c));
        assert forall|m: int| 0 <= m < words(wide).len() implies term_matches(
            #[trigger] words(wide)[m],
            c,
        ) by {
            let j = choose|j: int| 0 <= j < words(narrow).len() && words(narrow)[j] == words(wide)[m];
            assert(term_matches(words(narrow)[j], c));
        }
        assert(query_matches(wide, candidates[i]@));
    }
}

/// A query of two parts joined by a space matches exactly what both parts
/// match; so `filter` on the joined query lists, in order, the candidates
/// listed for the first part that the second part also matches, a
/// subsequence of the first part's list.
pub proof fn joined_query_narrows_matches(
    q1: Seq<char>,
    q2: Seq<char>,
    candidates: Seq<&str>,
    r1: Seq<usize>,
    r12: Seq<usize>,
)
    requires
        lists_matches(r1, q1, candidates),
        lists_matches(r12, q1 + seq![' '] + q2, candidates),
    ensures
        forall|c: Seq<char>|
            #![trigger query_matches(q1 + seq![' '] + q2, c)]
            query_matches(q1 + seq![' '] + q2, c) <==> query_matches(q1, c) && query_matches(q2, c),
        forall|k: int| 0 <= k < r12.len() ==> r1.contains(#[trigger] r12[k]),
{
    let q = q1 + seq![' '] + q2;
    lemma_words_joined(q1, q2);
    let n1 = words(q1).len() as int;
    assert forall|c: Seq<char>| #![trigger query_matches(q, c)]
        query_matches(q, c) <==> query_matches(q1, c) && query_matches(q2, c) by {
        if query_matches(q, c) {
            assert forall|k: int| 0 <= k < words(q1).len() implies term_matches(
                #[trigger] words(q1)[k],
                c,
            ) by {
                assert(words(q)[k] == words(q1)[k]);
            }
            assert forall|k: int| 0 <= k < words(q2).len() implies term_matches(
                #[trigger] words(q2)[k],
                c,
            ) by {
                assert(words(q)[n1 + k] == words(q2)[k]);
            }
        }
        if query_matches(q1, c) && query_matches(q2, c) {
            assert forall|k: int| 0 <= k < words(q).len() implies term_matches(
                #[trigger] words(q)[k],
                c,
            ) by {
                if k < n1 {
                    assert(words(q)[k] == words(q1)[k]);
                } else {
                    assert(words(q)[k] == words(q2)[k - n1]);
                }
            }
        }
    }
    assert forall|k: int| 0 <= k < r12.len() implies r1.contains(#[trigger] r12[k]) by {
        let i = r12[k] as int;
        assert(query_matches(q, candidates[i]@));
        assert(query_matches(q1, candidates[i]@));
    }
}

/// Smart case: a term with an upper-case letter is matched as written. A
/// query whose terms all have one matches exactly the candidates that
/// contain every term verbatim, and any such term of a matching query
/// occurs verbatim in the candidate.
pub proof fn upper_case_terms_match_verbatim(query: Seq<char>, candidate: Seq<char>)
    ensures
        forall|k: int|
            0 <= k < words(query).len() && has_upper(#[trigger] words(query)[k]) && query_matches(
                query,
                candidate,
            ) ==> has_substring(candidate, words(query)[k]),
        (forall|k: int|
            0 <= k < words(query).len() ==> has_upper(#[trigger] words(query)[k])) ==> (
        query_matches(query, candidate) <==> forall|k: int|
            0 <= k < words(query).len() ==> has_substring(candidate, #[trigger] words(query)[k])),
{
}

} // verus!
