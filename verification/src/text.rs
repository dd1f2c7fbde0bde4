//! Character-level helpers on strings, each stated over `Seq<char>`.

use vstd::prelude::*;

verus! {

// ---------------------------------------------------------------------------
// Character classes
// ---------------------------------------------------------------------------

/// Unicode `White_Space`, the set `char::is_whitespace` tests for.
pub open spec fn is_space(c: char) -> bool {
    let u = c as u32;
    ||| 0x09 <= u <= 0x0d
    ||| u == 0x20
    ||| u == 0x85
    ||| u == 0xa0
    ||| u == 0x1680
    ||| 0x2000 <= u <= 0x200a
    ||| u == 0x2028
    ||| u == 0x2029
    ||| u == 0x202f
    ||| u == 0x205f
    ||| u == 0x3000
}

/// Whether `c` is Unicode white space.
pub fn is_whitespace(c: char) -> (r: bool)
    ensures
        r == is_space(c),
{
    let u = c as u32;
    (0x09 <= u && u <= 0x0d) || u == 0x20 || u == 0x85 || u == 0xa0 || u == 0x1680 || (0x2000
        <= u && u <= 0x200a) || u == 0x2028 || u == 0x2029 || u == 0x202f || u == 0x205f || u
        == 0x3000
}

/// General category `Cc`, the set `char::is_control` tests for.
pub open spec fn is_control_char(c: char) -> bool {
    let u = c as u32;
    u <= 0x1f || (0x7f <= u && u <= 0x9f)
}

/// Whether `c` is a control character.
pub fn is_control(c: char) -> (r: bool)
    ensures
        r == is_control_char(c),
{
    let u = c as u32;
    u <= 0x1f || (0x7f <= u && u <= 0x9f)
}

/// `c` with an ASCII capital letter mapped to its small letter.
pub open spec fn ascii_lower(c: char) -> char {
    if 'A' <= c && c <= 'Z' {
        ((c as u32) + 32) as char
    } else {
        c
    }
}

/// `char::to_ascii_lowercase`.
pub fn to_ascii_lower(c: char) -> (r: char)
    ensures
        r == ascii_lower(c),
{
    if 'A' <= c && c <= 'Z' {
        ((c as u8) + 32) as char
    } else {
        c
    }
}

/// Name for what `char::is_uppercase` reports: the Unicode `Uppercase` property.
pub uninterp spec fn uppercase_char(c: char) -> bool;

/// `char::is_uppercase`; the result is the Unicode `Uppercase` property of `c`,
/// named here and not spelled out.
#[verifier::external_body]
pub(crate) fn is_uppercase(c: char) -> (r: bool)
    ensures
        r == uppercase_char(c),
{
    c.is_uppercase()
}

/// Name for what `str::to_lowercase` returns: the Unicode lowercase mapping of
/// the whole string.
pub uninterp spec fn lowercase(s: Seq<char>) -> Seq<char>;

/// `str::to_lowercase`; the result is the string's Unicode lowercase mapping,
/// named here and not spelled out.
#[verifier::external_body]
pub(crate) fn to_lowercase(s: &str) -> (r: String)
    ensures
        r@ == lowercase(s@),
{
    s.to_lowercase()
}

// ---------------------------------------------------------------------------
// Building strings
// ---------------------------------------------------------------------------

/// The characters of `s`, in order.
pub fn chars_of(s: &str) -> (r: Vec<char>)
    ensures
        r@ == s@,
{
    let mut out: Vec<char> = Vec::new();
    for c in it: s.chars()
        invariant
            out@ == it.seq().take(it.index() as int),
            it.seq() == s@,
    {
        out.push(c);
    }
    out
}

/// `String::push`: appends one character.
#[verifier::external_body]
pub(crate) fn push_char(s: &mut String, c: char)
    ensures
        final(s)@ == old(s)@.push(c),
{
    s.push(c);
}

/// `String::pop`: removes the last character and returns it.
#[verifier::external_body]
pub(crate) fn pop_char(s: &mut String) -> (r: Option<char>)
    ensures
        old(s)@.len() == 0 ==> r is None && final(s)@ == old(s)@,
        old(s)@.len() > 0 ==> r == Some(old(s)@.last()) && final(s)@ == old(s)@.drop_last(),
{
    s.pop()
}

/// A string holding the characters of `cs`.
pub fn string_of(cs: &[char]) -> (r: String)
    ensures
        r@ == cs@,
{
    let mut out = String::new();
    let mut i: usize = 0;
    while i < cs.len()
        invariant
            i <= cs.len(),
            out@ == cs@.take(i as int),
        decreases cs.len() - i,
    {
        push_char(&mut out, cs[i]);
        assert(cs@.take(i + 1) == cs@.take(i as int).push(cs@[i as int]));
        i = i + 1;
    }
    assert(cs@.take(cs.len() as int) == cs@);
    out
}

/// The characters `cs[from..to]` as a string.
pub fn string_of_range(cs: &[char], from: usize, to: usize) -> (r: String)
    requires
        from <= to <= cs@.len(),
    ensures
        r@ == cs@.subrange(from as int, to as int),
{
    let mut out = String::new();
    let mut i: usize = from;
    while i < to
        invariant
            from <= i <= to <= cs@.len(),
            out@ == cs@.subrange(from as int, i as int),
        decreases to - i,
    {
        push_char(&mut out, cs[i]);
        assert(cs@.subrange(from as int, i + 1) == cs@.subrange(from as int, i as int).push(
            cs@[i as int],
        ));
        i = i + 1;
    }
    out
}

// ---------------------------------------------------------------------------
// Trimming
// ---------------------------------------------------------------------------

/// `s` without leading white space.
pub open spec fn trim_start(s: Seq<char>) -> Seq<char>
    decreases s.len(),
{
    if s.len() > 0 && is_space(s[0]) {
        trim_start(s.drop_first())
    } else {
        s
    }
}

/// `s` without trailing characters that satisfy `p`.
pub open spec fn trim_end_by(s: Seq<char>, p: spec_fn(char) -> bool) -> Seq<char>
    decreases s.len(),
{
    if s.len() > 0 && p(s.last()) {
        trim_end_by(s.drop_last(), p)
    } else {
        s
    }
}

/// `s` without leading and trailing white space (`str::trim`).
pub open spec fn trim(s: Seq<char>) -> Seq<char> {
    trim_end_by(trim_start(s), |c: char| is_space(c))
}

/// `s` without trailing copies of `ch` (`str::trim_end_matches(ch)`).
pub open spec fn trim_end_char(s: Seq<char>, ch: char) -> Seq<char>
    decreases s.len(),
{
    if s.len() > 0 && s.last() == ch {
        trim_end_char(s.drop_last(), ch)
    } else {
        s
    }
}

proof fn lemma_trim_end_char_cut(s: Seq<char>, ch: char, j: int)
    requires
        0 <= j <= s.len(),
        forall|k: int| j <= k < s.len() ==> #[trigger] s[k] == ch,
    ensures
        trim_end_char(s, ch) == trim_end_char(s.subrange(0, j), ch),
    decreases s.len() - j,
{
    if j < s.len() {
        lemma_trim_end_char_cut(s, ch, j + 1);
        let t = s.subrange(0, j + 1);
        assert(t.last() == s[j]);
        assert(t.drop_last() =~= s.subrange(0, j));
    } else {
        assert(s.subrange(0, j) =~= s);
    }
}

proof fn lemma_trim_start_skip(s: Seq<char>, i: int)
    requires
        0 <= i <= s.len(),
        forall|k: int| 0 <= k < i ==> is_space(#[trigger] s[k]),
    ensures
        trim_start(s) == trim_start(s.subrange(i, s.len() as int)),
    decreases i,
{
    if i > 0 {
        lemma_trim_start_skip(s, i - 1);
        let t = s.subrange(i - 1, s.len() as int);
        assert(t[0] == s[i - 1]);
        assert(t.drop_first() =~= s.subrange(i, s.len() as int));
    } else {
        assert(s.subrange(0, s.len() as int) =~= s);
    }
}

proof fn lemma_trim_end_cut(s: Seq<char>, p: spec_fn(char) -> bool, j: int)
    requires
        0 <= j <= s.len(),
        forall|k: int| j <= k < s.len() ==> p(#[trigger] s[k]),
    ensures
        trim_end_by(s, p) == trim_end_by(s.subrange(0, j), p),
    decreases s.len() - j,
{
    if j < s.len() {
        lemma_trim_end_cut(s, p, j + 1);
        let t = s.subrange(0, j + 1);
        assert(t.last() == s[j]);
        assert(t.drop_last() =~= s.subrange(0, j));
    } else {
        assert(s.subrange(0, j) =~= s);
    }
}

/// Index of the first character of `cs` that is not white space, or its length.
fn trim_start_index(cs: &[char]) -> (i: usize)
    ensures
        i <= cs@.len(),
        trim_start(cs@) == cs@.subrange(i as int, cs@.len() as int),
{
    let mut i: usize = 0;
    while i < cs.len() && is_whitespace(cs[i])
        invariant
            i <= cs@.len(),
            forall|k: int| 0 <= k < i ==> is_space(#[trigger] cs@[k]),
        decreases cs.len() - i,
    {
        i = i + 1;
    }
    proof {
        lemma_trim_start_skip(cs@, i as int);
        let t = cs@.subrange(i as int, cs@.len() as int);
        if t.len() > 0 {
            assert(t[0] == cs@[i as int]);
        }
    }
    i
}

/// End of `cs[from..]` once the trailing characters in `p` are cut.
fn trim_end_index_by_space(cs: &[char], from: usize) -> (j: usize)
    requires
        from <= cs@.len(),
    ensures
        from <= j <= cs@.len(),
        trim_end_by(cs@.subrange(from as int, cs@.len() as int), |c: char| is_space(c))
            == cs@.subrange(from as int, j as int),
{
    let ghost s = cs@.subrange(from as int, cs@.len() as int);
    let ghost p = |c: char| is_space(c);
    let mut j: usize = cs.len();
    while j > from && is_whitespace(cs[j - 1])
        invariant
            from <= j <= cs@.len(),
            s == cs@.subrange(from as int, cs@.len() as int),
            forall|k: int| j <= k < cs@.len() ==> is_space(#[trigger] cs@[k]),
        decreases j,
    {
        j = j - 1;
    }
    proof {
        assert forall|k: int| j - from <= k < s.len() implies p(#[trigger] s[k]) by {
            assert(s[k] == cs@[k + from]);
        }
        lemma_trim_end_cut(s, p, j - from);
        let t = s.subrange(0, j - from);
        assert(t =~= cs@.subrange(from as int, j as int));
        if t.len() > 0 {
            assert(t.last() == cs@[j - 1]);
        }
    }
    j
}

/// `str::trim` on a character slice, as a range.
pub fn trim_range(cs: &[char]) -> (r: (usize, usize))
    ensures
        r.0 <= r.1 <= cs@.len(),
        trim(cs@) == cs@.subrange(r.0 as int, r.1 as int),
{
    let i = trim_start_index(cs);
    let j = trim_end_index_by_space(cs, i);
    (i, j)
}

/// `str::trim`.
pub fn trim_str(s: &str) -> (r: String)
    ensures
        r@ == trim(s@),
{
    let cs = chars_of(s);
    let (i, j) = trim_range(cs.as_slice());
    string_of_range(cs.as_slice(), i, j)
}

/// Length of `cs` once trailing copies of `ch` are cut.
pub fn trim_end_char_len(cs: &[char], ch: char) -> (j: usize)
    ensures
        j <= cs@.len(),
        trim_end_char(cs@, ch) == cs@.subrange(0, j as int),
{
    let mut j: usize = cs.len();
    while j > 0 && cs[j - 1] == ch
        invariant
            j <= cs@.len(),
            forall|k: int| j <= k < cs@.len() ==> #[trigger] cs@[k] == ch,
        decreases j,
    {
        j = j - 1;
    }
    proof {
        lemma_trim_end_char_cut(cs@, ch, j as int);
        let t = cs@.subrange(0, j as int);
        if t.len() > 0 {
            assert(t.last() == cs@[j - 1]);
        }
    }
    j
}

// ---------------------------------------------------------------------------
// Prefixes, suffixes and substrings
// ---------------------------------------------------------------------------

/// `t` occurs in `s` starting at index `i`.
pub open spec fn occurs_at(s: Seq<char>, t: Seq<char>, i: int) -> bool {
    0 <= i && i + t.len() <= s.len() && s.subrange(i, i + t.len()) =~= t
}

/// `t` is a substring of `s` (`str::contains` with a string pattern).
pub open spec fn has_substring(s: Seq<char>, t: Seq<char>) -> bool {
    exists|i: int| occurs_at(s, t, i)
}

/// Whether `t` occurs in `s` at index `i`.
pub(crate) fn occurs_at_exec(s: &[char], t: &[char], i: usize) -> (r: bool)
    requires
        i <= s@.len(),
    ensures
        r == occurs_at(s@, t@, i as int),
{
    if t.len() > s.len() - i {
        return false;
    }
    let mut k: usize = 0;
    while k < t.len()
        invariant
            k <= t@.len(),
            i <= s@.len(),
            i + t@.len() <= s@.len(),
            s@.len() == s.len(),
            forall|m: int| 0 <= m < k ==> s@[i + m] == t@[m],
        decreases t.len() - k,
    {
        if s[i + k] != t[k] {
            assert(s@.subrange(i as int, i + t@.len())[k as int] != t@[k as int]);
            return false;
        }
        k = k + 1;
    }
    true
}

/// Whether `t` is a substring of `s`.
pub fn contains_seq(s: &[char], t: &[char]) -> (r: bool)
    ensures
        r == has_substring(s@, t@),
{
    let mut i: usize = 0;
    loop
        invariant
            i <= s@.len(),
            forall|m: int| 0 <= m < i ==> !occurs_at(s@, t@, m),
        decreases s.len() - i,
    {
        if occurs_at_exec(s, t, i) {
            return true;
        }
        if i == s.len() {
            assert forall|m: int| !occurs_at(s@, t@, m) by {
                if 0 <= m < i {
                }
            }
            return false;
        }
        i = i + 1;
    }
}

/// Whether `p` is a prefix of `s`.
pub fn starts_with_seq(s: &[char], p: &[char]) -> (r: bool)
    ensures
        r == p@.is_prefix_of(s@),
{
    let r = occurs_at_exec(s, p, 0);
    proof {
        if r {
            assert(s@.subrange(0, p@.len() as int) =~= p@);
        }
        if p@.is_prefix_of(s@) {
            assert(occurs_at(s@, p@, 0));
        }
    }
    r
}

/// Whether `p` is a suffix of `s`.
pub fn ends_with_seq(s: &[char], p: &[char]) -> (r: bool)
    ensures
        r == p@.is_suffix_of(s@),
{
    if p.len() > s.len() {
        return false;
    }
    occurs_at_exec(s, p, s.len() - p.len())
}

/// Whether `s` is the single character `c`, or has it first.
pub open spec fn starts_with_char(s: Seq<char>, c: char) -> bool {
    s.len() > 0 && s[0] == c
}

/// Whether `s` ends with the character `c`.
pub open spec fn ends_with_char(s: Seq<char>, c: char) -> bool {
    s.len() > 0 && s.last() == c
}

/// Whether `c` occurs in `s`.
pub fn contains_char(s: &[char], c: char) -> (r: bool)
    ensures
        r == s@.contains(c),
{
    let mut i: usize = 0;
    while i < s.len()
        invariant
            i <= s@.len(),
            forall|k: int| 0 <= k < i ==> s@[k] != c,
        decreases s.len() - i,
    {
        if s[i] == c {
            assert(s@[i as int] == c);
            return true;
        }
        i = i + 1;
    }
    false
}

/// Characters equal up to ASCII case (`char::eq_ignore_ascii_case`).
pub open spec fn eq_ignore_case(a: Seq<char>, b: Seq<char>) -> bool {
    a.len() == b.len() && forall|i: int| 0 <= i < a.len() ==> ascii_lower(a[i]) == ascii_lower(
        b[i],
    )
}

/// `str::eq_ignore_ascii_case`.
pub fn eq_ignore_ascii_case(a: &str, b: &str) -> (r: bool)
    ensures
        r == eq_ignore_case(a@, b@),
{
    let x = chars_of(a);
    let y = chars_of(b);
    if x.len() != y.len() {
        return false;
    }
    let mut i: usize = 0;
    while i < x.len()
        invariant
            x@ == a@,
            y@ == b@,
            x@.len() == y@.len(),
            i <= x@.len(),
            forall|k: int| 0 <= k < i ==> ascii_lower(x@[k]) == ascii_lower(y@[k]),
        decreases x.len() - i,
    {
        if to_ascii_lower(x[i]) != to_ascii_lower(y[i]) {
            return false;
        }
        i = i + 1;
    }
    true
}

/// Whether two strings hold the same characters.
pub fn str_eq(a: &str, b: &str) -> (r: bool)
    ensures
        r == (a@ == b@),
{
    let x = chars_of(a);
    let y = chars_of(b);
    if x.len() != y.len() {
        return false;
    }
    let mut i: usize = 0;
    while i < x.len()
        invariant
            x@ == a@,
            y@ == b@,
            x@.len() == y@.len(),
            i <= x@.len(),
            forall|k: int| 0 <= k < i ==> x@[k] == y@[k],
        decreases x.len() - i,
    {
        if x[i] != y[i] {
            return false;
        }
        i = i + 1;
    }
    assert(x@ =~= y@);
    true
}

// ---------------------------------------------------------------------------
// Words
// ---------------------------------------------------------------------------

/// Scanning the first `i` characters of `s` for white-space-separated words:
/// the words completed so far and the word in progress.
pub open spec fn scan_words(s: Seq<char>, i: int) -> (Seq<Seq<char>>, Seq<char>)
    decreases i,
{
    if i <= 0 {
        (Seq::empty(), Seq::empty())
    } else {
        let (done, cur) = scan_words(s, i - 1);
        if is_space(s[i - 1]) {
            if cur.len() > 0 {
                (done.push(cur), Seq::empty())
            } else {
                (done, cur)
            }
        } else {
            (done, cur.push(s[i - 1]))
        }
    }
}

/// The white-space-separated words of `s` (`str::split_whitespace`).
pub open spec fn words(s: Seq<char>) -> Seq<Seq<char>> {
    let (done, cur) = scan_words(s, s.len() as int);
    if cur.len() > 0 {
        done.push(cur)
    } else {
        done
    }
}

/// Scanning the first `i` characters depends on those characters only.
proof fn lemma_scan_words_prefix(s: Seq<char>, t: Seq<char>, i: int)
    requires
        0 <= i <= s.len(),
        i <= t.len(),
        forall|k: int| 0 <= k < i ==> s[k] == t[k],
    ensures
        scan_words(s, i) == scan_words(t, i),
    decreases i,
{
    if i > 0 {
        lemma_scan_words_prefix(s, t, i - 1);
    }
}

/// Scanning `a`, a space and the first `i` characters of `b` gives the words
/// of `a` followed by what scanning those `i` characters alone gives.
proof fn lemma_scan_words_after_space(a: Seq<char>, b: Seq<char>, i: int)
    requires
        0 <= i <= b.len(),
    ensures
        scan_words(a + seq![' '] + b, a.len() + 1 + i) == (
            words(a) + scan_words(b, i).0,
            scan_words(b, i).1,
        ),
    decreases i,
{
    let s = a + seq![' '] + b;
    let n = a.len() as int;
    if i == 0 {
        lemma_scan_words_prefix(s, a, n);
        assert(s[n] == ' ');
        assert(is_space(' '));
        assert(words(a) + Seq::<Seq<char>>::empty() =~= words(a));
    } else {
        lemma_scan_words_after_space(a, b, i - 1);
        let (d, c) = scan_words(b, i - 1);
        assert(s[n + i] == b[i - 1]);
        assert((words(a) + d).push(c) =~= words(a) + d.push(c));
    }
}

/// The words of two texts joined by a space are the words of the first
/// followed by the words of the second.
pub proof fn lemma_words_joined(a: Seq<char>, b: Seq<char>)
    ensures
        words(a + seq![' '] + b) == words(a) + words(b),
{
    let s = a + seq![' '] + b;
    lemma_scan_words_after_space(a, b, b.len() as int);
    assert(s.len() == a.len() + 1 + b.len());
    let (d, c) = scan_words(b, b.len() as int);
    assert((words(a) + d).push(c) =~= words(a) + d.push(c));
    assert(words(a) + d =~= words(a) + d);
}

/// `str::split_whitespace`, each word as its characters.
pub fn split_whitespace(s: &[char]) -> (r: Vec<Vec<char>>)
    ensures
        r@.len() == words(s@).len(),
        forall|k: int| 0 <= k < r@.len() ==> #[trigger] r@[k]@ == words(s@)[k],
{
    let mut done: Vec<Vec<char>> = Vec::new();
    let mut cur: Vec<char> = Vec::new();
    let mut i: usize = 0;
    while i < s.len()
        invariant
            i <= s@.len(),
            done@.len() == scan_words(s@, i as int).0.len(),
            forall|k: int| 0 <= k < done@.len() ==> #[trigger] done@[k]@ == scan_words(
                s@,
                i as int,
            ).0[k],
            cur@ == scan_words(s@, i as int).1,
        decreases s.len() - i,
    {
        if is_whitespace(s[i]) {
            if cur.len() > 0 {
                let w = cur;
                done.push(w);
                cur = Vec::new();
            }
        } else {
            cur.push(s[i]);
        }
        i = i + 1;
    }
    if cur.len() > 0 {
        done.push(cur);
    }
    done
}

// ---------------------------------------------------------------------------
// Pieces between separators
// ---------------------------------------------------------------------------

/// Scanning the first `i` characters of `s` for the pieces between copies of
/// `sep`: the pieces completed so far and the piece in progress.
pub open spec fn scan_pieces(s: Seq<char>, sep: char, i: int) -> (Seq<Seq<char>>, Seq<char>)
    decreases i,
{
    if i <= 0 {
        (Seq::empty(), Seq::empty())
    } else {
        let (done, cur) = scan_pieces(s, sep, i - 1);
        if s[i - 1] == sep {
            (done.push(cur), Seq::empty())
        } else {
            (done, cur.push(s[i - 1]))
        }
    }
}

/// The pieces of `s` between copies of `sep`, empty ones included
/// (`str::split` with a character).
pub open spec fn pieces(s: Seq<char>, sep: char) -> Seq<Seq<char>> {
    let (done, cur) = scan_pieces(s, sep, s.len() as int);
    done.push(cur)
}

/// `str::split(sep)`, each piece as its characters.
pub fn split_char(s: &[char], sep: char) -> (r: Vec<Vec<char>>)
    ensures
        r@.len() == pieces(s@, sep).len(),
        forall|k: int| 0 <= k < r@.len() ==> #[trigger] r@[k]@ == pieces(s@, sep)[k],
{
    let mut done: Vec<Vec<char>> = Vec::new();
    let mut cur: Vec<char> = Vec::new();
    let mut i: usize = 0;
    while i < s.len()
        invariant
            i <= s@.len(),
            done@.len() == scan_pieces(s@, sep, i as int).0.len(),
            forall|k: int| 0 <= k < done@.len() ==> #[trigger] done@[k]@ == scan_pieces(
                s@,
                sep,
                i as int,
            ).0[k],
            cur@ == scan_pieces(s@, sep, i as int).1,
        decreases s.len() - i,
    {
        if s[i] == sep {
            let w = cur;
            done.push(w);
            cur = Vec::new();
        } else {
            cur.push(s[i]);
        }
        i = i + 1;
    }
    done.push(cur);
    done
}

proof fn lemma_scan_words_leading(s: Seq<char>, i: int, k: int)
    requires
        0 <= k <= i <= s.len(),
        forall|m: int| 0 <= m < i ==> is_space(#[trigger] s[m]),
    ensures
        scan_words(s, k).0.len() == 0,
        scan_words(s, k).1.len() == 0,
    decreases k,
{
    if k > 0 {
        lemma_scan_words_leading(s, i, k - 1);
    }
}

proof fn lemma_scan_words_first_run(s: Seq<char>, i: int, j: int, k: int)
    requires
        0 <= i <= k <= j <= s.len(),
        forall|m: int| 0 <= m < i ==> is_space(#[trigger] s[m]),
        forall|m: int| i <= m < j ==> !is_space(#[trigger] s[m]),
    ensures
        scan_words(s, k).0.len() == 0,
        scan_words(s, k).1 =~= s.subrange(i, k),
    decreases k,
{
    if k == i {
        lemma_scan_words_leading(s, i, k);
    } else {
        lemma_scan_words_first_run(s, i, j, k - 1);
    }
}

proof fn lemma_scan_words_keeps_first(s: Seq<char>, k: int, n: int)
    requires
        0 <= k <= n <= s.len(),
        scan_words(s, k).0.len() > 0,
    ensures
        scan_words(s, n).0.len() > 0,
        scan_words(s, n).0[0] == scan_words(s, k).0[0],
    decreases n - k,
{
    if k < n {
        lemma_scan_words_keeps_first(s, k, n - 1);
    }
}

/// The first word of `s` runs from its first non-space character `i` to the
/// next space `j` (or the end).
pub proof fn lemma_first_word(s: Seq<char>, i: int, j: int)
    requires
        0 <= i <= j <= s.len(),
        forall|m: int| 0 <= m < i ==> is_space(#[trigger] s[m]),
        forall|m: int| i <= m < j ==> !is_space(#[trigger] s[m]),
        j == s.len() || is_space(s[j]),
        i == s.len() || !is_space(s[i]),
    ensures
        i == s.len() ==> words(s).len() == 0,
        i < s.len() ==> words(s).len() > 0 && words(s)[0] == s.subrange(i, j),
{
    if i == s.len() {
        lemma_scan_words_leading(s, i, i);
    } else {
        lemma_scan_words_first_run(s, i, j, j);
        if j < s.len() {
            assert(scan_words(s, j + 1).0 =~= seq![s.subrange(i, j)]);
            lemma_scan_words_keeps_first(s, j + 1, s.len() as int);
        }
    }
}

// ---------------------------------------------------------------------------
// Lines and separators
// ---------------------------------------------------------------------------

/// `p` without one trailing carriage return.
pub open spec fn strip_cr(p: Seq<char>) -> Seq<char> {
    if ends_with_char(p, '\r') {
        p.drop_last()
    } else {
        p
    }
}

/// The lines of `s` (`str::lines`): split at `\n`, a `\r` before the `\n`
/// dropped, and no empty line after a final `\n`.
pub open spec fn lines(s: Seq<char>) -> Seq<Seq<char>> {
    let ps = pieces(s, '\n');
    let init = Seq::new((ps.len() - 1) as nat, |k: int| strip_cr(ps[k]));
    if ps.last().len() > 0 {
        init.push(ps.last())
    } else {
        init
    }
}

proof fn lemma_pieces_nonempty(s: Seq<char>, sep: char)
    ensures
        pieces(s, sep).len() >= 1,
{
}

/// `str::lines`, each line as a string.
pub fn lines_of(s: &str) -> (r: Vec<String>)
    ensures
        r@.len() == lines(s@).len(),
        forall|k: int| 0 <= k < r@.len() ==> #[trigger] r@[k]@ == lines(s@)[k],
{
    let cs = chars_of(s);
    let ps = split_char(cs.as_slice(), '\n');
    proof {
        lemma_pieces_nonempty(s@, '\n');
    }
    let ghost want = lines(s@);
    let mut out: Vec<String> = Vec::new();
    let mut k: usize = 0;
    while k < ps.len() - 1
        invariant
            ps@.len() == pieces(s@, '\n').len(),
            ps@.len() >= 1,
            forall|m: int| 0 <= m < ps@.len() ==> #[trigger] ps@[m]@ == pieces(s@, '\n')[m],
            k + 1 <= ps@.len(),
            out@.len() == k,
            forall|m: int| 0 <= m < k ==> #[trigger] out@[m]@ == strip_cr(pieces(s@, '\n')[m]),
        decreases ps.len() - k,
    {
        let p = &ps[k];
        assert(p@ == pieces(s@, '\n')[k as int]);
        let n = if p.len() > 0 && p[p.len() - 1] == '\r' {
            p.len() - 1
        } else {
            p.len()
        };
        out.push(string_of_range(p.as_slice(), 0, n));
        k = k + 1;
    }
    let last = &ps[ps.len() - 1];
    assert(last@ == pieces(s@, '\n').last());
    if last.len() > 0 {
        out.push(string_of(last.as_slice()));
    }
    proof {
        let ps_ = pieces(s@, '\n');
        let init = Seq::new((ps_.len() - 1) as nat, |m: int| strip_cr(ps_[m]));
        assert forall|m: int| 0 <= m < out@.len() implies #[trigger] out@[m]@ == lines(s@)[m] by {
            if m < init.len() {
                assert(init[m] == strip_cr(ps_[m]));
            }
        }
    }
    out
}

/// The first index at or after `from` where `sep` occurs in `s`, if any.
pub open spec fn find_from(s: Seq<char>, sep: Seq<char>, from: int) -> Option<int>
    decreases s.len() + 1 - from,
{
    if from < 0 || from > s.len() {
        None
    } else if occurs_at(s, sep, from) {
        Some(from)
    } else {
        find_from(s, sep, from + 1)
    }
}

/// The pieces of `s` between non-overlapping copies of `sep`, found left to
/// right (`str::split` with a string pattern).
pub open spec fn split_on(s: Seq<char>, sep: Seq<char>) -> Seq<Seq<char>>
    decreases s.len(),
{
    if sep.len() == 0 {
        seq![s]
    } else {
        match find_from(s, sep, 0) {
            None => seq![s],
            Some(p) => if 0 <= p && p + sep.len() <= s.len() {
                seq![s.take(p)] + split_on(s.skip(p + sep.len()), sep)
            } else {
                seq![s]
            },
        }
    }
}

proof fn lemma_find_from_shift(s: Seq<char>, sep: Seq<char>, f: int, j: int)
    requires
        0 <= f <= s.len(),
        0 <= j,
    ensures
        find_from(s.skip(f), sep, j) == match find_from(s, sep, f + j) {
            Some(p) => Some(p - f),
            None => None::<int>,
        },
    decreases s.len() - f + 1 - j,
{
    let t = s.skip(f);
    if j > t.len() {
    } else {
        assert(occurs_at(t, sep, j) == occurs_at(s, sep, f + j)) by {
            if j + sep.len() <= t.len() {
                assert(t.subrange(j, j + sep.len()) =~= s.subrange(f + j, f + j + sep.len()));
            }
        }
        if !occurs_at(t, sep, j) {
            lemma_find_from_shift(s, sep, f, j + 1);
        }
    }
}

proof fn lemma_find_from_range(s: Seq<char>, sep: Seq<char>, from: int)
    requires
        from >= 0,
    ensures
        find_from(s, sep, from) matches Some(p) ==> from <= p <= s.len() && occurs_at(s, sep, p)
            && forall|q: int| from <= q < p ==> !occurs_at(s, sep, q),
        find_from(s, sep, from) is None ==> forall|q: int| from <= q <= s.len() ==> !occurs_at(s, sep, q),
    decreases s.len() + 1 - from,
{
    if from <= s.len() && !occurs_at(s, sep, from) {
        lemma_find_from_range(s, sep, from + 1);
    }
}

/// `str::split` with a non-empty string separator, each piece as characters.
pub fn split_str(s: &[char], sep: &[char]) -> (r: Vec<Vec<char>>)
    requires
        sep@.len() > 0,
    ensures
        r@.len() == split_on(s@, sep@).len(),
        forall|k: int| 0 <= k < r@.len() ==> #[trigger] r@[k]@ == split_on(s@, sep@)[k],
{
    let mut out: Vec<Vec<char>> = Vec::new();
    let mut from: usize = 0;
    let ghost done: Seq<Seq<char>> = Seq::empty();
    assert(s@.skip(0) =~= s@);
    loop
        invariant
            sep@.len() > 0,
            from <= s@.len(),
            s@.len() == s.len(),
            out@.len() == done.len(),
            forall|k: int| 0 <= k < out@.len() ==> #[trigger] out@[k]@ == done[k],
            done + split_on(s@.skip(from as int), sep@) == split_on(s@, sep@),
        decreases s@.len() - from,
    {
        let mut i: usize = from;
        let mut found = false;
        while sep.len() <= s.len() && i <= s.len() - sep.len() && !found
            invariant
                from <= i,
                sep@.len() > 0,
                s@.len() == s.len(),
                from <= s@.len(),
                !found ==> forall|q: int| from <= q < i ==> !occurs_at(s@, sep@, q),
                found ==> i + sep@.len() <= s@.len() && occurs_at(s@, sep@, i as int) && forall|
                    q: int,
                | from <= q < i ==> !occurs_at(s@, sep@, q),
            decreases s@.len() + 1 - i + (if found {
                0int
            } else {
                1int
            }),
        {
            if occurs_at_exec(s, sep, i) {
                found = true;
            } else {
                i = i + 1;
            }
        }
        proof {
            lemma_find_from_range(s@, sep@, from as int);
            lemma_find_from_shift(s@, sep@, from as int, 0);
            let t = s@.skip(from as int);
            if !found {
                assert forall|q: int| from <= q <= s@.len() implies !occurs_at(s@, sep@, q) by {
                    if q >= i {
                        assert(q + sep@.len() > s@.len());
                    }
                }
                match find_from(s@, sep@, from as int) {
                    Some(p) => {
                        assert(occurs_at(s@, sep@, p));
                    },
                    None => {},
                }
                assert(split_on(t, sep@) == seq![t]);
            } else {
                match find_from(s@, sep@, from as int) {
                    Some(p) => {
                        if p < i {
                            assert(!occurs_at(s@, sep@, p));
                        }
                        if p > i {
                            assert(!occurs_at(s@, sep@, i as int));
                        }
                    },
                    None => {
                        assert(!occurs_at(s@, sep@, i as int));
                    },
                }
                assert(find_from(t, sep@, 0) == Some(i - from));
                assert(t.take(i - from) =~= s@.subrange(from as int, i as int));
                assert(t.skip(i - from + sep@.len()) =~= s@.skip(i + sep@.len()));
            }
        }
        if !found {
            let piece = slice_range(s, from, s.len());
            out.push(piece);
            proof {
                let t = s@.skip(from as int);
                assert(t =~= s@.subrange(from as int, s@.len() as int));
                done = done.push(t);
                assert(done =~= split_on(s@, sep@));
            }
            return out;
        }
        let piece = slice_range(s, from, i);
        out.push(piece);
        proof {
            let t = s@.skip(from as int);
            done = done.push(s@.subrange(from as int, i as int));
            assert(split_on(t, sep@) =~= seq![s@.subrange(from as int, i as int)] + split_on(
                s@.skip(i + sep@.len()),
                sep@,
            ));
            assert(done + split_on(s@.skip(i + sep@.len()), sep@) =~= split_on(s@, sep@));
        }
        from = i + sep.len();
    }
}

/// The characters `s[from..to]`.
pub fn slice_range(s: &[char], from: usize, to: usize) -> (r: Vec<char>)
    requires
        from <= to <= s@.len(),
    ensures
        r@ == s@.subrange(from as int, to as int),
{
    let mut out: Vec<char> = Vec::new();
    let mut i: usize = from;
    while i < to
        invariant
            from <= i <= to <= s@.len(),
            out@ == s@.subrange(from as int, i as int),
        decreases to - i,
    {
        out.push(s[i]);
        assert(s@.subrange(from as int, i + 1) =~= s@.subrange(from as int, i as int).push(
            s@[i as int],
        ));
        i = i + 1;
    }
    out
}

} // verus!
