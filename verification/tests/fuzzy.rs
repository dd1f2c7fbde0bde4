use kickoff::fuzzy::{filter, score};

#[test]
fn fuzzy_empty_query_matches_everything_in_order() {
    let items = ["/a", "/b", "/c"];
    assert_eq!(filter("", &items), [0, 1, 2]);
}

#[test]
fn requires_subsequence() {
    assert!(score("hrd", "/src/herdr").is_some());
    assert!(score("xyz", "/src/herdr").is_none());
}

#[test]
fn all_terms_must_match() {
    assert!(score("src herdr", "/Users/me/src/herdr").is_some());
    assert!(score("src nope", "/Users/me/src/herdr").is_none());
}

#[test]
fn basename_and_contiguous_matches_rank_first() {
    let items = [
        "/Users/me/hidden/e/r/d/r/deep",
        "/Users/me/src/herdr-plugin",
        "/Users/me/src/herdr-plugin-2",
    ];
    assert_eq!(filter("herdr", &items), [1, 2, 0]);
}

#[test]
fn fuzzy_smart_case() {
    assert!(score("src", "/SRC").is_some());
    assert!(score("SRC", "/src").is_none());
}

#[test]
fn fuzzy_exact_scores() {
    // "ab" in "/ab": a at 1 (after '/', in basename): 1 + 8 + 2 = 11;
    // b at 2 (consecutive, in basename): 1 + 5 + 2 = 8.
    assert_eq!(score("ab", "/ab"), Some(19));
    // "ac" in "abc": a at 0: 1 + 8 + 2 = 11; c at 2 after a gap of 2: 1 - 2 + 2 = 1.
    assert_eq!(score("ac", "abc"), Some(12));
    // Trailing slashes do not move the basename: "x" in "/p/x/" scores 1 + 8 + 2.
    assert_eq!(score("x", "/p/x/"), Some(11));
    // Two terms add up.
    assert_eq!(score("a b", "/ab"), Some(11 + 3));
    assert_eq!(score("", "anything"), Some(0));
}

#[test]
fn fuzzy_ties_keep_input_order() {
    let items = ["/x/ab", "/y/ab", "/nothing"];
    assert_eq!(filter("ab", &items), [0, 1]);
}

#[test]
fn fuzzy_joined_query_scores_the_sum() {
    let c = "/Users/me/src/herdr";
    let a = score("src", c).unwrap();
    let b = score("herdr", c).unwrap();
    assert_eq!(score("src herdr", c), Some(a + b));
    assert_eq!(score("src zzz", c), None);
}
