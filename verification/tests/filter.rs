use kickoff::filter;

#[test]
fn filter_empty_query_matches_everything_in_order() {
    let items = ["/a", "/b", "/c"];
    assert_eq!(filter::filter("", &items), [0, 1, 2]);
}

#[test]
fn terms_are_substrings_not_subsequences() {
    let items = [
        "/Users/me/src/napsack-opus4",
        "/Users/me/src/drops",
        "/Users/me/src/old/playbooks",
    ];
    assert_eq!(filter::filter("drops", &items), [1]);
}

#[test]
fn all_terms_must_match_and_order_is_preserved() {
    let items = [
        "/me/src/herdr-plugin-2",
        "/me/notes",
        "/me/src/herdr-plugin",
    ];
    assert_eq!(filter::filter("src herdr", &items), [0, 2]);
    assert!(filter::filter("src nope", &items).is_empty());
}

#[test]
fn filter_smart_case() {
    assert!(filter::matches("src", "/SRC"));
    assert!(!filter::matches("SRC", "/src"));
}

#[test]
fn filter_terms_split_on_any_white_space() {
    assert!(filter::matches("  src\therdr\n", "/me/src/herdr"));
    assert!(filter::matches("   ", "/anything"));
    assert!(!filter::matches("src x", "/me/src/herdr"));
}

#[test]
fn filter_lowercases_non_ascii_candidates() {
    assert!(filter::matches("école", "/home/ÉCOLE"));
    assert!(!filter::matches("ÉCOLE", "/home/école"));
}

#[test]
fn joined_query_lists_a_subsequence() {
    let items = ["/me/src/herdr", "/me/notes/herdr", "/me/src/other", "/src/herdr-2"];
    assert_eq!(filter::filter("src", &items), [0, 2, 3]);
    assert_eq!(filter::filter("src herdr", &items), [0, 3]);
}
