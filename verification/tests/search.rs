use syntaxis::search::{
    find_matches, kept_search_matches, replace_all_search_matches, replace_search_match, SearchOptions,
};

#[test]
fn search_options_control_case_words_and_regex() {
    let source = "cat scatter CAT";
    assert_eq!(
        find_matches(
            source,
            "cat",
            SearchOptions {
                whole_word: true,
                ..SearchOptions::default()
            },
        )
        .unwrap(),
        vec![(0, 3), (12, 15)]
    );
    assert_eq!(
        find_matches(
            source,
            "C.T",
            SearchOptions {
                case_sensitive: true,
                regex: true,
                ..SearchOptions::default()
            },
        )
        .unwrap(),
        vec![(12, 15)]
    );
}

#[test]
fn replace_supports_literal_and_capture_expansion() {
    assert_eq!(
        replace_search_match("one two", "two", "three", SearchOptions::default(), (4, 7),)
            .unwrap(),
        "one three"
    );
    assert_eq!(
        replace_all_search_matches(
            "a1 a2",
            r"a(\d)",
            "b$1",
            SearchOptions {
                regex: true,
                ..SearchOptions::default()
            },
        )
        .unwrap(),
        "b1 b2"
    );
}

#[test]
fn literal_queries_escape_regex_syntax() {
    assert_eq!(
        find_matches("a.b axb", "a.b", SearchOptions::default()).unwrap(),
        vec![(0, 3)]
    );
    assert_eq!(
        replace_all_search_matches("x+y", "+", "$1", SearchOptions::default()).unwrap(),
        "x$1y"
    );
}

#[test]
fn empty_queries_find_and_change_nothing() {
    assert!(find_matches("abc", "", SearchOptions::default()).unwrap().is_empty());
    assert_eq!(
        replace_all_search_matches("abc", "", "z", SearchOptions::default()).unwrap(),
        "abc"
    );
}

#[test]
fn invalid_regexes_and_stale_matches_are_errors() {
    let regex = SearchOptions { regex: true, ..SearchOptions::default() };
    assert!(find_matches("abc", "(", regex).is_err());
    assert!(replace_all_search_matches("abc", "(", "x", regex).is_err());
    assert_eq!(
        replace_search_match("one two", "two", "x", SearchOptions::default(), (0, 3)),
        Err("The selected match is no longer available.".to_owned())
    );
}

#[test]
fn offsets_are_bytes_and_words_respect_unicode_letters() {
    let source = "é cat écat cat_";
    assert_eq!(
        find_matches(source, "cat", SearchOptions::default()).unwrap(),
        vec![(3, 6), (9, 12), (13, 16)]
    );
    assert_eq!(
        find_matches(source, "cat", SearchOptions { whole_word: true, ..SearchOptions::default() })
            .unwrap(),
        vec![(3, 6)]
    );
    assert_eq!(
        replace_all_search_matches(source, "CAT", "dog", SearchOptions::default()).unwrap(),
        "é dog édog dog_"
    );
    assert_eq!(
        replace_search_match(source, "cat", "ox", SearchOptions::default(), (9, 12)).unwrap(),
        "é cat éox cat_"
    );
}

#[test]
fn found_ranges_keep_only_whole_words_when_asked() {
    let found = vec![(0, 3), (8, 11)];
    assert_eq!(kept_search_matches("foo_bar foo", &found, true), vec![(8, 11)]);
    assert_eq!(kept_search_matches("foo_bar foo", &found, false), found);
}
