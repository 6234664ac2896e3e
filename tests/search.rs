use file_viewer::search::{count_matches, find_target_line, locate_match, recompute_count, SearchState};

#[test]
fn search_count_and_navigation() {
    assert_eq!(recompute_count("ab", "ababab"), 3);
    let mut s = SearchState::recompute("ab", "ababab");
    assert_eq!(s.total, 3);
    assert_eq!(s.current, 0);
    s.next();
    s.next();
    assert_eq!(s.current, 2);
    s.next();
    assert_eq!(s.current, 0);
}

#[test]
fn previous_wraps_to_last() {
    let mut s = SearchState::recompute("a", "a a a a");
    assert_eq!(s.total, 4);
    s.prev();
    assert_eq!(s.current, 3);
    s.prev();
    assert_eq!(s.current, 2);
}

#[test]
fn navigation_without_matches_is_noop() {
    let mut s = SearchState::recompute("zz", "abc");
    assert_eq!(s.total, 0);
    s.next();
    assert_eq!(s.current, 0);
    s.prev();
    assert_eq!(s.current, 0);
}

#[test]
fn count_is_case_insensitive() {
    assert_eq!(recompute_count("foo", "FooBar foobar"), 2);
    assert_eq!(recompute_count("FOO", "foo"), 1);
}

#[test]
fn matches_do_not_overlap() {
    assert_eq!(recompute_count("aa", "aaaa"), 2);
    assert_eq!(recompute_count("aa", "aaa"), 1);
    assert_eq!(count_matches(&lower("xxx"), &lower("xx")), 1);
}

#[test]
fn empty_query_and_long_query() {
    assert_eq!(recompute_count("", "abc"), 0);
    assert_eq!(recompute_count("abcd", "abc"), 0);
    assert_eq!(SearchState::recompute("", "abc"), SearchState::new());
}

#[test]
fn counting_is_gated_by_size() {
    let big = "a".repeat(200_001);
    assert_eq!(recompute_count("a", &big), 0);
    let limit = "a".repeat(200_000);
    assert_eq!(recompute_count("a", &limit), 200_000);
}

#[test]
fn target_line_of_current_match() {
    let text = "one\ntwo foo\nthree\nFOO four";
    assert_eq!(find_target_line(text, "foo", 0), Some(1));
    assert_eq!(find_target_line(text, "foo", 1), Some(3));
    assert_eq!(find_target_line(text, "foo", 2), None);
    assert_eq!(find_target_line(text, "", 0), None);
}

fn lower(s: &str) -> Vec<Vec<char>> {
    s.chars().map(|c| c.to_lowercase().collect()).collect()
}

#[test]
fn unicode_case_is_ignored() {
    assert_eq!(recompute_count("é", "É"), 1);
    assert_eq!(recompute_count("straße", "STRAßE strasse"), 1);
    assert_eq!(recompute_count("ΣΟΦΙΑ", "σοφια"), 1);
    assert_eq!(find_target_line("a\nÉCOLE école", "école", 1), Some(1));
}

#[test]
fn count_over_given_lower_case_forms() {
    assert_eq!(count_matches(&lower("ababab"), &lower("ab")), 3);
    assert_eq!(count_matches(&lower("ÉéÉ"), &lower("é")), 3);
    assert_eq!(count_matches(&lower("abc"), &lower("")), 0);
}

#[test]
fn locate_over_given_lower_case_forms() {
    let text: Vec<char> = "x\ny AB\nab".chars().collect();
    assert_eq!(locate_match(&text, &lower("x\ny AB\nab"), &lower("ab"), 0), Some(1));
    assert_eq!(locate_match(&text, &lower("x\ny AB\nab"), &lower("ab"), 1), Some(2));
    assert_eq!(locate_match(&text, &lower("x\ny AB\nab"), &lower("ab"), 2), None);
}
