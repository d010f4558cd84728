use philiprehberger_assert_cmd::{glob_match, glob_match_inner};

#[test]
fn test_glob_matching() {
    assert!(glob_match("hello*", "hello world"));
    assert!(glob_match("hello*", "hello"));
    assert!(glob_match("*world", "hello world"));
    assert!(glob_match("h?llo", "hello"));
    assert!(!glob_match("h?llo", "hllo"));
    assert!(glob_match("*", "anything"));
    assert!(glob_match("*", ""));
    assert!(glob_match("a*b*c", "aXXbYYc"));
    assert!(!glob_match("a*b*c", "aXXbYY"));
}

#[test]
fn every_pattern_matches_itself() {
    for p in ["", "*", "?", "a*b?c", "**", "h?llo*", "*?*"] {
        assert!(glob_match(p, p), "{p}");
    }
}

#[test]
fn literal_pattern_matches_only_itself() {
    assert!(glob_match("hello", "hello"));
    assert!(!glob_match("hello", "hello "));
    assert!(!glob_match("hello", "hell"));
    assert!(!glob_match("", "x"));
    assert!(glob_match("", ""));
}

#[test]
fn question_marks_fix_the_length() {
    assert!(glob_match("???", "abc"));
    assert!(!glob_match("???", "ab"));
    assert!(!glob_match("???", "abcd"));
    assert!(!glob_match("?", ""));
}

#[test]
fn prefix_and_suffix_patterns() {
    assert!(glob_match("version *", "version 1.2.3"));
    assert!(!glob_match("version *", "Version 1.2.3"));
    assert!(glob_match("*.rs", "main.rs"));
    assert!(!glob_match("*.rs", "main.rc"));
    assert!(glob_match("*.rs", ".rs"));
}

#[test]
fn star_may_match_nothing_or_many() {
    assert!(glob_match("a*", "a"));
    assert!(glob_match("a*c", "ac"));
    assert!(glob_match("a*c", "abbbbc"));
    assert!(glob_match("*a*", "bab"));
    assert!(!glob_match("*a*", "bbb"));
}

#[test]
fn non_ascii_characters_count_once() {
    assert!(glob_match("h?llo", "héllo"));
    assert!(glob_match("?", "ü"));
}

#[test]
fn inner_matching_on_characters() {
    let p: Vec<char> = "a?c*".chars().collect();
    let t: Vec<char> = "abcdef".chars().collect();
    assert!(glob_match_inner(&p, &t));
    let u: Vec<char> = "ab".chars().collect();
    assert!(!glob_match_inner(&p, &u));
}

#[test]
fn reversed_pattern_matches_reversed_text() {
    let cases = [
        ("a*b?c", "aXXbYc"),
        ("h?llo*", "hello world"),
        ("*world", "hello world"),
        ("a*b*c", "aXXbYY"),
        ("?", ""),
    ];
    for (p, t) in cases {
        let rp: String = p.chars().rev().collect();
        let rt: String = t.chars().rev().collect();
        assert_eq!(glob_match(p, t), glob_match(&rp, &rt), "{p} {t}");
    }
}

#[test]
fn concatenated_patterns_split_the_text() {
    assert!(glob_match("ab*", "abc") && glob_match("?d", "zd"));
    assert!(glob_match("ab*?d", "abczd"));
    assert!(!glob_match("ab?d", "abd"));
}
