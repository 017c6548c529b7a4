use ijoka::text::{contains_str, dashes_to_slashes, ends_with_str, i64_to_dec, last_nonblank_line,
    sort_dedup_strings, str_eq, str_lex_le, truncate_chars, u64_to_dec};

#[test]
fn truncation_caps_long_text() {
    let long: String = "x".repeat(700);
    let cut = truncate_chars(&long, 500);
    assert_eq!(cut.chars().count(), 500);
    let short = truncate_chars("abc", 500);
    assert_eq!(short, "abc");
}

#[test]
fn truncation_counts_characters_not_bytes() {
    let s = "\u{e9}\u{e9}\u{e9}\u{e9}";
    let cut = truncate_chars(s, 2);
    assert_eq!(cut, "\u{e9}\u{e9}");
}

#[test]
fn decimal_rendering() {
    assert_eq!(u64_to_dec(0), "0");
    assert_eq!(u64_to_dec(7), "7");
    assert_eq!(u64_to_dec(1234567890), "1234567890");
    assert_eq!(i64_to_dec(-42), "-42");
    assert_eq!(i64_to_dec(i64::MIN), "-9223372036854775808");
}

#[test]
fn dash_decoding() {
    assert_eq!(
        dashes_to_slashes("-Users-shakes-DevProjects-agentkanban"),
        "/Users/shakes/DevProjects/agentkanban"
    );
    assert_eq!(dashes_to_slashes("plain"), "plain");
}

#[test]
fn substring_search() {
    assert!(contains_str("/home/u/.agent/projects/x/s.jsonl", ".agent/projects"));
    assert!(!contains_str("/home/u/other/x/s.jsonl", ".agent/projects"));
    assert!(ends_with_str("a/feature_list.json", "feature_list.json"));
    assert!(!ends_with_str("a/feature_list.json.bak", "feature_list.json"));
    assert!(str_eq("same", "same"));
    assert!(!str_eq("same", "same "));
}

#[test]
fn last_nonblank_line_picks_the_last() {
    let content = "first\nsecond\n   \nthird\r\n\n  \n";
    assert_eq!(last_nonblank_line(content), Some("third".to_string()));
    assert_eq!(last_nonblank_line("\n  \n\t\n"), None);
    assert_eq!(last_nonblank_line(""), None);
    assert_eq!(last_nonblank_line("only"), Some("only".to_string()));
}

#[test]
fn string_sorting() {
    assert!(str_lex_le("abc", "abd"));
    assert!(!str_lex_le("b", "abc"));
    let items = vec![
        "pear".to_string(),
        "apple".to_string(),
        "pear".to_string(),
        "fig".to_string(),
    ];
    let sorted = sort_dedup_strings(&items);
    assert_eq!(
        sorted,
        vec!["apple".to_string(), "fig".to_string(), "pear".to_string()]
    );
}
