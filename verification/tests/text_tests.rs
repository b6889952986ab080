use agent_memory_rs::text::{
    chars_of, concat_str, count_matches, is_blank_text, is_whitespace, join_strings, owned,
    split_whitespace, string_of, text_eq,
};

#[test]
fn whitespace_agrees_with_char_is_whitespace_everywhere() {
    for code in 0u32..=0x10FFFF {
        if let Some(c) = char::from_u32(code) {
            assert_eq!(is_whitespace(c), c.is_whitespace(), "code point {:#x}", code);
        }
    }
}

#[test]
fn chars_and_string_round_trip() {
    let s = "héllo wörld ✓";
    let v = chars_of(s);
    assert_eq!(v, s.chars().collect::<Vec<char>>());
    assert_eq!(string_of(&v), s.to_string());
    assert_eq!(owned(s), s.to_string());
}

#[test]
fn blank_texts() {
    assert!(is_blank_text(""));
    assert!(is_blank_text("  \t\n\u{3000}"));
    assert!(!is_blank_text("  a "));
}

#[test]
fn split_whitespace_matches_std() {
    for s in ["", "  ", "a", " rust  memory\tsearch \n", "a\u{2003}b c"] {
        let expected: Vec<String> = s.split_whitespace().map(String::from).collect();
        assert_eq!(split_whitespace(s), expected);
    }
}

#[test]
fn count_matches_is_non_overlapping() {
    let c = |t: &str, p: &str| count_matches(&t.chars().collect(), &p.chars().collect());
    assert_eq!(c("aaaa", "aa"), 2);
    assert_eq!(c("banana", "ana"), 1);
    assert_eq!(c("rust is rusty", "rust"), 2);
    assert_eq!(c("abc", "x"), 0);
    assert_eq!(c("abc", ""), 4);
    for (t, p) in [("aaaa", "aa"), ("banana", "ana"), ("abcabc", "bc"), ("", "a")] {
        assert_eq!(c(t, p), t.matches(p).count());
    }
}

#[test]
fn join_concat_and_equality() {
    let parts = vec!["a".to_string(), "bc".to_string(), "".to_string()];
    assert_eq!(join_strings(&parts, ", "), "a, bc, ");
    assert_eq!(join_strings(&Vec::new(), ", "), "");
    assert_eq!(concat_str("ab", "cd"), "abcd");
    assert!(text_eq("same", "same"));
    assert!(!text_eq("same", "sane"));
    assert!(!text_eq("same", "sam"));
}
