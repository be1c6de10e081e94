use git_hunks::text::{
    blank, contains_sub, dec_u32, dec_u64, dec_usize, find_char, find_sub, has_prefix,
    remove_first, rfind_char, split_lines, str_eq, trim,
};

#[test]
fn prefix_tests() {
    assert!(has_prefix("diff --git a/x b/x", "diff --git"));
    assert!(!has_prefix("diff", "diff --git"));
    assert!(has_prefix("anything", ""));
}

#[test]
fn substring_search_finds_first_occurrence() {
    assert_eq!(find_sub("abcabc", "bc"), Some(1));
    assert_eq!(find_sub("abc", "zz"), None);
    assert!(contains_sub("--- /dev/null", "/dev/null"));
    assert!(!contains_sub("--- a/dev.rs", "/dev/null"));
}

#[test]
fn remove_first_removes_one_occurrence() {
    assert_eq!(remove_first("+++ b/x.txt", "+++ b/"), "x.txt");
    assert_eq!(remove_first("+++ x.txt", "+++ b/"), "+++ x.txt");
    assert_eq!(remove_first("abab", "ab"), "ab");
}

#[test]
fn char_searches() {
    assert_eq!(find_char("ab|cd|e", '|'), Some(2));
    assert_eq!(find_char("abc", '|'), None);
    assert_eq!(rfind_char("a/b/c.rs", '/'), Some(3));
    assert_eq!(rfind_char("abc", '/'), None);
}

#[test]
fn blank_and_trim() {
    assert!(blank("  \t\r\n"));
    assert!(blank(""));
    assert!(!blank("  x "));
    assert_eq!(trim("  name \t"), "name");
    assert_eq!(trim(""), "");
    assert_eq!(trim("inner space kept"), "inner space kept");
}

#[test]
fn string_equality() {
    assert!(str_eq("abc", "abc"));
    assert!(!str_eq("abc", "abd"));
    assert!(!str_eq("abc", "ab"));
}

#[test]
fn decimal_rendering() {
    assert_eq!(dec_u32(0), "0");
    assert_eq!(dec_u32(7), "7");
    assert_eq!(dec_u32(4294967295), "4294967295");
    assert_eq!(dec_u64(18446744073709551615), "18446744073709551615");
    assert_eq!(dec_usize(105), "105");
}

#[test]
fn line_splitting_matches_standard_semantics() {
    let lines = split_lines("a\nb\r\nc");
    assert_eq!(lines, vec!["a".to_string(), "b".to_string(), "c".to_string()]);
    let lines = split_lines("a\n\nb\n");
    assert_eq!(lines, vec!["a".to_string(), "".to_string(), "b".to_string()]);
    let empty: Vec<String> = Vec::new();
    assert_eq!(split_lines(""), empty);
}
