use git_hunks::hunks::{ext_of, extract_file_name, file_names, parse_diff_to_hunks};

const SIMPLE_DIFF: &str =
    "diff --git a/x.txt b/x.txt\n--- a/x.txt\n+++ b/x.txt\n@@ -1,2 +1,3 @@\n line1\n+line2\n-line3\n";

#[test]
fn single_hunk_scenario() {
    let r = parse_diff_to_hunks(SIMPLE_DIFF);
    assert_eq!(r.hunks.len(), 1);
    assert_eq!(r.hunks[0].file_name, "x.txt");
    assert_eq!(r.hunks[0].file_ext, "txt");
    assert_eq!(r.hunks[0].hunk_header, "@@ -1,2 +1,3 @@");
    assert_eq!(r.hunks[0].hunk_id, "x.txt-0");
    assert_eq!(r.hunks[0].stats.added, 1);
    assert_eq!(r.hunks[0].stats.removed, 1);
    assert_eq!(r.total_stats.added, 1);
    assert_eq!(r.total_stats.removed, 1);
    assert_eq!(r.total_stats.files, 1);
    assert_eq!(
        r.hunks[0].hunk_lines,
        vec![" line1".to_string(), "+line2".to_string(), "-line3".to_string()]
    );
}

#[test]
fn empty_input_gives_empty_result() {
    let r = parse_diff_to_hunks("");
    assert_eq!(r.hunks.len(), 0);
    assert_eq!(r.total_stats.added, 0);
    assert_eq!(r.total_stats.removed, 0);
    assert_eq!(r.total_stats.files, 0);
}

#[test]
fn blank_input_gives_empty_result() {
    let r = parse_diff_to_hunks("   \n \t \n");
    assert_eq!(r.hunks.len(), 0);
    assert_eq!(r.total_stats.files, 0);
}

#[test]
fn text_without_marker_gives_empty_result() {
    let r = parse_diff_to_hunks("just some prose\nwith lines\n");
    assert_eq!(r.hunks.len(), 0);
    assert_eq!(r.total_stats.files, 0);
}

fn two_file_diff() -> String {
    let mut s = String::new();
    s.push_str("diff --git a/a.rs b/a.rs\n--- a/a.rs\n+++ b/a.rs\n");
    s.push_str("@@ -1,3 +1,4 @@\n+one\n+two\n-three\n ctx\n");
    s.push_str("@@ -10,2 +11,2 @@\n+four\n-five\n");
    s.push_str("diff --git a/b.py b/b.py\n--- a/b.py\n+++ b/b.py\n");
    s.push_str("@@ -1 +1 @@\n-old\n+new\n");
    s
}

#[test]
fn totals_equal_sum_of_hunk_counts() {
    let r = parse_diff_to_hunks(&two_file_diff());
    let added: usize = r.hunks.iter().map(|h| h.stats.added).sum();
    let removed: usize = r.hunks.iter().map(|h| h.stats.removed).sum();
    assert_eq!(r.total_stats.added, added);
    assert_eq!(r.total_stats.removed, removed);
    assert_eq!(added, 4);
    assert_eq!(removed, 3);
}

#[test]
fn file_total_counts_distinct_names_once() {
    let r = parse_diff_to_hunks(&two_file_diff());
    assert_eq!(r.hunks.len(), 3);
    let mut names: Vec<&str> = r.hunks.iter().map(|h| h.file_name.as_str()).collect();
    names.sort();
    names.dedup();
    assert_eq!(r.total_stats.files, names.len());
    assert_eq!(r.total_stats.files, 2);
}

#[test]
fn hunk_ids_count_per_file_from_zero() {
    let r = parse_diff_to_hunks(&two_file_diff());
    assert_eq!(r.hunks[0].hunk_id, "a.rs-0");
    assert_eq!(r.hunks[1].hunk_id, "a.rs-1");
    assert_eq!(r.hunks[2].hunk_id, "b.py-0");
}

#[test]
fn reparsing_yields_identical_ids() {
    let text = two_file_diff();
    let r1 = parse_diff_to_hunks(&text);
    let r2 = parse_diff_to_hunks(&text);
    let ids1: Vec<String> = r1.hunks.iter().map(|h| h.hunk_id.clone()).collect();
    let ids2: Vec<String> = r2.hunks.iter().map(|h| h.hunk_id.clone()).collect();
    assert_eq!(ids1, ids2);
}

#[test]
fn bodies_hold_neither_header_nor_no_newline_notice() {
    let mut text = two_file_diff();
    text.push_str("diff --git a/c b/c\n--- a/c\n+++ b/c\n@@ -1 +1 @@\n-x\n+y\n\\ No newline at end of file\n");
    let r = parse_diff_to_hunks(&text);
    for h in &r.hunks {
        for line in &h.hunk_lines {
            assert_ne!(line, &h.hunk_header);
            assert!(!line.starts_with("\\ No newline at end of file"));
        }
    }
}

#[test]
fn no_newline_notice_is_not_counted_or_stored() {
    let text =
        "diff --git a/c b/c\n--- a/c\n+++ b/c\n@@ -1 +1 @@\n-x\n+y\n\\ No newline at end of file\n";
    let r = parse_diff_to_hunks(text);
    assert_eq!(r.hunks.len(), 1);
    assert_eq!(r.hunks[0].hunk_lines, vec!["-x".to_string(), "+y".to_string()]);
    assert_eq!(r.hunks[0].stats.added, 1);
    assert_eq!(r.hunks[0].stats.removed, 1);
}

#[test]
fn header_trailing_context_is_trimmed() {
    let text = "diff --git a/f.c b/f.c\n--- a/f.c\n+++ b/f.c\n@@ -3,7 +3,7 @@ int main(void) {\n+x\n";
    let r = parse_diff_to_hunks(text);
    assert_eq!(r.hunks[0].hunk_header, "@@ -3,7 +3,7 @@");
}

#[test]
fn header_without_closing_marker_is_kept_whole() {
    let text = "diff --git a/f b/f\n--- a/f\n+++ b/f\n@@ odd header\n+x\n";
    let r = parse_diff_to_hunks(text);
    assert_eq!(r.hunks[0].hunk_header, "@@ odd header");
}

#[test]
fn new_file_against_null_device_uses_new_side_name() {
    let text = "diff --git a/new.txt b/new.txt\n--- /dev/null\n+++ b/new.txt\n@@ -0,0 +1 @@\n+hello\n";
    let r = parse_diff_to_hunks(text);
    assert_eq!(r.hunks[0].file_name, "new.txt");
    assert_eq!(r.hunks[0].stats.added, 1);
    assert_eq!(r.hunks[0].stats.removed, 0);
}

#[test]
fn deleted_file_falls_back_to_old_side_name() {
    let text = "diff --git a/gone.txt b/gone.txt\n--- a/gone.txt\n+++ /dev/null\n@@ -1 +0,0 @@\n-bye\n";
    let r = parse_diff_to_hunks(text);
    assert_eq!(r.hunks[0].file_name, "gone.txt");
}

#[test]
fn both_sides_null_give_placeholder_name() {
    let lines = vec!["--- /dev/null".to_string(), "+++ /dev/null".to_string()];
    assert_eq!(extract_file_name(&lines), "Unknown file");
}

#[test]
fn extract_file_name_strips_conventional_prefix() {
    let lines = vec!["--- a/src/m.rs".to_string(), "+++ b/src/m.rs".to_string()];
    assert_eq!(extract_file_name(&lines), "src/m.rs");
}

#[test]
fn extract_file_name_keeps_unconventional_path() {
    let lines = vec!["+++ other/src/m.rs".to_string()];
    assert_eq!(extract_file_name(&lines), "+++ other/src/m.rs");
}

#[test]
fn extension_cases() {
    assert_eq!(ext_of("a.tar.gz"), "gz");
    assert_eq!(ext_of("noext"), "");
    assert_eq!(ext_of(".gitignore"), "");
    assert_eq!(ext_of("dir.d/file"), "");
    assert_eq!(ext_of("dir/file.rs"), "rs");
}

#[test]
fn carriage_returns_are_stripped_from_lines() {
    let text = "diff --git a/w.txt b/w.txt\r\n--- a/w.txt\r\n+++ b/w.txt\r\n@@ -1 +1 @@\r\n+crlf\r\n";
    let r = parse_diff_to_hunks(text);
    assert_eq!(r.hunks[0].file_name, "w.txt");
    assert_eq!(r.hunks[0].hunk_lines, vec!["+crlf".to_string()]);
}

#[test]
fn segment_without_hunks_contributes_nothing() {
    let text = "diff --git a/ren.txt b/ren2.txt\nsimilarity index 100%\nrename from ren.txt\nrename to ren2.txt\n";
    let r = parse_diff_to_hunks(text);
    assert_eq!(r.hunks.len(), 0);
    assert_eq!(r.total_stats.files, 0);
}

#[test]
fn file_names_lists_each_name_once_in_order() {
    let r = parse_diff_to_hunks(&two_file_diff());
    let names = file_names(&r);
    assert_eq!(names, vec!["a.rs".to_string(), "b.py".to_string()]);
}

#[test]
fn parse_stats_start_at_placeholder_values() {
    let r = parse_diff_to_hunks(SIMPLE_DIFF);
    assert_eq!(r.hunks[0].stats.size, 0);
    assert_eq!(r.hunks[0].stats.modified, "unknown");
}

#[test]
fn empty_body_between_adjacent_headers() {
    let text = "diff --git a/f b/f\n--- a/f\n+++ b/f\n@@ -1 +1 @@\n@@ -5 +5 @@\n+x\n";
    let r = parse_diff_to_hunks(text);
    assert_eq!(r.hunks.len(), 2);
    assert!(r.hunks[0].hunk_lines.is_empty());
    assert_eq!(r.hunks[0].stats.added, 0);
    assert_eq!(r.hunks[1].stats.added, 1);
}

#[test]
fn compact_marker_run_is_a_complete_header() {
    let text = "diff --git a/f b/f\n--- a/f\n+++ b/f\n@@@@ tail\n+x\n";
    let r = parse_diff_to_hunks(text);
    assert_eq!(r.hunks[0].hunk_header, "@@@@");
}

#[test]
fn first_new_side_line_pointing_at_null_device_is_passed_over() {
    let lines = vec![
        "+++ /dev/null".to_string(),
        "+++ b/kept.txt".to_string(),
        "--- a/old.txt".to_string(),
    ];
    assert_eq!(extract_file_name(&lines), "kept.txt");
}

#[test]
fn path_marker_lines_inside_a_body_count_by_first_character() {
    let text = "diff --git a/f b/f\n@@ -1,2 +1,2 @@\n+++ odd\n--- odd\n ctx\n";
    let r = parse_diff_to_hunks(text);
    assert_eq!(r.hunks.len(), 1);
    assert_eq!(r.hunks[0].stats.added, 1);
    assert_eq!(r.hunks[0].stats.removed, 1);
}
