use git_hunks::resolve::{
    append_untracked_piece, classify_repo_probe, context_arg, finish_diff, invocation_failure_message,
    primary_diff_args, repo_probe_args, spawn_failure_message, staged_fallback_args,
    untracked_diff_args, untracked_files_of, untracked_list_args, wants_staged_fallback,
    ComparisonRequest, DiffError,
};

fn request(source: &str, target: &str, context: u32, untracked: bool) -> ComparisonRequest {
    ComparisonRequest {
        source: source.to_string(),
        target: target.to_string(),
        context_lines: context,
        include_untracked: untracked,
    }
}

#[test]
fn defaults_fill_absent_options() {
    let r = ComparisonRequest::from_options(None, None, None, None);
    assert_eq!(r.source, "working");
    assert_eq!(r.target, "HEAD");
    assert_eq!(r.context_lines, 3);
    assert!(!r.include_untracked);
}

#[test]
fn explicit_options_are_kept() {
    let r = ComparisonRequest::from_options(
        Some("staged".to_string()),
        Some("main".to_string()),
        Some(7),
        Some(true),
    );
    assert_eq!(r.source, "staged");
    assert_eq!(r.target, "main");
    assert_eq!(r.context_lines, 7);
    assert!(r.include_untracked);
}

#[test]
fn working_source_compares_against_target() {
    let args = primary_diff_args(&request("working", "HEAD", 3, false));
    assert_eq!(args, vec!["diff".to_string(), "-U3".to_string(), "HEAD".to_string()]);
}

#[test]
fn staged_source_against_head_needs_no_target() {
    let args = primary_diff_args(&request("staged", "HEAD", 3, false));
    assert_eq!(args, vec!["diff".to_string(), "-U3".to_string(), "--staged".to_string()]);
}

#[test]
fn staged_source_against_other_target_names_it() {
    let args = primary_diff_args(&request("staged", "main", 5, false));
    assert_eq!(
        args,
        vec!["diff".to_string(), "-U5".to_string(), "--staged".to_string(), "main".to_string()]
    );
}

#[test]
fn ref_source_compares_range() {
    let args = primary_diff_args(&request("feature", "main", 3, false));
    assert_eq!(args, vec!["diff".to_string(), "-U3".to_string(), "feature..main".to_string()]);
}

#[test]
fn equal_source_and_target_substitute_head() {
    let args = primary_diff_args(&request("main", "main", 3, false));
    assert_eq!(args, vec!["diff".to_string(), "-U3".to_string(), "main..HEAD".to_string()]);
}

#[test]
fn context_argument_renders_decimal() {
    assert_eq!(context_arg(0), "-U0");
    assert_eq!(context_arg(3), "-U3");
    assert_eq!(context_arg(1234), "-U1234");
}

#[test]
fn fixed_invocations() {
    assert_eq!(
        repo_probe_args(),
        vec!["rev-parse".to_string(), "--git-dir".to_string()]
    );
    assert_eq!(
        untracked_list_args(),
        vec!["ls-files".to_string(), "--others".to_string(), "--exclude-standard".to_string()]
    );
    assert_eq!(
        staged_fallback_args(3),
        vec!["diff".to_string(), "-U3".to_string(), "--cached".to_string()]
    );
    assert_eq!(
        untracked_diff_args(3, "/dev/null", "new.txt"),
        vec![
            "diff".to_string(),
            "--no-index".to_string(),
            "-U3".to_string(),
            "/dev/null".to_string(),
            "new.txt".to_string()
        ]
    );
}

#[test]
fn untracked_listing_drops_blank_lines() {
    let files = untracked_files_of("new.txt\n\n  \nsub/dir.rs\n");
    assert_eq!(files, vec!["new.txt".to_string(), "sub/dir.rs".to_string()]);
}

#[test]
fn merging_untracked_diffs_keeps_order_behind_newline() {
    let mut acc = String::from("tracked text");
    append_untracked_piece(&mut acc, "untracked text");
    assert_eq!(acc, "tracked text\nuntracked text");
}

#[test]
fn blank_piece_changes_nothing() {
    let mut acc = String::from("tracked text");
    append_untracked_piece(&mut acc, "  \n");
    assert_eq!(acc, "tracked text");
}

#[test]
fn piece_on_blank_accumulator_needs_no_separator() {
    let mut acc = String::new();
    append_untracked_piece(&mut acc, "only text");
    assert_eq!(acc, "only text");
}

#[test]
fn untracked_file_hunk_is_merged_after_tracked_hunks() {
    let mut acc = String::from(
        "diff --git a/x.txt b/x.txt\n--- a/x.txt\n+++ b/x.txt\n@@ -1,2 +1,3 @@\n line1\n+line2\n-line3\n",
    );
    let untracked =
        "diff --git a/new.txt b/new.txt\n--- /dev/null\n+++ b/new.txt\n@@ -0,0 +1 @@\n+hello\n";
    append_untracked_piece(&mut acc, untracked);
    let req = request("working", "HEAD", 3, true);
    let r = finish_diff(&req, &acc, None);
    assert_eq!(r.hunks.len(), 2);
    assert_eq!(r.hunks[0].file_name, "x.txt");
    assert_eq!(r.hunks[1].file_name, "new.txt");
    assert_eq!(r.hunks[1].stats.added, 1);
    assert_eq!(r.hunks[1].stats.removed, 0);
}

#[test]
fn default_request_with_only_staged_changes_returns_staged_diff() {
    let req = request("working", "HEAD", 3, false);
    assert!(wants_staged_fallback(&req, "  \n"));
    let staged =
        "diff --git a/s.txt b/s.txt\n--- a/s.txt\n+++ b/s.txt\n@@ -1 +1 @@\n-a\n+b\n".to_string();
    let r = finish_diff(&req, "", Some(&staged));
    assert_eq!(r.hunks.len(), 1);
    assert_eq!(r.hunks[0].file_name, "s.txt");
    assert_eq!(r.total_stats.added, 1);
    assert_eq!(r.total_stats.removed, 1);
}

#[test]
fn default_request_with_nothing_anywhere_is_empty_success() {
    let req = request("working", "HEAD", 3, false);
    let r = finish_diff(&req, "", Some(&"  ".to_string()));
    assert_eq!(r.hunks.len(), 0);
    assert_eq!(r.total_stats.files, 0);
    let r2 = finish_diff(&req, "", None);
    assert_eq!(r2.hunks.len(), 0);
}

#[test]
fn explicit_comparison_gets_no_fallback() {
    let req = request("feature", "main", 3, false);
    assert!(!wants_staged_fallback(&req, ""));
    let r = finish_diff(&req, "", None);
    assert_eq!(r.hunks.len(), 0);
}

#[test]
fn non_repository_probe_is_fatal_and_classified() {
    let r = classify_repo_probe(false);
    match r {
        Err(DiffError::NotARepository) => {}
        _ => panic!("expected the not-a-repository failure"),
    }
    assert_eq!(
        DiffError::NotARepository.message(),
        "Not a git repository or git not found"
    );
    assert!(classify_repo_probe(true).is_ok());
}

#[test]
fn failure_messages_carry_diagnostics() {
    assert_eq!(
        invocation_failure_message("fatal: bad revision"),
        "Git command failed: fatal: bad revision"
    );
    assert_eq!(
        spawn_failure_message("No such file or directory"),
        "Failed to execute git command: No such file or directory"
    );
    let e = DiffError::InvocationFailed("Git command failed: boom".to_string());
    assert_eq!(e.message(), "Git command failed: boom");
}
