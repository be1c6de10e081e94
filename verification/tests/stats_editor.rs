use git_hunks::editor::{
    build_editor_invocation, editor_probe_plan, editor_target_path, no_editor_message,
    path_with_line,
};
use git_hunks::hunks::parse_diff_to_hunks;
use git_hunks::meta::{apply_file_stats, file_stat_fields, stat_path};

#[test]
fn missing_metadata_degrades_to_placeholders() {
    let (size, modified) = file_stat_fields(None);
    assert_eq!(size, 0);
    assert_eq!(modified, "unknown");
}

#[test]
fn available_metadata_is_rendered_as_fixed_offset_timestamp() {
    let (size, modified) = file_stat_fields(Some((42, 1431648000)));
    assert_eq!(size, 42);
    assert_eq!(modified, "2015-05-15T00:00:00+00:00");
}

#[test]
fn epoch_renders_exactly() {
    let (_, modified) = file_stat_fields(Some((1, 0)));
    assert_eq!(modified, "1970-01-01T00:00:00+00:00");
}

#[test]
fn stat_path_joins_base_and_name() {
    assert_eq!(stat_path("/repo", "src/a.rs"), "/repo/src/a.rs");
}

#[test]
fn stats_are_applied_per_file_name() {
    let text = "diff --git a/x.txt b/x.txt\n--- a/x.txt\n+++ b/x.txt\n@@ -1 +1 @@\n-a\n+b\n\
                diff --git a/y.txt b/y.txt\n--- a/y.txt\n+++ b/y.txt\n@@ -1 +1 @@\n-c\n+d\n";
    let r = parse_diff_to_hunks(text);
    let r = apply_file_stats(r, "x.txt", 99, "2015-05-15T00:00:00+00:00");
    assert_eq!(r.hunks[0].stats.size, 99);
    assert_eq!(r.hunks[0].stats.modified, "2015-05-15T00:00:00+00:00");
    assert_eq!(r.hunks[1].stats.size, 0);
    assert_eq!(r.hunks[1].stats.modified, "unknown");
    assert_eq!(r.total_stats.added, 2);
    assert_eq!(r.total_stats.files, 2);
}

#[test]
fn probe_plan_outside_windows() {
    let plan = editor_probe_plan(false);
    let ids: Vec<&str> = plan.iter().map(|c| c.editor_id.as_str()).collect();
    assert_eq!(ids, vec!["code", "subl", "atom"]);
    assert_eq!(plan[0].probe_program, "code");
    assert_eq!(plan[0].probe_args, vec!["--version".to_string()]);
}

#[test]
fn probe_plan_on_windows() {
    let plan = editor_probe_plan(true);
    let ids: Vec<&str> = plan.iter().map(|c| c.editor_id.as_str()).collect();
    assert_eq!(
        ids,
        vec!["code.cmd", "code.exe", "code", "cmd-code", "subl", "atom", "notepad++", "notepad"]
    );
    assert_eq!(plan[3].probe_program, "cmd");
    assert_eq!(
        plan[3].probe_args,
        vec!["/c".to_string(), "code".to_string(), "--version".to_string()]
    );
    assert_eq!(plan[7].probe_args, vec!["/?".to_string()]);
}

#[test]
fn code_editor_takes_goto_argument() {
    let (program, args) = build_editor_invocation("code", "/r/f.rs", Some(10));
    assert_eq!(program, "code");
    assert_eq!(args, vec!["-r".to_string(), "-g".to_string(), "/r/f.rs:10".to_string()]);
    let (program, args) = build_editor_invocation("code", "/r/f.rs", None);
    assert_eq!(program, "code");
    assert_eq!(args, vec!["-r".to_string(), "/r/f.rs".to_string()]);
}

#[test]
fn shell_mediated_code_editor_runs_through_shell() {
    let (program, args) = build_editor_invocation("cmd-code", "f.rs", None);
    assert_eq!(program, "cmd");
    assert_eq!(
        args,
        vec!["/c".to_string(), "code".to_string(), "-r".to_string(), "f.rs".to_string()]
    );
}

#[test]
fn line_suffix_editors_join_with_colon() {
    let (program, args) = build_editor_invocation("subl", "f.rs", Some(7));
    assert_eq!(program, "subl");
    assert_eq!(args, vec!["f.rs:7".to_string()]);
}

#[test]
fn notepad_variant_takes_line_flag() {
    let (program, args) = build_editor_invocation("notepad++", "f.rs", Some(12));
    assert_eq!(program, "notepad++");
    assert_eq!(args, vec!["-n".to_string(), "12".to_string(), "f.rs".to_string()]);
}

#[test]
fn unknown_editor_gets_path_alone() {
    let (program, args) = build_editor_invocation("vim", "f.rs", Some(3));
    assert_eq!(program, "vim");
    assert_eq!(args, vec!["f.rs".to_string()]);
}

#[test]
fn editor_path_resolution() {
    assert_eq!(editor_target_path("/abs/f.rs", "/repo", true), "/abs/f.rs");
    assert_eq!(editor_target_path("f.rs", "/repo", false), "/repo/f.rs");
    assert_eq!(path_with_line("a/b.rs", 42), "a/b.rs:42");
}

#[test]
fn no_editor_message_names_alternatives() {
    assert_eq!(
        no_editor_message(),
        "No supported editor found. Please install VS Code, Sublime Text, or another supported editor."
    );
}
