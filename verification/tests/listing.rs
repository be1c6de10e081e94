use git_hunks::refs::{branch_list_args, collect_refs, log_args, parse_branches, parse_commits};

#[test]
fn listing_invocations() {
    assert_eq!(
        branch_list_args(),
        vec!["branch".to_string(), "-a".to_string(), "--format=%(refname:short)".to_string()]
    );
    assert_eq!(
        log_args(),
        vec![
            "log".to_string(),
            "--oneline".to_string(),
            "-20".to_string(),
            "--pretty=format:%h|%s".to_string()
        ]
    );
}

#[test]
fn branches_are_trimmed_and_filtered() {
    let refs = parse_branches("main\n  feature/x \n\norigin/HEAD -> origin/main\norigin/main\n");
    let names: Vec<&str> = refs.iter().map(|r| r.name.as_str()).collect();
    assert_eq!(names, vec!["main", "feature/x", "origin/main"]);
    for r in &refs {
        assert_eq!(r.ref_type, "branch");
        assert!(r.short_hash.is_none());
        assert!(r.message.is_none());
    }
}

#[test]
fn commits_split_on_first_separator() {
    let refs = parse_commits("abc123|fix the thing\nnoseparator\ndef456|msg | with pipe\n");
    assert_eq!(refs.len(), 2);
    assert_eq!(refs[0].name, "abc123 - fix the thing");
    assert_eq!(refs[0].ref_type, "commit");
    assert_eq!(refs[0].short_hash.as_deref(), Some("abc123"));
    assert_eq!(refs[0].message.as_deref(), Some("fix the thing"));
    assert_eq!(refs[1].name, "def456 - msg | with pipe");
    assert_eq!(refs[1].message.as_deref(), Some("msg | with pipe"));
}

#[test]
fn failed_listings_contribute_nothing() {
    let branch_text = "main\n".to_string();
    let refs = collect_refs(Some(&branch_text), None);
    assert_eq!(refs.branches.len(), 1);
    assert_eq!(refs.recent_commits.len(), 0);
    let refs2 = collect_refs(None, None);
    assert_eq!(refs2.branches.len(), 0);
    assert_eq!(refs2.recent_commits.len(), 0);
}
