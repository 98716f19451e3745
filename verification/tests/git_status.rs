use syntaxis::git_model::{ChangeKind, GitErrorCode};
use syntaxis::git_status::parse_status;

#[test]
fn parses_branch_counts_and_nul_delimited_renames() {
    let output = [
        "# branch.oid abc123\0",
        "# branch.head feature/test\0",
        "# branch.upstream origin/feature/test\0",
        "# branch.ab +2 -3\0",
        "2 R. N... 100644 100644 100644 abc123 def456 R100 new name.rs\0",
        "old name.rs\0",
        "? untracked.txt\0",
    ]
    .join("");
    let status = parse_status(output.as_bytes()).unwrap();

    assert_eq!(status.branch.head.as_deref(), Some("feature/test"));
    assert_eq!(status.branch.ahead, 2);
    assert_eq!(status.branch.behind, 3);
    assert_eq!(status.changes.len(), 2);
    assert_eq!(status.changes[0].index, Some(ChangeKind::Renamed));
    assert_eq!(status.changes[0].path.as_str(), "new name.rs");
    assert_eq!(status.changes[0].original_path.as_deref(), Some("old name.rs"));
    assert_eq!(status.changes[1].worktree, Some(ChangeKind::Untracked));
}

#[test]
fn initial_and_detached_headers_leave_the_branch_unset() {
    let status = parse_status(b"# branch.oid (initial)\0# branch.head (detached)\0").unwrap();
    assert_eq!(status.branch.oid, None);
    assert_eq!(status.branch.head, None);
    assert_eq!(status.branch.ahead, 0);
}

#[test]
fn ordinary_unmerged_and_ignored_records_are_classified() {
    let output = [
        "1 .M N... 100644 100644 100644 abc def src/lib.rs\0",
        "u UU N... 100644 100644 100644 100644 a b c both.txt\0",
        "! target\0",
        "1 AD N... 100644 100644 100644 abc def gone.rs\0",
    ]
    .join("");
    let status = parse_status(output.as_bytes()).unwrap();
    assert_eq!(status.changes.len(), 3);
    assert_eq!(status.changes[0].index, None);
    assert_eq!(status.changes[0].worktree, Some(ChangeKind::Modified));
    assert!(!status.changes[0].conflicted);
    assert!(status.changes[1].conflicted);
    assert_eq!(status.changes[1].path, "both.txt");
    assert_eq!(status.changes[2].index, Some(ChangeKind::Added));
    assert_eq!(status.changes[2].worktree, Some(ChangeKind::Deleted));
    assert_eq!(status.staged_count(), 1);
    assert_eq!(status.unstaged_count(), 2);
    assert_eq!(status.conflict_count(), 1);
    assert!(status.changes[2].is_staged() && status.changes[2].is_unstaged());
}

#[test]
fn malformed_records_are_parse_errors() {
    for output in [
        &b"x unknown\0"[..],
        &b"1 .M too few fields\0"[..],
        &b"2 R. N... 100644 abc def R100 renamed.rs\0old.rs\0"[..],
        &b"2 R. N... 100644 100644 100644 abc def R100 renamed.rs"[..],
        &b"# branch.ab 2 -3\0"[..],
        &b"1 .Z N... 100644 100644 100644 abc def file\0"[..],
        &b"? \xff\0"[..],
    ] {
        let error = parse_status(output).unwrap_err();
        assert_eq!(error.code, GitErrorCode::Parse);
        assert_eq!(error.message, "Git returned repository status in an unexpected format.");
    }
}
