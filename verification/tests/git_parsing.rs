use syntaxis::git_model::GitErrorCode;
use syntaxis::git_parsing::{
    apply_path_stats, parse_branches, parse_comparison_counts, parse_commit_record,
    parse_history, parse_numstat, parse_path_numstat, parse_tags, trim_ascii_end,
    untracked_line_count,
};
use syntaxis::git_status::parse_status;

#[test]
fn branches_keep_locals_and_named_remote_refs() {
    let output = b"main\0*\0origin/main\0refs/heads/main\nfeature\0 \0\0refs/heads/feature\norigin\0 \0\0refs/remotes/origin\norigin/main\0 \0\0refs/remotes/origin/main\n";
    let branches = parse_branches(output).unwrap();
    assert_eq!(branches.len(), 3);
    assert_eq!(branches[0].name, "main");
    assert!(branches[0].current);
    assert_eq!(branches[0].upstream.as_deref(), Some("origin/main"));
    assert!(!branches[0].remote);
    assert_eq!(branches[1].upstream, None);
    assert!(!branches[1].current);
    assert_eq!(branches[2].name, "origin/main");
    assert!(branches[2].remote);
}

#[test]
fn branch_records_need_four_fields() {
    let error = parse_branches(b"main\0*\0\n").unwrap_err();
    assert_eq!(error.code, GitErrorCode::Parse);
    assert_eq!(error.message, "Git returned data in an unexpected format.");
}

#[test]
fn tags_point_annotated_tags_at_their_commit() {
    let tags = parse_tags(b"v1\0commit\0abc\0\nv2\0tag\0t123\0def\n").unwrap();
    assert_eq!(tags.len(), 2);
    assert_eq!(tags[0].target_oid, "abc");
    assert!(!tags[0].annotated);
    assert_eq!(tags[1].target_oid, "def");
    assert!(tags[1].annotated);
    assert!(parse_tags(b"v3\0tag\0t1\0\n").is_err());
}

#[test]
fn path_numstat_reads_renames_and_binary_files() {
    let output = b"3\t1\tsrc/lib.rs\0-\t-\timage.png\0\x32\t0\t\0old.rs\0new.rs\0";
    let stats = parse_path_numstat(output).unwrap();
    assert_eq!(
        stats,
        vec![
            ("src/lib.rs".to_owned(), 3, 1),
            ("image.png".to_owned(), 0, 0),
            ("new.rs".to_owned(), 2, 0)
        ]
    );
    assert!(parse_path_numstat(b"1\t2\0").is_err());
    assert!(parse_path_numstat(b"x\t2\tfile\0").is_err());
    assert!(parse_path_numstat(b"1\t2\t\0old.rs").is_err());
}

#[test]
fn path_stats_add_to_matching_changes() {
    let mut status = parse_status(
        b"1 .M N... 100644 100644 100644 a b src/lib.rs\x002 R. N... 100644 100644 100644 a b R100 new.rs\0old.rs\0",
    )
    .unwrap();
    apply_path_stats(
        &mut status,
        &[("src/lib.rs".to_owned(), 3, 1), ("old.rs".to_owned(), 5, 6), ("missing".to_owned(), 9, 9)],
        false,
    );
    apply_path_stats(&mut status, &[("src/lib.rs".to_owned(), u64::MAX, 2)], true);
    apply_path_stats(&mut status, &[("src/lib.rs".to_owned(), 1, 0)], true);
    assert_eq!(status.changes[0].unstaged_additions, 3);
    assert_eq!(status.changes[0].unstaged_deletions, 1);
    assert_eq!(status.changes[0].staged_additions, u64::MAX);
    assert_eq!(status.changes[0].staged_deletions, 2);
    assert_eq!(status.changes[1].unstaged_additions, 5);
    assert_eq!(status.changes[1].unstaged_deletions, 6);
}

#[test]
fn untracked_files_count_lines_unless_binary() {
    assert_eq!(untracked_line_count(b"a\nb\n"), Some(2));
    assert_eq!(untracked_line_count(b"a\nb"), Some(2));
    assert_eq!(untracked_line_count(b""), Some(1));
    assert_eq!(untracked_line_count(b"\n"), Some(1));
    assert_eq!(untracked_line_count(b"a\0b"), None);
}

#[test]
fn history_records_are_trimmed_and_parsed() {
    let output = b"abc\x1fa\x1fp1 p2\x1fAda\x1fada@example.test\x1f-17\x1fSubject line\n\0\n\0";
    let history = parse_history(output).unwrap();
    assert_eq!(history.len(), 1);
    let commit = &history[0];
    assert_eq!(commit.oid, "abc");
    assert_eq!(commit.parents, vec!["p1".to_owned(), "p2".to_owned()]);
    assert_eq!(commit.authored_unix_seconds, -17);
    assert_eq!(commit.subject, "Subject line");
    assert!(parse_commit_record(b"abc\x1fa").is_err());
    assert!(parse_commit_record(b"a\x1fb\x1f\x1fn\x1fe\x1fsoon\x1fs").is_err());
    assert_eq!(trim_ascii_end(b"x \t\r\n"), 1);
}

#[test]
fn numstat_totals_saturate_and_skip_binary_counts() {
    assert_eq!(parse_numstat(b"1\t2\ta\n-\t-\tb\r\n\n3\t4\tc\n").unwrap(), (3, 4, 6));
    assert_eq!(
        parse_numstat(b"18446744073709551615\t0\ta\n1\t0\tb\n").unwrap(),
        (2, u64::MAX, 0)
    );
    assert!(parse_numstat(b"1\t2\n").is_err());
    assert!(parse_numstat(b"\xff").is_err());
}

#[test]
fn comparison_counts_need_exactly_two_numbers() {
    assert_eq!(parse_comparison_counts(b"3\t5\n").unwrap(), (3, 5));
    assert!(parse_comparison_counts(b"3").is_err());
    assert!(parse_comparison_counts(b"3 5 7").is_err());
    assert!(parse_comparison_counts(b"3 x").is_err());
}
