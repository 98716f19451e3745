use syntaxis::diff::DiffHunk;
use syntaxis::git_commands::{
    add_remote_commands, check_ref_format_arguments, check_signing_format, clone_arguments,
    commit_arguments, commit_failure, commit_message_text, commit_presence, commit_summary,
    committed, config_enabled, config_value, create_branch_arguments, current_side,
    delete_branch_arguments, diff_arguments, effective_push_url, fetched, head_oid,
    history_arguments, hunk_apply_arguments, ignored_paths, initialize_check, is_binary_patch,
    local_branch_name, map_workspace_error, merge_failure, merged, missing_remote_failure,
    original_revision, path_arguments, publish_arguments, published, pull_failure, push_arguments,
    push_outcome, ref_name_failure, remote_info, remote_names, require_commit_arguments,
    require_conflicted_path, require_paths, retries_over_ssh, revert_failure, revision_text,
    selected_hunk_patch, show_ref_arguments, show_revision_arguments, signed_arguments,
    signing_program, signing_requested, split_discard_paths, switch_arguments, tag_arguments,
    update_remote_commands, CloneMode, RefName, WorkspaceErrorCode, GITHUB_SSH_PUSH_REWRITE,
};
use syntaxis::git_model::{
    CommitOutcome, DiffKind, GitError, GitErrorCode, HunkAction, MergeOutcome, PushOutcome,
    RemoteRequest, TagRequest,
};
use syntaxis::git_status::parse_status;

fn strings(values: &[&str]) -> Vec<String> {
    values.iter().map(|value| value.to_string()).collect()
}

fn error(code: GitErrorCode, message: &str) -> GitError {
    GitError::new(code, message)
}

#[test]
fn commit_arguments_follow_the_request() {
    assert_eq!(commit_arguments("Fix", false, false), strings(&["commit", "-m", "Fix"]));
    assert_eq!(
        commit_arguments("Fix", true, true),
        strings(&["commit", "-m", "Fix", "--amend", "--no-verify"])
    );
}

#[test]
fn configuration_switches_accept_the_usual_spellings() {
    for value in ["true", " YES ", "On\n", "1"] {
        assert!(config_enabled(value), "{value:?} should be enabled");
    }
    for value in ["false", "0", "", "enabled"] {
        assert!(!config_enabled(value), "{value:?} should be disabled");
    }
    assert!(signing_requested(Some("true"), false));
    assert!(signing_requested(None, true));
    assert!(!signing_requested(Some("false"), false));
}

#[test]
fn only_openpgp_signing_can_be_unlocked_in_the_app() {
    assert!(check_signing_format(None).is_ok());
    assert!(check_signing_format(Some("")).is_ok());
    assert!(check_signing_format(Some("openpgp")).is_ok());
    let refused = check_signing_format(Some("ssh")).unwrap_err();
    assert_eq!(refused.code, GitErrorCode::Unavailable);
}

#[test]
fn signed_commits_run_through_the_wrapper() {
    let signed = signed_arguments(strings(&["commit", "-m", "Fix"]), "/tmp/wrapper");
    assert_eq!(
        signed,
        strings(&["-c", "gpg.program=/tmp/wrapper", "commit", "-m", "Fix", "--gpg-sign"])
    );
}

#[test]
fn signing_program_skips_an_active_wrapper() {
    assert_eq!(signing_program(None, None, None), "gpg");
    assert_eq!(signing_program(Some("gpg2"), None, None), "gpg2");
    assert_eq!(signing_program(Some("/w"), Some("/w"), Some("gpg2")), "gpg2");
    assert_eq!(signing_program(Some("/w"), Some("/w"), None), "gpg");
    assert_eq!(signing_program(Some("/x"), Some("/w"), Some("gpg2")), "/x");
}

#[test]
fn commit_failures_become_outcomes_or_errors() {
    let retry = commit_failure(error(GitErrorCode::SigningPassphraseRequired, "unlock")).unwrap();
    assert_eq!(
        retry,
        CommitOutcome::SigningPassphraseRequired {
            message: "unlock".into()
        }
    );
    let hook = commit_failure(error(GitErrorCode::CommandFailed, "raw").with_exit_code(Some(1)))
        .unwrap_err();
    assert_eq!(hook.message, "Git or a configured commit hook rejected the commit.");
    assert_eq!(hook.exit_code, Some(1));
    let other = commit_failure(error(GitErrorCode::TimedOut, "slow")).unwrap_err();
    assert_eq!(other.code, GitErrorCode::TimedOut);
    assert_eq!(other.message, "slow");
}

#[test]
fn commit_summary_is_the_trimmed_first_line() {
    assert_eq!(commit_summary("  Fix parser  \r\n\nDetails"), "Fix parser");
    assert_eq!(commit_summary(""), "");
    match committed("abc".into(), "Add tests\nbody") {
        CommitOutcome::Committed { commit } => {
            assert_eq!(commit.oid, "abc");
            assert_eq!(commit.summary, "Add tests");
        }
        other => panic!("unexpected outcome {other:?}"),
    }
}

#[test]
fn hunk_actions_match_their_diff() {
    assert_eq!(
        hunk_apply_arguments(HunkAction::Stage, DiffKind::Worktree).unwrap(),
        strings(&["apply", "--recount", "--whitespace=nowarn", "--cached", "-"])
    );
    assert_eq!(
        hunk_apply_arguments(HunkAction::Unstage, DiffKind::Staged).unwrap(),
        strings(&["apply", "--recount", "--whitespace=nowarn", "--cached", "--reverse", "-"])
    );
    assert_eq!(
        hunk_apply_arguments(HunkAction::Discard, DiffKind::Worktree).unwrap(),
        strings(&["apply", "--recount", "--whitespace=nowarn", "--reverse", "-"])
    );
    let refused = hunk_apply_arguments(HunkAction::Stage, DiffKind::Staged).unwrap_err();
    assert_eq!(refused.code, GitErrorCode::Conflict);
}

#[test]
fn a_changed_or_missing_hunk_is_refused() {
    let hunk = DiffHunk {
        index: 0,
        header: "@@ -1 +1 @@".into(),
        body: "-a\n+b\n".into(),
        old_start: 1,
        new_start: 1,
        patch: "patch".into(),
        fingerprint: 7,
        additions: 1,
        deletions: 1,
    };
    let hunks = vec![hunk];
    assert_eq!(selected_hunk_patch(&hunks, 0, 7).unwrap(), "patch");
    assert!(selected_hunk_patch(&hunks, 0, 8)
        .unwrap_err()
        .message
        .contains("changed"));
    assert!(selected_hunk_patch(&hunks, 1, 7)
        .unwrap_err()
        .message
        .contains("no longer exists"));
}

#[test]
fn switching_prefers_an_existing_local_branch() {
    assert_eq!(local_branch_name("origin/feature/x"), "feature/x");
    assert_eq!(local_branch_name("main"), "main");
    assert_eq!(
        switch_arguments("origin/topic", true, true),
        strings(&["switch", "--", "topic"])
    );
    assert_eq!(
        switch_arguments("origin/topic", true, false),
        strings(&["switch", "--track", "origin/topic"])
    );
    assert_eq!(switch_arguments("topic", false, false), strings(&["switch", "--", "topic"]));
    assert_eq!(
        show_ref_arguments("refs/remotes/", "origin/topic"),
        strings(&["show-ref", "--verify", "--quiet", "refs/remotes/origin/topic"])
    );
}

#[test]
fn branch_arguments_follow_the_request() {
    assert_eq!(
        create_branch_arguments("topic", Some("main")),
        strings(&["switch", "-c", "topic", "main"])
    );
    assert_eq!(create_branch_arguments("topic", None), strings(&["switch", "-c", "topic"]));
    assert_eq!(delete_branch_arguments("old", false), strings(&["branch", "-d", "--", "old"]));
    assert_eq!(delete_branch_arguments("old", true), strings(&["branch", "-D", "--", "old"]));
}

#[test]
fn remotes_get_their_push_url_or_the_fetch_url() {
    let request = RemoteRequest {
        name: "origin".into(),
        fetch_url: "https://example.com/a.git".into(),
        push_url: Some("  ".into()),
    };
    assert_eq!(effective_push_url(&request), "https://example.com/a.git");
    let added = add_remote_commands(&request);
    assert_eq!(
        added,
        vec![
            strings(&["remote", "add", "--", "origin", "https://example.com/a.git"]),
            strings(&["remote", "set-url", "--push", "--", "origin", "https://example.com/a.git"]),
        ]
    );
    let request = RemoteRequest {
        name: "upstream".into(),
        fetch_url: "https://example.com/a.git".into(),
        push_url: Some("ssh://example.com/a.git".into()),
    };
    let updated = update_remote_commands("origin", &request);
    assert_eq!(updated.len(), 3);
    assert_eq!(updated[0], strings(&["remote", "rename", "--", "origin", "upstream"]));
    assert_eq!(
        updated[2],
        strings(&["remote", "set-url", "--push", "--", "upstream", "ssh://example.com/a.git"])
    );
    assert_eq!(update_remote_commands("upstream", &request).len(), 2);
}

#[test]
fn refused_ref_names_ask_for_a_valid_one() {
    assert_eq!(
        check_ref_format_arguments(RefName::Branch, "topic"),
        strings(&["check-ref-format", "--branch", "topic"])
    );
    assert_eq!(
        check_ref_format_arguments(RefName::Tag, "v1"),
        strings(&["check-ref-format", "refs/tags/v1"])
    );
    let branch = ref_name_failure(RefName::Branch, error(GitErrorCode::CommandFailed, "x"));
    assert_eq!(branch.code, GitErrorCode::Conflict);
    assert_eq!(branch.message, "Enter a valid Git branch name.");
    let tag = ref_name_failure(RefName::Tag, error(GitErrorCode::CommandFailed, "x"));
    assert_eq!(tag.message, "Enter a valid Git tag name.");
    let other = ref_name_failure(RefName::Tag, error(GitErrorCode::TimedOut, "x"));
    assert_eq!(other.code, GitErrorCode::TimedOut);
}

#[test]
fn commits_are_required_to_exist() {
    assert_eq!(
        require_commit_arguments("abc"),
        strings(&["rev-parse", "--verify", "--quiet", "abc^{commit}"])
    );
    assert!(commit_presence(true).is_ok());
    assert_eq!(
        commit_presence(false).unwrap_err().message,
        "The selected commit no longer exists."
    );
}

#[test]
fn initializing_needs_a_workspace_that_is_no_repository() {
    assert_eq!(initialize_check(None).unwrap_err().code, GitErrorCode::Conflict);
    assert!(initialize_check(Some(error(GitErrorCode::NotRepository, "no"))).is_ok());
    assert_eq!(
        initialize_check(Some(error(GitErrorCode::TimedOut, "slow")))
            .unwrap_err()
            .code,
        GitErrorCode::TimedOut
    );
}

#[test]
fn stopped_merges_report_their_conflicts() {
    assert_eq!(
        merged("topic"),
        MergeOutcome::Merged {
            message: "Merged topic.".into()
        }
    );
    let conflicted = parse_status(b"u UU N... 100644 100644 100644 100644 a b c both.txt\0").unwrap();
    assert_eq!(
        merge_failure(error(GitErrorCode::CommandFailed, "x"), &conflicted).unwrap(),
        MergeOutcome::Conflicts {
            paths: vec!["both.txt".into()]
        }
    );
    let clean = parse_status(b"").unwrap();
    assert_eq!(
        merge_failure(error(GitErrorCode::CommandFailed, "x"), &clean)
            .unwrap_err()
            .code,
        GitErrorCode::CommandFailed
    );
}

#[test]
fn reverts_and_pulls_explain_their_refusals() {
    let stopped = revert_failure(error(GitErrorCode::CommandFailed, "x"), Some(1));
    assert_eq!(stopped.code, GitErrorCode::Conflict);
    assert_eq!(revert_failure(error(GitErrorCode::CommandFailed, "x"), Some(0)).message, "x");
    assert_eq!(revert_failure(error(GitErrorCode::CommandFailed, "x"), None).message, "x");
    let diverged = pull_failure(error(GitErrorCode::CommandFailed, "x"), Some((1, 2)));
    assert!(diverged.message.contains("diverged"));
    assert_eq!(pull_failure(error(GitErrorCode::CommandFailed, "x"), Some((1, 0))).message, "x");
    assert_eq!(pull_failure(error(GitErrorCode::TimedOut, "x"), Some((1, 2))).message, "x");
}

#[test]
fn pushes_retry_over_ssh_and_ask_for_force_with_lease() {
    assert_eq!(push_arguments(false, false), strings(&["push"]));
    assert_eq!(
        push_arguments(true, true),
        strings(&["-c", GITHUB_SSH_PUSH_REWRITE, "push", "--force-with-lease"])
    );
    assert_eq!(
        publish_arguments("origin", false),
        strings(&["push", "--set-upstream", "origin", "HEAD"])
    );
    assert!(retries_over_ssh(&Err(error(GitErrorCode::Authentication, "x"))));
    assert!(!retries_over_ssh(&Ok(())));
    match push_outcome(Ok(()), true).unwrap() {
        PushOutcome::Pushed { result } => {
            assert_eq!(result.message, "Force-with-lease push completed.")
        }
        other => panic!("unexpected outcome {other:?}"),
    }
    assert_eq!(
        push_outcome(Err(error(GitErrorCode::NonFastForward, "behind")), false).unwrap(),
        PushOutcome::ForceWithLeaseRequired {
            message: "behind".into()
        }
    );
    assert_eq!(
        push_outcome(Err(error(GitErrorCode::NonFastForward, "behind")), true)
            .unwrap_err()
            .code,
        GitErrorCode::NonFastForward
    );
    assert_eq!(
        missing_remote_failure(error(GitErrorCode::CommandFailed, "x")).message,
        "The selected Git remote does not exist."
    );
    assert_eq!(published("origin").message, "Published branch to origin.");
    assert_eq!(fetched("origin").message, "Fetched origin.");
}

#[test]
fn path_operations_need_real_paths() {
    assert!(require_paths(&strings(&["a.txt"])).is_ok());
    assert_eq!(
        require_paths(&Vec::new()).unwrap_err().code,
        GitErrorCode::InvalidWorkspace
    );
    assert!(require_paths(&strings(&["a.txt", ""])).is_err());
    assert_eq!(
        path_arguments(&["reset", "--quiet", "HEAD"], &strings(&["a", "b"])),
        strings(&["reset", "--quiet", "HEAD", "--", "a", "b"])
    );
}

#[test]
fn discarding_splits_untracked_paths_off() {
    let output = ["? new.txt\0", "1 .M N... 100644 100644 100644 a b old.txt\0"].join("");
    let status = parse_status(output.as_bytes()).unwrap();
    let (known, untracked) = split_discard_paths(&strings(&["old.txt", "new.txt"]), &status);
    assert_eq!(known, strings(&["old.txt"]));
    assert_eq!(untracked, strings(&["new.txt"]));
}

#[test]
fn only_conflicted_paths_can_be_resolved() {
    let status = parse_status(b"u UU N... 100644 100644 100644 100644 a b c both.txt\0").unwrap();
    assert!(require_conflicted_path(&status, "both.txt").is_ok());
    assert_eq!(
        require_conflicted_path(&status, "other.txt").unwrap_err().message,
        "The selected file is no longer conflicted."
    );
}

#[test]
fn clone_modes_choose_their_history() {
    assert_eq!(
        clone_arguments(CloneMode::Full, "u", "d"),
        strings(&["clone", "--progress", "--", "u", "d"])
    );
    assert_eq!(
        clone_arguments(CloneMode::Blobless, "u", "d"),
        strings(&["clone", "--progress", "--filter=blob:none", "--", "u", "d"])
    );
    assert_eq!(
        clone_arguments(CloneMode::Shallow, "u", "d"),
        strings(&["clone", "--progress", "--depth", "1", "--", "u", "d"])
    );
}

#[test]
fn diffs_compare_the_right_sides() {
    assert_eq!(
        diff_arguments(DiffKind::Worktree, true, 3, "new.txt"),
        strings(&[
            "diff",
            "--no-index",
            "--no-ext-diff",
            "--no-color",
            "--binary",
            "--unified=3",
            "--",
            "/dev/null",
            "new.txt"
        ])
    );
    assert_eq!(
        diff_arguments(DiffKind::Staged, false, 25, "a.rs"),
        strings(&["diff", "--no-ext-diff", "--no-color", "--binary", "--unified=25", "--cached", "--", "a.rs"])
    );
    assert!(is_binary_patch("diff\nGIT binary patch\n"));
    assert!(is_binary_patch("Binary files a and b differ"));
    assert!(!is_binary_patch("@@ -1 +1 @@"));
    assert_eq!(original_revision(DiffKind::Worktree, "a.rs"), ":a.rs");
    assert_eq!(original_revision(DiffKind::Staged, "a.rs"), "HEAD:a.rs");
    assert_eq!(
        show_revision_arguments(":a.rs"),
        strings(&["show", "--no-color", "--no-textconv", "--format=", ":a.rs"])
    );
    assert_eq!(revision_text(false, b"ignored"), Some(String::new()));
    assert_eq!(revision_text(true, b"text"), Some("text".into()));
    assert_eq!(revision_text(true, &[0xff]), None);
    assert_eq!(current_side(Err(WorkspaceErrorCode::NotFound)), Some(String::new()));
    assert_eq!(current_side(Err(WorkspaceErrorCode::TooLarge)), None);
    assert_eq!(current_side(Ok("x".into())), Some("x".into()));
}

#[test]
fn history_limits_stay_within_bounds() {
    assert_eq!(history_arguments(0)[4], "-n1");
    assert_eq!(history_arguments(50)[4], "-n50");
    assert_eq!(history_arguments(5000)[4], "-n200");
}

#[test]
fn tags_are_annotated_only_with_a_message() {
    let annotated = TagRequest {
        name: "v1".into(),
        target: Some("main".into()),
        message: Some("Release".into()),
    };
    assert_eq!(
        tag_arguments(&annotated).unwrap(),
        strings(&["tag", "-a", "v1", "-m", "Release", "main"])
    );
    let light = TagRequest {
        name: "v1".into(),
        target: None,
        message: Some("   ".into()),
    };
    assert_eq!(tag_arguments(&light).unwrap(), strings(&["tag", "v1"]));
    let large = TagRequest {
        name: "v1".into(),
        target: None,
        message: Some("x".repeat(256 * 1024 + 1)),
    };
    assert_eq!(tag_arguments(&large).unwrap_err().code, GitErrorCode::OutputTooLarge);
    let bad_target = TagRequest {
        name: "v1".into(),
        target: Some("-x".into()),
        message: None,
    };
    assert_eq!(tag_arguments(&bad_target).unwrap_err().code, GitErrorCode::Conflict);
}

#[test]
fn git_answers_are_read_as_text() {
    assert_eq!(config_value(Some(1), b"").unwrap(), None);
    assert_eq!(config_value(Some(0), b" true\n").unwrap(), Some("true".into()));
    assert_eq!(config_value(Some(0), &[0xff]).unwrap_err().code, GitErrorCode::Parse);
    assert_eq!(head_oid(b"abc123\n").unwrap(), "abc123");
    assert_eq!(commit_message_text(b"Subject\n\nBody\n\n").unwrap(), "Subject\n\nBody");
    assert_eq!(
        ignored_paths(b"target/\0.env\0\0").unwrap(),
        strings(&["target", ".env"])
    );
    assert_eq!(ignored_paths(&[0xff, 0]).unwrap_err().code, GitErrorCode::Parse);
    assert_eq!(remote_names(b"origin\n\nupstream\n").unwrap(), strings(&["origin", "upstream"]));
    let info = remote_info("origin", b"https://a\n", b"ssh://b \n").unwrap();
    assert_eq!(info.fetch_url, "https://a");
    assert_eq!(info.push_url, "ssh://b");
}

#[test]
fn workspace_errors_keep_their_message() {
    let mapped = map_workspace_error(WorkspaceErrorCode::TooLarge, "big");
    assert_eq!(mapped.code, GitErrorCode::OutputTooLarge);
    assert_eq!(mapped.message, "big");
    assert_eq!(
        map_workspace_error(WorkspaceErrorCode::NotFound, "gone").code,
        GitErrorCode::Conflict
    );
    assert_eq!(
        map_workspace_error(WorkspaceErrorCode::AlreadyExists, "x").code,
        GitErrorCode::Unavailable
    );
}
