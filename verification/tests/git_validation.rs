use syntaxis::git_model::{CommitRequest, GitErrorCode, RemoteRequest, ClonePhase};
use syntaxis::git_validation::{
    clone_directory_name, command_error, parse_clone_progress, validate_clone_directory_name,
    validate_clone_url, validate_commit_request, validate_remote_name, validate_remote_request,
    validate_revision,
};
use syntaxis::worktrees::{
    managed_worktrees_root, parse_worktree_porcelain, sanitize_directory, validate_branch,
    worktree_label,
};

#[test]
fn runner_parses_carriage_return_git_clone_progress_without_forwarding_errors() {
    let receiving = parse_clone_progress("Receiving objects: 42% (42/100)").unwrap();
    assert_eq!(receiving.phase, ClonePhase::Receiving);
    assert_eq!(receiving.percent, Some(42));
    assert_eq!(
        parse_clone_progress("remote: Counting objects: 100% (10/10)").unwrap().phase,
        ClonePhase::Counting
    );
    assert!(parse_clone_progress("fatal: authentication failed for secret").is_none());
}

#[test]
fn tests_parses_carriage_return_git_clone_progress_without_forwarding_errors() {
    let receiving = parse_clone_progress("Receiving objects: 42% (42/100)").unwrap();
    assert_eq!(receiving.phase, ClonePhase::Receiving);
    assert_eq!(receiving.percent, Some(42));
    assert_eq!(
        parse_clone_progress("remote: Counting objects: 100% (10/10)").unwrap().phase,
        ClonePhase::Counting
    );
    assert!(parse_clone_progress("fatal: authentication failed for secret").is_none());
}

#[test]
fn clone_progress_percentages_are_bounded() {
    assert_eq!(parse_clone_progress("Cloning into 'repo'...").unwrap().percent, None);
    assert_eq!(parse_clone_progress("Resolving deltas: 250% x").unwrap().percent, None);
    assert_eq!(parse_clone_progress("Updating files: 7%").unwrap().phase, ClonePhase::CheckingOut);
    assert_eq!(parse_clone_progress("Compressing objects: %").unwrap().percent, None);
}

#[test]
fn parses_nul_delimited_porcelain_records() {
    let output = b"worktree /repo\0HEAD abcdef123\0branch refs/heads/main\0\0worktree /other\0HEAD 123456789\0detached\0\0";
    let parsed = parse_worktree_porcelain(output).unwrap();
    assert_eq!(parsed.len(), 2);
    assert_eq!(parsed[0].branch.as_deref(), Some("main"));
    assert_eq!(parsed[1].branch, None);
    assert_eq!(parsed[0].root, "/repo");
    assert_eq!(parsed[1].head, "123456789");
}

#[test]
fn worktrees_without_a_head_are_rejected() {
    let error = parse_worktree_porcelain(b"worktree /repo\0prunable gone\0\0").unwrap_err();
    assert_eq!(error.code, GitErrorCode::InvalidWorkspace);
    let listed = parse_worktree_porcelain(b"worktree /a\0HEAD 1\0prunable\0").unwrap();
    assert!(listed[0].prunable);
}

#[test]
fn rejects_dangerous_branch_names() {
    for branch in ["", "-force", "feature name", "feature..oops", "topic@{1}"] {
        assert!(validate_branch(branch).is_err(), "{branch}");
    }
    assert_eq!(validate_branch("agent/issue-42").unwrap(), "agent/issue-42");
}

#[test]
fn branch_errors_and_trimming() {
    assert_eq!(validate_branch("  topic  ").unwrap(), "topic");
    let error = validate_branch("topic/").unwrap_err();
    assert_eq!(error.code, GitErrorCode::Unsupported);
    assert_eq!(error.message, "Choose a valid Git branch name.");
    assert!(validate_branch("a:b").is_err());
    assert!(validate_branch(&"a".repeat(201)).is_err());
}

#[test]
fn worktree_directories_and_labels() {
    assert_eq!(sanitize_directory("agent/issue-42"), "agent-issue-42");
    assert_eq!(sanitize_directory("--a b--"), "a-b");
    assert_eq!(managed_worktrees_root("/repo"), "/repo/.syntaxis-worktrees");
    assert_eq!(managed_worktrees_root("/repo/"), "/repo/.syntaxis-worktrees");
    assert_eq!(worktree_label(&None, "abcdef123"), "Detached at abcdef1");
    assert_eq!(worktree_label(&Some("main".into()), "abc"), "main");
    assert_eq!(worktree_label(&None, "abc"), "Detached at abc");
}

#[test]
fn remote_and_commit_requests_are_checked() {
    let remote = RemoteRequest { name: " ".into(), fetch_url: "x".into(), push_url: None };
    assert_eq!(validate_remote_request(&remote).unwrap_err().message, "Remote name cannot be empty.");
    let remote = RemoteRequest {
        name: "origin".into(),
        fetch_url: "x".into(),
        push_url: Some("y".repeat(65537)),
    };
    assert_eq!(validate_remote_request(&remote).unwrap_err().code, GitErrorCode::OutputTooLarge);
    assert_eq!(validate_remote_name(" origin ").unwrap(), "origin");
    assert!(validate_remote_name("-x").is_err());
    let commit = CommitRequest { message: "\n".into(), amend: false, signing_passphrase: None };
    assert_eq!(validate_commit_request(&commit).unwrap_err().message, "Enter a commit message.");
    let commit = CommitRequest { message: "m".into(), amend: false, signing_passphrase: Some("p".into()) };
    assert!(validate_commit_request(&commit).is_ok());
    assert!(validate_revision("main").is_ok());
    assert!(validate_revision("--all").is_err());
}

#[test]
fn clone_urls_and_directory_names() {
    assert!(validate_clone_url(" https://example.com/a.git ").is_ok());
    assert!(validate_clone_url("file:///tmp/a").is_err());
    assert_eq!(clone_directory_name("https://example.com/owner/repo.git/").unwrap(), "repo");
    assert_eq!(clone_directory_name("git@example.com:repo").unwrap(), "repo");
    assert!(clone_directory_name("https://example.com/..").is_err());
    assert!(validate_clone_directory_name("a\\b").is_err());
    assert!(validate_clone_directory_name("repo").is_ok());
}

#[test]
fn command_failures_are_classified_without_their_output() {
    let error = command_error(b"fatal: Not a git repository (or any parent)", Some(128));
    assert_eq!(error.code, GitErrorCode::NotRepository);
    assert_eq!(error.message, "This workspace is not a Git repository.");
    assert_eq!(error.exit_code, Some(128));
    assert_eq!(command_error(b"! [rejected] main", None).code, GitErrorCode::NonFastForward);
    assert_eq!(command_error(b"\xffboom", Some(1)).code, GitErrorCode::CommandFailed);
    assert_eq!(command_error(b"Unable to create '.git/index.lock'", None).code, GitErrorCode::Conflict);
}
