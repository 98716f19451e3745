use syntaxis::app_shell::{
    clone_dialog_step, clone_progress_label, looks_like_git_url, CloneDialog, CloneSignal, CloneStep, parent_folder, parse_clone_destination,
    repository_name_from_url, validate_project_path, AiQuery, AuthAction,
};
use syntaxis::git_model::{ClonePhase, CloneProgress};

#[test]
fn session_queries_accept_legacy_snake_case() {
    assert_eq!(
        AiQuery::from("session_id=conversation-1").session_id.as_deref(),
        Some("conversation-1")
    );
}

#[test]
fn session_queries_skip_blank_values_and_decode() {
    assert_eq!(
        AiQuery::from("sessionId=%20%20&sessionId=a+b&session_id=c").session_id.as_deref(),
        Some("a b")
    );
    assert_eq!(AiQuery::from("other=1").session_id, None);
    assert_eq!(AiQuery::from("").session_id, None);
}

#[test]
fn session_queries_serialize_with_form_encoding() {
    assert_eq!(AiQuery::with_session("a b&c".into()).to_string(), "sessionId=a+b%26c");
    assert_eq!(AiQuery::default().to_string(), "");
    let query = AiQuery::with_session("conversation 1".into());
    assert_eq!(AiQuery::from(query.to_string().as_str()), query);
}

#[test]
fn auth_actions_hold_their_label_and_endpoint() {
    let action = AuthAction { label: "Sign in".into(), endpoint: "/auth".into() };
    assert_eq!(action.clone(), action);
}

#[test]
fn folder_navigation_stops_at_the_exposed_root() {
    assert_eq!(parent_folder("/teams/project"), Some("/teams".into()));
    assert_eq!(parent_folder("/project"), Some("/".into()));
    assert_eq!(parent_folder("/"), None);
}

#[test]
fn parent_folder_ignores_trailing_slashes_and_relative_names() {
    assert_eq!(parent_folder("/teams/project//"), Some("/teams".into()));
    assert_eq!(parent_folder("project"), Some("/".into()));
}

#[test]
fn project_paths_allow_subdirectories_without_escape_components() {
    assert!(validate_project_path("testing/MyAwesomeIdea").is_none());
    assert!(validate_project_path("/testing/MyAwesomeIdea").is_none());
    assert!(validate_project_path("../outside").is_some());
    assert!(validate_project_path("testing//idea").is_some());
    assert!(validate_project_path("testing\\idea").is_some());
}

#[test]
fn project_paths_reject_long_and_control_components_but_not_blank_input() {
    assert!(validate_project_path("   ").is_none());
    assert!(validate_project_path(&"a".repeat(256)).is_some());
    assert!(validate_project_path(&"a".repeat(255)).is_none());
    assert!(validate_project_path("bad\u{7}name").is_some());
    assert_eq!(
        validate_project_path("//x").as_deref(),
        Some("Use a project name or subpath without empty, dot, or parent folders.")
    );
}

#[test]
fn accepts_common_git_url_forms() {
    assert!(looks_like_git_url("https://example.com/owner/repo.git"));
    assert!(looks_like_git_url("git@example.com:owner/repo.git"));
    assert!(!looks_like_git_url("owner/repo"));
}

#[test]
fn git_urls_need_a_scheme_or_scp_form() {
    assert!(looks_like_git_url("  ssh://host/repo  "));
    assert!(!looks_like_git_url("git@host"));
    assert!(!looks_like_git_url("ftp://host/repo"));
}

#[test]
fn derives_repository_names_for_destination_suggestions() {
    assert_eq!(
        repository_name_from_url("https://example.com/owner/repo.git"),
        Some("repo".into())
    );
    assert_eq!(
        repository_name_from_url("git@example.com:owner/repo.git"),
        Some("repo".into())
    );
}

#[test]
fn repository_names_ignore_queries_fragments_and_trailing_slashes() {
    assert_eq!(
        repository_name_from_url("https://example.com/owner/tool/?tab=readme#top"),
        Some("tool".into())
    );
    assert_eq!(repository_name_from_url("https://example.com/.git"), None);
    assert_eq!(repository_name_from_url("owner/repo.git"), None);
}

#[test]
fn clone_destinations_split_parent_and_directory() {
    let destination = parse_clone_destination("/teams/repo").unwrap();
    assert_eq!(destination.parent, "/teams");
    assert_eq!(destination.directory_name, "repo");
    assert!(parse_clone_destination("//repo").is_none());
    assert!(parse_clone_destination("/").is_none());
}

#[test]
fn clone_destinations_root_relative_names_and_reject_dots() {
    let destination = parse_clone_destination(" repo ").unwrap();
    assert_eq!(destination.parent, "/");
    assert_eq!(destination.directory_name, "repo");
    assert!(parse_clone_destination("/teams/../repo").is_none());
    assert!(parse_clone_destination("/teams/./repo").is_none());
    assert!(parse_clone_destination("a\\b").is_none());
}

#[test]
fn formats_clone_progress() {
    assert_eq!(
        clone_progress_label(Some(CloneProgress {
            phase: ClonePhase::Receiving,
            percent: Some(42),
        })),
        "Receiving objects… 42%"
    );
}

#[test]
fn clone_progress_without_numbers() {
    assert_eq!(clone_progress_label(None), "Starting clone…");
    assert_eq!(
        clone_progress_label(Some(CloneProgress { phase: ClonePhase::Finalizing, percent: None })),
        "Registering workspace…"
    );
    assert_eq!(
        clone_progress_label(Some(CloneProgress { phase: ClonePhase::Counting, percent: Some(0) })),
        "Counting objects… 0%"
    );
}

#[test]
fn session_queries_are_form_encoded() {
    assert_eq!(AiQuery::with_session("a b&c/é".into()).to_string(), "sessionId=a+b%26c%2F%C3%A9");
    assert_eq!(AiQuery::with_session("x-1_2.3*".into()).to_string(), "sessionId=x-1_2.3*");
}

#[test]
fn the_clone_dialog_follows_a_clone_to_its_end() {
    let mut dialog = CloneDialog { open: true, busy: true, error: None, progress: None };
    assert_eq!(clone_dialog_step(&mut dialog, CloneSignal::Started), CloneStep::ReadStream);
    let update = CloneProgress { phase: ClonePhase::Receiving, percent: Some(42) };
    assert_eq!(clone_dialog_step(&mut dialog, CloneSignal::Progress(update)), CloneStep::ReadStream);
    assert_eq!(dialog.progress, Some(update));
    assert_eq!(clone_dialog_step(&mut dialog, CloneSignal::Cancel), CloneStep::CancelStream);
    assert_eq!(
        clone_dialog_step(&mut dialog, CloneSignal::Completed("demo".into())),
        CloneStep::Open("demo".into())
    );
    assert_eq!(dialog, CloneDialog { open: false, busy: false, error: None, progress: None });
    let mut failing = CloneDialog { open: true, busy: true, error: None, progress: Some(update) };
    assert_eq!(clone_dialog_step(&mut failing, CloneSignal::Failed("no access".into())), CloneStep::AwaitCommand);
    assert_eq!(failing, CloneDialog { open: true, busy: false, error: Some("no access".into()), progress: None });
    assert_eq!(clone_dialog_step(&mut failing, CloneSignal::CommandsClosed), CloneStep::Stop);
}
