use syntaxis::agent::{AgentErrorCode, AgentSessionSummary, AgentStatus, ExtensionUiRequest};
use syntaxis::agent_registry::{rename_request, ManagedSession};
use syntaxis::json::JsonValue;
use syntaxis::agent_workspace::agent_notification;
use syntaxis::notifications::{NotificationCenterState, NotificationTarget};
use syntaxis::agent_registry::{
    deletion_path, SavedSession, Selection, SessionRegistry, MAX_SETTLED_BACKGROUND_SESSIONS,
};
use syntaxis::agent_state::ServerMessage;
use syntaxis::notifications::NotificationKind;

fn saved(id: &str, updated_at_ms: u64) -> SavedSession {
    SavedSession {
        id: id.into(),
        path: format!("/sessions/{id}.jsonl"),
        title: format!("Title {id}"),
        updated_at_ms,
    }
}

fn ids(registry: &SessionRegistry) -> Vec<String> {
    registry.sessions().into_iter().map(|s| s.id).collect()
}

#[test]
fn saved_sessions_are_listed_newest_first() {
    let registry = SessionRegistry::from_saved(vec![saved("a", 10), saved("b", 30), saved("c", 20)]);
    assert_eq!(ids(&registry), vec!["b", "c", "a"]);
    let first = &registry.sessions()[0];
    assert_eq!(first.status, AgentStatus::Stopped);
    assert_eq!(first.status_message, "Saved");
    assert!(!first.running);
}

#[test]
fn a_later_saved_session_replaces_one_with_its_id() {
    let mut newer = saved("a", 50);
    newer.title = "Newer".into();
    let registry = SessionRegistry::from_saved(vec![saved("a", 10), newer]);
    let sessions = registry.sessions();
    assert_eq!(sessions.len(), 1);
    assert_eq!(sessions[0].title, "Newer");
}

#[test]
fn selection_resumes_saved_sessions_and_reuses_running_ones() {
    let mut registry = SessionRegistry::from_saved(vec![saved("a", 10)]);
    assert_eq!(
        registry.selection("a").unwrap(),
        Selection::Resume("/sessions/a.jsonl".into())
    );
    registry.mark_started("a", 99);
    assert_eq!(registry.selection("a").unwrap(), Selection::Running);
    let started = &registry.sessions()[0];
    assert_eq!(started.status, AgentStatus::Starting);
    assert_eq!(started.status_message, "Starting Pi…");
    assert_eq!(started.updated_at_ms, 99);
    let missing = registry.selection("zzz").unwrap_err();
    assert_eq!(missing.code, AgentErrorCode::InvalidRequest);
    assert_eq!(missing.message, "Pi session not found");
}

#[test]
fn new_chats_are_named_after_their_first_prompt() {
    let mut registry = SessionRegistry::new();
    registry.add_new_chat("n", 5);
    assert_eq!(registry.sessions()[0].title, "New chat");
    let name = registry.prompted("n", "  Fix   the parser ", 6).unwrap();
    assert_eq!(name, Some("Fix the parser".into()));
    assert_eq!(registry.sessions()[0].title, "Fix the parser");
    assert_eq!(registry.prompted("n", "Another", 7).unwrap(), None);
    assert_eq!(registry.sessions()[0].updated_at_ms, 7);
    assert_eq!(
        registry.prompted("gone", "x", 8).unwrap_err().code,
        AgentErrorCode::Internal
    );
}

#[test]
fn renaming_joins_the_words_of_the_name() {
    let mut registry = SessionRegistry::from_saved(vec![saved("a", 1)]);
    assert_eq!(registry.rename("a", " My \n session ", 4), "My session");
    assert_eq!(registry.sessions()[0].title, "My session");
    assert_eq!(registry.sessions()[0].updated_at_ms, 4);
}

#[test]
fn events_update_the_summary_and_let_failed_processes_go() {
    let mut registry = SessionRegistry::new();
    registry.add_new_chat("n", 1);
    let working = ServerMessage::Status {
        status: AgentStatus::Working,
        message: "Pi is working…".into(),
        pending_messages: 0,
    };
    let update = registry
        .apply_event("n", &working, 2, Some("/s/n.jsonl".into()))
        .unwrap();
    assert!(update.changed);
    assert!(update.refresh_path);
    let failed = ServerMessage::Status {
        status: AgentStatus::Failed,
        message: "crashed".into(),
        pending_messages: 0,
    };
    let update = registry.apply_event("n", &failed, 3, None).unwrap();
    assert!(update.drop_process);
    assert_eq!(update.notification, Some((NotificationKind::Failed, "crashed".into())));
    assert_eq!(
        registry.selection("n").unwrap(),
        Selection::Resume("/s/n.jsonl".into())
    );
    assert!(registry.apply_event("other", &failed, 3, None).is_none());
}

#[test]
fn forks_take_the_new_id_and_leave_the_saved_original() {
    let mut registry = SessionRegistry::from_saved(vec![saved("a", 1)]);
    registry.mark_started("a", 2);
    assert!(registry.rekey("a", "b", Some("/s/b.jsonl".into()), 3));
    assert_eq!(
        registry.selection("a").unwrap(),
        Selection::Resume("/sessions/a.jsonl".into())
    );
    assert_eq!(registry.selection("b").unwrap(), Selection::Running);
    let sessions = registry.sessions();
    assert_eq!(sessions.len(), 2);
    assert_eq!(sessions[0].id, "b");
    assert_eq!(sessions[0].updated_at_ms, 3);
    assert_eq!(sessions[1].status, AgentStatus::Stopped);
    assert!(!registry.rekey("b", "a", None, 4));
    assert!(!registry.rekey("zzz", "c", None, 4));
}

#[test]
fn unsaved_forks_leave_nothing_behind() {
    let mut registry = SessionRegistry::new();
    registry.add_new_chat("n", 1);
    assert!(registry.rekey("n", "m", None, 2));
    assert_eq!(ids(&registry), vec!["m"]);
}

#[test]
fn only_settled_sessions_beyond_the_newest_are_retired() {
    let mut registry = SessionRegistry::from_saved(vec![
        saved("a", 1),
        saved("b", 2),
        saved("c", 3),
        saved("d", 4),
        saved("e", 5),
        saved("f", 6),
    ]);
    for (id, at) in [("a", 1), ("b", 2), ("c", 3), ("d", 4), ("e", 5), ("f", 6)] {
        registry.mark_started(id, at);
    }
    let ready: Vec<String> = ["a", "b", "c", "d", "f"].iter().map(|s| s.to_string()).collect();
    let retired = registry.sessions_to_retire("f", &ready);
    assert_eq!(MAX_SETTLED_BACKGROUND_SESSIONS, 3);
    assert_eq!(retired, vec!["a".to_string()]);
    registry.retire("a", None);
    assert_eq!(
        registry.selection("a").unwrap(),
        Selection::Resume("/sessions/a.jsonl".into())
    );
    assert!(registry.sessions_to_retire("f", &ready).is_empty());
}

#[test]
fn retired_unsaved_sessions_keep_the_file_their_process_wrote() {
    let mut registry = SessionRegistry::new();
    registry.add_new_chat("n", 1);
    registry.retire("n", Some("/s/n.jsonl".into()));
    assert_eq!(
        registry.selection("n").unwrap(),
        Selection::Resume("/s/n.jsonl".into())
    );
    assert_eq!(registry.sessions()[0].status_message, "Saved");
}

#[test]
fn removing_forgets_the_session() {
    let mut registry = SessionRegistry::from_saved(vec![saved("a", 1), saved("b", 2)]);
    assert!(registry.remove("a"));
    assert!(!registry.remove("a"));
    assert_eq!(ids(&registry), vec!["b"]);
}

#[test]
fn deletion_looks_for_the_process_file_first() {
    assert_eq!(
        deletion_path(Some("p".into()), Some("s".into()), Some("f".into())),
        Some("p".into())
    );
    assert_eq!(deletion_path(None, Some("s".into()), Some("f".into())), Some("s".into()));
    assert_eq!(deletion_path(None, None, Some("f".into())), Some("f".into()));
    assert_eq!(deletion_path(None, None, None), None);
}

/// The notifications an agent session's events raise replace one another
/// per session, and clearing the session removes them.
#[test]
fn completion_and_attention_notifications_replace_and_clear() {
    let mut registry = SessionRegistry::new();
    registry.upsert(ManagedSession {
        summary: AgentSessionSummary {
            id: "session-1".into(),
            title: "Fix the tests".into(),
            updated_at_ms: 0,
            status: AgentStatus::Working,
            status_message: "Working".into(),
            running: true,
        },
        path: None,
        attached: false,
    });
    let mut center = NotificationCenterState::new();
    let mut publish = |registry: &mut SessionRegistry, event: &ServerMessage, center: &mut NotificationCenterState| {
        let update = registry.apply_event("session-1", event, 1, None).unwrap();
        if let Some((kind, message)) = update.notification {
            let title = registry.sessions()[0].title.clone();
            center.receive_upsert(agent_notification(
                "workspace-1",
                "project-one",
                "Project One",
                "session-1",
                &title,
                kind,
                message,
                1,
            ));
        }
    };
    publish(
        &mut registry,
        &ServerMessage::Status {
            status: AgentStatus::Ready,
            message: "Ready".into(),
            pending_messages: 0,
        },
        &mut center,
    );
    assert_eq!(center.items.len(), 1);
    assert_eq!(center.items[0].kind, NotificationKind::Completed);

    publish(
        &mut registry,
        &ServerMessage::ExtensionUiRequest {
            request: ExtensionUiRequest {
                id: "request-1".into(),
                method: "confirm".into(),
                title: "Confirm change".into(),
                message: "Apply the migration?".into(),
                options: Vec::new(),
                placeholder: None,
                prefill: None,
            },
        },
        &mut center,
    );
    assert_eq!(center.items.len(), 1);
    assert_eq!(center.items[0].kind, NotificationKind::Attention);
    assert_eq!(center.items[0].message, "Apply the migration?");

    center.clear(
        "workspace-1".into(),
        NotificationTarget::Agent {
            session_id: "session-1".into(),
        },
    );
    assert!(center.items.is_empty());
}

#[test]
fn renaming_checks_the_request_before_anything_changes() {
    let refused = rename_request("s".into(), "   ".into()).unwrap_err();
    assert_eq!(refused.code, AgentErrorCode::InvalidRequest);
    assert_eq!(refused.message, "A session name between 1 and 80 characters is required");
    assert!(rename_request(" ".into(), "Name".into()).is_err());
    let (title, command) = rename_request("s".into(), "  My   session ".into()).unwrap();
    assert_eq!(title, "My session");
    assert_eq!(
        command,
        JsonValue::Object(vec![
            ("type".into(), JsonValue::String("set_session_name".into())),
            ("name".into(), JsonValue::String("My session".into())),
        ])
    );
    let mut registry = SessionRegistry::from_saved(vec![saved("s", 1)]);
    assert_eq!(registry.rename("s", "  My   session ", 2), title);
    assert_eq!(registry.sessions()[0].title, "My session");
}
