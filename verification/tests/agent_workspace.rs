use syntaxis::agent::{AgentSessionSummary, AgentStatus, ExtensionUiRequest};
use syntaxis::agent_state::ServerMessage;
use syntaxis::agent_workspace::{
    agent_notification, batch_event, flush_item_delta, non_empty, oversized_frame_error, preview, prompt_title,
    update_summary, PendingDelta,
};
use syntaxis::framing::FramedLine;
use syntaxis::notifications::{NotificationKind, NotificationTarget};

fn summary(status: AgentStatus) -> AgentSessionSummary {
    AgentSessionSummary {
        id: "session-1".into(),
        title: "Fix the tests".into(),
        updated_at_ms: 0,
        status,
        status_message: "Working".into(),
        running: true,
    }
}

fn status(status: AgentStatus, message: &str) -> ServerMessage {
    ServerMessage::Status { status, message: message.into(), pending_messages: 0 }
}

fn delta(id: &str, text: &str, thinking: bool) -> ServerMessage {
    ServerMessage::ItemDelta { item_id: id.into(), text: text.into(), thinking }
}

#[test]
fn titles_join_words_and_are_cut() {
    assert_eq!(prompt_title("  Fix\n the   tests "), "Fix the tests");
    assert_eq!(prompt_title(" \t "), "New chat");
    let long = "word ".repeat(20);
    let title = prompt_title(&long);
    assert_eq!(title.chars().count(), 65);
    assert!(title.ends_with('…'));
    assert_eq!(preview("a  b"), "a b");
    assert_eq!(non_empty("  "), None);
    assert_eq!(non_empty(" x  y "), Some("x y".to_owned()));
}

#[test]
fn finishing_work_and_dialogs_raise_notifications() {
    let mut s = summary(AgentStatus::Working);
    let update = update_summary(&mut s, false, &status(AgentStatus::Ready, "Ready"), 42);
    assert!(update.changed);
    assert!(update.refresh_path);
    assert_eq!(update.notification, Some((NotificationKind::Completed, "Pi finished working".to_owned())));
    assert_eq!(s.status, AgentStatus::Ready);
    assert_eq!(s.updated_at_ms, 42);
    assert!(s.running);

    let again = update_summary(&mut s, true, &status(AgentStatus::Ready, "Ready"), 43);
    assert_eq!(again.notification, None);
    assert!(!again.refresh_path);

    let request = ExtensionUiRequest {
        id: "request-1".into(),
        method: "confirm".into(),
        title: "Confirm change".into(),
        message: "Apply the migration?".into(),
        options: Vec::new(),
        placeholder: None,
        prefill: None,
    };
    let attention = update_summary(&mut s, true, &ServerMessage::ExtensionUiRequest { request }, 44);
    assert!(!attention.changed);
    assert_eq!(attention.notification, Some((NotificationKind::Attention, "Apply the migration?".to_owned())));

    let failed = update_summary(&mut s, true, &status(AgentStatus::Failed, "Pi crashed"), 45);
    assert!(failed.drop_process);
    assert!(!s.running);
    assert_eq!(failed.notification, Some((NotificationKind::Failed, "Pi crashed".to_owned())));

    let renamed = update_summary(
        &mut s,
        true,
        &ServerMessage::SessionChanged { session_id: None, session_name: Some("  New   name ".into()) },
        46,
    );
    assert!(renamed.changed && renamed.refresh_path);
    assert_eq!(s.title, "New name");
}

#[test]
fn notifications_name_the_session_and_cut_the_message() {
    let n = agent_notification("w1", "slug", "Project", "s1", "Title", NotificationKind::Failed, "x".repeat(300), 7);
    assert_eq!(n.target, NotificationTarget::Agent { session_id: "s1".into() });
    assert_eq!(n.message.chars().count(), 240);
    assert_eq!(n.created_at_ms, 7);
}

#[test]
fn streamed_text_is_joined_until_something_else_arrives() {
    let mut pending: PendingDelta = None;
    assert!(batch_event(&mut pending, delta("a", "Hel", false)).is_empty());
    assert!(batch_event(&mut pending, delta("a", "lo", false)).is_empty());
    let switched = batch_event(&mut pending, delta("a", "hmm", true));
    assert_eq!(switched, vec![delta("a", "Hello", false)]);
    let other = batch_event(&mut pending, status(AgentStatus::Ready, "Ready"));
    assert_eq!(other, vec![delta("a", "hmm", true), status(AgentStatus::Ready, "Ready")]);
    assert!(pending.is_none());
    assert_eq!(flush_item_delta(&mut pending), None);
    batch_event(&mut pending, delta("b", "x", false));
    assert_eq!(flush_item_delta(&mut pending), Some(delta("b", "x", false)));
}

#[test]
fn oversized_frames_are_reported() {
    assert!(oversized_frame_error(&FramedLine::Line(b"{}".to_vec())).is_none());
    assert!(matches!(
        oversized_frame_error(&FramedLine::Oversized),
        Some(ServerMessage::Error { error }) if error.message == "Pi emitted an oversized protocol record; it was discarded"
    ));
}
