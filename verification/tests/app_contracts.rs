use syntaxis::app_contracts::{
    check_changes, missed_after_publish, resync_notice, subscriber_action, EventSequencer,
    SendOutcome, SubscriberAction,
    AiSettingsSection, AppError, AppErrorCode, ErrorSource, RetryAdvice, WorkspaceError,
    WorkspaceErrorCode, WorkspaceEventPublishError,
};

#[test]
fn workspace_errors_map_without_matching_message_text() {
    let mapped = AppError::from(WorkspaceError::new(
        WorkspaceErrorCode::Conflict,
        "the message remains presentational",
    ));
    assert_eq!(mapped.code, AppErrorCode::Conflict);
    assert_eq!(mapped.retry, RetryAdvice::AfterUserAction);
    assert_eq!(mapped.source, ErrorSource::Workspace);
}

#[test]
fn workspace_error_mapping_keeps_the_message() {
    let mapped = AppError::from(WorkspaceError::new(WorkspaceErrorCode::Unavailable, "offline"));
    assert_eq!(mapped.code, AppErrorCode::Offline);
    assert_eq!(mapped.retry, RetryAdvice::Backoff);
    assert_eq!(mapped.to_string(), "offline");
    let invalid = AppError::from(WorkspaceError::new(WorkspaceErrorCode::UnsupportedEncoding, "x"));
    assert_eq!(invalid.code, AppErrorCode::InvalidInput);
    assert_eq!(invalid.retry, RetryAdvice::Never);
}

#[test]
fn unsupported_errors_are_never_retried() {
    let error = AppError::unsupported("no terminal here", ErrorSource::Terminal);
    assert_eq!(error.code, AppErrorCode::Unsupported);
    assert_eq!(error.retry, RetryAdvice::Never);
    assert_eq!(error.source, ErrorSource::Terminal);
    assert_eq!(error.to_string(), "no terminal here");
}

#[test]
fn settings_sections_round_trip_through_their_slugs() {
    for section in AiSettingsSection::all() {
        assert_eq!(AiSettingsSection::from_slug(section.slug()), section);
    }
    assert_eq!(AiSettingsSection::from_slug("unknown"), AiSettingsSection::General);
    assert_eq!(AiSettingsSection::ProviderAccounts.label(), "Provider accounts");
    assert_eq!(AiSettingsSection::default(), AiSettingsSection::General);
}

#[test]
fn publish_errors_have_messages() {
    assert_eq!(
        WorkspaceEventPublishError::EmptyChanges.to_string(),
        "workspace change events cannot be empty"
    );
}

#[test]
fn mixed_workspace_changes_are_rejected() {
    let expected = "workspace-1";
    let different = vec!["workspace-2".to_string()];
    assert_eq!(
        check_changes(expected, &different),
        Err(WorkspaceEventPublishError::WorkspaceMismatch)
    );
    let mut bus = EventSequencer::new();
    assert_eq!(
        bus.publish_changes(expected, &different),
        Err(WorkspaceEventPublishError::WorkspaceMismatch)
    );
    assert_eq!(bus.next_sequence, 1);
}

#[test]
fn change_events_need_a_change_of_their_own_workspace() {
    assert_eq!(
        check_changes("w", &Vec::new()),
        Err(WorkspaceEventPublishError::EmptyChanges)
    );
    assert_eq!(check_changes("w", &vec!["w".to_string(), "w".to_string()]), Ok(()));
    assert_eq!(
        check_changes("w", &vec!["w".to_string(), "v".to_string()]),
        Err(WorkspaceEventPublishError::WorkspaceMismatch)
    );
}

/// A subscriber as the tests hold it: its queue of event numbers, how many
/// the queue can hold, and how many events it missed.
struct TestSubscriber {
    queue: Vec<u64>,
    room: usize,
    missed: usize,
}

fn offer(bus: &mut EventSequencer, subscribers: &mut Vec<TestSubscriber>, workspace: &str) -> u64 {
    let sequence = bus.publish_changes(workspace, &vec![workspace.to_string()]).expect("valid event should publish");
    for subscriber in subscribers.iter_mut() {
        let action = subscriber_action(false, subscriber.missed);
        let outcome = if subscriber.queue.len() < subscriber.room {
            SendOutcome::Sent
        } else {
            SendOutcome::Full
        };
        if action == SubscriberAction::Offer && outcome == SendOutcome::Sent {
            subscriber.queue.push(sequence);
        }
        subscriber.missed = missed_after_publish(action, outcome, subscriber.missed).expect("subscriber stays");
    }
    sequence
}

#[test]
fn events_are_sequenced_once_for_every_subscriber() {
    let mut bus = EventSequencer::new();
    let mut subscribers = vec![
        TestSubscriber { queue: Vec::new(), room: 3, missed: 0 },
        TestSubscriber { queue: Vec::new(), room: 3, missed: 0 },
    ];
    let published = offer(&mut bus, &mut subscribers, "workspace-1");
    assert_eq!(published, 1);
    assert_eq!(subscribers[0].queue, vec![1]);
    assert_eq!(subscribers[1].queue, vec![1]);
}

#[test]
fn lagged_subscribers_receive_an_explicit_resync() {
    let mut bus = EventSequencer::new();
    let mut subscribers = vec![TestSubscriber { queue: Vec::new(), room: 2, missed: 0 }];
    for _ in ["one.rs", "two.rs", "three.rs", "four.rs"] {
        offer(&mut bus, &mut subscribers, "workspace-1");
    }
    assert_eq!(subscribers[0].queue, vec![1, 2]);
    assert_eq!(resync_notice(subscribers[0].missed), Some(2));
    assert_eq!(bus.next_sequence, 5);
}

#[test]
fn closed_or_gone_subscribers_are_dropped() {
    assert_eq!(subscriber_action(true, 0), SubscriberAction::Drop);
    assert_eq!(subscriber_action(false, 3), SubscriberAction::Miss);
    assert_eq!(missed_after_publish(SubscriberAction::Drop, SendOutcome::Sent, 0), None);
    assert_eq!(missed_after_publish(SubscriberAction::Offer, SendOutcome::Disconnected, 0), None);
    assert_eq!(missed_after_publish(SubscriberAction::Miss, SendOutcome::Sent, usize::MAX), Some(usize::MAX));
    assert_eq!(resync_notice(0), None);
    let mut bus = EventSequencer { next_sequence: u64::MAX };
    assert_eq!(bus.publish_resync(), u64::MAX);
    assert_eq!(bus.next_sequence, u64::MAX);
    assert_eq!(bus.publish_changes("w", &Vec::new()), Err(WorkspaceEventPublishError::EmptyChanges));
}
