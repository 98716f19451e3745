use syntaxis::notifications::{
    next_attempt, ClearRequest, NotificationCenterState,
    format_age, is_viewed, notification_age, reconnect_delay_ms, upsert, AppNotification, NotificationKind,
    NotificationTarget, MAX_VISIBLE_NOTIFICATIONS,
};

fn notification(workspace: &str, session: &str, created_at_ms: u64) -> AppNotification {
    AppNotification {
        workspace_id: workspace.into(),
        workspace_slug: workspace.into(),
        workspace_name: workspace.into(),
        target: NotificationTarget::Agent { session_id: session.into() },
        title: "Session".into(),
        kind: NotificationKind::Completed,
        message: format!("at {created_at_ms}"),
        created_at_ms,
    }
}

#[test]
fn reconnect_and_visible_buffers_are_bounded() {
    assert_eq!(MAX_VISIBLE_NOTIFICATIONS, 100);
    assert_eq!(reconnect_delay_ms(1), 500);
    assert_eq!(reconnect_delay_ms(8), 10_000);
}

#[test]
fn reconnect_delays_double_up_to_the_cap() {
    assert_eq!(reconnect_delay_ms(0), 500);
    assert_eq!(reconnect_delay_ms(2), 1_000);
    assert_eq!(reconnect_delay_ms(5), 8_000);
    assert_eq!(reconnect_delay_ms(6), 10_000);
    assert_eq!(reconnect_delay_ms(255), 10_000);
}

#[test]
fn ages_read_in_minutes_hours_and_days() {
    assert_eq!(format_age(59_999, 0), "now");
    assert_eq!(format_age(5 * 60_000, 0), "5m");
    assert_eq!(format_age(3 * 3_600_000, 0), "3h");
    assert_eq!(format_age(2 * 86_400_000, 0), "2d");
    assert_eq!(format_age(0, 10), "now");
    assert_eq!(notification_age(u64::MAX), "now");
}

#[test]
fn upserting_replaces_the_same_subject_and_keeps_newest_first() {
    let mut items = Vec::new();
    upsert(&mut items, notification("w1", "s1", 10));
    upsert(&mut items, notification("w1", "s2", 30));
    upsert(&mut items, notification("w2", "s1", 20));
    upsert(&mut items, notification("w1", "s1", 40));
    let times: Vec<u64> = items.iter().map(|n| n.created_at_ms).collect();
    assert_eq!(times, vec![40, 30, 20]);
    for k in 0..150 {
        upsert(&mut items, notification("w3", &format!("s{k}"), 100 + k));
    }
    assert_eq!(items.len(), MAX_VISIBLE_NOTIFICATIONS);
    assert_eq!(items[0].created_at_ms, 249);
}

#[test]
fn viewing_matches_workspace_and_target() {
    let n = notification("w1", "s1", 0);
    let target = NotificationTarget::Agent { session_id: "s1".into() };
    let other = NotificationTarget::Terminal { session_id: "s1".into() };
    let w1 = "w1".to_owned();
    assert!(is_viewed(&n, Some((&w1, &target))));
    assert!(!is_viewed(&n, Some((&w1, &other))));
    assert!(!is_viewed(&n, None));
}

#[test]
fn the_center_clears_what_is_viewed() {
    let mut center = NotificationCenterState::new();
    let cleared = center.receive_snapshot(vec![
        notification("w", "a", 1),
        notification("w", "b", 3),
        notification("w", "c", 2),
    ]);
    assert!(cleared.is_empty());
    let order: Vec<u64> = center.items.iter().map(|n| n.created_at_ms).collect();
    assert_eq!(order, vec![3, 2, 1]);
    let request = center.view(
        "w".into(),
        Some(NotificationTarget::Agent { session_id: "b".into() }),
    );
    assert_eq!(
        request,
        Some(ClearRequest {
            workspace_id: "w".into(),
            target: NotificationTarget::Agent { session_id: "b".into() }
        })
    );
    assert_eq!(center.items.len(), 2);
    assert!(center.receive_upsert(notification("w", "b", 9)).is_some());
    assert_eq!(center.items.len(), 2);
    assert!(center.receive_upsert(notification("w", "d", 9)).is_none());
    assert_eq!(center.items[0].created_at_ms, 9);
    let again = center.receive_snapshot(vec![notification("w", "b", 5), notification("w", "e", 4)]);
    assert_eq!(again.len(), 1);
    assert_eq!(center.items.len(), 1);
    center.stop_viewing("other");
    assert!(center.viewing.is_some());
    center.stop_viewing("w");
    assert!(center.viewing.is_none());
}

#[test]
fn clearing_everything_asks_the_host_for_each() {
    let mut center = NotificationCenterState::new();
    center.receive_snapshot(vec![notification("w", "a", 1), notification("v", "b", 2)]);
    let requests = center.clear_all();
    assert_eq!(requests.len(), 2);
    assert!(center.items.is_empty());
    center.receive_snapshot((0..150).map(|i| notification("w", &format!("s{i}"), i)).collect());
    assert_eq!(center.items.len(), MAX_VISIBLE_NOTIFICATIONS);
    center.receive_removed(&"w".to_string(), &NotificationTarget::Agent { session_id: "s5".into() });
    assert_eq!(center.items.len(), MAX_VISIBLE_NOTIFICATIONS - 1);
    assert_eq!(next_attempt(0), 1);
    assert_eq!(next_attempt(7), 8);
    assert_eq!(next_attempt(8), 8);
    assert_eq!(next_attempt(255), 8);
}
