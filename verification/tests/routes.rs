use syntaxis::app_contracts::{AiSettingsSection, AppError, AppErrorCode, ErrorSource, RetryAdvice};
use syntaxis::app_shell::AiQuery;
use syntaxis::notifications::{AppNotification, NotificationKind, NotificationTarget};
use syntaxis::routes::{
    next_event_retry_ms, FIRST_EVENT_RETRY_MS, MAX_EVENT_RETRY_MS,
    navigation, notification_route, route_workspace, runtime_presentation, FileLocation,
    FilesQuery, HistoryStep, NavigationIntent, Route, RuntimeState, TerminalQuery, Tone,
    WorkspaceSection,
};

#[test]
fn sections_open_their_route_with_nothing_selected() {
    assert_eq!(
        Route::for_workspace_section("demo".into(), WorkspaceSection::Files),
        Route::Files {
            slug: "demo".into(),
            query: FilesQuery::none()
        }
    );
    assert_eq!(
        Route::for_workspace_section("demo".into(), WorkspaceSection::Terminal),
        Route::Terminal {
            slug: "demo".into(),
            query: TerminalQuery { session_id: None }
        }
    );
    assert_eq!(
        Route::for_workspace_section("demo".into(), WorkspaceSection::Ai),
        Route::Ai {
            slug: "demo".into(),
            query: AiQuery::default()
        }
    );
    assert_eq!(
        Route::for_workspace_section("demo".into(), WorkspaceSection::Git),
        Route::Git { slug: "demo".into() }
    );
}

#[test]
fn routes_name_their_workspace_section_and_title() {
    let settings = Route::AiSettings {
        slug: "demo".into(),
        section: AiSettingsSection::PromptTemplates,
    };
    assert_eq!(
        route_workspace(&settings),
        (
            "demo".to_string(),
            WorkspaceSection::Ai,
            "AI Settings · Prompt templates".to_string()
        )
    );
    assert_eq!(
        route_workspace(&Route::Home),
        ("syntaxis".to_string(), WorkspaceSection::Files, "Files".to_string())
    );
    assert_eq!(
        route_workspace(&Route::Preview { slug: "p".into() }),
        ("p".to_string(), WorkspaceSection::Preview, "Preview".to_string())
    );
}

#[test]
fn sessions_replace_the_page_and_places_push_it() {
    let terminal = navigation(
        NavigationIntent::Terminal {
            workspace: "w".into(),
            session_id: Some("t1".into()),
        },
        "demo",
    );
    assert_eq!(
        terminal,
        HistoryStep::Replace(Route::Terminal {
            slug: "demo".into(),
            query: TerminalQuery {
                session_id: Some("t1".into())
            }
        })
    );
    let files = navigation(
        NavigationIntent::Files {
            workspace: "w".into(),
            location: Some(FileLocation {
                path: "src/lib.rs".into(),
                line: Some(3),
                column: None,
                end_line: None,
                end_column: None,
            }),
        },
        "demo",
    );
    match files {
        HistoryStep::Push(Route::Files { slug, query }) => {
            assert_eq!(slug, "demo");
            assert_eq!(query.path.as_deref(), Some("src/lib.rs"));
            assert_eq!(query.line, Some(3));
        }
        other => panic!("unexpected step {other:?}"),
    }
    assert_eq!(navigation(NavigationIntent::Home, "demo"), HistoryStep::Push(Route::Home));
    assert_eq!(
        navigation(
            NavigationIntent::Ai {
                workspace: "w".into(),
                conversation_id: None
            },
            "demo"
        ),
        HistoryStep::Replace(Route::Ai {
            slug: "demo".into(),
            query: AiQuery::default()
        })
    );
}

#[test]
fn runtime_states_are_presented() {
    let local = runtime_presentation(Some(&Ok(RuntimeState::Ready {
        label: "This Mac".into(),
        local: true,
        unrestricted_roots: true,
    })));
    assert_eq!(local.eyebrow, "LOCAL WORKSPACES");
    assert_eq!(local.message, "This Mac is ready");
    assert_eq!(local.tone, Tone::Success);
    assert_eq!(local.folder_action_title, "Open folder");
    assert_eq!(local.folder_dialog_description, "Choose a project folder on this device.");
    let remote = runtime_presentation(Some(&Ok(RuntimeState::Ready {
        label: "Server".into(),
        local: false,
        unrestricted_roots: false,
    })));
    assert_eq!(remote.eyebrow, "CONNECTED WORKSPACES");
    assert_eq!(remote.folder_action_title, "Open workspace folder");
    assert_eq!(
        remote.folder_dialog_description,
        "Choose a project folder exposed by Server."
    );
    let failed = runtime_presentation(Some(&Err(AppError::new(
        AppErrorCode::Offline,
        "No route",
        RetryAdvice::Backoff,
        ErrorSource::Runtime,
    ))));
    assert_eq!(failed.label, "Runtime unavailable");
    assert_eq!(failed.message, "No route");
    assert_eq!(failed.tone, Tone::Destructive);
    let waiting = runtime_presentation(None);
    assert_eq!(waiting.label, "Connecting");
    assert_eq!(waiting.tone, Tone::Neutral);
    assert_eq!(
        runtime_presentation(Some(&Ok(RuntimeState::Connecting))),
        waiting
    );
}

#[test]
fn notifications_open_their_session() {
    let agent = AppNotification {
        workspace_id: "w1".into(),
        workspace_slug: "demo".into(),
        workspace_name: "Demo".into(),
        target: NotificationTarget::Agent {
            session_id: "a1".into(),
        },
        title: "Chat".into(),
        kind: NotificationKind::Completed,
        message: "done".into(),
        created_at_ms: 1,
    };
    assert_eq!(
        notification_route(&agent),
        Route::Ai {
            slug: "demo".into(),
            query: AiQuery::with_session("a1".into())
        }
    );
    let terminal = AppNotification {
        target: NotificationTarget::Terminal {
            session_id: "t1".into(),
        },
        ..agent
    };
    assert_eq!(
        notification_route(&terminal),
        Route::Terminal {
            slug: "demo".into(),
            query: TerminalQuery {
                session_id: Some("t1".into())
            }
        }
    );
}

#[test]
fn event_stream_retries_double_up_to_thirty_seconds() {
    let mut delay = FIRST_EVENT_RETRY_MS;
    let mut seen = Vec::new();
    for _ in 0..7 {
        seen.push(delay);
        delay = next_event_retry_ms(delay);
    }
    assert_eq!(seen, vec![1000, 2000, 4000, 8000, 16000, 30000, 30000]);
    assert_eq!(next_event_retry_ms(u64::MAX), MAX_EVENT_RETRY_MS);
    assert_eq!(next_event_retry_ms(0), 0);
}
