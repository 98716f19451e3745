use syntaxis::agent::{
    AgentErrorCode, AgentStatus, ClientMessage, ItemStatus, PromptDelivery,
    ThinkingLevel,
};
use syntaxis::agent_export::{export_message, is_export_name, is_export_size, MAX_EXPORT_BYTES};
use syntaxis::agent_mapping::{generate_id, map_history, parse_model};
use syntaxis::agent_protocol::{
    format_retry_message, handle_pi_record, handle_pi_response, receive_pi_record, PiAction, RuntimeState,
    MAX_EXTENSION_REQUESTS,
};
use syntaxis::agent_session::{
    choose_model, export_command, handle_client_message, pi_gone_error, identify_request, refresh_request, with_request_id,
    SessionStep,
};
use syntaxis::agent_state::{AgentSnapshot, ChatItem, ServerMessage};
use syntaxis::agent_values::{extract_result_text, MAX_TOOL_OUTPUT_CHARS};
use syntaxis::framing::{BoundedLfFramer, FramedLine};
use syntaxis::json::{command_line, JsonNumber, JsonValue};

fn text(value: &str) -> JsonValue {
    JsonValue::String(value.to_owned())
}

fn number(value: u64) -> JsonValue {
    JsonValue::Number(JsonNumber::Unsigned(value))
}

fn object(fields: Vec<(&str, JsonValue)>) -> JsonValue {
    JsonValue::Object(fields.into_iter().map(|(key, value)| (key.to_owned(), value)).collect())
}

fn record(kind: &str, mut fields: Vec<(&str, JsonValue)>) -> JsonValue {
    fields.insert(0, ("type", text(kind)));
    object(fields)
}

fn member<'a>(value: &'a JsonValue, key: &str) -> Option<&'a JsonValue> {
    match value {
        JsonValue::Object(fields) => fields.iter().find(|(name, _)| name == key).map(|(_, value)| value),
        _ => None,
    }
}

fn runtime(snapshot: AgentSnapshot) -> RuntimeState {
    RuntimeState {
        snapshot,
        session_file: None,
        current_assistant: None,
        accept_initial_history: false,
        fork_messages: Vec::new(),
        extension_requests: Vec::new(),
    }
}

fn sent(actions: &[PiAction]) -> Vec<&ServerMessage> {
    actions
        .iter()
        .filter_map(|action| match action {
            PiAction::Send(message) => Some(message),
            _ => None,
        })
        .collect()
}

fn dialog(id: &str) -> JsonValue {
    record(
        "extension_ui_request",
        vec![("id", text(id)), ("method", text("confirm")), ("title", text("Confirm")), ("message", text("Go?"))],
    )
}

#[test]
fn tool_output_is_bounded() {
    let output = extract_result_text(&JsonValue::String("x".repeat(MAX_TOOL_OUTPUT_CHARS + 100)));
    assert!(output.chars().count() <= MAX_TOOL_OUTPUT_CHARS);
    assert!(output.ends_with('…'));
}

#[test]
fn history_maps_pi_messages_and_tool_results() {
    let messages = vec![
        object(vec![("role", text("user")), ("content", text("Inspect src"))]),
        object(vec![
            ("role", text("assistant")),
            (
                "content",
                JsonValue::Array(vec![
                    object(vec![("type", text("thinking")), ("thinking", text("I should inspect."))]),
                    object(vec![("type", text("text")), ("text", text("I found it."))]),
                    object(vec![
                        ("type", text("toolCall")),
                        ("id", text("tool-1")),
                        ("name", text("read")),
                        ("arguments", object(vec![("path", text("src/main.rs"))])),
                    ]),
                ]),
            ),
            ("stopReason", text("length")),
        ]),
        object(vec![
            ("role", text("toolResult")),
            ("toolCallId", text("tool-1")),
            ("toolName", text("read")),
            ("content", JsonValue::Array(vec![object(vec![("type", text("text")), ("text", text("fn main() {}"))])])),
            ("isError", JsonValue::Bool(false)),
        ]),
    ];
    let items = map_history(&messages);
    assert_eq!(items.len(), 3);
    assert!(matches!(&items[0], ChatItem::User { text, .. } if text == "Inspect src"));
    assert!(matches!(
        &items[1],
        ChatItem::Assistant { text, thinking, truncated: true, .. }
        if text == "I found it." && thinking == "I should inspect."
    ));
    assert!(matches!(&items[2], ChatItem::Tool { output, .. } if output == "fn main() {}"));
}

#[test]
fn frames_fragmented_utf8_and_discards_oversized_records() -> Result<(), serde_json::Error> {
    let mut framer = BoundedLfFramer::new(32);
    assert!(framer.push(b"{\"text\":\"a\xE2").is_empty());
    let records = framer.push(b"\x80\xA8b\"}\r\nok\n");
    assert_eq!(records.len(), 2);
    let FramedLine::Line(first) = &records[0] else {
        panic!("expected a JSON record");
    };
    let first: serde_json::Value = serde_json::from_slice(first)?;
    assert_eq!(first["text"], "a\u{2028}b");
    let mut bounded = BoundedLfFramer::new(4);
    assert_eq!(
        bounded.push(b"12345\nok\n"),
        vec![FramedLine::Oversized, FramedLine::Line(b"ok".to_vec())]
    );
    Ok(())
}

#[test]
fn only_agent_settled_marks_the_session_idle() {
    let mut state = runtime(AgentSnapshot {
        status: AgentStatus::Working,
        status_message: "Working".into(),
        pending_messages: 2,
        ..AgentSnapshot::default()
    });
    let actions = handle_pi_record(&mut state, &record("agent_end", vec![]), "x");
    assert_eq!(state.snapshot.status, AgentStatus::Working);
    assert_eq!(state.snapshot.pending_messages, 2);
    assert!(actions.is_empty());

    let actions = handle_pi_record(&mut state, &record("agent_settled", vec![]), "x");
    assert_eq!(state.snapshot.status, AgentStatus::Ready);
    assert_eq!(state.snapshot.pending_messages, 0);
    assert!(matches!(
        actions.first(),
        Some(PiAction::Send(ServerMessage::Status { status: AgentStatus::Ready, .. }))
    ));
}

#[test]
fn queue_updates_preserve_steering_and_follow_up_counts() {
    let mut state = runtime(AgentSnapshot { status: AgentStatus::Working, ..AgentSnapshot::default() });
    handle_pi_record(
        &mut state,
        &record(
            "queue_update",
            vec![
                ("steering", JsonValue::Array(vec![object(vec![("message", text("one"))])])),
                (
                    "followUp",
                    JsonValue::Array(vec![
                        object(vec![("message", text("two"))]),
                        object(vec![("message", text("three"))]),
                    ]),
                ),
            ],
        ),
        "x",
    );
    assert_eq!(state.snapshot.pending_messages, 3);
    assert_eq!(state.snapshot.steering_queue, ["one"]);
    assert_eq!(state.snapshot.follow_up_queue, ["two", "three"]);
}

#[test]
fn settling_refreshes_statistics_and_fork_points() {
    let mut state = runtime(AgentSnapshot::default());
    let actions = handle_pi_record(&mut state, &record("agent_settled", vec![]), "x");
    assert!(matches!(&actions[1], PiAction::Refresh(command) if command == "get_session_stats"));
    assert!(matches!(&actions[2], PiAction::Refresh(command) if command == "get_fork_messages"));
    assert!(state.snapshot.steering_queue.is_empty());
}

#[test]
fn streamed_answers_accumulate_and_complete() {
    let mut state = runtime(AgentSnapshot::default());
    let update = |delta: &str, kind: &str| {
        record(
            "message_update",
            vec![("assistantMessageEvent", object(vec![("type", text(kind)), ("delta", text(delta))]))],
        )
    };
    let actions = handle_pi_record(&mut state, &update("Hel", "text_delta"), "a1");
    assert_eq!(actions.len(), 2);
    assert_eq!(state.current_assistant.as_deref(), Some("assistant-a1"));
    handle_pi_record(&mut state, &update("lo", "text_delta"), "a2");
    handle_pi_record(&mut state, &update("hmm", "thinking_delta"), "a3");
    handle_pi_record(&mut state, &update("ignored", "toolcall_delta"), "a4");
    assert_eq!(state.snapshot.items.len(), 1);
    assert!(matches!(
        &state.snapshot.items[0],
        ChatItem::Assistant { id, text, thinking, status: ItemStatus::Streaming, truncated: false }
        if id == "assistant-a1" && text == "Hello" && thinking == "hmm"
    ));
    let actions = handle_pi_record(&mut state, &record("agent_end", vec![]), "a5");
    assert!(state.current_assistant.is_none());
    assert!(matches!(
        sent(&actions).as_slice(),
        [ServerMessage::ItemUpdated { item: ChatItem::Assistant { status: ItemStatus::Complete, .. } }]
    ));
}

#[test]
fn message_end_marks_failed_answers_and_keeps_one_item() {
    let mut state = runtime(AgentSnapshot::default());
    let start = record("message_start", vec![("message", object(vec![("role", text("assistant"))]))]);
    handle_pi_record(&mut state, &start, "m1");
    let end = record(
        "message_end",
        vec![(
            "message",
            object(vec![
                ("role", text("assistant")),
                ("content", JsonValue::Array(vec![object(vec![("type", text("text")), ("text", text("Partial"))])])),
                ("errorMessage", text("quota exceeded")),
            ]),
        )],
    );
    handle_pi_record(&mut state, &end, "m2");
    assert_eq!(state.snapshot.items.len(), 1);
    assert!(matches!(
        &state.snapshot.items[0],
        ChatItem::Assistant { id, text, status: ItemStatus::Failed, .. }
        if id == "assistant-m1" && text == "Partial\n\nquota exceeded"
    ));
    let user_end = record("message_end", vec![("message", object(vec![("role", text("user"))]))]);
    assert!(handle_pi_record(&mut state, &user_end, "m3").is_empty());
}

#[test]
fn tool_updates_keep_earlier_output_and_report_failures() {
    let mut state = runtime(AgentSnapshot::default());
    handle_pi_record(
        &mut state,
        &record(
            "tool_execution_start",
            vec![("toolCallId", text("t1")), ("toolName", text("bash")), ("args", object(vec![("command", text("ls"))]))],
        ),
        "x",
    );
    let partial = record(
        "tool_execution_update",
        vec![("toolCallId", text("t1")), ("toolName", text("bash")), ("partialResult", text("file.txt"))],
    );
    handle_pi_record(&mut state, &partial, "x");
    let end = record(
        "tool_execution_end",
        vec![("toolCallId", text("t1")), ("toolName", text("bash")), ("isError", JsonValue::Bool(true))],
    );
    let actions = handle_pi_record(&mut state, &end, "x");
    assert_eq!(state.snapshot.items.len(), 1);
    assert!(matches!(
        &state.snapshot.items[0],
        ChatItem::Tool { output, summary, status: ItemStatus::Failed, .. }
        if output == "file.txt" && summary == "ls"
    ));
    assert_eq!(sent(&actions).len(), 1);
    assert!(handle_pi_record(&mut state, &record("tool_execution_end", vec![]), "x").is_empty());
}

#[test]
fn extension_dialogs_queue_up_to_their_limit() {
    let mut state = runtime(AgentSnapshot::default());
    let first = handle_pi_record(&mut state, &dialog("d0"), "x");
    assert!(matches!(sent(&first).as_slice(), [ServerMessage::ExtensionUiRequest { request }] if request.id == "d0"));
    for k in 1..MAX_EXTENSION_REQUESTS {
        let actions = handle_pi_record(&mut state, &dialog(&format!("d{k}")), "x");
        assert!(actions.is_empty());
    }
    assert_eq!(state.extension_requests.len(), MAX_EXTENSION_REQUESTS);
    let refused = handle_pi_record(&mut state, &dialog("extra"), "x");
    assert!(matches!(
        sent(&refused).as_slice(),
        [ServerMessage::Error { error }] if error.code == AgentErrorCode::Unavailable
            && error.message == "A Pi extension opened too many dialogs; the newest request was discarded"
    ));
    assert_eq!(state.extension_requests.len(), MAX_EXTENSION_REQUESTS);
    assert_eq!(state.snapshot.pending_extension_request.as_ref().map(|r| r.id.as_str()), Some("d0"));

    let answer = ClientMessage::ExtensionUiResponse {
        request_id: "d0".into(),
        value: None,
        confirmed: Some(true),
        cancelled: false,
    };
    let steps = handle_client_message(&mut state, answer, "x").unwrap();
    assert_eq!(steps.len(), 2);
    assert!(matches!(
        &steps[0],
        SessionStep::Command(command) if member(command, "confirmed") == Some(&JsonValue::Bool(true))
            && member(command, "id") == Some(&text("d0"))
    ));
    assert!(matches!(&steps[1], SessionStep::Emit(ServerMessage::ExtensionUiRequest { request }) if request.id == "d1"));
    assert_eq!(state.snapshot.pending_extension_request.as_ref().map(|r| r.id.as_str()), Some("d1"));
}

#[test]
fn extension_surfaces_replace_by_key_and_cut_long_text() {
    let mut state = runtime(AgentSnapshot::default());
    let status = |key: &str, value: &str| {
        record(
            "extension_ui_request",
            vec![("method", text("setStatus")), ("statusKey", text(key)), ("statusText", text(value))],
        )
    };
    handle_pi_record(&mut state, &status("git", "clean"), "x");
    handle_pi_record(&mut state, &status("git", "dirty"), "x");
    handle_pi_record(&mut state, &status("lint", &"y".repeat(300)), "x");
    assert_eq!(state.snapshot.extension_statuses.len(), 2);
    assert_eq!(state.snapshot.extension_statuses[0], ("git".to_owned(), "dirty".to_owned()));
    assert_eq!(state.snapshot.extension_statuses[1].1.chars().count(), 240);
    let actions = handle_pi_record(&mut state, &status("git", ""), "x");
    assert_eq!(state.snapshot.extension_statuses.len(), 1);
    assert!(matches!(sent(&actions).as_slice(), [ServerMessage::ExtensionSurfaces { statuses, .. }] if statuses.len() == 1));

    let lines: Vec<JsonValue> = (0..25).map(|k| text(&format!("line {k}"))).collect();
    let widget = record(
        "extension_ui_request",
        vec![
            ("method", text("setWidget")),
            ("widgetKey", text("todo")),
            ("widgetLines", JsonValue::Array(lines)),
            ("widgetPlacement", text("belowEditor")),
        ],
    );
    handle_pi_record(&mut state, &widget, "x");
    assert_eq!(state.snapshot.extension_widgets[0].lines.len(), 20);
    assert_eq!(state.snapshot.extension_widgets[0].placement, "belowEditor");
    let title = record("extension_ui_request", vec![("method", text("setTitle")), ("title", text(""))]);
    handle_pi_record(&mut state, &title, "x");
    assert!(state.snapshot.extension_title.is_none());
}

#[test]
fn notices_and_editor_text_come_from_extensions() {
    let mut state = runtime(AgentSnapshot::default());
    let notice = record(
        "extension_ui_request",
        vec![("method", text("notify")), ("message", text("Build failed")), ("notifyType", text("error"))],
    );
    handle_pi_record(&mut state, &notice, "n1");
    assert!(matches!(
        &state.snapshot.items[0],
        ChatItem::Notice { id, status: ItemStatus::Failed, .. } if id == "notice-n1"
    ));
    let editor = record("extension_ui_request", vec![("method", text("set_editor_text")), ("text", text("draft"))]);
    let actions = handle_pi_record(&mut state, &editor, "x");
    assert!(matches!(sent(&actions).as_slice(), [ServerMessage::ComposerText { text }] if text == "draft"));
}

#[test]
fn retries_and_failures_are_reported() {
    let retry = record("auto_retry_start", vec![("attempt", number(2)), ("maxAttempts", number(5)), ("delayMs", number(2500))]);
    assert_eq!(format_retry_message(&retry), "Retrying in 3s · attempt 2 of 5");
    assert_eq!(format_retry_message(&record("auto_retry_start", vec![])), "Retrying · attempt 1 of 1");
    let mut state = runtime(AgentSnapshot::default());
    handle_pi_record(&mut state, &retry, "x");
    assert_eq!(state.snapshot.status, AgentStatus::Working);
    assert_eq!(state.snapshot.status_message, "Retrying in 3s · attempt 2 of 5");

    let gave_up = record("auto_retry_end", vec![("success", JsonValue::Bool(false))]);
    let actions = handle_pi_record(&mut state, &gave_up, "x");
    assert!(matches!(
        sent(&actions).as_slice(),
        [ServerMessage::Error { error }] if error.message == "Pi exhausted its automatic retries"
    ));
    let failed = record("extension_error", vec![("message", text("boom"))]);
    let actions = handle_pi_record(&mut state, &failed, "x");
    assert!(matches!(
        sent(&actions).as_slice(),
        [ServerMessage::Error { error }] if error.code == AgentErrorCode::Internal && error.message == "boom"
    ));
    let compacting = handle_pi_record(&mut state, &record("compaction_start", vec![]), "x");
    assert_eq!(state.snapshot.status, AgentStatus::Compacting);
    assert_eq!(compacting.len(), 1);
}

#[test]
fn responses_update_the_session() {
    let mut state = runtime(AgentSnapshot::default());
    let rejected = record("response", vec![("success", JsonValue::Bool(false)), ("error", text("no such model"))]);
    let actions = handle_pi_response(&mut state, &rejected);
    assert!(matches!(
        sent(&actions).as_slice(),
        [ServerMessage::Error { error }] if error.code == AgentErrorCode::InvalidRequest && error.message == "no such model"
    ));
    let state_reply = record(
        "response",
        vec![
            ("command", text("get_state")),
            (
                "data",
                object(vec![
                    ("sessionId", text("s1")),
                    ("sessionFile", text("/tmp/s1.jsonl")),
                    ("isStreaming", JsonValue::Bool(true)),
                    ("thinkingLevel", text("high")),
                ]),
            ),
        ],
    );
    let actions = handle_pi_record(&mut state, &state_reply, "x");
    assert_eq!(actions.len(), 3);
    assert_eq!(state.session_file.as_deref(), Some("/tmp/s1.jsonl"));
    assert_eq!(state.snapshot.session_id.as_deref(), Some("s1"));
    assert_eq!(state.snapshot.status, AgentStatus::Working);
    assert_eq!(state.snapshot.thinking_level, ThinkingLevel::High);

    let export = record("response", vec![("command", text("export_html")), ("data", object(vec![("path", text("/tmp/x.html"))]))]);
    let actions = handle_pi_response(&mut state, &export);
    assert!(matches!(actions.as_slice(), [PiAction::Export(path)] if path == "/tmp/x.html"));
    let fork = record("response", vec![("command", text("fork")), ("data", object(vec![("text", text("again"))]))]);
    assert!(matches!(
        sent(&handle_pi_response(&mut state, &fork)).as_slice(),
        [ServerMessage::ComposerText { text }] if text == "again"
    ));
    let points = record(
        "response",
        vec![
            ("command", text("get_fork_messages")),
            ("data", object(vec![("messages", JsonValue::Array(vec![object(vec![("entryId", text("e1")), ("text", text("hi"))])]))])),
        ],
    );
    handle_pi_response(&mut state, &points);
    assert_eq!(state.snapshot.fork_points, vec![("e1".to_owned(), "hi".to_owned())]);
}

#[test]
fn prompts_are_shown_counted_and_sent_trimmed() {
    let mut state = runtime(AgentSnapshot::default());
    state.accept_initial_history = true;
    let message = ClientMessage::Prompt { text: "  hello  ".into(), delivery: PromptDelivery::Steer, images: Vec::new() };
    let steps = handle_client_message(&mut state, message, "p1").unwrap();
    assert_eq!(state.snapshot.pending_messages, 1);
    assert!(!state.accept_initial_history);
    assert!(matches!(&state.snapshot.items[0], ChatItem::User { id, text, .. } if id == "user-p1" && text == "hello"));
    assert!(matches!(
        &steps[1],
        SessionStep::Command(command) if member(command, "type") == Some(&text("steer"))
            && member(command, "message") == Some(&text("hello"))
    ));
    let empty = ClientMessage::Prompt { text: "   ".into(), delivery: PromptDelivery::Prompt, images: Vec::new() };
    assert!(handle_client_message(&mut state, empty, "p2").is_err());
    assert_eq!(state.snapshot.items.len(), 1);
}

#[test]
fn session_actions_map_to_pi_commands() {
    let mut state = runtime(AgentSnapshot::default());
    let hello = handle_client_message(&mut state, ClientMessage::Hello { version: 8 }, "x");
    assert_eq!(hello.unwrap_err().code, AgentErrorCode::InvalidProtocol);
    let misplaced = handle_client_message(&mut state, ClientMessage::CreateSession, "x");
    assert_eq!(misplaced.unwrap_err().message, "Workspace-level action sent to a Pi session");
    let fork = handle_client_message(&mut state, ClientMessage::ForkMessage { entry_id: "e1".into() }, "x").unwrap();
    assert_eq!(fork.len(), 5);
    assert!(state.accept_initial_history);
    let export = handle_client_message(&mut state, ClientMessage::ExportHtml, "u1").unwrap();
    assert!(matches!(export.as_slice(), [SessionStep::Export(name)] if name == "syntaxis-session-u1.html"));
    let compact = handle_client_message(
        &mut state,
        ClientMessage::Compact { custom_instructions: Some("  keep tests  ".into()) },
        "x",
    )
    .unwrap();
    assert!(matches!(
        compact.as_slice(),
        [SessionStep::Command(command)] if member(command, "customInstructions") == Some(&text("keep tests"))
    ));
    let refresh = handle_client_message(&mut state, ClientMessage::Refresh, "x").unwrap();
    assert_eq!(refresh.len(), 6);
    let level = handle_client_message(&mut state, ClientMessage::SetThinkingLevel { level: ThinkingLevel::Low }, "x").unwrap();
    assert_eq!(state.snapshot.thinking_level, ThinkingLevel::Low);
    assert!(matches!(&level[1], SessionStep::Command(command) if member(command, "level") == Some(&text("low"))));
    let model = handle_client_message(
        &mut state,
        ClientMessage::SetModel { provider: "p".into(), model_id: "m".into() },
        "x",
    )
    .unwrap();
    assert!(matches!(&model[1], SessionStep::ChooseModel(None)));
    let changed = choose_model(&mut state, None);
    assert!(matches!(changed, ServerMessage::ModelChanged { model: None, thinking_level: ThinkingLevel::Low }));
}

#[test]
fn request_ids_are_added_only_when_missing() {
    let bare = with_request_id(object(vec![("type", text("abort"))]), "r1");
    assert_eq!(member(&bare, "id"), Some(&text("request-r1")));
    let own = with_request_id(object(vec![("id", text("mine")), ("type", text("abort"))]), "r2");
    assert_eq!(member(&own, "id"), Some(&text("mine")));
    let random = identify_request(object(vec![("type", text("abort"))]));
    assert!(matches!(member(&random, "id"), Some(JsonValue::String(id)) if id.starts_with("request-")));
    let refresh = refresh_request("get_commands");
    assert!(matches!(member(&refresh, "id"), Some(JsonValue::String(id)) if id.starts_with("syntaxis-refresh-")));
    assert_eq!(member(&export_command("/tmp/out.html"), "outputPath"), Some(&text("/tmp/out.html")));
    let id = generate_id("tool");
    assert!(id.starts_with("tool-") && id.len() > "tool-".len());
}

#[test]
fn random_ids_name_new_items() {
    let mut state = runtime(AgentSnapshot::default());
    let start = record("message_start", vec![("message", object(vec![("role", text("assistant"))]))]);
    receive_pi_record(&mut state, &start);
    assert!(matches!(
        &state.snapshot.items[0],
        ChatItem::Assistant { id, .. } if id.starts_with("assistant-") && id.len() > "assistant-".len()
    ));
}

#[test]
fn exports_are_read_back_only_from_the_hosts_files() {
    assert!(is_export_name("syntaxis-session-1234.html"));
    assert!(is_export_name("syntaxis-session-1234.HTML"));
    assert!(!is_export_name("syntaxis-session-1234.htm"));
    assert!(!is_export_name("other-1234.html"));
    assert!(!is_export_name("syntaxis-session-1234"));
    assert!(is_export_size(MAX_EXPORT_BYTES));
    assert!(!is_export_size(MAX_EXPORT_BYTES + 1));
    assert!(matches!(
        export_message(Some(b"hi".to_vec())),
        ServerMessage::ExportReady { filename, data_base64 } if filename == "pi-session.html" && data_base64 == "aGk="
    ));
    assert!(matches!(
        export_message(None),
        ServerMessage::Error { error } if error.message == "The exported session could not be downloaded or exceeded 8 MiB"
    ));
}

#[test]
fn answering_an_unknown_dialog_keeps_the_queue() {
    let mut state = runtime(AgentSnapshot::default());
    handle_pi_record(&mut state, &dialog("d0"), "x");
    let answer = ClientMessage::ExtensionUiResponse {
        request_id: "other".into(),
        value: Some("v".into()),
        confirmed: None,
        cancelled: true,
    };
    let steps = handle_client_message(&mut state, answer, "x").unwrap();
    assert_eq!(state.extension_requests.len(), 1);
    assert!(matches!(
        &steps[0],
        SessionStep::Command(command) if member(command, "cancelled") == Some(&JsonValue::Bool(true))
            && member(command, "value").is_none()
    ));
}

fn fraction(text: &str, millionths: u64) -> JsonValue {
    JsonValue::Number(JsonNumber::Float { text: text.to_owned(), millionths, percent: 0 })
}

#[test]
fn model_parser_preserves_filter_metadata() {
    let value = object(vec![
        ("provider", text("example")),
        ("id", text("reasoner")),
        ("name", text("Reasoner")),
        ("reasoning", JsonValue::Bool(true)),
        ("input", JsonValue::Array(vec![text("text"), text("image")])),
        ("contextWindow", number(200_000)),
        ("maxTokens", number(32_000)),
        (
            "cost",
            object(vec![
                ("input", fraction("0.25", 250_000)),
                ("output", fraction("1.5", 1_500_000)),
                ("cacheRead", fraction("0.025", 25_000)),
                ("cacheWrite", number(0)),
                (
                    "tiers",
                    JsonValue::Array(vec![object(vec![
                        ("inputTokensAbove", number(100_000)),
                        ("input", fraction("0.5", 500_000)),
                    ])]),
                ),
            ]),
        ),
    ]);
    let model = parse_model(&value).expect("valid model metadata was rejected");
    assert!(model.reasoning);
    assert_eq!(model.thinking_levels, ThinkingLevel::standard().to_vec());
    assert!(model.supports_images);
    assert_eq!(model.context_window, 200_000);
    assert_eq!(model.max_tokens, 32_000);
    assert_eq!(model.cost.input, 250_000);
    assert_eq!(model.cost.output, 1_500_000);
    assert_eq!(model.cost.cache_read, 25_000);
    assert!(model.cost.has_paid_tier);
    assert!(!model.cost.is_free());
}

#[test]
fn model_parser_respects_sparse_thinking_level_maps() {
    let value = object(vec![
        ("provider", text("example")),
        ("id", text("reasoner")),
        ("reasoning", JsonValue::Bool(true)),
        (
            "thinkingLevelMap",
            object(vec![
                ("off", JsonValue::Null),
                ("minimal", JsonValue::Null),
                ("low", text("low")),
                ("medium", JsonValue::Null),
                ("high", text("high")),
                ("xhigh", JsonValue::Null),
                ("max", text("max")),
            ]),
        ),
    ]);
    let model = parse_model(&value).expect("valid model metadata was rejected");
    assert_eq!(
        model.thinking_levels,
        vec![ThinkingLevel::Low, ThinkingLevel::High, ThinkingLevel::Max],
    );
    assert_eq!(model.effective_thinking_level(ThinkingLevel::Medium), ThinkingLevel::Low);
    assert_eq!(model.name, "reasoner");
    assert_eq!(model.context_window, 128_000);
    assert_eq!(model.max_tokens, 16_384);
    assert!(!model.supports_images);
    assert!(model.cost.is_free());
}

#[test]
fn models_without_reasoning_only_turn_thinking_off() {
    let value = object(vec![
        ("provider", text("example")),
        ("id", text("plain")),
        ("thinkingLevelMap", object(vec![("high", text("high"))])),
    ]);
    let model = parse_model(&value).expect("valid model metadata was rejected");
    assert_eq!(model.thinking_levels, ThinkingLevel::off_only().to_vec());
    assert_eq!(model.effective_thinking_level(ThinkingLevel::High), ThinkingLevel::Off);
}

#[test]
fn effective_thinking_level_falls_back_to_the_least_offered() {
    let value = object(vec![
        ("provider", text("example")),
        ("id", text("deep")),
        ("reasoning", JsonValue::Bool(true)),
        (
            "thinkingLevelMap",
            object(vec![
                ("off", JsonValue::Null),
                ("minimal", JsonValue::Null),
                ("low", JsonValue::Null),
                ("xhigh", text("xhigh")),
            ]),
        ),
    ]);
    let model = parse_model(&value).expect("valid model metadata was rejected");
    assert_eq!(model.thinking_levels, vec![ThinkingLevel::Medium, ThinkingLevel::High, ThinkingLevel::Xhigh]);
    assert_eq!(model.effective_thinking_level(ThinkingLevel::Minimal), ThinkingLevel::Medium);
    assert_eq!(model.effective_thinking_level(ThinkingLevel::High), ThinkingLevel::High);
    assert_eq!(model.effective_thinking_level(ThinkingLevel::Max), ThinkingLevel::Xhigh);
    assert!(parse_model(&object(vec![("id", text("x"))])).is_none());
}

#[test]
fn only_a_length_stop_marks_an_assistant_message_truncated() {
    let finished = object(vec![
        ("role", text("assistant")),
        ("content", JsonValue::Array(vec![object(vec![("type", text("text")), ("text", text("Done."))])])),
        ("stopReason", text("stop")),
    ]);
    let items = map_history(&vec![finished]);
    assert!(matches!(&items[0], ChatItem::Assistant { truncated: false, text, .. } if text == "Done."));
}

#[test]
fn each_line_is_framed_on_its_own() {
    let mut framer = BoundedLfFramer::new(4);
    assert_eq!(framer.push(b"abc\r\n"), vec![FramedLine::Line(b"abc".to_vec())]);
    assert_eq!(framer.push(b"abcde\n"), vec![FramedLine::Oversized]);
    assert!(framer.push(b"\r\n").is_empty());
    assert_eq!(framer.push(b"ok\n"), vec![FramedLine::Line(b"ok".to_vec())]);
}

#[test]
fn thinking_levels_are_clamped_to_what_the_model_offers() {
    let value = object(vec![
        ("provider", text("example")),
        ("id", text("reasoner")),
        ("reasoning", JsonValue::Bool(true)),
        (
            "thinkingLevelMap",
            object(vec![("off", JsonValue::Null), ("minimal", JsonValue::Null), ("medium", JsonValue::Null)]),
        ),
    ]);
    let model = parse_model(&value).expect("valid model metadata was rejected");
    let mut state = runtime(AgentSnapshot { model: Some(model), ..AgentSnapshot::default() });
    let steps =
        handle_client_message(&mut state, ClientMessage::SetThinkingLevel { level: ThinkingLevel::Medium }, "x").unwrap();
    assert_eq!(state.snapshot.thinking_level, ThinkingLevel::Low);
    assert!(matches!(
        &steps[0],
        SessionStep::Emit(ServerMessage::ModelChanged { thinking_level: ThinkingLevel::Low, .. })
    ));
    assert!(matches!(&steps[1], SessionStep::Command(command) if member(command, "level") == Some(&text("low"))));
}

#[test]
fn commands_are_written_as_json_lines() {
    let abort = object(vec![("type", text("abort")), ("id", text("r1"))]);
    assert_eq!(command_line(&abort), b"{\"id\":\"r1\",\"type\":\"abort\"}\n".to_vec());
    let gone = pi_gone_error();
    assert_eq!(gone.code, AgentErrorCode::Unavailable);
    assert_eq!(gone.message, "The Pi process is not running");
}

#[test]
fn lines_are_framed_in_order_and_a_tail_waits() {
    let mut framer = BoundedLfFramer::new(4);
    let records = framer.push(b"one\n\n\r\ntoolong\nok\r\nrest");
    assert_eq!(
        records,
        vec![
            FramedLine::Line(b"one".to_vec()),
            FramedLine::Oversized,
            FramedLine::Line(b"ok".to_vec()),
        ]
    );
    assert_eq!(framer.finish(), Some(FramedLine::Line(b"rest".to_vec())));
}
