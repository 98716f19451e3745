//! The agent host's reading of Pi's event stream: each record moves the
//! conversation state on and says what the client is sent.
use vstd::prelude::*;
use crate::agent::{
    AgentError, AgentErrorCode, AgentStatus, ExtensionUiRequest, ExtensionWidget, ItemStatus,
    ModelSummary, PiCommand, SessionStats,
};
use crate::agent_mapping::{
    apply_fork_message_ids, apply_session_state, assistant_item, assistant_item_from_message,
    command_of, custom_item, is_text_of, random_uuid, text_or, custom_item_from_message, find_item, fork_ids_from, fresh_id,
    history_from, item_with_id, lemma_item_with_id, map_history, model_of, new_id, parse_command,
    parse_model, parse_session_stats, queue_messages, queue_of, session_state_applied,
    session_stats_of,
};
use crate::agent_state::{
    copy_commands, copy_json, copy_models, copy_opt_model, copy_pairs, copy_request, copy_text, copy_texts, copy_widgets, event_view, item_id, item_view, items_view, opt_model_view,
    pairs_view, push_item, pushed, request_view, command_view, model_view, CommandView, ModelView, snapshot_view, texts_view, widget_view, AgentSnapshot,
    ChatItem, EventView, ItemView, RequestView, ServerMessage, SnapshotView, WidgetView,
};
use crate::agent_values::{
    bounded_details, bounded_json, extract_result_text, opt_json_view, result_text, summarize_tool, tool_summary,
    truncate_chars, truncated,
};
use crate::app_shell::opt_view;
use crate::json::{
    flag_member, json_view, json_views, lemma_json_views, member, opt_json, string_field,
    text_member, bool_field, count_member, Json, JsonValue,
};
use crate::text::{chars_of, concat, decimal, format_decimal, string_from_chars};

verus! {

/// Most extension dialogs waiting at once.
pub const MAX_EXTENSION_REQUESTS: usize = 16;

/// What the host keeps for one running Pi session.
pub struct RuntimeState {
    pub snapshot: AgentSnapshot,
    pub session_file: Option<String>,
    pub current_assistant: Option<String>,
    pub accept_initial_history: bool,
    pub fork_messages: Vec<(String, String)>,
    pub extension_requests: Vec<ExtensionUiRequest>,
}

pub ghost struct RuntimeView {
    pub snapshot: SnapshotView,
    pub session_file: Option<Seq<char>>,
    pub current_assistant: Option<Seq<char>>,
    pub accept_initial_history: bool,
    pub fork_messages: Seq<(Seq<char>, Seq<char>)>,
    pub extension_requests: Seq<RequestView>,
}

pub open spec fn runtime_view(s: RuntimeState) -> RuntimeView {
    RuntimeView {
        snapshot: snapshot_view(s.snapshot),
        session_file: opt_view(s.session_file),
        current_assistant: opt_view(s.current_assistant),
        accept_initial_history: s.accept_initial_history,
        fork_messages: pairs_view(s.fork_messages@),
        extension_requests: s.extension_requests@.map_values(|r: ExtensionUiRequest| request_view(r)),
    }
}

/// What the host does after reading a record.
#[derive(Debug)]
pub enum PiAction {
    /// Send this message to the client.
    Send(ServerMessage),
    /// Ask Pi again for `get_session_stats` or `get_fork_messages`.
    Refresh(String),
    /// Read the exported session at this path, remove it and offer it for
    /// download.
    Export(String),
}

pub ghost enum ActionView {
    Send(EventView),
    Refresh(Seq<char>),
    Export(Seq<char>),
}

pub open spec fn action_view(a: PiAction) -> ActionView {
    match a {
        PiAction::Send(m) => ActionView::Send(event_view(m)),
        PiAction::Refresh(c) => ActionView::Refresh(c@),
        PiAction::Export(p) => ActionView::Export(p@),
    }
}

pub open spec fn actions_view(v: Seq<PiAction>) -> Seq<ActionView> {
    v.map_values(|a: PiAction| action_view(a))
}

/// The extension dialogs never exceed their limit.
pub open spec fn requests_bounded(s: RuntimeView) -> bool {
    s.extension_requests.len() <= MAX_EXTENSION_REQUESTS
}

fn send(actions: &mut Vec<PiAction>, message: ServerMessage)
    ensures
        actions_view(final(actions)@) == actions_view(old(actions)@).push(ActionView::Send(event_view(message))),
{
    let ghost before = actions_view(actions@);
    let ghost m = event_view(message);
    actions.push(PiAction::Send(message));
    proof {
        assert(actions_view(actions@) =~= before.push(ActionView::Send(m)));
    }
}

/// The state and messages after a status change.
pub open spec fn status_set(s: RuntimeView, status: AgentStatus, message: Seq<char>) -> (RuntimeView, Seq<ActionView>) {
    (
        RuntimeView { snapshot: SnapshotView { status, status_message: message, ..s.snapshot }, ..s },
        seq![ActionView::Send(EventView::Status(status, message, s.snapshot.pending_messages))],
    )
}

fn set_status(state: &mut RuntimeState, actions: &mut Vec<PiAction>, status: AgentStatus, message: &str)
    ensures
        runtime_view(*final(state)) == status_set(runtime_view(*old(state)), status, message@).0,
        actions_view(final(actions)@) == actions_view(old(actions)@) + status_set(
            runtime_view(*old(state)),
            status,
            message@,
        ).1,
{
    state.snapshot.status = status;
    state.snapshot.status_message = message.to_owned();
    let pending = state.snapshot.pending_messages;
    send(actions, ServerMessage::Status { status, message: message.to_owned(), pending_messages: pending });
    proof {
        assert(runtime_view(*state) =~= status_set(runtime_view(*old(state)), status, message@).0);
    }
}

/// The state after the streamed assistant item is finished with `status`,
/// and that item when it is an assistant item.
pub open spec fn assistant_finalized(s: RuntimeView, status: ItemStatus) -> (RuntimeView, Option<ItemView>) {
    match s.current_assistant {
        None => (s, None),
        Some(id) => {
            let taken = RuntimeView { current_assistant: None, ..s };
            let items = s.snapshot.items;
            let k = item_with_id(items, id, 0);
            if 0 <= k < items.len() {
                match items[k] {
                    ItemView::Assistant { id: item_id, text, thinking, truncated, .. } => {
                        let updated = ItemView::Assistant { id: item_id, text, thinking, status, truncated };
                        (
                            RuntimeView { snapshot: SnapshotView { items: items.update(k, updated), ..s.snapshot }, ..taken },
                            Some(updated),
                        )
                    },
                    _ => (taken, None),
                }
            } else {
                (taken, None)
            }
        },
    }
}

fn finalize_current_assistant(state: &mut RuntimeState, status: ItemStatus) -> (r: Option<ChatItem>)
    ensures
        runtime_view(*final(state)) == assistant_finalized(runtime_view(*old(state)), status).0,
        match r {
            Some(item) => assistant_finalized(runtime_view(*old(state)), status).1 == Some(item_view(item)),
            None => assistant_finalized(runtime_view(*old(state)), status).1 is None,
        },
{
    let id = match state.current_assistant.take() {
        Some(id) => id,
        None => return None,
    };
    let k = find_item(&state.snapshot.items, &id);
    proof {
        lemma_item_with_id(items_view(state.snapshot.items@), id@, 0);
    }
    if k >= state.snapshot.items.len() {
        proof {
            assert(runtime_view(*state) =~= assistant_finalized(runtime_view(*old(state)), status).0);
        }
        return None;
    }
    let updated = match &state.snapshot.items[k] {
        ChatItem::Assistant { id, text, thinking, truncated, .. } => ChatItem::Assistant {
            id: id.clone(),
            text: text.clone(),
            thinking: thinking.clone(),
            status,
            truncated: *truncated,
        },
        _ => {
            proof {
                assert(items_view(state.snapshot.items@)[k as int] == item_view(state.snapshot.items@[k as int]));
                assert(runtime_view(*state) =~= assistant_finalized(runtime_view(*old(state)), status).0);
            }
            return None;
        },
    };
    let result = updated.copy();
    let ghost before = items_view(state.snapshot.items@);
    let ghost uv = item_view(updated);
    state.snapshot.items.set(k, updated);
    proof {
        assert(before[k as int] == item_view(old(state).snapshot.items@[k as int]));
        assert(items_view(state.snapshot.items@) =~= before.update(k as int, uv));
        assert(runtime_view(*state) =~= assistant_finalized(runtime_view(*old(state)), status).0);
    }
    Some(result)
}

pub open spec fn updated_event(item: Option<ItemView>) -> Seq<ActionView> {
    match item {
        Some(i) => seq![ActionView::Send(EventView::ItemUpdated(i))],
        None => Seq::empty(),
    }
}

/// `agent_end`: the streamed answer is complete.
pub open spec fn agent_ended(s: RuntimeView) -> (RuntimeView, Seq<ActionView>) {
    let f = assistant_finalized(s, ItemStatus::Complete);
    (f.0, updated_event(f.1))
}

/// `agent_settled`: the answer is complete, nothing is queued, the session
/// is ready, and the session figures and fork points are asked for again.
pub open spec fn agent_settled(s: RuntimeView) -> (RuntimeView, Seq<ActionView>) {
    let f = assistant_finalized(s, ItemStatus::Complete);
    (
        RuntimeView {
            snapshot: SnapshotView {
                pending_messages: 0,
                steering_queue: Seq::empty(),
                follow_up_queue: Seq::empty(),
                status: AgentStatus::Ready,
                status_message: "Ready"@,
                ..f.0.snapshot
            },
            ..f.0
        },
        updated_event(f.1) + seq![
            ActionView::Send(EventView::Status(AgentStatus::Ready, "Ready"@, 0)),
            ActionView::Refresh("get_session_stats"@),
            ActionView::Refresh("get_fork_messages"@),
        ],
    )
}

fn send_updated(actions: &mut Vec<PiAction>, item: Option<ChatItem>)
    ensures
        actions_view(final(actions)@) == actions_view(old(actions)@) + updated_event(match item {
            Some(i) => Some(item_view(i)),
            None => None,
        }),
{
    match item {
        Some(i) => send(actions, ServerMessage::ItemUpdated { item: i }),
        None => {
            proof {
                assert(actions_view(actions@) =~= actions_view(old(actions)@) + Seq::<ActionView>::empty());
            }
        },
    }
}

fn refresh(actions: &mut Vec<PiAction>, command: &str)
    ensures
        actions_view(final(actions)@) == actions_view(old(actions)@).push(ActionView::Refresh(command@)),
{
    let ghost before = actions_view(actions@);
    actions.push(PiAction::Refresh(command.to_owned()));
    proof {
        assert(actions_view(actions@) =~= before.push(ActionView::Refresh(command@)));
    }
}

fn on_agent_end(state: &mut RuntimeState, actions: &mut Vec<PiAction>)
    ensures
        runtime_view(*final(state)) == agent_ended(runtime_view(*old(state))).0,
        actions_view(final(actions)@) == actions_view(old(actions)@) + agent_ended(runtime_view(*old(state))).1,
{
    let finalized = finalize_current_assistant(state, ItemStatus::Complete);
    send_updated(actions, finalized);
}

fn on_agent_settled(state: &mut RuntimeState, actions: &mut Vec<PiAction>)
    ensures
        runtime_view(*final(state)) == agent_settled(runtime_view(*old(state))).0,
        actions_view(final(actions)@) == actions_view(old(actions)@) + agent_settled(runtime_view(*old(state))).1,
{
    let ghost start = actions_view(actions@);
    let finalized = finalize_current_assistant(state, ItemStatus::Complete);
    state.snapshot.pending_messages = 0;
    state.snapshot.steering_queue = Vec::new();
    state.snapshot.follow_up_queue = Vec::new();
    state.snapshot.status = AgentStatus::Ready;
    state.snapshot.status_message = "Ready".to_owned();
    send_updated(actions, finalized);
    let ghost mid = actions_view(actions@);
    send(actions, ServerMessage::Status { status: AgentStatus::Ready, message: "Ready".to_owned(), pending_messages: 0 });
    refresh(actions, "get_session_stats");
    refresh(actions, "get_fork_messages");
    proof {
        assert(texts_view(state.snapshot.steering_queue@) =~= Seq::empty());
        assert(texts_view(state.snapshot.follow_up_queue@) =~= Seq::empty());
        assert(runtime_view(*state) =~= agent_settled(runtime_view(*old(state))).0);
        assert(actions_view(actions@) =~= start + agent_settled(runtime_view(*old(state))).1);
    }
}

/// `queue_update`: the steering and follow-up queues as Pi reports them.
pub open spec fn queue_updated(s: RuntimeView, record: Json) -> (RuntimeView, Seq<ActionView>) {
    let steering = queue_of(member(record, "steering"@));
    let follow_up = queue_of(member(record, "followUp"@));
    let pending = if steering.len() + follow_up.len() > usize::MAX {
        usize::MAX
    } else {
        (steering.len() + follow_up.len()) as usize
    };
    (
        RuntimeView {
            snapshot: SnapshotView {
                pending_messages: pending,
                steering_queue: steering,
                follow_up_queue: follow_up,
                ..s.snapshot
            },
            ..s
        },
        seq![
            ActionView::Send(EventView::QueueChanged(steering, follow_up)),
            ActionView::Send(EventView::Status(s.snapshot.status, s.snapshot.status_message, pending)),
        ],
    )
}

fn on_queue_update(state: &mut RuntimeState, actions: &mut Vec<PiAction>, record: &JsonValue)
    ensures
        runtime_view(*final(state)) == queue_updated(runtime_view(*old(state)), json_view(*record)).0,
        actions_view(final(actions)@) == actions_view(old(actions)@) + queue_updated(
            runtime_view(*old(state)),
            json_view(*record),
        ).1,
{
    let ghost start = actions_view(actions@);
    let steering = queue_messages(record.get("steering"));
    let follow_up = queue_messages(record.get("followUp"));
    let pending = if steering.len() > usize::MAX - follow_up.len() {
        usize::MAX
    } else {
        steering.len() + follow_up.len()
    };
    state.snapshot.pending_messages = pending;
    state.snapshot.steering_queue = copy_texts(&steering);
    state.snapshot.follow_up_queue = copy_texts(&follow_up);
    let status = state.snapshot.status;
    let message = state.snapshot.status_message.clone();
    send(actions, ServerMessage::QueueChanged { steering, follow_up });
    send(actions, ServerMessage::Status { status, message, pending_messages: pending });
    proof {
        assert(runtime_view(*state) =~= queue_updated(runtime_view(*old(state)), json_view(*record)).0);
        assert(actions_view(actions@) =~= start + queue_updated(runtime_view(*old(state)), json_view(*record)).1);
    }
}


pub open spec fn member_or_null(j: Json, key: Seq<char>) -> Json {
    match member(j, key) {
        Some(m) => m,
        None => Json::Null,
    }
}

fn get_or_null<'a>(value: &'a JsonValue, key: &str, null: &'a JsonValue) -> (r: &'a JsonValue)
    requires
        json_view(*null) == Json::Null,
    ensures
        json_view(*r) == member_or_null(json_view(*value), key@),
{
    match value.get(key) {
        Some(m) => m,
        None => null,
    }
}

/// `message_start`: an assistant answer begins streaming.
pub open spec fn message_started(s: RuntimeView, record: Json, fresh: Seq<char>) -> (RuntimeView, Seq<ActionView>) {
    let message = member_or_null(record, "message"@);
    if text_member(message, "role"@) != Some("assistant"@) {
        (s, Seq::empty())
    } else {
        let id = fresh_id("assistant"@, fresh);
        let item = assistant_item(message, ItemStatus::Streaming, id);
        (
            RuntimeView {
                accept_initial_history: false,
                current_assistant: Some(id),
                snapshot: SnapshotView { items: pushed(s.snapshot.items, item), ..s.snapshot },
                ..s
            },
            seq![ActionView::Send(EventView::ItemAdded(item))],
        )
    }
}

fn handle_message_start(state: &mut RuntimeState, actions: &mut Vec<PiAction>, record: &JsonValue, fresh: &str)
    ensures
        runtime_view(*final(state)) == message_started(runtime_view(*old(state)), json_view(*record), fresh@).0,
        actions_view(final(actions)@) == actions_view(old(actions)@) + message_started(
            runtime_view(*old(state)),
            json_view(*record),
            fresh@,
        ).1,
{
    let null = JsonValue::Null;
    let message = get_or_null(record, "message", &null);
    if !is_text_of(message, "role", "assistant") {
        proof {
            assert(actions_view(actions@) =~= actions_view(old(actions)@) + Seq::<ActionView>::empty());
            assert(runtime_view(*state) =~= runtime_view(*old(state)));
        }
        return;
    }
    let id = new_id("assistant", fresh);
    let item = assistant_item_from_message(message, ItemStatus::Streaming, id.clone());
    state.accept_initial_history = false;
    state.current_assistant = Some(id);
    let added = item.copy();
    push_item(&mut state.snapshot.items, item);
    let ghost start = actions_view(actions@);
    send(actions, ServerMessage::ItemAdded { item: added });
    proof {
        assert(runtime_view(*state) =~= message_started(runtime_view(*old(state)), json_view(*record), fresh@).0);
        assert(actions_view(actions@) =~= start + message_started(runtime_view(*old(state)), json_view(*record), fresh@).1);
    }
}

/// The state with a streamed assistant item, made when none is current.
pub open spec fn assistant_ensured(s: RuntimeView, fresh: Seq<char>) -> (RuntimeView, Seq<char>, Seq<ActionView>) {
    match s.current_assistant {
        Some(id) => (s, id, Seq::empty()),
        None => {
            let id = fresh_id("assistant"@, fresh);
            let item = ItemView::Assistant {
                id,
                text: Seq::empty(),
                thinking: Seq::empty(),
                status: ItemStatus::Streaming,
                truncated: false,
            };
            (
                RuntimeView {
                    current_assistant: Some(id),
                    accept_initial_history: false,
                    snapshot: SnapshotView { items: pushed(s.snapshot.items, item), ..s.snapshot },
                    ..s
                },
                id,
                seq![ActionView::Send(EventView::ItemAdded(item))],
            )
        },
    }
}

fn ensure_current_assistant(state: &mut RuntimeState, actions: &mut Vec<PiAction>, fresh: &str) -> (r: String)
    ensures
        runtime_view(*final(state)) == assistant_ensured(runtime_view(*old(state)), fresh@).0,
        r@ == assistant_ensured(runtime_view(*old(state)), fresh@).1,
        actions_view(final(actions)@) == actions_view(old(actions)@) + assistant_ensured(
            runtime_view(*old(state)),
            fresh@,
        ).2,
{
    match &state.current_assistant {
        Some(id) => {
            proof {
                assert(actions_view(actions@) =~= actions_view(old(actions)@) + Seq::<ActionView>::empty());
            }
            return id.clone();
        },
        None => {},
    }
    let id = new_id("assistant", fresh);
    let item = ChatItem::Assistant {
        id: id.clone(),
        text: String::new(),
        thinking: String::new(),
        status: ItemStatus::Streaming,
        truncated: false,
    };
    state.current_assistant = Some(id.clone());
    state.accept_initial_history = false;
    let added = item.copy();
    push_item(&mut state.snapshot.items, item);
    let ghost start = actions_view(actions@);
    send(actions, ServerMessage::ItemAdded { item: added });
    proof {
        assert(runtime_view(*state) =~= assistant_ensured(runtime_view(*old(state)), fresh@).0);
        assert(actions_view(actions@) =~= start + assistant_ensured(runtime_view(*old(state)), fresh@).2);
    }
    id
}

/// `message_update`: a piece of answer or reasoning text streams in.
pub open spec fn message_updated(s: RuntimeView, record: Json, fresh: Seq<char>) -> (RuntimeView, Seq<ActionView>) {
    let update = member_or_null(record, "assistantMessageEvent"@);
    let kind = match text_member(update, "type"@) {
        Some(t) => t,
        None => Seq::empty(),
    };
    match text_member(update, "delta"@) {
        None => (s, Seq::empty()),
        Some(delta) => {
            let thinking = kind == "thinking_delta"@;
            if kind != "text_delta"@ && !thinking {
                (s, Seq::empty())
            } else {
                let e = assistant_ensured(s, fresh);
                let items = e.0.snapshot.items;
                let k = item_with_id(items, e.1, 0);
                let next_items = if 0 <= k < items.len() {
                    match items[k] {
                        ItemView::Assistant { id, text, thinking: reasoning, status, truncated } => items.update(
                            k,
                            if thinking {
                                ItemView::Assistant { id, text, thinking: reasoning + delta, status, truncated }
                            } else {
                                ItemView::Assistant { id, text: text + delta, thinking: reasoning, status, truncated }
                            },
                        ),
                        _ => items,
                    }
                } else {
                    items
                };
                (
                    RuntimeView { snapshot: SnapshotView { items: next_items, ..e.0.snapshot }, ..e.0 },
                    e.2.push(ActionView::Send(EventView::ItemDelta(e.1, delta, thinking))),
                )
            }
        },
    }
}

fn append_text(s: &String, delta: &String) -> (r: String)
    ensures
        r@ == s@ + delta@,
{
    let a = chars_of(s.as_str());
    let b = chars_of(delta.as_str());
    string_from_chars(&concat(&a, &b))
}

fn handle_message_update(state: &mut RuntimeState, actions: &mut Vec<PiAction>, record: &JsonValue, fresh: &str)
    ensures
        runtime_view(*final(state)) == message_updated(runtime_view(*old(state)), json_view(*record), fresh@).0,
        actions_view(final(actions)@) == actions_view(old(actions)@) + message_updated(
            runtime_view(*old(state)),
            json_view(*record),
            fresh@,
        ).1,
{
    let null = JsonValue::Null;
    let update = get_or_null(record, "assistantMessageEvent", &null);
    let kind = match string_field(update, "type") {
        Some(t) => t,
        None => String::new(),
    };
    let delta = match string_field(update, "delta") {
        Some(d) => d,
        None => {
            proof {
                assert(actions_view(actions@) =~= actions_view(old(actions)@) + Seq::<ActionView>::empty());
            }
            return;
        },
    };
    let thinking = kind == "thinking_delta".to_owned();
    if !(kind == "text_delta".to_owned()) && !thinking {
        proof {
            assert(actions_view(actions@) =~= actions_view(old(actions)@) + Seq::<ActionView>::empty());
        }
        return;
    }
    let ghost start = actions_view(actions@);
    let item_id = ensure_current_assistant(state, actions, fresh);
    let ghost mid_state = runtime_view(*state);
    let ghost mid_actions = actions_view(actions@);
    let k = find_item(&state.snapshot.items, &item_id);
    proof {
        lemma_item_with_id(items_view(state.snapshot.items@), item_id@, 0);
    }
    if k < state.snapshot.items.len() {
        let updated = match &state.snapshot.items[k] {
            ChatItem::Assistant { id, text, thinking: reasoning, status, truncated } => {
                if thinking {
                    Some(ChatItem::Assistant {
                        id: id.clone(),
                        text: text.clone(),
                        thinking: append_text(reasoning, &delta),
                        status: *status,
                        truncated: *truncated,
                    })
                } else {
                    Some(ChatItem::Assistant {
                        id: id.clone(),
                        text: append_text(text, &delta),
                        thinking: reasoning.clone(),
                        status: *status,
                        truncated: *truncated,
                    })
                }
            },
            _ => None,
        };
        proof {
            assert(items_view(state.snapshot.items@)[k as int] == item_view(state.snapshot.items@[k as int]));
        }
        match updated {
            Some(u) => {
                let ghost before = items_view(state.snapshot.items@);
                let ghost uv = item_view(u);
                state.snapshot.items.set(k, u);
                proof {
                    assert(items_view(state.snapshot.items@) =~= before.update(k as int, uv));
                }
            },
            None => {},
        }
    }
    send(actions, ServerMessage::ItemDelta { item_id, text: delta, thinking });
    proof {
        assert(runtime_view(*state) =~= message_updated(runtime_view(*old(state)), json_view(*record), fresh@).0);
        assert(actions_view(actions@) =~= actions_view(old(actions)@) + message_updated(
            runtime_view(*old(state)),
            json_view(*record),
            fresh@,
        ).1);
    }
}

/// `value`, or `fallback` when there is none.
pub open spec fn or_text(value: Option<Seq<char>>, fallback: Seq<char>) -> Seq<char> {
    match value {
        Some(t) => t,
        None => fallback,
    }
}

/// The items with `item` in place of the first item that has its id, or
/// appended when none has.
pub open spec fn upserted(items: Seq<ItemView>, item: ItemView) -> Seq<ItemView> {
    let k = item_with_id(items, item_id(item), 0);
    if 0 <= k < items.len() {
        items.update(k, item)
    } else {
        pushed(items, item)
    }
}

fn upsert_item(items: &mut Vec<ChatItem>, item: ChatItem)
    ensures
        items_view(final(items)@) == upserted(items_view(old(items)@), item_view(item)),
{
    let k = find_item(items, item.id());
    proof {
        lemma_item_with_id(items_view(items@), item_id(item_view(item)), 0);
    }
    if k < items.len() {
        let ghost before = items_view(items@);
        let ghost iv = item_view(item);
        items.set(k, item);
        proof {
            assert(items_view(items@) =~= before.update(k as int, iv));
        }
    } else {
        push_item(items, item);
    }
}

/// Whether an assistant message carries an error.
pub open spec fn error_present(message: Json) -> bool {
    match member(message, "errorMessage"@) {
        Some(Json::Null) => false,
        Some(_) => true,
        None => false,
    }
}

/// `message_end`: an answer is complete, or an extension's message arrives.
pub open spec fn message_ended(s: RuntimeView, record: Json, fresh: Seq<char>) -> (RuntimeView, Seq<ActionView>) {
    let message = member_or_null(record, "message"@);
    let role = text_member(message, "role"@);
    if role != Some("assistant"@) && role != Some("user"@) && role != Some("toolResult"@) {
        match custom_item(message, fresh) {
            Some(item) => (
                RuntimeView { snapshot: SnapshotView { items: upserted(s.snapshot.items, item), ..s.snapshot }, ..s },
                seq![ActionView::Send(EventView::ItemUpdated(item))],
            ),
            None => (s, Seq::empty()),
        }
    } else if role != Some("assistant"@) {
        (s, Seq::empty())
    } else {
        let id = match s.current_assistant {
            Some(id) => id,
            None => fresh_id("assistant"@, fresh),
        };
        let status = if error_present(message) {
            ItemStatus::Failed
        } else {
            ItemStatus::Complete
        };
        let item = assistant_item(message, status, id);
        (
            RuntimeView {
                current_assistant: None,
                snapshot: SnapshotView { items: upserted(s.snapshot.items, item), ..s.snapshot },
                ..s
            },
            seq![ActionView::Send(EventView::ItemUpdated(item))],
        )
    }
}

fn handle_message_end(state: &mut RuntimeState, actions: &mut Vec<PiAction>, record: &JsonValue, fresh: &str)
    ensures
        runtime_view(*final(state)) == message_ended(runtime_view(*old(state)), json_view(*record), fresh@).0,
        actions_view(final(actions)@) == actions_view(old(actions)@) + message_ended(
            runtime_view(*old(state)),
            json_view(*record),
            fresh@,
        ).1,
{
    let ghost start = actions_view(actions@);
    let null = JsonValue::Null;
    let message = get_or_null(record, "message", &null);
    let is_assistant = is_text_of(message, "role", "assistant");
    let is_user = is_text_of(message, "role", "user");
    let is_result = is_text_of(message, "role", "toolResult");
    if !is_assistant && !is_user && !is_result {
        match custom_item_from_message(message, fresh) {
            Some(item) => {
                let sent = item.copy();
                upsert_item(&mut state.snapshot.items, item);
                send(actions, ServerMessage::ItemUpdated { item: sent });
                proof {
                    assert(runtime_view(*state) =~= message_ended(runtime_view(*old(state)), json_view(*record), fresh@).0);
                    assert(actions_view(actions@) =~= start + message_ended(runtime_view(*old(state)), json_view(*record), fresh@).1);
                }
            },
            None => {
                proof {
                    assert(actions_view(actions@) =~= start + Seq::<ActionView>::empty());
                }
            },
        }
        return;
    }
    if !is_assistant {
        proof {
            assert(actions_view(actions@) =~= start + Seq::<ActionView>::empty());
        }
        return;
    }
    let id = match state.current_assistant.take() {
        Some(id) => id,
        None => new_id("assistant", fresh),
    };
    let failed = match message.get("errorMessage") {
        Some(v) => !v.is_null(),
        None => false,
    };
    let status = if failed {
        ItemStatus::Failed
    } else {
        ItemStatus::Complete
    };
    let item = assistant_item_from_message(message, status, id);
    let sent = item.copy();
    upsert_item(&mut state.snapshot.items, item);
    send(actions, ServerMessage::ItemUpdated { item: sent });
    proof {
        assert(runtime_view(*state) =~= message_ended(runtime_view(*old(state)), json_view(*record), fresh@).0);
        assert(actions_view(actions@) =~= start + message_ended(runtime_view(*old(state)), json_view(*record), fresh@).1);
    }
}

/// `tool_execution_start`: a tool call begins.
pub open spec fn tool_started(s: RuntimeView, record: Json, fresh: Seq<char>) -> (RuntimeView, Seq<ActionView>) {
    let name = or_text(text_member(record, "toolName"@), "tool"@);
    let args = bounded_details(member(record, "args"@));
    let item = ItemView::Tool {
        id: or_text(text_member(record, "toolCallId"@), fresh_id("tool"@, fresh)),
        name,
        summary: tool_summary(name, member(record, "args"@)),
        output: Seq::empty(),
        args: args.0,
        details: None,
        args_truncated: args.1,
        details_truncated: false,
        status: ItemStatus::Running,
    };
    (
        RuntimeView { snapshot: SnapshotView { items: pushed(s.snapshot.items, item), ..s.snapshot }, ..s },
        seq![ActionView::Send(EventView::ItemAdded(item))],
    )
}

fn handle_tool_start(state: &mut RuntimeState, actions: &mut Vec<PiAction>, record: &JsonValue, fresh: &str)
    ensures
        runtime_view(*final(state)) == tool_started(runtime_view(*old(state)), json_view(*record), fresh@).0,
        actions_view(final(actions)@) == actions_view(old(actions)@) + tool_started(
            runtime_view(*old(state)),
            json_view(*record),
            fresh@,
        ).1,
{
    let ghost start = actions_view(actions@);
    let id = match string_field(record, "toolCallId") {
        Some(i) => i,
        None => new_id("tool", fresh),
    };
    let name = text_or(string_field(record, "toolName"), "tool");
    let summary = summarize_tool(name.as_str(), record.get("args"));
    let (args, args_truncated) = bounded_json(record.get("args"));
    let item = ChatItem::Tool {
        id,
        name,
        summary,
        output: String::new(),
        args,
        details: None,
        args_truncated,
        details_truncated: false,
        status: ItemStatus::Running,
    };
    let added = item.copy();
    push_item(&mut state.snapshot.items, item);
    send(actions, ServerMessage::ItemAdded { item: added });
    proof {
        assert(runtime_view(*state) =~= tool_started(runtime_view(*old(state)), json_view(*record), fresh@).0);
        assert(actions_view(actions@) =~= start + tool_started(runtime_view(*old(state)), json_view(*record), fresh@).1);
    }
}

/// The details a tool update carries: those of its result, else its own.
pub open spec fn update_details(record: Json, result: Option<Json>) -> Option<Json> {
    match result {
        Some(r) => match member(r, "details"@) {
            Some(d) => Some(d),
            None => member(record, "details"@),
        },
        None => member(record, "details"@),
    }
}

/// A tool item as an update leaves it, and the items after the update.
pub open spec fn tool_update_applied(
    items: Seq<ItemView>,
    id: Seq<char>,
    name: Seq<char>,
    output: Seq<char>,
    next: (Option<Json>, bool),
    status: ItemStatus,
) -> (ItemView, Seq<ItemView>) {
    let k = item_with_id(items, id, 0);
    let fresh_item = ItemView::Tool {
        id,
        name,
        summary: Seq::empty(),
        output,
        args: None,
        details: next.0,
        args_truncated: false,
        details_truncated: next.1,
        status,
    };
    if 0 <= k < items.len() {
        match items[k] {
            ItemView::Tool { summary, output: old_output, args, details, args_truncated, details_truncated, .. } => {
                let item = ItemView::Tool {
                    id,
                    name,
                    summary,
                    output: if output.len() > 0 {
                        output
                    } else {
                        old_output
                    },
                    args,
                    details: if next.0 is Some {
                        next.0
                    } else {
                        details
                    },
                    args_truncated,
                    details_truncated: if next.0 is Some {
                        next.1
                    } else {
                        details_truncated
                    },
                    status,
                };
                (item, items.update(k, item))
            },
            _ => (fresh_item, items),
        }
    } else {
        (fresh_item, pushed(items, fresh_item))
    }
}

/// `tool_execution_update` (`complete` false) and `tool_execution_end`
/// (`complete` true): output and details of a tool call arrive.
pub open spec fn tool_updated(s: RuntimeView, record: Json, complete: bool) -> (RuntimeView, Seq<ActionView>) {
    match text_member(record, "toolCallId"@) {
        None => (s, Seq::empty()),
        Some(id) => {
            let name = or_text(text_member(record, "toolName"@), "tool"@);
            let result = member(
                record,
                if complete {
                    "result"@
                } else {
                    "partialResult"@
                },
            );
            let output = match result {
                Some(r) => result_text(r),
                None => Seq::empty(),
            };
            let status = if !complete {
                ItemStatus::Running
            } else if flag_member(record, "isError"@) == Some(true) {
                ItemStatus::Failed
            } else {
                ItemStatus::Complete
            };
            let applied = tool_update_applied(
                s.snapshot.items,
                id,
                name,
                output,
                bounded_details(update_details(record, result)),
                status,
            );
            (
                RuntimeView { snapshot: SnapshotView { items: applied.1, ..s.snapshot }, ..s },
                seq![ActionView::Send(EventView::ItemUpdated(applied.0))],
            )
        },
    }
}

fn handle_tool_update(state: &mut RuntimeState, actions: &mut Vec<PiAction>, record: &JsonValue, complete: bool)
    ensures
        runtime_view(*final(state)) == tool_updated(runtime_view(*old(state)), json_view(*record), complete).0,
        actions_view(final(actions)@) == actions_view(old(actions)@) + tool_updated(
            runtime_view(*old(state)),
            json_view(*record),
            complete,
        ).1,
{
    let ghost start = actions_view(actions@);
    let id = match string_field(record, "toolCallId") {
        Some(i) => i,
        None => {
            proof {
                assert(actions_view(actions@) =~= start + Seq::<ActionView>::empty());
            }
            return;
        },
    };
    let name = text_or(string_field(record, "toolName"), "tool");
    let result = if complete {
        record.get("result")
    } else {
        record.get("partialResult")
    };
    let output = match result {
        Some(r) => extract_result_text(r),
        None => String::new(),
    };
    let source = match result {
        Some(r) => match r.get("details") {
            Some(d) => Some(d),
            None => record.get("details"),
        },
        None => record.get("details"),
    };
    let (next_details, next_truncated) = bounded_json(source);
    let status = if !complete {
        ItemStatus::Running
    } else if bool_field(record, "isError") == Some(true) {
        ItemStatus::Failed
    } else {
        ItemStatus::Complete
    };
    let ghost next = (opt_json_view(next_details), next_truncated);
    let ghost applied = tool_update_applied(items_view(state.snapshot.items@), id@, name@, output@, next, status);
    let k = find_item(&state.snapshot.items, &id);
    proof {
        lemma_item_with_id(items_view(state.snapshot.items@), id@, 0);
        if k < state.snapshot.items@.len() {
            assert(items_view(state.snapshot.items@)[k as int] == item_view(state.snapshot.items@[k as int]));
        }
    }
    let found = k < state.snapshot.items.len();
    let updated: Option<ChatItem> = if found {
        match &state.snapshot.items[k] {
            ChatItem::Tool { summary, output: old_output, args, details, args_truncated, details_truncated, .. } => {
                let keep = next_details.is_none();
                Some(
                    ChatItem::Tool {
                        id: id.clone(),
                        name: name.clone(),
                        summary: summary.clone(),
                        output: if output.as_str().is_empty() {
                            old_output.clone()
                        } else {
                            output.clone()
                        },
                        args: copy_json(args),
                        details: if keep {
                            copy_json(details)
                        } else {
                            copy_json(&next_details)
                        },
                        args_truncated: *args_truncated,
                        details_truncated: if keep {
                            *details_truncated
                        } else {
                            next_truncated
                        },
                        status,
                    },
                )
            },
            _ => None,
        }
    } else {
        None
    };
    let item = match updated {
        Some(u) => {
            let sent = u.copy();
            let ghost before = items_view(state.snapshot.items@);
            let ghost uv = item_view(u);
            state.snapshot.items.set(k, u);
            proof {
                assert(items_view(state.snapshot.items@) =~= before.update(k as int, uv));
            }
            sent
        },
        None => {
            let fresh_item = ChatItem::Tool {
                id,
                name,
                summary: String::new(),
                output,
                args: None,
                details: next_details,
                args_truncated: false,
                details_truncated: next_truncated,
                status,
            };
            if found {
                fresh_item
            } else {
                let sent = fresh_item.copy();
                push_item(&mut state.snapshot.items, fresh_item);
                sent
            }
        },
    };
    proof {
        assert(item_view(item) == applied.0);
        assert(items_view(state.snapshot.items@) == applied.1);
    }
    send(actions, ServerMessage::ItemUpdated { item });
    proof {
        assert(runtime_view(*state) =~= tool_updated(runtime_view(*old(state)), json_view(*record), complete).0);
        assert(actions_view(actions@) =~= start + tool_updated(runtime_view(*old(state)), json_view(*record), complete).1);
    }
}

fn count_field(value: &JsonValue, key: &str) -> (r: Option<u64>)
    ensures
        r == count_member(json_view(*value), key@),
{
    match value.get(key) {
        Some(m) => m.as_u64(),
        None => None,
    }
}

fn send_error(actions: &mut Vec<PiAction>, code: AgentErrorCode, message: &str)
    ensures
        actions_view(final(actions)@) == actions_view(old(actions)@).push(ActionView::Send(EventView::Error(code, message@))),
{
    send(actions, ServerMessage::Error { error: AgentError::new(code, message) });
}

/// Whole seconds in `ms` milliseconds, rounded up.
pub open spec fn seconds_up(ms: u64) -> nat {
    ((ms + 999) / 1000) as nat
}

/// The status line while Pi retries a failed request.
pub open spec fn retry_message(record: Json) -> Seq<char> {
    let attempt = match count_member(record, "attempt"@) {
        Some(a) => a,
        None => 1,
    };
    let maximum = match count_member(record, "maxAttempts"@) {
        Some(m) => m,
        None => attempt,
    };
    let delay_ms = match count_member(record, "delayMs"@) {
        Some(d) => d,
        None => 0,
    };
    let delay = if delay_ms >= 1000 {
        " in "@ + decimal(seconds_up(delay_ms)) + "s"@
    } else {
        Seq::empty()
    };
    "Retrying"@ + delay + " · attempt "@ + decimal(attempt as nat) + " of "@ + decimal(maximum as nat)
}

/// The status line while Pi retries, from its `auto_retry_start` event.
pub fn format_retry_message(record: &JsonValue) -> (r: String)
    ensures
        r@ == retry_message(json_view(*record)),
{
    let attempt = match count_field(record, "attempt") {
        Some(a) => a,
        None => 1,
    };
    let maximum = match count_field(record, "maxAttempts") {
        Some(m) => m,
        None => attempt,
    };
    let delay_ms = match count_field(record, "delayMs") {
        Some(d) => d,
        None => 0,
    };
    let mut out = chars_of("Retrying");
    if delay_ms >= 1000 {
        let seconds = delay_ms / 1000 + if delay_ms % 1000 > 0 {
            1
        } else {
            0
        };
        assert(seconds == seconds_up(delay_ms));
        out = concat(&out, &chars_of(" in "));
        out = concat(&out, &format_decimal(seconds));
        out = concat(&out, &chars_of("s"));
    }
    out = concat(&out, &chars_of(" · attempt "));
    out = concat(&out, &format_decimal(attempt));
    out = concat(&out, &chars_of(" of "));
    out = concat(&out, &format_decimal(maximum));
    proof {
        let ghost j = json_view(*record);
        assert(out@ =~= retry_message(j));
    }
    string_from_chars(&out)
}

/// `auto_retry_end`: a client is told when Pi gave up retrying.
pub open spec fn retry_ended(record: Json) -> Seq<ActionView> {
    if flag_member(record, "success"@) == Some(false) {
        seq![
            ActionView::Send(
                EventView::Error(
                    AgentErrorCode::Unavailable,
                    or_text(text_member(record, "finalError"@), "Pi exhausted its automatic retries"@),
                ),
            ),
        ]
    } else {
        Seq::empty()
    }
}

fn on_auto_retry_end(actions: &mut Vec<PiAction>, record: &JsonValue)
    ensures
        actions_view(final(actions)@) == actions_view(old(actions)@) + retry_ended(json_view(*record)),
{
    if bool_field(record, "success") == Some(false) {
        let message = text_or(string_field(record, "finalError"), "Pi exhausted its automatic retries");
        send_error(actions, AgentErrorCode::Unavailable, message.as_str());
    } else {
        proof {
            assert(actions_view(actions@) =~= actions_view(old(actions)@) + Seq::<ActionView>::empty());
        }
    }
}

/// `extension_error`: an extension failed.
pub open spec fn extension_failed(record: Json) -> Seq<ActionView> {
    let message = match text_member(record, "error"@) {
        Some(e) => e,
        None => or_text(text_member(record, "message"@), "A Pi extension failed"@),
    };
    seq![ActionView::Send(EventView::Error(AgentErrorCode::Internal, message))]
}

fn on_extension_error(actions: &mut Vec<PiAction>, record: &JsonValue)
    ensures
        actions_view(final(actions)@) == actions_view(old(actions)@) + extension_failed(json_view(*record)),
{
    let message = match string_field(record, "error") {
        Some(e) => e,
        None => text_or(string_field(record, "message"), "A Pi extension failed"),
    };
    send_error(actions, AgentErrorCode::Internal, message.as_str());
}

/// Most lines an extension widget shows.
pub const MAX_WIDGET_LINES: usize = 20;

/// Most characters of one widget line.
pub const MAX_WIDGET_LINE_CHARS: usize = 500;

/// Most characters of an extension status.
pub const MAX_STATUS_CHARS: usize = 240;

/// Most characters of an extension title.
pub const MAX_TITLE_CHARS: usize = 120;

/// The texts among `items`, in order.
pub open spec fn string_items(items: Seq<Json>) -> Seq<Seq<char>>
    decreases items.len(),
{
    if items.len() == 0 {
        Seq::empty()
    } else {
        let rest = string_items(items.drop_last());
        match items.last() {
            Json::Str(t) => rest.push(t),
            _ => rest,
        }
    }
}

/// The texts of an array member, or none.
pub open spec fn texts_of(value: Option<Json>) -> Seq<Seq<char>> {
    match value {
        Some(Json::Array(items)) => string_items(items),
        _ => Seq::empty(),
    }
}

fn strings_of(value: Option<&JsonValue>) -> (r: Vec<String>)
    ensures
        texts_view(r@) == texts_of(opt_json(value)),
{
    let mut out: Vec<String> = Vec::new();
    match value {
        Some(JsonValue::Array(items)) => {
            proof {
                lemma_json_views(items@);
            }
            let ghost views = json_views(items@);
            let mut k: usize = 0;
            proof {
                assert(views.take(0) =~= Seq::<Json>::empty());
                assert(texts_view(out@) =~= Seq::<Seq<char>>::empty());
            }
            while k < items.len()
                invariant
                    k <= items@.len(),
                    views == json_views(items@),
                    views.len() == items@.len(),
                    forall|i: int| 0 <= i < items@.len() ==> #[trigger] views[i] == json_view(items@[i]),
                    texts_view(out@) == string_items(views.take(k as int)),
                decreases items@.len() - k,
            {
                proof {
                    assert(views.take(k + 1).drop_last() =~= views.take(k as int));
                    assert(views.take(k + 1).last() == views[k as int]);
                }
                match &items[k] {
                    JsonValue::String(t) => {
                        let ghost before = texts_view(out@);
                        out.push(t.clone());
                        proof {
                            assert(texts_view(out@) =~= before.push(t@));
                        }
                    },
                    _ => {},
                }
                k = k + 1;
            }
            proof {
                assert(views.take(items@.len() as int) =~= views);
            }
        },
        _ => {
            proof {
                assert(texts_view(out@) =~= Seq::<Seq<char>>::empty());
            }
        },
    }
    out
}

/// The lines of a widget: its first texts, each cut to the line limit.
pub open spec fn widget_lines(value: Option<Json>) -> Seq<Seq<char>> {
    let all = texts_of(value);
    let kept = if all.len() > MAX_WIDGET_LINES {
        all.take(MAX_WIDGET_LINES as int)
    } else {
        all
    };
    kept.map_values(|l: Seq<char>| truncated(l, MAX_WIDGET_LINE_CHARS as nat))
}

fn lines_of(value: Option<&JsonValue>) -> (r: Vec<String>)
    ensures
        texts_view(r@) == widget_lines(opt_json(value)),
{
    let all = strings_of(value);
    let n = if all.len() > MAX_WIDGET_LINES {
        MAX_WIDGET_LINES
    } else {
        all.len()
    };
    let ghost kept = if texts_view(all@).len() > MAX_WIDGET_LINES {
        texts_view(all@).take(MAX_WIDGET_LINES as int)
    } else {
        texts_view(all@)
    };
    let mut out: Vec<String> = Vec::new();
    let mut k: usize = 0;
    while k < n
        invariant
            k <= n,
            n <= all@.len(),
            kept.len() == n,
            forall|i: int| 0 <= i < n ==> #[trigger] kept[i] == all@[i]@,
            texts_view(out@) == kept.take(k as int).map_values(|l: Seq<char>| truncated(l, MAX_WIDGET_LINE_CHARS as nat)),
        decreases n - k,
    {
        let ghost before = texts_view(out@);
        let line = truncate_chars(all[k].clone(), MAX_WIDGET_LINE_CHARS);
        out.push(line);
        proof {
            assert(texts_view(out@) =~= before.push(truncated(kept[k as int], MAX_WIDGET_LINE_CHARS as nat)));
            assert(kept.take(k + 1).map_values(|l: Seq<char>| truncated(l, MAX_WIDGET_LINE_CHARS as nat)) =~= kept.take(
                k as int,
            ).map_values(|l: Seq<char>| truncated(l, MAX_WIDGET_LINE_CHARS as nat)).push(
                truncated(kept[k as int], MAX_WIDGET_LINE_CHARS as nat),
            ));
        }
        k = k + 1;
    }
    proof {
        assert(kept.take(n as int) =~= kept);
    }
    out
}

/// The statuses without those under `key`.
pub open spec fn without_status(pairs: Seq<(Seq<char>, Seq<char>)>, key: Seq<char>) -> Seq<(Seq<char>, Seq<char>)>
    decreases pairs.len(),
{
    if pairs.len() == 0 {
        Seq::empty()
    } else {
        let rest = without_status(pairs.drop_last(), key);
        if pairs.last().0 == key {
            rest
        } else {
            rest.push(pairs.last())
        }
    }
}

fn remove_status(v: &Vec<(String, String)>, key: &String) -> (r: Vec<(String, String)>)
    ensures
        pairs_view(r@) == without_status(pairs_view(v@), key@),
{
    let ghost pv = pairs_view(v@);
    let mut out: Vec<(String, String)> = Vec::new();
    let mut k: usize = 0;
    proof {
        assert(pv.take(0) =~= Seq::<(Seq<char>, Seq<char>)>::empty());
        assert(pairs_view(out@) =~= Seq::<(Seq<char>, Seq<char>)>::empty());
    }
    while k < v.len()
        invariant
            k <= v@.len(),
            pv == pairs_view(v@),
            pairs_view(out@) == without_status(pv.take(k as int), key@),
        decreases v@.len() - k,
    {
        proof {
            assert(pv.take(k + 1).drop_last() =~= pv.take(k as int));
            assert(pv.take(k + 1).last() == (v@[k as int].0@, v@[k as int].1@));
        }
        if !(v[k].0 == *key) {
            let ghost before = pairs_view(out@);
            out.push((v[k].0.clone(), v[k].1.clone()));
            proof {
                assert(pairs_view(out@) =~= before.push((v@[k as int].0@, v@[k as int].1@)));
            }
        }
        k = k + 1;
    }
    proof {
        assert(pv.take(v@.len() as int) =~= pv);
    }
    out
}

pub open spec fn widgets_view(v: Seq<ExtensionWidget>) -> Seq<WidgetView> {
    v.map_values(|w: ExtensionWidget| widget_view(w))
}

/// The widgets without the one under `key`.
pub open spec fn without_widget(widgets: Seq<WidgetView>, key: Seq<char>) -> Seq<WidgetView>
    decreases widgets.len(),
{
    if widgets.len() == 0 {
        Seq::empty()
    } else {
        let rest = without_widget(widgets.drop_last(), key);
        if widgets.last().key == key {
            rest
        } else {
            rest.push(widgets.last())
        }
    }
}

fn remove_widget(v: &Vec<ExtensionWidget>, key: &String) -> (r: Vec<ExtensionWidget>)
    ensures
        widgets_view(r@) == without_widget(widgets_view(v@), key@),
{
    let ghost wv = widgets_view(v@);
    let mut out: Vec<ExtensionWidget> = Vec::new();
    let mut k: usize = 0;
    proof {
        assert(wv.take(0) =~= Seq::<WidgetView>::empty());
        assert(widgets_view(out@) =~= Seq::<WidgetView>::empty());
    }
    while k < v.len()
        invariant
            k <= v@.len(),
            wv == widgets_view(v@),
            widgets_view(out@) == without_widget(wv.take(k as int), key@),
        decreases v@.len() - k,
    {
        proof {
            assert(wv.take(k + 1).drop_last() =~= wv.take(k as int));
            assert(wv.take(k + 1).last() == widget_view(v@[k as int]));
        }
        if !(v[k].key == *key) {
            let ghost before = widgets_view(out@);
            let w = ExtensionWidget { key: v[k].key.clone(), lines: copy_texts(&v[k].lines), placement: v[k].placement.clone() };
            out.push(w);
            proof {
                assert(widgets_view(out@) =~= before.push(widget_view(v@[k as int])));
            }
        }
        k = k + 1;
    }
    proof {
        assert(wv.take(v@.len() as int) =~= wv);
    }
    out
}

/// What a client is sent when the extension surfaces change.
pub open spec fn surfaces_event(s: SnapshotView) -> ActionView {
    ActionView::Send(EventView::ExtensionSurfaces(s.extension_title, s.extension_statuses, s.extension_widgets))
}

fn send_surfaces(snapshot: &AgentSnapshot, actions: &mut Vec<PiAction>)
    ensures
        actions_view(final(actions)@) == actions_view(old(actions)@).push(surfaces_event(snapshot_view(*snapshot))),
{
    send(
        actions,
        ServerMessage::ExtensionSurfaces {
            title: copy_text(&snapshot.extension_title),
            statuses: copy_pairs(&snapshot.extension_statuses),
            widgets: copy_widgets(&snapshot.extension_widgets),
        },
    );
}

/// The snapshot after `setStatus`: the status under its key replaced, or
/// removed when the new text is empty.
pub open spec fn status_surface_set(s: SnapshotView, record: Json) -> SnapshotView {
    let key = or_text(text_member(record, "statusKey"@), "extension"@);
    let kept = without_status(s.extension_statuses, key);
    let statuses = match text_member(record, "statusText"@) {
        Some(t) => if t.len() > 0 {
            kept.push((key, truncated(t, MAX_STATUS_CHARS as nat)))
        } else {
            kept
        },
        None => kept,
    };
    SnapshotView { extension_statuses: statuses, ..s }
}

fn set_status_surface(snapshot: &mut AgentSnapshot, record: &JsonValue)
    ensures
        snapshot_view(*final(snapshot)) == status_surface_set(snapshot_view(*old(snapshot)), json_view(*record)),
{
    let key = text_or(string_field(record, "statusKey"), "extension");
    let mut statuses = remove_status(&snapshot.extension_statuses, &key);
    match string_field(record, "statusText") {
        Some(text) => {
            if !text.as_str().is_empty() {
                let cut = truncate_chars(text, MAX_STATUS_CHARS);
                let ghost before = pairs_view(statuses@);
                let ghost entry = (key@, cut@);
                statuses.push((key, cut));
                proof {
                    assert(pairs_view(statuses@) =~= before.push(entry));
                }
            }
        },
        None => {},
    }
    snapshot.extension_statuses = statuses;
    proof {
        assert(snapshot_view(*snapshot) =~= status_surface_set(snapshot_view(*old(snapshot)), json_view(*record)));
    }
}

/// The snapshot after `setWidget`: the widget under its key replaced, or
/// removed when it has no lines.
pub open spec fn widget_surface_set(s: SnapshotView, record: Json) -> SnapshotView {
    let key = or_text(text_member(record, "widgetKey"@), "extension"@);
    let kept = without_widget(s.extension_widgets, key);
    let lines = widget_lines(member(record, "widgetLines"@));
    let placement = if text_member(record, "widgetPlacement"@) == Some("belowEditor"@) {
        "belowEditor"@
    } else {
        "aboveEditor"@
    };
    let widgets = if lines.len() > 0 {
        kept.push(WidgetView { key, lines, placement })
    } else {
        kept
    };
    SnapshotView { extension_widgets: widgets, ..s }
}

fn set_widget_surface(snapshot: &mut AgentSnapshot, record: &JsonValue)
    ensures
        snapshot_view(*final(snapshot)) == widget_surface_set(snapshot_view(*old(snapshot)), json_view(*record)),
{
    let key = text_or(string_field(record, "widgetKey"), "extension");
    let mut widgets = remove_widget(&snapshot.extension_widgets, &key);
    let lines = lines_of(record.get("widgetLines"));
    if lines.len() > 0 {
        let placement = if is_text_of(record, "widgetPlacement", "belowEditor") {
            "belowEditor".to_owned()
        } else {
            "aboveEditor".to_owned()
        };
        let widget = ExtensionWidget { key, lines, placement };
        let ghost before = widgets_view(widgets@);
        let ghost wv = widget_view(widget);
        widgets.push(widget);
        proof {
            assert(widgets_view(widgets@) =~= before.push(wv));
        }
    }
    snapshot.extension_widgets = widgets;
    proof {
        assert(snapshot_view(*snapshot) =~= widget_surface_set(snapshot_view(*old(snapshot)), json_view(*record)));
    }
}

/// The snapshot after `setTitle`: the title cut to its limit, or none when
/// it is empty.
pub open spec fn title_surface_set(s: SnapshotView, record: Json) -> SnapshotView {
    let title = match text_member(record, "title"@) {
        Some(t) => if t.len() > 0 {
            Some(truncated(t, MAX_TITLE_CHARS as nat))
        } else {
            None
        },
        None => None,
    };
    SnapshotView { extension_title: title, ..s }
}

fn set_title_surface(snapshot: &mut AgentSnapshot, record: &JsonValue)
    ensures
        snapshot_view(*final(snapshot)) == title_surface_set(snapshot_view(*old(snapshot)), json_view(*record)),
{
    let title = match string_field(record, "title") {
        Some(t) => if t.as_str().is_empty() {
            None
        } else {
            Some(truncate_chars(t, MAX_TITLE_CHARS))
        },
        None => None,
    };
    snapshot.extension_title = title;
    proof {
        assert(snapshot_view(*snapshot) =~= title_surface_set(snapshot_view(*old(snapshot)), json_view(*record)));
    }
}

/// The dialog an extension asks for.
pub open spec fn request_of(record: Json, method: Seq<char>, fresh: Seq<char>) -> RequestView {
    RequestView {
        id: or_text(text_member(record, "id"@), fresh_id("extension"@, fresh)),
        method,
        title: or_text(text_member(record, "title"@), "Pi"@),
        message: or_text(text_member(record, "message"@), Seq::empty()),
        options: texts_of(member(record, "options"@)),
        placeholder: text_member(record, "placeholder"@),
        prefill: text_member(record, "prefill"@),
    }
}

/// A dialog request: refused past the limit, queued otherwise, and shown at
/// once when it is the only one.
pub open spec fn dialog_requested(s: RuntimeView, request: RequestView) -> (RuntimeView, Seq<ActionView>) {
    if s.extension_requests.len() >= MAX_EXTENSION_REQUESTS {
        (
            s,
            seq![
                ActionView::Send(
                    EventView::Error(
                        AgentErrorCode::Unavailable,
                        "A Pi extension opened too many dialogs; the newest request was discarded"@,
                    ),
                ),
            ],
        )
    } else if s.extension_requests.len() == 0 {
        (
            RuntimeView {
                extension_requests: s.extension_requests.push(request),
                snapshot: SnapshotView { pending_extension_request: Some(request), ..s.snapshot },
                ..s
            },
            seq![ActionView::Send(EventView::ExtensionUiRequest(request))],
        )
    } else {
        (RuntimeView { extension_requests: s.extension_requests.push(request), ..s }, Seq::empty())
    }
}

fn request_dialog(state: &mut RuntimeState, actions: &mut Vec<PiAction>, request: ExtensionUiRequest)
    ensures
        runtime_view(*final(state)) == dialog_requested(runtime_view(*old(state)), request_view(request)).0,
        actions_view(final(actions)@) == actions_view(old(actions)@) + dialog_requested(
            runtime_view(*old(state)),
            request_view(request),
        ).1,
{
    let ghost start = actions_view(actions@);
    let ghost rv = request_view(request);
    if state.extension_requests.len() >= MAX_EXTENSION_REQUESTS {
        send_error(
            actions,
            AgentErrorCode::Unavailable,
            "A Pi extension opened too many dialogs; the newest request was discarded",
        );
        proof {
            assert(actions_view(actions@) =~= start + dialog_requested(runtime_view(*old(state)), rv).1);
        }
        return;
    }
    let display = state.extension_requests.len() == 0;
    let ghost before = state.extension_requests@.map_values(|r: ExtensionUiRequest| request_view(r));
    state.extension_requests.push(copy_request(&request));
    proof {
        assert(state.extension_requests@.map_values(|r: ExtensionUiRequest| request_view(r)) =~= before.push(rv));
    }
    if display {
        state.snapshot.pending_extension_request = Some(copy_request(&request));
        send(actions, ServerMessage::ExtensionUiRequest { request });
        proof {
            assert(runtime_view(*state) =~= dialog_requested(runtime_view(*old(state)), rv).0);
            assert(actions_view(actions@) =~= start + dialog_requested(runtime_view(*old(state)), rv).1);
        }
    } else {
        proof {
            assert(runtime_view(*state) =~= dialog_requested(runtime_view(*old(state)), rv).0);
            assert(actions_view(actions@) =~= start + Seq::<ActionView>::empty());
        }
    }
}

/// `extension_ui_request`: an extension sets the composer text, posts a
/// notice, changes its status, widget or title, or asks for a dialog.
pub open spec fn extension_requested(s: RuntimeView, record: Json, fresh: Seq<char>) -> (RuntimeView, Seq<ActionView>) {
    let method = or_text(text_member(record, "method"@), "notify"@);
    if method == "set_editor_text"@ {
        (
            s,
            match text_member(record, "text"@) {
                Some(t) => seq![ActionView::Send(EventView::ComposerText(t))],
                None => Seq::empty(),
            },
        )
    } else if method == "notify"@ {
        let text = or_text(text_member(record, "message"@), Seq::empty());
        if text.len() == 0 {
            (s, Seq::empty())
        } else {
            let status = if text_member(record, "notifyType"@) == Some("error"@) {
                ItemStatus::Failed
            } else {
                ItemStatus::Complete
            };
            let item = ItemView::Notice { id: fresh_id("notice"@, fresh), text, status };
            (
                RuntimeView { snapshot: SnapshotView { items: pushed(s.snapshot.items, item), ..s.snapshot }, ..s },
                seq![ActionView::Send(EventView::ItemAdded(item))],
            )
        }
    } else if method == "setStatus"@ || method == "setWidget"@ || method == "setTitle"@ {
        let snapshot = if method == "setStatus"@ {
            status_surface_set(s.snapshot, record)
        } else if method == "setWidget"@ {
            widget_surface_set(s.snapshot, record)
        } else {
            title_surface_set(s.snapshot, record)
        };
        (RuntimeView { snapshot, ..s }, seq![surfaces_event(snapshot)])
    } else if method == "select"@ || method == "confirm"@ || method == "input"@ || method == "editor"@ {
        dialog_requested(s, request_of(record, method, fresh))
    } else {
        (s, Seq::empty())
    }
}

fn handle_extension_request(state: &mut RuntimeState, actions: &mut Vec<PiAction>, record: &JsonValue, fresh: &str)
    ensures
        runtime_view(*final(state)) == extension_requested(runtime_view(*old(state)), json_view(*record), fresh@).0,
        actions_view(final(actions)@) == actions_view(old(actions)@) + extension_requested(
            runtime_view(*old(state)),
            json_view(*record),
            fresh@,
        ).1,
{
    let ghost start = actions_view(actions@);
    let method = text_or(string_field(record, "method"), "notify");
    if method == "set_editor_text".to_owned() {
        match string_field(record, "text") {
            Some(text) => send(actions, ServerMessage::ComposerText { text }),
            None => {
                proof {
                    assert(actions_view(actions@) =~= start + Seq::<ActionView>::empty());
                }
            },
        }
        return;
    }
    if method == "notify".to_owned() {
        let text = match string_field(record, "message") {
            Some(t) => t,
            None => String::new(),
        };
        if text.as_str().is_empty() {
            proof {
                assert(actions_view(actions@) =~= start + Seq::<ActionView>::empty());
            }
            return;
        }
        let status = if is_text_of(record, "notifyType", "error") {
            ItemStatus::Failed
        } else {
            ItemStatus::Complete
        };
        let item = ChatItem::Notice { id: new_id("notice", fresh), text, status };
        let added = item.copy();
        push_item(&mut state.snapshot.items, item);
        send(actions, ServerMessage::ItemAdded { item: added });
        proof {
            assert(runtime_view(*state) =~= extension_requested(runtime_view(*old(state)), json_view(*record), fresh@).0);
            assert(actions_view(actions@) =~= start + extension_requested(runtime_view(*old(state)), json_view(*record), fresh@).1);
        }
        return;
    }
    let is_status = method == "setStatus".to_owned();
    let is_widget = method == "setWidget".to_owned();
    let is_title = method == "setTitle".to_owned();
    if is_status || is_widget || is_title {
        if is_status {
            set_status_surface(&mut state.snapshot, record);
        } else if is_widget {
            set_widget_surface(&mut state.snapshot, record);
        } else {
            set_title_surface(&mut state.snapshot, record);
        }
        send_surfaces(&state.snapshot, actions);
        proof {
            assert(runtime_view(*state) =~= extension_requested(runtime_view(*old(state)), json_view(*record), fresh@).0);
            assert(actions_view(actions@) =~= start + extension_requested(runtime_view(*old(state)), json_view(*record), fresh@).1);
        }
        return;
    }
    let dialog = method == "select".to_owned() || method == "confirm".to_owned() || method == "input".to_owned()
        || method == "editor".to_owned();
    if !dialog {
        proof {
            assert(actions_view(actions@) =~= start + Seq::<ActionView>::empty());
        }
        return;
    }
    let request = ExtensionUiRequest {
        id: match string_field(record, "id") {
            Some(i) => i,
            None => new_id("extension", fresh),
        },
        method,
        title: text_or(string_field(record, "title"), "Pi"),
        message: match string_field(record, "message") {
            Some(m) => m,
            None => String::new(),
        },
        options: strings_of(record.get("options")),
        placeholder: string_field(record, "placeholder"),
        prefill: string_field(record, "prefill"),
    };
    proof {
        assert(request_view(request) == request_of(json_view(*record), method@, fresh@));
    }
    request_dialog(state, actions, request);
}

/// The models Pi lists, skipping those it describes incompletely.
pub open spec fn models_in(items: Seq<Json>) -> Seq<ModelView>
    decreases items.len(),
{
    if items.len() == 0 {
        Seq::empty()
    } else {
        let rest = models_in(items.drop_last());
        match model_of(items.last()) {
            Some(m) => rest.push(m),
            None => rest,
        }
    }
}

/// The commands Pi lists, skipping those without a name.
pub open spec fn commands_in(items: Seq<Json>) -> Seq<CommandView>
    decreases items.len(),
{
    if items.len() == 0 {
        Seq::empty()
    } else {
        let rest = commands_in(items.drop_last());
        match command_of(items.last()) {
            Some(c) => rest.push(c),
            None => rest,
        }
    }
}

pub open spec fn models_view(v: Seq<ModelSummary>) -> Seq<ModelView> {
    v.map_values(|m: ModelSummary| model_view(m))
}

pub open spec fn commands_view(v: Seq<PiCommand>) -> Seq<CommandView> {
    v.map_values(|c: PiCommand| command_view(c))
}

/// The array in member `key`, or nothing.
pub open spec fn array_member(j: Json, key: Seq<char>) -> Seq<Json> {
    match member(j, key) {
        Some(Json::Array(items)) => items,
        _ => Seq::empty(),
    }
}

fn parse_models(data: &JsonValue) -> (r: Vec<ModelSummary>)
    ensures
        models_view(r@) == models_in(array_member(json_view(*data), "models"@)),
{
    let mut out: Vec<ModelSummary> = Vec::new();
    match data.get("models") {
        Some(JsonValue::Array(items)) => {
            proof {
                lemma_json_views(items@);
            }
            let ghost views = json_views(items@);
            let mut k: usize = 0;
            proof {
                assert(views.take(0) =~= Seq::<Json>::empty());
                assert(models_view(out@) =~= Seq::<ModelView>::empty());
            }
            while k < items.len()
                invariant
                    k <= items@.len(),
                    views == json_views(items@),
                    views.len() == items@.len(),
                    forall|i: int| 0 <= i < items@.len() ==> #[trigger] views[i] == json_view(items@[i]),
                    models_view(out@) == models_in(views.take(k as int)),
                decreases items@.len() - k,
            {
                proof {
                    assert(views.take(k + 1).drop_last() =~= views.take(k as int));
                    assert(views.take(k + 1).last() == views[k as int]);
                }
                match parse_model(&items[k]) {
                    Some(m) => {
                        let ghost before = models_view(out@);
                        let ghost mv = model_view(m);
                        out.push(m);
                        proof {
                            assert(models_view(out@) =~= before.push(mv));
                        }
                    },
                    None => {},
                }
                k = k + 1;
            }
            proof {
                assert(views.take(items@.len() as int) =~= views);
            }
        },
        _ => {
            proof {
                assert(models_view(out@) =~= Seq::<ModelView>::empty());
            }
        },
    }
    out
}

fn parse_commands(data: &JsonValue) -> (r: Vec<PiCommand>)
    ensures
        commands_view(r@) == commands_in(array_member(json_view(*data), "commands"@)),
{
    let mut out: Vec<PiCommand> = Vec::new();
    match data.get("commands") {
        Some(JsonValue::Array(items)) => {
            proof {
                lemma_json_views(items@);
            }
            let ghost views = json_views(items@);
            let mut k: usize = 0;
            proof {
                assert(views.take(0) =~= Seq::<Json>::empty());
                assert(commands_view(out@) =~= Seq::<CommandView>::empty());
            }
            while k < items.len()
                invariant
                    k <= items@.len(),
                    views == json_views(items@),
                    views.len() == items@.len(),
                    forall|i: int| 0 <= i < items@.len() ==> #[trigger] views[i] == json_view(items@[i]),
                    commands_view(out@) == commands_in(views.take(k as int)),
                decreases items@.len() - k,
            {
                proof {
                    assert(views.take(k + 1).drop_last() =~= views.take(k as int));
                    assert(views.take(k + 1).last() == views[k as int]);
                }
                match parse_command(&items[k]) {
                    Some(c) => {
                        let ghost before = commands_view(out@);
                        let ghost cv = command_view(c);
                        out.push(c);
                        proof {
                            assert(commands_view(out@) =~= before.push(cv));
                        }
                    },
                    None => {},
                }
                k = k + 1;
            }
            proof {
                assert(views.take(items@.len() as int) =~= views);
            }
        },
        _ => {
            proof {
                assert(commands_view(out@) =~= Seq::<CommandView>::empty());
            }
        },
    }
    out
}

/// The fork points Pi lists: entry id and text, skipping entries without
/// an id.
pub open spec fn fork_pairs(items: Seq<Json>) -> Seq<(Seq<char>, Seq<char>)>
    decreases items.len(),
{
    if items.len() == 0 {
        Seq::empty()
    } else {
        let rest = fork_pairs(items.drop_last());
        match text_member(items.last(), "entryId"@) {
            Some(e) => rest.push((e, or_text(text_member(items.last(), "text"@), Seq::empty()))),
            None => rest,
        }
    }
}

fn parse_fork_points(data: &JsonValue) -> (r: Vec<(String, String)>)
    ensures
        pairs_view(r@) == fork_pairs(array_member(json_view(*data), "messages"@)),
{
    let mut out: Vec<(String, String)> = Vec::new();
    match data.get("messages") {
        Some(JsonValue::Array(items)) => {
            proof {
                lemma_json_views(items@);
            }
            let ghost views = json_views(items@);
            let mut k: usize = 0;
            proof {
                assert(views.take(0) =~= Seq::<Json>::empty());
                assert(pairs_view(out@) =~= Seq::<(Seq<char>, Seq<char>)>::empty());
            }
            while k < items.len()
                invariant
                    k <= items@.len(),
                    views == json_views(items@),
                    views.len() == items@.len(),
                    forall|i: int| 0 <= i < items@.len() ==> #[trigger] views[i] == json_view(items@[i]),
                    pairs_view(out@) == fork_pairs(views.take(k as int)),
                decreases items@.len() - k,
            {
                proof {
                    assert(views.take(k + 1).drop_last() =~= views.take(k as int));
                    assert(views.take(k + 1).last() == views[k as int]);
                }
                match string_field(&items[k], "entryId") {
                    Some(entry) => {
                        let text = match string_field(&items[k], "text") {
                            Some(t) => t,
                            None => String::new(),
                        };
                        let ghost before = pairs_view(out@);
                        let ghost pv = (entry@, text@);
                        out.push((entry, text));
                        proof {
                            assert(pairs_view(out@) =~= before.push(pv));
                        }
                    },
                    None => {},
                }
                k = k + 1;
            }
            proof {
                assert(views.take(items@.len() as int) =~= views);
            }
        },
        _ => {
            proof {
                assert(pairs_view(out@) =~= Seq::<(Seq<char>, Seq<char>)>::empty());
            }
        },
    }
    out
}

fn send_snapshot(snapshot: &AgentSnapshot, actions: &mut Vec<PiAction>)
    ensures
        actions_view(final(actions)@) == actions_view(old(actions)@).push(
            ActionView::Send(EventView::Snapshot(snapshot_view(*snapshot))),
        ),
{
    send(actions, ServerMessage::Snapshot { snapshot: snapshot.copy() });
}

/// `get_messages`: the session's history, taken while the host still
/// accepts it.
pub open spec fn history_loaded(s: RuntimeView, data: Json) -> (RuntimeView, Seq<ActionView>) {
    match member(data, "messages"@) {
        Some(Json::Array(messages)) => if !s.accept_initial_history {
            (s, Seq::empty())
        } else {
            let items = fork_ids_from(history_from(messages, 0, Seq::empty()), s.fork_messages, 0, 0);
            let snapshot = SnapshotView { items, ..s.snapshot };
            (
                RuntimeView { snapshot, current_assistant: None, accept_initial_history: false, ..s },
                seq![ActionView::Send(EventView::Snapshot(snapshot))],
            )
        },
        _ => (s, Seq::empty()),
    }
}

fn handle_messages_response(state: &mut RuntimeState, actions: &mut Vec<PiAction>, data: &JsonValue)
    ensures
        runtime_view(*final(state)) == history_loaded(runtime_view(*old(state)), json_view(*data)).0,
        actions_view(final(actions)@) == actions_view(old(actions)@) + history_loaded(
            runtime_view(*old(state)),
            json_view(*data),
        ).1,
{
    let ghost start = actions_view(actions@);
    let messages = match data.get("messages") {
        Some(JsonValue::Array(messages)) => messages,
        _ => {
            proof {
                assert(actions_view(actions@) =~= start + Seq::<ActionView>::empty());
            }
            return;
        },
    };
    if !state.accept_initial_history {
        proof {
            assert(actions_view(actions@) =~= start + Seq::<ActionView>::empty());
        }
        return;
    }
    let mut items = map_history(messages);
    apply_fork_message_ids(&mut items, &state.fork_messages);
    state.snapshot.items = items;
    state.current_assistant = None;
    state.accept_initial_history = false;
    send_snapshot(&state.snapshot, actions);
    proof {
        assert(runtime_view(*state) =~= history_loaded(runtime_view(*old(state)), json_view(*data)).0);
        assert(actions_view(actions@) =~= start + history_loaded(runtime_view(*old(state)), json_view(*data)).1);
    }
}

/// `get_fork_messages`: the entries a conversation can be forked from.
pub open spec fn fork_points_loaded(s: RuntimeView, data: Json) -> (RuntimeView, Seq<ActionView>) {
    let pairs = fork_pairs(array_member(data, "messages"@));
    let snapshot = SnapshotView {
        fork_points: pairs,
        items: fork_ids_from(s.snapshot.items, pairs, 0, 0),
        ..s.snapshot
    };
    (RuntimeView { fork_messages: pairs, snapshot, ..s }, seq![ActionView::Send(EventView::Snapshot(snapshot))])
}

fn handle_fork_messages_response(state: &mut RuntimeState, actions: &mut Vec<PiAction>, data: &JsonValue)
    ensures
        runtime_view(*final(state)) == fork_points_loaded(runtime_view(*old(state)), json_view(*data)).0,
        actions_view(final(actions)@) == actions_view(old(actions)@) + fork_points_loaded(
            runtime_view(*old(state)),
            json_view(*data),
        ).1,
{
    let ghost start = actions_view(actions@);
    let pairs = parse_fork_points(data);
    state.snapshot.fork_points = copy_pairs(&pairs);
    apply_fork_message_ids(&mut state.snapshot.items, &pairs);
    state.fork_messages = pairs;
    send_snapshot(&state.snapshot, actions);
    proof {
        assert(runtime_view(*state) =~= fork_points_loaded(runtime_view(*old(state)), json_view(*data)).0);
        assert(actions_view(actions@) =~= start + fork_points_loaded(runtime_view(*old(state)), json_view(*data)).1);
    }
}

/// A reply of Pi to a command: what the host keeps of it and what a client
/// is sent.
pub open spec fn response_handled(s: RuntimeView, response: Json) -> (RuntimeView, Seq<ActionView>) {
    if flag_member(response, "success"@) == Some(false) {
        (
            s,
            seq![
                ActionView::Send(
                    EventView::Error(
                        AgentErrorCode::InvalidRequest,
                        or_text(text_member(response, "error"@), "Pi rejected a request"@),
                    ),
                ),
            ],
        )
    } else {
        command_handled(
            s,
            or_text(text_member(response, "command"@), Seq::empty()),
            member_or_null(response, "data"@),
        )
    }
}

/// `get_state`: the session's identity, model and activity.
pub open spec fn state_loaded(s: RuntimeView, data: Json) -> (RuntimeView, Seq<ActionView>) {
    let snapshot = session_state_applied(s.snapshot, data);
    (
        RuntimeView { session_file: text_member(data, "sessionFile"@), snapshot, ..s },
        seq![
            ActionView::Send(EventView::SessionChanged(snapshot.session_id, snapshot.session_name)),
            ActionView::Send(EventView::ModelChanged(snapshot.model, snapshot.thinking_level)),
            ActionView::Send(EventView::Status(snapshot.status, snapshot.status_message, snapshot.pending_messages)),
        ],
    )
}

/// `fork`: the forked message goes back into the composer, unless the
/// fork was cancelled.
pub open spec fn fork_replied(data: Json) -> Seq<ActionView> {
    if flag_member(data, "cancelled"@) != Some(true) {
        match text_member(data, "text"@) {
            Some(t) => seq![ActionView::Send(EventView::ComposerText(t))],
            None => Seq::empty(),
        }
    } else {
        Seq::empty()
    }
}

/// `export_html`: the exported file is fetched, or the client is told why
/// it cannot be.
pub open spec fn export_replied(data: Json) -> Seq<ActionView> {
    match text_member(data, "path"@) {
        Some(path) => seq![ActionView::Export(path)],
        None => seq![
            ActionView::Send(
                EventView::Error(
                    AgentErrorCode::Unavailable,
                    "Pi completed the export without returning a download path"@,
                ),
            ),
        ],
    }
}

/// `get_available_models`: the models a session can switch to.
pub open spec fn models_loaded(s: RuntimeView, data: Json) -> (RuntimeView, Seq<ActionView>) {
    let models = models_in(array_member(data, "models"@));
    (
        RuntimeView { snapshot: SnapshotView { models, ..s.snapshot }, ..s },
        seq![ActionView::Send(EventView::Models(models))],
    )
}

/// `get_commands`: the commands Pi offers.
pub open spec fn commands_loaded(s: RuntimeView, data: Json) -> (RuntimeView, Seq<ActionView>) {
    let commands = commands_in(array_member(data, "commands"@));
    (
        RuntimeView { snapshot: SnapshotView { commands, ..s.snapshot }, ..s },
        seq![ActionView::Send(EventView::Commands(commands))],
    )
}

/// `get_session_stats`: the session's figures.
pub open spec fn stats_loaded(s: RuntimeView, data: Json) -> (RuntimeView, Seq<ActionView>) {
    let stats = session_stats_of(data);
    (
        RuntimeView { snapshot: SnapshotView { session_stats: Some(stats), ..s.snapshot }, ..s },
        seq![ActionView::Send(EventView::SessionStats(stats))],
    )
}

/// `set_model`: the model now in use.
pub open spec fn model_set(s: RuntimeView, data: Json) -> (RuntimeView, Seq<ActionView>) {
    let model = model_of(data);
    (
        RuntimeView { snapshot: SnapshotView { model, ..s.snapshot }, ..s },
        seq![ActionView::Send(EventView::ModelChanged(model, s.snapshot.thinking_level))],
    )
}

/// A successful reply to `command` carrying `data`.
pub open spec fn command_handled(s: RuntimeView, command: Seq<char>, data: Json) -> (RuntimeView, Seq<ActionView>) {
    if command == "get_state"@ {
        state_loaded(s, data)
    } else if command == "get_messages"@ {
        history_loaded(s, data)
    } else if command == "get_fork_messages"@ {
        fork_points_loaded(s, data)
    } else if command == "fork"@ {
        (s, fork_replied(data))
    } else if command == "export_html"@ {
        (s, export_replied(data))
    } else if command == "get_available_models"@ {
        models_loaded(s, data)
    } else if command == "get_commands"@ {
        commands_loaded(s, data)
    } else if command == "get_session_stats"@ {
        stats_loaded(s, data)
    } else if command == "set_model"@ {
        model_set(s, data)
    } else if command == "new_session"@ {
        (s, seq![ActionView::Send(EventView::Snapshot(s.snapshot))])
    } else {
        (s, Seq::empty())
    }
}

fn on_state_response(state: &mut RuntimeState, actions: &mut Vec<PiAction>, data: &JsonValue)
    ensures
        runtime_view(*final(state)) == state_loaded(runtime_view(*old(state)), json_view(*data)).0,
        actions_view(final(actions)@) == actions_view(old(actions)@) + state_loaded(
            runtime_view(*old(state)),
            json_view(*data),
        ).1,
{
    let ghost start = actions_view(actions@);
    state.session_file = string_field(data, "sessionFile");
    apply_session_state(&mut state.snapshot, data);
    send(
        actions,
        ServerMessage::SessionChanged {
            session_id: copy_text(&state.snapshot.session_id),
            session_name: copy_text(&state.snapshot.session_name),
        },
    );
    send(
        actions,
        ServerMessage::ModelChanged {
            model: copy_opt_model(&state.snapshot.model),
            thinking_level: state.snapshot.thinking_level,
        },
    );
    send(
        actions,
        ServerMessage::Status {
            status: state.snapshot.status,
            message: state.snapshot.status_message.clone(),
            pending_messages: state.snapshot.pending_messages,
        },
    );
    proof {
        assert(runtime_view(*state) =~= state_loaded(runtime_view(*old(state)), json_view(*data)).0);
        assert(actions_view(actions@) =~= start + state_loaded(runtime_view(*old(state)), json_view(*data)).1);
    }
}

fn on_fork_response(actions: &mut Vec<PiAction>, data: &JsonValue)
    ensures
        actions_view(final(actions)@) == actions_view(old(actions)@) + fork_replied(json_view(*data)),
{
    if bool_field(data, "cancelled") != Some(true) {
        match string_field(data, "text") {
            Some(text) => {
                send(actions, ServerMessage::ComposerText { text });
                return;
            },
            None => {},
        }
    }
    proof {
        assert(actions_view(actions@) =~= actions_view(old(actions)@) + Seq::<ActionView>::empty());
    }
}

fn on_export_response(actions: &mut Vec<PiAction>, data: &JsonValue)
    ensures
        actions_view(final(actions)@) == actions_view(old(actions)@) + export_replied(json_view(*data)),
{
    match string_field(data, "path") {
        Some(path) => {
            let ghost before = actions_view(actions@);
            let ghost p = path@;
            actions.push(PiAction::Export(path));
            proof {
                assert(actions_view(actions@) =~= before.push(ActionView::Export(p)));
            }
        },
        None => send_error(
            actions,
            AgentErrorCode::Unavailable,
            "Pi completed the export without returning a download path",
        ),
    }
}

fn on_models_response(state: &mut RuntimeState, actions: &mut Vec<PiAction>, data: &JsonValue)
    ensures
        runtime_view(*final(state)) == models_loaded(runtime_view(*old(state)), json_view(*data)).0,
        actions_view(final(actions)@) == actions_view(old(actions)@) + models_loaded(
            runtime_view(*old(state)),
            json_view(*data),
        ).1,
{
    let ghost start = actions_view(actions@);
    let models = parse_models(data);
    state.snapshot.models = copy_models(&models);
    send(actions, ServerMessage::Models { models });
    proof {
        assert(runtime_view(*state) =~= models_loaded(runtime_view(*old(state)), json_view(*data)).0);
        assert(actions_view(actions@) =~= start + models_loaded(runtime_view(*old(state)), json_view(*data)).1);
    }
}

fn on_commands_response(state: &mut RuntimeState, actions: &mut Vec<PiAction>, data: &JsonValue)
    ensures
        runtime_view(*final(state)) == commands_loaded(runtime_view(*old(state)), json_view(*data)).0,
        actions_view(final(actions)@) == actions_view(old(actions)@) + commands_loaded(
            runtime_view(*old(state)),
            json_view(*data),
        ).1,
{
    let ghost start = actions_view(actions@);
    let commands = parse_commands(data);
    state.snapshot.commands = copy_commands(&commands);
    send(actions, ServerMessage::Commands { commands });
    proof {
        assert(runtime_view(*state) =~= commands_loaded(runtime_view(*old(state)), json_view(*data)).0);
        assert(actions_view(actions@) =~= start + commands_loaded(runtime_view(*old(state)), json_view(*data)).1);
    }
}

fn on_stats_response(state: &mut RuntimeState, actions: &mut Vec<PiAction>, data: &JsonValue)
    ensures
        runtime_view(*final(state)) == stats_loaded(runtime_view(*old(state)), json_view(*data)).0,
        actions_view(final(actions)@) == actions_view(old(actions)@) + stats_loaded(
            runtime_view(*old(state)),
            json_view(*data),
        ).1,
{
    let ghost start = actions_view(actions@);
    let stats = parse_session_stats(data);
    state.snapshot.session_stats = Some(stats);
    send(actions, ServerMessage::SessionStats { stats });
    proof {
        assert(runtime_view(*state) =~= stats_loaded(runtime_view(*old(state)), json_view(*data)).0);
        assert(actions_view(actions@) =~= start + stats_loaded(runtime_view(*old(state)), json_view(*data)).1);
    }
}

fn on_model_response(state: &mut RuntimeState, actions: &mut Vec<PiAction>, data: &JsonValue)
    ensures
        runtime_view(*final(state)) == model_set(runtime_view(*old(state)), json_view(*data)).0,
        actions_view(final(actions)@) == actions_view(old(actions)@) + model_set(
            runtime_view(*old(state)),
            json_view(*data),
        ).1,
{
    let ghost start = actions_view(actions@);
    let model = parse_model(data);
    state.snapshot.model = copy_opt_model(&model);
    let thinking_level = state.snapshot.thinking_level;
    send(actions, ServerMessage::ModelChanged { model, thinking_level });
    proof {
        assert(runtime_view(*state) =~= model_set(runtime_view(*old(state)), json_view(*data)).0);
        assert(actions_view(actions@) =~= start + model_set(runtime_view(*old(state)), json_view(*data)).1);
    }
}

/// Reads Pi's reply to a command (`handle_pi_response`): the host's state
/// moves on and the actions say what to send and fetch.
pub fn handle_pi_response(state: &mut RuntimeState, response: &JsonValue) -> (actions: Vec<PiAction>)
    ensures
        runtime_view(*final(state)) == response_handled(runtime_view(*old(state)), json_view(*response)).0,
        actions_view(actions@) == response_handled(runtime_view(*old(state)), json_view(*response)).1,
{
    let mut actions: Vec<PiAction> = Vec::new();
    proof {
        assert(actions_view(actions@) =~= Seq::<ActionView>::empty());
    }
    if bool_field(response, "success") == Some(false) {
        let message = text_or(string_field(response, "error"), "Pi rejected a request");
        send_error(&mut actions, AgentErrorCode::InvalidRequest, message.as_str());
        proof {
            assert(actions_view(actions@) =~= response_handled(runtime_view(*old(state)), json_view(*response)).1);
        }
        return actions;
    }
    let command = match string_field(response, "command") {
        Some(c) => c,
        None => String::new(),
    };
    let null = JsonValue::Null;
    let data = get_or_null(response, "data", &null);
    let ghost empty = actions_view(actions@);
    if command == "get_state".to_owned() {
        on_state_response(state, &mut actions, data);
    } else if command == "get_messages".to_owned() {
        handle_messages_response(state, &mut actions, data);
    } else if command == "get_fork_messages".to_owned() {
        handle_fork_messages_response(state, &mut actions, data);
    } else if command == "fork".to_owned() {
        on_fork_response(&mut actions, data);
    } else if command == "export_html".to_owned() {
        on_export_response(&mut actions, data);
    } else if command == "get_available_models".to_owned() {
        on_models_response(state, &mut actions, data);
    } else if command == "get_commands".to_owned() {
        on_commands_response(state, &mut actions, data);
    } else if command == "get_session_stats".to_owned() {
        on_stats_response(state, &mut actions, data);
    } else if command == "set_model".to_owned() {
        on_model_response(state, &mut actions, data);
    } else if command == "new_session".to_owned() {
        send_snapshot(&state.snapshot, &mut actions);
    }
    proof {
        assert(actions_view(actions@) =~= empty + actions_view(actions@));
        assert(empty + response_handled(runtime_view(*old(state)), json_view(*response)).1
            =~= response_handled(runtime_view(*old(state)), json_view(*response)).1);
    }
    actions
}

/// A record of Pi's event stream: how the host's state moves on and what
/// it does. `fresh` makes the ids of items Pi gave none.
pub open spec fn record_handled(s: RuntimeView, record: Json, fresh: Seq<char>) -> (RuntimeView, Seq<ActionView>) {
    match text_member(record, "type"@) {
        None => (s, Seq::empty()),
        Some(kind) => if kind == "response"@ {
            response_handled(s, record)
        } else if kind == "agent_start"@ || kind == "turn_start"@ {
            status_set(s, AgentStatus::Working, "Pi is working…"@)
        } else if kind == "agent_end"@ {
            agent_ended(s)
        } else if kind == "agent_settled"@ {
            agent_settled(s)
        } else if kind == "queue_update"@ {
            queue_updated(s, record)
        } else if kind == "message_start"@ {
            message_started(s, record, fresh)
        } else if kind == "message_update"@ {
            message_updated(s, record, fresh)
        } else if kind == "message_end"@ {
            message_ended(s, record, fresh)
        } else if kind == "tool_execution_start"@ {
            tool_started(s, record, fresh)
        } else if kind == "tool_execution_update"@ {
            tool_updated(s, record, false)
        } else if kind == "tool_execution_end"@ {
            tool_updated(s, record, true)
        } else if kind == "compaction_start"@ {
            status_set(s, AgentStatus::Compacting, "Pi is compacting the conversation…"@)
        } else if kind == "compaction_end"@ {
            status_set(s, AgentStatus::Working, "Compaction complete"@)
        } else if kind == "auto_retry_start"@ {
            status_set(s, AgentStatus::Working, retry_message(record))
        } else if kind == "auto_retry_end"@ {
            (s, retry_ended(record))
        } else if kind == "extension_ui_request"@ {
            extension_requested(s, record, fresh)
        } else if kind == "extension_error"@ {
            (s, extension_failed(record))
        } else {
            (s, Seq::empty())
        },
    }
}

/// Reads one record of Pi's event stream (`handle_pi_record`): the host's
/// state moves on and the actions say what to send and fetch. Items Pi
/// gave no id get one made from `fresh`.
pub fn handle_pi_record(state: &mut RuntimeState, record: &JsonValue, fresh: &str) -> (actions: Vec<PiAction>)
    ensures
        runtime_view(*final(state)) == record_handled(runtime_view(*old(state)), json_view(*record), fresh@).0,
        actions_view(actions@) == record_handled(runtime_view(*old(state)), json_view(*record), fresh@).1,
{
    let kind = match string_field(record, "type") {
        Some(k) => k,
        None => {
            let actions: Vec<PiAction> = Vec::new();
            proof {
                assert(actions_view(actions@) =~= Seq::<ActionView>::empty());
            }
            return actions;
        },
    };
    if kind == "response".to_owned() {
        return handle_pi_response(state, record);
    }
    let mut actions: Vec<PiAction> = Vec::new();
    let ghost empty = actions_view(actions@);
    proof {
        assert(empty =~= Seq::<ActionView>::empty());
    }
    if kind == "agent_start".to_owned() || kind == "turn_start".to_owned() {
        set_status(state, &mut actions, AgentStatus::Working, "Pi is working…");
    } else if kind == "agent_end".to_owned() {
        on_agent_end(state, &mut actions);
    } else if kind == "agent_settled".to_owned() {
        on_agent_settled(state, &mut actions);
    } else if kind == "queue_update".to_owned() {
        on_queue_update(state, &mut actions, record);
    } else if kind == "message_start".to_owned() {
        handle_message_start(state, &mut actions, record, fresh);
    } else if kind == "message_update".to_owned() {
        handle_message_update(state, &mut actions, record, fresh);
    } else if kind == "message_end".to_owned() {
        handle_message_end(state, &mut actions, record, fresh);
    } else if kind == "tool_execution_start".to_owned() {
        handle_tool_start(state, &mut actions, record, fresh);
    } else if kind == "tool_execution_update".to_owned() {
        handle_tool_update(state, &mut actions, record, false);
    } else if kind == "tool_execution_end".to_owned() {
        handle_tool_update(state, &mut actions, record, true);
    } else if kind == "compaction_start".to_owned() {
        set_status(state, &mut actions, AgentStatus::Compacting, "Pi is compacting the conversation…");
    } else if kind == "compaction_end".to_owned() {
        set_status(state, &mut actions, AgentStatus::Working, "Compaction complete");
    } else if kind == "auto_retry_start".to_owned() {
        let message = format_retry_message(record);
        set_status(state, &mut actions, AgentStatus::Working, message.as_str());
    } else if kind == "auto_retry_end".to_owned() {
        on_auto_retry_end(&mut actions, record);
    } else if kind == "extension_ui_request".to_owned() {
        handle_extension_request(state, &mut actions, record, fresh);
    } else if kind == "extension_error".to_owned() {
        on_extension_error(&mut actions, record);
    }
    proof {
        assert(empty + actions_view(actions@) =~= actions_view(actions@));
        assert(empty + record_handled(runtime_view(*old(state)), json_view(*record), fresh@).1
            =~= record_handled(runtime_view(*old(state)), json_view(*record), fresh@).1);
    }
    actions
}

/// Reads one record of Pi's event stream as `handle_pi_record` does, with
/// ids for new items made from a random UUID.
pub fn receive_pi_record(state: &mut RuntimeState, record: &JsonValue) -> (actions: Vec<PiAction>)
    ensures
        exists|fresh: Seq<char>|
            runtime_view(*final(state)) == record_handled(runtime_view(*old(state)), json_view(*record), fresh).0
                && actions_view(actions@) == record_handled(runtime_view(*old(state)), json_view(*record), fresh).1,
{
    let token = random_uuid();
    handle_pi_record(state, record, token.as_str())
}

/// The dialog on show is the oldest one waiting, and none is on show when
/// none waits.
pub open spec fn shows_oldest_dialog(s: RuntimeView) -> bool {
    s.snapshot.pending_extension_request == if s.extension_requests.len() > 0 {
        Some(s.extension_requests[0])
    } else {
        None::<RequestView>
    }
}

/// No record of Pi's event stream lets the extension dialogs waiting exceed
/// their limit.
pub proof fn dialogs_stay_bounded(s: RuntimeView, record: Json, fresh: Seq<char>)
    requires
        requests_bounded(s),
    ensures
        requests_bounded(record_handled(s, record, fresh).0),
{
}

/// Whatever Pi sends, the dialog on show stays the oldest one waiting.
pub proof fn dialog_on_show_is_the_oldest(s: RuntimeView, record: Json, fresh: Seq<char>)
    requires
        shows_oldest_dialog(s),
    ensures
        shows_oldest_dialog(record_handled(s, record, fresh).0),
{
}

/// Only `agent_settled` (or Pi's reply reporting its state) marks a busy
/// session ready.
pub proof fn only_settling_makes_ready(s: RuntimeView, record: Json, fresh: Seq<char>)
    requires
        s.snapshot.status != AgentStatus::Ready,
        text_member(record, "type"@) != Some("agent_settled"@),
        text_member(record, "type"@) != Some("response"@),
    ensures
        record_handled(s, record, fresh).0.snapshot.status != AgentStatus::Ready,
{
}

/// After `agent_settled` the session is ready with nothing queued, and the
/// client is told so.
pub proof fn settling_empties_the_queues(s: RuntimeView, record: Json, fresh: Seq<char>)
    requires
        text_member(record, "type"@) == Some("agent_settled"@),
    ensures
        record_handled(s, record, fresh).0.snapshot.status == AgentStatus::Ready,
        record_handled(s, record, fresh).0.snapshot.pending_messages == 0,
        record_handled(s, record, fresh).0.snapshot.steering_queue.len() == 0,
        record_handled(s, record, fresh).0.snapshot.follow_up_queue.len() == 0,
        record_handled(s, record, fresh).1.contains(
            ActionView::Send(EventView::Status(AgentStatus::Ready, "Ready"@, 0)),
        ),
{
    reveal_strlit("agent_settled");
    reveal_strlit("response");
    reveal_strlit("agent_start");
    reveal_strlit("turn_start");
    reveal_strlit("agent_end");
    let kind = text_member(record, "type"@)->Some_0;
    assert(kind.len() == 13);
    assert(kind != "response"@ && kind != "agent_start"@ && kind != "turn_start"@ && kind != "agent_end"@);
    assert(record_handled(s, record, fresh) == agent_settled(s));
    let f = assistant_finalized(s, ItemStatus::Complete);
    let actions = record_handled(s, record, fresh).1;
    let k = updated_event(f.1).len() as int;
    assert(actions[k] == ActionView::Send(EventView::Status(AgentStatus::Ready, "Ready"@, 0)));
}
} // verus!
