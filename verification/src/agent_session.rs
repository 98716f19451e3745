//! What the host does with a client's action on a running Pi session: the
//! commands Pi is sent, the messages the client gets back, and how the
//! session's state moves on.
use vstd::prelude::*;
use crate::agent::{
    effective_level, thinking_level_name, validation_error, AgentError, AgentErrorCode, ClientMessage, ImageAttachment,
    ModelSummary, PromptDelivery, ThinkingLevel,
};
use crate::agent_mapping::{fresh_id, new_id, random_uuid};
use crate::agent_protocol::{requests_bounded, runtime_view, shows_oldest_dialog, RuntimeState, RuntimeView};
use crate::agent_state::{
    copy_image, copy_model, copy_opt_model, copy_request, event_view, image_view, item_view, model_view,
    opt_model_view, push_item, pushed, request_view, ChatItem, EventView, ItemView, ModelView, RequestView,
    ServerMessage, SnapshotView,
};
use crate::app_shell::opt_view;
use crate::json::{field_views, json_view, json_views, lemma_json_views, member, Json, JsonValue};
use crate::text::{chars_of, concat, string_from_chars, trim, trimmed};

verus! {

/// `{"type": kind}`.
pub open spec fn command_json(kind: Seq<char>) -> Json {
    Json::Object(seq![("type"@, Json::Str(kind))])
}

fn push_field(fields: &mut Vec<(String, JsonValue)>, key: &str, value: JsonValue)
    ensures
        field_views(final(fields)@) == field_views(old(fields)@).push((key@, json_view(value))),
{
    fields.push((key.to_owned(), value));
    proof {
        assert(fields@.drop_last() =~= old(fields)@);
    }
}

fn text_value(s: &str) -> (r: JsonValue)
    ensures
        json_view(r) == Json::Str(s@),
{
    JsonValue::String(s.to_owned())
}

/// A command of the given type with no other member.
pub fn typed_command(kind: &str) -> (r: JsonValue)
    ensures
        json_view(r) == command_json(kind@),
{
    let mut fields: Vec<(String, JsonValue)> = Vec::new();
    proof {
        assert(field_views(fields@) =~= Seq::<(Seq<char>, Json)>::empty());
    }
    push_field(&mut fields, "type", text_value(kind));
    proof {
        assert(field_views(fields@) =~= seq![("type"@, Json::Str(kind@))]);
    }
    JsonValue::Object(fields)
}

/// An image as Pi takes it in a prompt.
pub open spec fn image_json(image: ImageAttachment) -> Json {
    Json::Object(
        seq![
            ("type"@, Json::Str("image"@)),
            ("data"@, Json::Str(image.data@)),
            ("mimeType"@, Json::Str(image.mime_type@)),
        ],
    )
}

/// An image as Pi takes it in a prompt (`pi_image`).
pub fn pi_image(image: &ImageAttachment) -> (r: JsonValue)
    ensures
        json_view(r) == image_json(*image),
{
    let mut fields: Vec<(String, JsonValue)> = Vec::new();
    proof {
        assert(field_views(fields@) =~= Seq::<(Seq<char>, Json)>::empty());
    }
    push_field(&mut fields, "type", text_value("image"));
    push_field(&mut fields, "data", text_value(image.data.as_str()));
    push_field(&mut fields, "mimeType", text_value(image.mime_type.as_str()));
    proof {
        assert(field_views(fields@) =~= seq![
            ("type"@, Json::Str("image"@)),
            ("data"@, Json::Str(image.data@)),
            ("mimeType"@, Json::Str(image.mime_type@)),
        ]);
    }
    JsonValue::Object(fields)
}

pub open spec fn images_json(images: Seq<ImageAttachment>) -> Json {
    Json::Array(images.map_values(|i: ImageAttachment| image_json(i)))
}

fn pi_images(images: &Vec<ImageAttachment>) -> (r: JsonValue)
    ensures
        json_view(r) == images_json(images@),
{
    let mut out: Vec<JsonValue> = Vec::new();
    let mut k: usize = 0;
    while k < images.len()
        invariant
            k <= images@.len(),
            out@.len() == k,
            forall|i: int| 0 <= i < k ==> #[trigger] json_view(out@[i]) == image_json(images@[i]),
        decreases images@.len() - k,
    {
        out.push(pi_image(&images[k]));
        k = k + 1;
    }
    proof {
        lemma_json_views(out@);
        assert(json_views(out@) =~= images@.map_values(|i: ImageAttachment| image_json(i)));
    }
    JsonValue::Array(out)
}

/// The command type for each way of delivering a prompt.
pub open spec fn delivery_kind(delivery: PromptDelivery) -> Seq<char> {
    match delivery {
        PromptDelivery::Prompt => "prompt"@,
        PromptDelivery::Steer => "steer"@,
        PromptDelivery::FollowUp => "follow_up"@,
    }
}

/// The command that hands a prompt to Pi.
pub open spec fn prompt_json(delivery: PromptDelivery, text: Seq<char>, images: Seq<ImageAttachment>) -> Json {
    Json::Object(
        seq![
            ("type"@, Json::Str(delivery_kind(delivery))),
            ("message"@, Json::Str(text)),
            ("images"@, images_json(images)),
        ],
    )
}

fn prompt_command(delivery: PromptDelivery, text: &str, images: &Vec<ImageAttachment>) -> (r: JsonValue)
    ensures
        json_view(r) == prompt_json(delivery, text@, images@),
{
    let kind = match delivery {
        PromptDelivery::Prompt => "prompt",
        PromptDelivery::Steer => "steer",
        PromptDelivery::FollowUp => "follow_up",
    };
    let mut fields: Vec<(String, JsonValue)> = Vec::new();
    proof {
        assert(field_views(fields@) =~= Seq::<(Seq<char>, Json)>::empty());
    }
    push_field(&mut fields, "type", text_value(kind));
    push_field(&mut fields, "message", text_value(text));
    push_field(&mut fields, "images", pi_images(images));
    proof {
        assert(field_views(fields@) =~= seq![
            ("type"@, Json::Str(delivery_kind(delivery))),
            ("message"@, Json::Str(text@)),
            ("images"@, images_json(images@)),
        ]);
    }
    JsonValue::Object(fields)
}

/// `{"type": kind, key: value}` with a text value.
pub open spec fn keyed_json(kind: Seq<char>, key: Seq<char>, value: Seq<char>) -> Json {
    Json::Object(seq![("type"@, Json::Str(kind)), (key, Json::Str(value))])
}

pub(crate) fn keyed_command(kind: &str, key: &str, value: &str) -> (r: JsonValue)
    ensures
        json_view(r) == keyed_json(kind@, key@, value@),
{
    let mut fields: Vec<(String, JsonValue)> = Vec::new();
    proof {
        assert(field_views(fields@) =~= Seq::<(Seq<char>, Json)>::empty());
    }
    push_field(&mut fields, "type", text_value(kind));
    push_field(&mut fields, key, text_value(value));
    proof {
        assert(field_views(fields@) =~= seq![("type"@, Json::Str(kind@)), (key@, Json::Str(value@))]);
    }
    JsonValue::Object(fields)
}

/// The command that compacts the conversation, with the instructions when
/// any remain after trimming.
pub open spec fn compaction_json(instructions: Option<Seq<char>>) -> Json {
    match instructions {
        Some(i) if trim(i).len() > 0 => keyed_json("compact"@, "customInstructions"@, trim(i)),
        _ => command_json("compact"@),
    }
}

fn compaction_command(instructions: &Option<String>) -> (r: JsonValue)
    ensures
        json_view(r) == compaction_json(opt_view(*instructions)),
{
    match instructions {
        Some(i) => {
            let t = trimmed(&chars_of(i.as_str()));
            if t.len() > 0 {
                let text = string_from_chars(&t);
                keyed_command("compact", "customInstructions", text.as_str())
            } else {
                typed_command("compact")
            }
        },
        None => typed_command("compact"),
    }
}

/// The command that selects a model.
pub open spec fn model_json(provider: Seq<char>, model_id: Seq<char>) -> Json {
    Json::Object(
        seq![("type"@, Json::Str("set_model"@)), ("provider"@, Json::Str(provider)), ("modelId"@, Json::Str(model_id))],
    )
}

fn model_command(provider: &str, model_id: &str) -> (r: JsonValue)
    ensures
        json_view(r) == model_json(provider@, model_id@),
{
    let mut fields: Vec<(String, JsonValue)> = Vec::new();
    proof {
        assert(field_views(fields@) =~= Seq::<(Seq<char>, Json)>::empty());
    }
    push_field(&mut fields, "type", text_value("set_model"));
    push_field(&mut fields, "provider", text_value(provider));
    push_field(&mut fields, "modelId", text_value(model_id));
    proof {
        assert(field_views(fields@) =~= seq![
            ("type"@, Json::Str("set_model"@)),
            ("provider"@, Json::Str(provider@)),
            ("modelId"@, Json::Str(model_id@)),
        ]);
    }
    JsonValue::Object(fields)
}

/// The answer to an extension's dialog: cancelled, a value, or a
/// confirmation, in that order of precedence.
pub open spec fn ui_response_json(
    request_id: Seq<char>,
    value: Option<Seq<char>>,
    confirmed: Option<bool>,
    cancelled: bool,
) -> Json {
    let base = seq![("type"@, Json::Str("extension_ui_response"@)), ("id"@, Json::Str(request_id))];
    Json::Object(
        if cancelled {
            base.push(("cancelled"@, Json::Bool(true)))
        } else {
            match value {
                Some(v) => base.push(("value"@, Json::Str(v))),
                None => match confirmed {
                    Some(c) => base.push(("confirmed"@, Json::Bool(c))),
                    None => base,
                },
            }
        },
    )
}

fn ui_response_command(request_id: &str, value: &Option<String>, confirmed: Option<bool>, cancelled: bool) -> (r: JsonValue)
    ensures
        json_view(r) == ui_response_json(request_id@, opt_view(*value), confirmed, cancelled),
{
    let mut fields: Vec<(String, JsonValue)> = Vec::new();
    proof {
        assert(field_views(fields@) =~= Seq::<(Seq<char>, Json)>::empty());
    }
    push_field(&mut fields, "type", text_value("extension_ui_response"));
    push_field(&mut fields, "id", text_value(request_id));
    let ghost base = field_views(fields@);
    proof {
        assert(base =~= seq![("type"@, Json::Str("extension_ui_response"@)), ("id"@, Json::Str(request_id@))]);
    }
    if cancelled {
        push_field(&mut fields, "cancelled", JsonValue::Bool(true));
    } else {
        match value {
            Some(v) => push_field(&mut fields, "value", text_value(v.as_str())),
            None => match confirmed {
                Some(c) => push_field(&mut fields, "confirmed", JsonValue::Bool(c)),
                None => {},
            },
        }
    }
    JsonValue::Object(fields)
}

/// `{"id": id, "type": kind}`.
pub open spec fn identified_json(id: Seq<char>, kind: Seq<char>) -> Json {
    Json::Object(seq![("id"@, Json::Str(id)), ("type"@, Json::Str(kind))])
}

fn identified_command(id: &str, kind: &str) -> (r: JsonValue)
    ensures
        json_view(r) == identified_json(id@, kind@),
{
    let mut fields: Vec<(String, JsonValue)> = Vec::new();
    proof {
        assert(field_views(fields@) =~= Seq::<(Seq<char>, Json)>::empty());
    }
    push_field(&mut fields, "id", text_value(id));
    push_field(&mut fields, "type", text_value(kind));
    proof {
        assert(field_views(fields@) =~= seq![("id"@, Json::Str(id@)), ("type"@, Json::Str(kind@))]);
    }
    JsonValue::Object(fields)
}

/// The command Pi is sent to refresh `kind` after an answer settles.
pub fn refresh_command(kind: &str, fresh: &str) -> (r: JsonValue)
    ensures
        json_view(r) == identified_json(fresh_id("syntaxis-refresh"@, fresh@), kind@),
{
    let id = new_id("syntaxis-refresh", fresh);
    identified_command(id.as_str(), kind)
}

/// A command with an `id`: its own, or `request-fresh` when it has none.
pub open spec fn with_id(command: Json, fresh: Seq<char>) -> Json {
    match command {
        Json::Object(fields) => if member(command, "id"@) is None {
            Json::Object(fields.push(("id"@, Json::Str(fresh_id("request"@, fresh)))))
        } else {
            command
        },
        _ => command,
    }
}

/// Gives a command its request id before it is sent to Pi (`send`).
pub fn with_request_id(command: JsonValue, fresh: &str) -> (r: JsonValue)
    ensures
        json_view(r) == with_id(json_view(command), fresh@),
{
    let missing = command.get("id").is_none();
    match command {
        JsonValue::Object(fields) => {
            if missing {
                let mut fields = fields;
                let id = new_id("request", fresh);
                push_field(&mut fields, "id", JsonValue::String(id));
                JsonValue::Object(fields)
            } else {
                JsonValue::Object(fields)
            }
        },
        other => other,
    }
}


/// The error a command to Pi ends with when Pi's input has closed.
pub fn pi_gone_error() -> (r: AgentError)
    ensures
        r.code == AgentErrorCode::Unavailable,
        r.message@ == "The Pi process is not running"@,
{
    AgentError::new(AgentErrorCode::Unavailable, "The Pi process is not running")
}

/// One thing the host does for a client's action, in order.
#[derive(Debug)]
pub enum SessionStep {
    /// Send this command to Pi and wait until it is taken; when Pi is gone,
    /// stop with `pi_gone_error`.
    Command(JsonValue),
    /// Queue this command to Pi when there is room, without waiting.
    TryCommand(JsonValue),
    /// Send this message to the client.
    Emit(ServerMessage),
    /// Ask Pi to export the session to a file of this name in the
    /// temporary directory (`export_command`).
    Export(String),
    /// Take this model as the session's and tell the client
    /// (`choose_model`).
    ChooseModel(Option<ModelSummary>),
}

pub ghost enum StepView {
    Command(Json),
    TryCommand(Json),
    Emit(EventView),
    Export(Seq<char>),
    ChooseModel(Option<ModelView>),
}

pub open spec fn step_view(step: SessionStep) -> StepView {
    match step {
        SessionStep::Command(c) => StepView::Command(json_view(c)),
        SessionStep::TryCommand(c) => StepView::TryCommand(json_view(c)),
        SessionStep::Emit(m) => StepView::Emit(event_view(m)),
        SessionStep::Export(name) => StepView::Export(name@),
        SessionStep::ChooseModel(m) => StepView::ChooseModel(opt_model_view(m)),
    }
}

pub open spec fn steps_view(steps: Seq<SessionStep>) -> Seq<StepView> {
    steps.map_values(|s: SessionStep| step_view(s))
}

fn add_step(steps: &mut Vec<SessionStep>, step: SessionStep)
    ensures
        steps_view(final(steps)@) == steps_view(old(steps)@).push(step_view(step)),
{
    let ghost before = steps_view(steps@);
    let ghost sv = step_view(step);
    steps.push(step);
    proof {
        assert(steps_view(steps@) =~= before.push(sv));
    }
}

/// After a fork or a clone, everything about the session is read again.
pub open spec fn reload_steps() -> Seq<StepView> {
    seq![
        StepView::Command(command_json("get_state"@)),
        StepView::Command(command_json("get_messages"@)),
        StepView::Command(command_json("get_fork_messages"@)),
        StepView::Command(command_json("get_session_stats"@)),
    ]
}

fn add_reload(steps: &mut Vec<SessionStep>)
    ensures
        steps_view(final(steps)@) == steps_view(old(steps)@) + reload_steps(),
{
    let ghost start = steps_view(steps@);
    add_step(steps, SessionStep::Command(typed_command("get_state")));
    add_step(steps, SessionStep::Command(typed_command("get_messages")));
    add_step(steps, SessionStep::Command(typed_command("get_fork_messages")));
    add_step(steps, SessionStep::Command(typed_command("get_session_stats")));
    proof {
        assert(steps_view(steps@) =~= start + reload_steps());
    }
}

/// On `Refresh`, everything Pi knows of the session is asked for again,
/// each under a fixed request id.
pub open spec fn refresh_steps() -> Seq<StepView> {
    seq![
        StepView::TryCommand(identified_json("syntaxis-state"@, "get_state"@)),
        StepView::TryCommand(identified_json("syntaxis-messages"@, "get_messages"@)),
        StepView::TryCommand(identified_json("syntaxis-fork-messages"@, "get_fork_messages"@)),
        StepView::TryCommand(identified_json("syntaxis-models"@, "get_available_models"@)),
        StepView::TryCommand(identified_json("syntaxis-commands"@, "get_commands"@)),
        StepView::TryCommand(identified_json("syntaxis-stats"@, "get_session_stats"@)),
    ]
}

fn add_refresh(steps: &mut Vec<SessionStep>)
    ensures
        steps_view(final(steps)@) == steps_view(old(steps)@) + refresh_steps(),
{
    let ghost start = steps_view(steps@);
    add_step(steps, SessionStep::TryCommand(identified_command("syntaxis-state", "get_state")));
    add_step(steps, SessionStep::TryCommand(identified_command("syntaxis-messages", "get_messages")));
    add_step(steps, SessionStep::TryCommand(identified_command("syntaxis-fork-messages", "get_fork_messages")));
    add_step(steps, SessionStep::TryCommand(identified_command("syntaxis-models", "get_available_models")));
    add_step(steps, SessionStep::TryCommand(identified_command("syntaxis-commands", "get_commands")));
    add_step(steps, SessionStep::TryCommand(identified_command("syntaxis-stats", "get_session_stats")));
    proof {
        assert(steps_view(steps@) =~= start + refresh_steps());
    }
}

/// The first model at or after `k` with this provider and id, or the
/// length.
pub open spec fn model_index(models: Seq<ModelView>, provider: Seq<char>, model_id: Seq<char>, k: int) -> int
    decreases models.len() - k,
{
    if k < 0 || k >= models.len() {
        models.len() as int
    } else if models[k].provider == provider && models[k].id == model_id {
        k
    } else {
        model_index(models, provider, model_id, k + 1)
    }
}

/// The model a `SetModel` names, when the session lists it.
pub open spec fn model_named(models: Seq<ModelView>, provider: Seq<char>, model_id: Seq<char>) -> Option<ModelView> {
    let k = model_index(models, provider, model_id, 0);
    if 0 <= k < models.len() {
        Some(models[k])
    } else {
        None
    }
}

fn find_model(models: &Vec<ModelSummary>, provider: &String, model_id: &String) -> (r: Option<ModelSummary>)
    ensures
        opt_model_view(r) == model_named(models@.map_values(|m: ModelSummary| model_view(m)), provider@, model_id@),
{
    let ghost mv = models@.map_values(|m: ModelSummary| model_view(m));
    let mut k: usize = 0;
    while k < models.len()
        invariant
            k <= models@.len(),
            mv == models@.map_values(|m: ModelSummary| model_view(m)),
            model_index(mv, provider@, model_id@, 0) == model_index(mv, provider@, model_id@, k as int),
        decreases models@.len() - k,
    {
        proof {
            assert(mv[k as int] == model_view(models@[k as int]));
        }
        if models[k].provider == *provider && models[k].id == *model_id {
            return Some(copy_model(&models[k]));
        }
        k = k + 1;
    }
    None
}

/// The first dialog at or after `k` with this id, or the length.
pub open spec fn request_index(requests: Seq<RequestView>, id: Seq<char>, k: int) -> int
    decreases requests.len() - k,
{
    if k < 0 || k >= requests.len() {
        requests.len() as int
    } else if requests[k].id == id {
        k
    } else {
        request_index(requests, id, k + 1)
    }
}

/// The export file's name.
pub open spec fn export_file_name(fresh: Seq<char>) -> Seq<char> {
    "syntaxis-session-"@ + fresh + ".html"@
}

/// The prompt's text as it is shown and sent: trimmed.
pub open spec fn user_item(text: Seq<char>, images: Seq<ImageAttachment>, fresh: Seq<char>) -> ItemView {
    ItemView::User {
        id: fresh_id("user"@, fresh),
        entry_id: None,
        text: trim(text),
        images: images.map_values(|i: ImageAttachment| image_view(i)),
    }
}

/// A prompt: shown at once as the user's item, counted as pending, and
/// handed to Pi.
pub open spec fn prompted(
    s: RuntimeView,
    text: Seq<char>,
    delivery: PromptDelivery,
    images: Seq<ImageAttachment>,
    fresh: Seq<char>,
) -> (RuntimeView, Seq<StepView>) {
    let item = user_item(text, images, fresh);
    let pending = s.snapshot.pending_messages;
    (
        RuntimeView {
            accept_initial_history: false,
            snapshot: SnapshotView {
                items: pushed(s.snapshot.items, item),
                pending_messages: if pending == usize::MAX {
                    pending
                } else {
                    (pending + 1) as usize
                },
                ..s.snapshot
            },
            ..s
        },
        seq![StepView::Emit(EventView::ItemAdded(item)), StepView::Command(prompt_json(delivery, trim(text), images))],
    )
}

/// The answer to a dialog: the dialog leaves the queue, the next one is
/// shown, and Pi gets the answer.
pub open spec fn dialog_answered(
    s: RuntimeView,
    request_id: Seq<char>,
    value: Option<Seq<char>>,
    confirmed: Option<bool>,
    cancelled: bool,
) -> (RuntimeView, Seq<StepView>) {
    let requests = s.extension_requests;
    let k = request_index(requests, request_id, 0);
    let rest = if 0 <= k < requests.len() {
        requests.remove(k)
    } else {
        requests
    };
    let next = if rest.len() > 0 {
        Some(rest[0])
    } else {
        None
    };
    (
        RuntimeView {
            extension_requests: rest,
            snapshot: SnapshotView { pending_extension_request: next, ..s.snapshot },
            ..s
        },
        seq![StepView::Command(ui_response_json(request_id, value, confirmed, cancelled))] + match next {
            Some(r) => seq![StepView::Emit(EventView::ExtensionUiRequest(r))],
            None => Seq::empty(),
        },
    )
}

/// A client's action on a running session: refused with an error, or the session's next state and the steps that
/// carry the action out. `fresh` makes new ids and the export file's name.
pub open spec fn client_handled(s: RuntimeView, m: ClientMessage, fresh: Seq<char>) -> Result<
    (RuntimeView, Seq<StepView>),
    (AgentErrorCode, Seq<char>),
> {
    match validation_error(m) {
        Some(e) => Err(e),
        None => match m {
            ClientMessage::Hello { .. } => Err(
                (AgentErrorCode::InvalidProtocol, "The AI protocol handshake was already completed"@),
            ),
            ClientMessage::Prompt { text, delivery, images } => Ok(prompted(s, text@, delivery, images@, fresh)),
            ClientMessage::ForkMessage { entry_id } => Ok(
                (
                    RuntimeView { accept_initial_history: true, ..s },
                    seq![StepView::Command(keyed_json("fork"@, "entryId"@, entry_id@))] + reload_steps(),
                ),
            ),
            ClientMessage::Compact { custom_instructions } => Ok(
                (s, seq![StepView::Command(compaction_json(opt_view(custom_instructions)))]),
            ),
            ClientMessage::CloneSession => Ok((s, seq![StepView::Command(command_json("clone"@))] + reload_steps())),
            ClientMessage::ExportHtml => Ok((s, seq![StepView::Export(export_file_name(fresh))])),
            ClientMessage::Abort => Ok((s, seq![StepView::Command(command_json("abort"@))])),
            ClientMessage::SetModel { provider, model_id } => Ok(
                (
                    s,
                    seq![
                        StepView::Command(model_json(provider@, model_id@)),
                        StepView::ChooseModel(model_named(s.snapshot.models, provider@, model_id@)),
                    ],
                ),
            ),
            ClientMessage::SetThinkingLevel { level } => {
                let effective = match s.snapshot.model {
                    Some(model) => effective_level(model.thinking_levels, level),
                    None => level,
                };
                Ok(
                    (
                        RuntimeView { snapshot: SnapshotView { thinking_level: effective, ..s.snapshot }, ..s },
                        seq![
                            StepView::Emit(EventView::ModelChanged(s.snapshot.model, effective)),
                            StepView::Command(
                                keyed_json("set_thinking_level"@, "level"@, thinking_level_name(effective)),
                            ),
                        ],
                    ),
                )
            },
            ClientMessage::Refresh => Ok((s, refresh_steps())),
            ClientMessage::ExtensionUiResponse { request_id, value, confirmed, cancelled } => Ok(
                dialog_answered(s, request_id@, opt_view(value), confirmed, cancelled),
            ),
            ClientMessage::Ping { .. } => Ok((s, Seq::empty())),
            _ => Err((AgentErrorCode::InvalidRequest, "Workspace-level action sent to a Pi session"@)),
        },
    }
}

fn copy_images(v: &Vec<ImageAttachment>) -> (r: Vec<ImageAttachment>)
    ensures
        r@.map_values(|i: ImageAttachment| image_view(i)) == v@.map_values(|i: ImageAttachment| image_view(i)),
{
    let mut out: Vec<ImageAttachment> = Vec::new();
    let mut k: usize = 0;
    while k < v.len()
        invariant
            k <= v@.len(),
            out@.len() == k,
            forall|i: int| 0 <= i < k ==> #[trigger] image_view(out@[i]) == image_view(v@[i]),
        decreases v@.len() - k,
    {
        out.push(copy_image(&v[k]));
        k = k + 1;
    }
    proof {
        assert(out@.map_values(|i: ImageAttachment| image_view(i)) =~= v@.map_values(|i: ImageAttachment| image_view(i)));
    }
    out
}

fn on_prompt(
    state: &mut RuntimeState,
    steps: &mut Vec<SessionStep>,
    text: &String,
    delivery: PromptDelivery,
    images: &Vec<ImageAttachment>,
    fresh: &str,
)
    requires
        old(steps)@.len() == 0,
    ensures
        (runtime_view(*final(state)), steps_view(final(steps)@)) == prompted(
            runtime_view(*old(state)),
            text@,
            delivery,
            images@,
            fresh@,
        ),
{
    let trimmed_text = string_from_chars(&trimmed(&chars_of(text.as_str())));
    let item = ChatItem::User {
        id: new_id("user", fresh),
        entry_id: None,
        text: trimmed_text.clone(),
        images: copy_images(images),
    };
    let shown = item.copy();
    push_item(&mut state.snapshot.items, item);
    if state.snapshot.pending_messages < usize::MAX {
        state.snapshot.pending_messages = state.snapshot.pending_messages + 1;
    }
    state.accept_initial_history = false;
    proof {
        assert(steps_view(steps@) =~= Seq::<StepView>::empty());
    }
    add_step(steps, SessionStep::Emit(ServerMessage::ItemAdded { item: shown }));
    add_step(steps, SessionStep::Command(prompt_command(delivery, trimmed_text.as_str(), images)));
    proof {
        assert(runtime_view(*state) =~= prompted(runtime_view(*old(state)), text@, delivery, images@, fresh@).0);
        assert(steps_view(steps@) =~= prompted(runtime_view(*old(state)), text@, delivery, images@, fresh@).1);
    }
}

fn on_dialog_answer(
    state: &mut RuntimeState,
    steps: &mut Vec<SessionStep>,
    request_id: &String,
    value: &Option<String>,
    confirmed: Option<bool>,
    cancelled: bool,
)
    requires
        old(steps)@.len() == 0,
    ensures
        (runtime_view(*final(state)), steps_view(final(steps)@)) == dialog_answered(
            runtime_view(*old(state)),
            request_id@,
            opt_view(*value),
            confirmed,
            cancelled,
        ),
{
    let ghost rv = state.extension_requests@.map_values(|r: crate::agent::ExtensionUiRequest| request_view(r));
    let mut k: usize = 0;
    while k < state.extension_requests.len() && !(state.extension_requests[k].id == *request_id)
        invariant
            k <= state.extension_requests@.len(),
            rv == state.extension_requests@.map_values(|r: crate::agent::ExtensionUiRequest| request_view(r)),
            request_index(rv, request_id@, 0) == request_index(rv, request_id@, k as int),
        decreases state.extension_requests@.len() - k,
    {
        proof {
            assert(rv[k as int] == request_view(state.extension_requests@[k as int]));
        }
        k = k + 1;
    }
    proof {
        if k < state.extension_requests@.len() {
            assert(rv[k as int] == request_view(state.extension_requests@[k as int]));
        }
        assert(request_index(rv, request_id@, 0) == k);
    }
    if k < state.extension_requests.len() {
        let ghost before = state.extension_requests@;
        state.extension_requests.remove(k);
        proof {
            assert(state.extension_requests@.map_values(|r: crate::agent::ExtensionUiRequest| request_view(r))
                =~= rv.remove(k as int));
        }
    }
    let next = if state.extension_requests.len() > 0 {
        Some(copy_request(&state.extension_requests[0]))
    } else {
        None
    };
    state.snapshot.pending_extension_request = match &next {
        Some(r) => Some(copy_request(r)),
        None => None,
    };
    proof {
        assert(steps_view(steps@) =~= Seq::<StepView>::empty());
    }
    add_step(steps, SessionStep::Command(ui_response_command(request_id.as_str(), value, confirmed, cancelled)));
    let ghost mid = steps_view(steps@);
    match next {
        Some(request) => add_step(steps, SessionStep::Emit(ServerMessage::ExtensionUiRequest { request })),
        None => {},
    }
    proof {
        let ghost d = dialog_answered(runtime_view(*old(state)), request_id@, opt_view(*value), confirmed, cancelled);
        assert(runtime_view(*state) =~= d.0);
        assert(steps_view(steps@) =~= d.1);
    }
}

/// Carries out a client's action on a running session: refuses it with the error the client is
/// owed, or moves the session on and returns the steps that carry it out,
/// in order. A refused action leaves the session as it was.
pub fn handle_client_message(state: &mut RuntimeState, message: ClientMessage, fresh: &str) -> (r: Result<Vec<SessionStep>, AgentError>)
    ensures
        match r {
            Ok(steps) => client_handled(runtime_view(*old(state)), message, fresh@) == Ok::<
                (RuntimeView, Seq<StepView>),
                (AgentErrorCode, Seq<char>),
            >((runtime_view(*final(state)), steps_view(steps@))),
            Err(e) => client_handled(runtime_view(*old(state)), message, fresh@) == Err::<
                (RuntimeView, Seq<StepView>),
                (AgentErrorCode, Seq<char>),
            >((e.code, e.message@)) && runtime_view(*final(state)) == runtime_view(*old(state)),
        },
{
    match message.validate() {
        Err(e) => return Err(e),
        Ok(_) => {},
    }
    let mut steps: Vec<SessionStep> = Vec::new();
    proof {
        assert(steps_view(steps@) =~= Seq::<StepView>::empty());
    }
    match &message {
        ClientMessage::Hello { .. } => {
            return Err(
                AgentError::new(AgentErrorCode::InvalidProtocol, "The AI protocol handshake was already completed"),
            );
        },
        ClientMessage::Prompt { text, delivery, images } => {
            on_prompt(state, &mut steps, text, *delivery, images, fresh);
        },
        ClientMessage::ForkMessage { entry_id } => {
            state.accept_initial_history = true;
            add_step(&mut steps, SessionStep::Command(keyed_command("fork", "entryId", entry_id.as_str())));
            add_reload(&mut steps);
        },
        ClientMessage::Compact { custom_instructions } => {
            add_step(&mut steps, SessionStep::Command(compaction_command(custom_instructions)));
        },
        ClientMessage::CloneSession => {
            add_step(&mut steps, SessionStep::Command(typed_command("clone")));
            add_reload(&mut steps);
        },
        ClientMessage::ExportHtml => {
            let name = string_from_chars(
                &concat(&concat(&chars_of("syntaxis-session-"), &chars_of(fresh)), &chars_of(".html")),
            );
            add_step(&mut steps, SessionStep::Export(name));
        },
        ClientMessage::Abort => {
            add_step(&mut steps, SessionStep::Command(typed_command("abort")));
        },
        ClientMessage::SetModel { provider, model_id } => {
            let model = find_model(&state.snapshot.models, provider, model_id);
            add_step(&mut steps, SessionStep::Command(model_command(provider.as_str(), model_id.as_str())));
            add_step(&mut steps, SessionStep::ChooseModel(model));
        },
        ClientMessage::SetThinkingLevel { level } => {
            let effective = match &state.snapshot.model {
                Some(model) => model.effective_thinking_level(*level),
                None => *level,
            };
            state.snapshot.thinking_level = effective;
            let model = copy_opt_model(&state.snapshot.model);
            add_step(&mut steps, SessionStep::Emit(ServerMessage::ModelChanged { model, thinking_level: effective }));
            add_step(&mut steps, SessionStep::Command(keyed_command("set_thinking_level", "level", effective.as_str())));
        },
        ClientMessage::Refresh => {
            add_refresh(&mut steps);
        },
        ClientMessage::ExtensionUiResponse { request_id, value, confirmed, cancelled } => {
            on_dialog_answer(state, &mut steps, request_id, value, *confirmed, *cancelled);
        },
        ClientMessage::Ping { .. } => {},
        _ => {
            return Err(AgentError::new(AgentErrorCode::InvalidRequest, "Workspace-level action sent to a Pi session"));
        },
    }
    proof {
        let ghost expected = client_handled(runtime_view(*old(state)), message, fresh@);
        assert(expected is Ok);
        assert(runtime_view(*state) =~= expected->Ok_0.0);
        assert(steps_view(steps@) =~= expected->Ok_0.1);
    }
    Ok(steps)
}

/// Takes the model a `SetModel` named as the session's, when the session
/// lists it, and returns the message that tells the client
/// (`SessionStep::ChooseModel`).
pub fn choose_model(state: &mut RuntimeState, model: Option<ModelSummary>) -> (r: ServerMessage)
    ensures
        runtime_view(*final(state)) == (RuntimeView {
            snapshot: SnapshotView {
                model: match opt_model_view(model) {
                    Some(m) => Some(m),
                    None => runtime_view(*old(state)).snapshot.model,
                },
                ..runtime_view(*old(state)).snapshot
            },
            ..runtime_view(*old(state))
        }),
        event_view(r) == EventView::ModelChanged(runtime_view(*final(state)).snapshot.model, runtime_view(*old(state)).snapshot.thinking_level),
{
    match model {
        Some(m) => {
            state.snapshot.model = Some(m);
        },
        None => {},
    }
    proof {
        assert(runtime_view(*state).snapshot =~= SnapshotView {
            model: match opt_model_view(model) {
                Some(m) => Some(m),
                None => runtime_view(*old(state)).snapshot.model,
            },
            ..runtime_view(*old(state)).snapshot
        });
    }
    ServerMessage::ModelChanged { model: copy_opt_model(&state.snapshot.model), thinking_level: state.snapshot.thinking_level }
}

/// The command that asks Pi to export the session to `output_path`.
pub fn export_command(output_path: &str) -> (r: JsonValue)
    ensures
        json_view(r) == keyed_json("export_html"@, "outputPath"@, output_path@),
{
    keyed_command("export_html", "outputPath", output_path)
}

/// Carries out a client's action as `handle_client_message` does, with new
/// ids and the export file's name made from a random UUID.
pub fn receive_client_message(state: &mut RuntimeState, message: ClientMessage) -> (r: Result<Vec<SessionStep>, AgentError>)
    ensures
        exists|fresh: Seq<char>|
            #![trigger client_handled(runtime_view(*old(state)), message, fresh)]
            match r {
                Ok(steps) => client_handled(runtime_view(*old(state)), message, fresh) == Ok::<
                    (RuntimeView, Seq<StepView>),
                    (AgentErrorCode, Seq<char>),
                >((runtime_view(*final(state)), steps_view(steps@))),
                Err(e) => client_handled(runtime_view(*old(state)), message, fresh) == Err::<
                    (RuntimeView, Seq<StepView>),
                    (AgentErrorCode, Seq<char>),
                >((e.code, e.message@)) && runtime_view(*final(state)) == runtime_view(*old(state)),
            },
{
    let token = random_uuid();
    handle_client_message(state, message, token.as_str())
}

/// Gives a command a random request id, unless it has an id (`send`).
pub fn identify_request(command: JsonValue) -> (r: JsonValue)
    ensures
        exists|fresh: Seq<char>| json_view(r) == with_id(json_view(command), fresh),
{
    let token = random_uuid();
    with_request_id(command, token.as_str())
}

/// The command that refreshes `kind` after an answer settles, under a
/// random id (`PiAction::Refresh`).
pub fn refresh_request(kind: &str) -> (r: JsonValue)
    ensures
        exists|fresh: Seq<char>| json_view(r) == identified_json(fresh_id("syntaxis-refresh"@, fresh), kind@),
{
    let token = random_uuid();
    refresh_command(kind, token.as_str())
}

/// A client's action never lets the extension dialogs waiting exceed their
/// limit.
pub proof fn client_keeps_dialogs_bounded(s: RuntimeView, m: ClientMessage, fresh: Seq<char>)
    requires
        requests_bounded(s),
    ensures
        client_handled(s, m, fresh) matches Ok(next) ==> requests_bounded(next.0),
{
}

/// After a client's action the dialog on show is still the oldest one
/// waiting; answering it shows the next.
pub proof fn client_shows_oldest_dialog(s: RuntimeView, m: ClientMessage, fresh: Seq<char>)
    requires
        shows_oldest_dialog(s),
    ensures
        client_handled(s, m, fresh) matches Ok(next) ==> shows_oldest_dialog(next.0),
{
}
} // verus!
