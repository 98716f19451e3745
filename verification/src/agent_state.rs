//! What a conversation with the agent shows: its items, its snapshot, and
//! the messages the host sends to the client.
use vstd::prelude::*;
use crate::agent::{
    AgentError, AgentSessionSummary, AgentStatus, ExtensionUiRequest, ExtensionWidget,
    ImageAttachment, ItemStatus, ModelCost, ModelSummary, PiCommand, SessionStats, ThinkingLevel,
};
use crate::agent_values::opt_json_view;
use crate::app_shell::opt_view;
use crate::json::{json_view, Json, JsonValue};

verus! {

/// Most items a conversation keeps; the oldest go first.
pub const MAX_HISTORY_ITEMS: usize = 400;

/// One entry of a conversation.
#[derive(Debug, PartialEq, Eq)]
pub enum ChatItem {
    User { id: String, entry_id: Option<String>, text: String, images: Vec<ImageAttachment> },
    Assistant { id: String, text: String, thinking: String, status: ItemStatus, truncated: bool },
    Tool {
        id: String,
        name: String,
        summary: String,
        output: String,
        args: Option<JsonValue>,
        details: Option<JsonValue>,
        args_truncated: bool,
        details_truncated: bool,
        status: ItemStatus,
    },
    Custom { id: String, label: String, text: String, details: Option<JsonValue>, details_truncated: bool },
    Notice { id: String, text: String, status: ItemStatus },
}

pub ghost struct ImageView {
    pub name: Seq<char>,
    pub mime_type: Seq<char>,
    pub size: u64,
    pub data: Seq<char>,
}

pub open spec fn image_view(i: ImageAttachment) -> ImageView {
    ImageView { name: i.name@, mime_type: i.mime_type@, size: i.size, data: i.data@ }
}

pub ghost enum ItemView {
    User { id: Seq<char>, entry_id: Option<Seq<char>>, text: Seq<char>, images: Seq<ImageView> },
    Assistant { id: Seq<char>, text: Seq<char>, thinking: Seq<char>, status: ItemStatus, truncated: bool },
    Tool {
        id: Seq<char>,
        name: Seq<char>,
        summary: Seq<char>,
        output: Seq<char>,
        args: Option<Json>,
        details: Option<Json>,
        args_truncated: bool,
        details_truncated: bool,
        status: ItemStatus,
    },
    Custom { id: Seq<char>, label: Seq<char>, text: Seq<char>, details: Option<Json>, details_truncated: bool },
    Notice { id: Seq<char>, text: Seq<char>, status: ItemStatus },
}

pub open spec fn item_view(item: ChatItem) -> ItemView {
    match item {
        ChatItem::User { id, entry_id, text, images } => ItemView::User {
            id: id@,
            entry_id: opt_view(entry_id),
            text: text@,
            images: images@.map_values(|i: ImageAttachment| image_view(i)),
        },
        ChatItem::Assistant { id, text, thinking, status, truncated } => ItemView::Assistant {
            id: id@,
            text: text@,
            thinking: thinking@,
            status,
            truncated,
        },
        ChatItem::Tool { id, name, summary, output, args, details, args_truncated, details_truncated, status } => ItemView::Tool {
            id: id@,
            name: name@,
            summary: summary@,
            output: output@,
            args: opt_json_view(args),
            details: opt_json_view(details),
            args_truncated,
            details_truncated,
            status,
        },
        ChatItem::Custom { id, label, text, details, details_truncated } => ItemView::Custom {
            id: id@,
            label: label@,
            text: text@,
            details: opt_json_view(details),
            details_truncated,
        },
        ChatItem::Notice { id, text, status } => ItemView::Notice { id: id@, text: text@, status },
    }
}

pub open spec fn items_view(items: Seq<ChatItem>) -> Seq<ItemView> {
    items.map_values(|i: ChatItem| item_view(i))
}

pub open spec fn item_id(item: ItemView) -> Seq<char> {
    match item {
        ItemView::User { id, .. } => id,
        ItemView::Assistant { id, .. } => id,
        ItemView::Tool { id, .. } => id,
        ItemView::Custom { id, .. } => id,
        ItemView::Notice { id, .. } => id,
    }
}

/// The items after appending `item`, keeping only the newest items.
pub open spec fn pushed(items: Seq<ItemView>, item: ItemView) -> Seq<ItemView> {
    let all = items.push(item);
    if all.len() > MAX_HISTORY_ITEMS {
        all.skip(all.len() - MAX_HISTORY_ITEMS)
    } else {
        all
    }
}

pub fn copy_text(s: &Option<String>) -> (r: Option<String>)
    ensures
        opt_view(r) == opt_view(*s),
{
    match s {
        Some(t) => Some(t.clone()),
        None => None,
    }
}

pub fn copy_json(v: &Option<JsonValue>) -> (r: Option<JsonValue>)
    ensures
        opt_json_view(r) == opt_json_view(*v),
{
    match v {
        Some(j) => Some(j.copy()),
        None => None,
    }
}

pub fn copy_image(i: &ImageAttachment) -> (r: ImageAttachment)
    ensures
        image_view(r) == image_view(*i),
{
    ImageAttachment { name: i.name.clone(), mime_type: i.mime_type.clone(), size: i.size, data: i.data.clone() }
}

impl ChatItem {
    pub fn id(&self) -> (r: &String)
        ensures
            r@ == item_id(item_view(*self)),
    {
        match self {
            ChatItem::User { id, .. } => id,
            ChatItem::Assistant { id, .. } => id,
            ChatItem::Tool { id, .. } => id,
            ChatItem::Custom { id, .. } => id,
            ChatItem::Notice { id, .. } => id,
        }
    }

    /// A copy of the item.
    pub fn copy(&self) -> (r: ChatItem)
        ensures
            item_view(r) == item_view(*self),
    {
        match self {
            ChatItem::User { id, entry_id, text, images } => {
                let mut copied: Vec<ImageAttachment> = Vec::new();
                let mut k: usize = 0;
                while k < images.len()
                    invariant
                        k <= images@.len(),
                        copied@.map_values(|i: ImageAttachment| image_view(i)) == images@.take(k as int).map_values(
                            |i: ImageAttachment| image_view(i),
                        ),
                    decreases images@.len() - k,
                {
                    let ghost before = copied@.map_values(|i: ImageAttachment| image_view(i));
                    copied.push(copy_image(&images[k]));
                    proof {
                        assert(copied@.map_values(|i: ImageAttachment| image_view(i)) =~= before.push(
                            image_view(images@[k as int]),
                        ));
                        assert(images@.take(k + 1).map_values(|i: ImageAttachment| image_view(i)) =~= images@.take(
                            k as int,
                        ).map_values(|i: ImageAttachment| image_view(i)).push(image_view(images@[k as int])));
                    }
                    k = k + 1;
                }
                proof {
                    assert(images@.take(images@.len() as int) =~= images@);
                }
                ChatItem::User { id: id.clone(), entry_id: copy_text(entry_id), text: text.clone(), images: copied }
            },
            ChatItem::Assistant { id, text, thinking, status, truncated } => ChatItem::Assistant {
                id: id.clone(),
                text: text.clone(),
                thinking: thinking.clone(),
                status: *status,
                truncated: *truncated,
            },
            ChatItem::Tool { id, name, summary, output, args, details, args_truncated, details_truncated, status } => ChatItem::Tool {
                id: id.clone(),
                name: name.clone(),
                summary: summary.clone(),
                output: output.clone(),
                args: copy_json(args),
                details: copy_json(details),
                args_truncated: *args_truncated,
                details_truncated: *details_truncated,
                status: *status,
            },
            ChatItem::Custom { id, label, text, details, details_truncated } => ChatItem::Custom {
                id: id.clone(),
                label: label.clone(),
                text: text.clone(),
                details: copy_json(details),
                details_truncated: *details_truncated,
            },
            ChatItem::Notice { id, text, status } => ChatItem::Notice { id: id.clone(), text: text.clone(), status: *status },
        }
    }
}

/// Appends `item`, dropping the oldest items beyond the history limit.
pub fn push_item(items: &mut Vec<ChatItem>, item: ChatItem)
    ensures
        items_view(final(items)@) == pushed(items_view(old(items)@), item_view(item)),
{
    let ghost before = items_view(items@);
    items.push(item);
    proof {
        assert(items_view(items@) =~= before.push(item_view(item)));
    }
    let ghost all = items_view(items@);
    while items.len() > MAX_HISTORY_ITEMS
        invariant
            items@.len() <= all.len(),
            all.len() > MAX_HISTORY_ITEMS ==> items@.len() >= MAX_HISTORY_ITEMS,
            all.len() <= MAX_HISTORY_ITEMS ==> items@.len() == all.len(),
            all == items_view(old(items)@).push(item_view(item)),
            items_view(items@) == all.skip(all.len() - items@.len()),
        decreases items@.len(),
    {
        let ghost before = items_view(items@);
        items.remove(0);
        proof {
            assert(items_view(items@) =~= before.drop_first());
            assert(all.skip(all.len() - items@.len()) =~= all.skip(all.len() - items@.len() - 1).drop_first());
        }
    }
    proof {
        if all.len() <= MAX_HISTORY_ITEMS {
            assert(all.skip(0) =~= all);
        }
    }
}


pub ghost struct ModelView {
    pub provider: Seq<char>,
    pub id: Seq<char>,
    pub name: Seq<char>,
    pub reasoning: bool,
    pub thinking_levels: Seq<ThinkingLevel>,
    pub supports_images: bool,
    pub context_window: u64,
    pub max_tokens: u64,
    pub cost: ModelCost,
}

pub open spec fn model_view(m: ModelSummary) -> ModelView {
    ModelView {
        provider: m.provider@,
        id: m.id@,
        name: m.name@,
        reasoning: m.reasoning,
        thinking_levels: m.thinking_levels@,
        supports_images: m.supports_images,
        context_window: m.context_window,
        max_tokens: m.max_tokens,
        cost: m.cost,
    }
}

pub open spec fn opt_model_view(m: Option<ModelSummary>) -> Option<ModelView> {
    match m {
        Some(x) => Some(model_view(x)),
        None => None,
    }
}

pub ghost struct CommandView {
    pub name: Seq<char>,
    pub description: Seq<char>,
    pub source: Seq<char>,
    pub location: Option<Seq<char>>,
    pub argument_hint: Option<Seq<char>>,
    pub invocation: Option<Seq<char>>,
}

pub open spec fn command_view(c: PiCommand) -> CommandView {
    CommandView {
        name: c.name@,
        description: c.description@,
        source: c.source@,
        location: opt_view(c.location),
        argument_hint: opt_view(c.argument_hint),
        invocation: opt_view(c.invocation),
    }
}

pub ghost struct RequestView {
    pub id: Seq<char>,
    pub method: Seq<char>,
    pub title: Seq<char>,
    pub message: Seq<char>,
    pub options: Seq<Seq<char>>,
    pub placeholder: Option<Seq<char>>,
    pub prefill: Option<Seq<char>>,
}

pub open spec fn texts_view(v: Seq<String>) -> Seq<Seq<char>> {
    v.map_values(|s: String| s@)
}

pub open spec fn request_view(r: ExtensionUiRequest) -> RequestView {
    RequestView {
        id: r.id@,
        method: r.method@,
        title: r.title@,
        message: r.message@,
        options: texts_view(r.options@),
        placeholder: opt_view(r.placeholder),
        prefill: opt_view(r.prefill),
    }
}

pub open spec fn opt_request_view(r: Option<ExtensionUiRequest>) -> Option<RequestView> {
    match r {
        Some(x) => Some(request_view(x)),
        None => None,
    }
}

pub ghost struct WidgetView {
    pub key: Seq<char>,
    pub lines: Seq<Seq<char>>,
    pub placement: Seq<char>,
}

pub open spec fn widget_view(w: ExtensionWidget) -> WidgetView {
    WidgetView { key: w.key@, lines: texts_view(w.lines@), placement: w.placement@ }
}

pub open spec fn pairs_view(v: Seq<(String, String)>) -> Seq<(Seq<char>, Seq<char>)> {
    v.map_values(|p: (String, String)| (p.0@, p.1@))
}

/// Everything a client needs to show a conversation.
#[derive(Debug, PartialEq, Eq)]
pub struct AgentSnapshot {
    pub status: AgentStatus,
    pub status_message: String,
    pub session_id: Option<String>,
    pub session_name: Option<String>,
    pub model: Option<ModelSummary>,
    pub thinking_level: ThinkingLevel,
    pub pending_messages: usize,
    pub steering_queue: Vec<String>,
    pub follow_up_queue: Vec<String>,
    pub fork_points: Vec<(String, String)>,
    pub items: Vec<ChatItem>,
    pub models: Vec<ModelSummary>,
    pub commands: Vec<PiCommand>,
    pub session_stats: Option<SessionStats>,
    pub pending_extension_request: Option<ExtensionUiRequest>,
    pub extension_title: Option<String>,
    pub extension_statuses: Vec<(String, String)>,
    pub extension_widgets: Vec<ExtensionWidget>,
}

pub ghost struct SnapshotView {
    pub status: AgentStatus,
    pub status_message: Seq<char>,
    pub session_id: Option<Seq<char>>,
    pub session_name: Option<Seq<char>>,
    pub model: Option<ModelView>,
    pub thinking_level: ThinkingLevel,
    pub pending_messages: usize,
    pub steering_queue: Seq<Seq<char>>,
    pub follow_up_queue: Seq<Seq<char>>,
    pub fork_points: Seq<(Seq<char>, Seq<char>)>,
    pub items: Seq<ItemView>,
    pub models: Seq<ModelView>,
    pub commands: Seq<CommandView>,
    pub session_stats: Option<SessionStats>,
    pub pending_extension_request: Option<RequestView>,
    pub extension_title: Option<Seq<char>>,
    pub extension_statuses: Seq<(Seq<char>, Seq<char>)>,
    pub extension_widgets: Seq<WidgetView>,
}

pub open spec fn snapshot_view(s: AgentSnapshot) -> SnapshotView {
    SnapshotView {
        status: s.status,
        status_message: s.status_message@,
        session_id: opt_view(s.session_id),
        session_name: opt_view(s.session_name),
        model: opt_model_view(s.model),
        thinking_level: s.thinking_level,
        pending_messages: s.pending_messages,
        steering_queue: texts_view(s.steering_queue@),
        follow_up_queue: texts_view(s.follow_up_queue@),
        fork_points: pairs_view(s.fork_points@),
        items: items_view(s.items@),
        models: s.models@.map_values(|m: ModelSummary| model_view(m)),
        commands: s.commands@.map_values(|c: PiCommand| command_view(c)),
        session_stats: s.session_stats,
        pending_extension_request: opt_request_view(s.pending_extension_request),
        extension_title: opt_view(s.extension_title),
        extension_statuses: pairs_view(s.extension_statuses@),
        extension_widgets: s.extension_widgets@.map_values(|w: ExtensionWidget| widget_view(w)),
    }
}

/// The snapshot of a conversation that has not heard from Pi yet.
pub open spec fn starting_snapshot() -> SnapshotView {
    SnapshotView {
        status: AgentStatus::Starting,
        status_message: "Starting Pi…"@,
        session_id: None,
        session_name: None,
        model: None,
        thinking_level: ThinkingLevel::Medium,
        pending_messages: 0,
        steering_queue: Seq::empty(),
        follow_up_queue: Seq::empty(),
        fork_points: Seq::empty(),
        items: Seq::empty(),
        models: Seq::empty(),
        commands: Seq::empty(),
        session_stats: None,
        pending_extension_request: None,
        extension_title: None,
        extension_statuses: Seq::empty(),
        extension_widgets: Seq::empty(),
    }
}

impl Default for AgentSnapshot {
    fn default() -> (r: Self)
        ensures
            snapshot_view(r) == starting_snapshot(),
    {
        let r = AgentSnapshot {
            status: AgentStatus::Starting,
            status_message: "Starting Pi…".to_owned(),
            session_id: None,
            session_name: None,
            model: None,
            thinking_level: ThinkingLevel::Medium,
            pending_messages: 0,
            steering_queue: Vec::new(),
            follow_up_queue: Vec::new(),
            fork_points: Vec::new(),
            items: Vec::new(),
            models: Vec::new(),
            commands: Vec::new(),
            session_stats: None,
            pending_extension_request: None,
            extension_title: None,
            extension_statuses: Vec::new(),
            extension_widgets: Vec::new(),
        };
        proof {
            assert(texts_view(r.steering_queue@) =~= Seq::empty());
            assert(texts_view(r.follow_up_queue@) =~= Seq::empty());
            assert(pairs_view(r.fork_points@) =~= Seq::empty());
            assert(items_view(r.items@) =~= Seq::empty());
            assert(r.models@.map_values(|m: ModelSummary| model_view(m)) =~= Seq::empty());
            assert(r.commands@.map_values(|c: PiCommand| command_view(c)) =~= Seq::empty());
            assert(pairs_view(r.extension_statuses@) =~= Seq::empty());
            assert(r.extension_widgets@.map_values(|w: ExtensionWidget| widget_view(w)) =~= Seq::empty());
            assert(snapshot_view(r) =~= starting_snapshot());
        }
        r
    }
}

pub fn copy_model(m: &ModelSummary) -> (r: ModelSummary)
    ensures
        model_view(r) == model_view(*m),
{
    ModelSummary {
        provider: m.provider.clone(),
        id: m.id.clone(),
        name: m.name.clone(),
        reasoning: m.reasoning,
        thinking_levels: copy_levels(&m.thinking_levels),
        supports_images: m.supports_images,
        context_window: m.context_window,
        max_tokens: m.max_tokens,
        cost: m.cost,
    }
}

fn copy_levels(v: &Vec<ThinkingLevel>) -> (r: Vec<ThinkingLevel>)
    ensures
        r@ == v@,
{
    let mut out: Vec<ThinkingLevel> = Vec::new();
    let mut k: usize = 0;
    while k < v.len()
        invariant
            k <= v@.len(),
            out@ == v@.take(k as int),
        decreases v@.len() - k,
    {
        out.push(v[k]);
        k = k + 1;
        proof {
            assert(out@ =~= v@.take(k as int));
        }
    }
    proof {
        assert(v@.take(k as int) =~= v@);
    }
    out
}

pub fn copy_opt_model(m: &Option<ModelSummary>) -> (r: Option<ModelSummary>)
    ensures
        opt_model_view(r) == opt_model_view(*m),
{
    match m {
        Some(x) => Some(copy_model(x)),
        None => None,
    }
}

pub fn copy_models(v: &Vec<ModelSummary>) -> (r: Vec<ModelSummary>)
    ensures
        r@.map_values(|m: ModelSummary| model_view(m)) == v@.map_values(|m: ModelSummary| model_view(m)),
{
    let mut out: Vec<ModelSummary> = Vec::new();
    let mut k: usize = 0;
    while k < v.len()
        invariant
            k <= v@.len(),
            out@.map_values(|m: ModelSummary| model_view(m)) == v@.take(k as int).map_values(|m: ModelSummary| model_view(m)),
        decreases v@.len() - k,
    {
        let ghost before = out@.map_values(|m: ModelSummary| model_view(m));
        out.push(copy_model(&v[k]));
        proof {
            assert(out@.map_values(|m: ModelSummary| model_view(m)) =~= before.push(model_view(v@[k as int])));
            assert(v@.take(k + 1).map_values(|m: ModelSummary| model_view(m)) =~= v@.take(k as int).map_values(
                |m: ModelSummary| model_view(m),
            ).push(model_view(v@[k as int])));
        }
        k = k + 1;
    }
    proof {
        assert(v@.take(v@.len() as int) =~= v@);
    }
    out
}

pub fn copy_command(c: &PiCommand) -> (r: PiCommand)
    ensures
        command_view(r) == command_view(*c),
{
    PiCommand {
        name: c.name.clone(),
        description: c.description.clone(),
        source: c.source.clone(),
        location: copy_text(&c.location),
        argument_hint: copy_text(&c.argument_hint),
        invocation: copy_text(&c.invocation),
    }
}

pub fn copy_commands(v: &Vec<PiCommand>) -> (r: Vec<PiCommand>)
    ensures
        r@.map_values(|c: PiCommand| command_view(c)) == v@.map_values(|c: PiCommand| command_view(c)),
{
    let mut out: Vec<PiCommand> = Vec::new();
    let mut k: usize = 0;
    while k < v.len()
        invariant
            k <= v@.len(),
            out@.map_values(|c: PiCommand| command_view(c)) == v@.take(k as int).map_values(|c: PiCommand| command_view(c)),
        decreases v@.len() - k,
    {
        let ghost before = out@.map_values(|c: PiCommand| command_view(c));
        out.push(copy_command(&v[k]));
        proof {
            assert(out@.map_values(|c: PiCommand| command_view(c)) =~= before.push(command_view(v@[k as int])));
            assert(v@.take(k + 1).map_values(|c: PiCommand| command_view(c)) =~= v@.take(k as int).map_values(
                |c: PiCommand| command_view(c),
            ).push(command_view(v@[k as int])));
        }
        k = k + 1;
    }
    proof {
        assert(v@.take(v@.len() as int) =~= v@);
    }
    out
}

pub fn copy_texts(v: &Vec<String>) -> (r: Vec<String>)
    ensures
        texts_view(r@) == texts_view(v@),
{
    let mut out: Vec<String> = Vec::new();
    let mut k: usize = 0;
    while k < v.len()
        invariant
            k <= v@.len(),
            texts_view(out@) == texts_view(v@.take(k as int)),
        decreases v@.len() - k,
    {
        let ghost before = texts_view(out@);
        out.push(v[k].clone());
        proof {
            assert(texts_view(out@) =~= before.push(v@[k as int]@));
            assert(texts_view(v@.take(k + 1)) =~= texts_view(v@.take(k as int)).push(v@[k as int]@));
        }
        k = k + 1;
    }
    proof {
        assert(v@.take(v@.len() as int) =~= v@);
    }
    out
}

pub fn copy_pairs(v: &Vec<(String, String)>) -> (r: Vec<(String, String)>)
    ensures
        pairs_view(r@) == pairs_view(v@),
{
    let mut out: Vec<(String, String)> = Vec::new();
    let mut k: usize = 0;
    while k < v.len()
        invariant
            k <= v@.len(),
            pairs_view(out@) == pairs_view(v@.take(k as int)),
        decreases v@.len() - k,
    {
        let ghost before = pairs_view(out@);
        out.push((v[k].0.clone(), v[k].1.clone()));
        proof {
            assert(pairs_view(out@) =~= before.push((v@[k as int].0@, v@[k as int].1@)));
            assert(pairs_view(v@.take(k + 1)) =~= pairs_view(v@.take(k as int)).push((v@[k as int].0@, v@[k as int].1@)));
        }
        k = k + 1;
    }
    proof {
        assert(v@.take(v@.len() as int) =~= v@);
    }
    out
}

pub fn copy_request(r: &ExtensionUiRequest) -> (c: ExtensionUiRequest)
    ensures
        request_view(c) == request_view(*r),
{
    ExtensionUiRequest {
        id: r.id.clone(),
        method: r.method.clone(),
        title: r.title.clone(),
        message: r.message.clone(),
        options: copy_texts(&r.options),
        placeholder: copy_text(&r.placeholder),
        prefill: copy_text(&r.prefill),
    }
}

pub fn copy_opt_request(r: &Option<ExtensionUiRequest>) -> (c: Option<ExtensionUiRequest>)
    ensures
        opt_request_view(c) == opt_request_view(*r),
{
    match r {
        Some(x) => Some(copy_request(x)),
        None => None,
    }
}

pub fn copy_widgets(v: &Vec<ExtensionWidget>) -> (r: Vec<ExtensionWidget>)
    ensures
        r@.map_values(|w: ExtensionWidget| widget_view(w)) == v@.map_values(|w: ExtensionWidget| widget_view(w)),
{
    let mut out: Vec<ExtensionWidget> = Vec::new();
    let mut k: usize = 0;
    while k < v.len()
        invariant
            k <= v@.len(),
            out@.map_values(|w: ExtensionWidget| widget_view(w)) == v@.take(k as int).map_values(
                |w: ExtensionWidget| widget_view(w),
            ),
        decreases v@.len() - k,
    {
        let ghost before = out@.map_values(|w: ExtensionWidget| widget_view(w));
        let w = ExtensionWidget { key: v[k].key.clone(), lines: copy_texts(&v[k].lines), placement: v[k].placement.clone() };
        out.push(w);
        proof {
            assert(out@.map_values(|w: ExtensionWidget| widget_view(w)) =~= before.push(widget_view(v@[k as int])));
            assert(v@.take(k + 1).map_values(|w: ExtensionWidget| widget_view(w)) =~= v@.take(k as int).map_values(
                |w: ExtensionWidget| widget_view(w),
            ).push(widget_view(v@[k as int])));
        }
        k = k + 1;
    }
    proof {
        assert(v@.take(v@.len() as int) =~= v@);
    }
    out
}

pub fn copy_items(v: &Vec<ChatItem>) -> (r: Vec<ChatItem>)
    ensures
        items_view(r@) == items_view(v@),
{
    let mut out: Vec<ChatItem> = Vec::new();
    let mut k: usize = 0;
    while k < v.len()
        invariant
            k <= v@.len(),
            items_view(out@) == items_view(v@.take(k as int)),
        decreases v@.len() - k,
    {
        let ghost before = items_view(out@);
        out.push(v[k].copy());
        proof {
            assert(items_view(out@) =~= before.push(item_view(v@[k as int])));
            assert(items_view(v@.take(k + 1)) =~= items_view(v@.take(k as int)).push(item_view(v@[k as int])));
        }
        k = k + 1;
    }
    proof {
        assert(v@.take(v@.len() as int) =~= v@);
    }
    out
}

impl AgentSnapshot {
    /// A copy of the snapshot.
    pub fn copy(&self) -> (r: AgentSnapshot)
        ensures
            snapshot_view(r) == snapshot_view(*self),
    {
        let r = AgentSnapshot {
            status: self.status,
            status_message: self.status_message.clone(),
            session_id: copy_text(&self.session_id),
            session_name: copy_text(&self.session_name),
            model: copy_opt_model(&self.model),
            thinking_level: self.thinking_level,
            pending_messages: self.pending_messages,
            steering_queue: copy_texts(&self.steering_queue),
            follow_up_queue: copy_texts(&self.follow_up_queue),
            fork_points: copy_pairs(&self.fork_points),
            items: copy_items(&self.items),
            models: copy_models(&self.models),
            commands: copy_commands(&self.commands),
            session_stats: self.session_stats,
            pending_extension_request: copy_opt_request(&self.pending_extension_request),
            extension_title: copy_text(&self.extension_title),
            extension_statuses: copy_pairs(&self.extension_statuses),
            extension_widgets: copy_widgets(&self.extension_widgets),
        };
        proof {
            assert(snapshot_view(r) =~= snapshot_view(*self));
        }
        r
    }
}

/// A message from the host to the client.
#[derive(Debug, PartialEq, Eq)]
pub enum ServerMessage {
    Hello { version: u16 },
    Sessions { sessions: Vec<AgentSessionSummary> },
    SelectedSession { session_id: String, snapshot: AgentSnapshot },
    SessionEvent { session_id: String, event: Box<ServerMessage> },
    Snapshot { snapshot: AgentSnapshot },
    ItemAdded { item: ChatItem },
    ItemDelta { item_id: String, text: String, thinking: bool },
    ItemUpdated { item: ChatItem },
    Status { status: AgentStatus, message: String, pending_messages: usize },
    QueueChanged { steering: Vec<String>, follow_up: Vec<String> },
    SessionChanged { session_id: Option<String>, session_name: Option<String> },
    ModelChanged { model: Option<ModelSummary>, thinking_level: ThinkingLevel },
    Models { models: Vec<ModelSummary> },
    Commands { commands: Vec<PiCommand> },
    SessionStats { stats: SessionStats },
    ExtensionUiRequest { request: ExtensionUiRequest },
    ExtensionSurfaces { title: Option<String>, statuses: Vec<(String, String)>, widgets: Vec<ExtensionWidget> },
    ComposerText { text: String },
    ExportReady { filename: String, data_base64: String },
    Error { error: AgentError },
    Pong { nonce: u64 },
}

/// The messages the host derives from Pi's records, as plain values.
pub ghost enum EventView {
    Snapshot(SnapshotView),
    ItemAdded(ItemView),
    ItemDelta(Seq<char>, Seq<char>, bool),
    ItemUpdated(ItemView),
    Status(AgentStatus, Seq<char>, usize),
    QueueChanged(Seq<Seq<char>>, Seq<Seq<char>>),
    SessionChanged(Option<Seq<char>>, Option<Seq<char>>),
    ModelChanged(Option<ModelView>, ThinkingLevel),
    Models(Seq<ModelView>),
    Commands(Seq<CommandView>),
    SessionStats(SessionStats),
    ExtensionUiRequest(RequestView),
    ExtensionSurfaces(Option<Seq<char>>, Seq<(Seq<char>, Seq<char>)>, Seq<WidgetView>),
    ComposerText(Seq<char>),
    ExportReady(Seq<char>, Seq<char>),
    Error(crate::agent::AgentErrorCode, Seq<char>),
    Other,
}

pub open spec fn event_view(m: ServerMessage) -> EventView {
    match m {
        ServerMessage::Snapshot { snapshot } => EventView::Snapshot(snapshot_view(snapshot)),
        ServerMessage::ItemAdded { item } => EventView::ItemAdded(item_view(item)),
        ServerMessage::ItemDelta { item_id, text, thinking } => EventView::ItemDelta(item_id@, text@, thinking),
        ServerMessage::ItemUpdated { item } => EventView::ItemUpdated(item_view(item)),
        ServerMessage::Status { status, message, pending_messages } => EventView::Status(status, message@, pending_messages),
        ServerMessage::QueueChanged { steering, follow_up } => EventView::QueueChanged(texts_view(steering@), texts_view(follow_up@)),
        ServerMessage::SessionChanged { session_id, session_name } => EventView::SessionChanged(
            opt_view(session_id),
            opt_view(session_name),
        ),
        ServerMessage::ModelChanged { model, thinking_level } => EventView::ModelChanged(opt_model_view(model), thinking_level),
        ServerMessage::Models { models } => EventView::Models(models@.map_values(|m: ModelSummary| model_view(m))),
        ServerMessage::Commands { commands } => EventView::Commands(commands@.map_values(|c: PiCommand| command_view(c))),
        ServerMessage::SessionStats { stats } => EventView::SessionStats(stats),
        ServerMessage::ExtensionUiRequest { request } => EventView::ExtensionUiRequest(request_view(request)),
        ServerMessage::ExtensionSurfaces { title, statuses, widgets } => EventView::ExtensionSurfaces(
            opt_view(title),
            pairs_view(statuses@),
            widgets@.map_values(|w: ExtensionWidget| widget_view(w)),
        ),
        ServerMessage::ComposerText { text } => EventView::ComposerText(text@),
        ServerMessage::ExportReady { filename, data_base64 } => EventView::ExportReady(filename@, data_base64@),
        ServerMessage::Error { error } => EventView::Error(error.code, error.message@),
        _ => EventView::Other,
    }
}
} // verus!
