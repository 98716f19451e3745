//! The chat protocol between the client and the agent host: message shapes and
//! the bounds every incoming message must respect.
use vstd::prelude::*;
use crate::text::{
    byte_len, chars_of, is_blank, push_char, push_str, starts_with, trim, trim_bounds,
    utf8_width, char_width,
};

verus! {

/// Version of the chat protocol.
pub const PROTOCOL_VERSION: u16 = 8;

/// Largest prompt, in bytes.
pub const MAX_PROMPT_BYTES: usize = 131072;

/// Longest session name, in characters.
pub const MAX_SESSION_NAME_CHARS: usize = 80;

/// Most images attached to one prompt.
pub const MAX_PROMPT_IMAGES: usize = 5;

/// Largest image, in bytes.
pub const MAX_IMAGE_BYTES: u64 = 8388608;

/// Largest total size of the images of one prompt, in bytes.
pub const MAX_TOTAL_IMAGE_BYTES: u64 = 16777216;

#[derive(Clone, Copy, Debug, PartialEq, Eq, Structural)]
pub enum PromptDelivery {
    Prompt,
    Steer,
    FollowUp,
}

impl Default for PromptDelivery {
    fn default() -> (r: Self)
        ensures
            r == PromptDelivery::Prompt,
    {
        PromptDelivery::Prompt
    }
}

#[derive(Clone, Copy, Debug, PartialEq, Eq, Structural)]
pub enum ThinkingLevel {
    Off,
    Minimal,
    Low,
    Medium,
    High,
    Xhigh,
    Max,
}

impl Default for ThinkingLevel {
    fn default() -> (r: Self)
        ensures
            r == ThinkingLevel::Medium,
    {
        ThinkingLevel::Medium
    }
}

/// The protocol name of a thinking level.
pub open spec fn thinking_level_name(level: ThinkingLevel) -> Seq<char> {
    match level {
        ThinkingLevel::Off => "off"@,
        ThinkingLevel::Minimal => "minimal"@,
        ThinkingLevel::Low => "low"@,
        ThinkingLevel::Medium => "medium"@,
        ThinkingLevel::High => "high"@,
        ThinkingLevel::Xhigh => "xhigh"@,
        ThinkingLevel::Max => "max"@,
    }
}

/// All levels, from no thinking to the most.
pub open spec fn all_levels() -> Seq<ThinkingLevel> {
    seq![
        ThinkingLevel::Off,
        ThinkingLevel::Minimal,
        ThinkingLevel::Low,
        ThinkingLevel::Medium,
        ThinkingLevel::High,
        ThinkingLevel::Xhigh,
        ThinkingLevel::Max,
    ]
}

/// The levels a reasoning model offers unless it says otherwise.
pub open spec fn standard_levels() -> Seq<ThinkingLevel> {
    seq![
        ThinkingLevel::Off,
        ThinkingLevel::Minimal,
        ThinkingLevel::Low,
        ThinkingLevel::Medium,
        ThinkingLevel::High,
    ]
}

/// How much thinking a level asks for: its place in `all_levels`.
pub open spec fn level_rank(level: ThinkingLevel) -> int {
    match level {
        ThinkingLevel::Off => 0,
        ThinkingLevel::Minimal => 1,
        ThinkingLevel::Low => 2,
        ThinkingLevel::Medium => 3,
        ThinkingLevel::High => 4,
        ThinkingLevel::Xhigh => 5,
        ThinkingLevel::Max => 6,
    }
}

/// The last of `levels` that asks for no more thinking than `requested`.
pub open spec fn last_at_most(levels: Seq<ThinkingLevel>, requested: ThinkingLevel) -> Option<ThinkingLevel>
    decreases levels.len(),
{
    if levels.len() == 0 {
        None
    } else if level_rank(levels.last()) <= level_rank(requested) {
        Some(levels.last())
    } else {
        last_at_most(levels.drop_last(), requested)
    }
}

/// The level a model runs at when `requested` is asked of it: the most
/// thinking it offers up to `requested`, else the least it offers, else `Off`.
/// The levels are listed from least to most thinking.
pub open spec fn effective_level(levels: Seq<ThinkingLevel>, requested: ThinkingLevel) -> ThinkingLevel {
    match last_at_most(levels, requested) {
        Some(level) => level,
        None => if levels.len() > 0 {
            levels[0]
        } else {
            ThinkingLevel::Off
        },
    }
}

/// Levels listed from least to most thinking, none twice.
pub open spec fn rising(levels: Seq<ThinkingLevel>) -> bool {
    forall|i: int, j: int| 0 <= i < j < levels.len() ==> level_rank(#[trigger] levels[i]) < level_rank(#[trigger] levels[j])
}

proof fn lemma_last_at_most_listed(levels: Seq<ThinkingLevel>, requested: ThinkingLevel)
    ensures
        last_at_most(levels, requested) matches Some(level) ==> (levels.contains(level) && level_rank(level)
            <= level_rank(requested)),
    decreases levels.len(),
{
    if levels.len() > 0 && level_rank(levels.last()) > level_rank(requested) {
        lemma_last_at_most_listed(levels.drop_last(), requested);
        if let Some(level) = last_at_most(levels, requested) {
            let k = choose|k: int| 0 <= k < levels.drop_last().len() && levels.drop_last()[k] == level;
            assert(levels[k] == level);
        }
    } else if levels.len() > 0 {
        assert(levels[levels.len() - 1] == levels.last());
    }
}

proof fn lemma_last_at_most_keeps(levels: Seq<ThinkingLevel>, requested: ThinkingLevel)
    requires
        rising(levels),
        levels.contains(requested),
    ensures
        last_at_most(levels, requested) == Some(requested),
    decreases levels.len(),
{
    let i = choose|i: int| 0 <= i < levels.len() && levels[i] == requested;
    let n = levels.len() - 1;
    if i < n {
        assert(level_rank(levels[i]) < level_rank(levels[n]));
        assert(levels.drop_last()[i] == requested);
        assert forall|a: int, b: int| 0 <= a < b < levels.drop_last().len() implies level_rank(
            #[trigger] levels.drop_last()[a],
        ) < level_rank(#[trigger] levels.drop_last()[b]) by {
            assert(levels[a] == levels.drop_last()[a] && levels[b] == levels.drop_last()[b]);
        }
        lemma_last_at_most_keeps(levels.drop_last(), requested);
    }
}

/// The level a model runs at is one it offers, whenever it offers any.
pub proof fn effective_level_is_offered(levels: Seq<ThinkingLevel>, requested: ThinkingLevel)
    requires
        levels.len() > 0,
    ensures
        levels.contains(effective_level(levels, requested)),
{
    lemma_last_at_most_listed(levels, requested);
    if last_at_most(levels, requested) is None {
        assert(levels[0] == levels[0]);
    }
}

/// The level a model runs at never asks for more thinking than requested,
/// unless every level it offers does.
pub proof fn effective_level_stays_within_request(levels: Seq<ThinkingLevel>, requested: ThinkingLevel)
    requires
        levels.len() > 0,
        exists|k: int| 0 <= k < levels.len() && level_rank(#[trigger] levels[k]) <= level_rank(requested),
    ensures
        level_rank(effective_level(levels, requested)) <= level_rank(requested),
    decreases levels.len(),
{
    lemma_last_at_most_listed(levels, requested);
    let k = choose|k: int| 0 <= k < levels.len() && level_rank(#[trigger] levels[k]) <= level_rank(requested);
    if level_rank(levels.last()) > level_rank(requested) {
        assert(k < levels.len() - 1);
        assert(levels.drop_last()[k] == levels[k]);
        effective_level_stays_within_request(levels.drop_last(), requested);
        lemma_last_at_most_listed(levels.drop_last(), requested);
    }
}

/// A model that offers the requested level, its levels listed from least to
/// most thinking, runs at exactly that level.
pub proof fn offered_level_is_kept(levels: Seq<ThinkingLevel>, requested: ThinkingLevel)
    requires
        rising(levels),
        levels.contains(requested),
    ensures
        effective_level(levels, requested) == requested,
{
    lemma_last_at_most_keeps(levels, requested);
}

impl ThinkingLevel {
    /// All levels, from no thinking to the most.
    pub fn all() -> (r: [ThinkingLevel; 7])
        ensures
            r@ == seq![
                ThinkingLevel::Off,
                ThinkingLevel::Minimal,
                ThinkingLevel::Low,
                ThinkingLevel::Medium,
                ThinkingLevel::High,
                ThinkingLevel::Xhigh,
                ThinkingLevel::Max,
            ],
    {
        let r = [
            ThinkingLevel::Off,
            ThinkingLevel::Minimal,
            ThinkingLevel::Low,
            ThinkingLevel::Medium,
            ThinkingLevel::High,
            ThinkingLevel::Xhigh,
            ThinkingLevel::Max,
        ];
        proof {
            assert(r@ =~= seq![
                ThinkingLevel::Off,
                ThinkingLevel::Minimal,
                ThinkingLevel::Low,
                ThinkingLevel::Medium,
                ThinkingLevel::High,
                ThinkingLevel::Xhigh,
                ThinkingLevel::Max,
            ]);
        }
        r
    }

    /// The levels a reasoning model offers when it names none: no thinking up
    /// to `High`.
    pub fn standard() -> (r: [ThinkingLevel; 5])
        ensures
            r@ == standard_levels(),
    {
        let r = [
            ThinkingLevel::Off,
            ThinkingLevel::Minimal,
            ThinkingLevel::Low,
            ThinkingLevel::Medium,
            ThinkingLevel::High,
        ];
        proof {
            assert(r@ =~= standard_levels());
        }
        r
    }

    /// The one level of a model that does not reason.
    pub fn off_only() -> (r: [ThinkingLevel; 1])
        ensures
            r@ == seq![ThinkingLevel::Off],
    {
        let r = [ThinkingLevel::Off];
        proof {
            assert(r@ =~= seq![ThinkingLevel::Off]);
        }
        r
    }

    fn rank(self) -> (r: u8)
        ensures
            r == level_rank(self),
    {
        match self {
            ThinkingLevel::Off => 0,
            ThinkingLevel::Minimal => 1,
            ThinkingLevel::Low => 2,
            ThinkingLevel::Medium => 3,
            ThinkingLevel::High => 4,
            ThinkingLevel::Xhigh => 5,
            ThinkingLevel::Max => 6,
        }
    }

    pub fn as_str(self) -> (r: &'static str)
        ensures
            r@ == thinking_level_name(self),
    {
        match self {
            ThinkingLevel::Off => "off",
            ThinkingLevel::Minimal => "minimal",
            ThinkingLevel::Low => "low",
            ThinkingLevel::Medium => "medium",
            ThinkingLevel::High => "high",
            ThinkingLevel::Xhigh => "xhigh",
            ThinkingLevel::Max => "max",
        }
    }
}

#[derive(Clone, Copy, Debug, PartialEq, Eq, Structural)]
pub enum AgentStatus {
    Starting,
    Ready,
    Working,
    Compacting,
    Stopped,
    Failed,
}

#[derive(Clone, Debug, PartialEq, Eq)]
pub struct AgentSessionSummary {
    pub id: String,
    pub title: String,
    pub updated_at_ms: u64,
    pub status: AgentStatus,
    pub status_message: String,
    pub running: bool,
}

#[derive(Clone, Copy, Debug, PartialEq, Eq, Structural)]
pub enum ConversationMatchRole {
    User,
    Assistant,
}

#[derive(Clone, Debug, PartialEq, Eq)]
pub struct ConversationSearchResult {
    pub session_id: String,
    pub title: String,
    pub updated_at_ms: u64,
    pub role: ConversationMatchRole,
    pub snippet: String,
    pub match_count: usize,
}

#[derive(Clone, Copy, Debug, PartialEq, Eq, Structural)]
pub enum ItemStatus {
    Streaming,
    Running,
    Complete,
    Failed,
    Stopped,
}

#[derive(Clone, Copy, Debug, Default, PartialEq, Eq, Structural)]
pub struct ModelCost {
    /// Catalog rates in micro-USD per million tokens.
    pub input: u64,
    pub output: u64,
    pub cache_read: u64,
    pub cache_write: u64,
    pub has_paid_tier: bool,
}

impl ModelCost {
    /// Whether every rate is zero and no paid tier exists.
    pub fn is_free(&self) -> (r: bool)
        ensures
            r == (self.input == 0 && self.output == 0 && self.cache_read == 0 && self.cache_write
                == 0 && !self.has_paid_tier),
    {
        self.input == 0 && self.output == 0 && self.cache_read == 0 && self.cache_write == 0
            && !self.has_paid_tier
    }
}

#[derive(Clone, Debug, PartialEq, Eq)]
pub struct ModelSummary {
    pub provider: String,
    pub id: String,
    pub name: String,
    pub reasoning: bool,
    pub thinking_levels: Vec<ThinkingLevel>,
    pub supports_images: bool,
    pub context_window: u64,
    pub max_tokens: u64,
    pub cost: ModelCost,
}

impl ModelSummary {
    /// The level this model runs at when `requested` is asked of it.
    pub fn effective_thinking_level(&self, requested: ThinkingLevel) -> (r: ThinkingLevel)
        ensures
            r == effective_level(self.thinking_levels@, requested),
    {
        let levels = &self.thinking_levels;
        let mut k: usize = levels.len();
        proof {
            assert(levels@.take(k as int) =~= levels@);
        }
        while k > 0
            invariant
                k <= levels@.len(),
                levels@ == self.thinking_levels@,
                last_at_most(levels@, requested) == last_at_most(levels@.take(k as int), requested),
            decreases k,
        {
            let level = levels[k - 1];
            proof {
                assert(levels@.take(k as int).drop_last() =~= levels@.take(k - 1));
                assert(levels@.take(k as int).last() == level);
            }
            if level.rank() <= requested.rank() {
                proof {
                    assert(last_at_most(levels@.take(k as int), requested) == Some(level));
                }
                return level;
            }
            k = k - 1;
        }
        proof {
            assert(levels@.take(0) =~= Seq::<ThinkingLevel>::empty());
        }
        if levels.len() > 0 {
            levels[0]
        } else {
            ThinkingLevel::Off
        }
    }

    /// A key unique to the provider and model: both joined by a unit separator.
    pub fn key(&self) -> (r: String)
        ensures
            r@ == self.provider@ + seq!['\u{1f}'] + self.id@,
    {
        let mut r = self.provider.clone();
        push_char(&mut r, '\u{1f}');
        push_str(&mut r, self.id.as_str());
        r
    }
}

#[derive(Clone, Debug, PartialEq, Eq)]
pub struct ImageAttachment {
    pub name: String,
    pub mime_type: String,
    pub size: u64,
    pub data: String,
}

impl ImageAttachment {
    /// The image as a `data:` URL.
    pub fn data_url(&self) -> (r: String)
        ensures
            r@ == "data:"@ + self.mime_type@ + ";base64,"@ + self.data@,
    {
        let mut r = "data:".to_owned();
        push_str(&mut r, self.mime_type.as_str());
        push_str(&mut r, ";base64,");
        push_str(&mut r, self.data.as_str());
        r
    }
}

#[derive(Clone, Debug, PartialEq, Eq)]
pub struct PiCommand {
    pub name: String,
    pub description: String,
    pub source: String,
    pub location: Option<String>,
    pub argument_hint: Option<String>,
    pub invocation: Option<String>,
}

#[derive(Clone, Copy, Debug, Default, PartialEq, Eq, Structural)]
pub struct TokenUsage {
    pub input: u64,
    pub output: u64,
    pub cache_read: u64,
    pub cache_write: u64,
    pub total: u64,
}

#[derive(Clone, Copy, Debug, Default, PartialEq, Eq, Structural)]
pub struct SessionStats {
    pub user_messages: u64,
    pub assistant_messages: u64,
    pub tool_calls: u64,
    pub total_messages: u64,
    pub tokens: TokenUsage,
    pub cost_microusd: u64,
    pub context_tokens: Option<u64>,
    pub context_window: Option<u64>,
    pub context_percent: Option<u8>,
}

#[derive(Clone, Debug, PartialEq, Eq)]
pub struct ExtensionUiRequest {
    pub id: String,
    pub method: String,
    pub title: String,
    pub message: String,
    pub options: Vec<String>,
    pub placeholder: Option<String>,
    pub prefill: Option<String>,
}

#[derive(Clone, Debug, PartialEq, Eq)]
pub struct ExtensionWidget {
    pub key: String,
    pub lines: Vec<String>,
    pub placement: String,
}

#[derive(Debug, PartialEq, Eq)]
pub enum ClientMessage {
    Hello { version: u16 },
    CreateSession,
    SelectSession { session_id: String },
    DeleteSession { session_id: String },
    RenameSession { session_id: String, name: String },
    SessionAction { session_id: String, action: Box<ClientMessage> },
    Prompt { text: String, delivery: PromptDelivery, images: Vec<ImageAttachment> },
    ForkMessage { entry_id: String },
    Compact { custom_instructions: Option<String> },
    CloneSession,
    ExportHtml,
    Abort,
    SetModel { provider: String, model_id: String },
    SetThinkingLevel { level: ThinkingLevel },
    Refresh,
    ExtensionUiResponse {
        request_id: String,
        value: Option<String>,
        confirmed: Option<bool>,
        cancelled: bool,
    },
    Ping { nonce: u64 },
}

#[derive(Clone, Copy, Debug, PartialEq, Eq, Structural)]
pub enum AgentErrorCode {
    InvalidProtocol,
    InvalidRequest,
    Unavailable,
    ProcessExited,
    Internal,
}

#[derive(Clone, Debug, PartialEq, Eq)]
pub struct AgentError {
    pub code: AgentErrorCode,
    pub message: String,
}

impl AgentError {
    pub fn new(code: AgentErrorCode, message: &str) -> (r: Self)
        ensures
            r.code == code,
            r.message@ == message@,
    {
        AgentError { code, message: message.to_owned() }
    }
}

/// Whether a text has no characters other than white space.
pub open spec fn blank(s: Seq<char>) -> bool {
    trim(s).len() == 0
}

/// Whether an attachment breaks the per-image bounds.
pub open spec fn bad_image(image: ImageAttachment) -> bool {
    image.size > MAX_IMAGE_BYTES || !starts_with(image.mime_type@, "image/"@) || image.data@.len()
        == 0
}

/// Sum of the attachment sizes.
pub open spec fn total_image_bytes(images: Seq<ImageAttachment>) -> nat
    decreases images.len(),
{
    if images.len() == 0 {
        0
    } else {
        total_image_bytes(images.drop_last()) + images.last().size as nat
    }
}

/// Session actions that may be wrapped in `SessionAction`.
pub open spec fn is_session_action(m: ClientMessage) -> bool {
    m is Prompt || m is ForkMessage || m is Compact || m is CloneSession || m is ExportHtml
        || m is Abort || m is SetModel || m is SetThinkingLevel || m is Refresh
        || m is ExtensionUiResponse
}

/// The error, as code and message, for an invalid incoming message.
pub open spec fn validation_error(m: ClientMessage) -> Option<(AgentErrorCode, Seq<char>)>
    decreases m,
{
    match m {
        ClientMessage::Hello { version } if version != PROTOCOL_VERSION => Some(
            (AgentErrorCode::InvalidProtocol, "Unsupported AI protocol version"@),
        ),
        ClientMessage::Prompt { text, images, .. } if (blank(text@) && images@.len() == 0)
            || byte_len(text@) > MAX_PROMPT_BYTES => Some(
            (AgentErrorCode::InvalidRequest, "Prompt must be between 1 byte and 128 KiB"@),
        ),
        ClientMessage::Prompt { images, .. } if images@.len() > MAX_PROMPT_IMAGES || (exists|k: int|
            0 <= k < images@.len() && bad_image(#[trigger] images@[k])) || total_image_bytes(
            images@,
        ) > MAX_TOTAL_IMAGE_BYTES => Some(
            (AgentErrorCode::InvalidRequest, "Attach up to 5 images, 8 MiB each and 16 MiB total"@),
        ),
        ClientMessage::ForkMessage { entry_id } if blank(entry_id@) => Some(
            (AgentErrorCode::InvalidRequest, "A Pi message entry id is required"@),
        ),
        ClientMessage::SetModel { provider, model_id } if blank(provider@) || blank(model_id@) => Some(
            (AgentErrorCode::InvalidRequest, "A Pi provider and model are required"@),
        ),
        ClientMessage::SelectSession { session_id } if blank(session_id@) => Some(
            (AgentErrorCode::InvalidRequest, "A Pi session id is required"@),
        ),
        ClientMessage::DeleteSession { session_id } if blank(session_id@) => Some(
            (AgentErrorCode::InvalidRequest, "A Pi session id is required"@),
        ),
        ClientMessage::RenameSession { session_id, .. } if blank(session_id@) => Some(
            (AgentErrorCode::InvalidRequest, "A Pi session id is required"@),
        ),
        ClientMessage::SessionAction { session_id, .. } if blank(session_id@) => Some(
            (AgentErrorCode::InvalidRequest, "A Pi session id is required"@),
        ),
        ClientMessage::RenameSession { name, .. } if blank(name@) || trim(name@).len()
            > MAX_SESSION_NAME_CHARS => Some(
            (
                AgentErrorCode::InvalidRequest,
                "A session name between 1 and 80 characters is required"@,
            ),
        ),
        ClientMessage::SessionAction { action, .. } => if !is_session_action(*action) {
            Some((AgentErrorCode::InvalidRequest, "Unsupported Pi session action"@))
        } else {
            validation_error(*action)
        },
        _ => None,
    }
}

/// Whether `s` has more than `limit` bytes in UTF-8.
fn exceeds_bytes(s: &str, limit: usize) -> (r: bool)
    ensures
        r == (byte_len(s@) > limit),
{
    let mut total: usize = 0;
    let mut i: usize = 0;
    let ghost cs = s@;
    for c in it: s.chars()
        invariant
            it.seq() == s@,
            total == crate::text::byte_offset(s@, it.index() as int),
            total <= limit,
    {
        proof {
            crate::text::lemma_byte_offset_step(s@, it.index() as int);
        }
        let w = char_width(c);
        if w > limit - total {
            proof {
                crate::text::lemma_byte_offset_mono(s@, it.index() + 1, s@.len() as int);
                crate::text::lemma_byte_offset_full(s@);
            }
            return true;
        }
        total = total + w;
    }
    proof {
        crate::text::lemma_byte_offset_full(s@);
    }
    false
}

fn blank_text(s: &String) -> (r: bool)
    ensures
        r == blank(s@),
{
    let c = chars_of(s.as_str());
    is_blank(&c)
}

fn images_invalid(images: &Vec<ImageAttachment>) -> (r: bool)
    ensures
        r == (images@.len() > MAX_PROMPT_IMAGES || (exists|k: int|
            0 <= k < images@.len() && bad_image(#[trigger] images@[k])) || total_image_bytes(
            images@,
        ) > MAX_TOTAL_IMAGE_BYTES),
{
    if images.len() > MAX_PROMPT_IMAGES {
        return true;
    }
    let prefix = chars_of("image/");
    let mut i: usize = 0;
    let mut total: u64 = 0;
    while i < images.len()
        invariant
            i <= images@.len() <= MAX_PROMPT_IMAGES,
            prefix@ == "image/"@,
            forall|k: int| 0 <= k < i ==> !bad_image(#[trigger] images@[k]),
            total == total_image_bytes(images@.take(i as int)),
            total <= i * MAX_IMAGE_BYTES,
        decreases images@.len() - i,
    {
        let image = &images[i];
        let mime = chars_of(image.mime_type.as_str());
        if image.size > MAX_IMAGE_BYTES || !crate::text::seq_starts_with(&mime, &prefix)
            || image.data.as_str().is_empty() {
            proof {
                assert(bad_image(images@[i as int]));
            }
            return true;
        }
        proof {
            assert(images@.take(i + 1).drop_last() =~= images@.take(i as int));
        }
        total = total + image.size;
        i = i + 1;
    }
    proof {
        assert(images@.take(i as int) =~= images@);
    }
    total > MAX_TOTAL_IMAGE_BYTES
}

impl ClientMessage {
    /// Validates allocation bounds and required fields of an incoming message.
    pub fn validate(&self) -> (r: Result<(), AgentError>)
        ensures
            match r {
                Ok(_) => validation_error(*self) is None,
                Err(e) => validation_error(*self) == Some((e.code, e.message@)),
            },
        decreases self,
    {
        match self {
            ClientMessage::Hello { version } => {
                if *version != PROTOCOL_VERSION {
                    return Err(
                        AgentError::new(
                            AgentErrorCode::InvalidProtocol,
                            "Unsupported AI protocol version",
                        ),
                    );
                }
                Ok(())
            },
            ClientMessage::Prompt { text, images, .. } => {
                if (blank_text(text) && images.len() == 0) || exceeds_bytes(
                    text.as_str(),
                    MAX_PROMPT_BYTES,
                ) {
                    return Err(
                        AgentError::new(
                            AgentErrorCode::InvalidRequest,
                            "Prompt must be between 1 byte and 128 KiB",
                        ),
                    );
                }
                if images_invalid(images) {
                    return Err(
                        AgentError::new(
                            AgentErrorCode::InvalidRequest,
                            "Attach up to 5 images, 8 MiB each and 16 MiB total",
                        ),
                    );
                }
                Ok(())
            },
            ClientMessage::ForkMessage { entry_id } => {
                if blank_text(entry_id) {
                    return Err(
                        AgentError::new(
                            AgentErrorCode::InvalidRequest,
                            "A Pi message entry id is required",
                        ),
                    );
                }
                Ok(())
            },
            ClientMessage::SetModel { provider, model_id } => {
                if blank_text(provider) || blank_text(model_id) {
                    return Err(
                        AgentError::new(
                            AgentErrorCode::InvalidRequest,
                            "A Pi provider and model are required",
                        ),
                    );
                }
                Ok(())
            },
            ClientMessage::SelectSession { session_id } | ClientMessage::DeleteSession {
                session_id,
            } => {
                if blank_text(session_id) {
                    return Err(session_id_required());
                }
                Ok(())
            },
            ClientMessage::RenameSession { session_id, name } => {
                if blank_text(session_id) {
                    return Err(session_id_required());
                }
                let c = chars_of(name.as_str());
                let (a, b) = trim_bounds(&c);
                if a == b || b - a > MAX_SESSION_NAME_CHARS {
                    return Err(
                        AgentError::new(
                            AgentErrorCode::InvalidRequest,
                            "A session name between 1 and 80 characters is required",
                        ),
                    );
                }
                Ok(())
            },
            ClientMessage::SessionAction { session_id, action } => {
                if blank_text(session_id) {
                    return Err(session_id_required());
                }
                let allowed = match &**action {
                    ClientMessage::Prompt { .. }
                    | ClientMessage::ForkMessage { .. }
                    | ClientMessage::Compact { .. }
                    | ClientMessage::CloneSession
                    | ClientMessage::ExportHtml
                    | ClientMessage::Abort
                    | ClientMessage::SetModel { .. }
                    | ClientMessage::SetThinkingLevel { .. }
                    | ClientMessage::Refresh
                    | ClientMessage::ExtensionUiResponse { .. } => true,
                    _ => false,
                };
                if !allowed {
                    return Err(
                        AgentError::new(
                            AgentErrorCode::InvalidRequest,
                            "Unsupported Pi session action",
                        ),
                    );
                }
                (&**action).validate()
            },
            _ => Ok(()),
        }
    }

    /// Validates that this is the first handshake message of the protocol.
    pub fn validate_handshake(&self) -> (r: Result<(), AgentError>)
        ensures
            match r {
                Ok(_) => self is Hello && validation_error(*self) is None,
                Err(e) => if self is Hello {
                    validation_error(*self) == Some((e.code, e.message@))
                } else {
                    e.code == AgentErrorCode::InvalidProtocol && e.message@
                        == "AI protocol handshake required"@
                },
            },
    {
        match self {
            ClientMessage::Hello { .. } => self.validate(),
            _ => Err(
                AgentError::new(AgentErrorCode::InvalidProtocol, "AI protocol handshake required"),
            ),
        }
    }
}

fn session_id_required() -> (e: AgentError)
    ensures
        e.code == AgentErrorCode::InvalidRequest,
        e.message@ == "A Pi session id is required"@,
{
    AgentError::new(AgentErrorCode::InvalidRequest, "A Pi session id is required")
}

} // verus!
