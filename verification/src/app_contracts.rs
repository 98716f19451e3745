//! Runtime-neutral application contracts: errors, navigation targets and
//! workspace event identities.
use vstd::prelude::*;
use crate::language::is_lit;
use crate::text::chars_of;

verus! {

#[derive(Clone, Copy, Debug, PartialEq, Eq, Structural)]
pub enum AppErrorCode {
    Unsupported,
    InvalidInput,
    NotFound,
    Conflict,
    PermissionDenied,
    TooLarge,
    Offline,
    Cancelled,
    RateLimited,
    Internal,
}

#[derive(Clone, Copy, Debug, PartialEq, Eq, Structural)]
pub enum RetryAdvice {
    Never,
    Immediate,
    Backoff,
    AfterUserAction,
}

#[derive(Clone, Copy, Debug, PartialEq, Eq, Structural)]
pub enum ErrorSource {
    Application,
    Workspace,
    Files,
    Terminal,
    Git,
    Preview,
    Ai,
    Runtime,
}

#[derive(Clone, Debug, PartialEq, Eq)]
pub struct AppError {
    pub code: AppErrorCode,
    pub message: String,
    pub retry: RetryAdvice,
    pub source: ErrorSource,
}

impl AppError {
    pub fn new(code: AppErrorCode, message: &str, retry: RetryAdvice, source: ErrorSource) -> (r:
        Self)
        ensures
            r.code == code,
            r.message@ == message@,
            r.retry == retry,
            r.source == source,
    {
        AppError { code, message: message.to_owned(), retry, source }
    }

    /// An error for an operation the runtime does not offer; it is never retried.
    pub fn unsupported(message: &str, source: ErrorSource) -> (r: Self)
        ensures
            r.code == AppErrorCode::Unsupported,
            r.message@ == message@,
            r.retry == RetryAdvice::Never,
            r.source == source,
    {
        Self::new(AppErrorCode::Unsupported, message, RetryAdvice::Never, source)
    }

    /// The message shown for this error.
    pub fn to_string(&self) -> (r: String)
        ensures
            r@ == self.message@,
    {
        self.message.clone()
    }
}

/// Codes of errors reported by workspace file operations.
#[derive(Clone, Copy, Debug, PartialEq, Eq, Structural)]
pub enum WorkspaceErrorCode {
    InvalidPath,
    UnsupportedEncoding,
    OutsideAllowedRoot,
    PermissionDenied,
    RootOperationRejected,
    NotFound,
    AlreadyExists,
    Conflict,
    TooLarge,
    Unavailable,
    Internal,
}

/// An error reported by a workspace file operation.
#[derive(Clone, Debug, PartialEq, Eq)]
pub struct WorkspaceError {
    pub code: WorkspaceErrorCode,
    pub message: String,
}

impl WorkspaceError {
    pub fn new(code: WorkspaceErrorCode, message: &str) -> (r: Self)
        ensures
            r.code == code,
            r.message@ == message@,
    {
        WorkspaceError { code, message: message.to_owned() }
    }
}

/// The application code and retry advice for a workspace error code; the
/// message text plays no part.
pub open spec fn workspace_error_mapping(code: WorkspaceErrorCode) -> (AppErrorCode, RetryAdvice) {
    match code {
        WorkspaceErrorCode::InvalidPath | WorkspaceErrorCode::UnsupportedEncoding => (
            AppErrorCode::InvalidInput,
            RetryAdvice::Never,
        ),
        WorkspaceErrorCode::OutsideAllowedRoot
        | WorkspaceErrorCode::PermissionDenied
        | WorkspaceErrorCode::RootOperationRejected => (
            AppErrorCode::PermissionDenied,
            RetryAdvice::AfterUserAction,
        ),
        WorkspaceErrorCode::NotFound => (AppErrorCode::NotFound, RetryAdvice::Never),
        WorkspaceErrorCode::AlreadyExists | WorkspaceErrorCode::Conflict => (
            AppErrorCode::Conflict,
            RetryAdvice::AfterUserAction,
        ),
        WorkspaceErrorCode::TooLarge => (AppErrorCode::TooLarge, RetryAdvice::Never),
        WorkspaceErrorCode::Unavailable => (AppErrorCode::Offline, RetryAdvice::Backoff),
        WorkspaceErrorCode::Internal => (AppErrorCode::Internal, RetryAdvice::Backoff),
    }
}

impl From<WorkspaceError> for AppError {
    fn from(error: WorkspaceError) -> (r: Self) {
        let (code, retry) = match error.code {
            WorkspaceErrorCode::InvalidPath | WorkspaceErrorCode::UnsupportedEncoding => (
                AppErrorCode::InvalidInput,
                RetryAdvice::Never,
            ),
            WorkspaceErrorCode::OutsideAllowedRoot
            | WorkspaceErrorCode::PermissionDenied
            | WorkspaceErrorCode::RootOperationRejected => (
                AppErrorCode::PermissionDenied,
                RetryAdvice::AfterUserAction,
            ),
            WorkspaceErrorCode::NotFound => (AppErrorCode::NotFound, RetryAdvice::Never),
            WorkspaceErrorCode::AlreadyExists | WorkspaceErrorCode::Conflict => (
                AppErrorCode::Conflict,
                RetryAdvice::AfterUserAction,
            ),
            WorkspaceErrorCode::TooLarge => (AppErrorCode::TooLarge, RetryAdvice::Never),
            WorkspaceErrorCode::Unavailable => (AppErrorCode::Offline, RetryAdvice::Backoff),
            WorkspaceErrorCode::Internal => (AppErrorCode::Internal, RetryAdvice::Backoff),
        };
        AppError { code, message: error.message, retry, source: ErrorSource::Workspace }
    }
}

impl vstd::std_specs::convert::FromSpecImpl<WorkspaceError> for AppError {
    open spec fn obeys_from_spec() -> bool {
        true
    }

    open spec fn from_spec(error: WorkspaceError) -> AppError {
        AppError {
            code: workspace_error_mapping(error.code).0,
            message: error.message,
            retry: workspace_error_mapping(error.code).1,
            source: ErrorSource::Workspace,
        }
    }
}

#[derive(Clone, Copy, Debug, PartialEq, Eq, Structural)]
pub enum AiSettingsSection {
    General,
    ProviderAccounts,
    GlobalInstructions,
    PromptTemplates,
    Skills,
    Extensions,
}

impl Default for AiSettingsSection {
    fn default() -> (r: Self)
        ensures
            r == AiSettingsSection::General,
    {
        AiSettingsSection::General
    }
}

pub open spec fn section_label(section: AiSettingsSection) -> Seq<char> {
    match section {
        AiSettingsSection::General => "General"@,
        AiSettingsSection::ProviderAccounts => "Provider accounts"@,
        AiSettingsSection::GlobalInstructions => "Global instructions"@,
        AiSettingsSection::PromptTemplates => "Prompt templates"@,
        AiSettingsSection::Skills => "Skills"@,
        AiSettingsSection::Extensions => "Extensions"@,
    }
}

pub open spec fn section_slug(section: AiSettingsSection) -> Seq<char> {
    match section {
        AiSettingsSection::General => "general"@,
        AiSettingsSection::ProviderAccounts => "provider-accounts"@,
        AiSettingsSection::GlobalInstructions => "global-instructions"@,
        AiSettingsSection::PromptTemplates => "prompt-templates"@,
        AiSettingsSection::Skills => "skills"@,
        AiSettingsSection::Extensions => "extensions"@,
    }
}

/// The section named by a slug; unknown slugs name the general section.
pub open spec fn section_for_slug(slug: Seq<char>) -> AiSettingsSection {
    if slug == "provider-accounts"@ {
        AiSettingsSection::ProviderAccounts
    } else if slug == "global-instructions"@ {
        AiSettingsSection::GlobalInstructions
    } else if slug == "prompt-templates"@ {
        AiSettingsSection::PromptTemplates
    } else if slug == "skills"@ {
        AiSettingsSection::Skills
    } else if slug == "extensions"@ {
        AiSettingsSection::Extensions
    } else {
        AiSettingsSection::General
    }
}

impl AiSettingsSection {
    /// Every section, in display order.
    pub fn all() -> (r: [AiSettingsSection; 6])
        ensures
            r@ == seq![
                AiSettingsSection::General,
                AiSettingsSection::ProviderAccounts,
                AiSettingsSection::GlobalInstructions,
                AiSettingsSection::PromptTemplates,
                AiSettingsSection::Skills,
                AiSettingsSection::Extensions,
            ],
    {
        let r = [
            AiSettingsSection::General,
            AiSettingsSection::ProviderAccounts,
            AiSettingsSection::GlobalInstructions,
            AiSettingsSection::PromptTemplates,
            AiSettingsSection::Skills,
            AiSettingsSection::Extensions,
        ];
        proof {
            assert(r@ =~= seq![
                AiSettingsSection::General,
                AiSettingsSection::ProviderAccounts,
                AiSettingsSection::GlobalInstructions,
                AiSettingsSection::PromptTemplates,
                AiSettingsSection::Skills,
                AiSettingsSection::Extensions,
            ]);
        }
        r
    }

    pub fn label(self) -> (r: &'static str)
        ensures
            r@ == section_label(self),
    {
        match self {
            AiSettingsSection::General => "General",
            AiSettingsSection::ProviderAccounts => "Provider accounts",
            AiSettingsSection::GlobalInstructions => "Global instructions",
            AiSettingsSection::PromptTemplates => "Prompt templates",
            AiSettingsSection::Skills => "Skills",
            AiSettingsSection::Extensions => "Extensions",
        }
    }

    pub fn slug(self) -> (r: &'static str)
        ensures
            r@ == section_slug(self),
    {
        match self {
            AiSettingsSection::General => "general",
            AiSettingsSection::ProviderAccounts => "provider-accounts",
            AiSettingsSection::GlobalInstructions => "global-instructions",
            AiSettingsSection::PromptTemplates => "prompt-templates",
            AiSettingsSection::Skills => "skills",
            AiSettingsSection::Extensions => "extensions",
        }
    }

    /// The section named by a slug; unknown slugs name the general section.
    pub fn from_slug(section: &str) -> (r: Self)
        ensures
            r == section_for_slug(section@),
    {
        let s = chars_of(section);
        if is_lit(&s, "provider-accounts") {
            AiSettingsSection::ProviderAccounts
        } else if is_lit(&s, "global-instructions") {
            AiSettingsSection::GlobalInstructions
        } else if is_lit(&s, "prompt-templates") {
            AiSettingsSection::PromptTemplates
        } else if is_lit(&s, "skills") {
            AiSettingsSection::Skills
        } else if is_lit(&s, "extensions") {
            AiSettingsSection::Extensions
        } else {
            AiSettingsSection::General
        }
    }
}

/// Reading back the slug of a section gives the section.
pub proof fn section_slug_round_trips(section: AiSettingsSection)
    ensures
        section_for_slug(section_slug(section)) == section,
{
    reveal_strlit("general");
    reveal_strlit("provider-accounts");
    reveal_strlit("global-instructions");
    reveal_strlit("prompt-templates");
    reveal_strlit("skills");
    reveal_strlit("extensions");
    // The six slugs have six different lengths, so no two of them are equal.
    assert("general"@.len() == 7);
    assert("provider-accounts"@.len() == 17);
    assert("global-instructions"@.len() == 19);
    assert("prompt-templates"@.len() == 16);
    assert("skills"@.len() == 6);
    assert("extensions"@.len() == 10);
}

/// The identity of the operation that caused a workspace change.
#[derive(Clone, Debug, PartialEq, Eq, Hash)]
pub struct OperationId(pub String);

impl OperationId {
    pub fn new(value: &str) -> (r: Self)
        ensures
            r.0@ == value@,
    {
        OperationId(value.to_owned())
    }
}

#[derive(Clone, Copy, Debug, PartialEq, Eq, Structural)]
pub enum ChangeOrigin {
    Files,
    Terminal,
    Git,
    Ai,
    External,
}

#[derive(Clone, Copy, Debug, PartialEq, Eq, Structural)]
pub enum WorkspaceEventPublishError {
    EmptyChanges,
    WorkspaceMismatch,
}

impl WorkspaceEventPublishError {
    /// The message shown for this error.
    pub fn to_string(&self) -> (r: String)
        ensures
            r@ == (match self {
                WorkspaceEventPublishError::EmptyChanges => "workspace change events cannot be empty"@,
                WorkspaceEventPublishError::WorkspaceMismatch => "all changes must belong to the event workspace"@,
            }),
    {
        match self {
            WorkspaceEventPublishError::EmptyChanges => "workspace change events cannot be empty".to_owned(),
            WorkspaceEventPublishError::WorkspaceMismatch => "all changes must belong to the event workspace".to_owned(),
        }
    }
}

/// Whether a list of changes, given by the workspace each belongs to, may
/// be published as one event of `workspace_id`: it must hold a change, and
/// every change must belong to that workspace.
pub fn check_changes(workspace_id: &str, change_workspaces: &Vec<String>) -> (r: Result<(), WorkspaceEventPublishError>)
    ensures
        change_workspaces@.len() == 0 ==> r == Err::<(), WorkspaceEventPublishError>(WorkspaceEventPublishError::EmptyChanges),
        change_workspaces@.len() > 0 ==> (r is Ok <==> forall|i: int| 0 <= i < change_workspaces@.len() ==> #[trigger] change_workspaces@[i]@ == workspace_id@),
        change_workspaces@.len() > 0 && r is Err ==> r == Err::<(), WorkspaceEventPublishError>(WorkspaceEventPublishError::WorkspaceMismatch),
{
    if change_workspaces.len() == 0 {
        return Err(WorkspaceEventPublishError::EmptyChanges);
    }
    let target = chars_of(workspace_id);
    let mut i: usize = 0;
    while i < change_workspaces.len()
        invariant
            i <= change_workspaces@.len(),
            target@ == workspace_id@,
            forall|j: int| 0 <= j < i ==> #[trigger] change_workspaces@[j]@ == workspace_id@,
        decreases change_workspaces@.len() - i,
    {
        if !crate::text::seq_eq(&chars_of(change_workspaces[i].as_str()), &target) {
            return Err(WorkspaceEventPublishError::WorkspaceMismatch);
        }
        i = i + 1;
    }
    Ok(())
}

/// Numbers the events of a workspace event bus: the first is 1, and each
/// published event takes the next number, which stops at `u64::MAX`.
#[derive(Debug, PartialEq, Eq)]
pub struct EventSequencer {
    pub next_sequence: u64,
}

/// The number after `sequence`, held at `u64::MAX`.
pub open spec fn after_sequence(sequence: u64) -> u64 {
    if sequence < u64::MAX {
        (sequence + 1) as u64
    } else {
        u64::MAX
    }
}

impl EventSequencer {
    pub fn new() -> (r: Self)
        ensures
            r.next_sequence == 1,
    {
        EventSequencer { next_sequence: 1 }
    }

    /// Takes the number of the next event.
    pub fn stamp(&mut self) -> (r: u64)
        ensures
            r == old(self).next_sequence,
            final(self).next_sequence == after_sequence(old(self).next_sequence),
    {
        let r = self.next_sequence;
        if self.next_sequence < u64::MAX {
            self.next_sequence = self.next_sequence + 1;
        }
        r
    }

    /// Publishes a list of changes, given by the workspace each belongs to,
    /// as one event of `workspace_id` (`publish_changes`): when the list may
    /// be published, the event takes the next number; otherwise nothing is
    /// numbered and the error says why.
    pub fn publish_changes(&mut self, workspace_id: &str, change_workspaces: &Vec<String>) -> (r: Result<u64, WorkspaceEventPublishError>)
        ensures
            change_workspaces@.len() == 0 ==> r == Err::<u64, WorkspaceEventPublishError>(WorkspaceEventPublishError::EmptyChanges),
            change_workspaces@.len() > 0 ==> (r is Ok <==> forall|i: int| 0 <= i < change_workspaces@.len() ==> #[trigger] change_workspaces@[i]@ == workspace_id@),
            change_workspaces@.len() > 0 && r is Err ==> r == Err::<u64, WorkspaceEventPublishError>(WorkspaceEventPublishError::WorkspaceMismatch),
            r is Ok ==> r == Ok::<u64, WorkspaceEventPublishError>(old(self).next_sequence)
                && final(self).next_sequence == after_sequence(old(self).next_sequence),
            r is Err ==> *final(self) == *old(self),
    {
        match check_changes(workspace_id, change_workspaces) {
            Ok(()) => Ok(self.stamp()),
            Err(e) => Err(e),
        }
    }

    /// Publishes a request that every subscriber reload the workspace
    /// (`publish_resync`); it always takes the next number.
    pub fn publish_resync(&mut self) -> (r: u64)
        ensures
            r == old(self).next_sequence,
            final(self).next_sequence == after_sequence(old(self).next_sequence),
    {
        self.stamp()
    }
}

/// Events published one after the other carry rising numbers until the
/// numbers run out.
pub proof fn event_numbers_rise(sequence: u64)
    requires
        sequence < u64::MAX,
    ensures
        sequence < after_sequence(sequence),
{
}

/// What became of an event offered to a subscriber's queue.
#[derive(Clone, Copy, Debug, PartialEq, Eq, Structural)]
pub enum SendOutcome {
    Sent,
    Full,
    Disconnected,
}

/// What a publish does for one subscriber.
#[derive(Clone, Copy, Debug, PartialEq, Eq, Structural)]
pub enum SubscriberAction {
    /// The subscriber has gone: it is dropped.
    Drop,
    /// The subscriber already missed events: it misses this one too.
    Miss,
    /// The event is offered to the subscriber's queue.
    Offer,
}

/// What a publish does for a subscriber whose queue is closed or not, and
/// which has missed `missed` events it has not been told of.
pub fn subscriber_action(closed: bool, missed: usize) -> (r: SubscriberAction)
    ensures
        r == (if closed {
            SubscriberAction::Drop
        } else if missed > 0 {
            SubscriberAction::Miss
        } else {
            SubscriberAction::Offer
        }),
{
    if closed {
        SubscriberAction::Drop
    } else if missed > 0 {
        SubscriberAction::Miss
    } else {
        SubscriberAction::Offer
    }
}

/// The count of missed events after a publish, or `None` when the
/// subscriber is dropped: a missed or refused event is counted, one offered
/// and taken leaves the count, and a subscriber that has gone is dropped.
pub fn missed_after_publish(action: SubscriberAction, outcome: SendOutcome, missed: usize) -> (r: Option<usize>)
    ensures
        r == (match action {
            SubscriberAction::Drop => None,
            SubscriberAction::Miss => Some(if missed < usize::MAX { (missed + 1) as usize } else { usize::MAX }),
            SubscriberAction::Offer => match outcome {
                SendOutcome::Sent => Some(missed),
                SendOutcome::Full => Some(if missed < usize::MAX { (missed + 1) as usize } else { usize::MAX }),
                SendOutcome::Disconnected => None,
            },
        }),
{
    let counted = if missed < usize::MAX {
        missed + 1
    } else {
        usize::MAX
    };
    match action {
        SubscriberAction::Drop => None,
        SubscriberAction::Miss => Some(counted),
        SubscriberAction::Offer => match outcome {
            SendOutcome::Sent => Some(missed),
            SendOutcome::Full => Some(counted),
            SendOutcome::Disconnected => None,
        },
    }
}

/// What a subscriber is told next: that it must reload, with the count of
/// the events it missed, when it missed any, and otherwise nothing.
pub fn resync_notice(missed: usize) -> (r: Option<usize>)
    ensures
        r == (if missed == 0 {
            None::<usize>
        } else {
            Some(missed)
        }),
{
    if missed == 0 {
        None
    } else {
        Some(missed)
    }
}

} // verus!
