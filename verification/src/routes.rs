//! The app's pages and how it moves between them: the route of each
//! workspace section, the section and title a route shows, where a
//! navigation request leads, and how the runtime's state is presented.
use vstd::prelude::*;
use crate::app_contracts::{section_label, AiSettingsSection, AppError};
use crate::app_shell::{opt_view, AiQuery};
use crate::text::push_str;
use crate::notifications::{AppNotification, NotificationTarget};

verus! {

/// The sections of a workspace.
#[derive(Clone, Copy, Debug, PartialEq, Eq, Structural)]
pub enum WorkspaceSection {
    Files,
    Terminal,
    Git,
    Preview,
    Ai,
}

/// A place in a file: its path and an optional range.
#[derive(Clone, Debug, PartialEq, Eq)]
pub struct FileLocation {
    pub path: String,
    pub line: Option<usize>,
    pub column: Option<usize>,
    pub end_line: Option<usize>,
    pub end_column: Option<usize>,
}

/// What the files page shows: a file and a range in it, if any.
#[derive(Clone, Debug, PartialEq, Eq)]
pub struct FilesQuery {
    pub path: Option<String>,
    pub line: Option<usize>,
    pub column: Option<usize>,
    pub end_line: Option<usize>,
    pub end_column: Option<usize>,
}

impl FilesQuery {
    /// No file.
    pub fn none() -> (r: Self)
        ensures
            r.path is None && r.line is None && r.column is None && r.end_line is None && r.end_column is None,
    {
        FilesQuery { path: None, line: None, column: None, end_line: None, end_column: None }
    }
}

/// What the terminal page shows: a session, if any.
#[derive(Clone, Debug, PartialEq, Eq)]
pub struct TerminalQuery {
    pub session_id: Option<String>,
}

/// A page of the app.
#[derive(Clone, Debug, PartialEq, Eq)]
pub enum Route {
    Home,
    Files { slug: String, query: FilesQuery },
    Terminal { slug: String, query: TerminalQuery },
    Git { slug: String },
    Preview { slug: String },
    Ai { slug: String, query: AiQuery },
    AiSettings { slug: String, section: AiSettingsSection },
}

/// The route a section of a workspace opens on, with nothing selected.
pub open spec fn section_route(slug: Seq<char>, section: WorkspaceSection, route: Route) -> bool {
    match section {
        WorkspaceSection::Files => route matches Route::Files { slug: s, query } && s@ == slug && query.path is None
            && query.line is None && query.column is None && query.end_line is None && query.end_column is None,
        WorkspaceSection::Terminal => route matches Route::Terminal { slug: s, query } && s@ == slug
            && query.session_id is None,
        WorkspaceSection::Git => route matches Route::Git { slug: s } && s@ == slug,
        WorkspaceSection::Preview => route matches Route::Preview { slug: s } && s@ == slug,
        WorkspaceSection::Ai => route matches Route::Ai { slug: s, query } && s@ == slug && query.session_id is None,
    }
}

impl Route {
    pub fn for_workspace_section(slug: String, section: WorkspaceSection) -> (r: Self)
        ensures
            section_route(slug@, section, r),
    {
        match section {
            WorkspaceSection::Files => Route::Files { slug, query: FilesQuery::none() },
            WorkspaceSection::Terminal => Route::Terminal { slug, query: TerminalQuery { session_id: None } },
            WorkspaceSection::Git => Route::Git { slug },
            WorkspaceSection::Preview => Route::Preview { slug },
            WorkspaceSection::Ai => Route::Ai { slug, query: AiQuery { session_id: None } },
        }
    }
}

/// The workspace slug, section and title a route shows; the home page
/// stands for the files of a workspace called `syntaxis`.
pub open spec fn route_place(route: Route) -> (Seq<char>, WorkspaceSection, Seq<char>) {
    match route {
        Route::Files { slug, .. } => (slug@, WorkspaceSection::Files, "Files"@),
        Route::Terminal { slug, .. } => (slug@, WorkspaceSection::Terminal, "Terminal"@),
        Route::Git { slug } => (slug@, WorkspaceSection::Git, "Git"@),
        Route::Preview { slug } => (slug@, WorkspaceSection::Preview, "Preview"@),
        Route::Ai { slug, .. } => (slug@, WorkspaceSection::Ai, "AI"@),
        Route::AiSettings { slug, section } => (slug@, WorkspaceSection::Ai, "AI Settings · "@ + section_label(section)),
        Route::Home => ("syntaxis"@, WorkspaceSection::Files, "Files"@),
    }
}

pub fn route_workspace(route: &Route) -> (r: (String, WorkspaceSection, String))
    ensures
        (r.0@, r.1, r.2@) == route_place(*route),
{
    match route {
        Route::Files { slug, .. } => (slug.clone(), WorkspaceSection::Files, "Files".to_owned()),
        Route::Terminal { slug, .. } => (slug.clone(), WorkspaceSection::Terminal, "Terminal".to_owned()),
        Route::Git { slug } => (slug.clone(), WorkspaceSection::Git, "Git".to_owned()),
        Route::Preview { slug } => (slug.clone(), WorkspaceSection::Preview, "Preview".to_owned()),
        Route::Ai { slug, .. } => (slug.clone(), WorkspaceSection::Ai, "AI".to_owned()),
        Route::AiSettings { slug, section } => {
            let mut title = "AI Settings · ".to_owned();
            push_str(&mut title, section.label());
            (slug.clone(), WorkspaceSection::Ai, title)
        },
        Route::Home => ("syntaxis".to_owned(), WorkspaceSection::Files, "Files".to_owned()),
    }
}

/// A request, from inside a workspace page, to show another place.
#[derive(Clone, Debug, PartialEq, Eq)]
pub enum NavigationIntent {
    Home,
    Files { workspace: String, location: Option<FileLocation> },
    Terminal { workspace: String, session_id: Option<String> },
    Git { workspace: String, selection: Option<String> },
    Preview { workspace: String },
    Ai { workspace: String, conversation_id: Option<String> },
    AiSettings { workspace: String, section: AiSettingsSection },
}

/// How the browser history takes a route: as a new entry, or in place of
/// the current one.
#[derive(Clone, Debug, PartialEq, Eq)]
pub enum HistoryStep {
    Push(Route),
    Replace(Route),
}

/// Where a navigation request made on the page of workspace `slug` leads.
/// Terminal sessions and AI conversations replace the current entry; the
/// other places are pushed. A file location becomes the files query.
pub open spec fn navigation_spec(intent: NavigationIntent, slug: Seq<char>, step: HistoryStep) -> bool {
    match intent {
        NavigationIntent::Files { location, .. } => step matches HistoryStep::Push(Route::Files { slug: s, query })
            && s@ == slug && match location {
            Some(l) => opt_view(query.path) == Some(l.path@) && query.line == l.line && query.column == l.column
                && query.end_line == l.end_line && query.end_column == l.end_column,
            None => query.path is None && query.line is None && query.column is None && query.end_line is None
                && query.end_column is None,
        },
        NavigationIntent::Terminal { session_id, .. } => step matches HistoryStep::Replace(
            Route::Terminal { slug: s, query },
        ) && s@ == slug && query.session_id == session_id,
        NavigationIntent::Git { .. } => step matches HistoryStep::Push(Route::Git { slug: s }) && s@ == slug,
        NavigationIntent::Preview { .. } => step matches HistoryStep::Push(Route::Preview { slug: s }) && s@ == slug,
        NavigationIntent::Ai { conversation_id, .. } => step matches HistoryStep::Replace(Route::Ai { slug: s, query })
            && s@ == slug && query.session_id == conversation_id,
        NavigationIntent::AiSettings { section, .. } => step matches HistoryStep::Push(
            Route::AiSettings { slug: s, section: t },
        ) && s@ == slug && t == section,
        NavigationIntent::Home => step == HistoryStep::Push(Route::Home),
    }
}

pub fn navigation(intent: NavigationIntent, slug: &str) -> (r: HistoryStep)
    ensures
        navigation_spec(intent, slug@, r),
{
    match intent {
        NavigationIntent::Files { location, .. } => HistoryStep::Push(Route::Files {
            slug: slug.to_owned(),
            query: match location {
                Some(l) => FilesQuery {
                    path: Some(l.path),
                    line: l.line,
                    column: l.column,
                    end_line: l.end_line,
                    end_column: l.end_column,
                },
                None => FilesQuery::none(),
            },
        }),
        NavigationIntent::Terminal { session_id, .. } => HistoryStep::Replace(
            Route::Terminal { slug: slug.to_owned(), query: TerminalQuery { session_id } },
        ),
        NavigationIntent::Git { .. } => HistoryStep::Push(Route::Git { slug: slug.to_owned() }),
        NavigationIntent::Preview { .. } => HistoryStep::Push(Route::Preview { slug: slug.to_owned() }),
        NavigationIntent::Ai { conversation_id, .. } => HistoryStep::Replace(
            Route::Ai { slug: slug.to_owned(), query: AiQuery { session_id: conversation_id } },
        ),
        NavigationIntent::AiSettings { section, .. } => HistoryStep::Push(
            Route::AiSettings { slug: slug.to_owned(), section },
        ),
        NavigationIntent::Home => HistoryStep::Push(Route::Home),
    }
}

/// What the app knows of the workspace runtime it talks to.
#[derive(Clone, Debug, PartialEq, Eq)]
pub enum RuntimeState {
    Connecting,
    /// Ready: its name, whether it runs on this device, and whether it
    /// lets any folder be a workspace root.
    Ready { label: String, local: bool, unrestricted_roots: bool },
    Unavailable { message: String },
}

/// The emphasis of a status.
#[derive(Clone, Copy, Debug, PartialEq, Eq, Structural)]
pub enum Tone {
    Neutral,
    Success,
    Destructive,
}

/// The texts and tone the home page and workspace header show for the
/// runtime.
#[derive(Clone, Debug, PartialEq, Eq)]
pub struct RuntimePresentation {
    pub eyebrow: String,
    pub label: String,
    pub message: String,
    pub tone: Tone,
    pub folder_action_title: String,
    pub folder_action_description: String,
    pub folder_dialog_description: String,
}

pub ghost struct PresentationView {
    pub eyebrow: Seq<char>,
    pub label: Seq<char>,
    pub message: Seq<char>,
    pub tone: Tone,
    pub folder_action_title: Seq<char>,
    pub folder_action_description: Seq<char>,
    pub folder_dialog_description: Seq<char>,
}

pub open spec fn presentation_view(p: RuntimePresentation) -> PresentationView {
    PresentationView {
        eyebrow: p.eyebrow@,
        label: p.label@,
        message: p.message@,
        tone: p.tone,
        folder_action_title: p.folder_action_title@,
        folder_action_description: p.folder_action_description@,
        folder_dialog_description: p.folder_dialog_description@,
    }
}

/// The presentation of a runtime that is not ready: `label`, `message`
/// and `tone` for the state, the rest about exposed folders.
pub open spec fn not_ready(label: Seq<char>, message: Seq<char>, tone: Tone) -> PresentationView {
    PresentationView {
        eyebrow: "WORKSPACE DEVELOPMENT"@,
        label,
        message,
        tone,
        folder_action_title: "Open workspace folder"@,
        folder_action_description: "Browse exposed folders"@,
        folder_dialog_description: "Choose a project folder exposed by the connected runtime."@,
    }
}

/// How a runtime state (or the error reading it; nothing while it loads)
/// is presented.
pub open spec fn presentation_spec(state: Option<Result<RuntimeState, AppError>>) -> PresentationView {
    match state {
        Some(Ok(RuntimeState::Ready { label, local, unrestricted_roots })) => PresentationView {
            eyebrow: if local { "LOCAL WORKSPACES"@ } else { "CONNECTED WORKSPACES"@ },
            label: label@,
            message: label@ + " is ready"@,
            tone: Tone::Success,
            folder_action_title: if unrestricted_roots { "Open folder"@ } else { "Open workspace folder"@ },
            folder_action_description: if local { "Browse local folders"@ } else { "Browse exposed folders"@ },
            folder_dialog_description: if local {
                "Choose a project folder on this device."@
            } else {
                "Choose a project folder exposed by "@ + label@ + "."@
            },
        },
        Some(Ok(RuntimeState::Unavailable { message })) => not_ready("Runtime unavailable"@, message@, Tone::Destructive),
        Some(Err(e)) => not_ready("Runtime unavailable"@, e.message@, Tone::Destructive),
        Some(Ok(RuntimeState::Connecting)) | None => not_ready(
            "Connecting"@,
            "Connecting to the workspace runtime"@,
            Tone::Neutral,
        ),
    }
}

fn waiting(label: &str, message: &str, tone: Tone) -> (r: RuntimePresentation)
    ensures
        presentation_view(r) == not_ready(label@, message@, tone),
{
    RuntimePresentation {
        eyebrow: "WORKSPACE DEVELOPMENT".to_owned(),
        label: label.to_owned(),
        message: message.to_owned(),
        tone,
        folder_action_title: "Open workspace folder".to_owned(),
        folder_action_description: "Browse exposed folders".to_owned(),
        folder_dialog_description: "Choose a project folder exposed by the connected runtime.".to_owned(),
    }
}

pub fn runtime_presentation(state: Option<&Result<RuntimeState, AppError>>) -> (r: RuntimePresentation)
    ensures
        presentation_view(r) == presentation_spec(
            match state {
                Some(s) => Some(*s),
                None => None,
            },
        ),
{
    match state {
        Some(Ok(RuntimeState::Ready { label, local, unrestricted_roots })) => {
            let mut message = label.clone();
            push_str(&mut message, " is ready");
            let folder_dialog_description = if *local {
                "Choose a project folder on this device.".to_owned()
            } else {
                let mut d = "Choose a project folder exposed by ".to_owned();
                push_str(&mut d, label.as_str());
                push_str(&mut d, ".");
                d
            };
            RuntimePresentation {
                eyebrow: if *local {
                    "LOCAL WORKSPACES".to_owned()
                } else {
                    "CONNECTED WORKSPACES".to_owned()
                },
                label: label.clone(),
                message,
                tone: Tone::Success,
                folder_action_title: if *unrestricted_roots {
                    "Open folder".to_owned()
                } else {
                    "Open workspace folder".to_owned()
                },
                folder_action_description: if *local {
                    "Browse local folders".to_owned()
                } else {
                    "Browse exposed folders".to_owned()
                },
                folder_dialog_description,
            }
        },
        Some(Ok(RuntimeState::Unavailable { message })) => waiting(
            "Runtime unavailable",
            message.as_str(),
            Tone::Destructive,
        ),
        Some(Err(e)) => waiting("Runtime unavailable", e.message.as_str(), Tone::Destructive),
        Some(Ok(RuntimeState::Connecting)) | None => waiting(
            "Connecting",
            "Connecting to the workspace runtime",
            Tone::Neutral,
        ),
    }
}

/// The page a notification opens: the conversation of an agent
/// notification, the terminal session of a terminal notification, in the
/// notification's workspace.
pub fn notification_route(notification: &AppNotification) -> (r: Route)
    ensures
        match notification.target {
            NotificationTarget::Agent { session_id } => r matches Route::Ai { slug, query } && slug@
                == notification.workspace_slug@ && opt_view(query.session_id) == Some(session_id@),
            NotificationTarget::Terminal { session_id } => r matches Route::Terminal { slug, query } && slug@
                == notification.workspace_slug@ && opt_view(query.session_id) == Some(session_id@),
        },
{
    match &notification.target {
        NotificationTarget::Agent { session_id } => Route::Ai {
            slug: notification.workspace_slug.clone(),
            query: AiQuery::with_session(session_id.clone()),
        },
        NotificationTarget::Terminal { session_id } => Route::Terminal {
            slug: notification.workspace_slug.clone(),
            query: TerminalQuery { session_id: Some(session_id.clone()) },
        },
    }
}

/// First wait, in milliseconds, before the workspace's change stream is
/// connected again after it failed or ended.
pub const FIRST_EVENT_RETRY_MS: u64 = 1000;

/// Longest wait, in milliseconds, between two connection attempts.
pub const MAX_EVENT_RETRY_MS: u64 = 30000;

/// The wait after one of `delay_ms`: twice as long, at most
/// `MAX_EVENT_RETRY_MS`.
pub open spec fn next_retry(delay_ms: u64) -> u64 {
    if 2 * delay_ms < MAX_EVENT_RETRY_MS {
        (2 * delay_ms) as u64
    } else {
        MAX_EVENT_RETRY_MS
    }
}

/// The wait before the next connection attempt, after one of `delay_ms`
/// that did not connect.
pub fn next_event_retry_ms(delay_ms: u64) -> (r: u64)
    ensures
        r == next_retry(delay_ms),
{
    if delay_ms < MAX_EVENT_RETRY_MS / 2 {
        delay_ms * 2
    } else {
        MAX_EVENT_RETRY_MS
    }
}

/// Waits between connection attempts never shrink and stay between the
/// first wait and the longest.
pub proof fn event_retries_grow_within_bounds(delay_ms: u64)
    requires
        FIRST_EVENT_RETRY_MS <= delay_ms <= MAX_EVENT_RETRY_MS,
    ensures
        delay_ms <= next_retry(delay_ms) <= MAX_EVENT_RETRY_MS,
        FIRST_EVENT_RETRY_MS <= next_retry(delay_ms),
{
}

} // verus!
