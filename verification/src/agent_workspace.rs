//! The host's bookkeeping around its Pi sessions: session titles, the
//! session list's summaries and the notifications they raise, and the
//! batching of streamed text for clients.
use vstd::prelude::*;
use crate::agent::{AgentError, AgentErrorCode, AgentSessionSummary, AgentStatus};
use crate::agent_state::{event_view, EventView, ServerMessage};
use crate::agent_values::{truncate_chars, truncated};
use crate::framing::FramedLine;
use crate::notifications::{
    notification_view, AppNotification, NotificationKind, NotificationTarget, NotificationView, TargetView,
};
use crate::text::{chars_of, concat, is_whitespace, is_whitespace_spec, string_from_chars, trim, trimmed};

verus! {

/// `s` with its words separated by single spaces; `pending` says a space
/// is owed before the next word, `started` that a word came already.
pub open spec fn squeezed(s: Seq<char>, pending: bool, started: bool) -> Seq<char>
    decreases s.len(),
{
    if s.len() == 0 {
        Seq::empty()
    } else if is_whitespace_spec(s[0]) {
        squeezed(s.drop_first(), started, started)
    } else {
        (if pending {
            seq![' ']
        } else {
            Seq::empty()
        }) + seq![s[0]] + squeezed(s.drop_first(), false, true)
    }
}

/// The words of `s` joined by single spaces
/// (`split_whitespace().collect::<Vec<_>>().join(" ")`).
pub open spec fn normalized_words(s: Seq<char>) -> Seq<char> {
    squeezed(s, false, false)
}

/// Joins the words of `text` with single spaces.
pub fn normalize_words(text: &str) -> (r: Vec<char>)
    ensures
        r@ == normalized_words(text@),
{
    let chars = chars_of(text);
    let mut out: Vec<char> = Vec::new();
    let mut pending = false;
    let mut started = false;
    let mut i: usize = 0;
    proof {
        assert(chars@.skip(0) =~= chars@);
    }
    while i < chars.len()
        invariant
            i <= chars@.len(),
            chars@ == text@,
            !started ==> !pending,
            normalized_words(text@) == out@ + squeezed(chars@.skip(i as int), pending, started),
        decreases chars@.len() - i,
    {
        let c = chars[i];
        proof {
            assert(chars@.skip(i as int).drop_first() =~= chars@.skip(i + 1));
            assert(chars@.skip(i as int)[0] == c);
        }
        if is_whitespace(c) {
            pending = started;
        } else {
            let ghost before = out@;
            if pending {
                out.push(' ');
            }
            out.push(c);
            proof {
                assert(out@ =~= before + (if pending {
                    seq![' ']
                } else {
                    Seq::<char>::empty()
                }) + seq![c]);
            }
            pending = false;
            started = true;
        }
        i = i + 1;
    }
    proof {
        assert(chars@.skip(chars@.len() as int) =~= Seq::<char>::empty());
        assert(out@ + Seq::<char>::empty() =~= out@);
    }
    out
}

/// At most `limit` characters of `text`, followed by `…` when more were
/// there.
pub open spec fn cut_with_ellipsis(text: Seq<char>, limit: nat) -> Seq<char> {
    if text.len() > limit {
        text.take(limit as int) + seq!['…']
    } else {
        text
    }
}

/// Longest title, in characters, before it is cut.
pub const MAX_TITLE_CHARS: usize = 64;

/// A session's title from a prompt or a name: its words on one line, cut
/// to the title length, or `New chat` when there are none.
pub open spec fn title_of(text: Seq<char>) -> Seq<char> {
    let words = normalized_words(text);
    if words.len() == 0 {
        "New chat"@
    } else {
        cut_with_ellipsis(words, MAX_TITLE_CHARS as nat)
    }
}

fn cut(words: &Vec<char>, limit: usize) -> (r: Vec<char>)
    ensures
        r@ == cut_with_ellipsis(words@, limit as nat),
{
    if words.len() > limit {
        let mut out: Vec<char> = Vec::new();
        let mut k: usize = 0;
        while k < limit
            invariant
                k <= limit < words@.len(),
                out@ == words@.take(k as int),
            decreases limit - k,
        {
            out.push(words[k]);
            proof {
                assert(words@.take(k + 1) =~= words@.take(k as int).push(words@[k as int]));
            }
            k = k + 1;
        }
        out.push('…');
        out
    } else {
        let mut out: Vec<char> = Vec::new();
        let mut k: usize = 0;
        while k < words.len()
            invariant
                k <= words@.len(),
                out@ == words@.take(k as int),
            decreases words@.len() - k,
        {
            out.push(words[k]);
            proof {
                assert(words@.take(k + 1) =~= words@.take(k as int).push(words@[k as int]));
            }
            k = k + 1;
        }
        proof {
            assert(words@.take(words@.len() as int) =~= words@);
        }
        out
    }
}

/// A session's title from a prompt or a name (`prompt_title`).
pub fn prompt_title(text: &str) -> (r: String)
    ensures
        r@ == title_of(text@),
{
    let words = normalize_words(text);
    if words.len() == 0 {
        return "New chat".to_owned();
    }
    string_from_chars(&cut(&words, MAX_TITLE_CHARS))
}

/// Longest preview of a stored session's title, in characters.
pub const MAX_PREVIEW_CHARS: usize = 80;

/// A stored session's title as the list shows it (`preview`).
pub fn preview(value: &str) -> (r: String)
    ensures
        r@ == cut_with_ellipsis(normalized_words(value@), MAX_PREVIEW_CHARS as nat),
{
    let words = normalize_words(value);
    string_from_chars(&cut(&words, MAX_PREVIEW_CHARS))
}

/// Text with its words on one line, or nothing when it has none
/// (`non_empty`).
pub fn non_empty(value: &str) -> (r: Option<String>)
    ensures
        match r {
            Some(t) => normalized_words(value@).len() > 0 && t@ == normalized_words(value@),
            None => normalized_words(value@).len() == 0,
        },
{
    let words = normalize_words(value);
    if words.len() == 0 {
        None
    } else {
        Some(string_from_chars(&words))
    }
}


/// What a session's event changes beyond its summary: whether the session
/// list is sent again, the notification it raises (kind and text), whether
/// the session file is looked up again, and whether the Pi process is let
/// go.
#[derive(Debug, PartialEq, Eq)]
pub struct SummaryUpdate {
    pub changed: bool,
    pub notification: Option<(NotificationKind, String)>,
    pub refresh_path: bool,
    pub drop_process: bool,
}

pub ghost struct SummaryView {
    pub title: Seq<char>,
    pub updated_at_ms: u64,
    pub status: AgentStatus,
    pub status_message: Seq<char>,
    pub running: bool,
}

pub open spec fn summary_view(s: AgentSessionSummary) -> SummaryView {
    SummaryView {
        title: s.title@,
        updated_at_ms: s.updated_at_ms,
        status: s.status,
        status_message: s.status_message@,
        running: s.running,
    }
}

pub ghost struct UpdateView {
    pub changed: bool,
    pub notification: Option<(NotificationKind, Seq<char>)>,
    pub refresh_path: bool,
    pub drop_process: bool,
}

pub open spec fn update_view(u: SummaryUpdate) -> UpdateView {
    UpdateView {
        changed: u.changed,
        notification: match u.notification {
            Some((k, m)) => Some((k, m@)),
            None => None,
        },
        refresh_path: u.refresh_path,
        drop_process: u.drop_process,
    }
}

/// The notification a status change raises: finishing work (from working
/// or compacting to ready), or a failure that is new.
pub open spec fn status_notification(previous: AgentStatus, status: AgentStatus, message: Seq<char>) -> Option<
    (NotificationKind, Seq<char>),
> {
    if status == AgentStatus::Ready && (previous == AgentStatus::Working || previous == AgentStatus::Compacting) {
        Some((NotificationKind::Completed, "Pi finished working"@))
    } else if status == AgentStatus::Failed && previous != AgentStatus::Failed {
        Some((NotificationKind::Failed, message))
    } else {
        None
    }
}

/// How an event a session emits changes its summary, at `now_ms`, and
/// what else it asks for (`update_summary`).
pub open spec fn summary_updated(s: SummaryView, has_path: bool, event: EventView, now_ms: u64) -> (SummaryView, UpdateView) {
    match event {
        EventView::Status(status, message, _) => (
            SummaryView {
                status,
                status_message: message,
                running: !(status == AgentStatus::Stopped || status == AgentStatus::Failed),
                updated_at_ms: now_ms,
                ..s
            },
            UpdateView {
                changed: true,
                notification: status_notification(s.status, status, message),
                refresh_path: !has_path,
                drop_process: status == AgentStatus::Failed,
            },
        ),
        EventView::SessionChanged(_, name) => (
            SummaryView {
                title: match name {
                    Some(n) => title_of(n),
                    None => s.title,
                },
                ..s
            },
            UpdateView { changed: true, notification: None, refresh_path: true, drop_process: false },
        ),
        EventView::ExtensionUiRequest(request) => (
            s,
            UpdateView {
                changed: false,
                notification: Some(
                    (
                        NotificationKind::Attention,
                        if trim(request.message).len() == 0 {
                            request.title
                        } else {
                            request.message
                        },
                    ),
                ),
                refresh_path: false,
                drop_process: false,
            },
        ),
        _ => (s, UpdateView { changed: false, notification: None, refresh_path: false, drop_process: false }),
    }
}

/// Takes an event a session emitted into its summary (`update_summary`).
pub fn update_summary(summary: &mut AgentSessionSummary, has_path: bool, event: &ServerMessage, now_ms: u64) -> (r: SummaryUpdate)
    ensures
        (summary_view(*final(summary)), update_view(r)) == summary_updated(
            summary_view(*old(summary)),
            has_path,
            event_view(*event),
            now_ms,
        ),
        final(summary).id == old(summary).id,
{
    match event {
        ServerMessage::Status { status, message, .. } => {
            let previous = summary.status;
            summary.status = *status;
            summary.status_message = message.clone();
            summary.running = !(*status == AgentStatus::Stopped || *status == AgentStatus::Failed);
            summary.updated_at_ms = now_ms;
            let notification = if *status == AgentStatus::Ready && (previous == AgentStatus::Working || previous
                == AgentStatus::Compacting) {
                Some((NotificationKind::Completed, "Pi finished working".to_owned()))
            } else if *status == AgentStatus::Failed && previous != AgentStatus::Failed {
                Some((NotificationKind::Failed, message.clone()))
            } else {
                None
            };
            SummaryUpdate {
                changed: true,
                notification,
                refresh_path: !has_path,
                drop_process: *status == AgentStatus::Failed,
            }
        },
        ServerMessage::SessionChanged { session_name, .. } => {
            match session_name {
                Some(name) => {
                    summary.title = prompt_title(name.as_str());
                },
                None => {},
            }
            SummaryUpdate { changed: true, notification: None, refresh_path: true, drop_process: false }
        },
        ServerMessage::ExtensionUiRequest { request } => {
            let blank = trimmed(&chars_of(request.message.as_str())).len() == 0;
            let text = if blank {
                request.title.clone()
            } else {
                request.message.clone()
            };
            SummaryUpdate {
                changed: false,
                notification: Some((NotificationKind::Attention, text)),
                refresh_path: false,
                drop_process: false,
            }
        },
        _ => SummaryUpdate { changed: false, notification: None, refresh_path: false, drop_process: false },
    }
}

/// Longest notification text, in characters.
pub const MAX_NOTIFICATION_CHARS: usize = 240;

/// A notification about an agent session of a workspace:
/// its text cut to the notification length.
pub fn agent_notification(
    workspace_id: &str,
    workspace_slug: &str,
    workspace_name: &str,
    session_id: &str,
    session_title: &str,
    kind: NotificationKind,
    message: String,
    created_at_ms: u64,
) -> (r: AppNotification)
    ensures
        notification_view(r) == (NotificationView {
            workspace_id: workspace_id@,
            workspace_slug: workspace_slug@,
            workspace_name: workspace_name@,
            target: TargetView::Agent(session_id@),
            title: session_title@,
            kind,
            message: truncated(message@, MAX_NOTIFICATION_CHARS as nat),
            created_at_ms,
        }),
{
    AppNotification {
        workspace_id: workspace_id.to_owned(),
        workspace_slug: workspace_slug.to_owned(),
        workspace_name: workspace_name.to_owned(),
        target: NotificationTarget::Agent { session_id: session_id.to_owned() },
        title: session_title.to_owned(),
        kind,
        message: truncate_chars(message, MAX_NOTIFICATION_CHARS),
        created_at_ms,
    }
}

/// The message a client gets for a frame of Pi's output that was too long
/// to read, or none for a line.
pub fn oversized_frame_error(frame: &FramedLine) -> (r: Option<ServerMessage>)
    ensures
        match frame {
            FramedLine::Line(_) => r is None,
            FramedLine::Oversized => r is Some && event_view(r->Some_0) == EventView::Error(
                AgentErrorCode::Internal,
                "Pi emitted an oversized protocol record; it was discarded"@,
            ),
        },
{
    match frame {
        FramedLine::Line(_) => None,
        FramedLine::Oversized => Some(
            ServerMessage::Error {
                error: AgentError::new(
                    AgentErrorCode::Internal,
                    "Pi emitted an oversized protocol record; it was discarded",
                ),
            },
        ),
    }
}

/// A piece of streamed text waiting to be sent: item id, text, and whether
/// it is reasoning.
pub type PendingDelta = Option<(String, String, bool)>;

pub open spec fn pending_view(p: Option<(String, String, bool)>) -> Option<(Seq<char>, Seq<char>, bool)> {
    match p {
        Some((id, text, thinking)) => Some((id@, text@, thinking)),
        None => None,
    }
}

pub open spec fn messages_view(v: Seq<ServerMessage>) -> Seq<EventView> {
    v.map_values(|m: ServerMessage| event_view(m))
}

/// What the waiting text becomes when it is sent.
pub open spec fn flushed(p: Option<(Seq<char>, Seq<char>, bool)>) -> Seq<EventView> {
    match p {
        Some((id, text, thinking)) => seq![EventView::ItemDelta(id, text, thinking)],
        None => Seq::empty(),
    }
}

/// One event through the batcher: a piece of text for the item and kind
/// that is waiting joins it; any other piece sends the waiting one and
/// waits itself; any other event sends the waiting text and then itself.
pub open spec fn batch_step(p: Option<(Seq<char>, Seq<char>, bool)>, e: EventView) -> (
    Option<(Seq<char>, Seq<char>, bool)>,
    Seq<EventView>,
) {
    match e {
        EventView::ItemDelta(id, text, thinking) => match p {
            Some((pid, ptext, pthinking)) => if pid == id && pthinking == thinking {
                (Some((pid, ptext + text, pthinking)), Seq::empty())
            } else {
                (Some((id, text, thinking)), flushed(p))
            },
            None => (Some((id, text, thinking)), Seq::empty()),
        },
        _ => (None, flushed(p) + seq![e]),
    }
}

/// Sends what is waiting (`flush_item_delta`).
pub fn flush_item_delta(pending: &mut PendingDelta) -> (r: Option<ServerMessage>)
    ensures
        pending_view(*final(pending)) is None,
        match r {
            Some(m) => flushed(pending_view(*old(pending))) == seq![event_view(m)],
            None => flushed(pending_view(*old(pending))) == Seq::<EventView>::empty(),
        },
{
    match pending.take() {
        Some((item_id, text, thinking)) => Some(ServerMessage::ItemDelta { item_id, text, thinking }),
        None => None,
    }
}

/// Takes one event from a session into the batcher and returns what is
/// sent now, in order.
pub fn batch_event(pending: &mut PendingDelta, event: ServerMessage) -> (sent: Vec<ServerMessage>)
    ensures
        (pending_view(*final(pending)), messages_view(sent@)) == batch_step(pending_view(*old(pending)), event_view(event)),
{
    let mut sent: Vec<ServerMessage> = Vec::new();
    let ghost e = event_view(event);
    match event {
        ServerMessage::ItemDelta { item_id, text, thinking } => {
            let joins = match &*pending {
                Some((pending_id, _, pending_thinking)) => *pending_id == item_id && *pending_thinking == thinking,
                None => false,
            };
            if joins {
                match pending {
                    Some((_, pending_text, _)) => {
                        let joined = string_from_chars(&concat(&chars_of(pending_text.as_str()), &chars_of(text.as_str())));
                        *pending_text = joined;
                    },
                    None => {},
                }
                proof {
                    assert(messages_view(sent@) =~= Seq::<EventView>::empty());
                }
            } else {
                match flush_item_delta(pending) {
                    Some(m) => sent.push(m),
                    None => {},
                }
                *pending = Some((item_id, text, thinking));
                proof {
                    assert(messages_view(sent@) =~= batch_step(pending_view(*old(pending)), e).1);
                }
            }
        },
        other => {
            match flush_item_delta(pending) {
                Some(m) => sent.push(m),
                None => {},
            }
            let ghost before = messages_view(sent@);
            sent.push(other);
            proof {
                assert(messages_view(sent@) =~= before.push(e));
                assert(messages_view(sent@) =~= batch_step(pending_view(*old(pending)), e).1);
            }
        },
    }
    sent
}

/// The events with each run of pieces of text for the same item and kind
/// joined into one.
pub open spec fn merged(events: Seq<EventView>) -> Seq<EventView>
    decreases events.len(),
{
    if events.len() == 0 {
        Seq::empty()
    } else {
        let m = merged(events.drop_last());
        match (events.last(), if m.len() > 0 {
            Some(m.last())
        } else {
            None
        }) {
            (EventView::ItemDelta(id, text, thinking), Some(EventView::ItemDelta(mid, mtext, mthinking))) => if mid == id
                && mthinking == thinking {
                m.update(m.len() - 1, EventView::ItemDelta(mid, mtext + text, mthinking))
            } else {
                m.push(events.last())
            },
            _ => m.push(events.last()),
        }
    }
}

/// The batcher run over `events` from nothing waiting: what is waiting at
/// the end, and what was sent.
pub open spec fn batch_run(events: Seq<EventView>) -> (Option<(Seq<char>, Seq<char>, bool)>, Seq<EventView>)
    decreases events.len(),
{
    if events.len() == 0 {
        (None, Seq::empty())
    } else {
        let before = batch_run(events.drop_last());
        let step = batch_step(before.0, events.last());
        (step.0, before.1 + step.1)
    }
}

proof fn lemma_batch_run(events: Seq<EventView>)
    ensures
        match batch_run(events).0 {
            Some((id, text, thinking)) => merged(events).len() > 0 && merged(events).last() == EventView::ItemDelta(
                id,
                text,
                thinking,
            ) && batch_run(events).1 == merged(events).drop_last(),
            None => batch_run(events).1 == merged(events) && (merged(events).len() == 0 || !(merged(
                events,
            ).last() is ItemDelta)),
        },
    decreases events.len(),
{
    if events.len() > 0 {
        lemma_batch_run(events.drop_last());
        let m = merged(events.drop_last());
        let before = batch_run(events.drop_last());
        match events.last() {
            EventView::ItemDelta(id, text, thinking) => {
                match before.0 {
                    Some((pid, ptext, pthinking)) => {
                        if pid == id && pthinking == thinking {
                            assert(batch_run(events).1 =~= before.1 + Seq::<EventView>::empty());
                            assert(merged(events).drop_last() =~= m.drop_last());
                        } else {
                            assert(m.drop_last().push(m.last()) =~= m);
                            assert(merged(events).drop_last() =~= m);
                        }
                    },
                    None => {
                        assert(batch_run(events).1 =~= before.1 + Seq::<EventView>::empty());
                        assert(merged(events).drop_last() =~= m);
                    },
                }
            },
            _ => {
                match before.0 {
                    Some(p) => {
                        assert(m.drop_last().push(m.last()) =~= m);
                    },
                    None => {},
                }
                assert(batch_run(events).1 =~= merged(events));
            },
        }
    }
}

/// Batching streamed text loses, duplicates and reorders nothing: what it
/// sends, followed by what is still waiting, is the stream of events with
/// each run of text for the same item and kind joined.
pub proof fn batching_keeps_every_event(events: Seq<EventView>)
    ensures
        batch_run(events).1 + flushed(batch_run(events).0) == merged(events),
{
    lemma_batch_run(events);
    match batch_run(events).0 {
        Some(p) => {
            assert(merged(events).drop_last().push(merged(events).last()) =~= merged(events));
        },
        None => {
            assert(batch_run(events).1 + Seq::<EventView>::empty() =~= batch_run(events).1);
        },
    }
}
} // verus!
