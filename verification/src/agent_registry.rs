//! The sessions a workspace knows of: the saved ones found on disk and the
//! ones a Pi process runs for, keyed by session id. Which session runs,
//! when a running one is let go, how a forked session takes its new id,
//! and the newest-first list clients see.
use vstd::prelude::*;
use crate::agent::{validation_error, AgentError, AgentErrorCode, AgentSessionSummary, AgentStatus, ClientMessage};
use crate::agent_session::{keyed_command, keyed_json};
use crate::json::{json_view, JsonValue};
use crate::agent_state::{event_view, ServerMessage};
use crate::agent_workspace::{
    normalize_words, normalized_words, prompt_title, summary_updated, summary_view, title_of, update_summary,
    update_view, SummaryUpdate, SummaryView, UpdateView,
};
use crate::text::{chars_of, seq_eq, string_from_chars};

verus! {

/// How many settled sessions may keep their Pi process in the background.
pub const MAX_SETTLED_BACKGROUND_SESSIONS: usize = 3;

/// A session of the workspace.
#[derive(Debug)]
pub struct ManagedSession {
    pub summary: AgentSessionSummary,
    /// The session's saved file, once known.
    pub path: Option<String>,
    /// Whether a Pi process runs for it.
    pub attached: bool,
}

pub ghost struct SessionView {
    pub id: Seq<char>,
    pub summary: SummaryView,
    pub path: Option<Seq<char>>,
    pub attached: bool,
}

pub open spec fn opt_text(o: Option<String>) -> Option<Seq<char>> {
    match o {
        Some(s) => Some(s@),
        None => None,
    }
}

pub open spec fn session_view(s: ManagedSession) -> SessionView {
    SessionView { id: s.summary.id@, summary: summary_view(s.summary), path: opt_text(s.path), attached: s.attached }
}

pub open spec fn session_views(v: Seq<ManagedSession>) -> Seq<SessionView> {
    v.map_values(|s: ManagedSession| session_view(s))
}

/// No id occurs twice.
pub open spec fn unique_ids(s: Seq<SessionView>) -> bool {
    forall|i: int, j: int| 0 <= i < j < s.len() ==> s[i].id != s[j].id
}

pub open spec fn has_id(s: Seq<SessionView>, id: Seq<char>) -> bool {
    exists|i: int| 0 <= i < s.len() && #[trigger] s[i].id == id
}

/// The sessions by id.
pub open spec fn by_id(s: Seq<SessionView>) -> Map<Seq<char>, SessionView> {
    Map::new(
        |id: Seq<char>| has_id(s, id),
        |id: Seq<char>| s[choose|i: int| 0 <= i < s.len() && #[trigger] s[i].id == id],
    )
}

proof fn lemma_by_id_at(s: Seq<SessionView>, i: int)
    requires
        unique_ids(s),
        0 <= i < s.len(),
    ensures
        by_id(s).contains_key(s[i].id),
        by_id(s)[s[i].id] == s[i],
{
    let id = s[i].id;
    assert(has_id(s, id));
    let j = choose|j: int| 0 <= j < s.len() && #[trigger] s[j].id == id;
    if j != i {
        if j < i {
            assert(s[j].id != s[i].id);
        } else {
            assert(s[i].id != s[j].id);
        }
    }
}

proof fn lemma_by_id_push(s: Seq<SessionView>, v: SessionView)
    requires
        unique_ids(s),
        !has_id(s, v.id),
    ensures
        unique_ids(s.push(v)),
        by_id(s.push(v)) == by_id(s).insert(v.id, v),
{
    let t = s.push(v);
    assert forall|i: int, j: int| 0 <= i < j < t.len() implies t[i].id != t[j].id by {
        if j == s.len() {
            assert(s[i].id != v.id) by {
                if s[i].id == v.id {
                    assert(has_id(s, v.id));
                }
            }
        }
    }
    assert forall|id: Seq<char>| #[trigger] has_id(t, id) == (has_id(s, id) || id == v.id) by {
        if has_id(s, id) {
            let i = choose|i: int| 0 <= i < s.len() && #[trigger] s[i].id == id;
            assert(t[i].id == id);
        }
        if id == v.id {
            assert(t[s.len() as int].id == id);
        }
        if has_id(t, id) {
            let i = choose|i: int| 0 <= i < t.len() && #[trigger] t[i].id == id;
            if i < s.len() {
                assert(s[i].id == id);
            }
        }
    }
    assert forall|id: Seq<char>| #[trigger] by_id(t).contains_key(id) implies by_id(t)[id] == by_id(s).insert(v.id, v)[id] by {
        let i = choose|i: int| 0 <= i < t.len() && #[trigger] t[i].id == id;
        lemma_by_id_at(t, i);
        if i < s.len() {
            assert(s[i] == t[i]);
            lemma_by_id_at(s, i);
        }
    }
    assert(by_id(t) =~= by_id(s).insert(v.id, v));
}

proof fn lemma_by_id_update(s: Seq<SessionView>, k: int, v: SessionView)
    requires
        unique_ids(s),
        0 <= k < s.len(),
        v.id == s[k].id,
    ensures
        unique_ids(s.update(k, v)),
        by_id(s.update(k, v)) == by_id(s).insert(v.id, v),
{
    let t = s.update(k, v);
    assert forall|i: int, j: int| 0 <= i < j < t.len() implies t[i].id != t[j].id by {
        assert(s[i].id != s[j].id);
    }
    assert forall|id: Seq<char>| #[trigger] has_id(t, id) == has_id(s, id) by {
        if has_id(s, id) {
            let i = choose|i: int| 0 <= i < s.len() && #[trigger] s[i].id == id;
            assert(t[i].id == id);
        }
        if has_id(t, id) {
            let i = choose|i: int| 0 <= i < t.len() && #[trigger] t[i].id == id;
            assert(s[i].id == id);
        }
    }
    lemma_by_id_at(s, k);
    assert forall|id: Seq<char>| #[trigger] by_id(t).contains_key(id) implies by_id(t)[id] == by_id(s).insert(v.id, v)[id] by {
        let i = choose|i: int| 0 <= i < t.len() && #[trigger] t[i].id == id;
        lemma_by_id_at(t, i);
        if i != k {
            lemma_by_id_at(s, i);
        }
    }
    assert(by_id(t) =~= by_id(s).insert(v.id, v));
}

proof fn lemma_by_id_remove(s: Seq<SessionView>, k: int)
    requires
        unique_ids(s),
        0 <= k < s.len(),
    ensures
        unique_ids(s.remove(k)),
        by_id(s.remove(k)) == by_id(s).remove(s[k].id),
{
    let t = s.remove(k);
    let gone = s[k].id;
    assert forall|i: int, j: int| 0 <= i < j < t.len() implies t[i].id != t[j].id by {
        let a = if i < k { i } else { i + 1 };
        let b = if j < k { j } else { j + 1 };
        assert(s[a].id != s[b].id);
    }
    assert forall|id: Seq<char>| #[trigger] has_id(t, id) == (has_id(s, id) && id != gone) by {
        if has_id(t, id) {
            let i = choose|i: int| 0 <= i < t.len() && #[trigger] t[i].id == id;
            let a = if i < k { i } else { i + 1 };
            assert(s[a].id == id);
            if a < k {
                assert(s[a].id != s[k].id);
            } else {
                assert(s[k].id != s[a].id);
            }
        }
        if has_id(s, id) && id != gone {
            let i = choose|i: int| 0 <= i < s.len() && #[trigger] s[i].id == id;
            assert(i != k);
            let a = if i < k { i } else { i - 1 };
            assert(t[a].id == id);
        }
    }
    assert forall|id: Seq<char>| #[trigger] by_id(t).contains_key(id) implies by_id(t)[id] == by_id(s).remove(gone)[id] by {
        let i = choose|i: int| 0 <= i < t.len() && #[trigger] t[i].id == id;
        lemma_by_id_at(t, i);
        let a = if i < k { i } else { i + 1 };
        assert(s[a] == t[i]);
        lemma_by_id_at(s, a);
    }
    assert(by_id(t) =~= by_id(s).remove(gone));
}

/// The sessions of a workspace, each id once.
pub struct SessionRegistry {
    sessions: Vec<ManagedSession>,
}

impl View for SessionRegistry {
    type V = Map<Seq<char>, SessionView>;

    closed spec fn view(&self) -> Map<Seq<char>, SessionView> {
        by_id(session_views(self.sessions@))
    }
}

/// A session's view is filed under its id.
pub open spec fn keyed(m: Map<Seq<char>, SessionView>) -> bool {
    forall|id: Seq<char>| #[trigger] m.contains_key(id) ==> m[id].id == id
}

impl SessionRegistry {
    pub closed spec fn well_formed(&self) -> bool {
        unique_ids(session_views(self.sessions@))
    }

    pub proof fn lemma_keyed(&self)
        requires
            self.well_formed(),
        ensures
            keyed(self@),
            self@.dom().finite(),
    {
        let s = session_views(self.sessions@);
        assert forall|id: Seq<char>| #[trigger] self@.contains_key(id) implies self@[id].id == id by {
            let i = choose|i: int| 0 <= i < s.len() && #[trigger] s[i].id == id;
            lemma_by_id_at(s, i);
        }
        let ids = Set::new(|id: Seq<char>| has_id(s, id));
        assert(self@.dom() =~= ids);
        lemma_ids_finite(s);
    }

    /// A registry with no session.
    pub fn new() -> (r: Self)
        ensures
            r.well_formed(),
            r@ == Map::<Seq<char>, SessionView>::empty(),
    {
        let r = SessionRegistry { sessions: Vec::new() };
        proof {
            assert(r@ =~= Map::<Seq<char>, SessionView>::empty());
        }
        r
    }

    fn find(&self, id: &str) -> (r: Option<usize>)
        requires
            self.well_formed(),
        ensures
            r matches Some(k) ==> k < self.sessions@.len() && self.sessions@[k as int].summary.id@ == id@,
            r is None ==> !self@.contains_key(id@),
    {
        let target = chars_of(id);
        let mut k: usize = 0;
        while k < self.sessions.len()
            invariant
                k <= self.sessions@.len(),
                target@ == id@,
                forall|j: int| 0 <= j < k ==> #[trigger] self.sessions@[j].summary.id@ != id@,
            decreases self.sessions@.len() - k,
        {
            if seq_eq(&chars_of(self.sessions[k].summary.id.as_str()), &target) {
                return Some(k);
            }
            k = k + 1;
        }
        proof {
            let s = session_views(self.sessions@);
            if has_id(s, id@) {
                let i = choose|i: int| 0 <= i < s.len() && #[trigger] s[i].id == id@;
                assert(self.sessions@[i].summary.id@ == id@);
            }
        }
        None
    }

    /// Files `session` under its id, in place of any session with that id.
    pub fn upsert(&mut self, session: ManagedSession)
        requires
            old(self).well_formed(),
        ensures
            final(self).well_formed(),
            final(self)@ == old(self)@.insert(session.summary.id@, session_view(session)),
    {
        let ghost v = session_view(session);
        let ghost before = session_views(self.sessions@);
        match self.find(session.summary.id.as_str()) {
            Some(k) => {
                self.sessions.set(k, session);
                proof {
                    assert(session_views(self.sessions@) =~= before.update(k as int, v));
                    lemma_by_id_update(before, k as int, v);
                }
            },
            None => {
                self.sessions.push(session);
                proof {
                    assert(session_views(self.sessions@) =~= before.push(v));
                    assert(!has_id(before, v.id));
                    lemma_by_id_push(before, v);
                }
            },
        }
    }

    /// Forgets the session `id`; whether there was one.
    pub fn remove(&mut self, id: &str) -> (r: bool)
        requires
            old(self).well_formed(),
        ensures
            final(self).well_formed(),
            r == old(self)@.contains_key(id@),
            final(self)@ == old(self)@.remove(id@),
    {
        let ghost before = session_views(self.sessions@);
        match self.find(id) {
            Some(k) => {
                let _ = self.sessions.remove(k);
                proof {
                    assert(session_views(self.sessions@) =~= before.remove(k as int));
                    lemma_by_id_remove(before, k as int);
                    lemma_by_id_at(before, k as int);
                }
                true
            },
            None => {
                proof {
                    assert(old(self)@.remove(id@) =~= old(self)@);
                }
                false
            },
        }
    }
}


/// `r` lists each session of `m` once, by its summary.
pub open spec fn listing_of(m: Map<Seq<char>, SessionView>, r: Seq<AgentSessionSummary>) -> bool {
    &&& forall|i: int| 0 <= i < r.len() ==> m.contains_key(#[trigger] r[i].id@) && m[r[i].id@].summary == summary_view(r[i])
    &&& forall|i: int, j: int| 0 <= i < j < r.len() ==> r[i].id@ != r[j].id@
    &&& forall|id: Seq<char>| #[trigger] m.contains_key(id) ==> exists|i: int| 0 <= i < r.len() && #[trigger] r[i].id@ == id
}

/// The most recently updated come first.
pub open spec fn newest_first(r: Seq<AgentSessionSummary>) -> bool {
    forall|i: int, j: int| 0 <= i < j < r.len() ==> r[i].updated_at_ms >= r[j].updated_at_ms
}

/// A copy of a summary.
pub fn copy_summary(s: &AgentSessionSummary) -> (r: AgentSessionSummary)
    ensures
        r == *s,
{
    AgentSessionSummary {
        id: s.id.clone(),
        title: s.title.clone(),
        updated_at_ms: s.updated_at_ms,
        status: s.status,
        status_message: s.status_message.clone(),
        running: s.running,
    }
}

/// A session found saved on disk.
#[derive(Debug)]
pub struct SavedSession {
    pub id: String,
    pub path: String,
    pub title: String,
    pub updated_at_ms: u64,
}

/// A saved session as the registry holds it: stopped, with its file.
pub open spec fn saved_view(s: SavedSession) -> SessionView {
    SessionView {
        id: s.id@,
        summary: SummaryView {
            title: s.title@,
            updated_at_ms: s.updated_at_ms,
            status: AgentStatus::Stopped,
            status_message: "Saved"@,
            running: false,
        },
        path: Some(s.path@),
        attached: false,
    }
}

/// The saved sessions by id, a later one in place of an earlier one with
/// its id.
pub open spec fn saved_by_id(saved: Seq<SavedSession>) -> Map<Seq<char>, SessionView>
    decreases saved.len(),
{
    if saved.len() == 0 {
        Map::empty()
    } else {
        saved_by_id(saved.drop_last()).insert(saved.last().id@, saved_view(saved.last()))
    }
}

/// What selecting a session comes to.
#[derive(Debug, PartialEq, Eq)]
pub enum Selection {
    /// A Pi process runs for it already.
    Running,
    /// Pi is started on its saved file.
    Resume(String),
}

pub open spec fn starting_summary(s: SummaryView, now_ms: u64) -> SummaryView {
    SummaryView {
        running: true,
        status: AgentStatus::Starting,
        status_message: "Starting Pi…"@,
        updated_at_ms: now_ms,
        ..s
    }
}

/// The session a new chat starts as.
pub open spec fn new_chat_view(id: Seq<char>, now_ms: u64) -> SessionView {
    SessionView {
        id,
        summary: SummaryView {
            title: "New chat"@,
            updated_at_ms: now_ms,
            status: AgentStatus::Starting,
            status_message: "Starting Pi…"@,
            running: true,
        },
        path: None,
        attached: true,
    }
}

impl SessionRegistry {
    /// The registry of the sessions found saved for a workspace.
    pub fn from_saved(saved: Vec<SavedSession>) -> (r: Self)
        ensures
            r.well_formed(),
            r@ == saved_by_id(saved@),
    {
        let mut r = SessionRegistry::new();
        let mut k: usize = 0;
        while k < saved.len()
            invariant
                r.well_formed(),
                k <= saved@.len(),
                r@ == saved_by_id(saved@.take(k as int)),
            decreases saved@.len() - k,
        {
            let s = &saved[k];
            proof {
                assert(saved@.take(k + 1).drop_last() =~= saved@.take(k as int));
            }
            let session = ManagedSession {
                summary: AgentSessionSummary {
                    id: s.id.clone(),
                    title: s.title.clone(),
                    updated_at_ms: s.updated_at_ms,
                    status: AgentStatus::Stopped,
                    status_message: "Saved".to_owned(),
                    running: false,
                },
                path: Some(s.path.clone()),
                attached: false,
            };
            r.upsert(session);
            k = k + 1;
        }
        proof {
            assert(saved@.take(saved@.len() as int) =~= saved@);
        }
        r
    }

    /// The sessions, newest first.
    pub fn sessions(&self) -> (r: Vec<AgentSessionSummary>)
        requires
            self.well_formed(),
        ensures
            listing_of(self@, r@),
            newest_first(r@),
    {
        let ghost views = session_views(self.sessions@);
        let mut out: Vec<AgentSessionSummary> = Vec::new();
        let mut k: usize = 0;
        while k < self.sessions.len()
            invariant
                k <= self.sessions@.len(),
                views == session_views(self.sessions@),
                unique_ids(views),
                prefix_listing(views, k as int, out@),
            decreases self.sessions@.len() - k,
        {
            let s = copy_summary(&self.sessions[k].summary);
            let mut p: usize = 0;
            while p < out.len() && out[p].updated_at_ms >= s.updated_at_ms
                invariant
                    p <= out@.len(),
                    forall|i: int| 0 <= i < p ==> (#[trigger] out@[i]).updated_at_ms >= s.updated_at_ms,
                decreases out@.len() - p,
            {
                p = p + 1;
            }
            let ghost before = out@;
            out.insert(p, s);
            proof {
                lemma_insert_step(views, k as int, before, p as int, s);
            }
            k = k + 1;
        }
        proof {
            lemma_full_listing(views, out@);
        }
        out
    }

    /// How a session is opened: its running process, or Pi started on its
    /// saved file. An unknown session, or one with neither, is not found.
    pub fn selection(&self, id: &str) -> (r: Result<Selection, AgentError>)
        requires
            self.well_formed(),
        ensures
            !self@.contains_key(id@) ==> (r matches Err(e) && e.code == AgentErrorCode::InvalidRequest
                && e.message@ == "Pi session not found"@),
            self@.contains_key(id@) && self@[id@].attached ==> r == Ok::<Selection, AgentError>(Selection::Running),
            self@.contains_key(id@) && !self@[id@].attached ==> match self@[id@].path {
                Some(p) => r matches Ok(Selection::Resume(path)) && path@ == p,
                None => r matches Err(e) && e.code == AgentErrorCode::InvalidRequest && e.message@ == "Pi session not found"@,
            },
    {
        match self.find(id) {
            Some(k) => {
                proof {
                    lemma_by_id_at(session_views(self.sessions@), k as int);
                }
                let session = &self.sessions[k];
                if session.attached {
                    Ok(Selection::Running)
                } else {
                    match &session.path {
                        Some(p) => Ok(Selection::Resume(p.clone())),
                        None => Err(AgentError::new(AgentErrorCode::InvalidRequest, "Pi session not found")),
                    }
                }
            },
            None => Err(AgentError::new(AgentErrorCode::InvalidRequest, "Pi session not found")),
        }
    }

    /// Records that Pi was started for the session `id` at `now_ms`.
    pub fn mark_started(&mut self, id: &str, now_ms: u64)
        requires
            old(self).well_formed(),
        ensures
            final(self).well_formed(),
            old(self)@.contains_key(id@) ==> final(self)@ == old(self)@.insert(
                id@,
                SessionView { summary: starting_summary(old(self)@[id@].summary, now_ms), attached: true, ..old(self)@[id@] },
            ),
            !old(self)@.contains_key(id@) ==> final(self)@ == old(self)@,
    {
        match self.find(id) {
            Some(k) => {
                proof {
                    lemma_by_id_at(session_views(self.sessions@), k as int);
                }
                let old_session = &self.sessions[k];
                let session = ManagedSession {
                    summary: AgentSessionSummary {
                        id: old_session.summary.id.clone(),
                        title: old_session.summary.title.clone(),
                        updated_at_ms: now_ms,
                        status: AgentStatus::Starting,
                        status_message: "Starting Pi…".to_owned(),
                        running: true,
                    },
                    path: match &old_session.path {
                        Some(p) => Some(p.clone()),
                        None => None,
                    },
                    attached: true,
                };
                self.upsert(session);
            },
            None => {},
        }
    }

    /// Files a new chat `id`, created at `now_ms`, whose Pi is starting.
    pub fn add_new_chat(&mut self, id: &str, now_ms: u64)
        requires
            old(self).well_formed(),
        ensures
            final(self).well_formed(),
            final(self)@ == old(self)@.insert(id@, new_chat_view(id@, now_ms)),
    {
        self.upsert(ManagedSession {
            summary: AgentSessionSummary {
                id: id.to_owned(),
                title: "New chat".to_owned(),
                updated_at_ms: now_ms,
                status: AgentStatus::Starting,
                status_message: "Starting Pi…".to_owned(),
                running: true,
            },
            path: None,
            attached: true,
        });
    }
}

/// A saved session left behind when a fork takes the running process: it
/// is stopped and saved.
pub open spec fn left_saved(v: SessionView) -> SessionView {
    SessionView {
        summary: SummaryView { status: AgentStatus::Stopped, status_message: "Saved"@, running: false, ..v.summary },
        attached: false,
        ..v
    }
}

/// The forked session under its new id, updated at `now_ms`, with the
/// file its process writes.
pub open spec fn forked_view(v: SessionView, next: Seq<char>, file: Option<Seq<char>>, now_ms: u64) -> SessionView {
    SessionView { id: next, summary: SummaryView { updated_at_ms: now_ms, ..v.summary }, path: file, ..v }
}

/// A session whose process is let go: stopped and saved, its file kept or
/// learnt from the process.
pub open spec fn retired_view(v: SessionView, file: Option<Seq<char>>) -> SessionView {
    SessionView {
        summary: SummaryView { status: AgentStatus::Stopped, status_message: "Saved"@, running: false, ..v.summary },
        attached: false,
        path: match v.path {
            Some(p) => Some(p),
            None => file,
        },
        ..v
    }
}

/// A running session other than the selected one whose Pi is ready.
pub open spec fn settled_background(v: SessionView, selected: Seq<char>, ready: Seq<Seq<char>>) -> bool {
    v.attached && v.id != selected && ready.contains(v.id)
}

/// The settled background sessions of `m`.
pub open spec fn settled_sessions(m: Map<Seq<char>, SessionView>, selected: Seq<char>, ready: Seq<Seq<char>>) -> Map<Seq<char>, SessionView> {
    Map::new(|id: Seq<char>| m.contains_key(id) && settled_background(m[id], selected, ready), |id: Seq<char>| m[id])
}

pub open spec fn summary_ids(v: Seq<AgentSessionSummary>) -> Seq<Seq<char>> {
    v.map_values(|s: AgentSessionSummary| s.id@)
}

/// The sessions past the newest `MAX_SETTLED_BACKGROUND_SESSIONS` of a
/// newest-first list.
pub open spec fn beyond_kept(c: Seq<AgentSessionSummary>) -> Seq<Seq<char>> {
    if c.len() > MAX_SETTLED_BACKGROUND_SESSIONS {
        summary_ids(c).skip(MAX_SETTLED_BACKGROUND_SESSIONS as int)
    } else {
        Seq::empty()
    }
}

/// Where a session's file is looked for when it is deleted: the file its
/// process writes, else the one it was saved in, else one found on disk.
pub fn deletion_path(process_file: Option<String>, saved: Option<String>, found: Option<String>) -> (r: Option<String>)
    ensures
        r == match process_file {
            Some(p) => Some(p),
            None => match saved {
                Some(p) => Some(p),
                None => found,
            },
        },
{
    match process_file {
        Some(p) => Some(p),
        None => match saved {
            Some(p) => Some(p),
            None => found,
        },
    }
}

fn text_in(list: &Vec<String>, id: &str) -> (r: bool)
    ensures
        r == summary_texts(list@).contains(id@),
{
    let target = chars_of(id);
    let mut i: usize = 0;
    while i < list.len()
        invariant
            i <= list@.len(),
            target@ == id@,
            forall|j: int| 0 <= j < i ==> list@[j]@ != id@,
        decreases list@.len() - i,
    {
        if seq_eq(&chars_of(list[i].as_str()), &target) {
            proof {
                assert(summary_texts(list@)[i as int] == id@);
            }
            return true;
        }
        i = i + 1;
    }
    proof {
        if summary_texts(list@).contains(id@) {
            let j = choose|j: int| 0 <= j < summary_texts(list@).len() && summary_texts(list@)[j] == id@;
            assert(list@[j]@ == id@);
        }
    }
    false
}

pub open spec fn summary_texts(v: Seq<String>) -> Seq<Seq<char>> {
    v.map_values(|s: String| s@)
}

fn copy_text(o: &Option<String>) -> (r: Option<String>)
    ensures
        r == *o,
{
    match o {
        Some(p) => Some(p.clone()),
        None => None,
    }
}

impl SessionRegistry {
    /// Names the session `id` after `name` (its words on one line) at
    /// `now_ms`; the name Pi is sent.
    pub fn rename(&mut self, id: &str, name: &str, now_ms: u64) -> (r: String)
        requires
            old(self).well_formed(),
        ensures
            final(self).well_formed(),
            r@ == normalized_words(name@),
            old(self)@.contains_key(id@) ==> final(self)@ == old(self)@.insert(
                id@,
                SessionView {
                    summary: SummaryView { title: normalized_words(name@), updated_at_ms: now_ms, ..old(self)@[id@].summary },
                    ..old(self)@[id@]
                },
            ),
            !old(self)@.contains_key(id@) ==> final(self)@ == old(self)@,
    {
        let title = string_from_chars(&normalize_words(name));
        match self.find(id) {
            Some(k) => {
                proof {
                    lemma_by_id_at(session_views(self.sessions@), k as int);
                }
                let s = &self.sessions[k];
                let session = ManagedSession {
                    summary: AgentSessionSummary {
                        id: s.summary.id.clone(),
                        title: title.clone(),
                        updated_at_ms: now_ms,
                        status: s.summary.status,
                        status_message: s.summary.status_message.clone(),
                        running: s.summary.running,
                    },
                    path: copy_text(&s.path),
                    attached: s.attached,
                };
                self.upsert(session);
            },
            None => {},
        }
        title
    }

    /// Records a prompt sent to the session `id` at `now_ms`. A session
    /// still called "New chat" is named after the prompt, and that name is
    /// returned to be sent to Pi.
    pub fn prompted(&mut self, id: &str, text: &str, now_ms: u64) -> (r: Result<Option<String>, AgentError>)
        requires
            old(self).well_formed(),
        ensures
            final(self).well_formed(),
            !old(self)@.contains_key(id@) ==> final(self)@ == old(self)@ && (r matches Err(e) && e.code
                == AgentErrorCode::Internal && e.message@ == "Selected Pi session disappeared"@),
            old(self)@.contains_key(id@) ==> {
                let v = old(self)@[id@];
                let named = v.summary.title == "New chat"@;
                &&& r matches Ok(name) && (named ==> (name matches Some(t) && t@ == title_of(text@))) && (!named ==> name is None)
                &&& final(self)@ == old(self)@.insert(
                    id@,
                    SessionView {
                        summary: SummaryView {
                            title: if named { title_of(text@) } else { v.summary.title },
                            updated_at_ms: now_ms,
                            ..v.summary
                        },
                        ..v
                    },
                )
            },
    {
        match self.find(id) {
            Some(k) => {
                proof {
                    lemma_by_id_at(session_views(self.sessions@), k as int);
                }
                let s = &self.sessions[k];
                let named = seq_eq(&chars_of(s.summary.title.as_str()), &chars_of("New chat"));
                let title = if named {
                    prompt_title(text)
                } else {
                    s.summary.title.clone()
                };
                let session = ManagedSession {
                    summary: AgentSessionSummary {
                        id: s.summary.id.clone(),
                        title: title.clone(),
                        updated_at_ms: now_ms,
                        status: s.summary.status,
                        status_message: s.summary.status_message.clone(),
                        running: s.summary.running,
                    },
                    path: copy_text(&s.path),
                    attached: s.attached,
                };
                self.upsert(session);
                if named {
                    Ok(Some(title))
                } else {
                    Ok(None)
                }
            },
            None => Err(AgentError::new(AgentErrorCode::Internal, "Selected Pi session disappeared")),
        }
    }

    /// Takes an event of the session `id`'s process into the registry, at
    /// `now_ms`; `session_file` is the file that process writes. Its
    /// summary changes as `summary_updated` says; its file is learnt again
    /// when the update asks for it, and a failed process is let go.
    pub fn apply_event(&mut self, id: &str, event: &ServerMessage, now_ms: u64, session_file: Option<String>) -> (r: Option<SummaryUpdate>)
        requires
            old(self).well_formed(),
        ensures
            final(self).well_formed(),
            !old(self)@.contains_key(id@) ==> r is None && final(self)@ == old(self)@,
            old(self)@.contains_key(id@) ==> {
                let v = old(self)@[id@];
                let (summary, update) = summary_updated(v.summary, v.path is Some, event_view(*event), now_ms);
                &&& r matches Some(u) && update_view(u) == update
                &&& final(self)@ == old(self)@.insert(
                    id@,
                    SessionView {
                        summary,
                        path: if update.refresh_path { opt_text(session_file) } else { v.path },
                        attached: v.attached && !update.drop_process,
                        id: v.id,
                    },
                )
            },
    {
        match self.find(id) {
            Some(k) => {
                proof {
                    lemma_by_id_at(session_views(self.sessions@), k as int);
                }
                let s = &self.sessions[k];
                let mut summary = copy_summary(&s.summary);
                let has_path = s.path.is_some();
                let update = update_summary(&mut summary, has_path, event, now_ms);
                let path = if update.refresh_path {
                    session_file
                } else {
                    copy_text(&s.path)
                };
                let session = ManagedSession { summary, path, attached: s.attached && !update.drop_process };
                self.upsert(session);
                Some(update)
            },
            None => None,
        }
    }

    /// Moves the session `previous` to the id `next` that its process took
    /// on forking, at `now_ms`, with the file `session_file` that process
    /// writes. The saved conversation it forked from stays under
    /// `previous`, stopped; a session never saved leaves nothing behind.
    /// Nothing changes when `next` is taken or `previous` unknown.
    pub fn rekey(&mut self, previous: &str, next: &str, session_file: Option<String>, now_ms: u64) -> (r: bool)
        requires
            old(self).well_formed(),
        ensures
            final(self).well_formed(),
            r == (!old(self)@.contains_key(next@) && old(self)@.contains_key(previous@)),
            !r ==> final(self)@ == old(self)@,
            r ==> final(self)@ == (if old(self)@[previous@].path is Some {
                old(self)@.insert(previous@, left_saved(old(self)@[previous@]))
            } else {
                old(self)@.remove(previous@)
            }).insert(next@, forked_view(old(self)@[previous@], next@, opt_text(session_file), now_ms)),
    {
        match self.find(next) {
            Some(j) => {
                proof {
                    lemma_by_id_at(session_views(self.sessions@), j as int);
                }
                return false;
            },
            None => {},
        }
        let k = match self.find(previous) {
            Some(k) => k,
            None => {
                return false;
            },
        };
        proof {
            lemma_by_id_at(session_views(self.sessions@), k as int);
        }
        let s = &self.sessions[k];
        let forked = ManagedSession {
            summary: AgentSessionSummary {
                id: next.to_owned(),
                title: s.summary.title.clone(),
                updated_at_ms: now_ms,
                status: s.summary.status,
                status_message: s.summary.status_message.clone(),
                running: s.summary.running,
            },
            path: session_file,
            attached: s.attached,
        };
        let left = match &s.path {
            Some(p) => Some(ManagedSession {
                summary: AgentSessionSummary {
                    id: s.summary.id.clone(),
                    title: s.summary.title.clone(),
                    updated_at_ms: s.summary.updated_at_ms,
                    status: AgentStatus::Stopped,
                    status_message: "Saved".to_owned(),
                    running: false,
                },
                path: Some(p.clone()),
                attached: false,
            }),
            None => None,
        };
        match left {
            Some(original) => self.upsert(original),
            None => {
                self.remove(previous);
            },
        }
        self.upsert(forked);
        true
    }

    /// Lets the process of the session `id` go: it is stopped and saved,
    /// in the file it had or the one its process wrote.
    pub fn retire(&mut self, id: &str, session_file: Option<String>)
        requires
            old(self).well_formed(),
        ensures
            final(self).well_formed(),
            old(self)@.contains_key(id@) ==> final(self)@ == old(self)@.insert(
                id@,
                retired_view(old(self)@[id@], opt_text(session_file)),
            ),
            !old(self)@.contains_key(id@) ==> final(self)@ == old(self)@,
    {
        match self.find(id) {
            Some(k) => {
                proof {
                    lemma_by_id_at(session_views(self.sessions@), k as int);
                }
                let s = &self.sessions[k];
                let session = ManagedSession {
                    summary: AgentSessionSummary {
                        id: s.summary.id.clone(),
                        title: s.summary.title.clone(),
                        updated_at_ms: s.summary.updated_at_ms,
                        status: AgentStatus::Stopped,
                        status_message: "Saved".to_owned(),
                        running: false,
                    },
                    path: match &s.path {
                        Some(p) => Some(p.clone()),
                        None => session_file,
                    },
                    attached: false,
                };
                self.upsert(session);
            },
            None => {},
        }
    }
}

impl SessionRegistry {
    fn is_attached(&self, id: &str) -> (r: bool)
        requires
            self.well_formed(),
        ensures
            r == (self@.contains_key(id@) && self@[id@].attached),
    {
        match self.find(id) {
            Some(k) => {
                proof {
                    lemma_by_id_at(session_views(self.sessions@), k as int);
                }
                self.sessions[k].attached
            },
            None => false,
        }
    }

    /// The sessions whose processes are let go when `selected` is opened:
    /// of the running sessions other than `selected` whose Pi is ready
    /// (`ready` lists them), all but the most recently updated
    /// `MAX_SETTLED_BACKGROUND_SESSIONS`.
    pub fn sessions_to_retire(&self, selected: &str, ready: &Vec<String>) -> (r: Vec<String>)
        requires
            self.well_formed(),
        ensures
            exists|c: Seq<AgentSessionSummary>|
                listing_of(settled_sessions(self@, selected@, summary_texts(ready@)), c) && newest_first(c)
                    && summary_texts(r@) == beyond_kept(c),
    {
        let all = self.sessions();
        let ghost m = self@;
        let ghost cand = settled_sessions(m, selected@, summary_texts(ready@));
        let mut c: Vec<AgentSessionSummary> = Vec::new();
        let mut i: usize = 0;
        while i < all.len()
            invariant
                i <= all@.len(),
                m == self@,
                self.well_formed(),
                cand == settled_sessions(m, selected@, summary_texts(ready@)),
                listing_of(m, all@),
                newest_first(all@),
                forall|x: int| 0 <= x < c@.len() ==> exists|j: int| 0 <= j < i && all@[j] == #[trigger] c@[x],
                forall|x: int| 0 <= x < c@.len() ==> cand.contains_key(#[trigger] c@[x].id@),
                forall|j: int| 0 <= j < i && cand.contains_key(#[trigger] all@[j].id@) ==> listed(c@, all@[j].id@),
                forall|x: int, y: int| 0 <= x < y < c@.len() ==> c@[x].id@ != c@[y].id@,
                newest_first(c@),
            decreases all@.len() - i,
        {
            let s = &all[i];
            let id = s.id.as_str();
            let keep = self.is_attached(id) && !seq_eq(&chars_of(id), &chars_of(selected)) && text_in(ready, id);
            proof {
                assert(m.contains_key(all@[i as int].id@));
                assert(keep == cand.contains_key(all@[i as int].id@));
            }
            if keep {
                let ghost before = c@;
                c.push(copy_summary(s));
                proof {
                    assert(c@ == before.push(all@[i as int]));
                    assert forall|x: int| 0 <= x < c@.len() implies exists|j: int| 0 <= j < i + 1 && all@[j] == #[trigger] c@[x] by {
                        if x < before.len() {
                            assert(c@[x] == before[x]);
                        } else {
                            assert(all@[i as int] == c@[x]);
                        }
                    }
                    assert forall|x: int, y: int| 0 <= x < y < c@.len() implies c@[x].id@ != c@[y].id@ by {
                        if y == before.len() {
                            let j = choose|j: int| 0 <= j < i && all@[j] == #[trigger] before[x];
                            assert(all@[j].id@ != all@[i as int].id@);
                        }
                    }
                    assert forall|x: int, y: int| 0 <= x < y < c@.len() implies c@[x].updated_at_ms >= c@[y].updated_at_ms by {
                        if y == before.len() {
                            let j = choose|j: int| 0 <= j < i && all@[j] == #[trigger] before[x];
                        }
                    }
                    assert forall|j: int| 0 <= j < i + 1 && cand.contains_key(#[trigger] all@[j].id@) implies listed(c@, all@[j].id@) by {
                        if j < i {
                            assert(listed(before, all@[j].id@));
                            let x = choose|x: int| 0 <= x < before.len() && before[x].id@ == all@[j].id@;
                            assert(c@[x] == before[x]);
                        } else {
                            assert(c@[before.len() as int].id@ == all@[j].id@);
                        }
                    }
                }
            }
            i = i + 1;
        }
        let mut r: Vec<String> = Vec::new();
        let mut k: usize = MAX_SETTLED_BACKGROUND_SESSIONS;
        while k < c.len()
            invariant
                MAX_SETTLED_BACKGROUND_SESSIONS <= k,
                c@.len() > MAX_SETTLED_BACKGROUND_SESSIONS ==> k <= c@.len(),
                c@.len() > MAX_SETTLED_BACKGROUND_SESSIONS ==> summary_texts(r@) == summary_ids(c@).subrange(
                    MAX_SETTLED_BACKGROUND_SESSIONS as int,
                    k as int,
                ),
                c@.len() <= MAX_SETTLED_BACKGROUND_SESSIONS ==> r@.len() == 0,
            decreases c@.len() - k,
        {
            let ghost before = summary_texts(r@);
            r.push(c[k].id.clone());
            proof {
                assert(summary_texts(r@) =~= before.push(c@[k as int].id@));
                assert(summary_ids(c@).subrange(MAX_SETTLED_BACKGROUND_SESSIONS as int, k + 1) =~= summary_ids(c@).subrange(
                    MAX_SETTLED_BACKGROUND_SESSIONS as int,
                    k as int,
                ).push(c@[k as int].id@));
            }
            k = k + 1;
        }
        proof {
            assert forall|x: int| 0 <= x < c@.len() implies cand.contains_key(#[trigger] c@[x].id@) && cand[c@[x].id@].summary
                == summary_view(c@[x]) by {
                let j = choose|j: int| 0 <= j < all@.len() && all@[j] == #[trigger] c@[x];
                assert(m.contains_key(all@[j].id@));
            }
            assert forall|id: Seq<char>| #[trigger] cand.contains_key(id) implies exists|x: int| 0 <= x < c@.len()
                && #[trigger] c@[x].id@ == id by {
                assert(m.contains_key(id));
                let j = choose|j: int| 0 <= j < all@.len() && #[trigger] all@[j].id@ == id;
                assert(cand.contains_key(all@[j].id@));
                assert(listed(c@, all@[j].id@));
            }
            if c@.len() > MAX_SETTLED_BACKGROUND_SESSIONS {
                assert(summary_texts(r@) =~= beyond_kept(c@));
            } else {
                assert(summary_texts(r@) =~= beyond_kept(c@));
            }
            assert(listing_of(cand, c@));
        }
        r
    }
}

/// Retiring settled sessions spares the selected session and the newest
/// `MAX_SETTLED_BACKGROUND_SESSIONS` settled ones: every session it lets
/// go was updated no later than every one it keeps, and exactly the
/// surplus is let go.
pub proof fn retirement_spares_the_newest(
    m: Map<Seq<char>, SessionView>,
    selected: Seq<char>,
    ready: Seq<Seq<char>>,
    c: Seq<AgentSessionSummary>,
)
    requires
        keyed(m),
        listing_of(settled_sessions(m, selected, ready), c),
        newest_first(c),
    ensures
        !beyond_kept(c).contains(selected),
        forall|i: int| 0 <= i < c.len() && i < MAX_SETTLED_BACKGROUND_SESSIONS ==> !beyond_kept(c).contains(
            #[trigger] c[i].id@,
        ),
        beyond_kept(c).len() == if c.len() > MAX_SETTLED_BACKGROUND_SESSIONS {
            c.len() - MAX_SETTLED_BACKGROUND_SESSIONS
        } else {
            0
        },
        forall|i: int, j: int|
            0 <= i < MAX_SETTLED_BACKGROUND_SESSIONS && MAX_SETTLED_BACKGROUND_SESSIONS <= j < c.len() ==> i < c.len()
                && (#[trigger] c[i]).updated_at_ms >= (#[trigger] c[j]).updated_at_ms,
{
    let n = MAX_SETTLED_BACKGROUND_SESSIONS as int;
    let settled = settled_sessions(m, selected, ready);
    if beyond_kept(c).contains(selected) {
        let x = choose|x: int| 0 <= x < beyond_kept(c).len() && beyond_kept(c)[x] == selected;
        let id = c[x + n].id@;
        assert(settled.contains_key(id));
        assert(m[id].id == id);
    }
    assert forall|i: int| 0 <= i < c.len() && i < MAX_SETTLED_BACKGROUND_SESSIONS implies !beyond_kept(c).contains(
        #[trigger] c[i].id@,
    ) by {
        if beyond_kept(c).contains(c[i].id@) {
            let x = choose|x: int| 0 <= x < beyond_kept(c).len() && beyond_kept(c)[x] == c[i].id@;
            assert(c[x + n].id@ == c[i].id@);
        }
    }
}

/// Some one of the first `k` of `views` has the id and summary of `s`.
pub open spec fn came_from(views: Seq<SessionView>, k: int, s: AgentSessionSummary) -> bool {
    exists|j: int| 0 <= j < k && views[j].id == s.id@ && views[j].summary == summary_view(s)
}

/// Some summary of `out` has the id `id`.
pub open spec fn listed(out: Seq<AgentSessionSummary>, id: Seq<char>) -> bool {
    exists|i: int| 0 <= i < out.len() && out[i].id@ == id
}

/// `out` lists the first `k` of `views` newest first, each once.
pub open spec fn prefix_listing(views: Seq<SessionView>, k: int, out: Seq<AgentSessionSummary>) -> bool {
    &&& newest_first(out)
    &&& forall|i: int| 0 <= i < out.len() ==> #[trigger] came_from(views, k, out[i])
    &&& forall|i: int, j: int| 0 <= i < j < out.len() ==> out[i].id@ != out[j].id@
    &&& forall|j: int| 0 <= j < k ==> #[trigger] listed(out, views[j].id)
}

proof fn lemma_insert_step(views: Seq<SessionView>, k: int, before: Seq<AgentSessionSummary>, p: int, s: AgentSessionSummary)
    requires
        unique_ids(views),
        0 <= k < views.len(),
        views[k].id == s.id@,
        views[k].summary == summary_view(s),
        prefix_listing(views, k, before),
        0 <= p <= before.len(),
        forall|i: int| 0 <= i < p ==> (#[trigger] before[i]).updated_at_ms >= s.updated_at_ms,
        p < before.len() ==> before[p].updated_at_ms < s.updated_at_ms,
    ensures
        prefix_listing(views, k + 1, before.insert(p, s)),
{
    let out = before.insert(p, s);
    assert forall|i: int, j: int| 0 <= i < j < out.len() implies out[i].updated_at_ms >= out[j].updated_at_ms by {
        if i < p && j > p {
            assert(before[i].updated_at_ms >= before[j - 1].updated_at_ms);
        } else if i > p {
            assert(before[i - 1].updated_at_ms >= before[j - 1].updated_at_ms);
        } else if i == p && j > p {
            if j - 1 > p {
                assert(before[p].updated_at_ms >= before[j - 1].updated_at_ms);
            }
        }
    }
    assert forall|i: int| 0 <= i < out.len() implies #[trigger] came_from(views, k + 1, out[i]) by {
        if i == p {
            assert(views[k].id == out[i].id@ && views[k].summary == summary_view(out[i]));
        } else {
            let a = if i < p { i } else { i - 1 };
            assert(out[i] == before[a]);
            assert(came_from(views, k, before[a]));
            let j = choose|j: int| 0 <= j < k && views[j].id == before[a].id@ && views[j].summary == summary_view(before[a]);
            assert(0 <= j < k + 1 && views[j].id == out[i].id@ && views[j].summary == summary_view(out[i]));
        }
    }
    assert forall|i: int, j: int| 0 <= i < j < out.len() implies out[i].id@ != out[j].id@ by {
        if i != p && j != p {
            let a = if i < p { i } else { i - 1 };
            let b = if j < p { j } else { j - 1 };
            assert(before[a].id@ != before[b].id@);
        } else {
            let o = if i == p { j } else { i };
            let a = if o < p { o } else { o - 1 };
            assert(out[o] == before[a]);
            assert(came_from(views, k, before[a]));
            let jj = choose|jj: int| 0 <= jj < k && views[jj].id == before[a].id@ && views[jj].summary == summary_view(before[a]);
            assert(views[jj].id != views[k].id);
        }
    }
    assert forall|j: int| 0 <= j < k + 1 implies #[trigger] listed(out, views[j].id) by {
        if j == k {
            assert(out[p].id@ == views[j].id);
        } else {
            assert(listed(before, views[j].id));
            let i = choose|i: int| 0 <= i < before.len() && before[i].id@ == views[j].id;
            if i < p {
                assert(out[i] == before[i]);
            } else {
                assert(out[i + 1] == before[i]);
            }
        }
    }
}

proof fn lemma_full_listing(views: Seq<SessionView>, out: Seq<AgentSessionSummary>)
    requires
        unique_ids(views),
        prefix_listing(views, views.len() as int, out),
    ensures
        listing_of(by_id(views), out),
        newest_first(out),
{
    assert forall|i: int| 0 <= i < out.len() implies by_id(views).contains_key(#[trigger] out[i].id@)
        && by_id(views)[out[i].id@].summary == summary_view(out[i]) by {
        assert(came_from(views, views.len() as int, out[i]));
        let j = choose|j: int| 0 <= j < views.len() && views[j].id == out[i].id@ && views[j].summary == summary_view(out[i]);
        lemma_by_id_at(views, j);
    }
    assert forall|id: Seq<char>| #[trigger] by_id(views).contains_key(id) implies exists|i: int| 0 <= i < out.len()
        && #[trigger] out[i].id@ == id by {
        let j = choose|j: int| 0 <= j < views.len() && #[trigger] views[j].id == id;
        assert(listed(out, views[j].id));
    }
}

proof fn lemma_ids_finite(s: Seq<SessionView>)
    ensures
        Set::new(|id: Seq<char>| has_id(s, id)).finite(),
    decreases s.len(),
{
    let ids = Set::new(|id: Seq<char>| has_id(s, id));
    if s.len() == 0 {
        assert(ids =~= Set::<Seq<char>>::empty());
    } else {
        let t = s.drop_last();
        lemma_ids_finite(t);
        let rest = Set::new(|id: Seq<char>| has_id(t, id));
        assert forall|id: Seq<char>| #[trigger] ids.contains(id) == rest.insert(s.last().id).contains(id) by {
            if has_id(s, id) {
                let i = choose|i: int| 0 <= i < s.len() && #[trigger] s[i].id == id;
                if i < t.len() {
                    assert(t[i].id == id);
                }
            }
            if has_id(t, id) {
                let i = choose|i: int| 0 <= i < t.len() && #[trigger] t[i].id == id;
                assert(s[i].id == id);
            }
            if id == s.last().id {
                assert(s[s.len() - 1].id == id);
            }
        }
        assert(ids =~= rest.insert(s.last().id));
    }
}

/// How renaming the session `session_id` to `name` starts: the request is
/// checked first, and a refused request changes nothing. An accepted one
/// gives the name with its words on one line, which becomes the session's
/// title (`SessionRegistry::rename`), and the `set_session_name` command that
/// gives Pi the same name.
pub fn rename_request(session_id: String, name: String) -> (r: Result<(String, JsonValue), AgentError>)
    ensures
        match validation_error(ClientMessage::RenameSession { session_id, name }) {
            Some((code, message)) => r matches Err(e) && e.code == code && e.message@ == message,
            None => r matches Ok((title, command)) && title@ == normalized_words(name@) && json_view(command)
                == keyed_json("set_session_name"@, "name"@, normalized_words(name@)),
        },
{
    let title = string_from_chars(&normalize_words(name.as_str()));
    let request = ClientMessage::RenameSession { session_id, name };
    match request.validate() {
        Ok(()) => {
            let command = keyed_command("set_session_name", "name", title.as_str());
            Ok((title, command))
        },
        Err(e) => Err(e),
    }
}

} // verus!
