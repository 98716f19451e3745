//! The state of one open file: what is on disk, what the user typed, and a
//! save that may still be running.
use vstd::prelude::*;
use crate::editor_config::EditorConfig;

verus! {

/// What identifies one version of a file on disk.
#[derive(Clone, Copy, Debug, PartialEq, Eq, Structural)]
pub struct FileVersion {
    pub length: u64,
    pub modified_unix_nanos: u128,
}

#[derive(Clone, Copy, Debug, PartialEq, Eq, Structural)]
pub enum BufferStatus {
    Clean,
    Dirty,
    Conflict,
}

#[derive(Clone, Copy, Debug, PartialEq, Eq, Structural)]
pub enum ExternalChange {
    Unchanged,
    Reload,
    Conflict,
}

#[derive(Clone, Debug, PartialEq, Eq)]
pub struct EditorBuffer {
    pub path: String,
    pub saved_contents: String,
    pub contents: String,
    pub version: FileVersion,
    pub status: BufferStatus,
    pub config: EditorConfig,
    pending_save: Option<String>,
}

/// The buffer as plain values.
pub ghost struct BufferState {
    pub path: Seq<char>,
    pub saved: Seq<char>,
    pub contents: Seq<char>,
    pub version: FileVersion,
    pub status: BufferStatus,
    pub config: EditorConfig,
    pub pending: Option<Seq<char>>,
}

impl View for EditorBuffer {
    type V = BufferState;

    closed spec fn view(&self) -> BufferState {
        BufferState {
            path: self.path@,
            saved: self.saved_contents@,
            contents: self.contents@,
            version: self.version,
            status: self.status,
            config: self.config,
            pending: match self.pending_save {
                Some(p) => Some(p@),
                None => None,
            },
        }
    }
}

/// The status that follows from comparing the contents with what was saved.
pub open spec fn status_for(contents: Seq<char>, saved: Seq<char>) -> BufferStatus {
    if contents == saved {
        BufferStatus::Clean
    } else {
        BufferStatus::Dirty
    }
}

/// A buffer is consistent when it is clean exactly while its contents are
/// what was last saved.
pub open spec fn consistent(b: BufferState) -> bool {
    (b.status == BufferStatus::Clean) <==> (b.contents == b.saved)
}

pub open spec fn opened(path: Seq<char>, contents: Seq<char>, version: FileVersion, config: EditorConfig) -> BufferState {
    BufferState {
        path,
        saved: contents,
        contents,
        version,
        status: BufferStatus::Clean,
        config,
        pending: None,
    }
}

pub open spec fn edited(b: BufferState, contents: Seq<char>) -> BufferState {
    BufferState { contents, status: status_for(contents, b.saved), ..b }
}

pub open spec fn marked_saved(b: BufferState, contents: Seq<char>, version: FileVersion) -> BufferState {
    BufferState {
        contents,
        saved: contents,
        version,
        status: BufferStatus::Clean,
        pending: None,
        ..b
    }
}

pub open spec fn save_begun(b: BufferState, contents: Seq<char>) -> BufferState {
    BufferState { pending: Some(contents), ..b }
}

pub open spec fn save_finished(b: BufferState, contents: Seq<char>, version: FileVersion) -> BufferState {
    BufferState {
        saved: contents,
        version,
        pending: None,
        status: status_for(b.contents, contents),
        ..b
    }
}

pub open spec fn save_cancelled(b: BufferState) -> BufferState {
    BufferState { pending: None, ..b }
}

pub open spec fn reverted(b: BufferState) -> BufferState {
    BufferState { contents: b.saved, status: BufferStatus::Clean, ..b }
}

/// How a buffer takes the file's contents as now found on disk, and how it
/// classifies that change.
pub open spec fn reconciled(b: BufferState, contents: Seq<char>, version: FileVersion) -> (BufferState, ExternalChange) {
    if b.pending == Some(contents) {
        (save_finished(b, contents, version), ExternalChange::Unchanged)
    } else if contents == b.saved {
        (BufferState { version, ..b }, ExternalChange::Unchanged)
    } else if contents == b.contents || b.status == BufferStatus::Clean {
        (marked_saved(b, contents, version), ExternalChange::Reload)
    } else {
        (BufferState { status: BufferStatus::Conflict, ..b }, ExternalChange::Conflict)
    }
}

impl EditorBuffer {
    /// The file's path.
    pub fn path(&self) -> (r: &String)
        ensures
            r@ == self@.path,
    {
        &self.path
    }

    /// What the user has typed.
    pub fn contents(&self) -> (r: &String)
        ensures
            r@ == self@.contents,
    {
        &self.contents
    }

    /// What was last saved or read from disk.
    pub fn saved_contents(&self) -> (r: &String)
        ensures
            r@ == self@.saved,
    {
        &self.saved_contents
    }

    /// The version on disk the buffer last matched.
    pub fn version(&self) -> (r: FileVersion)
        ensures
            r == self@.version,
    {
        self.version
    }

    /// Whether the buffer is clean, dirty or in conflict with the disk.
    pub fn status(&self) -> (r: BufferStatus)
        ensures
            r == self@.status,
    {
        self.status
    }

    /// The editor settings of the file.
    pub fn config(&self) -> (r: EditorConfig)
        ensures
            r == self@.config,
    {
        self.config
    }

    /// The contents of a save that is still running, if any.
    pub fn pending_save(&self) -> (r: Option<&String>)
        ensures
            match r {
                Some(p) => self@.pending == Some(p@),
                None => self@.pending is None,
            },
    {
        match &self.pending_save {
            Some(p) => Some(p),
            None => None,
        }
    }

    pub fn open(path: &str, contents: String, version: FileVersion, config: EditorConfig) -> (r: Self)
        ensures
            r@ == opened(path@, contents@, version, config),
    {
        EditorBuffer {
            path: path.to_owned(),
            saved_contents: contents.clone(),
            contents,
            version,
            status: BufferStatus::Clean,
            config,
            pending_save: None,
        }
    }

    pub fn edit(&mut self, contents: String)
        ensures
            final(self)@ == edited(old(self)@, contents@),
    {
        self.contents = contents;
        self.status = if self.contents == self.saved_contents {
            BufferStatus::Clean
        } else {
            BufferStatus::Dirty
        };
    }

    pub fn mark_saved(&mut self, contents: String, version: FileVersion)
        ensures
            final(self)@ == marked_saved(old(self)@, contents@, version),
    {
        self.contents = contents.clone();
        self.saved_contents = contents;
        self.version = version;
        self.status = BufferStatus::Clean;
        self.pending_save = None;
    }

    pub fn begin_save(&mut self, contents: String)
        ensures
            final(self)@ == save_begun(old(self)@, contents@),
    {
        self.pending_save = Some(contents);
    }

    pub fn finish_save(&mut self, contents: String, version: FileVersion)
        ensures
            final(self)@ == save_finished(old(self)@, contents@, version),
    {
        self.saved_contents = contents;
        self.version = version;
        self.pending_save = None;
        self.status = if self.contents == self.saved_contents {
            BufferStatus::Clean
        } else {
            BufferStatus::Dirty
        };
    }

    pub fn cancel_save(&mut self)
        ensures
            final(self)@ == save_cancelled(old(self)@),
    {
        self.pending_save = None;
    }

    pub fn has_pending_save(&self) -> (r: bool)
        ensures
            r == self@.pending is Some,
    {
        self.pending_save.is_some()
    }

    pub fn revert(&mut self)
        ensures
            final(self)@ == reverted(old(self)@),
    {
        self.contents = self.saved_contents.clone();
        self.status = BufferStatus::Clean;
    }

    pub fn reconcile_external(&mut self, contents: String, version: FileVersion) -> (r: ExternalChange)
        ensures
            (final(self)@, r) == reconciled(old(self)@, contents@, version),
    {
        let own_save = match &self.pending_save {
            Some(pending) => *pending == contents,
            None => false,
        };
        if own_save {
            self.finish_save(contents, version);
            return ExternalChange::Unchanged;
        }
        if contents == self.saved_contents {
            self.version = version;
            return ExternalChange::Unchanged;
        }
        if contents == self.contents || self.status == BufferStatus::Clean {
            self.mark_saved(contents, version);
            return ExternalChange::Reload;
        }
        self.status = BufferStatus::Conflict;
        ExternalChange::Conflict
    }

    pub fn rename(&mut self, path: &str)
        ensures
            final(self)@ == (BufferState { path: path@, ..old(self)@ }),
    {
        self.path = path.to_owned();
    }

    pub fn is_dirty(&self) -> (r: bool)
        ensures
            r == (self@.status != BufferStatus::Clean),
    {
        self.status != BufferStatus::Clean
    }
}

/// A freshly opened buffer is consistent, and every operation keeps a
/// consistent buffer consistent.
pub proof fn operations_keep_buffers_consistent(
    b: BufferState,
    path: Seq<char>,
    contents: Seq<char>,
    version: FileVersion,
    config: EditorConfig,
)
    requires
        consistent(b),
    ensures
        consistent(opened(path, contents, version, config)),
        consistent(edited(b, contents)),
        consistent(marked_saved(b, contents, version)),
        consistent(save_begun(b, contents)),
        consistent(save_finished(b, contents, version)),
        consistent(save_cancelled(b)),
        consistent(reverted(b)),
        consistent(reconciled(b, contents, version).0),
{
}

/// A save that completes after further typing keeps that typing, and the
/// buffer stays dirty exactly when the typing differs from what was saved.
pub proof fn finished_save_keeps_newer_edits(b: BufferState, saved: Seq<char>, typed: Seq<char>, version: FileVersion)
    ensures
        save_finished(edited(save_begun(b, saved), typed), saved, version).contents == typed,
        save_finished(edited(save_begun(b, saved), typed), saved, version).saved == saved,
        (save_finished(edited(save_begun(b, saved), typed), saved, version).status == BufferStatus::Dirty)
            <==> typed != saved,
{
}

/// The file event caused by the buffer's own save is recognised as such: it
/// changes nothing the user sees and records the save.
pub proof fn own_save_is_not_an_external_change(b: BufferState, saved: Seq<char>, version: FileVersion)
    ensures
        reconciled(save_begun(b, saved), saved, version).1 == ExternalChange::Unchanged,
        reconciled(save_begun(b, saved), saved, version).0.contents == b.contents,
        reconciled(save_begun(b, saved), saved, version).0.saved == saved,
        reconciled(save_begun(b, saved), saved, version).0.pending is None,
{
}

/// Unsaved typing is never overwritten by a change on disk: a conflict keeps
/// the typed contents, and a reload happens only for a clean buffer or one
/// whose contents already equal the new file.
pub proof fn external_changes_never_discard_unsaved_work(b: BufferState, contents: Seq<char>, version: FileVersion)
    requires
        consistent(b),
    ensures
        reconciled(b, contents, version).0.contents == b.contents
            || b.contents == b.saved
            || b.contents == contents,
        reconciled(b, contents, version).1 == ExternalChange::Conflict ==> (
            b.status != BufferStatus::Clean && contents != b.contents && contents != b.saved
        ),
{
}

/// Reverting restores exactly what was last saved.
pub proof fn revert_restores_the_saved_contents(b: BufferState, typed: Seq<char>)
    ensures
        reverted(edited(b, typed)).contents == b.saved,
        reverted(edited(b, typed)).status == BufferStatus::Clean,
{
}

} // verus!
