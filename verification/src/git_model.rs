//! Platform-neutral Git models: errors, repository records and requests.
use vstd::prelude::*;

verus! {

#[derive(Clone, Copy, Debug, PartialEq, Eq, Structural)]
pub enum GitErrorCode {
    InvalidWorkspace,
    NotRepository,
    Authentication,
    SigningPassphraseRequired,
    NonFastForward,
    Conflict,
    TimedOut,
    Cancelled,
    OutputTooLarge,
    Unsupported,
    CommandFailed,
    Parse,
    Unavailable,
    Internal,
}

#[derive(Clone, Debug, PartialEq, Eq)]
pub struct GitError {
    pub code: GitErrorCode,
    pub message: String,
    pub exit_code: Option<i32>,
}

pub type GitResult<T> = Result<T, GitError>;

impl GitError {
    pub fn new(code: GitErrorCode, message: &str) -> (r: Self)
        ensures
            r.code == code,
            r.message@ == message@,
            r.exit_code is None,
    {
        GitError { code, message: message.to_owned(), exit_code: None }
    }

    pub fn with_exit_code(self, exit_code: Option<i32>) -> (r: Self)
        ensures
            r.code == self.code,
            r.message == self.message,
            r.exit_code == exit_code,
    {
        GitError { exit_code, ..self }
    }

    /// The message shown for this error.
    pub fn to_string(&self) -> (r: String)
        ensures
            r@ == self.message@,
    {
        self.message.clone()
    }
}

#[derive(Clone, Debug, Default, PartialEq, Eq)]
pub struct BranchStatus {
    pub head: Option<String>,
    pub oid: Option<String>,
    pub upstream: Option<String>,
    pub ahead: u32,
    pub behind: u32,
}

#[derive(Clone, Copy, Debug, PartialEq, Eq, Structural)]
pub enum ChangeKind {
    Modified,
    TypeChanged,
    Added,
    Deleted,
    Renamed,
    Copied,
    Untracked,
    Unmerged,
}

#[derive(Clone, Debug, PartialEq, Eq)]
pub struct BranchInfo {
    pub name: String,
    pub current: bool,
    pub upstream: Option<String>,
    pub remote: bool,
}

#[derive(Clone, Debug, PartialEq, Eq)]
pub struct BranchRequest {
    pub name: String,
    pub start_point: Option<String>,
}

#[derive(Clone, Copy, Debug, PartialEq, Eq, Structural)]
pub enum WorktreeKind {
    Primary,
    Managed,
    External,
}

#[derive(Clone, Debug, PartialEq, Eq)]
pub struct WorktreeCreateRequest {
    pub branch: String,
    pub start_point: Option<String>,
    pub create_branch: bool,
}

/// A new worktree creates its branch unless the request says otherwise.
pub fn default_create_branch() -> (r: bool)
    ensures
        r,
{
    true
}

#[derive(Clone, Debug, PartialEq, Eq)]
pub struct RemoteInfo {
    pub name: String,
    pub fetch_url: String,
    pub push_url: String,
}

#[derive(Clone, Debug, PartialEq, Eq)]
pub struct RemoteRequest {
    pub name: String,
    pub fetch_url: String,
    pub push_url: Option<String>,
}

#[derive(Clone, Debug, PartialEq, Eq)]
pub struct TagInfo {
    pub name: String,
    pub target_oid: String,
    pub annotated: bool,
}

#[derive(Clone, Debug, PartialEq, Eq)]
pub struct TagRequest {
    pub name: String,
    pub target: Option<String>,
    pub message: Option<String>,
}

#[derive(Clone, Debug, PartialEq, Eq)]
pub struct CommitInfo {
    pub oid: String,
    pub short_oid: String,
    pub parents: Vec<String>,
    pub author_name: String,
    pub author_email: String,
    pub authored_unix_seconds: i64,
    pub subject: String,
}

#[derive(Clone, Debug, PartialEq, Eq)]
pub struct CommitDetail {
    pub commit: CommitInfo,
    pub patch: String,
    pub files_changed: u32,
    pub additions: u64,
    pub deletions: u64,
}

#[derive(Clone, Debug, PartialEq, Eq)]
pub struct BranchComparison {
    pub base: String,
    pub head: String,
    pub base_only_commits: u32,
    pub head_only_commits: u32,
    pub commits: Vec<CommitInfo>,
    pub patch: String,
    pub files_changed: u32,
    pub additions: u64,
    pub deletions: u64,
}

#[derive(Clone, Debug, PartialEq, Eq)]
pub enum MergeOutcome {
    Merged { message: String },
    Conflicts { paths: Vec<String> },
}

#[derive(Clone, Debug, PartialEq, Eq)]
pub struct RemoteResult {
    pub message: String,
}

#[derive(Clone, Debug, PartialEq, Eq)]
pub enum PushOutcome {
    Pushed { result: RemoteResult },
    ForceWithLeaseRequired { message: String },
}

#[derive(Clone, Debug, PartialEq, Eq)]
pub struct CloneRequest {
    pub url: String,
    pub destination_parent: String,
    pub directory_name: Option<String>,
}

#[derive(Clone, Debug, PartialEq, Eq)]
pub struct CloneResult {
    pub absolute_path: String,
}

#[derive(Clone, Debug, PartialEq, Eq)]
pub struct CommitRequest {
    pub message: String,
    pub amend: bool,
    /// Present only for an in-app retry after the configured signer requested
    /// a passphrase.
    pub signing_passphrase: Option<String>,
}

#[derive(Clone, Debug, PartialEq, Eq)]
pub struct CommitResult {
    pub oid: String,
    pub summary: String,
}

#[derive(Clone, Debug, PartialEq, Eq)]
pub enum CommitOutcome {
    Committed { commit: CommitResult },
    SigningPassphraseRequired { message: String },
}

/// Version of the clone progress protocol.
pub const CLONE_PROTOCOL_VERSION: u16 = 1;

#[derive(Clone, Copy, Debug, PartialEq, Eq, Structural)]
pub enum ClonePhase {
    Preparing,
    Counting,
    Compressing,
    Receiving,
    Resolving,
    CheckingOut,
    Finalizing,
}

#[derive(Clone, Copy, Debug, PartialEq, Eq, Structural)]
pub struct CloneProgress {
    pub phase: ClonePhase,
    pub percent: Option<u8>,
}

#[derive(Clone, Debug, PartialEq, Eq)]
pub enum CloneClientMessage {
    Start { version: u16, url: String, destination_parent: String },
    Cancel,
}

#[derive(Clone, Copy, Debug, PartialEq, Eq, Structural)]
pub enum DiffKind {
    Staged,
    Worktree,
}

#[derive(Clone, Copy, Debug, PartialEq, Eq, Structural)]
pub enum HunkAction {
    Stage,
    Unstage,
    Discard,
}

#[derive(Clone, Copy, Debug, PartialEq, Eq, Structural)]
pub enum ConflictChoice {
    Current,
    Incoming,
    Both,
}

} // verus!
