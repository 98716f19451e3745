//! The Git commands the host runs for each repository operation, and how it
//! turns what Git answers into results: argument lists, the decisions taken
//! between two runs, and the errors and outcomes reported.
use vstd::prelude::*;
use crate::git_model::{
    CommitOutcome, CommitResult, DiffKind, GitError, GitErrorCode, HunkAction, MergeOutcome,
    PushOutcome, RemoteRequest, RemoteResult,
};
use crate::git_status::{changes_view, decode, decoded, ChangeView, RepositoryStatus};
use crate::git_model::{ChangeKind, RemoteInfo, TagRequest};
use crate::bytes::{split_bytes, split_on_byte, views};
use crate::text::{
    chars_of, format_decimal, decimal, is_blank, lower_seq, push_str, seq_eq, string_from_chars,
    to_ascii_lowercase, trim, trimmed,
};

verus! {

/// The texts of an argument list.
pub open spec fn args(v: Seq<String>) -> Seq<Seq<char>> {
    v.map_values(|s: String| s@)
}

fn push_arg(arguments: &mut Vec<String>, value: &str)
    ensures
        args(final(arguments)@) == args(old(arguments)@).push(value@),
{
    arguments.push(value.to_owned());
    proof {
        assert(args(final(arguments)@) =~= args(old(arguments)@).push(value@));
    }
}

fn joined(prefix: &str, value: &str) -> (r: String)
    ensures
        r@ == prefix@ + value@,
{
    let mut r = prefix.to_owned();
    push_str(&mut r, value);
    r
}

/// `git commit -m <message>`, with `--amend` and `--no-verify` when asked.
pub open spec fn commit_arguments_spec(message: Seq<char>, amend: bool, skip_hooks: bool) -> Seq<Seq<char>> {
    seq!["commit"@, "-m"@, message]
        + (if amend { seq!["--amend"@] } else { Seq::empty() })
        + (if skip_hooks { seq!["--no-verify"@] } else { Seq::empty() })
}

pub fn commit_arguments(message: &str, amend: bool, skip_hooks: bool) -> (r: Vec<String>)
    ensures
        args(r@) == commit_arguments_spec(message@, amend, skip_hooks),
{
    let mut r: Vec<String> = Vec::new();
    push_arg(&mut r, "commit");
    push_arg(&mut r, "-m");
    push_arg(&mut r, message);
    if amend {
        push_arg(&mut r, "--amend");
    }
    if skip_hooks {
        push_arg(&mut r, "--no-verify");
    }
    proof {
        assert(args(r@) =~= commit_arguments_spec(message@, amend, skip_hooks));
    }
    r
}

/// A Git configuration value that turns a setting on: `true`, `yes`, `on`
/// or `1`, in any ASCII case and with surrounding white space.
pub open spec fn config_enabled_spec(value: Seq<char>) -> bool {
    let v = lower_seq(trim(value));
    v == "true"@ || v == "yes"@ || v == "on"@ || v == "1"@
}

pub fn config_enabled(value: &str) -> (r: bool)
    ensures
        r == config_enabled_spec(value@),
{
    let v = to_ascii_lowercase(&trimmed(&chars_of(value)));
    seq_eq(&v, &chars_of("true")) || seq_eq(&v, &chars_of("yes")) || seq_eq(&v, &chars_of("on"))
        || seq_eq(&v, &chars_of("1"))
}

/// A commit is signed when `commit.gpgsign` is on or a passphrase came with
/// the request.
pub open spec fn signing_requested_spec(gpgsign: Option<Seq<char>>, passphrase_given: bool) -> bool {
    (gpgsign matches Some(v) && config_enabled_spec(v)) || passphrase_given
}

pub fn signing_requested(gpgsign: Option<&str>, passphrase_given: bool) -> (r: bool)
    ensures
        r == signing_requested_spec(
            match gpgsign {
                Some(v) => Some(v@),
                None => None,
            },
            passphrase_given,
        ),
{
    let configured = match gpgsign {
        Some(v) => config_enabled(v),
        None => false,
    };
    configured || passphrase_given
}

/// Only OpenPGP keys can be unlocked in the app: any other non-empty
/// `gpg.format` is refused.
pub open spec fn signing_format_supported(format: Option<Seq<char>>) -> bool {
    match format {
        Some(f) => f.len() == 0 || f == "openpgp"@,
        None => true,
    }
}

pub fn check_signing_format(format: Option<&str>) -> (r: Result<(), GitError>)
    ensures
        r is Ok <==> signing_format_supported(
            match format {
                Some(f) => Some(f@),
                None => None,
            },
        ),
        r matches Err(e) ==> e.code == GitErrorCode::Unavailable && e.message@
            == "In-app passphrase retry currently supports OpenPGP signing keys only."@
            && e.exit_code is None,
{
    match format {
        Some(f) => {
            let c = chars_of(f);
            if c.len() == 0 || seq_eq(&c, &chars_of("openpgp")) {
                Ok(())
            } else {
                Err(GitError::new(
                    GitErrorCode::Unavailable,
                    "In-app passphrase retry currently supports OpenPGP signing keys only.",
                ))
            }
        },
        None => Ok(()),
    }
}

/// The commit arguments run through the signing wrapper at `wrapper`:
/// `-c gpg.program=<wrapper>` before them and `--gpg-sign` after.
pub open spec fn signed_arguments_spec(arguments: Seq<Seq<char>>, wrapper: Seq<char>) -> Seq<Seq<char>> {
    seq!["-c"@, "gpg.program="@ + wrapper] + arguments + seq!["--gpg-sign"@]
}

pub fn signed_arguments(arguments: Vec<String>, wrapper: &str) -> (r: Vec<String>)
    ensures
        args(r@) == signed_arguments_spec(args(arguments@), wrapper@),
{
    let mut r: Vec<String> = Vec::new();
    push_arg(&mut r, "-c");
    let program = joined("gpg.program=", wrapper);
    let ghost first = args(r@);
    r.push(program);
    proof {
        assert(args(r@) =~= first.push(program@));
        assert(args(r@) =~= seq!["-c"@, "gpg.program="@ + wrapper@]);
    }
    let mut i: usize = 0;
    let ghost start = args(r@);
    while i < arguments.len()
        invariant
            i <= arguments@.len(),
            args(r@) == start + args(arguments@).take(i as int),
        decreases arguments@.len() - i,
    {
        let ghost before = args(r@);
        r.push(arguments[i].clone());
        proof {
            assert(args(r@) =~= before.push(arguments@[i as int]@));
            assert(args(arguments@).take(i + 1) =~= args(arguments@).take(i as int).push(arguments@[i as int]@));
        }
        i = i + 1;
    }
    proof {
        assert(args(arguments@).take(arguments@.len() as int) =~= args(arguments@));
    }
    push_arg(&mut r, "--gpg-sign");
    proof {
        assert(args(r@) =~= signed_arguments_spec(args(arguments@), wrapper@));
    }
    r
}

/// The program the signing wrapper hands the key to: the configured
/// `gpg.program` (`gpg` when none), unless that is the wrapper itself, in
/// which case the program an earlier wrapper was given (`gpg` when none).
pub open spec fn signing_program_spec(
    configured: Option<Seq<char>>,
    active_wrapper: Option<Seq<char>>,
    active_program: Option<Seq<char>>,
) -> Seq<char> {
    let program = match configured {
        Some(p) => p,
        None => "gpg"@,
    };
    if active_wrapper == Some(program) {
        match active_program {
            Some(p) => p,
            None => "gpg"@,
        }
    } else {
        program
    }
}

pub open spec fn opt_view(o: Option<&str>) -> Option<Seq<char>> {
    match o {
        Some(s) => Some(s@),
        None => None,
    }
}

pub fn signing_program(
    configured: Option<&str>,
    active_wrapper: Option<&str>,
    active_program: Option<&str>,
) -> (r: String)
    ensures
        r@ == signing_program_spec(opt_view(configured), opt_view(active_wrapper), opt_view(active_program)),
{
    let program = match configured {
        Some(p) => p,
        None => "gpg",
    };
    let same = match active_wrapper {
        Some(w) => seq_eq(&chars_of(w), &chars_of(program)),
        None => false,
    };
    if same {
        match active_program {
            Some(p) => p.to_owned(),
            None => "gpg".to_owned(),
        }
    } else {
        program.to_owned()
    }
}


/// What a failed commit run becomes: a request for the signing passphrase,
/// a refusal by Git or a hook (with Git's exit code), or the error itself.
pub open spec fn commit_failure_spec(error: GitError) -> Result<CommitOutcome, GitError> {
    match error.code {
        GitErrorCode::SigningPassphraseRequired => Ok(CommitOutcome::SigningPassphraseRequired { message: error.message }),
        GitErrorCode::CommandFailed => Err(GitError {
            code: GitErrorCode::CommandFailed,
            message: error.message,
            exit_code: error.exit_code,
        }),
        _ => Err(error),
    }
}

pub fn commit_failure(error: GitError) -> (r: Result<CommitOutcome, GitError>)
    ensures
        match error.code {
            GitErrorCode::SigningPassphraseRequired => r == Ok::<CommitOutcome, GitError>(
                CommitOutcome::SigningPassphraseRequired { message: error.message },
            ),
            GitErrorCode::CommandFailed => r matches Err(e) && e.code == GitErrorCode::CommandFailed
                && e.message@ == "Git or a configured commit hook rejected the commit."@
                && e.exit_code == error.exit_code,
            _ => r == Err::<CommitOutcome, GitError>(error),
        },
{
    match error.code {
        GitErrorCode::SigningPassphraseRequired => Ok(CommitOutcome::SigningPassphraseRequired { message: error.message }),
        GitErrorCode::CommandFailed => Err(GitError::new(
            GitErrorCode::CommandFailed,
            "Git or a configured commit hook rejected the commit.",
        ).with_exit_code(error.exit_code)),
        _ => Err(error),
    }
}

/// The summary of a commit message: its first line, trimmed (empty for an
/// empty message).
pub open spec fn commit_summary_spec(message: Seq<char>) -> Seq<char> {
    if crate::text::lines(message).len() == 0 {
        Seq::empty()
    } else {
        trim(crate::text::lines(message)[0])
    }
}

fn strip_ending(line: &[char]) -> (r: Vec<char>)
    ensures
        r@ == crate::text::strip_line_ending(line@),
{
    let n = line.len();
    if n > 0 && line[n - 1] == '\n' {
        if n > 1 && line[n - 2] == '\r' {
            crate::text::slice_to_vec(line, 0, n - 2)
        } else {
            crate::text::slice_to_vec(line, 0, n - 1)
        }
    } else {
        crate::text::slice_to_vec(line, 0, n)
    }
}

pub fn commit_summary(message: &str) -> (r: String)
    ensures
        r@ == commit_summary_spec(message@),
{
    let chars = chars_of(message);
    let ranges = crate::text::line_ranges(&chars);
    if ranges.len() == 0 {
        return String::new();
    }
    let (a, b) = ranges[0];
    let first = strip_ending(&crate::text::slice_to_vec(&chars, a, b));
    proof {
        assert(crate::text::lines(message@)[0] == crate::text::strip_line_ending(
            crate::text::split_inclusive_lines(message@)[0],
        ));
    }
    string_from_chars(&trimmed(&first))
}

/// The commit created, named by the new `HEAD` and the message's summary.
pub fn committed(oid: String, message: &str) -> (r: CommitOutcome)
    ensures
        r matches CommitOutcome::Committed { commit } && commit.oid == oid
            && commit.summary@ == commit_summary_spec(message@),
{
    CommitOutcome::Committed { commit: CommitResult { oid, summary: commit_summary(message) } }
}

/// `git apply` for a hunk: into the index for staging (`--cached`), out of
/// it for unstaging (`--cached --reverse`), out of the working tree for
/// discarding (`--reverse`). Other pairs of action and diff are refused.
pub open spec fn hunk_mode(action: HunkAction, kind: DiffKind) -> Option<(bool, bool)> {
    match (action, kind) {
        (HunkAction::Stage, DiffKind::Worktree) => Some((true, false)),
        (HunkAction::Unstage, DiffKind::Staged) => Some((true, true)),
        (HunkAction::Discard, DiffKind::Worktree) => Some((false, true)),
        _ => None,
    }
}

pub open spec fn apply_arguments_spec(cached: bool, reverse: bool) -> Seq<Seq<char>> {
    seq!["apply"@, "--recount"@, "--whitespace=nowarn"@]
        + (if cached { seq!["--cached"@] } else { Seq::empty() })
        + (if reverse { seq!["--reverse"@] } else { Seq::empty() })
        + seq!["-"@]
}

pub fn hunk_apply_arguments(action: HunkAction, kind: DiffKind) -> (r: Result<Vec<String>, GitError>)
    ensures
        r is Ok <==> hunk_mode(action, kind) is Some,
        r matches Ok(v) ==> (hunk_mode(action, kind) matches Some((cached, reverse)) && args(v@)
            == apply_arguments_spec(cached, reverse)),
        r matches Err(e) ==> e.code == GitErrorCode::Conflict && e.message@
            == "That hunk action does not match the selected diff."@ && e.exit_code is None,
{
    let (cached, reverse) = match (action, kind) {
        (HunkAction::Stage, DiffKind::Worktree) => (true, false),
        (HunkAction::Unstage, DiffKind::Staged) => (true, true),
        (HunkAction::Discard, DiffKind::Worktree) => (false, true),
        _ => {
            return Err(GitError::new(GitErrorCode::Conflict, "That hunk action does not match the selected diff."));
        },
    };
    let mut r: Vec<String> = Vec::new();
    push_arg(&mut r, "apply");
    push_arg(&mut r, "--recount");
    push_arg(&mut r, "--whitespace=nowarn");
    if cached {
        push_arg(&mut r, "--cached");
    }
    if reverse {
        push_arg(&mut r, "--reverse");
    }
    push_arg(&mut r, "-");
    proof {
        assert(args(r@) =~= apply_arguments_spec(cached, reverse));
    }
    Ok(r)
}

/// The patch of the hunk a request names, if it still exists and still has
/// the fingerprint the request saw.
pub fn selected_hunk_patch(hunks: &Vec<crate::diff::DiffHunk>, index: usize, expected_fingerprint: u64) -> (r: Result<String, GitError>)
    ensures
        index >= hunks@.len() ==> (r matches Err(e) && e.code == GitErrorCode::Conflict && e.message@
            == "The selected hunk no longer exists. Refresh the repository and try again."@),
        index < hunks@.len() && hunks@[index as int].fingerprint != expected_fingerprint ==> (r matches Err(e)
            && e.code == GitErrorCode::Conflict && e.message@
            == "The selected hunk changed. Refresh the repository and review it again."@),
        index < hunks@.len() && hunks@[index as int].fingerprint == expected_fingerprint ==> r == Ok::<String, GitError>(
            hunks@[index as int].patch,
        ),
{
    if index >= hunks.len() {
        return Err(GitError::new(
            GitErrorCode::Conflict,
            "The selected hunk no longer exists. Refresh the repository and try again.",
        ));
    }
    let hunk = &hunks[index];
    if hunk.fingerprint != expected_fingerprint {
        return Err(GitError::new(
            GitErrorCode::Conflict,
            "The selected hunk changed. Refresh the repository and review it again.",
        ));
    }
    Ok(hunk.patch.clone())
}


/// The local branch a remote-tracking name stands for: what follows its
/// first `/`, or the whole name.
pub open spec fn local_branch_spec(name: Seq<char>) -> Seq<char> {
    let k = crate::text::next_char(name, '/', 0);
    if k < name.len() {
        name.subrange(k + 1, name.len() as int)
    } else {
        name
    }
}

pub fn local_branch_name(name: &str) -> (r: String)
    ensures
        r@ == local_branch_spec(name@),
{
    let chars = chars_of(name);
    let k = crate::text::find_char_from(&chars, '/', 0);
    if k < chars.len() {
        string_from_chars(&crate::text::slice_to_vec(&chars, k + 1, chars.len()))
    } else {
        name.to_owned()
    }
}

/// `git show-ref --verify --quiet <reference>`, which tells whether a
/// reference exists.
pub open spec fn show_ref_spec(reference: Seq<char>) -> Seq<Seq<char>> {
    seq!["show-ref"@, "--verify"@, "--quiet"@, reference]
}

pub fn show_ref_arguments(prefix: &str, name: &str) -> (r: Vec<String>)
    ensures
        args(r@) == show_ref_spec(prefix@ + name@),
{
    let mut r: Vec<String> = Vec::new();
    push_arg(&mut r, "show-ref");
    push_arg(&mut r, "--verify");
    push_arg(&mut r, "--quiet");
    let reference = joined(prefix, name);
    let ghost before = args(r@);
    r.push(reference);
    proof {
        assert(args(r@) =~= before.push(reference@));
        assert(args(r@) =~= show_ref_spec(prefix@ + name@));
    }
    r
}

/// How the host switches to `name`: a remote-tracking branch whose local
/// branch exists switches to that local branch, one whose local branch is
/// missing is followed (`--track`), and any other name is switched to as is.
pub open spec fn switch_arguments_spec(name: Seq<char>, remote: bool, local_exists: bool) -> Seq<Seq<char>> {
    if remote && local_exists {
        seq!["switch"@, "--"@, local_branch_spec(name)]
    } else if remote {
        seq!["switch"@, "--track"@, name]
    } else {
        seq!["switch"@, "--"@, name]
    }
}

pub fn switch_arguments(name: &str, remote: bool, local_exists: bool) -> (r: Vec<String>)
    ensures
        args(r@) == switch_arguments_spec(name@, remote, local_exists),
{
    let mut r: Vec<String> = Vec::new();
    push_arg(&mut r, "switch");
    if remote && local_exists {
        push_arg(&mut r, "--");
        let local = local_branch_name(name);
        let ghost before = args(r@);
        r.push(local);
        proof {
            assert(args(r@) =~= before.push(local@));
        }
    } else if remote {
        push_arg(&mut r, "--track");
        push_arg(&mut r, name);
    } else {
        push_arg(&mut r, "--");
        push_arg(&mut r, name);
    }
    proof {
        assert(args(r@) =~= switch_arguments_spec(name@, remote, local_exists));
    }
    r
}

/// `git switch -c <name> [<start point>]`.
pub open spec fn create_branch_spec(name: Seq<char>, start_point: Option<Seq<char>>) -> Seq<Seq<char>> {
    seq!["switch"@, "-c"@, name] + match start_point {
        Some(p) => seq![p],
        None => Seq::empty(),
    }
}

pub fn create_branch_arguments(name: &str, start_point: Option<&str>) -> (r: Vec<String>)
    ensures
        args(r@) == create_branch_spec(name@, opt_view(start_point)),
{
    let mut r: Vec<String> = Vec::new();
    push_arg(&mut r, "switch");
    push_arg(&mut r, "-c");
    push_arg(&mut r, name);
    match start_point {
        Some(p) => push_arg(&mut r, p),
        None => {},
    }
    proof {
        assert(args(r@) =~= create_branch_spec(name@, opt_view(start_point)));
    }
    r
}

/// `git branch -d -- <name>`, or `-D` when forced.
pub open spec fn delete_branch_spec(name: Seq<char>, force: bool) -> Seq<Seq<char>> {
    seq!["branch"@, if force { "-D"@ } else { "-d"@ }, "--"@, name]
}

pub fn delete_branch_arguments(name: &str, force: bool) -> (r: Vec<String>)
    ensures
        args(r@) == delete_branch_spec(name@, force),
{
    let mut r: Vec<String> = Vec::new();
    push_arg(&mut r, "branch");
    push_arg(&mut r, if force { "-D" } else { "-d" });
    push_arg(&mut r, "--");
    push_arg(&mut r, name);
    proof {
        assert(args(r@) =~= delete_branch_spec(name@, force));
    }
    r
}

/// The push URL a remote gets: the one requested unless it is blank, else
/// the fetch URL.
pub open spec fn push_url_spec(fetch_url: Seq<char>, push_url: Option<Seq<char>>) -> Seq<char> {
    match push_url {
        Some(u) => if trim(u).len() > 0 { u } else { fetch_url },
        None => fetch_url,
    }
}

pub open spec fn opt_string_view(o: Option<String>) -> Option<Seq<char>> {
    match o {
        Some(s) => Some(s@),
        None => None,
    }
}

pub fn effective_push_url(request: &RemoteRequest) -> (r: String)
    ensures
        r@ == push_url_spec(request.fetch_url@, opt_string_view(request.push_url)),
{
    match &request.push_url {
        Some(u) => if !is_blank(&chars_of(u.as_str())) {
            u.clone()
        } else {
            request.fetch_url.clone()
        },
        None => request.fetch_url.clone(),
    }
}

fn command5(a: &str, b: &str, c: &str, d: &str, e: &str) -> (r: Vec<String>)
    ensures
        args(r@) == seq![a@, b@, c@, d@, e@],
{
    let mut r: Vec<String> = Vec::new();
    push_arg(&mut r, a);
    push_arg(&mut r, b);
    push_arg(&mut r, c);
    push_arg(&mut r, d);
    push_arg(&mut r, e);
    proof {
        assert(args(r@) =~= seq![a@, b@, c@, d@, e@]);
    }
    r
}

/// The commands that give a remote its push URL.
pub open spec fn set_push_url_spec(request: RemoteRequest) -> Seq<Seq<char>> {
    seq!["remote"@, "set-url"@, "--push"@, "--"@, request.name@,
        push_url_spec(request.fetch_url@, opt_string_view(request.push_url))]
}

fn set_push_url_arguments(request: &RemoteRequest) -> (r: Vec<String>)
    ensures
        args(r@) == set_push_url_spec(*request),
{
    let url = effective_push_url(request);
    let mut r = command5("remote", "set-url", "--push", "--", request.name.as_str());
    let ghost before = args(r@);
    r.push(url);
    proof {
        assert(args(r@) =~= before.push(url@));
        assert(args(r@) =~= set_push_url_spec(*request));
    }
    r
}

pub open spec fn commands_view(v: Seq<Vec<String>>) -> Seq<Seq<Seq<char>>> {
    v.map_values(|c: Vec<String>| args(c@))
}

/// Adding a remote: `git remote add`, then its push URL.
pub open spec fn add_remote_spec(request: RemoteRequest) -> Seq<Seq<Seq<char>>> {
    seq![
        seq!["remote"@, "add"@, "--"@, request.name@, request.fetch_url@],
        set_push_url_spec(request),
    ]
}

pub fn add_remote_commands(request: &RemoteRequest) -> (r: Vec<Vec<String>>)
    ensures
        commands_view(r@) == add_remote_spec(*request),
{
    let mut r: Vec<Vec<String>> = Vec::new();
    r.push(command5("remote", "add", "--", request.name.as_str(), request.fetch_url.as_str()));
    r.push(set_push_url_arguments(request));
    proof {
        assert(commands_view(r@) =~= add_remote_spec(*request));
    }
    r
}

/// Updating a remote: a rename when its name changes, then its fetch URL,
/// then its push URL.
pub open spec fn update_remote_spec(previous_name: Seq<char>, request: RemoteRequest) -> Seq<Seq<Seq<char>>> {
    (if previous_name != request.name@ {
        seq![seq!["remote"@, "rename"@, "--"@, previous_name, request.name@]]
    } else {
        Seq::empty()
    }) + seq![
        seq!["remote"@, "set-url"@, "--"@, request.name@, request.fetch_url@],
        set_push_url_spec(request),
    ]
}

pub fn update_remote_commands(previous_name: &str, request: &RemoteRequest) -> (r: Vec<Vec<String>>)
    ensures
        commands_view(r@) == update_remote_spec(previous_name@, *request),
{
    let mut r: Vec<Vec<String>> = Vec::new();
    if !seq_eq(&chars_of(previous_name), &chars_of(request.name.as_str())) {
        r.push(command5("remote", "rename", "--", previous_name, request.name.as_str()));
    }
    r.push(command5("remote", "set-url", "--", request.name.as_str(), request.fetch_url.as_str()));
    r.push(set_push_url_arguments(request));
    proof {
        assert(commands_view(r@) =~= update_remote_spec(previous_name@, *request));
    }
    r
}


/// A ref name Git's `check-ref-format` is asked about.
#[derive(Clone, Copy, Debug, PartialEq, Eq, Structural)]
pub enum RefName {
    Branch,
    Tag,
}

/// `git check-ref-format --branch <name>` for a branch,
/// `git check-ref-format refs/tags/<name>` for a tag.
pub open spec fn check_ref_format_spec(kind: RefName, name: Seq<char>) -> Seq<Seq<char>> {
    match kind {
        RefName::Branch => seq!["check-ref-format"@, "--branch"@, name],
        RefName::Tag => seq!["check-ref-format"@, "refs/tags/"@ + name],
    }
}

pub fn check_ref_format_arguments(kind: RefName, name: &str) -> (r: Vec<String>)
    ensures
        args(r@) == check_ref_format_spec(kind, name@),
{
    let mut r: Vec<String> = Vec::new();
    push_arg(&mut r, "check-ref-format");
    match kind {
        RefName::Branch => {
            push_arg(&mut r, "--branch");
            push_arg(&mut r, name);
        },
        RefName::Tag => {
            let reference = joined("refs/tags/", name);
            let ghost before = args(r@);
            r.push(reference);
            proof {
                assert(args(r@) =~= before.push(reference@));
            }
        },
    }
    proof {
        assert(args(r@) =~= check_ref_format_spec(kind, name@));
    }
    r
}

/// A name Git refuses becomes a request to enter a valid one; other
/// failures pass unchanged.
pub fn ref_name_failure(kind: RefName, error: GitError) -> (r: GitError)
    ensures
        error.code == GitErrorCode::CommandFailed ==> r.code == GitErrorCode::Conflict && r.exit_code is None
            && r.message@ == match kind {
                RefName::Branch => "Enter a valid Git branch name."@,
                RefName::Tag => "Enter a valid Git tag name."@,
            },
        error.code != GitErrorCode::CommandFailed ==> r == error,
{
    if error.code == GitErrorCode::CommandFailed {
        match kind {
            RefName::Branch => GitError::new(GitErrorCode::Conflict, "Enter a valid Git branch name."),
            RefName::Tag => GitError::new(GitErrorCode::Conflict, "Enter a valid Git tag name."),
        }
    } else {
        error
    }
}

/// `git rev-parse --verify --quiet <revision>^{commit}`, which succeeds
/// only for a revision naming a commit.
pub open spec fn require_commit_spec(revision: Seq<char>) -> Seq<Seq<char>> {
    seq!["rev-parse"@, "--verify"@, "--quiet"@, revision + "^{commit}"@]
}

pub fn require_commit_arguments(revision: &str) -> (r: Vec<String>)
    ensures
        args(r@) == require_commit_spec(revision@),
{
    let mut r: Vec<String> = Vec::new();
    push_arg(&mut r, "rev-parse");
    push_arg(&mut r, "--verify");
    push_arg(&mut r, "--quiet");
    let mut target = revision.to_owned();
    push_str(&mut target, "^{commit}");
    let ghost before = args(r@);
    r.push(target);
    proof {
        assert(args(r@) =~= before.push(target@));
        assert(args(r@) =~= require_commit_spec(revision@));
    }
    r
}

/// A revision that does not name a commit (Git exited unsuccessfully) is
/// gone.
pub fn commit_presence(found: bool) -> (r: Result<(), GitError>)
    ensures
        r is Ok <==> found,
        r matches Err(e) ==> e.code == GitErrorCode::Conflict && e.message@ == "The selected commit no longer exists."@
            && e.exit_code is None,
{
    if found {
        Ok(())
    } else {
        Err(GitError::new(GitErrorCode::Conflict, "The selected commit no longer exists."))
    }
}

/// Initializing is refused for a workspace whose status could be read (it
/// is a repository already); a workspace that is no repository may be
/// initialized; any other failure to read its status is reported.
pub fn initialize_check(status_error: Option<GitError>) -> (r: Result<(), GitError>)
    ensures
        status_error is None ==> (r matches Err(e) && e.code == GitErrorCode::Conflict && e.message@
            == "This workspace is already a Git repository."@),
        status_error matches Some(e) ==> (e.code == GitErrorCode::NotRepository ==> r is Ok),
        status_error matches Some(e) ==> (e.code != GitErrorCode::NotRepository ==> r == Err::<(), GitError>(e)),
{
    match status_error {
        None => Err(GitError::new(GitErrorCode::Conflict, "This workspace is already a Git repository.")),
        Some(e) => if e.code == GitErrorCode::NotRepository {
            Ok(())
        } else {
            Err(e)
        },
    }
}

/// The paths of the conflicted changes, in order.
pub open spec fn conflicted_paths(changes: Seq<ChangeView>) -> Seq<Seq<char>>
    decreases changes.len(),
{
    if changes.len() == 0 {
        Seq::empty()
    } else {
        let rest = conflicted_paths(changes.drop_last());
        if changes.last().conflicted {
            rest.push(changes.last().path)
        } else {
            rest
        }
    }
}

pub fn conflicted_change_paths(status: &RepositoryStatus) -> (r: Vec<String>)
    ensures
        args(r@) == conflicted_paths(changes_view(status.changes@)),
{
    let mut r: Vec<String> = Vec::new();
    let mut i: usize = 0;
    while i < status.changes.len()
        invariant
            i <= status.changes@.len(),
            args(r@) == conflicted_paths(changes_view(status.changes@).take(i as int)),
        decreases status.changes@.len() - i,
    {
        let ghost before = args(r@);
        proof {
            assert(changes_view(status.changes@).take(i + 1).drop_last() =~= changes_view(status.changes@).take(i as int));
        }
        if status.changes[i].conflicted {
            r.push(status.changes[i].path.clone());
            proof {
                assert(args(r@) =~= before.push(status.changes@[i as int].path@));
            }
        }
        i = i + 1;
    }
    proof {
        assert(changes_view(status.changes@).take(i as int) =~= changes_view(status.changes@));
    }
    r
}

/// A merge that Git completed.
pub fn merged(branch: &str) -> (r: MergeOutcome)
    ensures
        r matches MergeOutcome::Merged { message } && message@ == "Merged "@ + branch@ + "."@,
{
    let mut message = joined("Merged ", branch);
    push_str(&mut message, ".");
    MergeOutcome::Merged { message }
}

/// A merge that Git stopped: the conflicted paths when the status after it
/// shows any, else Git's error.
pub fn merge_failure(error: GitError, status: &RepositoryStatus) -> (r: Result<MergeOutcome, GitError>)
    ensures
        conflicted_paths(changes_view(status.changes@)).len() == 0 ==> r == Err::<MergeOutcome, GitError>(error),
        conflicted_paths(changes_view(status.changes@)).len() > 0 ==> (r matches Ok(MergeOutcome::Conflicts { paths })
            && args(paths@) == conflicted_paths(changes_view(status.changes@))),
{
    let paths = conflicted_change_paths(status);
    if paths.len() == 0 {
        Err(error)
    } else {
        Ok(MergeOutcome::Conflicts { paths })
    }
}

/// A revert that Git stopped on conflicts says so; other failures pass
/// unchanged. `conflicts` is the number of conflicted paths afterwards,
/// when the status could be read.
pub fn revert_failure(error: GitError, conflicts: Option<usize>) -> (r: GitError)
    ensures
        (conflicts matches Some(n) && n > 0) ==> r.code == GitErrorCode::Conflict && r.message@
            == "The revert stopped on conflicts. Resolve them before continuing."@ && r.exit_code is None,
        !(conflicts matches Some(n) && n > 0) ==> r == error,
{
    match conflicts {
        Some(n) => if n > 0 {
            GitError::new(GitErrorCode::Conflict, "The revert stopped on conflicts. Resolve them before continuing.")
        } else {
            error
        },
        None => error,
    }
}

pub open spec fn diverged_failure(error: GitError, counts: Option<(u32, u32)>) -> bool {
    error.code == GitErrorCode::CommandFailed && match counts {
        Some((a, b)) => a > 0 && b > 0,
        None => false,
    }
}

/// A fast-forward pull that Git refused while the branch is both ahead of
/// and behind its upstream has diverged; other failures pass unchanged.
/// `counts` is `(ahead, behind)` when the status could be read.
pub fn pull_failure(error: GitError, counts: Option<(u32, u32)>) -> (r: GitError)
    ensures
        diverged_failure(error, counts) ==> r.code == GitErrorCode::Conflict && r.exit_code is None && r.message@
            == "The local and upstream branches have diverged. Rebase or merge them in the terminal before pulling."@,
        !diverged_failure(error, counts) ==> r == error,
{
    let diverged = match counts {
        Some((a, b)) => a > 0 && b > 0,
        None => false,
    };
    if error.code == GitErrorCode::CommandFailed && diverged {
        GitError::new(
            GitErrorCode::Conflict,
            "The local and upstream branches have diverged. Rebase or merge them in the terminal before pulling.",
        )
    } else {
        error
    }
}

/// The rewrite that sends pushes to GitHub over SSH.
pub const GITHUB_SSH_PUSH_REWRITE: &'static str = "url.ssh://git@github.com/.pushInsteadOf=https://github.com/";

pub open spec fn ssh_fallback_spec(fallback: bool) -> Seq<Seq<char>> {
    if fallback {
        seq!["-c"@, GITHUB_SSH_PUSH_REWRITE@]
    } else {
        Seq::empty()
    }
}

/// `git push`, with `--force-with-lease` when asked, over SSH for GitHub
/// on the retry.
pub open spec fn push_arguments_spec(force_with_lease: bool, fallback: bool) -> Seq<Seq<char>> {
    ssh_fallback_spec(fallback) + seq!["push"@] + (if force_with_lease { seq!["--force-with-lease"@] } else { Seq::empty() })
}

pub fn push_arguments(force_with_lease: bool, github_ssh_fallback: bool) -> (r: Vec<String>)
    ensures
        args(r@) == push_arguments_spec(force_with_lease, github_ssh_fallback),
{
    let mut r: Vec<String> = Vec::new();
    if github_ssh_fallback {
        push_arg(&mut r, "-c");
        push_arg(&mut r, GITHUB_SSH_PUSH_REWRITE);
    }
    push_arg(&mut r, "push");
    if force_with_lease {
        push_arg(&mut r, "--force-with-lease");
    }
    proof {
        assert(args(r@) =~= push_arguments_spec(force_with_lease, github_ssh_fallback));
    }
    r
}

/// `git push --set-upstream <remote> HEAD`, over SSH for GitHub on the
/// retry.
pub open spec fn publish_arguments_spec(remote: Seq<char>, fallback: bool) -> Seq<Seq<char>> {
    ssh_fallback_spec(fallback) + seq!["push"@, "--set-upstream"@, remote, "HEAD"@]
}

pub fn publish_arguments(remote: &str, github_ssh_fallback: bool) -> (r: Vec<String>)
    ensures
        args(r@) == publish_arguments_spec(remote@, github_ssh_fallback),
{
    let mut r: Vec<String> = Vec::new();
    if github_ssh_fallback {
        push_arg(&mut r, "-c");
        push_arg(&mut r, GITHUB_SSH_PUSH_REWRITE);
    }
    push_arg(&mut r, "push");
    push_arg(&mut r, "--set-upstream");
    push_arg(&mut r, remote);
    push_arg(&mut r, "HEAD");
    proof {
        assert(args(r@) =~= publish_arguments_spec(remote@, github_ssh_fallback));
    }
    r
}

/// A push refused for authentication is tried once more over SSH.
pub fn retries_over_ssh(result: &Result<(), GitError>) -> (r: bool)
    ensures
        r == (result matches Err(e) && e.code == GitErrorCode::Authentication),
{
    match result {
        Ok(_) => false,
        Err(e) => e.code == GitErrorCode::Authentication,
    }
}

/// What a push came to: pushed, a non-fast-forward refusal that a
/// force-with-lease push may overcome (when not already forced), or the
/// error.
pub fn push_outcome(result: Result<(), GitError>, force_with_lease: bool) -> (r: Result<PushOutcome, GitError>)
    ensures
        result is Ok ==> (r matches Ok(PushOutcome::Pushed { result: done }) && done.message@ == if force_with_lease {
            "Force-with-lease push completed."@
        } else {
            "Push completed."@
        }),
        result matches Err(e) ==> (e.code == GitErrorCode::NonFastForward && !force_with_lease ==> r
            == Ok::<PushOutcome, GitError>(PushOutcome::ForceWithLeaseRequired { message: e.message })),
        result matches Err(e) ==> (!(e.code == GitErrorCode::NonFastForward && !force_with_lease) ==> r
            == Err::<PushOutcome, GitError>(e)),
{
    match result {
        Ok(_) => Ok(PushOutcome::Pushed {
            result: RemoteResult {
                message: if force_with_lease {
                    "Force-with-lease push completed.".to_owned()
                } else {
                    "Push completed.".to_owned()
                },
            },
        }),
        Err(e) => if e.code == GitErrorCode::NonFastForward && !force_with_lease {
            Ok(PushOutcome::ForceWithLeaseRequired { message: e.message })
        } else {
            Err(e)
        },
    }
}

/// Publishing to a remote Git does not know reports the remote as missing;
/// other failures pass unchanged.
pub fn missing_remote_failure(error: GitError) -> (r: GitError)
    ensures
        error.code == GitErrorCode::CommandFailed ==> r.code == GitErrorCode::Conflict && r.exit_code is None
            && r.message@ == "The selected Git remote does not exist."@,
        error.code != GitErrorCode::CommandFailed ==> r == error,
{
    if error.code == GitErrorCode::CommandFailed {
        GitError::new(GitErrorCode::Conflict, "The selected Git remote does not exist.")
    } else {
        error
    }
}

/// The message of a finished publish.
pub fn published(remote: &str) -> (r: RemoteResult)
    ensures
        r.message@ == "Published branch to "@ + remote@ + "."@,
{
    let mut message = joined("Published branch to ", remote);
    push_str(&mut message, ".");
    RemoteResult { message }
}

/// The message of a finished fetch from one remote.
pub fn fetched(name: &str) -> (r: RemoteResult)
    ensures
        r.message@ == "Fetched "@ + name@ + "."@,
{
    let mut message = joined("Fetched ", name);
    push_str(&mut message, ".");
    RemoteResult { message }
}


/// The message of a path list that names no file.
pub open spec fn paths_required_message() -> Seq<char> {
    "At least one workspace-relative file path is required."@
}

/// Operations on files need at least one path, and none of them may be the
/// workspace root (the empty path).
pub fn require_paths(paths: &Vec<String>) -> (r: Result<(), GitError>)
    ensures
        r is Ok <==> paths@.len() > 0 && forall|i: int| 0 <= i < paths@.len() ==> #[trigger] paths@[i]@.len() > 0,
        r matches Err(e) ==> e.code == GitErrorCode::InvalidWorkspace && e.message@ == paths_required_message(),
{
    if paths.len() == 0 {
        return Err(GitError::new(GitErrorCode::InvalidWorkspace, "At least one workspace-relative file path is required."));
    }
    let mut i: usize = 0;
    while i < paths.len()
        invariant
            i <= paths@.len(),
            forall|j: int| 0 <= j < i ==> #[trigger] paths@[j]@.len() > 0,
        decreases paths@.len() - i,
    {
        if chars_of(paths[i].as_str()).len() == 0 {
            return Err(GitError::new(GitErrorCode::InvalidWorkspace, "At least one workspace-relative file path is required."));
        }
        i = i + 1;
    }
    Ok(())
}

/// `command -- paths...`.
pub open spec fn path_arguments_spec(command: Seq<Seq<char>>, paths: Seq<Seq<char>>) -> Seq<Seq<char>> {
    command + seq!["--"@] + paths
}

pub open spec fn words(v: Seq<&'static str>) -> Seq<Seq<char>> {
    v.map_values(|s: &'static str| s@)
}

pub fn path_arguments(command: &[&'static str], paths: &Vec<String>) -> (r: Vec<String>)
    ensures
        args(r@) == path_arguments_spec(words(command@), args(paths@)),
{
    let mut r: Vec<String> = Vec::new();
    let mut i: usize = 0;
    while i < command.len()
        invariant
            i <= command@.len(),
            args(r@) == words(command@).take(i as int),
        decreases command@.len() - i,
    {
        push_arg(&mut r, command[i]);
        i = i + 1;
        proof {
            assert(words(command@).take(i as int) =~= words(command@).take(i - 1).push(command@[i - 1]@));
        }
    }
    push_arg(&mut r, "--");
    let mut k: usize = 0;
    let ghost head = args(r@);
    proof {
        assert(words(command@).take(command@.len() as int) =~= words(command@));
    }
    while k < paths.len()
        invariant
            k <= paths@.len(),
            head == words(command@) + seq!["--"@],
            args(r@) == head + args(paths@).take(k as int),
        decreases paths@.len() - k,
    {
        let ghost before = args(r@);
        r.push(paths[k].clone());
        proof {
            assert(args(r@) =~= before.push(paths@[k as int]@));
            assert(args(paths@).take(k + 1) =~= args(paths@).take(k as int).push(paths@[k as int]@));
        }
        k = k + 1;
    }
    proof {
        assert(args(paths@).take(paths@.len() as int) =~= args(paths@));
        assert(args(r@) =~= path_arguments_spec(words(command@), args(paths@)));
    }
    r
}

/// Whether the status lists `path` as untracked in the working tree.
pub open spec fn untracked_in(changes: Seq<ChangeView>, path: Seq<char>) -> bool {
    exists|i: int| 0 <= i < changes.len() && #[trigger] changes[i].path == path
        && changes[i].worktree == Some(ChangeKind::Untracked)
}

pub fn is_untracked(status: &RepositoryStatus, path: &str) -> (r: bool)
    ensures
        r == untracked_in(changes_view(status.changes@), path@),
{
    let p = chars_of(path);
    let mut i: usize = 0;
    while i < status.changes.len()
        invariant
            i <= status.changes@.len(),
            p@ == path@,
            forall|j: int| 0 <= j < i ==> !(#[trigger] changes_view(status.changes@)[j].path == path@
                && changes_view(status.changes@)[j].worktree == Some(ChangeKind::Untracked)),
        decreases status.changes@.len() - i,
    {
        let change = &status.changes[i];
        if change.worktree == Some(ChangeKind::Untracked) && seq_eq(&chars_of(change.path.as_str()), &p) {
            proof {
                assert(changes_view(status.changes@)[i as int].path == path@);
            }
            return true;
        }
        i = i + 1;
    }
    false
}

/// The paths to discard, split into the ones Git tracks (restored from the
/// index) and the untracked ones (deleted), each in the order given.
pub open spec fn discard_split(paths: Seq<Seq<char>>, changes: Seq<ChangeView>) -> (Seq<Seq<char>>, Seq<Seq<char>>)
    decreases paths.len(),
{
    if paths.len() == 0 {
        (Seq::empty(), Seq::empty())
    } else {
        let (known, untracked) = discard_split(paths.drop_last(), changes);
        if untracked_in(changes, paths.last()) {
            (known, untracked.push(paths.last()))
        } else {
            (known.push(paths.last()), untracked)
        }
    }
}

pub fn split_discard_paths(paths: &Vec<String>, status: &RepositoryStatus) -> (r: (Vec<String>, Vec<String>))
    ensures
        (args(r.0@), args(r.1@)) == discard_split(args(paths@), changes_view(status.changes@)),
{
    let mut kept: Vec<String> = Vec::new();
    let mut untracked: Vec<String> = Vec::new();
    let mut i: usize = 0;
    while i < paths.len()
        invariant
            i <= paths@.len(),
            (args(kept@), args(untracked@)) == discard_split(args(paths@).take(i as int), changes_view(status.changes@)),
        decreases paths@.len() - i,
    {
        proof {
            assert(args(paths@).take(i + 1).drop_last() =~= args(paths@).take(i as int));
        }
        let ghost t0 = args(kept@);
        let ghost u0 = args(untracked@);
        if is_untracked(status, paths[i].as_str()) {
            untracked.push(paths[i].clone());
            proof {
                assert(args(untracked@) =~= u0.push(paths@[i as int]@));
            }
        } else {
            kept.push(paths[i].clone());
            proof {
                assert(args(kept@) =~= t0.push(paths@[i as int]@));
            }
        }
        i = i + 1;
    }
    proof {
        assert(args(paths@).take(i as int) =~= args(paths@));
    }
    (kept, untracked)
}

/// A conflict can be shown or resolved only for a path the status still
/// lists as conflicted.
pub fn require_conflicted_path(status: &RepositoryStatus, path: &str) -> (r: Result<(), GitError>)
    ensures
        r is Ok <==> exists|i: int| 0 <= i < status.changes@.len() && status.changes@[i].conflicted
            && #[trigger] status.changes@[i].path@ == path@,
        r matches Err(e) ==> e.code == GitErrorCode::Conflict && e.message@ == "The selected file is no longer conflicted."@,
{
    let p = chars_of(path);
    let mut i: usize = 0;
    while i < status.changes.len()
        invariant
            i <= status.changes@.len(),
            p@ == path@,
            forall|j: int| 0 <= j < i ==> !(status.changes@[j].conflicted && #[trigger] status.changes@[j].path@ == path@),
        decreases status.changes@.len() - i,
    {
        if status.changes[i].conflicted && seq_eq(&chars_of(status.changes[i].path.as_str()), &p) {
            return Ok(());
        }
        i = i + 1;
    }
    Err(GitError::new(GitErrorCode::Conflict, "The selected file is no longer conflicted."))
}


/// How much history a clone brings.
#[derive(Clone, Copy, Debug, PartialEq, Eq, Structural)]
pub enum CloneMode {
    Full,
    Blobless,
    Shallow,
}

/// `git clone --progress [mode] -- <url> <directory>`: blobless clones
/// filter out blobs, shallow ones keep one commit.
pub open spec fn clone_arguments_spec(mode: CloneMode, url: Seq<char>, directory: Seq<char>) -> Seq<Seq<char>> {
    seq!["clone"@, "--progress"@] + match mode {
        CloneMode::Full => Seq::empty(),
        CloneMode::Blobless => seq!["--filter=blob:none"@],
        CloneMode::Shallow => seq!["--depth"@, "1"@],
    } + seq!["--"@, url, directory]
}

pub fn clone_arguments(mode: CloneMode, url: &str, directory: &str) -> (r: Vec<String>)
    ensures
        args(r@) == clone_arguments_spec(mode, url@, directory@),
{
    let mut r: Vec<String> = Vec::new();
    push_arg(&mut r, "clone");
    push_arg(&mut r, "--progress");
    match mode {
        CloneMode::Full => {},
        CloneMode::Blobless => push_arg(&mut r, "--filter=blob:none"),
        CloneMode::Shallow => {
            push_arg(&mut r, "--depth");
            push_arg(&mut r, "1");
        },
    }
    push_arg(&mut r, "--");
    push_arg(&mut r, url);
    push_arg(&mut r, directory);
    proof {
        assert(args(r@) =~= clone_arguments_spec(mode, url@, directory@));
    }
    r
}

fn decimal_text(prefix: &str, n: u64) -> (r: String)
    ensures
        r@ == prefix@ + decimal(n as nat),
{
    let mut r = prefix.to_owned();
    let digits = string_from_chars(&format_decimal(n));
    push_str(&mut r, digits.as_str());
    r
}

/// The diff of one path: an untracked file against `/dev/null`, any other
/// file against the index, or the index against `HEAD` (`--cached`), with
/// `context` lines of context.
pub open spec fn diff_arguments_spec(kind: DiffKind, untracked: bool, context: u32, path: Seq<char>) -> Seq<Seq<char>> {
    let unified = "--unified="@ + decimal(context as nat);
    if untracked {
        seq!["diff"@, "--no-index"@, "--no-ext-diff"@, "--no-color"@, "--binary"@, unified, "--"@, "/dev/null"@, path]
    } else {
        seq!["diff"@, "--no-ext-diff"@, "--no-color"@, "--binary"@, unified] + (if kind == DiffKind::Staged {
            seq!["--cached"@]
        } else {
            Seq::empty()
        }) + seq!["--"@, path]
    }
}

pub fn diff_arguments(kind: DiffKind, untracked: bool, context: u32, path: &str) -> (r: Vec<String>)
    ensures
        args(r@) == diff_arguments_spec(kind, untracked, context, path@),
{
    let unified = decimal_text("--unified=", context as u64);
    let mut r: Vec<String> = Vec::new();
    push_arg(&mut r, "diff");
    if untracked {
        push_arg(&mut r, "--no-index");
    }
    push_arg(&mut r, "--no-ext-diff");
    push_arg(&mut r, "--no-color");
    push_arg(&mut r, "--binary");
    let ghost before = args(r@);
    r.push(unified);
    proof {
        assert(args(r@) =~= before.push(unified@));
    }
    if untracked {
        push_arg(&mut r, "--");
        push_arg(&mut r, "/dev/null");
        push_arg(&mut r, path);
    } else {
        if kind == DiffKind::Staged {
            push_arg(&mut r, "--cached");
        }
        push_arg(&mut r, "--");
        push_arg(&mut r, path);
    }
    proof {
        assert(args(r@) =~= diff_arguments_spec(kind, untracked, context, path@));
    }
    r
}

/// Whether a patch shows binary content.
pub open spec fn binary_patch_spec(patch: Seq<char>) -> bool {
    crate::text::contains_seq(patch, "GIT binary patch"@) || crate::text::contains_seq(patch, "Binary files "@)
}

pub fn is_binary_patch(patch: &str) -> (r: bool)
    ensures
        r == binary_patch_spec(patch@),
{
    let p = chars_of(patch);
    crate::text::seq_contains(&p, &chars_of("GIT binary patch")) || crate::text::seq_contains(&p, &chars_of("Binary files "))
}

/// The revision holding the original side of a diff: the index entry
/// (`:<path>`) for the working tree, the `HEAD` entry for the index.
pub open spec fn original_revision_spec(kind: DiffKind, path: Seq<char>) -> Seq<char> {
    match kind {
        DiffKind::Worktree => ":"@ + path,
        DiffKind::Staged => "HEAD:"@ + path,
    }
}

pub fn original_revision(kind: DiffKind, path: &str) -> (r: String)
    ensures
        r@ == original_revision_spec(kind, path@),
{
    match kind {
        DiffKind::Worktree => joined(":", path),
        DiffKind::Staged => joined("HEAD:", path),
    }
}

/// `git show` of one revision's content, as stored.
pub open spec fn show_revision_spec(revision: Seq<char>) -> Seq<Seq<char>> {
    seq!["show"@, "--no-color"@, "--no-textconv"@, "--format="@, revision]
}

pub fn show_revision_arguments(revision: &str) -> (r: Vec<String>)
    ensures
        args(r@) == show_revision_spec(revision@),
{
    let mut r: Vec<String> = Vec::new();
    push_arg(&mut r, "show");
    push_arg(&mut r, "--no-color");
    push_arg(&mut r, "--no-textconv");
    push_arg(&mut r, "--format=");
    push_arg(&mut r, revision);
    proof {
        assert(args(r@) =~= show_revision_spec(revision@));
    }
    r
}

/// A revision's content as text: empty when Git could not show it (the
/// path is new), nothing when it is not UTF-8.
pub open spec fn revision_text_spec(found: bool, output: Seq<u8>) -> Option<Seq<char>> {
    if !found {
        Some(Seq::empty())
    } else {
        decoded(output)
    }
}

pub fn revision_text(found: bool, output: &[u8]) -> (r: Option<String>)
    ensures
        opt_string_view(r) == revision_text_spec(found, output@),
{
    if !found {
        Some(String::new())
    } else {
        let t = decode(output);
        proof {
            assert(opt_string_view(t) == crate::app_shell::opt_view(t));
        }
        t
    }
}

/// The number of commits a history view asks for, within 1 to 200.
pub open spec fn history_limit_spec(limit: u32) -> u32 {
    if limit < 1 {
        1
    } else if limit > 200 {
        200
    } else {
        limit
    }
}

/// `git log` of the latest commits, NUL-separated, one record per commit.
pub open spec fn history_arguments_spec(limit: u32) -> Seq<Seq<char>> {
    seq!["log"@, "-z"@, "--no-show-signature"@, "--format=%H%x1f%h%x1f%P%x1f%an%x1f%ae%x1f%at%x1f%s"@,
        "-n"@ + decimal(history_limit_spec(limit) as nat)]
}

pub fn history_arguments(limit: u32) -> (r: Vec<String>)
    ensures
        args(r@) == history_arguments_spec(limit),
{
    let n: u32 = if limit < 1 {
        1
    } else if limit > 200 {
        200
    } else {
        limit
    };
    let mut r: Vec<String> = Vec::new();
    push_arg(&mut r, "log");
    push_arg(&mut r, "-z");
    push_arg(&mut r, "--no-show-signature");
    push_arg(&mut r, "--format=%H%x1f%h%x1f%P%x1f%an%x1f%ae%x1f%at%x1f%s");
    let count = decimal_text("-n", n as u64);
    let ghost before = args(r@);
    r.push(count);
    proof {
        assert(args(r@) =~= before.push(count@));
        assert(args(r@) =~= history_arguments_spec(limit));
    }
    r
}

/// The largest tag message accepted, in bytes.
pub const MAX_TAG_MESSAGE_BYTES: usize = 262144;

/// `git tag`: annotated (`-a <name> -m <message>`) when the message is not
/// blank, lightweight otherwise, on the target when one is given.
pub open spec fn tag_arguments_spec(name: Seq<char>, message: Option<Seq<char>>, target: Option<Seq<char>>) -> Seq<Seq<char>> {
    seq!["tag"@] + (match message {
        Some(m) => if trim(m).len() > 0 {
            seq!["-a"@, name, "-m"@, m]
        } else {
            seq![name]
        },
        None => seq![name],
    }) + match target {
        Some(t) => seq![t],
        None => Seq::empty(),
    }
}

/// The command creating the tag a request asks for, after its checks: a
/// message over the byte limit is refused, then a target that is no valid
/// revision.
pub fn tag_arguments(request: &TagRequest) -> (r: Result<Vec<String>, GitError>)
    ensures
        (match request.message {
            Some(m) => crate::text::byte_len(m@) > MAX_TAG_MESSAGE_BYTES,
            None => false,
        }) ==> (r matches Err(e) && e.code == GitErrorCode::OutputTooLarge && e.message@ == "The tag message is too large."@),
        !(match request.message {
            Some(m) => crate::text::byte_len(m@) > MAX_TAG_MESSAGE_BYTES,
            None => false,
        }) ==> match request.target {
            Some(t) => !crate::git_validation::valid_revision(t@) ==> (r matches Err(e) && e.code == GitErrorCode::Conflict
                && e.message@ == "Enter a valid Git revision or branch name."@),
            None => true,
        },
        r matches Ok(v) ==> args(v@) == tag_arguments_spec(request.name@, opt_string_view(request.message), opt_string_view(request.target)),
        r is Ok <==> !(match request.message {
            Some(m) => crate::text::byte_len(m@) > MAX_TAG_MESSAGE_BYTES,
            None => false,
        }) && match request.target {
            Some(t) => crate::git_validation::valid_revision(t@),
            None => true,
        },
{
    match &request.message {
        Some(m) => if !crate::text::byte_len_at_most(&chars_of(m.as_str()), MAX_TAG_MESSAGE_BYTES) {
            return Err(GitError::new(GitErrorCode::OutputTooLarge, "The tag message is too large."));
        },
        None => {},
    }
    match &request.target {
        Some(t) => {
            crate::git_validation::validate_revision(t.as_str())?;
        },
        None => {},
    }
    let mut r: Vec<String> = Vec::new();
    push_arg(&mut r, "tag");
    let annotated = match &request.message {
        Some(m) => !is_blank(&chars_of(m.as_str())),
        None => false,
    };
    if annotated {
        push_arg(&mut r, "-a");
        push_arg(&mut r, request.name.as_str());
        push_arg(&mut r, "-m");
        match &request.message {
            Some(m) => push_arg(&mut r, m.as_str()),
            None => {},
        }
    } else {
        push_arg(&mut r, request.name.as_str());
    }
    match &request.target {
        Some(t) => push_arg(&mut r, t.as_str()),
        None => {},
    }
    proof {
        assert(args(r@) =~= tag_arguments_spec(request.name@, opt_string_view(request.message), opt_string_view(request.target)));
    }
    Ok(r)
}


/// The value `git config --get` printed: nothing when the key is unset
/// (exit code 1), else the text trimmed.
pub open spec fn config_value_spec(exit_code: Option<i32>, output: Seq<u8>) -> Option<Option<Seq<char>>> {
    if exit_code == Some(1i32) {
        Some(None)
    } else {
        match decoded(output) {
            Some(t) => Some(Some(trim(t))),
            None => None,
        }
    }
}

pub fn config_value(exit_code: Option<i32>, output: &[u8]) -> (r: Result<Option<String>, GitError>)
    ensures
        r is Ok <==> config_value_spec(exit_code, output@) is Some,
        r matches Ok(v) ==> Some(opt_string_view(v)) == config_value_spec(exit_code, output@),
        r matches Err(e) ==> e.code == GitErrorCode::Parse && e.message@ == "Git configuration is not UTF-8."@,
{
    if exit_code == Some(1i32) {
        return Ok(None);
    }
    match decode(output) {
        Some(t) => Ok(Some(string_from_chars(&trimmed(&chars_of(t.as_str()))))),
        None => Err(GitError::new(GitErrorCode::Parse, "Git configuration is not UTF-8.")),
    }
}

/// The commit `HEAD` names, as `git rev-parse` printed it, trimmed.
pub fn head_oid(output: &[u8]) -> (r: Result<String, GitError>)
    ensures
        r is Ok <==> decoded(output@) is Some,
        r matches Ok(oid) ==> (decoded(output@) matches Some(t) && oid@ == trim(t)),
        r matches Err(e) ==> e.code == GitErrorCode::Parse && e.message@ == "Git returned an invalid commit ID."@,
{
    match decode(output) {
        Some(t) => Ok(string_from_chars(&trimmed(&chars_of(t.as_str())))),
        None => Err(GitError::new(GitErrorCode::Parse, "Git returned an invalid commit ID.")),
    }
}

/// A full commit message as `git show --format=%B` printed it, without its
/// trailing ASCII white space.
pub fn commit_message_text(output: &[u8]) -> (r: Result<String, GitError>)
    ensures
        r is Ok <==> decoded(crate::git_parsing::trimmed_end(output@)) is Some,
        r matches Ok(text) ==> decoded(crate::git_parsing::trimmed_end(output@)) == Some(text@),
        r matches Err(e) ==> e.code == GitErrorCode::Parse && e.message@ == crate::git_parsing::data_format_message(),
{
    let end = crate::git_parsing::trim_ascii_end(output);
    let kept = crate::bytes::byte_range(output, 0, end);
    proof {
        assert(output@.subrange(0, end as int) =~= output@.take(end as int));
    }
    match decode(&kept) {
        Some(t) => Ok(t),
        None => Err(GitError::new(GitErrorCode::Parse, "Git returned data in an unexpected format.")),
    }
}

/// `s` without its trailing slashes.
pub open spec fn strip_slashes(s: Seq<char>) -> Seq<char>
    decreases s.len(),
{
    if s.len() > 0 && s.last() == '/' {
        strip_slashes(s.drop_last())
    } else {
        s
    }
}

/// The ignored paths in NUL-separated pieces: the non-empty pieces as
/// text, without trailing slashes; nothing when one of them is not UTF-8.
pub open spec fn ignored_from(pieces: Seq<Seq<u8>>) -> Option<Seq<Seq<char>>>
    decreases pieces.len(),
{
    if pieces.len() == 0 {
        Some(Seq::empty())
    } else {
        match ignored_from(pieces.drop_last()) {
            None => None,
            Some(done) => if pieces.last().len() == 0 {
                Some(done)
            } else {
                match decoded(pieces.last()) {
                    Some(t) => Some(done.push(strip_slashes(t))),
                    None => None,
                }
            },
        }
    }
}

fn without_slashes(s: &str) -> (r: String)
    ensures
        r@ == strip_slashes(s@),
{
    let c = chars_of(s);
    let mut end = c.len();
    proof {
        assert(c@.take(end as int) =~= c@);
    }
    while end > 0 && c[end - 1] == '/'
        invariant
            end <= c@.len(),
            c@ == s@,
            strip_slashes(s@) == strip_slashes(c@.take(end as int)),
        decreases end,
    {
        proof {
            assert(c@.take(end as int).drop_last() =~= c@.take(end - 1));
        }
        end = end - 1;
    }
    proof {
        assert(c@.subrange(0, end as int) =~= c@.take(end as int));
    }
    string_from_chars(&crate::text::slice_to_vec(&c, 0, end))
}

/// The paths `git ls-files --others --ignored --exclude-standard
/// --directory -z` printed.
pub fn ignored_paths(output: &[u8]) -> (r: Result<Vec<String>, GitError>)
    ensures
        r is Ok <==> ignored_from(split_bytes(output@, 0u8)) is Some,
        r matches Ok(paths) ==> ignored_from(split_bytes(output@, 0u8)) == Some(args(paths@)),
        r matches Err(e) ==> e.code == GitErrorCode::Parse && e.message@ == "Git returned a non-UTF-8 ignored path."@,
{
    let pieces = split_on_byte(output, 0u8);
    let mut r: Vec<String> = Vec::new();
    let mut i: usize = 0;
    while i < pieces.len()
        invariant
            i <= pieces@.len(),
            views(pieces@) == split_bytes(output@, 0u8),
            ignored_from(views(pieces@).take(i as int)) == Some(args(r@)),
        decreases pieces@.len() - i,
    {
        proof {
            assert(views(pieces@).take(i + 1).drop_last() =~= views(pieces@).take(i as int));
            assert(views(pieces@)[i as int] == pieces@[i as int]@);
        }
        if pieces[i].len() > 0 {
            match decode(&pieces[i]) {
                Some(t) => {
                    let p = without_slashes(t.as_str());
                    let ghost before = args(r@);
                    r.push(p);
                    proof {
                        assert(args(r@) =~= before.push(p@));
                    }
                },
                None => {
                    proof {
                        lemma_ignored_none(views(pieces@), i as int);
                    }
                    return Err(GitError::new(GitErrorCode::Parse, "Git returned a non-UTF-8 ignored path."));
                },
            }
        }
        i = i + 1;
    }
    proof {
        assert(views(pieces@).take(i as int) =~= views(pieces@));
    }
    Ok(r)
}

/// Once a prefix has no answer, no longer prefix has one.
proof fn lemma_ignored_none(pieces: Seq<Seq<u8>>, i: int)
    requires
        0 <= i < pieces.len(),
        ignored_from(pieces.take(i + 1)) is None,
    ensures
        ignored_from(pieces) is None,
    decreases pieces.len() - i,
{
    if i + 1 < pieces.len() {
        assert(pieces.take(i + 2).drop_last() =~= pieces.take(i + 1));
        lemma_ignored_none(pieces, i + 1);
    } else {
        assert(pieces.take(i + 1) =~= pieces);
    }
}


/// The non-empty lines among `lines`, in order.
pub open spec fn non_empty(lines: Seq<Seq<char>>) -> Seq<Seq<char>>
    decreases lines.len(),
{
    if lines.len() == 0 {
        Seq::empty()
    } else if lines.last().len() == 0 {
        non_empty(lines.drop_last())
    } else {
        non_empty(lines.drop_last()).push(lines.last())
    }
}

/// The remote names `git remote` printed, one per line.
pub fn remote_names(output: &[u8]) -> (r: Result<Vec<String>, GitError>)
    ensures
        r is Ok <==> decoded(output@) is Some,
        r matches Ok(names) ==> (decoded(output@) matches Some(t) && args(names@) == non_empty(crate::text::lines(t))),
        r matches Err(e) ==> e.code == GitErrorCode::Parse && e.message@ == crate::git_parsing::data_format_message(),
{
    let text = match decode(output) {
        Some(t) => t,
        None => {
            return Err(GitError::new(GitErrorCode::Parse, "Git returned data in an unexpected format."));
        },
    };
    let ls = crate::text::text_lines(&chars_of(text.as_str()));
    let ghost lv = ls@.map_values(|x: Vec<char>| x@);
    let mut r: Vec<String> = Vec::new();
    let mut i: usize = 0;
    while i < ls.len()
        invariant
            i <= ls@.len(),
            lv == ls@.map_values(|x: Vec<char>| x@),
            args(r@) == non_empty(lv.take(i as int)),
        decreases ls@.len() - i,
    {
        proof {
            assert(lv.take(i + 1).drop_last() =~= lv.take(i as int));
            assert(lv[i as int] == ls@[i as int]@);
        }
        if ls[i].len() > 0 {
            let name = string_from_chars(&ls[i]);
            let ghost before = args(r@);
            r.push(name);
            proof {
                assert(args(r@) =~= before.push(name@));
            }
        }
        i = i + 1;
    }
    proof {
        assert(lv.take(i as int) =~= lv);
    }
    Ok(r)
}

fn text_trim_end(t: &str) -> (r: String)
    ensures
        r@ == crate::text::trim_end(t@),
{
    let c = chars_of(t);
    let mut end = c.len();
    proof {
        assert(c@.take(end as int) =~= c@);
    }
    while end > 0 && crate::text::is_whitespace(c[end - 1])
        invariant
            end <= c@.len(),
            c@ == t@,
            crate::text::trim_end_index(t@) == crate::text::trim_end_index(c@.take(end as int)),
        decreases end,
    {
        proof {
            assert(c@.take(end as int).drop_last() =~= c@.take(end - 1));
        }
        end = end - 1;
    }
    proof {
        assert(c@.subrange(0, end as int) =~= c@.take(end as int));
    }
    string_from_chars(&crate::text::slice_to_vec(&c, 0, end))
}

/// A remote with the URLs `git remote get-url` printed for fetching and
/// for pushing, each without trailing white space.
pub fn remote_info(name: &str, fetch_output: &[u8], push_output: &[u8]) -> (r: Result<RemoteInfo, GitError>)
    ensures
        r is Ok <==> decoded(fetch_output@) is Some && decoded(push_output@) is Some,
        r matches Ok(info) ==> info.name@ == name@ && (decoded(fetch_output@) matches Some(f) && info.fetch_url@
            == crate::text::trim_end(f)) && (decoded(push_output@) matches Some(p) && info.push_url@
            == crate::text::trim_end(p)),
        r matches Err(e) ==> e.code == GitErrorCode::Parse && e.message@ == crate::git_parsing::data_format_message(),
{
    let fetch = match decode(fetch_output) {
        Some(t) => t,
        None => {
            return Err(GitError::new(GitErrorCode::Parse, "Git returned data in an unexpected format."));
        },
    };
    let push = match decode(push_output) {
        Some(t) => t,
        None => {
            return Err(GitError::new(GitErrorCode::Parse, "Git returned data in an unexpected format."));
        },
    };
    Ok(RemoteInfo {
        name: name.to_owned(),
        fetch_url: text_trim_end(fetch.as_str()),
        push_url: text_trim_end(push.as_str()),
    })
}

/// What the workspace file service reports when a file cannot be read or
/// written.
#[derive(Clone, Copy, Debug, PartialEq, Eq, Structural)]
pub enum WorkspaceErrorCode {
    InvalidPath,
    OutsideAllowedRoot,
    RootOperationRejected,
    NotFound,
    Conflict,
    TooLarge,
    UnsupportedEncoding,
    PermissionDenied,
    Unavailable,
    AlreadyExists,
    Internal,
}

/// The Git error code a workspace file error is reported under.
pub open spec fn workspace_error_code(code: WorkspaceErrorCode) -> GitErrorCode {
    match code {
        WorkspaceErrorCode::InvalidPath | WorkspaceErrorCode::OutsideAllowedRoot
        | WorkspaceErrorCode::RootOperationRejected => GitErrorCode::InvalidWorkspace,
        WorkspaceErrorCode::NotFound | WorkspaceErrorCode::Conflict => GitErrorCode::Conflict,
        WorkspaceErrorCode::TooLarge => GitErrorCode::OutputTooLarge,
        WorkspaceErrorCode::UnsupportedEncoding => GitErrorCode::Unsupported,
        WorkspaceErrorCode::PermissionDenied | WorkspaceErrorCode::Unavailable
        | WorkspaceErrorCode::AlreadyExists => GitErrorCode::Unavailable,
        WorkspaceErrorCode::Internal => GitErrorCode::Internal,
    }
}

/// A workspace file error as a Git error, with its message kept.
pub fn map_workspace_error(code: WorkspaceErrorCode, message: &str) -> (r: GitError)
    ensures
        r.code == workspace_error_code(code),
        r.message@ == message@,
        r.exit_code is None,
{
    let git_code = match code {
        WorkspaceErrorCode::InvalidPath | WorkspaceErrorCode::OutsideAllowedRoot
        | WorkspaceErrorCode::RootOperationRejected => GitErrorCode::InvalidWorkspace,
        WorkspaceErrorCode::NotFound | WorkspaceErrorCode::Conflict => GitErrorCode::Conflict,
        WorkspaceErrorCode::TooLarge => GitErrorCode::OutputTooLarge,
        WorkspaceErrorCode::UnsupportedEncoding => GitErrorCode::Unsupported,
        WorkspaceErrorCode::PermissionDenied | WorkspaceErrorCode::Unavailable
        | WorkspaceErrorCode::AlreadyExists => GitErrorCode::Unavailable,
        WorkspaceErrorCode::Internal => GitErrorCode::Internal,
    };
    GitError::new(git_code, message)
}

/// The working-tree side of a diff read from the workspace: a missing file
/// is empty, a file that cannot be read is not shown.
pub fn current_side(read: Result<String, WorkspaceErrorCode>) -> (r: Option<String>)
    ensures
        read matches Ok(text) ==> r == Some(text),
        read matches Err(code) ==> (code == WorkspaceErrorCode::NotFound ==> (r matches Some(t) && t@.len() == 0)),
        read matches Err(code) ==> (code != WorkspaceErrorCode::NotFound ==> r is None),
{
    match read {
        Ok(text) => Some(text),
        Err(code) => if code == WorkspaceErrorCode::NotFound {
            Some(String::new())
        } else {
            None
        },
    }
}

} // verus!
