//! Checks on what users ask of Git before any command runs, and the reading
//! of what Git reports back while cloning or when a command fails.
use vstd::prelude::*;
use crate::app_shell::{has_control_char, last_separator, looks_like_git_url, looks_like_git_url_spec, opt_view};
use crate::editor_config::{strip_trailing, strip_trailing_char};
use crate::git_model::{ClonePhase, CloneProgress, CommitRequest, GitError, GitErrorCode, RemoteRequest};
use crate::text::{
    byte_len, byte_len_at_most, chars_of, contains_char, contains_seq, ends_with, has_control,
    is_ascii_digit_spec, lower_seq, parse_unsigned, parse_unsigned_bounded, seq_contains,
    seq_ends_with, slice_to_vec, starts_with, starts_with_str, string_from_chars, to_ascii_lowercase,
    trim, trimmed,
};

verus! {

fn error(code: GitErrorCode, message: &str) -> (e: GitError)
    ensures
        e.code == code,
        e.message@ == message@,
        e.exit_code is None,
{
    GitError::new(code, message)
}

/// The error, if any, for a remote that is about to be added or changed.
pub open spec fn remote_request_error(name: Seq<char>, fetch_url: Seq<char>, push_url: Option<Seq<char>>) -> Option<
    (GitErrorCode, Seq<char>),
> {
    if trim(name).len() == 0 {
        Some((GitErrorCode::Conflict, "Remote name cannot be empty."@))
    } else if trim(fetch_url).len() == 0 {
        Some((GitErrorCode::Conflict, "Remote fetch URL cannot be empty."@))
    } else if byte_len(fetch_url) > 65536 || (push_url matches Some(url) && byte_len(url) > 65536) {
        Some((GitErrorCode::OutputTooLarge, "Remote URL is too large."@))
    } else {
        None
    }
}

pub open spec fn error_matches(r: Result<(), GitError>, expected: Option<(GitErrorCode, Seq<char>)>) -> bool {
    match expected {
        None => r is Ok,
        Some((code, message)) => r matches Err(e) && e.code == code && e.message@ == message,
    }
}

/// Checks a remote before it is added or changed.
pub fn validate_remote_request(request: &RemoteRequest) -> (r: Result<(), GitError>)
    ensures
        error_matches(r, remote_request_error(request.name@, request.fetch_url@, opt_view(request.push_url))),
{
    let name = chars_of(request.name.as_str());
    if trimmed(&name).len() == 0 {
        return Err(error(GitErrorCode::Conflict, "Remote name cannot be empty."));
    }
    let fetch = chars_of(request.fetch_url.as_str());
    if trimmed(&fetch).len() == 0 {
        return Err(error(GitErrorCode::Conflict, "Remote fetch URL cannot be empty."));
    }
    let push_too_large = match &request.push_url {
        Some(url) => !byte_len_at_most(&chars_of(url.as_str()), 65536),
        None => false,
    };
    if !byte_len_at_most(&fetch, 65536) || push_too_large {
        return Err(error(GitErrorCode::OutputTooLarge, "Remote URL is too large."));
    }
    Ok(())
}

/// A usable remote name: not blank, not starting with `-`, at most 1024
/// bytes and free of control characters, once trimmed.
pub open spec fn valid_remote_name(name: Seq<char>) -> bool {
    let t = trim(name);
    t.len() > 0 && !starts_with(t, "-"@) && byte_len(t) <= 1024 && !has_control_char(t)
}

/// Checks a remote name, giving it back trimmed.
pub fn validate_remote_name(name: &str) -> (r: Result<String, GitError>)
    ensures
        r is Ok <==> valid_remote_name(name@),
        r matches Ok(t) ==> t@ == trim(name@),
        r matches Err(e) ==> e.code == GitErrorCode::Conflict && e.message@ == "Enter a valid Git remote name."@,
{
    let all = chars_of(name);
    let t = trimmed(&all);
    if t.len() == 0 || starts_with_str(&t, "-") || !byte_len_at_most(&t, 1024) || has_control(&t) {
        return Err(error(GitErrorCode::Conflict, "Enter a valid Git remote name."));
    }
    Ok(string_from_chars(&t))
}

/// The error, if any, for a commit about to be made.
pub open spec fn commit_request_error(message: Seq<char>, passphrase: Option<Seq<char>>) -> Option<(GitErrorCode, Seq<char>)> {
    if trim(message).len() == 0 {
        Some((GitErrorCode::Conflict, "Enter a commit message."@))
    } else if byte_len(message) > 262144 {
        Some((GitErrorCode::OutputTooLarge, "The commit message is too large."@))
    } else if passphrase matches Some(p) && byte_len(p) > 16384 {
        Some((GitErrorCode::OutputTooLarge, "The signing passphrase is too large."@))
    } else {
        None
    }
}

/// Checks a commit before it is made.
pub fn validate_commit_request(request: &CommitRequest) -> (r: Result<(), GitError>)
    ensures
        error_matches(r, commit_request_error(request.message@, opt_view(request.signing_passphrase))),
{
    let message = chars_of(request.message.as_str());
    if trimmed(&message).len() == 0 {
        return Err(error(GitErrorCode::Conflict, "Enter a commit message."));
    }
    if !byte_len_at_most(&message, 262144) {
        return Err(error(GitErrorCode::OutputTooLarge, "The commit message is too large."));
    }
    let passphrase_too_large = match &request.signing_passphrase {
        Some(p) => !byte_len_at_most(&chars_of(p.as_str()), 16384),
        None => false,
    };
    if passphrase_too_large {
        return Err(error(GitErrorCode::OutputTooLarge, "The signing passphrase is too large."));
    }
    Ok(())
}

/// A revision or branch name that cannot be taken for an option: not
/// empty, not starting with `-`, at most 1024 bytes, no control characters.
pub open spec fn valid_revision(value: Seq<char>) -> bool {
    value.len() > 0 && !starts_with(value, "-"@) && byte_len(value) <= 1024 && !has_control_char(value)
}

/// Checks a revision or branch name given to a Git command.
pub fn validate_revision(value: &str) -> (r: Result<(), GitError>)
    ensures
        r is Ok <==> valid_revision(value@),
        r matches Err(e) ==> e.code == GitErrorCode::Conflict && e.message@
            == "Enter a valid Git revision or branch name."@,
{
    let v = chars_of(value);
    if v.len() == 0 || starts_with_str(&v, "-") || !byte_len_at_most(&v, 1024) || has_control(&v) {
        Err(error(GitErrorCode::Conflict, "Enter a valid Git revision or branch name."))
    } else {
        Ok(())
    }
}

/// A clone URL Git may be given: a supported remote form, without control
/// characters, of at most 16 KiB once trimmed.
pub open spec fn valid_clone_url(url: Seq<char>) -> bool {
    let t = trim(url);
    looks_like_git_url_spec(url) && !has_control_char(t) && byte_len(t) <= 16384
}

/// Checks a repository URL before cloning.
pub fn validate_clone_url(url: &str) -> (r: Result<(), GitError>)
    ensures
        r is Ok <==> valid_clone_url(url@),
        r matches Err(e) ==> e.code == GitErrorCode::Conflict && e.message@
            == "Enter a supported HTTPS, SSH, or Git repository URL."@,
{
    let all = chars_of(url);
    let t = trimmed(&all);
    if !looks_like_git_url(url) || has_control(&t) || !byte_len_at_most(&t, 16384) {
        return Err(error(GitErrorCode::Conflict, "Enter a supported HTTPS, SSH, or Git repository URL."));
    }
    Ok(())
}

/// A directory name a clone may create: not empty, `.` or `..`, at most 255
/// bytes, without path separators or control characters.
pub open spec fn safe_directory_name(name: Seq<char>) -> bool {
    name.len() > 0 && name != "."@ && name != ".."@ && byte_len(name) <= 255 && !name.contains('/')
        && !name.contains('\\') && !has_control_char(name)
}

fn check_directory_name(name: &Vec<char>) -> (r: Result<(), GitError>)
    ensures
        r is Ok <==> safe_directory_name(name@),
        r matches Err(e) ==> e.code == GitErrorCode::Conflict && e.message@
            == "The repository URL does not provide a safe destination name."@,
{
    if name.len() == 0 || crate::language::is_lit(name, ".") || crate::language::is_lit(name, "..")
        || !byte_len_at_most(name, 255) || contains_char(name, '/') || contains_char(name, '\\')
        || has_control(name) {
        return Err(error(GitErrorCode::Conflict, "The repository URL does not provide a safe destination name."));
    }
    Ok(())
}

/// Checks the name of the directory a clone will create.
pub fn validate_clone_directory_name(name: &str) -> (r: Result<(), GitError>)
    ensures
        r is Ok <==> safe_directory_name(name@),
        r matches Err(e) ==> e.code == GitErrorCode::Conflict && e.message@
            == "The repository URL does not provide a safe destination name."@,
{
    check_directory_name(&chars_of(name))
}

/// The directory a clone of `url` creates: the URL's last path component,
/// after trailing slashes, without a `.git` suffix.
pub open spec fn clone_directory(url: Seq<char>) -> Seq<char> {
    let base = strip_trailing(url, '/');
    let tail = base.skip(last_separator(base) + 1);
    if ends_with(tail, ".git"@) {
        tail.take(tail.len() - 4)
    } else {
        tail
    }
}

fn last_separator_end(s: &[char]) -> (r: usize)
    ensures
        r <= s@.len(),
        r as int == last_separator(s@) + 1,
{
    let mut i: usize = s.len();
    proof {
        assert(s@.take(s@.len() as int) =~= s@);
    }
    while i > 0 && s[i - 1] != '/' && s[i - 1] != ':'
        invariant
            i <= s@.len(),
            last_separator(s@) == last_separator(s@.take(i as int)),
        decreases i,
    {
        proof {
            assert(s@.take(i as int).drop_last() =~= s@.take(i - 1));
        }
        i = i - 1;
    }
    proof {
        if i == 0 {
            assert(s@.take(0) =~= Seq::<char>::empty());
        }
    }
    i
}

/// The safe directory name a clone of `url` creates.
pub fn clone_directory_name(url: &str) -> (r: Result<String, GitError>)
    ensures
        r is Ok <==> safe_directory_name(clone_directory(url@)),
        r matches Ok(name) ==> name@ == clone_directory(url@),
        r matches Err(e) ==> e.code == GitErrorCode::Conflict && e.message@
            == "The repository URL does not provide a safe destination name."@,
{
    let all = chars_of(url);
    let keep = strip_trailing_char(&all, '/');
    let base = slice_to_vec(&all, 0, keep);
    let from = last_separator_end(&base);
    let tail = slice_to_vec(&base, from, base.len());
    let suffix = chars_of(".git");
    proof {
        reveal_strlit(".git");
        assert(base@ =~= all@.take(keep as int));
        assert(tail@ =~= base@.skip(from as int));
    }
    let name = if seq_ends_with(&tail, &suffix) {
        slice_to_vec(&tail, 0, tail.len() - 4)
    } else {
        tail
    };
    proof {
        if ends_with(tail@, ".git"@) {
            assert(name@ =~= tail@.take(tail@.len() - 4));
        }
    }
    match check_directory_name(&name) {
        Ok(()) => Ok(string_from_chars(&name)),
        Err(e) => Err(e),
    }
}

/// The phase a line of `git clone --progress` output reports, if any.
pub open spec fn clone_phase_of(line: Seq<char>) -> Option<ClonePhase> {
    if contains_seq(line, "Cloning into"@) {
        Some(ClonePhase::Preparing)
    } else if contains_seq(line, "Counting objects"@) {
        Some(ClonePhase::Counting)
    } else if contains_seq(line, "Compressing objects"@) {
        Some(ClonePhase::Compressing)
    } else if contains_seq(line, "Receiving objects"@) {
        Some(ClonePhase::Receiving)
    } else if contains_seq(line, "Resolving deltas"@) {
        Some(ClonePhase::Resolving)
    } else if contains_seq(line, "Checking out files"@) || contains_seq(line, "Updating files"@) {
        Some(ClonePhase::CheckingOut)
    } else {
        None
    }
}

/// Index of the first `%`, or the length.
pub open spec fn first_percent(s: Seq<char>, i: int) -> int
    decreases s.len() - i,
{
    if i < 0 || i >= s.len() {
        s.len() as int
    } else if s[i] == '%' {
        i
    } else {
        first_percent(s, i + 1)
    }
}

/// Start of the run of ASCII digits that ends at `end`.
pub open spec fn digits_start(s: Seq<char>, end: int) -> int
    decreases end,
{
    if end <= 0 || end > s.len() || !is_ascii_digit_spec(s[end - 1]) {
        end
    } else {
        digits_start(s, end - 1)
    }
}

/// The percentage printed just before the first `%`, when it is at most 100.
pub open spec fn percent_of(line: Seq<char>) -> Option<u8> {
    let p = first_percent(line, 0);
    if p >= line.len() {
        None
    } else {
        match parse_unsigned(line.subrange(digits_start(line, p), p), 255) {
            Some(v) => if v <= 100 {
                Some(v as u8)
            } else {
                None
            },
            None => None,
        }
    }
}

pub open spec fn clone_progress_of(line: Seq<char>) -> Option<CloneProgress> {
    match clone_phase_of(line) {
        Some(phase) => Some(CloneProgress { phase, percent: percent_of(line) }),
        None => None,
    }
}

fn contains_str(s: &Vec<char>, needle: &str) -> (r: bool)
    ensures
        r == contains_seq(s@, needle@),
{
    seq_contains(s, &chars_of(needle))
}

fn parse_percent(line: &Vec<char>) -> (r: Option<u8>)
    ensures
        r == percent_of(line@),
{
    let mut p: usize = 0;
    while p < line.len() && line[p] != '%'
        invariant
            p <= line@.len(),
            first_percent(line@, 0) == first_percent(line@, p as int),
        decreases line@.len() - p,
    {
        p = p + 1;
    }
    if p >= line.len() {
        return None;
    }
    let mut start = p;
    while start > 0 && '0' <= line[start - 1] && line[start - 1] <= '9'
        invariant
            start <= p < line@.len(),
            digits_start(line@, p as int) == digits_start(line@, start as int),
        decreases start,
    {
        start = start - 1;
    }
    let digits = slice_to_vec(line, start, p);
    match parse_unsigned_bounded(&digits, 255) {
        Some(v) => if v <= 100 {
            Some(v as u8)
        } else {
            None
        },
        None => None,
    }
}

/// Reads a line of `git clone --progress` output; lines that report no
/// phase (errors among them) give nothing.
pub fn parse_clone_progress(line: &str) -> (r: Option<CloneProgress>)
    ensures
        r == clone_progress_of(line@),
{
    let l = chars_of(line);
    let phase = if contains_str(&l, "Cloning into") {
        ClonePhase::Preparing
    } else if contains_str(&l, "Counting objects") {
        ClonePhase::Counting
    } else if contains_str(&l, "Compressing objects") {
        ClonePhase::Compressing
    } else if contains_str(&l, "Receiving objects") {
        ClonePhase::Receiving
    } else if contains_str(&l, "Resolving deltas") {
        ClonePhase::Resolving
    } else if contains_str(&l, "Checking out files") || contains_str(&l, "Updating files") {
        ClonePhase::CheckingOut
    } else {
        return None;
    };
    Some(CloneProgress { phase, percent: parse_percent(&l) })
}

/// The code and message for a failed Git command, from its lower-cased
/// standard error.
pub open spec fn command_failure(stderr: Seq<char>) -> (GitErrorCode, Seq<char>) {
    if contains_seq(stderr, "not a git repository"@) {
        (GitErrorCode::NotRepository, "This workspace is not a Git repository."@)
    } else if contains_seq(stderr, "authentication failed"@) || contains_seq(stderr, "could not read username"@)
        || contains_seq(stderr, "permission denied (publickey)"@) {
        (GitErrorCode::Authentication, "Git authentication failed. Check the host credential helper or SSH agent."@)
    } else if contains_seq(stderr, "non-fast-forward"@) || contains_seq(stderr, "fetch first"@)
        || contains_seq(stderr, "[rejected]"@) {
        (GitErrorCode::NonFastForward, "The remote rejected this non-fast-forward push."@)
    } else if contains_seq(stderr, "gpg failed to sign"@) || contains_seq(stderr, "signing failed"@)
        || contains_seq(stderr, "failed to write commit object"@) {
        (GitErrorCode::SigningPassphraseRequired, "Git could not unlock the configured signing key."@)
    } else if contains_seq(stderr, "index.lock"@) {
        (GitErrorCode::Conflict, "The repository is locked by another Git operation."@)
    } else {
        (GitErrorCode::CommandFailed, "The Git command could not be completed."@)
    }
}

/// `String::from_utf8_lossy`: the text of `bytes` with each invalid
/// sequence replaced by U+FFFD.
pub uninterp spec fn utf8_lossy(bytes: Seq<u8>) -> Seq<char>;

/// Calls `String::from_utf8_lossy`; valid UTF-8 decodes exactly.
#[verifier::external_body]
fn lossy_text(bytes: &[u8]) -> (r: String)
    ensures
        r@ == utf8_lossy(bytes@),
        vstd::utf8::valid_utf8(bytes@) ==> r@ == vstd::utf8::decode_utf8(bytes@),
{
    String::from_utf8_lossy(bytes).into_owned()
}

/// The error reported for a Git command that failed with `stderr` and the
/// exit code `exit_code`; the command's own words are not passed on.
pub fn command_error(stderr: &[u8], exit_code: Option<i32>) -> (e: GitError)
    ensures
        (e.code, e.message@) == command_failure(lower_seq(utf8_lossy(stderr@))),
        e.exit_code == exit_code,
{
    let text = lossy_text(stderr);
    let lower = to_ascii_lowercase(&chars_of(text.as_str()));
    let failure = if contains_str(&lower, "not a git repository") {
        error(GitErrorCode::NotRepository, "This workspace is not a Git repository.")
    } else if contains_str(&lower, "authentication failed") || contains_str(&lower, "could not read username")
        || contains_str(&lower, "permission denied (publickey)") {
        error(GitErrorCode::Authentication, "Git authentication failed. Check the host credential helper or SSH agent.")
    } else if contains_str(&lower, "non-fast-forward") || contains_str(&lower, "fetch first")
        || contains_str(&lower, "[rejected]") {
        error(GitErrorCode::NonFastForward, "The remote rejected this non-fast-forward push.")
    } else if contains_str(&lower, "gpg failed to sign") || contains_str(&lower, "signing failed")
        || contains_str(&lower, "failed to write commit object") {
        error(GitErrorCode::SigningPassphraseRequired, "Git could not unlock the configured signing key.")
    } else if contains_str(&lower, "index.lock") {
        error(GitErrorCode::Conflict, "The repository is locked by another Git operation.")
    } else {
        error(GitErrorCode::CommandFailed, "The Git command could not be completed.")
    };
    failure.with_exit_code(exit_code)
}

} // verus!
