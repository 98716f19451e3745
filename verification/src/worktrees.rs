//! Managed Git worktrees: the branch names and start points users may ask
//! for, the directories made for them, and Git's list of worktrees.
use vstd::prelude::*;
use crate::app_shell::{has_control_char, opt_view};
use crate::bytes::{split_bytes, split_on_byte, views};
use crate::editor_config::{strip_leading, strip_leading_char, strip_trailing, strip_trailing_char};
use crate::git_model::{GitError, GitErrorCode};
use crate::git_status::{decode, decoded};
use crate::text::{
    byte_len, byte_len_at_most, chars_of, concat, contains_char, contains_seq, ends_with,
    has_control, is_ascii_alphanumeric_spec, seq_contains, slice_to_vec, starts_with,
    starts_with_str, string_from_chars, trim, trimmed,
};

verus! {

/// The directory, inside the workspace, that holds managed worktrees.
pub open spec fn managed_root_name() -> Seq<char> {
    ".syntaxis-worktrees"@
}

/// `root` joined with the managed worktrees directory, with one `/` between
/// them (`Path::join` with a relative name).
pub open spec fn managed_root(root: Seq<char>) -> Seq<char> {
    if root.len() == 0 {
        managed_root_name()
    } else if root.last() == '/' {
        root + managed_root_name()
    } else {
        root + "/"@ + managed_root_name()
    }
}

/// Where the managed worktrees of the workspace at `workspace_root` live.
pub fn managed_worktrees_root(workspace_root: &str) -> (r: String)
    ensures
        r@ == managed_root(workspace_root@),
{
    let root = chars_of(workspace_root);
    let name = chars_of(".syntaxis-worktrees");
    if root.len() == 0 {
        return string_from_chars(&name);
    }
    let mut base = root;
    if base[base.len() - 1] != '/' {
        base.push('/');
    }
    let joined = concat(&base, &name);
    proof {
        reveal_strlit("/");
        if root@.last() != '/' {
            assert(base@ =~= root@ + "/"@);
        }
    }
    string_from_chars(&joined)
}

/// A branch name Git accepts and that cannot be taken for an option or a
/// revision expression, once trimmed.
pub open spec fn valid_branch(value: Seq<char>) -> bool {
    let t = trim(value);
    &&& t.len() > 0
    &&& byte_len(t) <= 200
    &&& !has_control_char(t)
    &&& !starts_with(t, "-"@)
    &&& !contains_seq(t, ".."@)
    &&& !contains_seq(t, "@{"@)
    &&& !ends_with(t, "."@)
    &&& !ends_with(t, "/"@)
    &&& !(t.contains(' ') || t.contains('~') || t.contains('^') || t.contains(':') || t.contains('?')
        || t.contains('*') || t.contains('[') || t.contains('\\'))
}

fn invalid_request(message: &str) -> (e: GitError)
    ensures
        e.code == GitErrorCode::Unsupported,
        e.message@ == message@,
{
    GitError::new(GitErrorCode::Unsupported, message)
}

fn has_forbidden_char(t: &Vec<char>) -> (r: bool)
    ensures
        r == (t@.contains(' ') || t@.contains('~') || t@.contains('^') || t@.contains(':') || t@.contains('?')
            || t@.contains('*') || t@.contains('[') || t@.contains('\\')),
{
    contains_char(t, ' ') || contains_char(t, '~') || contains_char(t, '^') || contains_char(t, ':')
        || contains_char(t, '?') || contains_char(t, '*') || contains_char(t, '[') || contains_char(t, '\\')
}

/// Checks a branch name for a new worktree, giving it back trimmed.
pub fn validate_branch(value: &str) -> (r: Result<String, GitError>)
    ensures
        r is Ok <==> valid_branch(value@),
        r matches Ok(b) ==> b@ == trim(value@),
        r matches Err(e) ==> e.code == GitErrorCode::Unsupported && e.message@ == "Choose a valid Git branch name."@,
{
    let all = chars_of(value);
    let t = trimmed(&all);
    let valid = t.len() > 0 && byte_len_at_most(&t, 200) && !has_control(&t) && !starts_with_str(&t, "-")
        && !seq_contains(&t, &chars_of("..")) && !seq_contains(&t, &chars_of("@{"))
        && !crate::text::seq_ends_with(&t, &chars_of(".")) && !crate::text::seq_ends_with(&t, &chars_of("/"))
        && !has_forbidden_char(&t);
    if valid {
        Ok(string_from_chars(&t))
    } else {
        Err(invalid_request("Choose a valid Git branch name."))
    }
}

/// A start point for a new worktree: not blank, at most 500 bytes, not
/// starting with `-`, no control characters, once trimmed.
pub open spec fn valid_start_point(value: Seq<char>) -> bool {
    let t = trim(value);
    t.len() > 0 && byte_len(t) <= 500 && !starts_with(t, "-"@) && !has_control_char(t)
}

/// Checks the revision a new worktree starts from, giving it back trimmed.
pub fn validate_revision(value: &str) -> (r: Result<String, GitError>)
    ensures
        r is Ok <==> valid_start_point(value@),
        r matches Ok(v) ==> v@ == trim(value@),
        r matches Err(e) ==> e.code == GitErrorCode::Unsupported && e.message@ == "Choose a valid starting revision."@,
{
    let all = chars_of(value);
    let t = trimmed(&all);
    if t.len() > 0 && byte_len_at_most(&t, 500) && !starts_with_str(&t, "-") && !has_control(&t) {
        Ok(string_from_chars(&t))
    } else {
        Err(invalid_request("Choose a valid starting revision."))
    }
}

/// Characters kept in a worktree directory name; others become `-`.
pub open spec fn directory_char(c: char) -> char {
    if is_ascii_alphanumeric_spec(c) || c == '.' || c == '_' || c == '-' {
        c
    } else {
        '-'
    }
}

/// The directory name for a branch: unsafe characters replaced by `-`,
/// without leading or trailing `-`.
pub open spec fn sanitized(value: Seq<char>) -> Seq<char> {
    strip_leading(strip_trailing(value.map_values(|c: char| directory_char(c)), '-'), '-')
}

/// The directory name used for a branch's managed worktree.
pub fn sanitize_directory(value: &str) -> (r: String)
    ensures
        r@ == sanitized(value@),
{
    let all = chars_of(value);
    let mut mapped: Vec<char> = Vec::new();
    let mut i: usize = 0;
    while i < all.len()
        invariant
            i <= all@.len(),
            mapped@ =~= all@.take(i as int).map_values(|c: char| directory_char(c)),
        decreases all@.len() - i,
    {
        let c = all[i];
        let keep = ('a' <= c && c <= 'z') || ('A' <= c && c <= 'Z') || ('0' <= c && c <= '9') || c == '.'
            || c == '_' || c == '-';
        mapped.push(if keep { c } else { '-' });
        proof {
            assert(all@.take(i + 1) =~= all@.take(i as int).push(c));
        }
        i = i + 1;
    }
    proof {
        assert(all@.take(all@.len() as int) =~= all@);
    }
    let end = strip_trailing_char(&mapped, '-');
    let kept = slice_to_vec(&mapped, 0, end);
    proof {
        assert(kept@ =~= mapped@.take(end as int));
    }
    let start = strip_leading_char(&kept, '-');
    let out = slice_to_vec(&kept, start, kept.len());
    proof {
        assert(out@ =~= kept@.skip(start as int));
    }
    string_from_chars(&out)
}

/// One entry of `git worktree list --porcelain -z`.
#[derive(Clone, Debug, PartialEq, Eq)]
pub struct PorcelainWorktree {
    pub root: String,
    pub head: String,
    pub branch: Option<String>,
    pub prunable: bool,
}

pub ghost struct WorktreeEntry {
    pub root: Seq<char>,
    pub head: Seq<char>,
    pub branch: Option<Seq<char>>,
    pub prunable: bool,
}

pub open spec fn entry_view(w: PorcelainWorktree) -> WorktreeEntry {
    WorktreeEntry { root: w.root@, head: w.head@, branch: opt_view(w.branch), prunable: w.prunable }
}

pub open spec fn with_current(entries: Seq<WorktreeEntry>, current: Option<WorktreeEntry>) -> Seq<WorktreeEntry> {
    match current {
        Some(e) => entries.push(e),
        None => entries,
    }
}

/// The entries read from the fields from the `i`-th on, given those already
/// complete and the one being read; nothing when a field is not UTF-8.
pub open spec fn porcelain_from(
    fields: Seq<Seq<u8>>,
    i: int,
    entries: Seq<WorktreeEntry>,
    current: Option<WorktreeEntry>,
) -> Option<Seq<WorktreeEntry>>
    decreases fields.len() - i,
{
    if i < 0 || i >= fields.len() {
        Some(with_current(entries, current))
    } else if fields[i].len() == 0 {
        porcelain_from(fields, i + 1, with_current(entries, current), None)
    } else {
        match decoded(fields[i]) {
            None => None,
            Some(t) => if starts_with(t, "worktree "@) {
                porcelain_from(
                    fields,
                    i + 1,
                    with_current(entries, current),
                    Some(
                        WorktreeEntry {
                            root: t.skip("worktree "@.len() as int),
                            head: Seq::empty(),
                            branch: None,
                            prunable: false,
                        },
                    ),
                )
            } else {
                match current {
                    None => porcelain_from(fields, i + 1, entries, None),
                    Some(e) => {
                        let next = if starts_with(t, "HEAD "@) {
                            WorktreeEntry { head: t.skip("HEAD "@.len() as int), ..e }
                        } else if starts_with(t, "branch refs/heads/"@) {
                            WorktreeEntry { branch: Some(t.skip("branch refs/heads/"@.len() as int)), ..e }
                        } else if starts_with(t, "prunable"@) {
                            WorktreeEntry { prunable: true, ..e }
                        } else {
                            e
                        };
                        porcelain_from(fields, i + 1, entries, Some(next))
                    },
                }
            },
        }
    }
}

/// The worktrees Git lists, when every one of them names its `HEAD`.
pub open spec fn parsed_worktrees(output: Seq<u8>) -> Option<Seq<WorktreeEntry>> {
    match porcelain_from(split_bytes(output, 0), 0, Seq::empty(), None) {
        Some(entries) => if exists|k: int| 0 <= k < entries.len() && (#[trigger] entries[k]).head.len() == 0 {
            None
        } else {
            Some(entries)
        },
        None => None,
    }
}

pub open spec fn layout_message() -> Seq<char> {
    "The Git worktree layout could not be resolved."@
}

fn invalid_repository() -> (e: GitError)
    ensures
        e.code == GitErrorCode::InvalidWorkspace,
        e.message@ == layout_message(),
{
    GitError::new(GitErrorCode::InvalidWorkspace, "The Git worktree layout could not be resolved.")
}

fn rest_after(t: &Vec<char>, prefix: &str) -> (r: String)
    requires
        starts_with(t@, prefix@),
    ensures
        r@ == t@.skip(prefix@.len() as int),
{
    let n = chars_of(prefix).len();
    let v = slice_to_vec(t, n, t.len());
    proof {
        assert(v@ =~= t@.skip(n as int));
    }
    string_from_chars(&v)
}

fn push_current(entries: &mut Vec<PorcelainWorktree>, current: Option<PorcelainWorktree>)
    ensures
        final(entries)@.map_values(|w: PorcelainWorktree| entry_view(w)) == with_current(
            old(entries)@.map_values(|w: PorcelainWorktree| entry_view(w)),
            match current {
                Some(w) => Some(entry_view(w)),
                None => None,
            },
        ),
{
    if let Some(w) = current {
        let ghost before = entries@.map_values(|w: PorcelainWorktree| entry_view(w));
        let ghost v = entry_view(w);
        entries.push(w);
        proof {
            assert(entries@.map_values(|w: PorcelainWorktree| entry_view(w)) =~= before.push(v));
        }
    }
}

pub open spec fn current_view(current: Option<PorcelainWorktree>) -> Option<WorktreeEntry> {
    match current {
        Some(w) => Some(entry_view(w)),
        None => None,
    }
}

/// Reads `git worktree list --porcelain -z` output.
pub fn parse_worktree_porcelain(output: &[u8]) -> (r: Result<Vec<PorcelainWorktree>, GitError>)
    ensures
        r is Ok <==> parsed_worktrees(output@) is Some,
        r matches Ok(v) ==> parsed_worktrees(output@) == Some(v@.map_values(|w: PorcelainWorktree| entry_view(w))),
        r matches Err(e) ==> e.code == GitErrorCode::InvalidWorkspace && e.message@ == layout_message(),
{
    let fields = split_on_byte(output, 0);
    let ghost fs = views(fields@);
    let mut entries: Vec<PorcelainWorktree> = Vec::new();
    let mut current: Option<PorcelainWorktree> = None;
    let mut i: usize = 0;
    proof {
        assert(entries@.map_values(|w: PorcelainWorktree| entry_view(w)) =~= Seq::empty());
    }
    while i < fields.len()
        invariant
            fs == views(fields@),
            fs == split_bytes(output@, 0),
            i <= fields@.len(),
            porcelain_from(fs, 0, Seq::empty(), None) == porcelain_from(
                fs,
                i as int,
                entries@.map_values(|w: PorcelainWorktree| entry_view(w)),
                current_view(current),
            ),
        decreases fields@.len() - i,
    {
        proof {
            assert(fs[i as int] == fields@[i as int]@);
        }
        if fields[i].len() == 0 {
            let taken = current;
            current = None;
            push_current(&mut entries, taken);
        } else {
            let text = match decode(&fields[i]) {
                Some(text) => text,
                None => return Err(invalid_repository()),
            };
            let t = chars_of(text.as_str());
            if starts_with_str(&t, "worktree ") {
                let taken = current;
                push_current(&mut entries, taken);
                current = Some(
                    PorcelainWorktree { root: rest_after(&t, "worktree "), head: String::new(), branch: None, prunable: false },
                );
            } else {
                current = match current {
                    None => None,
                    Some(e) => Some(
                        if starts_with_str(&t, "HEAD ") {
                            PorcelainWorktree { head: rest_after(&t, "HEAD "), ..e }
                        } else if starts_with_str(&t, "branch refs/heads/") {
                            PorcelainWorktree { branch: Some(rest_after(&t, "branch refs/heads/")), ..e }
                        } else if starts_with_str(&t, "prunable") {
                            PorcelainWorktree { prunable: true, ..e }
                        } else {
                            e
                        },
                    ),
                };
            }
        }
        i = i + 1;
    }
    let taken = current;
    push_current(&mut entries, taken);
    let mut k: usize = 0;
    while k < entries.len()
        invariant
            k <= entries@.len(),
            fs == split_bytes(output@, 0),
            porcelain_from(fs, 0, Seq::empty(), None) == Some(
                entries@.map_values(|w: PorcelainWorktree| entry_view(w)),
            ),
            forall|q: int| 0 <= q < k ==> (#[trigger] entries@[q]).head@.len() > 0,
        decreases entries@.len() - k,
    {
        if entries[k].head.as_str().is_empty() {
            proof {
                let es = entries@.map_values(|w: PorcelainWorktree| entry_view(w));
                assert(es[k as int].head.len() == 0);
            }
            return Err(invalid_repository());
        }
        k = k + 1;
    }
    proof {
        let es = entries@.map_values(|w: PorcelainWorktree| entry_view(w));
        assert forall|q: int| 0 <= q < es.len() implies (#[trigger] es[q]).head.len() > 0 by {
            assert(es[q] == entry_view(entries@[q]));
        }
    }
    Ok(entries)
}

/// How a worktree is named in lists: its branch, or the short commit it is
/// detached at.
pub open spec fn worktree_label_text(branch: Option<Seq<char>>, head: Seq<char>) -> Seq<char> {
    match branch {
        Some(b) => b,
        None => "Detached at "@ + head.take(if head.len() < 7 { head.len() as int } else { 7 }),
    }
}

/// The label of a worktree with `branch` checked out at `head`.
pub fn worktree_label(branch: &Option<String>, head: &str) -> (r: String)
    ensures
        r@ == worktree_label_text(opt_view(*branch), head@),
{
    match branch {
        Some(b) => b.clone(),
        None => {
            let h = chars_of(head);
            let n = if h.len() < 7 {
                h.len()
            } else {
                7
            };
            let short = slice_to_vec(&h, 0, n);
            let text = concat(&chars_of("Detached at "), &short);
            proof {
                assert(short@ =~= head@.take(n as int));
            }
            string_from_chars(&text)
        },
    }
}

} // verus!
