//! The machine-readable listings of branches, tags, history and diff
//! statistics that Git prints for the repository views.
use vstd::prelude::*;
use vstd::utf8::encode_utf8;
use crate::app_shell::opt_view;
use crate::bytes::{
    bytes_start_with, count_from, is_word, lemma_split_count, split_bytes, split_on_byte,
    splitn_bytes, splitn_on_byte, splitn_on_char, starts_with_word, views, CARRIAGE_RETURN,
    FORM_FEED, NEWLINE, NUL, SPACE, TAB, UNIT_SEPARATOR,
};
use crate::git_model::{BranchInfo, CommitInfo, GitError, GitErrorCode, TagInfo};
use crate::git_status::{change_view, changes_view, decode, decoded, ChangeView, FileChange, RepositoryStatus};
use crate::text::{
    chars_of, contains_char, lines, parse_i64, parse_i64_chars, parse_unsigned,
    parse_unsigned_bounded, split_ascii_whitespace, string_from_chars, text_lines, ws_tokens,
};

verus! {

pub open spec fn data_format_message() -> Seq<char> {
    "Git returned data in an unexpected format."@
}

fn parse_error() -> (e: GitError)
    ensures
        e.code == GitErrorCode::Parse,
        e.message@ == data_format_message(),
{
    GitError::new(GitErrorCode::Parse, "Git returned data in an unexpected format.")
}

pub open spec fn branch_info_view(b: BranchInfo) -> (Seq<char>, bool, Option<Seq<char>>, bool) {
    (b.name@, b.current, opt_view(b.upstream), b.remote)
}

/// One `for-each-ref` branch record: name, `*` when checked out, upstream
/// and full ref name, separated by NULs.
pub open spec fn branch_record(record: Seq<u8>) -> Option<(Seq<char>, bool, Option<Seq<char>>, bool)> {
    let f = split_bytes(record, NUL);
    if f.len() != 4 {
        None
    } else {
        match (decoded(f[0]), decoded(f[2])) {
            (Some(name), Some(upstream)) => Some(
                (
                    name,
                    f[1] == encode_utf8("*"@),
                    if upstream.len() == 0 {
                        None
                    } else {
                        Some(upstream)
                    },
                    bytes_start_with(f[3], encode_utf8("refs/remotes/"@)),
                ),
            ),
            _ => None,
        }
    }
}

/// Remote refs are listed only when their name has a remote part
/// (`origin/main`, not the bare `origin` of `origin/HEAD`).
pub open spec fn listed_branch(b: (Seq<char>, bool, Option<Seq<char>>, bool)) -> bool {
    !b.3 || b.0.contains('/')
}

pub open spec fn branches_from(
    records: Seq<Seq<u8>>,
    i: int,
    acc: Seq<(Seq<char>, bool, Option<Seq<char>>, bool)>,
) -> Option<Seq<(Seq<char>, bool, Option<Seq<char>>, bool)>>
    decreases records.len() - i,
{
    if i < 0 || i >= records.len() {
        Some(acc)
    } else if records[i].len() == 0 {
        branches_from(records, i + 1, acc)
    } else {
        match branch_record(records[i]) {
            Some(b) => branches_from(records, i + 1, if listed_branch(b) { acc.push(b) } else { acc }),
            None => None,
        }
    }
}

/// The branches in newline-separated `for-each-ref` output.
pub open spec fn parsed_branches(output: Seq<u8>) -> Option<Seq<(Seq<char>, bool, Option<Seq<char>>, bool)>> {
    branches_from(split_bytes(output, NEWLINE), 0, Seq::empty())
}

fn parse_branch_record(record: &[u8]) -> (r: Option<BranchInfo>)
    ensures
        match r {
            Some(b) => branch_record(record@) == Some(branch_info_view(b)),
            None => branch_record(record@) is None,
        },
{
    let f = split_on_byte(record, NUL);
    if f.len() != 4 {
        return None;
    }
    proof {
        assert(views(f@)[0] == f@[0]@ && views(f@)[1] == f@[1]@ && views(f@)[2] == f@[2]@
            && views(f@)[3] == f@[3]@);
    }
    match (decode(&f[0]), decode(&f[2])) {
        (Some(name), Some(upstream)) => {
            let upstream = if upstream.as_str().is_empty() {
                None
            } else {
                Some(upstream)
            };
            Some(
                BranchInfo {
                    name,
                    current: is_word(&f[1], "*"),
                    upstream,
                    remote: starts_with_word(&f[3], "refs/remotes/"),
                },
            )
        },
        _ => None,
    }
}

/// Reads newline-separated `for-each-ref` branch records.
pub fn parse_branches(output: &[u8]) -> (r: Result<Vec<BranchInfo>, GitError>)
    ensures
        r is Ok <==> parsed_branches(output@) is Some,
        r matches Ok(v) ==> parsed_branches(output@) == Some(v@.map_values(|b: BranchInfo| branch_info_view(b))),
        r matches Err(e) ==> e.code == GitErrorCode::Parse && e.message@ == data_format_message(),
{
    let records = split_on_byte(output, NEWLINE);
    let ghost rs = views(records@);
    let mut out: Vec<BranchInfo> = Vec::new();
    let mut i: usize = 0;
    proof {
        assert(out@.map_values(|b: BranchInfo| branch_info_view(b)) =~= Seq::empty());
    }
    while i < records.len()
        invariant
            rs == views(records@),
            rs == split_bytes(output@, NEWLINE),
            i <= records@.len(),
            parsed_branches(output@) == branches_from(
                rs,
                i as int,
                out@.map_values(|b: BranchInfo| branch_info_view(b)),
            ),
        decreases records@.len() - i,
    {
        proof {
            assert(rs[i as int] == records@[i as int]@);
        }
        if records[i].len() > 0 {
            match parse_branch_record(&records[i]) {
                Some(b) => {
                    let name = chars_of(b.name.as_str());
                    if !b.remote || contains_char(&name, '/') {
                        let ghost before = out@.map_values(|b: BranchInfo| branch_info_view(b));
                        let ghost v = branch_info_view(b);
                        out.push(b);
                        proof {
                            assert(out@.map_values(|b: BranchInfo| branch_info_view(b)) =~= before.push(v));
                        }
                    }
                },
                None => return Err(parse_error()),
            }
        }
        i = i + 1;
    }
    Ok(out)
}

pub open spec fn tag_info_view(t: TagInfo) -> (Seq<char>, Seq<char>, bool) {
    (t.name@, t.target_oid@, t.annotated)
}

/// One tag record: name, object type, object and, for annotated tags, the
/// tagged commit, separated by NULs.
pub open spec fn tag_record(record: Seq<u8>) -> Option<(Seq<char>, Seq<char>, bool)> {
    let f = split_bytes(record, NUL);
    if f.len() != 4 {
        None
    } else {
        let annotated = f[1] == encode_utf8("tag"@);
        let target = if annotated {
            f[3]
        } else {
            f[2]
        };
        if target.len() == 0 {
            None
        } else {
            match (decoded(f[0]), decoded(target)) {
                (Some(name), Some(oid)) => Some((name, oid, annotated)),
                _ => None,
            }
        }
    }
}

pub open spec fn tags_from(records: Seq<Seq<u8>>, i: int, acc: Seq<(Seq<char>, Seq<char>, bool)>) -> Option<
    Seq<(Seq<char>, Seq<char>, bool)>,
>
    decreases records.len() - i,
{
    if i < 0 || i >= records.len() {
        Some(acc)
    } else if records[i].len() == 0 {
        tags_from(records, i + 1, acc)
    } else {
        match tag_record(records[i]) {
            Some(t) => tags_from(records, i + 1, acc.push(t)),
            None => None,
        }
    }
}

/// The tags in newline-separated `for-each-ref` output.
pub open spec fn parsed_tags(output: Seq<u8>) -> Option<Seq<(Seq<char>, Seq<char>, bool)>> {
    tags_from(split_bytes(output, NEWLINE), 0, Seq::empty())
}

fn parse_tag_record(record: &[u8]) -> (r: Option<TagInfo>)
    ensures
        match r {
            Some(t) => tag_record(record@) == Some(tag_info_view(t)),
            None => tag_record(record@) is None,
        },
{
    let f = split_on_byte(record, NUL);
    if f.len() != 4 {
        return None;
    }
    proof {
        assert(views(f@)[0] == f@[0]@ && views(f@)[1] == f@[1]@ && views(f@)[2] == f@[2]@
            && views(f@)[3] == f@[3]@);
    }
    let annotated = is_word(&f[1], "tag");
    let target = if annotated {
        &f[3]
    } else {
        &f[2]
    };
    if target.len() == 0 {
        return None;
    }
    match (decode(&f[0]), decode(target)) {
        (Some(name), Some(target_oid)) => Some(TagInfo { name, target_oid, annotated }),
        _ => None,
    }
}

/// Reads newline-separated tag records.
pub fn parse_tags(output: &[u8]) -> (r: Result<Vec<TagInfo>, GitError>)
    ensures
        r is Ok <==> parsed_tags(output@) is Some,
        r matches Ok(v) ==> parsed_tags(output@) == Some(v@.map_values(|t: TagInfo| tag_info_view(t))),
        r matches Err(e) ==> e.code == GitErrorCode::Parse && e.message@ == data_format_message(),
{
    let records = split_on_byte(output, NEWLINE);
    let ghost rs = views(records@);
    let mut out: Vec<TagInfo> = Vec::new();
    let mut i: usize = 0;
    proof {
        assert(out@.map_values(|t: TagInfo| tag_info_view(t)) =~= Seq::empty());
    }
    while i < records.len()
        invariant
            rs == views(records@),
            rs == split_bytes(output@, NEWLINE),
            i <= records@.len(),
            parsed_tags(output@) == tags_from(rs, i as int, out@.map_values(|t: TagInfo| tag_info_view(t))),
        decreases records@.len() - i,
    {
        proof {
            assert(rs[i as int] == records@[i as int]@);
        }
        if records[i].len() > 0 {
            match parse_tag_record(&records[i]) {
                Some(t) => {
                    let ghost before = out@.map_values(|t: TagInfo| tag_info_view(t));
                    let ghost v = tag_info_view(t);
                    out.push(t);
                    proof {
                        assert(out@.map_values(|t: TagInfo| tag_info_view(t)) =~= before.push(v));
                    }
                },
                None => return Err(parse_error()),
            }
        }
        i = i + 1;
    }
    Ok(out)
}


/// A diff count: `-` (a binary file) counts as zero.
pub open spec fn count_field(f: Seq<u8>) -> Option<u64> {
    if f == encode_utf8("-"@) {
        Some(0)
    } else {
        match decoded(f) {
            Some(t) => match parse_unsigned(t, u64::MAX as nat) {
                Some(n) => Some(n as u64),
                None => None,
            },
            None => None,
        }
    }
}

/// The per-path counts from the records from the `i`-th on. A record with
/// an empty path is a rename: the old and new paths follow as the next two
/// records, and the new path is the one counted.
pub open spec fn path_stats_from(
    records: Seq<Seq<u8>>,
    i: int,
    acc: Seq<(Seq<char>, u64, u64)>,
) -> Option<Seq<(Seq<char>, u64, u64)>>
    decreases records.len() - i,
{
    if i < 0 || i >= records.len() {
        Some(acc)
    } else if records[i].len() == 0 {
        path_stats_from(records, i + 1, acc)
    } else {
        let f = splitn_bytes(records[i], TAB, 3);
        if f.len() < 3 || (f[2].len() == 0 && i + 2 >= records.len()) {
            None
        } else {
            let path = if f[2].len() == 0 {
                records[i + 2]
            } else {
                f[2]
            };
            let next = if f[2].len() == 0 {
                i + 3
            } else {
                i + 1
            };
            match (count_field(f[0]), count_field(f[1]), decoded(path)) {
                (Some(a), Some(d), Some(p)) => path_stats_from(records, next, acc.push((p, a, d))),
                _ => None,
            }
        }
    }
}

/// The per-path counts of NUL-separated `diff --numstat -z` output.
pub open spec fn parsed_path_stats(output: Seq<u8>) -> Option<Seq<(Seq<char>, u64, u64)>> {
    path_stats_from(split_bytes(output, NUL), 0, Seq::empty())
}

pub open spec fn stat_view(s: (String, u64, u64)) -> (Seq<char>, u64, u64) {
    (s.0@, s.1, s.2)
}

fn count_of(f: &[u8]) -> (r: Option<u64>)
    ensures
        r == count_field(f@),
{
    if is_word(f, "-") {
        return Some(0);
    }
    match decode(f) {
        Some(t) => {
            let c = chars_of(t.as_str());
            parse_unsigned_bounded(&c, u64::MAX)
        },
        None => None,
    }
}

/// Reads NUL-separated `diff --numstat -z` output into per-path counts.
pub fn parse_path_numstat(output: &[u8]) -> (r: Result<Vec<(String, u64, u64)>, GitError>)
    ensures
        r is Ok <==> parsed_path_stats(output@) is Some,
        r matches Ok(v) ==> parsed_path_stats(output@) == Some(v@.map_values(|s: (String, u64, u64)| stat_view(s))),
        r matches Err(e) ==> e.code == GitErrorCode::Parse && e.message@ == data_format_message(),
{
    let records = split_on_byte(output, NUL);
    let ghost rs = views(records@);
    let mut out: Vec<(String, u64, u64)> = Vec::new();
    let mut i: usize = 0;
    proof {
        assert(out@.map_values(|s: (String, u64, u64)| stat_view(s)) =~= Seq::empty());
    }
    while i < records.len()
        invariant
            rs == views(records@),
            rs == split_bytes(output@, NUL),
            i <= records@.len(),
            parsed_path_stats(output@) == path_stats_from(
                rs,
                i as int,
                out@.map_values(|s: (String, u64, u64)| stat_view(s)),
            ),
        decreases records@.len() - i,
    {
        proof {
            assert(rs[i as int] == records@[i as int]@);
        }
        if records[i].len() == 0 {
            i = i + 1;
        } else {
            let f = splitn_on_byte(&records[i], TAB, 3);
            proof {
                if f@.len() >= 3 {
                    assert(views(f@)[0] == f@[0]@ && views(f@)[1] == f@[1]@ && views(f@)[2] == f@[2]@);
                }
            }
            if f.len() < 3 || (f[2].len() == 0 && records.len() - i <= 2) {
                return Err(parse_error());
            }
            let renamed = f[2].len() == 0;
            let path = if renamed {
                proof {
                    assert(rs[i + 2] == records@[i + 2]@);
                }
                &records[i + 2]
            } else {
                &f[2]
            };
            match (count_of(&f[0]), count_of(&f[1]), decode(path)) {
                (Some(a), Some(d), Some(p)) => {
                    let ghost before = out@.map_values(|s: (String, u64, u64)| stat_view(s));
                    let ghost v = (p@, a, d);
                    out.push((p, a, d));
                    proof {
                        assert(out@.map_values(|s: (String, u64, u64)| stat_view(s)) =~= before.push(v));
                    }
                },
                _ => return Err(parse_error()),
            }
            i = if renamed {
                i + 3
            } else {
                i + 1
            };
        }
    }
    Ok(out)
}

pub open spec fn saturating_add(x: u64, y: u64) -> u64 {
    if x + y > u64::MAX {
        u64::MAX
    } else {
        (x + y) as u64
    }
}

/// The first change at or after `k` whose path, or whose original path,
/// is `path`; the length when there is none.
pub open spec fn stat_target(changes: Seq<ChangeView>, path: Seq<char>, k: int) -> int
    decreases changes.len() - k,
{
    if k < 0 || k >= changes.len() {
        changes.len() as int
    } else if changes[k].path == path || changes[k].original_path == Some(path) {
        k
    } else {
        stat_target(changes, path, k + 1)
    }
}

pub proof fn lemma_stat_target(changes: Seq<ChangeView>, path: Seq<char>, k: int)
    requires
        0 <= k <= changes.len(),
    ensures
        k <= stat_target(changes, path, k) <= changes.len(),
    decreases changes.len() - k,
{
    if k < changes.len() && !(changes[k].path == path || changes[k].original_path == Some(path)) {
        lemma_stat_target(changes, path, k + 1);
    }
}

/// A change with one path's counts added, to the staged or unstaged side.
pub open spec fn with_stat(c: ChangeView, additions: u64, deletions: u64, staged: bool) -> ChangeView {
    if staged {
        ChangeView {
            staged_additions: saturating_add(c.staged_additions, additions),
            staged_deletions: saturating_add(c.staged_deletions, deletions),
            ..c
        }
    } else {
        ChangeView {
            unstaged_additions: saturating_add(c.unstaged_additions, additions),
            unstaged_deletions: saturating_add(c.unstaged_deletions, deletions),
            ..c
        }
    }
}

/// The changes after adding each path's counts, in order, to the first
/// change for that path; counts for paths without a change are dropped.
pub open spec fn with_stats(changes: Seq<ChangeView>, stats: Seq<(Seq<char>, u64, u64)>, staged: bool) -> Seq<
    ChangeView,
>
    decreases stats.len(),
{
    if stats.len() == 0 {
        changes
    } else {
        let before = with_stats(changes, stats.drop_last(), staged);
        let s = stats.last();
        let k = stat_target(before, s.0, 0);
        if 0 <= k < before.len() {
            before.update(k, with_stat(before[k], s.1, s.2, staged))
        } else {
            before
        }
    }
}

fn copy_text(s: &Option<String>) -> (r: Option<String>)
    ensures
        opt_view(r) == opt_view(*s),
{
    match s {
        Some(t) => Some(t.clone()),
        None => None,
    }
}

fn saturating(x: u64, y: u64) -> (r: u64)
    ensures
        r == saturating_add(x, y),
{
    if x > u64::MAX - y {
        u64::MAX
    } else {
        x + y
    }
}

/// Whether `change` is for `path`, under its path or its original path.
fn names_path(change: &FileChange, path: &String) -> (r: bool)
    ensures
        r == (change_view(*change).path == path@ || change_view(*change).original_path == Some(path@)),
{
    change.path == *path || match &change.original_path {
        Some(original) => *original == *path,
        None => false,
    }
}

/// Adds per-path diff counts to the matching changes of `status`.
pub fn apply_path_stats(status: &mut RepositoryStatus, path_stats: &[(String, u64, u64)], staged: bool)
    ensures
        changes_view(final(status).changes@) == with_stats(
            changes_view(old(status).changes@),
            path_stats@.map_values(|s: (String, u64, u64)| stat_view(s)),
            staged,
        ),
        final(status).branch == old(status).branch,
{
    let ghost stats = path_stats@.map_values(|s: (String, u64, u64)| stat_view(s));
    let mut n: usize = 0;
    proof {
        assert(stats.take(0) =~= Seq::<(Seq<char>, u64, u64)>::empty());
    }
    while n < path_stats.len()
        invariant
            n <= path_stats@.len(),
            stats == path_stats@.map_values(|s: (String, u64, u64)| stat_view(s)),
            status.branch == old(status).branch,
            changes_view(status.changes@) == with_stats(
                changes_view(old(status).changes@),
                stats.take(n as int),
                staged,
            ),
        decreases path_stats@.len() - n,
    {
        let (path, additions, deletions) = (&path_stats[n].0, path_stats[n].1, path_stats[n].2);
        let ghost cs = changes_view(status.changes@);
        proof {
            assert(stats.take(n + 1).drop_last() =~= stats.take(n as int));
            assert(stats.take(n + 1).last() == stats[n as int]);
            lemma_stat_target(cs, path@, 0);
        }
        let mut k: usize = 0;
        while k < status.changes.len() && !names_path(&status.changes[k], path)
            invariant
                k <= status.changes@.len(),
                cs == changes_view(status.changes@),
                stat_target(cs, path@, 0) == stat_target(cs, path@, k as int),
            decreases status.changes@.len() - k,
        {
            proof {
                assert(cs[k as int] == change_view(status.changes@[k as int]));
            }
            k = k + 1;
        }
        proof {
            if k < status.changes@.len() {
                assert(cs[k as int] == change_view(status.changes@[k as int]));
            }
        }
        if k < status.changes.len() {
            let c = &status.changes[k];
            let updated = if staged {
                FileChange {
                    path: c.path.clone(),
                    original_path: copy_text(&c.original_path),
                    index: c.index,
                    worktree: c.worktree,
                    conflicted: c.conflicted,
                    staged_additions: saturating(c.staged_additions, additions),
                    staged_deletions: saturating(c.staged_deletions, deletions),
                    unstaged_additions: c.unstaged_additions,
                    unstaged_deletions: c.unstaged_deletions,
                }
            } else {
                FileChange {
                    path: c.path.clone(),
                    original_path: copy_text(&c.original_path),
                    index: c.index,
                    worktree: c.worktree,
                    conflicted: c.conflicted,
                    staged_additions: c.staged_additions,
                    staged_deletions: c.staged_deletions,
                    unstaged_additions: saturating(c.unstaged_additions, additions),
                    unstaged_deletions: saturating(c.unstaged_deletions, deletions),
                }
            };
            let ghost target = with_stat(cs[k as int], additions, deletions, staged);
            assert(change_view(updated) == target);
            status.changes.set(k, updated);
            proof {
                assert(changes_view(status.changes@) =~= cs.update(k as int, target));
            }
        }
        n = n + 1;
    }
    proof {
        assert(stats.take(path_stats@.len() as int) =~= stats);
    }
}

/// The number of lines of an untracked text file, counting a last line
/// without a line feed; nothing for a file holding a NUL byte (binary).
pub open spec fn untracked_lines(contents: Seq<u8>) -> Option<u64> {
    if contents.contains(NUL) {
        None
    } else {
        Some(
            (split_bytes(contents, NEWLINE).len() - if contents.len() > 0 && contents.last() == NEWLINE {
                1int
            } else {
                0int
            }) as u64,
        )
    }
}

/// Counts the lines of an untracked file's contents; nothing for binary contents.
pub fn untracked_line_count(contents: &[u8]) -> (r: Option<u64>)
    requires
        contents@.len() < u64::MAX,
    ensures
        r == untracked_lines(contents@),
{
    let mut newlines: u64 = 0;
    let mut i: usize = 0;
    while i < contents.len()
        invariant
            i <= contents@.len(),
            contents@.len() < u64::MAX,
            newlines <= i,
            forall|k: int| 0 <= k < i ==> contents@[k] != NUL,
            newlines + count_from(contents@, NEWLINE, i as int) == count_from(contents@, NEWLINE, 0),
        decreases contents@.len() - i,
    {
        if contents[i] == NUL {
            proof {
                assert(contents@[i as int] == NUL);
            }
            return None;
        }
        if contents[i] == NEWLINE {
            newlines = newlines + 1;
        }
        i = i + 1;
    }
    proof {
        lemma_split_count(contents@, NEWLINE, 0);
        assert(!contents@.contains(NUL));
    }
    let trailing: u64 = if contents.len() > 0 && contents[contents.len() - 1] == NEWLINE {
        1
    } else {
        0
    };
    Some(newlines + 1 - trailing)
}

pub open spec fn is_ascii_ws_byte(b: u8) -> bool {
    b == SPACE || b == TAB || b == NEWLINE || b == FORM_FEED || b == CARRIAGE_RETURN
}

/// `value` without trailing ASCII white space.
pub open spec fn trimmed_end(value: Seq<u8>) -> Seq<u8>
    decreases value.len(),
{
    if value.len() > 0 && is_ascii_ws_byte(value.last()) {
        trimmed_end(value.drop_last())
    } else {
        value
    }
}

/// The length of `value` without trailing ASCII white space.
pub fn trim_ascii_end(value: &[u8]) -> (r: usize)
    ensures
        r <= value@.len(),
        value@.take(r as int) == trimmed_end(value@),
{
    let mut end = value.len();
    proof {
        assert(value@.take(end as int) =~= value@);
    }
    while end > 0 && (value[end - 1] == SPACE || value[end - 1] == TAB || value[end - 1] == NEWLINE
        || value[end - 1] == FORM_FEED || value[end - 1] == CARRIAGE_RETURN)
        invariant
            end <= value@.len(),
            trimmed_end(value@) == trimmed_end(value@.take(end as int)),
        decreases end,
    {
        proof {
            assert(value@.take(end as int).drop_last() =~= value@.take(end - 1));
        }
        end = end - 1;
    }
    end
}

pub ghost struct CommitView {
    pub oid: Seq<char>,
    pub short_oid: Seq<char>,
    pub parents: Seq<Seq<char>>,
    pub author_name: Seq<char>,
    pub author_email: Seq<char>,
    pub authored_unix_seconds: int,
    pub subject: Seq<char>,
}

pub open spec fn commit_view(c: CommitInfo) -> CommitView {
    CommitView {
        oid: c.oid@,
        short_oid: c.short_oid@,
        parents: c.parents@.map_values(|p: String| p@),
        author_name: c.author_name@,
        author_email: c.author_email@,
        authored_unix_seconds: c.authored_unix_seconds as int,
        subject: c.subject@,
    }
}

/// One `log` record: object id, short id, parents, author name and e-mail,
/// author time and subject, separated by unit separators.
pub open spec fn commit_record(record: Seq<u8>) -> Option<CommitView> {
    let f = split_bytes(record, UNIT_SEPARATOR);
    if f.len() != 7 {
        None
    } else {
        match (decoded(f[0]), decoded(f[1]), decoded(f[2]), decoded(f[3]), decoded(f[4]), decoded(f[5]), decoded(f[6])) {
            (Some(oid), Some(short_oid), Some(parents), Some(name), Some(email), Some(time), Some(subject)) => match parse_i64(time) {
                Some(seconds) => Some(
                    CommitView {
                        oid,
                        short_oid,
                        parents: ws_tokens(parents),
                        author_name: name,
                        author_email: email,
                        authored_unix_seconds: seconds,
                        subject,
                    },
                ),
                None => None,
            },
            _ => None,
        }
    }
}

fn texts(words: Vec<Vec<char>>) -> (r: Vec<String>)
    ensures
        r@.map_values(|p: String| p@) == words@.map_values(|x: Vec<char>| x@),
{
    let mut r: Vec<String> = Vec::new();
    let mut k: usize = 0;
    while k < words.len()
        invariant
            k <= words@.len(),
            r@.map_values(|p: String| p@) =~= words@.map_values(|x: Vec<char>| x@).take(k as int),
        decreases words@.len() - k,
    {
        let ghost before = r@.map_values(|p: String| p@);
        r.push(string_from_chars(&words[k]));
        proof {
            assert(r@.map_values(|p: String| p@) =~= before.push(words@[k as int]@));
        }
        k = k + 1;
    }
    proof {
        assert(words@.map_values(|x: Vec<char>| x@).take(k as int) =~= words@.map_values(|x: Vec<char>| x@));
    }
    r
}

/// Reads one commit record.
pub fn parse_commit_record(record: &[u8]) -> (r: Result<CommitInfo, GitError>)
    ensures
        r is Ok <==> commit_record(record@) is Some,
        r matches Ok(c) ==> commit_record(record@) == Some(commit_view(c)),
        r matches Err(e) ==> e.code == GitErrorCode::Parse && e.message@ == data_format_message(),
{
    let f = split_on_byte(record, UNIT_SEPARATOR);
    if f.len() != 7 {
        return Err(parse_error());
    }
    proof {
        assert(views(f@)[0] == f@[0]@ && views(f@)[1] == f@[1]@ && views(f@)[2] == f@[2]@
            && views(f@)[3] == f@[3]@ && views(f@)[4] == f@[4]@ && views(f@)[5] == f@[5]@
            && views(f@)[6] == f@[6]@);
    }
    match (decode(&f[0]), decode(&f[1]), decode(&f[2]), decode(&f[3]), decode(&f[4]), decode(&f[5]), decode(&f[6])) {
        (Some(oid), Some(short_oid), Some(parents), Some(author_name), Some(author_email), Some(time), Some(subject)) => {
            let time_chars = chars_of(time.as_str());
            match parse_i64_chars(&time_chars) {
                Some(authored_unix_seconds) => {
                    let parent_chars = chars_of(parents.as_str());
                    let parents = texts(split_ascii_whitespace(&parent_chars));
                    Ok(
                        CommitInfo {
                            oid,
                            short_oid,
                            parents,
                            author_name,
                            author_email,
                            authored_unix_seconds,
                            subject,
                        },
                    )
                },
                None => Err(parse_error()),
            }
        },
        _ => Err(parse_error()),
    }
}

pub open spec fn history_from(records: Seq<Seq<u8>>, i: int, acc: Seq<CommitView>) -> Option<Seq<CommitView>>
    decreases records.len() - i,
{
    if i < 0 || i >= records.len() {
        Some(acc)
    } else if trimmed_end(records[i]).len() == 0 {
        history_from(records, i + 1, acc)
    } else {
        match commit_record(trimmed_end(records[i])) {
            Some(c) => history_from(records, i + 1, acc.push(c)),
            None => None,
        }
    }
}

/// The commits of NUL-separated `log` output, each record trimmed of
/// trailing white space and blank ones skipped.
pub open spec fn parsed_history(output: Seq<u8>) -> Option<Seq<CommitView>> {
    history_from(split_bytes(output, NUL), 0, Seq::empty())
}

/// Reads NUL-separated commit records.
pub fn parse_history(output: &[u8]) -> (r: Result<Vec<CommitInfo>, GitError>)
    ensures
        r is Ok <==> parsed_history(output@) is Some,
        r matches Ok(v) ==> parsed_history(output@) == Some(v@.map_values(|c: CommitInfo| commit_view(c))),
        r matches Err(e) ==> e.code == GitErrorCode::Parse && e.message@ == data_format_message(),
{
    let records = split_on_byte(output, NUL);
    let ghost rs = views(records@);
    let mut out: Vec<CommitInfo> = Vec::new();
    let mut i: usize = 0;
    proof {
        assert(out@.map_values(|c: CommitInfo| commit_view(c)) =~= Seq::empty());
    }
    while i < records.len()
        invariant
            rs == views(records@),
            rs == split_bytes(output@, NUL),
            i <= records@.len(),
            parsed_history(output@) == history_from(rs, i as int, out@.map_values(|c: CommitInfo| commit_view(c))),
        decreases records@.len() - i,
    {
        proof {
            assert(rs[i as int] == records@[i as int]@);
        }
        let end = trim_ascii_end(&records[i]);
        if end > 0 {
            let record = crate::bytes::byte_range(&records[i], 0, end);
            proof {
                assert(record@ =~= records@[i as int]@.take(end as int));
            }
            match parse_commit_record(&record) {
                Ok(c) => {
                    let ghost before = out@.map_values(|c: CommitInfo| commit_view(c));
                    let ghost v = commit_view(c);
                    out.push(c);
                    proof {
                        assert(out@.map_values(|c: CommitInfo| commit_view(c)) =~= before.push(v));
                    }
                },
                Err(e) => return Err(e),
            }
        }
        i = i + 1;
    }
    Ok(out)
}

pub open spec fn saturating_add_u32(x: u32, y: u32) -> u32 {
    if x + y > u32::MAX {
        u32::MAX
    } else {
        (x + y) as u32
    }
}

/// Adds a count column to a total, `-` (a binary file) adding nothing.
pub open spec fn add_count(total: u64, field: Seq<char>) -> Option<u64> {
    if field == "-"@ {
        Some(total)
    } else {
        match parse_unsigned(field, u64::MAX as nat) {
            Some(n) => Some(saturating_add(total, n as u64)),
            None => None,
        }
    }
}

/// The totals over the `numstat` lines from the `i`-th on.
pub open spec fn totals_from(ls: Seq<Seq<char>>, i: int, totals: (u32, u64, u64)) -> Option<(u32, u64, u64)>
    decreases ls.len() - i,
{
    if i < 0 || i >= ls.len() {
        Some(totals)
    } else if ls[i].len() == 0 {
        totals_from(ls, i + 1, totals)
    } else {
        let f = splitn_bytes(ls[i], '\t', 3);
        if f.len() < 3 {
            None
        } else {
            match (add_count(totals.1, f[0]), add_count(totals.2, f[1])) {
                (Some(a), Some(d)) => totals_from(ls, i + 1, (saturating_add_u32(totals.0, 1), a, d)),
                _ => None,
            }
        }
    }
}

/// The number of files and the added and deleted lines of `diff --numstat` output.
pub open spec fn numstat_totals(output: Seq<u8>) -> Option<(u32, u64, u64)> {
    match decoded(output) {
        Some(text) => totals_from(lines(text), 0, (0, 0, 0)),
        None => None,
    }
}

fn add_count_of(total: u64, field: &Vec<char>) -> (r: Option<u64>)
    ensures
        r == add_count(total, field@),
{
    if crate::language::is_lit(field, "-") {
        return Some(total);
    }
    match parse_unsigned_bounded(field, u64::MAX) {
        Some(n) => Some(saturating(total, n)),
        None => None,
    }
}

/// Sums `diff --numstat` output into the number of files and the added and
/// deleted lines, each total saturating.
pub fn parse_numstat(output: &[u8]) -> (r: Result<(u32, u64, u64), GitError>)
    ensures
        r is Ok <==> numstat_totals(output@) is Some,
        r matches Ok(t) ==> numstat_totals(output@) == Some(t),
        r matches Err(e) ==> e.code == GitErrorCode::Parse && e.message@ == data_format_message(),
{
    let text = match decode(output) {
        Some(text) => text,
        None => return Err(parse_error()),
    };
    let t = chars_of(text.as_str());
    let ls = text_lines(&t);
    let ghost lv = ls@.map_values(|x: Vec<char>| x@);
    let mut files: u32 = 0;
    let mut additions: u64 = 0;
    let mut deletions: u64 = 0;
    let mut i: usize = 0;
    while i < ls.len()
        invariant
            lv == ls@.map_values(|x: Vec<char>| x@),
            lv == lines(t@),
            t@ == text@,
            decoded(output@) == Some(text@),
            i <= ls@.len(),
            numstat_totals(output@) == totals_from(lv, i as int, (files, additions, deletions)),
        decreases ls@.len() - i,
    {
        proof {
            assert(lv[i as int] == ls@[i as int]@);
        }
        if ls[i].len() > 0 {
            let f = splitn_on_char(&ls[i], '\t', 3);
            if f.len() < 3 {
                return Err(parse_error());
            }
            proof {
                assert(f@.map_values(|x: Vec<char>| x@)[0] == f@[0]@);
                assert(f@.map_values(|x: Vec<char>| x@)[1] == f@[1]@);
            }
            match (add_count_of(additions, &f[0]), add_count_of(deletions, &f[1])) {
                (Some(a), Some(d)) => {
                    files = if files == u32::MAX {
                        u32::MAX
                    } else {
                        files + 1
                    };
                    additions = a;
                    deletions = d;
                },
                _ => return Err(parse_error()),
            }
        }
        i = i + 1;
    }
    Ok((files, additions, deletions))
}

/// The two counts of `rev-list --left-right --count` output.
pub open spec fn comparison_counts(output: Seq<u8>) -> Option<(u32, u32)> {
    match decoded(output) {
        Some(text) => {
            let words = ws_tokens(text);
            if words.len() < 2 {
                None
            } else {
                match (parse_unsigned(words[0], u32::MAX as nat), parse_unsigned(words[1], u32::MAX as nat)) {
                    (Some(a), Some(b)) => if words.len() > 2 {
                        None
                    } else {
                        Some((a as u32, b as u32))
                    },
                    _ => None,
                }
            }
        },
        None => None,
    }
}

/// Reads the commits only on the base side and only on the head side.
pub fn parse_comparison_counts(output: &[u8]) -> (r: Result<(u32, u32), GitError>)
    ensures
        r is Ok <==> comparison_counts(output@) is Some,
        r matches Ok(c) ==> comparison_counts(output@) == Some(c),
        r matches Err(e) ==> e.code == GitErrorCode::Parse && e.message@ == data_format_message(),
{
    let text = match decode(output) {
        Some(text) => text,
        None => return Err(parse_error()),
    };
    let t = chars_of(text.as_str());
    let words = split_ascii_whitespace(&t);
    if words.len() < 2 {
        return Err(parse_error());
    }
    proof {
        assert(words@.map_values(|x: Vec<char>| x@)[0] == words@[0]@);
        assert(words@.map_values(|x: Vec<char>| x@)[1] == words@[1]@);
    }
    match (parse_unsigned_bounded(&words[0], 0xffff_ffffu64), parse_unsigned_bounded(&words[1], 0xffff_ffffu64)) {
        (Some(a), Some(b)) => {
            if words.len() > 2 {
                Err(parse_error())
            } else {
                Ok((a as u32, b as u32))
            }
        },
        _ => Err(parse_error()),
    }
}
} // verus!
