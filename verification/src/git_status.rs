//! Repository status as `git status --porcelain=v2 --branch -z` prints it.
use vstd::prelude::*;
use vstd::utf8::{decode_utf8, encode_utf8, valid_utf8};
use crate::bytes::{
    BANG, DIGIT_ONE, DIGIT_TWO, DOT, HASH, LOWER_U, QUESTION, SPACE, UPPER_A, UPPER_C, UPPER_D, UPPER_M, UPPER_R, UPPER_T, UPPER_U,
    byte_range, bytes_start_with, is_word, split_bytes, split_on_byte, splitn_bytes,
    splitn_on_byte, starts_with_word, utf8_text, views,
};
use crate::git_model::{BranchStatus, ChangeKind, GitError, GitErrorCode};
use crate::text::{
    chars_of, parse_unsigned, parse_unsigned_bounded, slice_to_vec, split_ascii_whitespace,
    starts_with, starts_with_str, string_from_chars, ws_tokens,
};
use crate::app_shell::opt_view;
use crate::language::is_lit;

verus! {

/// One changed path.
#[derive(Clone, Debug, PartialEq, Eq)]
pub struct FileChange {
    pub path: String,
    pub original_path: Option<String>,
    pub index: Option<ChangeKind>,
    pub worktree: Option<ChangeKind>,
    pub conflicted: bool,
    pub staged_additions: u64,
    pub staged_deletions: u64,
    pub unstaged_additions: u64,
    pub unstaged_deletions: u64,
}

#[derive(Clone, Debug, Default, PartialEq, Eq)]
pub struct RepositoryStatus {
    pub branch: BranchStatus,
    pub changes: Vec<FileChange>,
}

pub ghost struct BranchView {
    pub head: Option<Seq<char>>,
    pub oid: Option<Seq<char>>,
    pub upstream: Option<Seq<char>>,
    pub ahead: u32,
    pub behind: u32,
}

pub ghost struct ChangeView {
    pub path: Seq<char>,
    pub original_path: Option<Seq<char>>,
    pub index: Option<ChangeKind>,
    pub worktree: Option<ChangeKind>,
    pub conflicted: bool,
    pub staged_additions: u64,
    pub staged_deletions: u64,
    pub unstaged_additions: u64,
    pub unstaged_deletions: u64,
}

pub open spec fn branch_view(b: BranchStatus) -> BranchView {
    BranchView {
        head: opt_view(b.head),
        oid: opt_view(b.oid),
        upstream: opt_view(b.upstream),
        ahead: b.ahead,
        behind: b.behind,
    }
}

pub open spec fn change_view(c: FileChange) -> ChangeView {
    ChangeView {
        path: c.path@,
        original_path: opt_view(c.original_path),
        index: c.index,
        worktree: c.worktree,
        conflicted: c.conflicted,
        staged_additions: c.staged_additions,
        staged_deletions: c.staged_deletions,
        unstaged_additions: c.unstaged_additions,
        unstaged_deletions: c.unstaged_deletions,
    }
}

pub open spec fn changes_view(changes: Seq<FileChange>) -> Seq<ChangeView> {
    changes.map_values(|c: FileChange| change_view(c))
}

impl FileChange {
    pub fn is_staged(&self) -> (r: bool)
        ensures
            r == self.index is Some,
    {
        self.index.is_some()
    }

    pub fn is_unstaged(&self) -> (r: bool)
        ensures
            r == self.worktree is Some,
    {
        self.worktree.is_some()
    }
}

/// How many changes satisfy `pred`.
pub open spec fn count_where(changes: Seq<ChangeView>, pred: spec_fn(ChangeView) -> bool) -> nat
    decreases changes.len(),
{
    if changes.len() == 0 {
        0
    } else {
        count_where(changes.drop_last(), pred) + if pred(changes.last()) {
            1nat
        } else {
            0nat
        }
    }
}

pub open spec fn staged_unconflicted(c: ChangeView) -> bool {
    c.index is Some && !c.conflicted
}

pub open spec fn unstaged_unconflicted(c: ChangeView) -> bool {
    c.worktree is Some && !c.conflicted
}

pub open spec fn is_conflicted(c: ChangeView) -> bool {
    c.conflicted
}

impl RepositoryStatus {
    fn count(&self, which: u8) -> (r: usize)
        requires
            which < 3,
        ensures
            which == 0 ==> r == count_where(changes_view(self.changes@), |c: ChangeView| staged_unconflicted(c)),
            which == 1 ==> r == count_where(changes_view(self.changes@), |c: ChangeView| unstaged_unconflicted(c)),
            which == 2 ==> r == count_where(changes_view(self.changes@), |c: ChangeView| is_conflicted(c)),
    {
        let ghost pred = if which == 0 {
            |c: ChangeView| staged_unconflicted(c)
        } else if which == 1 {
            |c: ChangeView| unstaged_unconflicted(c)
        } else {
            |c: ChangeView| is_conflicted(c)
        };
        let mut n: usize = 0;
        let mut k: usize = 0;
        while k < self.changes.len()
            invariant
                k <= self.changes@.len(),
                which < 3,
                pred == (if which == 0 {
                    |c: ChangeView| staged_unconflicted(c)
                } else if which == 1 {
                    |c: ChangeView| unstaged_unconflicted(c)
                } else {
                    |c: ChangeView| is_conflicted(c)
                }),
                n == count_where(changes_view(self.changes@).take(k as int), pred),
                n <= k,
            decreases self.changes@.len() - k,
        {
            let change = &self.changes[k];
            let hit = if which == 0 {
                change.is_staged() && !change.conflicted
            } else if which == 1 {
                change.is_unstaged() && !change.conflicted
            } else {
                change.conflicted
            };
            proof {
                let all = changes_view(self.changes@);
                assert(all.take(k + 1).drop_last() =~= all.take(k as int));
                assert(all.take(k + 1).last() == change_view(self.changes@[k as int]));
            }
            if hit {
                n = n + 1;
            }
            k = k + 1;
        }
        proof {
            assert(changes_view(self.changes@).take(self.changes@.len() as int) =~= changes_view(self.changes@));
        }
        n
    }

    /// Changes staged in the index, conflicts excepted.
    pub fn staged_count(&self) -> (r: usize)
        ensures
            r == count_where(changes_view(self.changes@), |c: ChangeView| staged_unconflicted(c)),
    {
        self.count(0)
    }

    /// Changes in the working tree, conflicts excepted.
    pub fn unstaged_count(&self) -> (r: usize)
        ensures
            r == count_where(changes_view(self.changes@), |c: ChangeView| unstaged_unconflicted(c)),
    {
        self.count(1)
    }

    /// Conflicted paths.
    pub fn conflict_count(&self) -> (r: usize)
        ensures
            r == count_where(changes_view(self.changes@), |c: ChangeView| is_conflicted(c)),
    {
        self.count(2)
    }
}


/// The text of UTF-8 bytes, or nothing when they are not UTF-8.
pub open spec fn decoded(bytes: Seq<u8>) -> Option<Seq<char>> {
    if valid_utf8(bytes) {
        Some(decode_utf8(bytes))
    } else {
        None
    }
}

pub(crate) fn decode(bytes: &[u8]) -> (r: Option<String>)
    ensures
        opt_view(r) == decoded(bytes@),
{
    utf8_text(bytes)
}

/// The change named by one status letter; `None` for a letter Git does not print.
pub open spec fn kind_for(b: u8) -> Option<Option<ChangeKind>> {
    if b == DOT || b == SPACE {
        Some(None)
    } else if b == UPPER_M {
        Some(Some(ChangeKind::Modified))
    } else if b == UPPER_T {
        Some(Some(ChangeKind::TypeChanged))
    } else if b == UPPER_A {
        Some(Some(ChangeKind::Added))
    } else if b == UPPER_D {
        Some(Some(ChangeKind::Deleted))
    } else if b == UPPER_R {
        Some(Some(ChangeKind::Renamed))
    } else if b == UPPER_C {
        Some(Some(ChangeKind::Copied))
    } else if b == UPPER_U {
        Some(Some(ChangeKind::Unmerged))
    } else {
        None
    }
}

/// The two-letter codes of unmerged paths.
pub open spec fn is_conflict_pair(x: u8, y: u8) -> bool {
    (x == UPPER_D && y == UPPER_D) || (x == UPPER_A && y == UPPER_U) || (x == UPPER_U && y == UPPER_D) || (x == UPPER_U
        && y == UPPER_A) || (x == UPPER_D && y == UPPER_U) || (x == UPPER_A && y == UPPER_A) || (x == UPPER_U && y
        == UPPER_U)
}

/// The index change, work-tree change and conflict flag of an `XY` field.
pub open spec fn xy_for(v: Seq<u8>) -> Option<(Option<ChangeKind>, Option<ChangeKind>, bool)> {
    if v.len() != 2 {
        None
    } else if is_conflict_pair(v[0], v[1]) {
        Some((Some(ChangeKind::Unmerged), Some(ChangeKind::Unmerged), true))
    } else {
        match (kind_for(v[0]), kind_for(v[1])) {
            (Some(x), Some(y)) => Some((x, y, false)),
            _ => None,
        }
    }
}

pub open spec fn plain_change(
    path: Seq<char>,
    original_path: Option<Seq<char>>,
    index: Option<ChangeKind>,
    worktree: Option<ChangeKind>,
    conflicted: bool,
) -> ChangeView {
    ChangeView {
        path,
        original_path,
        index,
        worktree,
        conflicted,
        staged_additions: 0,
        staged_deletions: 0,
        unstaged_additions: 0,
        unstaged_deletions: 0,
    }
}

/// A `1` record: an ordinary change.
pub open spec fn ordinary_change(record: Seq<u8>) -> Option<ChangeView> {
    let f = splitn_bytes(record, SPACE, 9);
    if f.len() != 9 {
        None
    } else {
        match (xy_for(f[1]), decoded(f[8])) {
            (Some(xy), Some(path)) => Some(plain_change(path, None, xy.0, xy.1, xy.2)),
            _ => None,
        }
    }
}

/// A `2` record, a rename or copy, followed by the record of the original path.
pub open spec fn renamed_change(record: Seq<u8>, original: Seq<u8>) -> Option<ChangeView> {
    let f = splitn_bytes(record, SPACE, 10);
    if f.len() != 10 {
        None
    } else {
        match (xy_for(f[1]), decoded(f[9]), decoded(original)) {
            (Some(xy), Some(path), Some(from)) => Some(plain_change(path, Some(from), xy.0, xy.1, xy.2)),
            _ => None,
        }
    }
}

/// A `u` record: an unmerged path.
pub open spec fn unmerged_change(record: Seq<u8>) -> Option<ChangeView> {
    let f = splitn_bytes(record, SPACE, 11);
    if f.len() != 11 {
        None
    } else {
        match decoded(f[10]) {
            Some(path) => Some(
                plain_change(path, None, Some(ChangeKind::Unmerged), Some(ChangeKind::Unmerged), true),
            ),
            None => None,
        }
    }
}

/// A `?` record: an untracked path.
pub open spec fn untracked_change(record: Seq<u8>) -> Option<ChangeView> {
    if record.len() < 2 {
        None
    } else {
        match decoded(record.skip(2)) {
            Some(path) => Some(plain_change(path, None, None, Some(ChangeKind::Untracked), false)),
            None => None,
        }
    }
}

/// The count after `sign` in the `k`-th word.
pub open spec fn count_for(words: Seq<Seq<char>>, k: int, sign: char) -> Option<u32> {
    if k < 0 || k >= words.len() {
        None
    } else if words[k].len() > 0 && words[k][0] == sign {
        match parse_unsigned(words[k].drop_first(), u32::MAX as nat) {
            Some(n) => Some(n as u32),
            None => None,
        }
    } else {
        None
    }
}

/// The branch after a `#` header line.
pub open spec fn branch_update(record: Seq<u8>, b: BranchView) -> Option<BranchView> {
    match decoded(record) {
        None => None,
        Some(t) => if starts_with(t, "# branch.oid "@) {
            let v = t.skip("# branch.oid "@.len() as int);
            Some(if v == "(initial)"@ { b } else { BranchView { oid: Some(v), ..b } })
        } else if starts_with(t, "# branch.head "@) {
            let v = t.skip("# branch.head "@.len() as int);
            Some(if v == "(detached)"@ { b } else { BranchView { head: Some(v), ..b } })
        } else if starts_with(t, "# branch.upstream "@) {
            Some(BranchView { upstream: Some(t.skip("# branch.upstream "@.len() as int)), ..b })
        } else if starts_with(t, "# branch.ab "@) {
            let words = ws_tokens(t.skip("# branch.ab "@.len() as int));
            match (count_for(words, 0, '+'), count_for(words, 1, '-')) {
                (Some(ahead), Some(behind)) => Some(BranchView { ahead, behind, ..b }),
                _ => None,
            }
        } else {
            Some(b)
        },
    }
}

/// The status read from the records from the `i`-th on, or nothing when a
/// record is malformed.
pub open spec fn status_from(
    records: Seq<Seq<u8>>,
    i: int,
    branch: BranchView,
    changes: Seq<ChangeView>,
) -> Option<(BranchView, Seq<ChangeView>)>
    decreases records.len() - i,
{
    if i < 0 || i >= records.len() {
        Some((branch, changes))
    } else {
        let r = records[i];
        if r.len() == 0 || r[0] == BANG {
            status_from(records, i + 1, branch, changes)
        } else if r[0] == HASH {
            match branch_update(r, branch) {
                Some(next) => status_from(records, i + 1, next, changes),
                None => None,
            }
        } else if r[0] == DIGIT_TWO {
            if i + 1 >= records.len() {
                None
            } else {
                match renamed_change(r, records[i + 1]) {
                    Some(c) => status_from(records, i + 2, branch, changes.push(c)),
                    None => None,
                }
            }
        } else {
            let change = if r[0] == DIGIT_ONE {
                ordinary_change(r)
            } else if r[0] == LOWER_U {
                unmerged_change(r)
            } else if r[0] == QUESTION {
                untracked_change(r)
            } else {
                None
            };
            match change {
                Some(c) => status_from(records, i + 1, branch, changes.push(c)),
                None => None,
            }
        }
    }
}

pub open spec fn empty_branch() -> BranchView {
    BranchView { head: None, oid: None, upstream: None, ahead: 0, behind: 0 }
}

/// The status in NUL-separated porcelain v2 output.
pub open spec fn parsed_status(output: Seq<u8>) -> Option<(BranchView, Seq<ChangeView>)> {
    status_from(split_bytes(output, 0), 0, empty_branch(), Seq::empty())
}

pub open spec fn status_format_message() -> Seq<char> {
    "Git returned repository status in an unexpected format."@
}

fn kind_of(b: u8) -> (r: Option<Option<ChangeKind>>)
    ensures
        r == kind_for(b),
{
    if b == DOT || b == SPACE {
        Some(None)
    } else if b == UPPER_M {
        Some(Some(ChangeKind::Modified))
    } else if b == UPPER_T {
        Some(Some(ChangeKind::TypeChanged))
    } else if b == UPPER_A {
        Some(Some(ChangeKind::Added))
    } else if b == UPPER_D {
        Some(Some(ChangeKind::Deleted))
    } else if b == UPPER_R {
        Some(Some(ChangeKind::Renamed))
    } else if b == UPPER_C {
        Some(Some(ChangeKind::Copied))
    } else if b == UPPER_U {
        Some(Some(ChangeKind::Unmerged))
    } else {
        None
    }
}

fn xy_of(v: &[u8]) -> (r: Option<(Option<ChangeKind>, Option<ChangeKind>, bool)>)
    ensures
        r == xy_for(v@),
{
    if v.len() != 2 {
        return None;
    }
    let x = v[0];
    let y = v[1];
    if (x == UPPER_D && y == UPPER_D) || (x == UPPER_A && y == UPPER_U) || (x == UPPER_U && y == UPPER_D) || (x == UPPER_U
        && y == UPPER_A) || (x == UPPER_D && y == UPPER_U) || (x == UPPER_A && y == UPPER_A) || (x == UPPER_U && y
        == UPPER_U) {
        return Some((Some(ChangeKind::Unmerged), Some(ChangeKind::Unmerged), true));
    }
    match (kind_of(x), kind_of(y)) {
        (Some(a), Some(b)) => Some((a, b, false)),
        _ => None,
    }
}

fn new_change(
    path: String,
    original_path: Option<String>,
    index: Option<ChangeKind>,
    worktree: Option<ChangeKind>,
    conflicted: bool,
) -> (r: FileChange)
    ensures
        change_view(r) == plain_change(path@, opt_view(original_path), index, worktree, conflicted),
{
    FileChange {
        path,
        original_path,
        index,
        worktree,
        conflicted,
        staged_additions: 0,
        staged_deletions: 0,
        unstaged_additions: 0,
        unstaged_deletions: 0,
    }
}

fn parse_ordinary(record: &[u8]) -> (r: Option<FileChange>)
    ensures
        match r {
            Some(c) => ordinary_change(record@) == Some(change_view(c)),
            None => ordinary_change(record@) is None,
        },
{
    let f = splitn_on_byte(record, SPACE, 9);
    if f.len() != 9 {
        return None;
    }
    proof {
        assert(views(f@)[1] == f@[1]@ && views(f@)[8] == f@[8]@);
    }
    match (xy_of(&f[1]), decode(&f[8])) {
        (Some(xy), Some(path)) => Some(new_change(path, None, xy.0, xy.1, xy.2)),
        _ => None,
    }
}

fn parse_renamed(record: &[u8], original: &[u8]) -> (r: Option<FileChange>)
    ensures
        match r {
            Some(c) => renamed_change(record@, original@) == Some(change_view(c)),
            None => renamed_change(record@, original@) is None,
        },
{
    let f = splitn_on_byte(record, SPACE, 10);
    if f.len() != 10 {
        return None;
    }
    proof {
        assert(views(f@)[1] == f@[1]@ && views(f@)[9] == f@[9]@);
    }
    match (xy_of(&f[1]), decode(&f[9]), decode(original)) {
        (Some(xy), Some(path), Some(from)) => Some(new_change(path, Some(from), xy.0, xy.1, xy.2)),
        _ => None,
    }
}

fn parse_unmerged(record: &[u8]) -> (r: Option<FileChange>)
    ensures
        match r {
            Some(c) => unmerged_change(record@) == Some(change_view(c)),
            None => unmerged_change(record@) is None,
        },
{
    let f = splitn_on_byte(record, SPACE, 11);
    if f.len() != 11 {
        return None;
    }
    proof {
        assert(views(f@)[10] == f@[10]@);
    }
    match decode(&f[10]) {
        Some(path) => Some(
            new_change(path, None, Some(ChangeKind::Unmerged), Some(ChangeKind::Unmerged), true),
        ),
        None => None,
    }
}

fn parse_untracked(record: &[u8]) -> (r: Option<FileChange>)
    ensures
        match r {
            Some(c) => untracked_change(record@) == Some(change_view(c)),
            None => untracked_change(record@) is None,
        },
{
    if record.len() < 2 {
        return None;
    }
    let rest = byte_range(record, 2, record.len());
    proof {
        assert(rest@ =~= record@.skip(2));
    }
    match decode(&rest) {
        Some(path) => Some(new_change(path, None, None, Some(ChangeKind::Untracked), false)),
        None => None,
    }
}

fn count_token(words: &Vec<Vec<char>>, k: usize, sign: char) -> (r: Option<u32>)
    ensures
        r == count_for(words@.map_values(|x: Vec<char>| x@), k as int, sign),
{
    if k >= words.len() {
        return None;
    }
    let word = &words[k];
    proof {
        assert(words@.map_values(|x: Vec<char>| x@)[k as int] == word@);
    }
    if word.len() > 0 && word[0] == sign {
        let digits = slice_to_vec(word, 1, word.len());
        proof {
            assert(digits@ =~= word@.drop_first());
        }
        match parse_unsigned_bounded(&digits, 0xffff_ffffu64) {
            Some(n) => Some(n as u32),
            None => None,
        }
    } else {
        None
    }
}

fn some_text(v: &Vec<char>) -> (r: Option<String>)
    ensures
        opt_view(r) == Some(v@),
{
    Some(string_from_chars(v))
}

/// Applies one `#` header line to `branch`; false when the line is malformed.
fn apply_branch_line(record: &[u8], branch: &mut BranchStatus) -> (ok: bool)
    ensures
        ok ==> branch_update(record@, branch_view(*old(branch))) == Some(branch_view(*final(branch))),
        !ok ==> branch_update(record@, branch_view(*old(branch))) is None,
{
    let text = match decode(record) {
        Some(text) => text,
        None => return false,
    };
    let t = chars_of(text.as_str());
    if starts_with_str(&t, "# branch.oid ") {
        let n = chars_of("# branch.oid ").len();
        let v = slice_to_vec(&t, n, t.len());
        proof {
            assert(v@ =~= t@.skip(n as int));
        }
        if !is_lit(&v, "(initial)") {
            branch.oid = some_text(&v);
        }
    } else if starts_with_str(&t, "# branch.head ") {
        let n = chars_of("# branch.head ").len();
        let v = slice_to_vec(&t, n, t.len());
        proof {
            assert(v@ =~= t@.skip(n as int));
        }
        if !is_lit(&v, "(detached)") {
            branch.head = some_text(&v);
        }
    } else if starts_with_str(&t, "# branch.upstream ") {
        let n = chars_of("# branch.upstream ").len();
        let v = slice_to_vec(&t, n, t.len());
        proof {
            assert(v@ =~= t@.skip(n as int));
        }
        branch.upstream = some_text(&v);
    } else if starts_with_str(&t, "# branch.ab ") {
        let n = chars_of("# branch.ab ").len();
        let v = slice_to_vec(&t, n, t.len());
        proof {
            assert(v@ =~= t@.skip(n as int));
        }
        let words = split_ascii_whitespace(&v);
        match (count_token(&words, 0, '+'), count_token(&words, 1, '-')) {
            (Some(ahead), Some(behind)) => {
                branch.ahead = ahead;
                branch.behind = behind;
            },
            _ => return false,
        }
    }
    true
}

fn status_error() -> (e: GitError)
    ensures
        e.code == GitErrorCode::Parse,
        e.message@ == status_format_message(),
{
    GitError::new(GitErrorCode::Parse, "Git returned repository status in an unexpected format.")
}

/// Reads `git status --porcelain=v2 --branch -z` output.
///
/// Fails with a parse error when a record is malformed or not UTF-8 where
/// text is expected.
pub fn parse_status(output: &[u8]) -> (r: Result<RepositoryStatus, GitError>)
    ensures
        r is Ok <==> parsed_status(output@) is Some,
        r matches Ok(s) ==> parsed_status(output@) == Some((branch_view(s.branch), changes_view(s.changes@))),
        r matches Err(e) ==> e.code == GitErrorCode::Parse && e.message@ == status_format_message(),
{
    let records = split_on_byte(output, 0);
    let ghost rs = views(records@);
    let mut branch = BranchStatus { head: None, oid: None, upstream: None, ahead: 0, behind: 0 };
    let mut changes: Vec<FileChange> = Vec::new();
    let mut i: usize = 0;
    proof {
        assert(changes_view(changes@) =~= Seq::<ChangeView>::empty());
    }
    while i < records.len()
        invariant
            rs == views(records@),
            rs == split_bytes(output@, 0),
            i <= records@.len(),
            parsed_status(output@) == status_from(rs, i as int, branch_view(branch), changes_view(changes@)),
        decreases records@.len() - i,
    {
        let record = &records[i];
        proof {
            assert(rs[i as int] == record@);
        }
        if record.len() == 0 || record[0] == BANG {
            i = i + 1;
        } else if record[0] == HASH {
            if !apply_branch_line(record, &mut branch) {
                return Err(status_error());
            }
            i = i + 1;
        } else if record[0] == DIGIT_TWO {
            if i + 1 >= records.len() {
                return Err(status_error());
            }
            proof {
                assert(rs[i + 1] == records@[i + 1]@);
            }
            match parse_renamed(record, &records[i + 1]) {
                Some(change) => {
                    let ghost before = changes_view(changes@);
                    changes.push(change);
                    proof {
                        assert(changes_view(changes@) =~= before.push(change_view(change)));
                    }
                },
                None => return Err(status_error()),
            }
            i = i + 2;
        } else {
            let parsed = if record[0] == DIGIT_ONE {
                parse_ordinary(record)
            } else if record[0] == LOWER_U {
                parse_unmerged(record)
            } else if record[0] == QUESTION {
                parse_untracked(record)
            } else {
                None
            };
            match parsed {
                Some(change) => {
                    let ghost before = changes_view(changes@);
                    changes.push(change);
                    proof {
                        assert(changes_view(changes@) =~= before.push(change_view(change)));
                    }
                },
                None => return Err(status_error()),
            }
            i = i + 1;
        }
    }
    Ok(RepositoryStatus { branch, changes })
}
/// The bytes of a `# branch.upstream X` header record.
pub open spec fn upstream_header(upstream: Seq<char>) -> Seq<u8> {
    encode_utf8("# branch.upstream "@ + upstream)
}

/// A `# branch.upstream X` header sets the branch's upstream to `X` and
/// leaves the rest of the branch as it was.
pub proof fn upstream_headers_name_the_upstream(upstream: Seq<char>, b: BranchView)
    ensures
        branch_update(upstream_header(upstream), b) == Some(BranchView { upstream: Some(upstream), ..b }),
{
    let t = "# branch.upstream "@ + upstream;
    vstd::utf8::encode_utf8_valid_utf8(t);
    vstd::utf8::encode_utf8_decode_utf8(t);
    reveal_strlit("# branch.upstream ");
    reveal_strlit("# branch.oid ");
    reveal_strlit("# branch.head ");
    assert(t.take("# branch.upstream "@.len() as int) =~= "# branch.upstream "@);
    assert(t[9] == 'u');
    assert(!starts_with(t, "# branch.oid "@)) by {
        if starts_with(t, "# branch.oid "@) {
            assert(t.take(13)[9] == "# branch.oid "@[9]);
        }
    }
    assert(!starts_with(t, "# branch.head "@)) by {
        if starts_with(t, "# branch.head "@) {
            assert(t.take(14)[9] == "# branch.head "@[9]);
        }
    }
    assert(t.skip("# branch.upstream "@.len() as int) =~= upstream);
}

proof fn lemma_branch_kept_without_headers(
    records: Seq<Seq<u8>>,
    i: int,
    b: BranchView,
    changes: Seq<ChangeView>,
)
    requires
        0 <= i,
        forall|j: int| i <= j < records.len() ==> !(records[j].len() > 0 && #[trigger] records[j][0] == HASH),
    ensures
        status_from(records, i, b, changes) matches Some((end, _)) ==> end == b,
    decreases records.len() - i,
{
    if i < records.len() {
        let r = records[i];
        if r.len() == 0 || r[0] == BANG {
            lemma_branch_kept_without_headers(records, i + 1, b, changes);
        } else if r[0] == DIGIT_TWO {
            if i + 1 < records.len() {
                if let Some(c) = renamed_change(r, records[i + 1]) {
                    lemma_branch_kept_without_headers(records, i + 2, b, changes.push(c));
                }
            }
        } else {
            let change = if r[0] == DIGIT_ONE {
                ordinary_change(r)
            } else if r[0] == LOWER_U {
                unmerged_change(r)
            } else if r[0] == QUESTION {
                untracked_change(r)
            } else {
                None
            };
            if let Some(c) = change {
                lemma_branch_kept_without_headers(records, i + 1, b, changes.push(c));
            }
        }
    }
}

proof fn lemma_upstream_header_read(
    records: Seq<Seq<u8>>,
    j: int,
    i: int,
    upstream: Seq<char>,
    b: BranchView,
    changes: Seq<ChangeView>,
)
    requires
        0 <= j <= i < records.len(),
        forall|k: int| j <= k <= i ==> (#[trigger] records[k]).len() > 0 && records[k][0] == HASH,
        records[i] == upstream_header(upstream),
        forall|k: int| i < k < records.len() ==> !(records[k].len() > 0 && #[trigger] records[k][0] == HASH),
    ensures
        status_from(records, j, b, changes) matches Some((end, _)) ==> end.upstream == Some(upstream),
    decreases i - j,
{
    let r = records[j];
    assert(r.len() > 0 && r[0] == HASH);
    assert(HASH != BANG);
    if let Some(next) = branch_update(r, b) {
        if j < i {
            lemma_upstream_header_read(records, j + 1, i, upstream, next, changes);
        } else {
            upstream_headers_name_the_upstream(upstream, b);
            lemma_branch_kept_without_headers(records, i + 1, next, changes);
        }
    }
}

/// When Git's status output opens with header records and the last of them
/// is `# branch.upstream X`, the parsed branch's upstream is `X`: a later
/// upstream header wins over an earlier one, and change records after the
/// headers leave the branch alone.
pub proof fn the_last_upstream_header_wins(output: Seq<u8>, i: int, upstream: Seq<char>)
    requires
        0 <= i < split_bytes(output, 0).len(),
        forall|k: int| 0 <= k <= i ==> (#[trigger] split_bytes(output, 0)[k]).len() > 0 && split_bytes(output, 0)[k][0]
            == HASH,
        split_bytes(output, 0)[i] == upstream_header(upstream),
        forall|k: int|
            i < k < split_bytes(output, 0).len() ==> !(split_bytes(output, 0)[k].len() > 0 && #[trigger] split_bytes(
                output,
                0,
            )[k][0] == HASH),
    ensures
        parsed_status(output) matches Some((branch, _)) ==> branch.upstream == Some(upstream),
{
    lemma_upstream_header_read(split_bytes(output, 0), 0, i, upstream, empty_branch(), Seq::empty());
}

/// A `# branch.oid X` header names the commit `X`, except `(initial)`, which
/// leaves the branch as it was; a `# branch.head X` header names the branch
/// `X`, except `(detached)`, which leaves it as it was.
pub proof fn oid_and_head_headers_name_the_branch(value: Seq<char>, b: BranchView)
    ensures
        branch_update(encode_utf8("# branch.oid "@ + value), b) == Some(
            if value == "(initial)"@ {
                b
            } else {
                BranchView { oid: Some(value), ..b }
            },
        ),
        branch_update(encode_utf8("# branch.head "@ + value), b) == Some(
            if value == "(detached)"@ {
                b
            } else {
                BranchView { head: Some(value), ..b }
            },
        ),
{
    reveal_strlit("# branch.oid ");
    reveal_strlit("# branch.head ");
    let t = "# branch.oid "@ + value;
    vstd::utf8::encode_utf8_valid_utf8(t);
    vstd::utf8::encode_utf8_decode_utf8(t);
    assert(t.take("# branch.oid "@.len() as int) =~= "# branch.oid "@);
    assert(t.skip("# branch.oid "@.len() as int) =~= value);
    let h = "# branch.head "@ + value;
    vstd::utf8::encode_utf8_valid_utf8(h);
    vstd::utf8::encode_utf8_decode_utf8(h);
    assert(h.take("# branch.head "@.len() as int) =~= "# branch.head "@);
    assert(h[9] == 'h');
    assert(!starts_with(h, "# branch.oid "@)) by {
        if starts_with(h, "# branch.oid "@) {
            assert(h.take(13)[9] == "# branch.oid "@[9]);
        }
    }
    assert(h.skip("# branch.head "@.len() as int) =~= value);
}

/// A `# branch.ab +A -B` header sets how many commits the branch is ahead
/// of and behind its upstream.
pub proof fn ab_headers_count_commits(rest: Seq<char>, ahead: u32, behind: u32, b: BranchView)
    requires
        ws_tokens(rest).len() >= 2,
        ws_tokens(rest)[0] == seq!['+'] + crate::text::decimal(ahead as nat),
        ws_tokens(rest)[1] == seq!['-'] + crate::text::decimal(behind as nat),
    ensures
        branch_update(encode_utf8("# branch.ab "@ + rest), b) == Some(BranchView { ahead, behind, ..b }),
{
    reveal_strlit("# branch.ab ");
    reveal_strlit("# branch.oid ");
    reveal_strlit("# branch.head ");
    reveal_strlit("# branch.upstream ");
    let t = "# branch.ab "@ + rest;
    vstd::utf8::encode_utf8_valid_utf8(t);
    vstd::utf8::encode_utf8_decode_utf8(t);
    assert(t.take("# branch.ab "@.len() as int) =~= "# branch.ab "@);
    assert(t[9] == 'a');
    assert(!starts_with(t, "# branch.oid "@)) by {
        if starts_with(t, "# branch.oid "@) {
            assert(t.take(13)[9] == "# branch.oid "@[9]);
        }
    }
    assert(!starts_with(t, "# branch.head "@)) by {
        if starts_with(t, "# branch.head "@) {
            assert(t.take(14)[9] == "# branch.head "@[9]);
        }
    }
    assert(!starts_with(t, "# branch.upstream "@)) by {
        if starts_with(t, "# branch.upstream "@) {
            assert(t.take(18)[9] == "# branch.upstream "@[9]);
        }
    }
    assert(t.skip("# branch.ab "@.len() as int) =~= rest);
    let words = ws_tokens(rest);
    crate::lsp::lemma_decimal_reads_back(ahead as nat);
    crate::lsp::lemma_decimal_reads_back(behind as nat);
    let da = crate::text::decimal(ahead as nat);
    let db = crate::text::decimal(behind as nat);
    assert(words[0].drop_first() =~= da);
    assert(words[1].drop_first() =~= db);
    assert(da[0] != '+' && db[0] != '+');
}

} // verus!
