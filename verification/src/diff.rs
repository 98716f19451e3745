//! Splitting a single-file unified Git patch into independently applicable hunks.
use vstd::prelude::*;
use vstd::string::StringSliceAdditionalSpecFns;
use crate::conflict::{Lines, lines_of, fingerprint, lemma_ranges_ordered, line_count, line_of, line_start, text_fingerprint, trim_line_end};
use crate::git_model::{DiffKind, GitError, GitErrorCode, HunkAction};
use crate::text::{
    chars_of, concat, contains_seq, find_char_from, lemma_line_ranges, line_ranges,
    line_ranges_from, matches_at, next_char, parse_unsigned, parse_unsigned_bounded,
    seq_contains, slice_to_vec, starts_with, string_from_chars,
};

verus! {

#[derive(Clone, Debug, PartialEq, Eq)]
pub struct UnifiedDiff {
    pub path: String,
    pub kind: DiffKind,
    pub patch: String,
    pub binary: bool,
    /// Text on the original side of the comparison, when it can be displayed safely.
    pub original: Option<String>,
    /// Text on the changed side of the comparison, when it can be displayed safely.
    pub current: Option<String>,
}

#[derive(Clone, Debug, PartialEq, Eq)]
pub struct DiffHunk {
    pub index: usize,
    pub header: String,
    pub body: String,
    pub old_start: usize,
    pub new_start: usize,
    /// Complete single-file patch containing only this hunk.
    pub patch: String,
    pub fingerprint: u64,
    pub additions: u32,
    pub deletions: u32,
}

#[derive(Clone, Debug, PartialEq, Eq)]
pub struct HunkRequest {
    pub path: String,
    pub kind: DiffKind,
    pub hunk_index: usize,
    pub expected_fingerprint: u64,
    pub action: HunkAction,
}

/// A hunk as text and numbers.
pub ghost struct HunkSpec {
    pub index: int,
    pub header: Seq<char>,
    pub body: Seq<char>,
    pub old_start: int,
    pub new_start: int,
    pub patch: Seq<char>,
    pub fingerprint: u64,
    pub additions: int,
    pub deletions: int,
}

impl View for DiffHunk {
    type V = HunkSpec;

    open spec fn view(&self) -> HunkSpec {
        HunkSpec {
            index: self.index as int,
            header: self.header@,
            body: self.body@,
            old_start: self.old_start as int,
            new_start: self.new_start as int,
            patch: self.patch@,
            fingerprint: self.fingerprint,
            additions: self.additions as int,
            deletions: self.deletions as int,
        }
    }
}

/// First line at or after `k` that starts a hunk, or the line count.
pub open spec fn next_hunk(s: Seq<char>, k: int) -> int
    decreases line_count(s) - k,
{
    if k < 0 || k >= line_count(s) {
        line_count(s)
    } else if starts_with(line_of(s, k), "@@ "@) {
        k
    } else {
        next_hunk(s, k + 1)
    }
}

pub proof fn lemma_next_hunk(s: Seq<char>, k: int)
    requires
        0 <= k,
    ensures
        k <= next_hunk(s, k) || k > line_count(s),
        next_hunk(s, k) <= line_count(s),
        next_hunk(s, k) < line_count(s) ==> starts_with(line_of(s, next_hunk(s, k)), "@@ "@),
    decreases line_count(s) - k,
{
    if k < line_count(s) && !starts_with(line_of(s, k), "@@ "@) {
        lemma_next_hunk(s, k + 1);
    }
}

/// Lines among `a..b` that start with `prefix` but not with `excluded`.
pub open spec fn count_lines(s: Seq<char>, a: int, b: int, prefix: Seq<char>, excluded: Seq<char>) -> nat
    decreases b - a,
{
    if b <= a {
        0
    } else {
        count_lines(s, a, b - 1, prefix, excluded) + if starts_with(line_of(s, b - 1), prefix)
            && !starts_with(line_of(s, b - 1), excluded) {
            1nat
        } else {
            0nat
        }
    }
}

/// The number, or `u32::MAX` when it does not fit.
pub open spec fn saturate_u32(n: nat) -> int {
    if n <= u32::MAX {
        n as int
    } else {
        u32::MAX as int
    }
}

/// The start line of one side of a hunk range `start[,count]`.
pub open spec fn range_start(range: Seq<char>) -> Option<nat> {
    let k = next_char(range, ',', 0);
    parse_unsigned(range.take(k), usize::MAX as nat)
}

/// The old and new start lines of a hunk header `@@ -a[,b] +c[,d] @@...`.
pub open spec fn hunk_starts_spec(header: Seq<char>) -> Option<(nat, nat)> {
    if !starts_with(header, "@@ -"@) {
        None
    } else {
        let rest = header.skip(4);
        match find_text(rest, " @@"@) {
            None => None,
            Some(k) => {
                let ranges = rest.take(k);
                match find_text(ranges, " +"@) {
                    None => None,
                    Some(m) => match (
                        range_start(ranges.take(m)),
                        range_start(ranges.skip(m + 2)),
                    ) {
                        (Some(o), Some(n)) => Some((o, n)),
                        _ => None,
                    },
                }
            },
        }
    }
}

/// Index of the first occurrence of `needle` in `s`.
pub open spec fn find_text(s: Seq<char>, needle: Seq<char>) -> Option<int> {
    crate::text::find_from(s, needle, 0)
}

/// Whether none of the lines `a..b` starts a new file.
pub open spec fn no_file_header(s: Seq<char>, a: int, b: int) -> bool {
    forall|k: int| a <= k < b ==> !starts_with(#[trigger] line_of(s, k), "diff --git "@)
}

/// The hunks of `s` from the hunk that starts at line `start` on, numbered from `index`.
pub open spec fn hunks_from(s: Seq<char>, preamble: Seq<char>, start: int, index: int) -> Result<
    Seq<HunkSpec>,
    GitErrorCode,
>
    decreases line_count(s) - start,
{
    if start < 0 || start >= line_count(s) {
        Ok(Seq::empty())
    } else {
        let end = next_hunk(s, start + 1);
        proof {
            lemma_next_hunk(s, start + 1);
        }
        if !no_file_header(s, start + 1, end) {
            Err(GitErrorCode::Parse)
        } else {
            let header = trim_line_end(line_of(s, start));
            match hunk_starts_spec(header) {
                None => Err(GitErrorCode::Parse),
                Some((old_start, new_start)) => {
                    let body = s.subrange(line_start(s, start), line_start(s, end));
                    let patch = preamble + body;
                    let hunk = HunkSpec {
                        index,
                        header,
                        body,
                        old_start: old_start as int,
                        new_start: new_start as int,
                        patch,
                        fingerprint: text_fingerprint(patch),
                        additions: saturate_u32(count_lines(s, start + 1, end, "+"@, "+++"@)),
                        deletions: saturate_u32(count_lines(s, start + 1, end, "-"@, "---"@)),
                    };
                    match hunks_from(s, preamble, end, index + 1) {
                        Ok(rest) => Ok(seq![hunk] + rest),
                        Err(e) => Err(e),
                    }
                },
            }
        }
    }
}

/// Whether some line of the patch names a rename or copy.
pub open spec fn has_rename_or_copy(s: Seq<char>) -> bool {
    exists|k: int|
        0 <= k < line_count(s) && (starts_with(#[trigger] line_of(s, k), "rename from "@)
            || starts_with(line_of(s, k), "rename to "@) || starts_with(line_of(s, k), "copy from "@)
            || starts_with(line_of(s, k), "copy to "@))
}

/// The hunks of a single-file unified patch, or the code of the error: binary,
/// rename and copy patches are unsupported, and a patch without a `diff --git`
/// preamble or with a malformed hunk is a parse error.
pub open spec fn diff_hunks(s: Seq<char>) -> Result<Seq<HunkSpec>, GitErrorCode> {
    if contains_seq(s, "GIT binary patch"@) || contains_seq(s, "Binary files "@) {
        Err(GitErrorCode::Unsupported)
    } else if has_rename_or_copy(s) {
        Err(GitErrorCode::Unsupported)
    } else {
        let first = next_hunk(s, 0);
        if first >= line_count(s) {
            Ok(Seq::empty())
        } else {
            let preamble = s.take(line_start(s, first));
            if preamble.len() == 0 || !starts_with(preamble, "diff --git "@) {
                Err(GitErrorCode::Parse)
            } else {
                hunks_from(s, preamble, first, 0)
            }
        }
    }
}


pub open spec fn hunks_view(h: Seq<DiffHunk>) -> Seq<HunkSpec> {
    h.map_values(|x: DiffHunk| x@)
}

pub open spec fn parse_error_message() -> Seq<char> {
    "Git returned a unified diff in an unexpected format."@
}

pub open spec fn unsupported_hunks_message() -> Seq<char> {
    "Hunk actions are unavailable for this type of Git change."@
}

fn parse_error() -> (e: GitError)
    ensures
        e.code == GitErrorCode::Parse,
        e.message@ == parse_error_message(),
{
    GitError::new(GitErrorCode::Parse, "Git returned a unified diff in an unexpected format.")
}

fn unsupported_hunks() -> (e: GitError)
    ensures
        e.code == GitErrorCode::Unsupported,
        e.message@ == unsupported_hunks_message(),
{
    GitError::new(
        GitErrorCode::Unsupported,
        "Hunk actions are unavailable for this type of Git change.",
    )
}

/// Index of the first occurrence of `needle` in `s`.
fn find_text_exec(s: &[char], needle: &str) -> (r: Option<usize>)
    ensures
        match r {
            Some(k) => find_text(s@, needle@) == Some(k as int),
            None => find_text(s@, needle@) is None,
        },
{
    let n = chars_of(needle);
    crate::text::find_seq_from(s, &n, 0)
}

fn range_start_exec(range: &[char]) -> (r: Option<usize>)
    ensures
        match r {
            Some(v) => range_start(range@) == Some(v as nat),
            None => range_start(range@) is None,
        },
{
    let k = find_char_from(range, ',', 0);
    let head = slice_to_vec(range, 0, k);
    proof {
        assert(head@ =~= range@.take(k as int));
    }
    match parse_unsigned_bounded(&head, usize::MAX as u64) {
        Some(v) => Some(v as usize),
        None => None,
    }
}

/// The old and new start lines of a hunk header.
fn hunk_starts(header: &[char]) -> (r: Option<(usize, usize)>)
    ensures
        match r {
            Some((o, n)) => hunk_starts_spec(header@) == Some((o as nat, n as nat)),
            None => hunk_starts_spec(header@) is None,
        },
{
    let prefix = chars_of("@@ -");
    if !crate::text::seq_starts_with(header, &prefix) {
        return None;
    }
    proof {
        reveal_strlit("@@ -");
    }
    let rest = slice_to_vec(header, 4, header.len());
    proof {
        assert(rest@ =~= header@.skip(4));
    }
    let k = match find_text_exec(&rest, " @@") {
        Some(k) => k,
        None => {
            return None;
        },
    };
    proof {
        crate::text::lemma_find_from_some(rest@, " @@"@, 0);
    }
    let ranges = slice_to_vec(&rest, 0, k);
    proof {
        assert(ranges@ =~= rest@.take(k as int));
    }
    let m = match find_text_exec(&ranges, " +") {
        Some(m) => m,
        None => {
            return None;
        },
    };
    proof {
        crate::text::lemma_find_from_some(ranges@, " +"@, 0);
        reveal_strlit(" +");
    }
    let old = slice_to_vec(&ranges, 0, m);
    let new = slice_to_vec(&ranges, m + 2, ranges.len());
    proof {
        assert(old@ =~= ranges@.take(m as int));
        assert(new@ =~= ranges@.skip(m + 2));
    }
    match (range_start_exec(&old), range_start_exec(&new)) {
        (Some(o), Some(n)) => Some((o, n)),
        _ => None,
    }
}

fn next_hunk_exec(lines: &Lines, s: &Vec<char>, k: usize) -> (r: usize)
    requires
        lines.wf(s@),
        k <= line_count(s@),
    ensures
        r == next_hunk(s@, k as int),
        k <= r <= line_count(s@),
{
    let mut i = k;
    while i < lines.ranges.len() && !lines.starts_with(s, i, "@@ ")
        invariant
            lines.wf(s@),
            k <= i <= line_count(s@),
            next_hunk(s@, k as int) == next_hunk(s@, i as int),
        decreases line_count(s@) - i,
    {
        i = i + 1;
    }
    i
}

/// The number of lines among `a..b` that start with `prefix` but not `excluded`,
/// saturated to `u32::MAX`.
fn count_lines_exec(lines: &Lines, s: &Vec<char>, a: usize, b: usize, prefix: &str, excluded: &str) -> (r: u32)
    requires
        lines.wf(s@),
        a <= b <= line_count(s@),
    ensures
        r == saturate_u32(count_lines(s@, a as int, b as int, prefix@, excluded@)),
{
    let mut count: u32 = 0;
    let mut k = a;
    while k < b
        invariant
            lines.wf(s@),
            a <= k <= b <= line_count(s@),
            count == saturate_u32(count_lines(s@, a as int, k as int, prefix@, excluded@)),
        decreases b - k,
    {
        if lines.starts_with(s, k, prefix) && !lines.starts_with(s, k, excluded) {
            if count < u32::MAX {
                count = count + 1;
            }
        }
        k = k + 1;
    }
    count
}

fn rename_or_copy(lines: &Lines, s: &Vec<char>) -> (r: bool)
    requires
        lines.wf(s@),
    ensures
        r == has_rename_or_copy(s@),
{
    let n = lines.ranges.len();
    let mut k: usize = 0;
    while k < n
        invariant
            lines.wf(s@),
            n == line_count(s@),
            k <= n,
            forall|j: int|
                0 <= j < k ==> !(starts_with(#[trigger] line_of(s@, j), "rename from "@)
                    || starts_with(line_of(s@, j), "rename to "@) || starts_with(
                    line_of(s@, j),
                    "copy from "@,
                ) || starts_with(line_of(s@, j), "copy to "@)),
        decreases n - k,
    {
        if lines.starts_with(s, k, "rename from ") || lines.starts_with(s, k, "rename to ")
            || lines.starts_with(s, k, "copy from ") || lines.starts_with(s, k, "copy to ") {
            return true;
        }
        k = k + 1;
    }
    false
}

fn no_file_header_exec(lines: &Lines, s: &Vec<char>, a: usize, b: usize) -> (r: bool)
    requires
        lines.wf(s@),
        a <= b <= line_count(s@),
    ensures
        r == no_file_header(s@, a as int, b as int),
{
    let mut j = a;
    while j < b
        invariant
            lines.wf(s@),
            a <= j <= b <= line_count(s@),
            forall|i: int| a <= i < j ==> !starts_with(#[trigger] line_of(s@, i), "diff --git "@),
        decreases b - j,
    {
        if lines.starts_with(s, j, "diff --git ") {
            return false;
        }
        j = j + 1;
    }
    true
}

/// The hunk that starts at line `start`, numbered `index`, with the line where
/// the next hunk starts.
fn hunk_at(lines: &Lines, s: &Vec<char>, preamble: &Vec<char>, start: usize, index: usize) -> (r: Result<(DiffHunk, usize), GitError>)
    requires
        lines.wf(s@),
        start < line_count(s@),
    ensures
        match r {
            Ok((h, end)) => {
                &&& end == next_hunk(s@, start + 1)
                &&& start < end <= line_count(s@)
                &&& no_file_header(s@, start + 1, end as int)
                &&& hunk_starts_spec(trim_line_end(line_of(s@, start as int))) is Some
                &&& h@ == ({
                    let header = trim_line_end(line_of(s@, start as int));
                    let (old_start, new_start) = hunk_starts_spec(header)->Some_0;
                    let body = s@.subrange(line_start(s@, start as int), line_start(s@, end as int));
                    let patch = preamble@ + body;
                    HunkSpec {
                        index: index as int,
                        header,
                        body,
                        old_start: old_start as int,
                        new_start: new_start as int,
                        patch,
                        fingerprint: text_fingerprint(patch),
                        additions: saturate_u32(count_lines(s@, start + 1, end as int, "+"@, "+++"@)),
                        deletions: saturate_u32(count_lines(s@, start + 1, end as int, "-"@, "---"@)),
                    }
                })
            },
            Err(e) => {
                &&& e.code == GitErrorCode::Parse
                &&& e.message@ == parse_error_message()
                &&& hunks_from(s@, preamble@, start as int, index as int) == Err::<Seq<HunkSpec>, GitErrorCode>(GitErrorCode::Parse)
            },
        },
{
    let n = lines.ranges.len();
    proof {
        lemma_next_hunk(s@, start + 1);
        lemma_line_ranges(s@, 0);
    }
    let end = next_hunk_exec(lines, s, start + 1);
    if !no_file_header_exec(lines, s, start + 1, end) {
        return Err(parse_error());
    }
    let header = lines.marker_label(s, start, 0);
    proof {
        assert(line_of(s@, start as int).skip(0) =~= line_of(s@, start as int));
    }
    let (old_start, new_start) = match hunk_starts(&header) {
        Some(p) => p,
        None => {
            return Err(parse_error());
        },
    };
    let bs = lines.start(s, start);
    let be = lines.start(s, end);
    proof {
        if end < n {
            lemma_ranges_ordered(s@, start as int, end as int);
        }
    }
    let body = slice_to_vec(s, bs, be);
    let full = concat(preamble, &body);
    let full_text = string_from_chars(&full);
    let print = fingerprint(full_text.as_str().as_bytes());
    let additions = count_lines_exec(lines, s, start + 1, end, "+", "+++");
    let deletions = count_lines_exec(lines, s, start + 1, end, "-", "---");
    let hunk = DiffHunk {
        index,
        header: string_from_chars(&header),
        body: string_from_chars(&body),
        old_start,
        new_start,
        patch: full_text,
        fingerprint: print,
        additions,
        deletions,
    };
    Ok((hunk, end))
}

fn collect_hunks(lines: &Lines, s: &Vec<char>, preamble: &Vec<char>, first: usize) -> (r: Result<Vec<DiffHunk>, GitError>)
    requires
        lines.wf(s@),
        first < line_count(s@),
    ensures
        match r {
            Ok(h) => hunks_from(s@, preamble@, first as int, 0) == Ok::<Seq<HunkSpec>, GitErrorCode>(hunks_view(h@)),
            Err(e) => hunks_from(s@, preamble@, first as int, 0) == Err::<Seq<HunkSpec>, GitErrorCode>(e.code)
                && e.code == GitErrorCode::Parse && e.message@ == parse_error_message(),
        },
{
    let n = lines.ranges.len();
    let mut hunks: Vec<DiffHunk> = Vec::new();
    let mut start = first;
    let ghost goal = hunks_from(s@, preamble@, first as int, 0);
    proof {
        assert(hunks_view(hunks@) =~= Seq::<HunkSpec>::empty());
        if let Ok(rest) = goal {
            assert(Seq::<HunkSpec>::empty() + rest =~= rest);
        }
    }
    while start < n
        invariant
            lines.wf(s@),
            n == line_count(s@),
            first <= start <= n,
            hunks@.len() <= start,
            goal == hunks_from(s@, preamble@, first as int, 0),
            goal == match hunks_from(s@, preamble@, start as int, hunks@.len() as int) {
                Ok(rest) => Ok::<Seq<HunkSpec>, GitErrorCode>(hunks_view(hunks@) + rest),
                Err(e) => Err(e),
            },
        decreases n - start,
    {
        let (hunk, end) = match hunk_at(lines, s, preamble, start, hunks.len()) {
            Ok(p) => p,
            Err(e) => {
                return Err(e);
            },
        };
        let ghost before = hunks_view(hunks@);
        let ghost hv = hunk@;
        proof {
            assert(hunks_from(s@, preamble@, start as int, hunks@.len() as int) == match hunks_from(s@, preamble@, end as int, hunks@.len() as int + 1) {
                Ok(rest) => Ok::<Seq<HunkSpec>, GitErrorCode>(seq![hv] + rest),
                Err(e) => Err(e),
            });
        }
        hunks.push(hunk);
        proof {
            assert(hunks_view(hunks@) =~= before.push(hv));
            if let Ok(rest) = hunks_from(s@, preamble@, end as int, hunks@.len() as int) {
                assert(before + (seq![hv] + rest) =~= before.push(hv) + rest);
            }
        }
        start = end;
    }
    proof {
        assert(hunks_view(hunks@) + Seq::<HunkSpec>::empty() =~= hunks_view(hunks@));
    }
    Ok(hunks)
}

/// Splits a single-file unified Git patch into independently applicable hunks.
///
/// Binary, rename and copy patches are unsupported; input without the expected
/// unified-diff structure is a parse error.
pub fn parse_diff_hunks(patch: &str) -> (r: Result<Vec<DiffHunk>, GitError>)
    ensures
        match r {
            Ok(h) => diff_hunks(patch@) == Ok::<Seq<HunkSpec>, GitErrorCode>(hunks_view(h@)),
            Err(e) => diff_hunks(patch@) == Err::<Seq<HunkSpec>, GitErrorCode>(e.code)
                && e.message@ == (if e.code == GitErrorCode::Parse {
                parse_error_message()
            } else {
                unsupported_hunks_message()
            }),
        },
{
    let s = chars_of(patch);
    if seq_contains(&s, &chars_of("GIT binary patch")) || seq_contains(&s, &chars_of("Binary files ")) {
        return Err(unsupported_hunks());
    }
    let lines = lines_of(&s);
    if rename_or_copy(&lines, &s) {
        return Err(unsupported_hunks());
    }
    proof {
        lemma_next_hunk(s@, 0);
    }
    let first = next_hunk_exec(&lines, &s, 0);
    if first >= lines.ranges.len() {
        let none: Vec<DiffHunk> = Vec::new();
        proof {
            assert(hunks_view(none@) =~= Seq::<HunkSpec>::empty());
        }
        return Ok(none);
    }
    let pre_end = lines.start(&s, first);
    let preamble = slice_to_vec(&s, 0, pre_end);
    proof {
        assert(preamble@ =~= s@.take(pre_end as int));
    }
    if preamble.len() == 0 || !crate::text::seq_starts_with(&preamble, &chars_of("diff --git ")) {
        return Err(parse_error());
    }
    collect_hunks(&lines, &s, &preamble, first)
}

/// The bodies of the hunks, one after the other.
pub open spec fn joined_bodies(hunks: Seq<HunkSpec>) -> Seq<char>
    decreases hunks.len(),
{
    if hunks.len() == 0 {
        Seq::empty()
    } else {
        hunks[0].body + joined_bodies(hunks.drop_first())
    }
}

/// Each hunk is numbered from `index` on, its patch is the preamble followed
/// by its body, and its fingerprint is that of its patch.
pub open spec fn hunks_well_made(hunks: Seq<HunkSpec>, preamble: Seq<char>, index: int) -> bool {
    forall|k: int|
        0 <= k < hunks.len() ==> {
            &&& (#[trigger] hunks[k]).index == index + k
            &&& hunks[k].patch == preamble + hunks[k].body
            &&& hunks[k].fingerprint == text_fingerprint(hunks[k].patch)
        }
}

proof fn lemma_line_start_bounds(s: Seq<char>, a: int, b: int)
    requires
        0 <= a <= b <= line_count(s),
    ensures
        0 <= line_start(s, a) <= line_start(s, b) <= s.len(),
{
    lemma_line_ranges(s, 0);
    if b < line_count(s) {
        lemma_ranges_ordered(s, a, b);
        let r = line_ranges_from(s, 0)[b];
        assert(r.0 <= s.len());
    } else if a < line_count(s) {
        let r = line_ranges_from(s, 0)[a];
        assert(0 <= r.0 <= s.len());
    }
}

proof fn lemma_hunks_cover(s: Seq<char>, preamble: Seq<char>, start: int, index: int)
    requires
        0 <= start,
    ensures
        hunks_from(s, preamble, start, index) is Ok ==> {
            let hunks = hunks_from(s, preamble, start, index)->Ok_0;
            &&& start <= line_count(s) ==> joined_bodies(hunks) == s.subrange(line_start(s, start), s.len() as int)
            &&& hunks_well_made(hunks, preamble, index)
        },
    decreases line_count(s) - start,
{
    if 0 <= start < line_count(s) {
        let end = next_hunk(s, start + 1);
        lemma_next_hunk(s, start + 1);
        if hunks_from(s, preamble, start, index) is Ok {
            lemma_hunks_cover(s, preamble, end, index + 1);
            lemma_line_start_bounds(s, start, end);
            let hunks = hunks_from(s, preamble, start, index)->Ok_0;
            let rest = hunks_from(s, preamble, end, index + 1)->Ok_0;
            assert(hunks.drop_first() =~= rest);
            assert(s.subrange(line_start(s, start), line_start(s, end)) + s.subrange(line_start(s, end), s.len() as int)
                =~= s.subrange(line_start(s, start), s.len() as int));
            assert forall|k: int| 0 <= k < hunks.len() implies {
                &&& (#[trigger] hunks[k]).index == index + k
                &&& hunks[k].patch == preamble + hunks[k].body
                &&& hunks[k].fingerprint == text_fingerprint(hunks[k].patch)
            } by {
                if k > 0 {
                    assert(hunks[k] == rest[k - 1]);
                }
            }
        }
    } else if start == line_count(s) {
        assert(s.subrange(s.len() as int, s.len() as int) =~= Seq::<char>::empty());
    }
}

/// The hunks of a patch give it back: its preamble followed by the bodies of
/// its hunks, in order, is the whole patch. Each hunk is numbered by its
/// place, its patch is the preamble followed by its own body, and its
/// fingerprint is the FNV-1a hash of that patch's UTF-8 bytes.
pub proof fn hunks_reassemble_the_patch(s: Seq<char>)
    requires
        diff_hunks(s) is Ok,
        diff_hunks(s)->Ok_0.len() > 0,
    ensures
        s.take(line_start(s, next_hunk(s, 0))) + joined_bodies(diff_hunks(s)->Ok_0) == s,
        hunks_well_made(diff_hunks(s)->Ok_0, s.take(line_start(s, next_hunk(s, 0))), 0),
{
    let first = next_hunk(s, 0);
    lemma_next_hunk(s, 0);
    let preamble = s.take(line_start(s, first));
    lemma_hunks_cover(s, preamble, first, 0);
    lemma_line_start_bounds(s, first, first);
    assert(preamble + s.subrange(line_start(s, first), s.len() as int) =~= s);
}

/// A patch that holds a binary marker, or names a rename or copy, has no
/// hunk actions.
pub proof fn binary_and_renamed_patches_are_unsupported(s: Seq<char>)
    requires
        contains_seq(s, "GIT binary patch"@) || contains_seq(s, "Binary files "@) || has_rename_or_copy(s),
    ensures
        diff_hunks(s) == Err::<Seq<HunkSpec>, GitErrorCode>(GitErrorCode::Unsupported),
{
}

proof fn lemma_body_begins_with_header(s: Seq<char>, start: int)
    requires
        0 <= start < line_count(s),
        starts_with(line_of(s, start), "@@ "@),
    ensures
        starts_with(s.subrange(line_start(s, start), line_start(s, next_hunk(s, start + 1))), "@@ "@),
{
    lemma_line_ranges(s, 0);
    lemma_next_hunk(s, start + 1);
    let end = next_hunk(s, start + 1);
    let r = line_ranges_from(s, 0)[start];
    if end < line_count(s) {
        lemma_ranges_ordered(s, start + 1, end);
    }
    assert(r.1 <= line_start(s, end));
    let line = line_of(s, start);
    let body = s.subrange(line_start(s, start), line_start(s, end));
    let header = "@@ "@;
    assert(body.take(header.len() as int) =~= line.take(header.len() as int));
}

proof fn lemma_bodies_begin_with_headers(s: Seq<char>, preamble: Seq<char>, start: int, index: int)
    requires
        0 <= start,
        start < line_count(s) ==> starts_with(line_of(s, start), "@@ "@),
    ensures
        hunks_from(s, preamble, start, index) is Ok ==> forall|k: int|
            0 <= k < hunks_from(s, preamble, start, index)->Ok_0.len() ==> starts_with(
                (#[trigger] hunks_from(s, preamble, start, index)->Ok_0[k]).body,
                "@@ "@,
            ),
    decreases line_count(s) - start,
{
    if 0 <= start < line_count(s) {
        let end = next_hunk(s, start + 1);
        lemma_next_hunk(s, start + 1);
        if hunks_from(s, preamble, start, index) is Ok {
            lemma_bodies_begin_with_headers(s, preamble, end, index + 1);
            lemma_body_begins_with_header(s, start);
            let hunks = hunks_from(s, preamble, start, index)->Ok_0;
            let rest = hunks_from(s, preamble, end, index + 1)->Ok_0;
            assert forall|k: int| 0 <= k < hunks.len() implies starts_with((#[trigger] hunks[k]).body, "@@ "@) by {
                if k > 0 {
                    assert(hunks[k] == rest[k - 1]);
                }
            }
        }
    }
}

/// Every hunk's body begins with its `@@ ` header line, and the preamble
/// that each hunk's patch repeats begins with `diff --git `.
pub proof fn hunks_begin_with_their_headers(s: Seq<char>)
    requires
        diff_hunks(s) is Ok,
        diff_hunks(s)->Ok_0.len() > 0,
    ensures
        starts_with(s.take(line_start(s, next_hunk(s, 0))), "diff --git "@),
        forall|k: int|
            0 <= k < diff_hunks(s)->Ok_0.len() ==> starts_with((#[trigger] diff_hunks(s)->Ok_0[k]).body, "@@ "@),
{
    lemma_next_hunk(s, 0);
    lemma_bodies_begin_with_headers(s, s.take(line_start(s, next_hunk(s, 0))), next_hunk(s, 0), 0);
}

proof fn lemma_hunks_fail_to_parse(s: Seq<char>, preamble: Seq<char>, start: int, index: int)
    ensures
        hunks_from(s, preamble, start, index) is Err ==> hunks_from(s, preamble, start, index) == Err::<
            Seq<HunkSpec>,
            GitErrorCode,
        >(GitErrorCode::Parse),
    decreases line_count(s) - start,
{
    if 0 <= start < line_count(s) {
        lemma_next_hunk(s, start + 1);
        lemma_hunks_fail_to_parse(s, preamble, next_hunk(s, start + 1), index + 1);
    }
}

proof fn lemma_no_hunk_line(s: Seq<char>, k: int)
    requires
        0 <= k,
        forall|i: int| 0 <= i < line_count(s) ==> !starts_with(#[trigger] line_of(s, i), "@@ "@),
    ensures
        next_hunk(s, k) == line_count(s),
    decreases line_count(s) - k,
{
    if k < line_count(s) {
        lemma_no_hunk_line(s, k + 1);
    }
}

/// Which patches are refused, and how: a binary patch or one that names a
/// rename or copy is unsupported, and every other refusal is a parse error.
/// A patch without any `@@ ` line has no hunks; a patch whose first hunk is
/// not preceded by a `diff --git ` preamble, or whose first hunk header is
/// malformed, is a parse error.
pub proof fn hunk_errors_say_why(s: Seq<char>)
    ensures
        diff_hunks(s) == Err::<Seq<HunkSpec>, GitErrorCode>(GitErrorCode::Unsupported) <==> (contains_seq(
            s,
            "GIT binary patch"@,
        ) || contains_seq(s, "Binary files "@) || has_rename_or_copy(s)),
        diff_hunks(s) is Err ==> diff_hunks(s)->Err_0 == GitErrorCode::Parse || diff_hunks(s)->Err_0
            == GitErrorCode::Unsupported,
        !(contains_seq(s, "GIT binary patch"@) || contains_seq(s, "Binary files "@) || has_rename_or_copy(s)) ==> {
            &&& (forall|i: int| 0 <= i < line_count(s) ==> !starts_with(#[trigger] line_of(s, i), "@@ "@))
                ==> diff_hunks(s) == Ok::<Seq<HunkSpec>, GitErrorCode>(Seq::empty())
            &&& next_hunk(s, 0) < line_count(s) && !starts_with(s.take(line_start(s, next_hunk(s, 0))), "diff --git "@)
                ==> diff_hunks(s) == Err::<Seq<HunkSpec>, GitErrorCode>(GitErrorCode::Parse)
            &&& next_hunk(s, 0) < line_count(s) && hunk_starts_spec(trim_line_end(line_of(s, next_hunk(s, 0)))) is None
                ==> diff_hunks(s) == Err::<Seq<HunkSpec>, GitErrorCode>(GitErrorCode::Parse)
        },
{
    lemma_next_hunk(s, 0);
    let first = next_hunk(s, 0);
    lemma_hunks_fail_to_parse(s, s.take(line_start(s, first)), first, 0);
    if forall|i: int| 0 <= i < line_count(s) ==> !starts_with(#[trigger] line_of(s, i), "@@ "@) {
        lemma_no_hunk_line(s, 0);
    }
    let preamble = s.take(line_start(s, first));
    if preamble.len() == 0 {
        assert(!starts_with(preamble, "diff --git "@)) by {
            reveal_strlit("diff --git ");
        }
    }
}

} // verus!
