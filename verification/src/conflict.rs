//! Standard two-way and diff3 merge-conflict markers: parsing and resolving
//! one block while preserving the rest of the file.
use vstd::prelude::*;
use vstd::string::StringSliceAdditionalSpecFns;
use crate::git_model::{ConflictChoice, GitError, GitErrorCode};
use crate::text::{
    chars_of, concat, line_ranges, line_ranges_from, lemma_line_ranges, matches_at, occurs_at,
    slice_to_vec, split_inclusive_lines, starts_with, string_from_chars,
};

verus! {

#[derive(Clone, Debug, PartialEq, Eq)]
pub struct ConflictBlock {
    pub index: usize,
    pub current_label: String,
    pub incoming_label: String,
    pub current: String,
    pub incoming: String,
    pub fingerprint: u64,
}

#[derive(Clone, Debug, PartialEq, Eq)]
pub struct ConflictFile {
    /// Workspace-relative path of the conflicted file.
    pub path: String,
    pub blocks: Vec<ConflictBlock>,
}

#[derive(Clone, Debug, PartialEq, Eq)]
pub struct ConflictRequest {
    pub path: String,
    pub block_index: usize,
    pub expected_fingerprint: u64,
    pub choice: ConflictChoice,
}

#[derive(Clone, Debug, PartialEq, Eq)]
pub struct ResolvedConflict {
    pub content: String,
    pub complete: bool,
}

/// Offset basis of the 64-bit FNV-1a hash.
pub const FNV_OFFSET: u64 = 0xcbf2_9ce4_8422_2325;

/// Prime of the 64-bit FNV-1a hash.
pub const FNV_PRIME: u64 = 0x0000_0100_0000_01b3;

/// 64-bit FNV-1a hash of `bytes`.
pub open spec fn fnv1a(bytes: Seq<u8>) -> u64
    decreases bytes.len(),
{
    if bytes.len() == 0 {
        FNV_OFFSET
    } else {
        vstd::wrapping::u64_specs::wrapping_mul(
            fnv1a(bytes.drop_last()) ^ (bytes.last() as u64),
            FNV_PRIME,
        )
    }
}

/// 64-bit FNV-1a hash of `bytes`.
pub fn fingerprint(bytes: &[u8]) -> (r: u64)
    ensures
        r == fnv1a(bytes@),
{
    let mut hash: u64 = FNV_OFFSET;
    let mut i: usize = 0;
    while i < bytes.len()
        invariant
            i <= bytes@.len(),
            hash == fnv1a(bytes@.take(i as int)),
        decreases bytes@.len() - i,
    {
        proof {
            assert(bytes@.take(i + 1).drop_last() =~= bytes@.take(i as int));
            assert(bytes@.take(i + 1).last() == bytes@[i as int]);
        }
        hash = (hash ^ (bytes[i] as u64)).wrapping_mul(FNV_PRIME);
        i = i + 1;
    }
    proof {
        assert(bytes@.take(i as int) =~= bytes@);
    }
    hash
}

/// Fingerprint of a text: the FNV-1a hash of its UTF-8 encoding.
pub open spec fn text_fingerprint(text: Seq<char>) -> u64 {
    fnv1a(vstd::utf8::encode_utf8(text))
}

/// A conflict block located in a file, by character indices.
pub ghost struct BlockSpec {
    pub start: int,
    pub end: int,
    pub current_label: Seq<char>,
    pub incoming_label: Seq<char>,
    pub current: Seq<char>,
    pub incoming: Seq<char>,
}

/// The `k`th line of `s`, with its line ending.
pub open spec fn line_of(s: Seq<char>, k: int) -> Seq<char> {
    let r = line_ranges_from(s, 0)[k];
    s.subrange(r.0, r.1)
}

/// Character index where line `k` of `s` starts; the end of `s` past the last line.
pub open spec fn line_start(s: Seq<char>, k: int) -> int {
    if 0 <= k < line_ranges_from(s, 0).len() {
        line_ranges_from(s, 0)[k].0
    } else {
        s.len() as int
    }
}

pub open spec fn line_count(s: Seq<char>) -> int {
    line_ranges_from(s, 0).len() as int
}

/// Any of the four marker prefixes.
pub open spec fn is_marker_spec(line: Seq<char>) -> bool {
    starts_with(line, "<<<<<<<"@) || starts_with(line, "|||||||"@) || starts_with(line, "======="@)
        || starts_with(line, ">>>>>>>"@)
}

/// The line that ends a section: `kind` 0 ends the current side (ancestor or
/// separator), 1 the ancestor section (separator), 2 the incoming side.
pub open spec fn is_section_end(line: Seq<char>, kind: int) -> bool {
    if kind == 0 {
        starts_with(line, "||||||| "@) || starts_with(line, "======="@)
    } else if kind == 1 {
        starts_with(line, "======="@)
    } else {
        starts_with(line, ">>>>>>> "@)
    }
}

/// Index of the first line at or after `j` that ends the section, or the line
/// count; an error when another marker comes first.
pub open spec fn scan_section(s: Seq<char>, j: int, kind: int) -> Result<int, ()>
    decreases line_count(s) - j,
{
    if j < 0 || j >= line_count(s) {
        Ok(j)
    } else if is_section_end(line_of(s, j), kind) {
        Ok(j)
    } else if is_marker_spec(line_of(s, j)) {
        Err(())
    } else {
        scan_section(s, j + 1, kind)
    }
}

pub proof fn lemma_scan_section(s: Seq<char>, j: int, kind: int)
    requires
        0 <= j,
    ensures
        scan_section(s, j, kind) matches Ok(k) ==> j <= k && (k < line_count(s) ==> is_section_end(
            line_of(s, k),
            kind,
        )),
    decreases line_count(s) - j,
{
    if j < line_count(s) && !is_section_end(line_of(s, j), kind) && !is_marker_spec(
        line_of(s, j),
    ) {
        lemma_scan_section(s, j + 1, kind);
    }
}

/// `s` without trailing carriage returns and line feeds.
pub open spec fn trim_line_end(s: Seq<char>) -> Seq<char>
    decreases s.len(),
{
    if s.len() > 0 && (s.last() == '\r' || s.last() == '\n') {
        trim_line_end(s.drop_last())
    } else {
        s
    }
}

/// The label after a marker prefix.
pub open spec fn marker_label_spec(line: Seq<char>, prefix: Seq<char>) -> Seq<char> {
    if starts_with(line, prefix) {
        trim_line_end(line.skip(prefix.len() as int))
    } else {
        Seq::empty()
    }
}

/// The block whose opening marker is line `i`, with the index of the line after
/// its closing marker; an error for malformed markers.
pub open spec fn block_at(s: Seq<char>, i: int) -> Result<(BlockSpec, int), ()> {
    match scan_section(s, i + 1, 0) {
        Err(()) => Err(()),
        Ok(j1) => {
            let j2r = if j1 < line_count(s) && starts_with(line_of(s, j1), "||||||| "@) {
                scan_section(s, j1 + 1, 1)
            } else {
                Ok(j1)
            };
            match j2r {
                Err(()) => Err(()),
                Ok(j2) => if j2 >= line_count(s) || !starts_with(line_of(s, j2), "======="@) {
                    Err(())
                } else {
                    match scan_section(s, j2 + 1, 2) {
                        Err(()) => Err(()),
                        Ok(j3) => if j3 >= line_count(s) {
                            Err(())
                        } else {
                            Ok(
                                (
                                    BlockSpec {
                                        start: line_start(s, i),
                                        end: line_start(s, j3 + 1),
                                        current_label: marker_label_spec(
                                            line_of(s, i),
                                            "<<<<<<< "@,
                                        ),
                                        incoming_label: marker_label_spec(
                                            line_of(s, j3),
                                            ">>>>>>> "@,
                                        ),
                                        current: s.subrange(
                                            line_start(s, i + 1),
                                            line_start(s, j1),
                                        ),
                                        incoming: s.subrange(
                                            line_start(s, j2 + 1),
                                            line_start(s, j3),
                                        ),
                                    },
                                    j3 + 1,
                                ),
                            )
                        },
                    }
                },
            }
        },
    }
}

pub proof fn lemma_block_at(s: Seq<char>, i: int)
    requires
        0 <= i < line_count(s),
    ensures
        block_at(s, i) matches Ok((b, next)) ==> {
            &&& i < next <= line_count(s)
            &&& 0 <= b.start <= b.end <= s.len()
        },
{
    lemma_line_ranges(s, 0);
    lemma_scan_section(s, i + 1, 0);
    if let Ok(j1) = scan_section(s, i + 1, 0) {
        lemma_scan_section(s, j1 + 1, 1);
        let j2r = if j1 < line_count(s) && starts_with(line_of(s, j1), "||||||| "@) {
            scan_section(s, j1 + 1, 1)
        } else {
            Ok(j1)
        };
        if let Ok(j2) = j2r {
            lemma_scan_section(s, j2 + 1, 2);
            if let Ok(j3) = scan_section(s, j2 + 1, 2) {
                if j3 < line_count(s) {
                    let r = line_ranges_from(s, 0);
                    assert(r[i].0 < r[i].1);
                    if j3 + 1 < line_count(s) {
                        assert(r[i].0 <= r[j3 + 1].0) by {
                            lemma_ranges_ordered(s, i, j3 + 1);
                        }
                    }
                }
            }
        }
    }
}

pub proof fn lemma_ranges_ordered(s: Seq<char>, i: int, j: int)
    requires
        0 <= i <= j < line_count(s),
    ensures
        line_ranges_from(s, 0)[i].0 <= line_ranges_from(s, 0)[j].0,
    decreases j - i,
{
    lemma_line_ranges(s, 0);
    if i < j {
        lemma_ranges_ordered(s, i, j - 1);
    }
}

/// The conflict blocks of `s` from line `i` on, or an error for malformed markers.
pub open spec fn scan_blocks(s: Seq<char>, i: int) -> Result<Seq<BlockSpec>, ()>
    decreases line_count(s) - i,
{
    if i < 0 || i >= line_count(s) {
        Ok(Seq::empty())
    } else if !starts_with(line_of(s, i), "<<<<<<< "@) {
        if is_marker_spec(line_of(s, i)) {
            Err(())
        } else {
            scan_blocks(s, i + 1)
        }
    } else {
        proof {
            lemma_block_at(s, i);
        }
        match block_at(s, i) {
            Err(()) => Err(()),
            Ok((block, next)) => match scan_blocks(s, next) {
                Err(()) => Err(()),
                Ok(rest) => Ok(seq![block] + rest),
            },
        }
    }
}

/// The conflict blocks of a file, or an error for malformed markers.
pub open spec fn conflict_blocks(s: Seq<char>) -> Result<Seq<BlockSpec>, ()> {
    scan_blocks(s, 0)
}

/// The fingerprint of a block: the hash of its full marked text.
pub open spec fn block_fingerprint(s: Seq<char>, b: BlockSpec) -> u64 {
    text_fingerprint(s.subrange(b.start, b.end))
}

pub open spec fn unsupported_conflict_message() -> Seq<char> {
    "This conflict does not use supported standard text markers. Resolve it with an external Git tool."@
}

pub open spec fn stale_conflict_message() -> Seq<char> {
    "The selected conflict block changed. Refresh it before resolving."@
}

/// The resolved document and whether no conflict remains, or the code of the
/// error for malformed markers or a missing or changed block.
pub open spec fn resolution(
    content: Seq<char>,
    block_index: int,
    expected_fingerprint: u64,
    choice: ConflictChoice,
) -> Result<(Seq<char>, bool), GitErrorCode> {
    match conflict_blocks(content) {
        Err(()) => Err(GitErrorCode::Unsupported),
        Ok(blocks) => if block_index >= blocks.len() {
            Err(GitErrorCode::Conflict)
        } else {
            let b = blocks[block_index];
            if block_fingerprint(content, b) != expected_fingerprint {
                Err(GitErrorCode::Conflict)
            } else {
                let replacement = match choice {
                    ConflictChoice::Current => b.current,
                    ConflictChoice::Incoming => b.incoming,
                    ConflictChoice::Both => b.current + b.incoming,
                };
                Ok((content.take(b.start) + replacement + content.skip(b.end), blocks.len() == 1))
            }
        },
    }
}

struct ParsedBlock {
    start: usize,
    end: usize,
    current_label: Vec<char>,
    incoming_label: Vec<char>,
    current: Vec<char>,
    incoming: Vec<char>,
}

impl View for ParsedBlock {
    type V = BlockSpec;

    closed spec fn view(&self) -> BlockSpec {
        BlockSpec {
            start: self.start as int,
            end: self.end as int,
            current_label: self.current_label@,
            incoming_label: self.incoming_label@,
            current: self.current@,
            incoming: self.incoming@,
        }
    }
}

/// The lines of a text, by character ranges.
pub struct Lines {
    pub ranges: Vec<(usize, usize)>,
}

impl Lines {
    pub open spec fn wf(&self, s: Seq<char>) -> bool {
        &&& self.ranges@.len() == line_count(s)
        &&& forall|k: int|
            0 <= k < self.ranges@.len() ==> #[trigger] self.ranges@[k].0 < self.ranges@[k].1
                <= s.len() && self.ranges@[k].0 == line_ranges_from(s, 0)[k].0
                && self.ranges@[k].1 == line_ranges_from(s, 0)[k].1
    }

    pub fn start(&self, s: &Vec<char>, k: usize) -> (r: usize)
        requires
            self.wf(s@),
        ensures
            r == line_start(s@, k as int),
            r <= s@.len(),
    {
        if k < self.ranges.len() {
            self.ranges[k].0
        } else {
            s.len()
        }
    }

    pub fn starts_with(&self, s: &Vec<char>, k: usize, prefix: &str) -> (r: bool)
        requires
            self.wf(s@),
            k < line_count(s@),
        ensures
            r == starts_with(line_of(s@, k as int), prefix@),
    {
        let p = chars_of(prefix);
        let (a, b) = self.ranges[k];
        if b - a < p.len() {
            return false;
        }
        let r = matches_at(s, &p, a);
        proof {
            let l = s@.subrange(a as int, b as int);
            assert(l.take(p@.len() as int) =~= s@.subrange(a as int, a + p@.len()));
        }
        r
    }

    pub fn is_marker(&self, s: &Vec<char>, k: usize) -> (r: bool)
        requires
            self.wf(s@),
            k < line_count(s@),
        ensures
            r == is_marker_spec(line_of(s@, k as int)),
    {
        self.starts_with(s, k, "<<<<<<<") || self.starts_with(s, k, "|||||||") || self.starts_with(
            s,
            k,
            "=======",
        ) || self.starts_with(s, k, ">>>>>>>")
    }

    pub fn is_section_end(&self, s: &Vec<char>, k: usize, kind: u8) -> (r: bool)
        requires
            self.wf(s@),
            k < line_count(s@),
            kind <= 2,
        ensures
            r == is_section_end(line_of(s@, k as int), kind as int),
    {
        if kind == 0 {
            self.starts_with(s, k, "||||||| ") || self.starts_with(s, k, "=======")
        } else if kind == 1 {
            self.starts_with(s, k, "=======")
        } else {
            self.starts_with(s, k, ">>>>>>> ")
        }
    }

    pub fn scan_section(&self, s: &Vec<char>, j: usize, kind: u8) -> (r: Result<usize, ()>)
        requires
            self.wf(s@),
            kind <= 2,
        ensures
            match r {
                Ok(k) => scan_section(s@, j as int, kind as int) == Ok::<int, ()>(k as int),
                Err(()) => scan_section(s@, j as int, kind as int) is Err,
            },
    {
        let mut k = j;
        while k < self.ranges.len()
            invariant
                self.wf(s@),
                kind <= 2,
                j <= k,
                scan_section(s@, j as int, kind as int) == scan_section(s@, k as int, kind as int),
            decreases self.ranges@.len() - k,
        {
            if self.is_section_end(s, k, kind) {
                return Ok(k);
            }
            if self.is_marker(s, k) {
                return Err(());
            }
            k = k + 1;
        }
        Ok(k)
    }

    /// The label after the marker prefix of line `k`.
    pub fn marker_label(&self, s: &Vec<char>, k: usize, prefix_len: usize) -> (r: Vec<char>)
        requires
            self.wf(s@),
            k < line_count(s@),
            prefix_len <= line_of(s@, k as int).len(),
        ensures
            r@ == trim_line_end(line_of(s@, k as int).skip(prefix_len as int)),
    {
        let (a, b) = self.ranges[k];
        let from = if b - a < prefix_len {
            b
        } else {
            a + prefix_len
        };
        let mut end = b;
        let ghost l = line_of(s@, k as int);
        proof {
            assert(l.skip(prefix_len as int) =~= s@.subrange(from as int, b as int));
        }
        while end > from && (s[end - 1] == '\r' || s[end - 1] == '\n')
            invariant
                a <= from <= end <= b <= s@.len(),
                trim_line_end(l.skip(prefix_len as int)) == trim_line_end(
                    s@.subrange(from as int, end as int),
                ),
            decreases end,
        {
            proof {
                assert(s@.subrange(from as int, end as int).drop_last() =~= s@.subrange(
                    from as int,
                    end - 1,
                ));
            }
            end = end - 1;
        }
        slice_to_vec(s, from, end)
    }
}

pub open spec fn prepend(p: Seq<BlockSpec>, r: Result<Seq<BlockSpec>, ()>) -> Result<
    Seq<BlockSpec>,
    (),
> {
    match r {
        Ok(rest) => Ok(p + rest),
        Err(e) => Err(e),
    }
}

proof fn lemma_prepend_empty(r: Result<Seq<BlockSpec>, ()>)
    ensures
        r == prepend(Seq::<BlockSpec>::empty(), r),
{
    if let Ok(rest) = r {
        assert(Seq::<BlockSpec>::empty() + rest =~= rest);
    }
}

pub fn lines_of(s: &Vec<char>) -> (r: Lines)
    ensures
        r.wf(s@),
{
    let ranges = line_ranges(s);
    proof {
        lemma_line_ranges(s@, 0);
    }
    Lines { ranges }
}

/// Parses the block whose opening marker is line `i`.
fn parse_block_at(lines: &Lines, s: &Vec<char>, index: usize) -> (r: Result<(ParsedBlock, usize), ()>)
    requires
        lines.wf(s@),
        index < line_count(s@),
        starts_with(line_of(s@, index as int), "<<<<<<< "@),
    ensures
        match r {
            Ok((b, next)) => block_at(s@, index as int) == Ok::<(BlockSpec, int), ()>(
                (b@, next as int),
            ),
            Err(()) => block_at(s@, index as int) is Err,
        },
{
    let n = lines.ranges.len();
    proof {
        lemma_scan_section(s@, index + 1, 0);
    }
    let j1 = match lines.scan_section(s, index + 1, 0) {
        Ok(j) => j,
        Err(()) => {
            return Err(());
        },
    };
    proof {
        lemma_scan_section(s@, j1 + 1, 1);
    }
    let j2 = if j1 < n && lines.starts_with(s, j1, "||||||| ") {
        match lines.scan_section(s, j1 + 1, 1) {
            Ok(j) => j,
            Err(()) => {
                return Err(());
            },
        }
    } else {
        j1
    };
    if j2 >= n || !lines.starts_with(s, j2, "=======") {
        return Err(());
    }
    proof {
        lemma_scan_section(s@, j2 + 1, 2);
    }
    let j3 = match lines.scan_section(s, j2 + 1, 2) {
        Ok(j) => j,
        Err(()) => {
            return Err(());
        },
    };
    if j3 >= n {
        return Err(());
    }
    proof {
        lemma_block_at(s@, index as int);
        lemma_line_ranges(s@, 0);
        reveal_strlit("<<<<<<< ");
        reveal_strlit(">>>>>>> ");
    }
    let current_label = lines.marker_label(s, index, 8);
    let incoming_label = lines.marker_label(s, j3, 8);
    let cs = lines.start(s, index + 1);
    let ce = lines.start(s, j1);
    let is = lines.start(s, j2 + 1);
    let ie = lines.start(s, j3);
    proof {
        assert(cs <= ce) by {
            if index + 1 < n && j1 < n {
                lemma_ranges_ordered(s@, index + 1, j1 as int);
            }
        }
        assert(is <= ie) by {
            if j2 + 1 < n {
                lemma_ranges_ordered(s@, j2 + 1, j3 as int);
            }
        }
    }
    let current = slice_to_vec(s, cs, ce);
    let incoming = slice_to_vec(s, is, ie);
    let block = ParsedBlock {
        start: lines.start(s, index),
        end: lines.start(s, j3 + 1),
        current_label,
        incoming_label,
        current,
        incoming,
    };
    Ok((block, j3 + 1))
}

/// Parses every conflict block of the text.
fn parse_blocks(s: &Vec<char>) -> (r: Result<Vec<ParsedBlock>, ()>)
    ensures
        match r {
            Ok(blocks) => conflict_blocks(s@) == Ok::<Seq<BlockSpec>, ()>(
                blocks@.map_values(|b: ParsedBlock| b@),
            ),
            Err(()) => conflict_blocks(s@) is Err,
        },
{
    let lines = lines_of(s);
    let n = lines.ranges.len();
    let mut blocks: Vec<ParsedBlock> = Vec::new();
    let mut index: usize = 0;
    proof {
        assert(blocks@.map_values(|b: ParsedBlock| b@) =~= Seq::<BlockSpec>::empty());
        lemma_prepend_empty(scan_blocks(s@, 0));
    }
    while index < n
        invariant
            lines.wf(s@),
            n == line_count(s@),
            index <= n,
            conflict_blocks(s@) == prepend(
                blocks@.map_values(|b: ParsedBlock| b@),
                scan_blocks(s@, index as int),
            ),
        decreases n - index,
    {
        if !lines.starts_with(s, index, "<<<<<<< ") {
            if lines.is_marker(s, index) {
                return Err(());
            }
            index = index + 1;
        } else {
            proof {
                lemma_block_at(s@, index as int);
            }
            let (block, next) = match parse_block_at(&lines, s, index) {
                Ok(p) => p,
                Err(()) => {
                    return Err(());
                },
            };
            let ghost before = blocks@.map_values(|b: ParsedBlock| b@);
            let ghost bv = block@;
            blocks.push(block);
            proof {
                assert(blocks@.map_values(|b: ParsedBlock| b@) =~= before.push(bv));
                match scan_blocks(s@, next as int) {
                    Ok(rest) => {
                        assert(before + (seq![bv] + rest) =~= before.push(bv) + rest);
                    },
                    Err(()) => {},
                }
            }
            index = next;
        }
    }
    proof {
        assert(blocks@.map_values(|b: ParsedBlock| b@) + Seq::<BlockSpec>::empty() =~= blocks@.map_values(
            |b: ParsedBlock| b@,
        ));
    }
    Ok(blocks)
}

fn unsupported_conflict() -> (e: GitError)
    ensures
        e.code == GitErrorCode::Unsupported,
        e.message@ == unsupported_conflict_message(),
{
    GitError::new(
        GitErrorCode::Unsupported,
        "This conflict does not use supported standard text markers. Resolve it with an external Git tool.",
    )
}

fn stale_conflict() -> (e: GitError)
    ensures
        e.code == GitErrorCode::Conflict,
        e.message@ == stale_conflict_message(),
{
    GitError::new(
        GitErrorCode::Conflict,
        "The selected conflict block changed. Refresh it before resolving.",
    )
}

/// The fingerprint of a parsed block.
fn block_hash(s: &Vec<char>, b: &ParsedBlock) -> (r: u64)
    requires
        b.start <= b.end <= s@.len(),
    ensures
        r == block_fingerprint(s@, b@),
{
    let source = string_from_chars(&slice_to_vec(s, b.start, b.end));
    fingerprint(source.as_str().as_bytes())
}

proof fn lemma_block_bounds(s: Seq<char>, i: int)
    requires
        conflict_blocks(s) is Ok,
    ensures
        forall|k: int|
            0 <= k < conflict_blocks(s)->Ok_0.len() ==> 0 <= (#[trigger] conflict_blocks(
                s,
            )->Ok_0[k]).start <= conflict_blocks(s)->Ok_0[k].end <= s.len(),
{
    lemma_scan_blocks_bounds(s, 0);
}

proof fn lemma_scan_blocks_bounds(s: Seq<char>, i: int)
    requires
        0 <= i,
        scan_blocks(s, i) is Ok,
    ensures
        forall|k: int|
            0 <= k < scan_blocks(s, i)->Ok_0.len() ==> 0 <= (#[trigger] scan_blocks(
                s,
                i,
            )->Ok_0[k]).start <= scan_blocks(s, i)->Ok_0[k].end <= s.len(),
    decreases line_count(s) - i,
{
    if i < line_count(s) {
        if !starts_with(line_of(s, i), "<<<<<<< "@) {
            lemma_scan_blocks_bounds(s, i + 1);
        } else {
            lemma_block_at(s, i);
            let (b, next) = block_at(s, i)->Ok_0;
            lemma_scan_blocks_bounds(s, next);
            let all = scan_blocks(s, i)->Ok_0;
            let rest = scan_blocks(s, next)->Ok_0;
            assert forall|k: int| 0 <= k < all.len() implies 0 <= (#[trigger] all[k]).start <= all[k].end <= s.len() by {
                if k > 0 {
                    assert(all[k] == rest[k - 1]);
                }
            }
        }
    }
}

/// Resolves one standard conflict block while preserving all other file content.
pub fn resolve_conflict_block(
    content: &str,
    block_index: usize,
    expected_fingerprint: u64,
    choice: ConflictChoice,
) -> (r: Result<ResolvedConflict, GitError>)
    ensures
        match r {
            Ok(res) => resolution(content@, block_index as int, expected_fingerprint, choice)
                == Ok::<(Seq<char>, bool), GitErrorCode>((res.content@, res.complete)),
            Err(e) => resolution(content@, block_index as int, expected_fingerprint, choice)
                == Err::<(Seq<char>, bool), GitErrorCode>(e.code) && e.message@ == (if e.code
                == GitErrorCode::Unsupported {
                unsupported_conflict_message()
            } else {
                stale_conflict_message()
            }),
        },
{
    let s = chars_of(content);
    let blocks = match parse_blocks(&s) {
        Ok(b) => b,
        Err(()) => {
            return Err(unsupported_conflict());
        },
    };
    proof {
        lemma_block_bounds(s@, 0);
    }
    if block_index >= blocks.len() {
        return Err(stale_conflict());
    }
    let block = &blocks[block_index];
    proof {
        assert(conflict_blocks(s@)->Ok_0[block_index as int] == block@);
    }
    if block_hash(&s, block) != expected_fingerprint {
        return Err(stale_conflict());
    }
    let replacement = match choice {
        ConflictChoice::Current => slice_to_vec(&block.current, 0, block.current.len()),
        ConflictChoice::Incoming => slice_to_vec(&block.incoming, 0, block.incoming.len()),
        ConflictChoice::Both => concat(&block.current, &block.incoming),
    };
    proof {
        assert(block.current@.subrange(0, block.current@.len() as int) =~= block.current@);
        assert(block.incoming@.subrange(0, block.incoming@.len() as int) =~= block.incoming@);
    }
    let head = slice_to_vec(&s, 0, block.start);
    let tail = slice_to_vec(&s, block.end, s.len());
    let resolved = concat(&concat(&head, &replacement), &tail);
    proof {
        assert(head@ =~= s@.take(block.start as int));
        assert(tail@ =~= s@.skip(block.end as int));
    }
    Ok(ResolvedConflict { content: string_from_chars(&resolved), complete: blocks.len() == 1 })
}

/// The block as shown to the user, numbered `index`.
pub open spec fn public_block(s: Seq<char>, b: BlockSpec, index: int) -> (
    int,
    Seq<char>,
    Seq<char>,
    Seq<char>,
    Seq<char>,
    u64,
) {
    (index, b.current_label, b.incoming_label, b.current, b.incoming, block_fingerprint(s, b))
}

pub open spec fn conflict_block_view(b: ConflictBlock) -> (
    int,
    Seq<char>,
    Seq<char>,
    Seq<char>,
    Seq<char>,
    u64,
) {
    (
        b.index as int,
        b.current_label@,
        b.incoming_label@,
        b.current@,
        b.incoming@,
        b.fingerprint,
    )
}

/// Parses standard two-way or diff3 conflict markers for display.
pub fn parse_conflict_file(path: String, content: &str) -> (r: Result<ConflictFile, GitError>)
    ensures
        match r {
            Ok(file) => {
                &&& file.path == path
                &&& conflict_blocks(content@) is Ok
                &&& conflict_blocks(content@)->Ok_0.len() > 0
                &&& file.blocks@.len() == conflict_blocks(content@)->Ok_0.len()
                &&& forall|k: int|
                    0 <= k < file.blocks@.len() ==> conflict_block_view(#[trigger] file.blocks@[k])
                        == public_block(content@, conflict_blocks(content@)->Ok_0[k], k)
            },
            Err(e) => {
                &&& e.code == GitErrorCode::Unsupported
                &&& e.message@ == unsupported_conflict_message()
                &&& (conflict_blocks(content@) is Err || conflict_blocks(content@)->Ok_0.len()
                    == 0)
            },
        },
{
    let s = chars_of(content);
    let blocks = match parse_blocks(&s) {
        Ok(b) => b,
        Err(()) => {
            return Err(unsupported_conflict());
        },
    };
    if blocks.len() == 0 {
        return Err(unsupported_conflict());
    }
    proof {
        lemma_block_bounds(s@, 0);
    }
    let ghost all = conflict_blocks(s@)->Ok_0;
    let mut public: Vec<ConflictBlock> = Vec::new();
    let mut i: usize = 0;
    while i < blocks.len()
        invariant
            i <= blocks@.len(),
            all == blocks@.map_values(|b: ParsedBlock| b@),
            forall|k: int| 0 <= k < all.len() ==> 0 <= (#[trigger] all[k]).start <= all[k].end <= s@.len(),
            public@.len() == i,
            forall|k: int|
                0 <= k < i ==> conflict_block_view(#[trigger] public@[k]) == public_block(
                    s@,
                    all[k],
                    k,
                ),
        decreases blocks@.len() - i,
    {
        let b = &blocks[i];
        proof {
            assert(all[i as int] == b@);
        }
        let fingerprint = block_hash(&s, b);
        public.push(
            ConflictBlock {
                index: i,
                current_label: string_from_chars(&b.current_label),
                incoming_label: string_from_chars(&b.incoming_label),
                current: string_from_chars(&b.current),
                incoming: string_from_chars(&b.incoming),
                fingerprint,
            },
        );
        i = i + 1;
    }
    Ok(ConflictFile { path, blocks: public })
}

proof fn lemma_scan_blocks_skips_plain_lines(s: Seq<char>, k: int, i: int)
    requires
        0 <= k <= i <= line_count(s),
        forall|j: int| k <= j < i ==> !is_marker_spec(#[trigger] line_of(s, j)),
    ensures
        scan_blocks(s, k) == scan_blocks(s, i),
    decreases i - k,
{
    if k < i {
        assert(!is_marker_spec(line_of(s, k)));
        assert(!starts_with(line_of(s, k), "<<<<<<< "@)) by {
            reveal_strlit("<<<<<<< ");
            reveal_strlit("<<<<<<<");
            if starts_with(line_of(s, k), "<<<<<<< "@) {
                assert(line_of(s, k).take(7) =~= "<<<<<<<"@);
            }
        }
        lemma_scan_blocks_skips_plain_lines(s, k + 1, i);
    }
}

/// A file without any conflict marker line has no conflict blocks.
pub proof fn files_without_markers_have_no_blocks(s: Seq<char>)
    requires
        forall|j: int| 0 <= j < line_count(s) ==> !is_marker_spec(#[trigger] line_of(s, j)),
    ensures
        conflict_blocks(s) == Ok::<Seq<BlockSpec>, ()>(Seq::empty()),
{
    lemma_scan_blocks_skips_plain_lines(s, 0, line_count(s));
}

/// A marker line that does not open a block, met before any block, makes
/// the file unsupported.
pub proof fn a_stray_marker_is_refused(s: Seq<char>, i: int)
    requires
        0 <= i < line_count(s),
        forall|j: int| 0 <= j < i ==> !is_marker_spec(#[trigger] line_of(s, j)),
        is_marker_spec(line_of(s, i)),
        !starts_with(line_of(s, i), "<<<<<<< "@),
    ensures
        conflict_blocks(s) is Err,
{
    lemma_scan_blocks_skips_plain_lines(s, 0, i);
}

/// The first block, opened before any other marker, makes the file
/// unsupported when no `=======` line follows its opening marker, or when no
/// `>>>>>>> ` line does.
pub proof fn an_unfinished_block_is_refused(s: Seq<char>, i: int)
    requires
        0 <= i < line_count(s),
        forall|j: int| 0 <= j < i ==> !is_marker_spec(#[trigger] line_of(s, j)),
        starts_with(line_of(s, i), "<<<<<<< "@),
        (forall|j: int| i < j < line_count(s) ==> !starts_with(#[trigger] line_of(s, j), "======="@)) || (forall|
            j: int,
        |
            i < j < line_count(s) ==> !starts_with(#[trigger] line_of(s, j), ">>>>>>> "@)),
    ensures
        conflict_blocks(s) is Err,
{
    lemma_scan_blocks_skips_plain_lines(s, 0, i);
    lemma_scan_section(s, i + 1, 0);
    if let Ok(j1) = scan_section(s, i + 1, 0) {
        lemma_scan_section(s, j1 + 1, 1);
        let j2r = if j1 < line_count(s) && starts_with(line_of(s, j1), "||||||| "@) {
            scan_section(s, j1 + 1, 1)
        } else {
            Ok(j1)
        };
        if let Ok(j2) = j2r {
            lemma_scan_section(s, j2 + 1, 2);
        }
    }
    assert(block_at(s, i) is Err);
}

/// Lines `i`, `j1`, `j2` and `j3` of `s` mark one conflict block: `i` opens
/// it with `<<<<<<< `, `j1` ends the current side with `||||||| ` or
/// `=======`, `j2` is the `=======` line and `j3` closes the block with
/// `>>>>>>> `; no marker line lies inside the current or incoming side.
pub open spec fn marks_block(s: Seq<char>, i: int, j1: int, j2: int, j3: int) -> bool {
    &&& 0 <= i < j1 <= j2 < j3 < line_count(s)
    &&& starts_with(line_of(s, i), "<<<<<<< "@)
    &&& (starts_with(line_of(s, j1), "||||||| "@) || starts_with(line_of(s, j1), "======="@))
    &&& starts_with(line_of(s, j2), "======="@)
    &&& starts_with(line_of(s, j3), ">>>>>>> "@)
    &&& (forall|k: int| i < k < j1 ==> !is_marker_spec(#[trigger] line_of(s, k)))
    &&& (forall|k: int| j2 < k < j3 ==> !is_marker_spec(#[trigger] line_of(s, k)))
}

/// The text of the current side of the block marked by those lines.
pub open spec fn current_side(s: Seq<char>, i: int, j1: int) -> Seq<char> {
    s.subrange(line_start(s, i + 1), line_start(s, j1))
}

/// The text of the incoming side of the block marked by those lines.
pub open spec fn incoming_side(s: Seq<char>, j2: int, j3: int) -> Seq<char> {
    s.subrange(line_start(s, j2 + 1), line_start(s, j3))
}

/// Whether block `b` is the one marked by lines `i`, `j1`, `j2`, `j3`: it
/// spans from the opening line through the closing one, and its sides are
/// the text between the markers.
pub open spec fn block_marked(s: Seq<char>, b: BlockSpec, i: int, j1: int, j2: int, j3: int) -> bool {
    &&& marks_block(s, i, j1, j2, j3)
    &&& b.start == line_start(s, i)
    &&& b.end == line_start(s, j3 + 1)
    &&& b.current == current_side(s, i, j1)
    &&& b.incoming == incoming_side(s, j2, j3)
}

proof fn lemma_scan_section_plain(s: Seq<char>, j: int, kind: int)
    requires
        0 <= j,
    ensures
        scan_section(s, j, kind) matches Ok(k) ==> forall|m: int| j <= m < k ==> !is_marker_spec(
            #[trigger] line_of(s, m),
        ),
    decreases line_count(s) - j,
{
    if j < line_count(s) && !is_section_end(line_of(s, j), kind) && !is_marker_spec(line_of(s, j)) {
        lemma_scan_section_plain(s, j + 1, kind);
    }
}

proof fn lemma_block_at_marked(s: Seq<char>, i: int)
    requires
        0 <= i < line_count(s),
        starts_with(line_of(s, i), "<<<<<<< "@),
    ensures
        block_at(s, i) matches Ok((b, next)) ==> exists|j1: int, j2: int| #[trigger] block_marked(s, b, i, j1, j2, next - 1),
{
    lemma_scan_section(s, i + 1, 0);
    lemma_scan_section_plain(s, i + 1, 0);
    if let Ok(j1) = scan_section(s, i + 1, 0) {
        lemma_scan_section(s, j1 + 1, 1);
        let j2r = if j1 < line_count(s) && starts_with(line_of(s, j1), "||||||| "@) {
            scan_section(s, j1 + 1, 1)
        } else {
            Ok(j1)
        };
        if let Ok(j2) = j2r {
            lemma_scan_section(s, j2 + 1, 2);
            lemma_scan_section_plain(s, j2 + 1, 2);
            if let Ok((b, next)) = block_at(s, i) {
                let j3 = next - 1;
                assert(block_marked(s, b, i, j1, j2, j3));
            }
        }
    }
}

/// Whether some lines of `s` mark block `b`.
pub open spec fn is_marked(s: Seq<char>, b: BlockSpec) -> bool {
    exists|a: int, j1: int, j2: int, j3: int| #[trigger] block_marked(s, b, a, j1, j2, j3)
}

proof fn lemma_blocks_marked(s: Seq<char>, i: int)
    requires
        0 <= i,
    ensures
        scan_blocks(s, i) is Ok ==> forall|k: int|
            0 <= k < scan_blocks(s, i)->Ok_0.len() ==> is_marked(s, #[trigger] scan_blocks(s, i)->Ok_0[k]),
    decreases line_count(s) - i,
{
    if 0 <= i < line_count(s) {
        if !starts_with(line_of(s, i), "<<<<<<< "@) {
            lemma_blocks_marked(s, i + 1);
        } else {
            lemma_block_at(s, i);
            lemma_block_at_marked(s, i);
            if let Ok((block, next)) = block_at(s, i) {
                lemma_blocks_marked(s, next);
                if scan_blocks(s, i) is Ok {
                    let blocks = scan_blocks(s, i)->Ok_0;
                    let rest = scan_blocks(s, next)->Ok_0;
                    assert(blocks == seq![block] + rest);
                    assert(is_marked(s, block));
                    assert forall|k: int| 0 <= k < blocks.len() implies is_marked(s, #[trigger] blocks[k]) by {
                        if k == 0 {
                            assert(blocks[0] == block);
                        } else {
                            assert(blocks[k] == rest[k - 1]);
                        }
                    }
                }
            }
        }
    }
}

/// Every conflict block found is marked in the file: it runs from a
/// `<<<<<<< ` line through a `>>>>>>> ` line, its current side is the text
/// between the opening line and the `||||||| ` or `=======` line after it,
/// and its incoming side is the text between the `=======` line and the
/// closing one.
pub proof fn conflict_blocks_are_marked(s: Seq<char>)
    requires
        conflict_blocks(s) is Ok,
    ensures
        forall|k: int|
            0 <= k < conflict_blocks(s)->Ok_0.len() ==> is_marked(s, #[trigger] conflict_blocks(s)->Ok_0[k]),
{
    lemma_blocks_marked(s, 0);
}

/// The text a choice keeps from the block marked by lines `i`, `j1`, `j2`,
/// `j3`: the current side, the incoming side, or both in that order.
pub open spec fn chosen_side(s: Seq<char>, i: int, j1: int, j2: int, j3: int, choice: ConflictChoice) -> Seq<char> {
    match choice {
        ConflictChoice::Current => current_side(s, i, j1),
        ConflictChoice::Incoming => incoming_side(s, j2, j3),
        ConflictChoice::Both => current_side(s, i, j1) + incoming_side(s, j2, j3),
    }
}

/// Resolving a block replaces it, from its `<<<<<<< ` line through its
/// `>>>>>>> ` line, by the side the choice keeps: `Current` keeps the text
/// between the opening marker and the `||||||| `/`=======` line, `Incoming`
/// the text between the `=======` line and the closing marker, `Both` the
/// two in that order. The rest of the file is kept, the result is complete
/// when the file held one block, and it is only given when the expected
/// fingerprint is that of the block's marked text.
pub proof fn resolving_keeps_the_chosen_side(
    content: Seq<char>,
    block_index: int,
    expected_fingerprint: u64,
    choice: ConflictChoice,
)
    requires
        0 <= block_index,
        resolution(content, block_index, expected_fingerprint, choice) is Ok,
    ensures
        exists|i: int, j1: int, j2: int, j3: int|
            #[trigger] marks_block(content, i, j1, j2, j3) && resolution(content, block_index, expected_fingerprint, choice)
                == Ok::<(Seq<char>, bool), GitErrorCode>(
                (
                    content.take(line_start(content, i)) + chosen_side(content, i, j1, j2, j3, choice)
                        + content.skip(line_start(content, j3 + 1)),
                    conflict_blocks(content)->Ok_0.len() == 1,
                ),
            ) && expected_fingerprint == text_fingerprint(content.subrange(line_start(content, i), line_start(content, j3 + 1))),
{
    assert(conflict_blocks(content) is Ok);
    conflict_blocks_are_marked(content);
    let blocks = conflict_blocks(content)->Ok_0;
    let b = blocks[block_index];
    assert(is_marked(content, b));
    let (i, j1, j2, j3) = choose|a: int, j1: int, j2: int, j3: int| #[trigger] block_marked(content, b, a, j1, j2, j3);
    assert(marks_block(content, i, j1, j2, j3));
}

/// A block of a well-marked file is resolved whenever the expected
/// fingerprint is that of its marked text; a fingerprint of other text, or
/// an index past the last block, is refused as a conflict.
pub proof fn blocks_resolve_exactly_when_unchanged(
    content: Seq<char>,
    block_index: int,
    expected_fingerprint: u64,
    choice: ConflictChoice,
)
    requires
        0 <= block_index,
        conflict_blocks(content) is Ok,
    ensures
        ({
            let blocks = conflict_blocks(content)->Ok_0;
            &&& block_index < blocks.len() && expected_fingerprint == text_fingerprint(
                content.subrange(blocks[block_index].start, blocks[block_index].end),
            ) ==> resolution(content, block_index, expected_fingerprint, choice) is Ok
            &&& (block_index >= blocks.len() || expected_fingerprint != text_fingerprint(
                content.subrange(blocks[block_index].start, blocks[block_index].end),
            )) ==> resolution(content, block_index, expected_fingerprint, choice) == Err::<(Seq<char>, bool), GitErrorCode>(
                GitErrorCode::Conflict,
            )
        }),
{
}

} // verus!
