//! The rows of the read-only unified diff view: one row per changed or
//! unchanged line, with long unchanged stretches folded away.
use vstd::prelude::*;
use crate::text::{chars_of, string_from_chars};

verus! {

#[derive(Clone, Copy, Debug, PartialEq, Eq, Structural)]
pub enum DiffLineKind {
    Equal,
    Delete,
    Insert,
}

/// A piece of a line's text; `emphasized` marks the part that changed
/// within the line.
#[derive(Debug, PartialEq, Eq)]
pub struct DiffSegment {
    pub text: String,
    pub emphasized: bool,
}

/// A syntax-highlighted piece of a line, with its highlight class.
#[derive(Debug, PartialEq, Eq)]
pub struct DiffToken {
    pub text: String,
    pub tag: Option<String>,
}

#[derive(Debug, PartialEq, Eq)]
pub struct DiffLine {
    pub kind: DiffLineKind,
    pub old_line: Option<usize>,
    pub new_line: Option<usize>,
    pub segments: Vec<DiffSegment>,
    pub tokens: Vec<DiffToken>,
}

#[derive(Debug, PartialEq, Eq)]
pub enum DiffRow {
    Line(DiffLine),
    Fold { id: usize, lines: Vec<DiffLine> },
}

/// One line of the line diff between two texts, with the inline pass's
/// emphasis: its kind, its index on each side, and its text in pieces.
#[derive(Debug, PartialEq, Eq)]
pub struct LineChange {
    pub kind: DiffLineKind,
    pub old_index: Option<usize>,
    pub new_index: Option<usize>,
    pub segments: Vec<DiffSegment>,
}

pub ghost struct SegmentView {
    pub text: Seq<char>,
    pub emphasized: bool,
}

pub ghost struct TokenView {
    pub text: Seq<char>,
    pub tag: Option<Seq<char>>,
}

pub ghost struct LineView {
    pub kind: DiffLineKind,
    pub old_line: Option<usize>,
    pub new_line: Option<usize>,
    pub segments: Seq<SegmentView>,
    pub tokens: Seq<TokenView>,
}

pub ghost enum RowView {
    Line(LineView),
    Fold(usize, Seq<LineView>),
}

pub ghost struct ChangeView {
    pub kind: DiffLineKind,
    pub old_index: Option<usize>,
    pub new_index: Option<usize>,
    pub segments: Seq<SegmentView>,
}

pub open spec fn segment_view(s: DiffSegment) -> SegmentView {
    SegmentView { text: s.text@, emphasized: s.emphasized }
}

pub open spec fn segments_view(v: Seq<DiffSegment>) -> Seq<SegmentView> {
    v.map_values(|s: DiffSegment| segment_view(s))
}

pub open spec fn token_view(t: DiffToken) -> TokenView {
    TokenView {
        text: t.text@,
        tag: match t.tag {
            Some(tag) => Some(tag@),
            None => None,
        },
    }
}

pub open spec fn tokens_view(v: Seq<DiffToken>) -> Seq<TokenView> {
    v.map_values(|t: DiffToken| token_view(t))
}

pub open spec fn token_lines_view(v: Seq<Vec<DiffToken>>) -> Seq<Seq<TokenView>> {
    v.map_values(|l: Vec<DiffToken>| tokens_view(l@))
}

pub open spec fn line_view(l: DiffLine) -> LineView {
    LineView {
        kind: l.kind,
        old_line: l.old_line,
        new_line: l.new_line,
        segments: segments_view(l.segments@),
        tokens: tokens_view(l.tokens@),
    }
}

pub open spec fn lines_view(v: Seq<DiffLine>) -> Seq<LineView> {
    v.map_values(|l: DiffLine| line_view(l))
}

pub open spec fn row_view(r: DiffRow) -> RowView {
    match r {
        DiffRow::Line(l) => RowView::Line(line_view(l)),
        DiffRow::Fold { id, lines } => RowView::Fold(id, lines_view(lines@)),
    }
}

pub open spec fn rows_view(v: Seq<DiffRow>) -> Seq<RowView> {
    v.map_values(|r: DiffRow| row_view(r))
}

pub open spec fn change_view(c: LineChange) -> ChangeView {
    ChangeView { kind: c.kind, old_index: c.old_index, new_index: c.new_index, segments: segments_view(c.segments@) }
}

pub open spec fn changes_view(v: Seq<LineChange>) -> Seq<ChangeView> {
    v.map_values(|c: LineChange| change_view(c))
}

fn copy_segments(v: &Vec<DiffSegment>) -> (r: Vec<DiffSegment>)
    ensures
        segments_view(r@) == segments_view(v@),
{
    let mut out: Vec<DiffSegment> = Vec::new();
    let mut k: usize = 0;
    while k < v.len()
        invariant
            k <= v@.len(),
            out@.len() == k,
            forall|i: int| 0 <= i < k ==> #[trigger] segment_view(out@[i]) == segment_view(v@[i]),
        decreases v@.len() - k,
    {
        out.push(DiffSegment { text: v[k].text.clone(), emphasized: v[k].emphasized });
        k = k + 1;
    }
    proof {
        assert(segments_view(out@) =~= segments_view(v@));
    }
    out
}

fn copy_tokens(v: &Vec<DiffToken>) -> (r: Vec<DiffToken>)
    ensures
        tokens_view(r@) == tokens_view(v@),
{
    let mut out: Vec<DiffToken> = Vec::new();
    let mut k: usize = 0;
    while k < v.len()
        invariant
            k <= v@.len(),
            out@.len() == k,
            forall|i: int| 0 <= i < k ==> #[trigger] token_view(out@[i]) == token_view(v@[i]),
        decreases v@.len() - k,
    {
        let tag = match &v[k].tag {
            Some(t) => Some(t.clone()),
            None => None,
        };
        out.push(DiffToken { text: v[k].text.clone(), tag });
        k = k + 1;
    }
    proof {
        assert(tokens_view(out@) =~= tokens_view(v@));
    }
    out
}

impl DiffLine {
    /// A copy of the line.
    pub fn copy(&self) -> (r: DiffLine)
        ensures
            line_view(r) == line_view(*self),
    {
        DiffLine {
            kind: self.kind,
            old_line: self.old_line,
            new_line: self.new_line,
            segments: copy_segments(&self.segments),
            tokens: copy_tokens(&self.tokens),
        }
    }
}

/// The pieces of a line without its line ending (`\n` or `\r\n`), and
/// without a last piece that held nothing else.
pub open spec fn line_ending_trimmed(segments: Seq<SegmentView>) -> Seq<SegmentView> {
    if segments.len() == 0 {
        segments
    } else {
        let last = segments.last();
        let newline = last.text.len() > 0 && last.text.last() == '\n';
        let first_cut = if newline {
            last.text.drop_last()
        } else {
            last.text
        };
        let text = if newline && first_cut.len() > 0 && first_cut.last() == '\r' {
            first_cut.drop_last()
        } else {
            first_cut
        };
        let updated = segments.update(segments.len() - 1, SegmentView { text, emphasized: last.emphasized });
        if text.len() == 0 && segments.len() > 1 {
            updated.drop_last()
        } else {
            updated
        }
    }
}

/// Drops the line ending from a line's pieces (`trim_diff_line_ending`).
pub fn trim_diff_line_ending(segments: &mut Vec<DiffSegment>)
    ensures
        segments_view(final(segments)@) == line_ending_trimmed(segments_view(old(segments)@)),
{
    let n = segments.len();
    if n == 0 {
        return;
    }
    let ghost before = segments_view(segments@);
    let mut chars = chars_of(segments[n - 1].text.as_str());
    let newline = chars.len() > 0 && chars[chars.len() - 1] == '\n';
    if newline {
        chars.pop();
        if chars.len() > 0 && chars[chars.len() - 1] == '\r' {
            chars.pop();
        }
    }
    let emphasized = segments[n - 1].emphasized;
    let empty = chars.len() == 0;
    let ghost text = chars@;
    segments.set(n - 1, DiffSegment { text: string_from_chars(&chars), emphasized });
    proof {
        assert(segments_view(segments@) =~= before.update(n - 1, SegmentView { text, emphasized }));
        assert(before.last() == segment_view(old(segments)@[n - 1]));
    }
    if empty && n > 1 {
        let ghost updated = segments_view(segments@);
        segments.pop();
        proof {
            assert(segments_view(segments@) =~= updated.drop_last());
        }
    }
}

/// The highlighted pieces of line `index`, or none.
pub open spec fn tokens_at(tokens: Seq<Seq<TokenView>>, index: Option<usize>) -> Seq<TokenView> {
    match index {
        Some(i) => if i < tokens.len() {
            tokens[i as int]
        } else {
            Seq::empty()
        },
        None => Seq::empty(),
    }
}

/// A line number for display: the index plus the fragment's offset, from 1.
pub open spec fn shown_line(index: Option<usize>, offset: usize) -> Option<usize> {
    match index {
        Some(i) => Some((i + offset + 1) as usize),
        None => None,
    }
}

/// The row line for one change: numbered from the offsets, its ending
/// trimmed, and highlighted from the side it belongs to.
pub open spec fn line_of(
    change: ChangeView,
    old_tokens: Seq<Seq<TokenView>>,
    new_tokens: Seq<Seq<TokenView>>,
    old_offset: usize,
    new_offset: usize,
) -> LineView {
    LineView {
        kind: change.kind,
        old_line: shown_line(change.old_index, old_offset),
        new_line: shown_line(change.new_index, new_offset),
        segments: line_ending_trimmed(change.segments),
        tokens: if change.kind == DiffLineKind::Delete {
            tokens_at(old_tokens, change.old_index)
        } else {
            tokens_at(new_tokens, change.new_index)
        },
    }
}

/// Whether every index of every change fits with its offset.
pub open spec fn offsets_fit(changes: Seq<ChangeView>, old_offset: usize, new_offset: usize) -> bool {
    forall|i: int|
        0 <= i < changes.len() ==> (#[trigger] changes[i].old_index matches Some(x) ==> x + old_offset + 1
            <= usize::MAX) && (changes[i].new_index matches Some(y) ==> y + new_offset + 1 <= usize::MAX)
}

fn tokens_for(tokens: &Vec<Vec<DiffToken>>, index: Option<usize>) -> (r: Vec<DiffToken>)
    ensures
        tokens_view(r@) == tokens_at(token_lines_view(tokens@), index),
{
    match index {
        Some(i) => if i < tokens.len() {
            copy_tokens(&tokens[i])
        } else {
            Vec::new()
        },
        None => Vec::new(),
    }
}

/// The row lines for a line diff's changes.
pub fn diff_lines(
    changes: &Vec<LineChange>,
    old_tokens: &Vec<Vec<DiffToken>>,
    new_tokens: &Vec<Vec<DiffToken>>,
    old_line_offset: usize,
    new_line_offset: usize,
) -> (r: Vec<DiffLine>)
    requires
        offsets_fit(changes_view(changes@), old_line_offset, new_line_offset),
    ensures
        lines_view(r@) == changes_view(changes@).map_values(
            |c: ChangeView|
                line_of(c, token_lines_view(old_tokens@), token_lines_view(new_tokens@), old_line_offset, new_line_offset),
        ),
{
    let ghost cv = changes_view(changes@);
    let ghost ot = token_lines_view(old_tokens@);
    let ghost nt = token_lines_view(new_tokens@);
    let mut out: Vec<DiffLine> = Vec::new();
    let mut k: usize = 0;
    while k < changes.len()
        invariant
            k <= changes@.len(),
            cv == changes_view(changes@),
            ot == token_lines_view(old_tokens@),
            nt == token_lines_view(new_tokens@),
            offsets_fit(cv, old_line_offset, new_line_offset),
            out@.len() == k,
            forall|i: int|
                0 <= i < k ==> #[trigger] line_view(out@[i]) == line_of(cv[i], ot, nt, old_line_offset, new_line_offset),
        decreases changes@.len() - k,
    {
        let change = &changes[k];
        proof {
            assert(cv[k as int] == change_view(changes@[k as int]));
            assert(cv[k as int].old_index == change.old_index);
            assert(cv[k as int].new_index == change.new_index);
        }
        let old_line = match change.old_index {
            Some(i) => Some(i + old_line_offset + 1),
            None => None,
        };
        let new_line = match change.new_index {
            Some(i) => Some(i + new_line_offset + 1),
            None => None,
        };
        let mut segments = copy_segments(&change.segments);
        trim_diff_line_ending(&mut segments);
        let tokens = if change.kind == DiffLineKind::Delete {
            tokens_for(old_tokens, change.old_index)
        } else {
            tokens_for(new_tokens, change.new_index)
        };
        out.push(DiffLine { kind: change.kind, old_line, new_line, segments, tokens });
        k = k + 1;
    }
    proof {
        assert(lines_view(out@) =~= cv.map_values(
            |c: ChangeView| line_of(c, ot, nt, old_line_offset, new_line_offset),
        ));
    }
    out
}


/// Unchanged lines kept visible on each side of a fold.
pub const FOLD_MARGIN: usize = 4;

/// Shortest stretch of unchanged lines that is folded.
pub const MIN_FOLD: usize = 12;

/// The end of the stretch of unchanged lines that starts at `i`.
pub open spec fn equal_run_end(lines: Seq<LineView>, i: int) -> int
    decreases lines.len() - i,
{
    if i < 0 || i >= lines.len() {
        lines.len() as int
    } else if lines[i].kind != DiffLineKind::Equal {
        i
    } else {
        equal_run_end(lines, i + 1)
    }
}

pub proof fn lemma_equal_run_end(lines: Seq<LineView>, i: int)
    requires
        0 <= i <= lines.len(),
    ensures
        i <= equal_run_end(lines, i) <= lines.len(),
        forall|j: int| i <= j < equal_run_end(lines, i) ==> #[trigger] lines[j].kind == DiffLineKind::Equal,
        equal_run_end(lines, i) < lines.len() ==> lines[equal_run_end(lines, i)].kind != DiffLineKind::Equal,
    decreases lines.len() - i,
{
    if i < lines.len() && lines[i].kind == DiffLineKind::Equal {
        lemma_equal_run_end(lines, i + 1);
    }
}

pub open spec fn as_line_rows(lines: Seq<LineView>) -> Seq<RowView> {
    lines.map_values(|l: LineView| RowView::Line(l))
}

/// The rows for the lines from `i` on: changed lines as they are, short
/// stretches of unchanged lines as they are, and long ones folded between
/// a margin of visible lines on each side; folds are numbered from
/// `fold_id`.
pub open spec fn collapsed_from(lines: Seq<LineView>, i: int, fold_id: usize) -> Seq<RowView>
    decreases lines.len() - i,
{
    if i < 0 || i >= lines.len() {
        Seq::empty()
    } else if lines[i].kind != DiffLineKind::Equal {
        seq![RowView::Line(lines[i])] + collapsed_from(lines, i + 1, fold_id)
    } else {
        let end = equal_run_end(lines, i);
        proof {
            lemma_equal_run_end(lines, i);
            lemma_equal_run_end(lines, i + 1);
        }
        if end - i < MIN_FOLD {
            as_line_rows(lines.subrange(i, end)) + collapsed_from(lines, end, fold_id)
        } else {
            as_line_rows(lines.subrange(i, i + FOLD_MARGIN)) + seq![
                RowView::Fold(fold_id, lines.subrange(i + FOLD_MARGIN, end - FOLD_MARGIN)),
            ] + as_line_rows(lines.subrange(end - FOLD_MARGIN, end)) + collapsed_from(
                lines,
                end,
                (fold_id + 1) as usize,
            )
        }
    }
}

fn copy_lines(lines: &Vec<DiffLine>, from: usize, to: usize) -> (r: Vec<DiffLine>)
    requires
        from <= to <= lines@.len(),
    ensures
        lines_view(r@) == lines_view(lines@).subrange(from as int, to as int),
{
    let mut out: Vec<DiffLine> = Vec::new();
    let mut k: usize = from;
    while k < to
        invariant
            from <= k <= to,
            to <= lines@.len(),
            out@.len() == k - from,
            forall|i: int| 0 <= i < k - from ==> #[trigger] line_view(out@[i]) == line_view(lines@[from + i]),
        decreases to - k,
    {
        out.push(lines[k].copy());
        k = k + 1;
    }
    proof {
        assert(lines_view(out@) =~= lines_view(lines@).subrange(from as int, to as int));
    }
    out
}

fn push_line_rows(rows: &mut Vec<DiffRow>, lines: &Vec<DiffLine>, from: usize, to: usize)
    requires
        from <= to <= lines@.len(),
    ensures
        rows_view(final(rows)@) == rows_view(old(rows)@) + as_line_rows(lines_view(lines@).subrange(from as int, to as int)),
{
    let ghost start = rows_view(rows@);
    let mut k: usize = from;
    while k < to
        invariant
            from <= k <= to,
            to <= lines@.len(),
            rows_view(rows@) == start + as_line_rows(lines_view(lines@).subrange(from as int, k as int)),
        decreases to - k,
    {
        let ghost before = rows_view(rows@);
        rows.push(DiffRow::Line(lines[k].copy()));
        proof {
            assert(rows_view(rows@) =~= before.push(RowView::Line(line_view(lines@[k as int]))));
            assert(as_line_rows(lines_view(lines@).subrange(from as int, k + 1)) =~= as_line_rows(
                lines_view(lines@).subrange(from as int, k as int),
            ).push(RowView::Line(line_view(lines@[k as int]))));
        }
        k = k + 1;
    }
}

/// Folds long stretches of unchanged lines (`collapse_unchanged_lines`).
pub fn collapse_unchanged_lines(lines: &Vec<DiffLine>) -> (r: Vec<DiffRow>)
    ensures
        rows_view(r@) == collapsed_from(lines_view(lines@), 0, 0),
{
    let ghost lv = lines_view(lines@);
    let mut rows: Vec<DiffRow> = Vec::new();
    let mut index: usize = 0;
    let mut fold_id: usize = 0;
    proof {
        assert(rows_view(rows@) + collapsed_from(lv, 0, 0) =~= collapsed_from(lv, 0, 0));
    }
    while index < lines.len()
        invariant
            index <= lines@.len(),
            fold_id <= index,
            lv == lines_view(lines@),
            rows_view(rows@) + collapsed_from(lv, index as int, fold_id) == collapsed_from(lv, 0, 0),
        decreases lines@.len() - index,
    {
        let ghost before = rows_view(rows@);
        proof {
            assert(lv[index as int] == line_view(lines@[index as int]));
        }
        if lines[index].kind != DiffLineKind::Equal {
            rows.push(DiffRow::Line(lines[index].copy()));
            proof {
                assert(rows_view(rows@) =~= before + seq![RowView::Line(lv[index as int])]);
                assert(rows_view(rows@) + collapsed_from(lv, index + 1, fold_id) =~= before + collapsed_from(
                    lv,
                    index as int,
                    fold_id,
                ));
            }
            index = index + 1;
        } else {
            let start = index;
            proof {
                lemma_equal_run_end(lv, start as int);
            }
            while index < lines.len() && lines[index].kind == DiffLineKind::Equal
                invariant
                    start <= index <= lines@.len(),
                    lv == lines_view(lines@),
                    start < lines@.len(),
                    lv[start as int].kind == DiffLineKind::Equal,
                    equal_run_end(lv, start as int) == equal_run_end(lv, index as int),
                decreases lines@.len() - index,
            {
                proof {
                    assert(lv[index as int] == line_view(lines@[index as int]));
                }
                index = index + 1;
            }
            proof {
                if index < lines@.len() {
                    assert(lv[index as int] == line_view(lines@[index as int]));
                }
                assert(equal_run_end(lv, index as int) == index);
                assert(index > start);
            }
            if index - start < MIN_FOLD {
                push_line_rows(&mut rows, lines, start, index);
                proof {
                    assert(rows_view(rows@) + collapsed_from(lv, index as int, fold_id) =~= before + collapsed_from(
                        lv,
                        start as int,
                        fold_id,
                    ));
                }
            } else {
                push_line_rows(&mut rows, lines, start, start + FOLD_MARGIN);
                let ghost mid = rows_view(rows@);
                let folded = copy_lines(lines, start + FOLD_MARGIN, index - FOLD_MARGIN);
                let ghost fv = lines_view(folded@);
                rows.push(DiffRow::Fold { id: fold_id, lines: folded });
                proof {
                    assert(rows_view(rows@) =~= mid.push(RowView::Fold(fold_id, fv)));
                }
                fold_id = fold_id + 1;
                push_line_rows(&mut rows, lines, index - FOLD_MARGIN, index);
                proof {
                    assert(rows_view(rows@) + collapsed_from(lv, index as int, fold_id) =~= before + collapsed_from(
                        lv,
                        start as int,
                        (fold_id - 1) as usize,
                    ));
                }
            }
        }
    }
    proof {
        assert(rows_view(rows@) + collapsed_from(lv, index as int, fold_id) =~= rows_view(rows@));
    }
    rows
}

/// The lines a row stands for: its own line, or those a fold hides.
pub open spec fn row_lines(row: RowView) -> Seq<LineView> {
    match row {
        RowView::Line(l) => seq![l],
        RowView::Fold(_, ls) => ls,
    }
}

/// The lines of all rows with every fold opened.
pub open spec fn expanded(rows: Seq<RowView>) -> Seq<LineView>
    decreases rows.len(),
{
    if rows.len() == 0 {
        Seq::empty()
    } else {
        expanded(rows.drop_last()) + row_lines(rows.last())
    }
}

proof fn lemma_expanded_concat(a: Seq<RowView>, b: Seq<RowView>)
    ensures
        expanded(a + b) == expanded(a) + expanded(b),
    decreases b.len(),
{
    if b.len() == 0 {
        assert(a + b =~= a);
        assert(expanded(a) + expanded(b) =~= expanded(a));
    } else {
        lemma_expanded_concat(a, b.drop_last());
        assert((a + b).drop_last() =~= a + b.drop_last());
        assert((a + b).last() == b.last());
        assert(expanded(a + b) =~= expanded(a) + expanded(b));
    }
}

proof fn lemma_expanded_lines(lines: Seq<LineView>)
    ensures
        expanded(as_line_rows(lines)) == lines,
    decreases lines.len(),
{
    if lines.len() > 0 {
        lemma_expanded_lines(lines.drop_last());
        assert(as_line_rows(lines).drop_last() =~= as_line_rows(lines.drop_last()));
        assert(expanded(as_line_rows(lines)) =~= lines);
    } else {
        assert(as_line_rows(lines) =~= Seq::<RowView>::empty());
    }
}

proof fn lemma_collapsed_expands(lines: Seq<LineView>, i: int, fold_id: usize)
    requires
        0 <= i <= lines.len(),
    ensures
        expanded(collapsed_from(lines, i, fold_id)) == lines.subrange(i, lines.len() as int),
    decreases lines.len() - i,
{
    if i == lines.len() {
        assert(expanded(Seq::<RowView>::empty()) =~= lines.subrange(i, lines.len() as int));
    } else if lines[i].kind != DiffLineKind::Equal {
        lemma_collapsed_expands(lines, i + 1, fold_id);
        let head = seq![RowView::Line(lines[i])];
        lemma_expanded_concat(head, collapsed_from(lines, i + 1, fold_id));
        assert(head.drop_last() =~= Seq::<RowView>::empty());
        assert(expanded(head.drop_last()) =~= Seq::<LineView>::empty());
        assert(expanded(head) =~= seq![lines[i]]);
        assert(lines.subrange(i, lines.len() as int) =~= seq![lines[i]] + lines.subrange(i + 1, lines.len() as int));
    } else {
        lemma_equal_run_end(lines, i);
        lemma_equal_run_end(lines, i + 1);
        let end = equal_run_end(lines, i);
        lemma_collapsed_expands(lines, end, fold_id);
        lemma_collapsed_expands(lines, end, (fold_id + 1) as usize);
        if end - i < MIN_FOLD {
            let head = as_line_rows(lines.subrange(i, end));
            lemma_expanded_concat(head, collapsed_from(lines, end, fold_id));
            lemma_expanded_lines(lines.subrange(i, end));
        } else {
            let a = as_line_rows(lines.subrange(i, i + FOLD_MARGIN));
            let f = seq![RowView::Fold(fold_id, lines.subrange(i + FOLD_MARGIN, end - FOLD_MARGIN))];
            let c = as_line_rows(lines.subrange(end - FOLD_MARGIN, end));
            let rest = collapsed_from(lines, end, (fold_id + 1) as usize);
            lemma_expanded_concat(a + f + c, rest);
            lemma_expanded_concat(a + f, c);
            lemma_expanded_concat(a, f);
            lemma_expanded_lines(lines.subrange(i, i + FOLD_MARGIN));
            lemma_expanded_lines(lines.subrange(end - FOLD_MARGIN, end));
            assert(f.drop_last() =~= Seq::<RowView>::empty());
            assert(expanded(f.drop_last()) =~= Seq::<LineView>::empty());
            assert(expanded(f) =~= lines.subrange(i + FOLD_MARGIN, end - FOLD_MARGIN));
        }
        assert(expanded(collapsed_from(lines, i, fold_id)) =~= lines.subrange(i, lines.len() as int));
    }
}

/// Folding hides no line and reorders none: opening every fold gives back
/// the diff's lines.
pub proof fn folding_keeps_every_line(lines: Seq<LineView>)
    ensures
        expanded(collapsed_from(lines, 0, 0)) == lines,
{
    lemma_collapsed_expands(lines, 0, 0);
    assert(lines.subrange(0, lines.len() as int) =~= lines);
}

/// The line diff of two texts with its inline emphasis, as the `similar`
/// crate computes it.
pub uninterp spec fn text_line_changes(original: Seq<char>, current: Seq<char>) -> Seq<ChangeView>;

/// `similar::TextDiff::from_lines(original, current)`, walked op by op
/// with `iter_inline_changes_deadline(op, None)`: each line's kind, its
/// index on each side and its pieces with their emphasis, named by
/// `text_line_changes`. An index counts lines of its text, and every line
/// holds at least one character, so it is below that text's length.
#[verifier::external_body]
fn line_changes(original: &str, current: &str) -> (r: Vec<LineChange>)
    ensures
        changes_view(r@) == text_line_changes(original@, current@),
        forall|i: int|
            0 <= i < r@.len() ==> (#[trigger] r@[i].old_index matches Some(x) ==> x < original@.len()) && (
            r@[i].new_index matches Some(y) ==> y < current@.len()),
{
    let diff = similar::TextDiff::from_lines(original, current);
    let mut out = Vec::new();
    for op in diff.ops() {
        for change in diff.iter_inline_changes_deadline(op, None) {
            let kind = match change.tag() {
                similar::ChangeTag::Equal => DiffLineKind::Equal,
                similar::ChangeTag::Delete => DiffLineKind::Delete,
                similar::ChangeTag::Insert => DiffLineKind::Insert,
            };
            let segments = change.iter_strings_lossy().map(|(emphasized, text)| DiffSegment { text: text.into_owned(), emphasized }).collect();
            out.push(LineChange { kind, old_index: change.old_index(), new_index: change.new_index(), segments });
        }
    }
    out
}

/// The rows of the diff view for two texts: none when they are equal,
/// otherwise one per line of their line diff, folded when asked.
pub open spec fn diff_rows(
    original: Seq<char>,
    current: Seq<char>,
    old_tokens: Seq<Seq<TokenView>>,
    new_tokens: Seq<Seq<TokenView>>,
    old_offset: usize,
    new_offset: usize,
    collapse_unchanged: bool,
) -> Seq<RowView> {
    if original == current {
        Seq::empty()
    } else {
        let lines = text_line_changes(original, current).map_values(
            |c: ChangeView| line_of(c, old_tokens, new_tokens, old_offset, new_offset),
        );
        if collapse_unchanged {
            collapsed_from(lines, 0, 0)
        } else {
            as_line_rows(lines)
        }
    }
}

/// The rows of the diff view (`unified_diff_rows`). `old_tokens` and
/// `new_tokens` hold each text's highlighted lines; line numbers start
/// after the offsets.
pub fn unified_diff_rows(
    original: &str,
    current: &str,
    old_tokens: &Vec<Vec<DiffToken>>,
    new_tokens: &Vec<Vec<DiffToken>>,
    old_line_offset: usize,
    new_line_offset: usize,
    collapse_unchanged: bool,
) -> (r: Vec<DiffRow>)
    requires
        old_line_offset + original@.len() <= usize::MAX,
        new_line_offset + current@.len() <= usize::MAX,
    ensures
        rows_view(r@) == diff_rows(
            original@,
            current@,
            token_lines_view(old_tokens@),
            token_lines_view(new_tokens@),
            old_line_offset,
            new_line_offset,
            collapse_unchanged,
        ),
{
    let same = original.to_owned() == current.to_owned();
    if same {
        let rows: Vec<DiffRow> = Vec::new();
        proof {
            assert(rows_view(rows@) =~= Seq::<RowView>::empty());
        }
        return rows;
    }
    let changes = line_changes(original, current);
    proof {
        assert forall|i: int| 0 <= i < changes_view(changes@).len() implies (#[trigger] changes_view(changes@)[i].old_index matches Some(
            x,
        ) ==> x + old_line_offset + 1 <= usize::MAX) && (changes_view(changes@)[i].new_index matches Some(y) ==> y
            + new_line_offset + 1 <= usize::MAX) by {
            assert(changes_view(changes@)[i] == change_view(changes@[i]));
            assert(changes@[i].old_index == changes@[i].old_index);
        }
    }
    let lines = diff_lines(&changes, old_tokens, new_tokens, old_line_offset, new_line_offset);
    if collapse_unchanged {
        collapse_unchanged_lines(&lines)
    } else {
        let mut rows: Vec<DiffRow> = Vec::new();
        proof {
            assert(rows_view(rows@) =~= Seq::<RowView>::empty());
        }
        push_line_rows(&mut rows, &lines, 0, lines.len());
        proof {
            assert(lines_view(lines@).subrange(0, lines@.len() as int) =~= lines_view(lines@));
        }
        rows
    }
}

/// The lines of a text as unhighlighted tokens, one token a line: what the
/// view shows when a text cannot be highlighted.
pub fn plain_diff_tokens(source: &str) -> (r: Vec<Vec<DiffToken>>)
    ensures
        token_lines_view(r@) == crate::text::split_char(source@, '\n').map_values(
            |line: Seq<char>| seq![TokenView { text: line, tag: None }],
        ),
{
    let lines = crate::text::split_on(&chars_of(source), '\n');
    let ghost lv = lines@.map_values(|x: Vec<char>| x@);
    let mut out: Vec<Vec<DiffToken>> = Vec::new();
    let mut k: usize = 0;
    while k < lines.len()
        invariant
            k <= lines@.len(),
            lv == lines@.map_values(|x: Vec<char>| x@),
            out@.len() == k,
            forall|i: int| 0 <= i < k ==> #[trigger] tokens_view(out@[i]@) == seq![TokenView { text: lv[i], tag: None }],
        decreases lines@.len() - k,
    {
        let token = DiffToken { text: string_from_chars(&lines[k]), tag: None };
        let mut line: Vec<DiffToken> = Vec::new();
        line.push(token);
        proof {
            assert(tokens_view(line@) =~= seq![TokenView { text: lv[k as int], tag: None }]);
        }
        out.push(line);
        k = k + 1;
    }
    proof {
        assert(token_lines_view(out@) =~= lv.map_values(|line: Seq<char>| seq![TokenView { text: line, tag: None }]));
    }
    out
}
} // verus!
