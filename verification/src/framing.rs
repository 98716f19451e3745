//! Bounded line framing for newline-delimited JSON records.
use vstd::prelude::*;

verus! {

/// One framed record: a line without its line ending, or a record that was
/// longer than the limit and was discarded.
#[derive(Debug, PartialEq, Eq)]
pub enum FramedLine {
    Line(Vec<u8>),
    Oversized,
}

/// A framed record as bytes.
pub ghost enum FrameSpec {
    Line(Seq<u8>),
    Oversized,
}

impl View for FramedLine {
    type V = FrameSpec;

    open spec fn view(&self) -> FrameSpec {
        match self {
            FramedLine::Line(bytes) => FrameSpec::Line(bytes@),
            FramedLine::Oversized => FrameSpec::Oversized,
        }
    }
}

/// Splits a byte stream into records at line feeds, dropping a carriage return
/// before the line feed, skipping empty records, and replacing records longer
/// than the limit with one `Oversized` marker.
pub struct BoundedLfFramer {
    limit: usize,
    record: Vec<u8>,
    oversized: bool,
}

/// The framer's state: its limit, the bytes of the record in progress and
/// whether that record already went over the limit.
pub ghost struct FramerState {
    pub limit: nat,
    pub record: Seq<u8>,
    pub oversized: bool,
}

impl View for BoundedLfFramer {
    type V = FramerState;

    closed spec fn view(&self) -> FramerState {
        FramerState { limit: self.limit as nat, record: self.record@, oversized: self.oversized }
    }
}

/// The record in progress ends.
pub open spec fn complete_spec(s: FramerState) -> (FramerState, Option<FrameSpec>) {
    if s.oversized {
        (FramerState { record: Seq::empty(), oversized: false, ..s }, Some(FrameSpec::Oversized))
    } else {
        let line = if s.record.len() > 0 && s.record.last() == 13u8 {
            s.record.drop_last()
        } else {
            s.record
        };
        if line.len() == 0 {
            (FramerState { record: Seq::empty(), ..s }, None)
        } else {
            (FramerState { record: Seq::empty(), ..s }, Some(FrameSpec::Line(line)))
        }
    }
}

/// One byte arrives.
pub open spec fn step_spec(s: FramerState, byte: u8) -> (FramerState, Option<FrameSpec>) {
    if byte == 10u8 {
        complete_spec(s)
    } else if s.oversized {
        (s, None)
    } else if s.record.len() >= s.limit {
        (FramerState { record: Seq::empty(), oversized: true, ..s }, None)
    } else {
        (FramerState { record: s.record.push(byte), ..s }, None)
    }
}

pub open spec fn frames_of(f: Option<FrameSpec>) -> Seq<FrameSpec> {
    match f {
        Some(frame) => seq![frame],
        None => Seq::empty(),
    }
}

/// A chunk of bytes arrives: the state after it and the records it completed.
pub open spec fn push_spec(s: FramerState, chunk: Seq<u8>) -> (FramerState, Seq<FrameSpec>)
    decreases chunk.len(),
{
    if chunk.len() == 0 {
        (s, Seq::empty())
    } else {
        let (mid, frames) = push_spec(s, chunk.drop_last());
        let (next, frame) = step_spec(mid, chunk.last());
        (next, frames + frames_of(frame))
    }
}

/// The framer's invariant: the record in progress fits the limit, holds no
/// line feed, and is empty while an oversized record is being discarded.
pub open spec fn framer_wf(s: FramerState) -> bool {
    &&& s.record.len() <= s.limit
    &&& !s.record.contains(10u8)
    &&& (s.oversized ==> s.record.len() == 0)
}

pub open spec fn frame_ok(limit: nat, f: FrameSpec) -> bool {
    match f {
        FrameSpec::Line(line) => 0 < line.len() <= limit && !line.contains(10u8),
        FrameSpec::Oversized => true,
    }
}

impl BoundedLfFramer {
    pub fn new(limit: usize) -> (r: Self)
        ensures
            r@ == (FramerState { limit: limit as nat, record: Seq::empty(), oversized: false }),
    {
        BoundedLfFramer { limit, record: Vec::new(), oversized: false }
    }

    /// Frames the bytes of `chunk`, returning the records it completed.
    pub fn push(&mut self, chunk: &[u8]) -> (frames: Vec<FramedLine>)
        ensures
            (final(self)@, frames@.map_values(|f: FramedLine| f@)) == push_spec(old(self)@, chunk@),
    {
        let ghost start = self@;
        let mut frames: Vec<FramedLine> = Vec::new();
        let mut i: usize = 0;
        proof {
            assert(chunk@.take(0) =~= Seq::<u8>::empty());
            assert(frames@.map_values(|f: FramedLine| f@) =~= Seq::<FrameSpec>::empty());
        }
        while i < chunk.len()
            invariant
                i <= chunk@.len(),
                (self@, frames@.map_values(|f: FramedLine| f@)) == push_spec(
                    start,
                    chunk@.take(i as int),
                ),
            decreases chunk@.len() - i,
        {
            let byte = chunk[i];
            let ghost before = frames@.map_values(|f: FramedLine| f@);
            let ghost mid = self@;
            proof {
                assert(chunk@.take(i + 1).drop_last() =~= chunk@.take(i as int));
                assert(chunk@.take(i + 1).last() == byte);
            }
            if byte == 10u8 {
                if let Some(frame) = self.complete() {
                    frames.push(frame);
                    proof {
                        assert(frames@.map_values(|f: FramedLine| f@) =~= before + frames_of(
                            step_spec(mid, byte).1,
                        ));
                    }
                } else {
                    proof {
                        assert(before + frames_of(step_spec(mid, byte).1) =~= before);
                    }
                }
            } else {
                if !self.oversized {
                    if self.record.len() >= self.limit {
                        self.record.clear();
                        self.oversized = true;
                    } else {
                        self.record.push(byte);
                    }
                }
                proof {
                    assert(self@.record =~= step_spec(mid, byte).0.record);
                    assert(before + frames_of(step_spec(mid, byte).1) =~= before);
                }
            }
            i = i + 1;
        }
        proof {
            assert(chunk@.take(i as int) =~= chunk@);
        }
        frames
    }

    /// The input ended: completes the record in progress.
    pub fn finish(&mut self) -> (r: Option<FramedLine>)
        ensures
            (final(self)@, match r {
                Some(f) => Some(f@),
                None => None,
            }) == complete_spec(old(self)@),
    {
        self.complete()
    }

    fn complete(&mut self) -> (r: Option<FramedLine>)
        ensures
            (final(self)@, match r {
                Some(f) => Some(f@),
                None => None,
            }) == complete_spec(old(self)@),
    {
        if self.oversized {
            self.oversized = false;
            self.record.clear();
            return Some(FramedLine::Oversized);
        }
        let n = self.record.len();
        if n > 0 && self.record[n - 1] == 13u8 {
            self.record.pop();
        }
        if self.record.len() == 0 {
            proof {
                assert(self.record@ =~= Seq::<u8>::empty());
            }
            return None;
        }
        let mut line: Vec<u8> = Vec::new();
        std::mem::swap(&mut line, &mut self.record);
        Some(FramedLine::Line(line))
    }
}

proof fn lemma_step_wf(s: FramerState, byte: u8)
    requires
        framer_wf(s),
    ensures
        framer_wf(step_spec(s, byte).0),
        step_spec(s, byte).0.limit == s.limit,
        step_spec(s, byte).1 matches Some(f) ==> frame_ok(s.limit, f),
{
    if byte == 10u8 {
        if !s.oversized && s.record.len() > 0 && s.record.last() == 13u8 {
            assert forall|k: int| 0 <= k < s.record.drop_last().len() implies s.record.drop_last()[k]
                != 10u8 by {
                assert(s.record.drop_last()[k] == s.record[k]);
            }
        }
    } else if !s.oversized && s.record.len() < s.limit {
        assert forall|k: int| 0 <= k < s.record.push(byte).len() implies s.record.push(byte)[k]
            != 10u8 by {
            if k < s.record.len() {
                assert(s.record.push(byte)[k] == s.record[k]);
            }
        }
    }
}

/// Records never exceed the framer's limit and never hold a line feed, and the
/// framer keeps its invariant, however the input is split into chunks.
pub proof fn framed_lines_are_bounded(s: FramerState, chunk: Seq<u8>)
    requires
        framer_wf(s),
    ensures
        framer_wf(push_spec(s, chunk).0),
        push_spec(s, chunk).0.limit == s.limit,
        forall|k: int|
            0 <= k < push_spec(s, chunk).1.len() ==> frame_ok(s.limit, #[trigger] push_spec(s, chunk).1[k]),
    decreases chunk.len(),
{
    if chunk.len() > 0 {
        framed_lines_are_bounded(s, chunk.drop_last());
        let (mid, frames) = push_spec(s, chunk.drop_last());
        lemma_step_wf(mid, chunk.last());
        let (next, frame) = step_spec(mid, chunk.last());
        let all = frames + frames_of(frame);
        assert forall|k: int| 0 <= k < all.len() implies frame_ok(s.limit, #[trigger] all[k]) by {
            if k < frames.len() {
                assert(all[k] == frames[k]);
            }
        }
    }
}

/// Pushing two chunks one after the other frames the same records as pushing
/// their concatenation.
pub proof fn chunk_boundaries_do_not_matter(s: FramerState, a: Seq<u8>, b: Seq<u8>)
    ensures
        push_spec(s, a + b) == ({
            let (mid, first) = push_spec(s, a);
            let (end, second) = push_spec(mid, b);
            (end, first + second)
        }),
    decreases b.len(),
{
    if b.len() == 0 {
        assert(a + b =~= a);
        let (mid, first) = push_spec(s, a);
        assert(first + Seq::<FrameSpec>::empty() =~= first);
    } else {
        assert((a + b).drop_last() =~= a + b.drop_last());
        assert((a + b).last() == b.last());
        chunk_boundaries_do_not_matter(s, a, b.drop_last());
        let (mid, first) = push_spec(s, a);
        let (m2, second) = push_spec(mid, b.drop_last());
        let (end, f) = step_spec(m2, b.last());
        assert(first + second + frames_of(f) =~= first + (second + frames_of(f)));
    }
}

/// A framer with nothing pending.
pub open spec fn fresh_framer(limit: nat) -> FramerState {
    FramerState { limit, record: Seq::empty(), oversized: false }
}

/// The records one line yields, given without its line feed: `Oversized`
/// when it is longer than the limit, else the line without a final carriage
/// return, unless that leaves it empty.
pub open spec fn line_frames(limit: nat, line: Seq<u8>) -> Seq<FrameSpec> {
    if line.len() > limit {
        seq![FrameSpec::Oversized]
    } else {
        let kept = if line.len() > 0 && line.last() == 13u8 {
            line.drop_last()
        } else {
            line
        };
        if kept.len() == 0 {
            Seq::empty()
        } else {
            seq![FrameSpec::Line(kept)]
        }
    }
}

proof fn lemma_partial_line(limit: nat, line: Seq<u8>)
    requires
        !line.contains(10u8),
    ensures
        push_spec(fresh_framer(limit), line) == (if line.len() <= limit {
            (FramerState { limit, record: line, oversized: false }, Seq::<FrameSpec>::empty())
        } else {
            (FramerState { limit, record: Seq::empty(), oversized: true }, Seq::<FrameSpec>::empty())
        }),
    decreases line.len(),
{
    if line.len() > 0 {
        let rest = line.drop_last();
        assert forall|i: int| 0 <= i < rest.len() implies rest[i] != 10u8 by {
            assert(rest[i] == line[i]);
        }
        assert(line.last() == line[line.len() - 1]);
        lemma_partial_line(limit, rest);
        assert(rest.push(line.last()) =~= line);
        assert(Seq::<FrameSpec>::empty() + frames_of(None) =~= Seq::<FrameSpec>::empty());
    } else {
        assert(line =~= Seq::<u8>::empty());
    }
}

/// A line ended by a line feed, pushed into a framer with nothing pending,
/// yields exactly the records of that line and leaves nothing pending.
pub proof fn each_line_is_framed_on_its_own(limit: nat, line: Seq<u8>)
    requires
        !line.contains(10u8),
    ensures
        push_spec(fresh_framer(limit), line.push(10u8)) == (fresh_framer(limit), line_frames(limit, line)),
{
    lemma_partial_line(limit, line);
    let chunk = line.push(10u8);
    assert(chunk.drop_last() =~= line);
    assert(chunk.last() == 10u8);
    let (mid, frames) = push_spec(fresh_framer(limit), line);
    let (next, frame) = step_spec(mid, 10u8);
    assert(frames + frames_of(frame) =~= line_frames(limit, line));
    assert(next.record =~= Seq::<u8>::empty());
}

/// The lines, each followed by a line feed.
pub open spec fn terminated(lines: Seq<Seq<u8>>) -> Seq<u8>
    decreases lines.len(),
{
    if lines.len() == 0 {
        Seq::empty()
    } else {
        terminated(lines.drop_last()) + lines.last().push(10u8)
    }
}

/// The records of each line, in order.
pub open spec fn lines_frames(limit: nat, lines: Seq<Seq<u8>>) -> Seq<FrameSpec>
    decreases lines.len(),
{
    if lines.len() == 0 {
        Seq::empty()
    } else {
        lines_frames(limit, lines.drop_last()) + line_frames(limit, lines.last())
    }
}

/// A framer with nothing pending, given line-feed-terminated lines and then
/// an unterminated tail, yields the records of each line in order (an
/// oversized line as `Oversized`, an empty or lone-`\r` line as nothing,
/// any other line without one final `\r`) and nothing for the tail; after
/// the lines alone nothing is pending.
pub proof fn lines_are_framed_in_order(limit: nat, lines: Seq<Seq<u8>>, tail: Seq<u8>)
    requires
        forall|k: int| 0 <= k < lines.len() ==> !(#[trigger] lines[k]).contains(10u8),
        !tail.contains(10u8),
    ensures
        push_spec(fresh_framer(limit), terminated(lines)) == (fresh_framer(limit), lines_frames(limit, lines)),
        push_spec(fresh_framer(limit), terminated(lines) + tail).1 == lines_frames(limit, lines),
    decreases lines.len(),
{
    if lines.len() > 0 {
        let rest = lines.drop_last();
        assert forall|k: int| 0 <= k < rest.len() implies !(#[trigger] rest[k]).contains(10u8) by {
            assert(rest[k] == lines[k]);
        }
        lines_are_framed_in_order(limit, rest, Seq::empty());
        let last = lines.last();
        assert(!lines[lines.len() - 1].contains(10u8));
        chunk_boundaries_do_not_matter(fresh_framer(limit), terminated(rest), last.push(10u8));
        each_line_is_framed_on_its_own(limit, last);
    } else {
        assert(terminated(lines) =~= Seq::<u8>::empty());
        assert(push_spec(fresh_framer(limit), Seq::<u8>::empty()) == (fresh_framer(limit), Seq::<FrameSpec>::empty()));
    }
    chunk_boundaries_do_not_matter(fresh_framer(limit), terminated(lines), tail);
    lemma_partial_line(limit, tail);
    assert(lines_frames(limit, lines) + Seq::<FrameSpec>::empty() =~= lines_frames(limit, lines));
}

} // verus!
