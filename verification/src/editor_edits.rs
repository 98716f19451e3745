//! Keeping the host's copy of a document in step with the browser editor:
//! the editor reports its changes in UTF-16 code-unit offsets against the
//! document before the change, and the host applies them to its text.
use vstd::prelude::*;
use crate::text::{chars_of, concat, slice_to_vec, string_from_chars};

verus! {

/// One change the editor reports: the UTF-16 range it replaces and the
/// text put there.
#[derive(Clone, Debug, PartialEq, Eq)]
pub struct EditorEdit {
    pub start: usize,
    pub end: usize,
    pub text: String,
}

/// The UTF-16 code units of a character.
pub open spec fn utf16_width(c: char) -> nat {
    if (c as u32) >= 0x10000 {
        2
    } else {
        1
    }
}

/// The UTF-16 code units of `s`.
pub open spec fn utf16_len(s: Seq<char>) -> nat
    decreases s.len(),
{
    if s.len() == 0 {
        0
    } else {
        utf16_len(s.drop_last()) + utf16_width(s.last())
    }
}

/// The character position at UTF-16 offset `target` of `s`, if the offset
/// falls on a character boundary.
pub open spec fn char_at_utf16(s: Seq<char>, target: nat) -> Option<int> {
    if exists|i: int| 0 <= i <= s.len() && #[trigger] utf16_len(s.take(i)) == target {
        Some(choose|i: int| 0 <= i <= s.len() && #[trigger] utf16_len(s.take(i)) == target)
    } else {
        None
    }
}

proof fn lemma_utf16_step(s: Seq<char>, i: int)
    requires
        0 <= i < s.len(),
    ensures
        utf16_len(s.take(i + 1)) == utf16_len(s.take(i)) + utf16_width(s[i]),
{
    assert(s.take(i + 1).drop_last() =~= s.take(i));
}

proof fn lemma_utf16_increasing(s: Seq<char>, i: int, j: int)
    requires
        0 <= i < j <= s.len(),
    ensures
        utf16_len(s.take(i)) < utf16_len(s.take(j)),
    decreases j - i,
{
    lemma_utf16_step(s, j - 1);
    if i < j - 1 {
        lemma_utf16_increasing(s, i, j - 1);
    }
}

/// The character position at UTF-16 offset `target` of `s`.
pub fn utf16_to_char_index(s: &[char], target: usize) -> (r: Option<usize>)
    ensures
        match char_at_utf16(s@, target as nat) {
            Some(i) => r == Some(i as usize),
            None => r is None,
        },
        r matches Some(x) ==> char_at_utf16(s@, target as nat) == Some(x as int),
{
    let mut i: usize = 0;
    let mut acc: usize = 0;
    proof {
        assert(s@.take(0) =~= Seq::<char>::empty());
    }
    while i < s.len() && acc < target
        invariant
            i <= s@.len(),
            acc == utf16_len(s@.take(i as int)),
            forall|j: int| 0 <= j < i ==> #[trigger] utf16_len(s@.take(j)) < target,
            acc <= target,
        decreases s@.len() - i,
    {
        let w: usize = if (s[i] as u32) >= 0x10000 { 2 } else { 1 };
        proof {
            lemma_utf16_step(s@, i as int);
        }
        if w > target - acc {
            proof {
                assert forall|j: int| 0 <= j <= s@.len() implies #[trigger] utf16_len(s@.take(j)) != target by {
                    if j > i {
                        if j > i + 1 {
                            lemma_utf16_increasing(s@, i + 1, j);
                        }
                    }
                }
            }
            return None;
        }
        acc = acc + w;
        i = i + 1;
    }
    if acc == target {
        proof {
            assert(utf16_len(s@.take(i as int)) == target);
            let k = choose|k: int| 0 <= k <= s@.len() && #[trigger] utf16_len(s@.take(k)) == target;
            if k < i {
                lemma_utf16_increasing(s@, k, i as int);
            } else if k > i {
                lemma_utf16_increasing(s@, i as int, k);
            }
        }
        Some(i)
    } else {
        proof {
            assert forall|j: int| 0 <= j <= s@.len() implies #[trigger] utf16_len(s@.take(j)) != target by {
                if j > i {
                    lemma_utf16_increasing(s@, i as int, j);
                }
            }
        }
        None
    }
}

/// A change in character positions.
pub ghost struct Change {
    pub start: int,
    pub end: int,
    pub text: Seq<char>,
}

/// The edits as character ranges of `s`, or nothing when an offset falls
/// inside a character, past the end, or a range runs backwards.
pub open spec fn positioned(s: Seq<char>, edits: Seq<EditorEdit>) -> Option<Seq<Change>>
    decreases edits.len(),
{
    if edits.len() == 0 {
        Some(Seq::empty())
    } else {
        match positioned(s, edits.drop_last()) {
            None => None,
            Some(done) => {
                let e = edits.last();
                match (char_at_utf16(s, e.start as nat), char_at_utf16(s, e.end as nat)) {
                    (Some(a), Some(b)) => if a <= b {
                        Some(done.push(Change { start: a, end: b, text: e.text@ }))
                    } else {
                        None
                    },
                    _ => None,
                }
            },
        }
    }
}

/// `c` comes after `d` in the order the changes are applied: the later
/// start first, then the later end.
pub open spec fn applied_before(c: Change, d: Change) -> bool {
    c.start > d.start || (c.start == d.start && c.end > d.end)
}

/// The first position at or after `k` whose change is applied after `c`.
pub open spec fn insert_point(sorted: Seq<Change>, c: Change, k: int) -> int
    decreases sorted.len() - k,
{
    if k < 0 || k >= sorted.len() {
        sorted.len() as int
    } else if applied_before(c, sorted[k]) {
        k
    } else {
        insert_point(sorted, c, k + 1)
    }
}

/// The changes in the order they are applied, from the end of the text
/// backwards; changes of the same range keep their order.
pub open spec fn back_to_front(changes: Seq<Change>) -> Seq<Change>
    decreases changes.len(),
{
    if changes.len() == 0 {
        Seq::empty()
    } else {
        let sorted = back_to_front(changes.drop_last());
        sorted.insert(insert_point(sorted, changes.last(), 0), changes.last())
    }
}

/// No change reaches into the range of the one applied before it.
pub open spec fn separated(changes: Seq<Change>) -> bool {
    forall|i: int| 0 <= i < changes.len() - 1 ==> #[trigger] changes[i].start >= changes[i + 1].end
}

/// `s` with the changes applied in order.
pub open spec fn apply_changes(s: Seq<char>, changes: Seq<Change>) -> Seq<char>
    decreases changes.len(),
{
    if changes.len() == 0 {
        s
    } else {
        let c = changes[0];
        apply_changes(s.subrange(0, c.start) + c.text + s.subrange(c.end, s.len() as int), changes.drop_first())
    }
}

/// The document after the edits, or nothing when they cannot be applied:
/// an offset is off a character boundary or past the end, a range runs
/// backwards, or two ranges overlap.
pub open spec fn edited(s: Seq<char>, edits: Seq<EditorEdit>) -> Option<Seq<char>> {
    match positioned(s, edits) {
        None => None,
        Some(changes) => {
            let ordered = back_to_front(changes);
            if separated(ordered) {
                Some(apply_changes(s, ordered))
            } else {
                None
            }
        },
    }
}

/// Every change is a forward range within `len`.
pub open spec fn within(changes: Seq<Change>, len: int) -> bool {
    forall|i: int| 0 <= i < changes.len() ==> 0 <= #[trigger] changes[i].start <= changes[i].end <= len
}

proof fn lemma_positioned_within(s: Seq<char>, edits: Seq<EditorEdit>)
    requires
        positioned(s, edits) is Some,
    ensures
        within(positioned(s, edits)->0, s.len() as int),
        positioned(s, edits)->0.len() == edits.len(),
    decreases edits.len(),
{
    if edits.len() > 0 {
        lemma_positioned_within(s, edits.drop_last());
    }
}

proof fn lemma_insert_point(sorted: Seq<Change>, c: Change, k: int)
    requires
        0 <= k <= sorted.len(),
    ensures
        k <= insert_point(sorted, c, k) <= sorted.len(),
        forall|i: int| k <= i < insert_point(sorted, c, k) ==> !applied_before(c, #[trigger] sorted[i]),
        insert_point(sorted, c, k) < sorted.len() ==> applied_before(c, sorted[insert_point(sorted, c, k)]),
    decreases sorted.len() - k,
{
    if k < sorted.len() && !applied_before(c, sorted[k]) {
        lemma_insert_point(sorted, c, k + 1);
    }
}

proof fn lemma_back_to_front_within(changes: Seq<Change>, len: int)
    requires
        within(changes, len),
    ensures
        within(back_to_front(changes), len),
        back_to_front(changes).len() == changes.len(),
    decreases changes.len(),
{
    if changes.len() > 0 {
        let init = changes.drop_last();
        lemma_back_to_front_within(init, len);
        let sorted = back_to_front(init);
        lemma_insert_point(sorted, changes.last(), 0);
        let k = insert_point(sorted, changes.last(), 0);
        let r = sorted.insert(k, changes.last());
        assert forall|i: int| 0 <= i < r.len() implies 0 <= #[trigger] r[i].start <= r[i].end <= len by {
            if i < k {
                assert(r[i] == sorted[i]);
            } else if i > k {
                assert(r[i] == sorted[i - 1]);
            } else {
                assert(r[i] == changes[changes.len() - 1]);
            }
        }
    }
}

/// In a separated list of forward ranges, a later change lies wholly
/// before an earlier one.
proof fn lemma_separated_chain(changes: Seq<Change>, i: int, j: int)
    requires
        separated(changes),
        within(changes, 0x7fff_ffff_ffff_ffff_ffff_ffff_ffff_ffff),
        0 <= i < j < changes.len(),
    ensures
        changes[j].end <= changes[i].start,
    decreases j - i,
{
    assert(changes[j - 1].start >= changes[j].end);
    if i < j - 1 {
        lemma_separated_chain(changes, i, j - 1);
        assert(changes[j - 1].start <= changes[j - 1].end);
    }
}

fn replace_range(s: &Vec<char>, start: usize, end: usize, text: &[char]) -> (r: Vec<char>)
    requires
        start <= end <= s@.len(),
    ensures
        r@ == s@.subrange(0, start as int) + text@ + s@.subrange(end as int, s@.len() as int),
{
    let head = slice_to_vec(s, 0, start);
    let tail = slice_to_vec(s, end, s.len());
    let with_text = concat(&head, text);
    concat(&with_text, &tail)
}

pub open spec fn ranges_view(v: Seq<(usize, usize, Vec<char>)>) -> Seq<Change> {
    v.map_values(|c: (usize, usize, Vec<char>)| Change { start: c.0 as int, end: c.1 as int, text: c.2@ })
}

/// Applies the editor's edits to `value`; whether they could be applied.
/// When they cannot, `value` is left as it was.
pub fn apply_editor_edits(value: &mut String, edits: &Vec<EditorEdit>) -> (r: bool)
    ensures
        r == edited(old(value)@, edits@) is Some,
        r ==> final(value)@ == edited(old(value)@, edits@)->0,
        !r ==> final(value)@ == old(value)@,
{
    let chars = chars_of(value.as_str());
    let ghost s = chars@;
    let mut changes: Vec<(usize, usize, Vec<char>)> = Vec::new();
    let mut k: usize = 0;
    while k < edits.len()
        invariant
            k <= edits@.len(),
            s == chars@,
            s == old(value)@,
            *value == *old(value),
            positioned(s, edits@.take(k as int)) == Some(ranges_view(changes@)),
        decreases edits@.len() - k,
    {
        proof {
            assert(edits@.take(k + 1).drop_last() =~= edits@.take(k as int));
            assert(edits@.take(k + 1).last() == edits@[k as int]);
        }
        let e = &edits[k];
        let a = match utf16_to_char_index(&chars, e.start) {
            Some(a) => a,
            None => {
                proof {
                    lemma_positioned_none(s, edits@, k as int);
                }
                return false;
            },
        };
        let b = match utf16_to_char_index(&chars, e.end) {
            Some(b) => b,
            None => {
                proof {
                    lemma_positioned_none(s, edits@, k as int);
                }
                return false;
            },
        };
        if a > b {
            proof {
                lemma_positioned_none(s, edits@, k as int);
            }
            return false;
        }
        let ghost before = ranges_view(changes@);
        changes.push((a, b, chars_of(e.text.as_str())));
        proof {
            assert(ranges_view(changes@) =~= before.push(Change { start: a as int, end: b as int, text: e.text@ }));
            let taken = edits@.take(k + 1);
            assert(taken.last() == edits@[k as int]);
            assert(char_at_utf16(s, edits@[k as int].start as nat) == Some(a as int));
            assert(char_at_utf16(s, edits@[k as int].end as nat) == Some(b as int));
            assert(positioned(s, taken) == Some(before.push(Change { start: a as int, end: b as int, text: e.text@ })));
        }
        k = k + 1;
    }
    proof {
        assert(edits@.take(edits@.len() as int) =~= edits@);
        lemma_positioned_within(s, edits@);
    }
    let ghost all = ranges_view(changes@);
    let mut ordered: Vec<(usize, usize, Vec<char>)> = Vec::new();
    let mut j: usize = 0;
    proof {
        assert(all.take(0) =~= Seq::<Change>::empty());
        assert(ranges_view(ordered@) =~= Seq::<Change>::empty());
    }
    while j < changes.len()
        invariant
            j <= changes@.len(),
            all == ranges_view(changes@),
            *value == *old(value),
            ranges_view(ordered@) == back_to_front(all.take(j as int)),
            ordered@.len() == j,
        decreases changes@.len() - j,
    {
        proof {
            assert(all.take(j + 1).drop_last() =~= all.take(j as int));
            assert(all.take(j + 1).last() == all[j as int]);
        }
        let ghost ov = ranges_view(ordered@);
        let (cs, ce) = (changes[j].0, changes[j].1);
        proof {
            assert(all[j as int].start == cs && all[j as int].end == ce);
        }
        let mut p: usize = 0;
        while p < ordered.len() && !(cs > ordered[p].0 || (cs == ordered[p].0 && ce > ordered[p].1))
            invariant
                p <= ordered@.len(),
                ov == ranges_view(ordered@),
                cs == all[j as int].start,
                ce == all[j as int].end,
                insert_point(ov, all[j as int], 0) == insert_point(ov, all[j as int], p as int),
            decreases ordered@.len() - p,
        {
            p = p + 1;
        }
        proof {
            assert(insert_point(ov, all[j as int], p as int) == p);
        }
        ordered.insert(p, (cs, ce, changes[j].2.clone()));
        proof {
            assert(ranges_view(ordered@) =~= ov.insert(p as int, all[j as int]));
        }
        j = j + 1;
    }
    proof {
        assert(all.take(changes@.len() as int) =~= all);
        lemma_back_to_front_within(all, s.len() as int);
    }
    let ghost o = ranges_view(ordered@);
    proof {
        assert(o == back_to_front(all));
        assert(positioned(s, edits@) == Some(all));
    }
    let mut q: usize = 1;
    while q < ordered.len()
        invariant
            o == ranges_view(ordered@),
            o == back_to_front(all),
            positioned(s, edits@) == Some(all),
            s == old(value)@,
            *value == *old(value),
            1 <= q,
            ordered@.len() > 0 ==> q <= ordered@.len(),
            forall|i: int| 0 <= i < q - 1 ==> #[trigger] o[i].start >= o[i + 1].end,
        decreases ordered@.len() - q,
    {
        if ordered[q - 1].0 < ordered[q].1 {
            proof {
                assert(!(o[q - 1].start >= o[q as int].end));
            }
            return false;
        }
        q = q + 1;
    }
    proof {
        assert(separated(o));
    }
    let mut current = chars;
    let mut i: usize = 0;
    proof {
        assert(o.skip(0) =~= o);
        assert(current@ == s);
        assert(within(o, s.len() as int));
        assert forall|k: int| 0 <= k < o.len() implies #[trigger] o[k].end <= current@.len() by {
            assert(0 <= o[k].start <= o[k].end <= s.len());
        }
    }
    while i < ordered.len()
        invariant
            i <= ordered@.len(),
            o == ranges_view(ordered@),
            separated(o),
            within(o, s.len() as int),
            apply_changes(s, o) == apply_changes(current@, o.skip(i as int)),
            forall|k: int| i <= k < o.len() ==> #[trigger] o[k].end <= current@.len(),
        decreases ordered@.len() - i,
    {
        let (a, b) = (ordered[i].0, ordered[i].1);
        proof {
            assert(o[i as int].end <= current@.len());
            assert(o.skip(i as int)[0] == o[i as int]);
            assert(o.skip(i as int).drop_first() =~= o.skip(i + 1));
        }
        let next = replace_range(&current, a, b, &ordered[i].2);
        proof {
            assert forall|k: int| i + 1 <= k < o.len() implies #[trigger] o[k].end <= next@.len() by {
                lemma_separated_chain(o, i as int, k);
            }
        }
        current = next;
        i = i + 1;
    }
    proof {
        assert(o.skip(ordered@.len() as int) =~= Seq::<Change>::empty());
    }
    *value = string_from_chars(&current);
    true
}

proof fn lemma_positioned_none(s: Seq<char>, edits: Seq<EditorEdit>, k: int)
    requires
        0 <= k < edits.len(),
        positioned(s, edits.take(k + 1)) is None,
    ensures
        positioned(s, edits) is None,
    decreases edits.len() - k,
{
    if k + 1 < edits.len() {
        assert(edits.take(k + 2).drop_last() =~= edits.take(k + 1));
        lemma_positioned_none(s, edits, k + 1);
    } else {
        assert(edits.take(k + 1) =~= edits);
    }
}

} // verus!
