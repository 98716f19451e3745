//! Document-derived word completion, in the style of `completeAnyWord`:
//! words already present near the cursor become suggestions.
use vstd::prelude::*;
use crate::text::{
    byte_len, byte_offset, byte_offsets, chars_of, lemma_byte_offset_full, lemma_byte_offset_mono,
    lemma_byte_offset_step,
    lemma_str_len, seq_eq, seq_starts_with, slice_to_vec, starts_with, string_from_chars,
};

verus! {

/// Bytes scanned on each side of the cursor for document words.
pub const DOCUMENT_COMPLETION_RADIUS: usize = 65536;

/// Document-derived completion candidates for the word at the cursor.
#[derive(Clone, Debug, Default, PartialEq, Eq)]
pub struct WordCompletions {
    /// Byte offset where accepting a completion should start replacing text.
    pub from: usize,
    /// Unique candidates matching the current prefix.
    pub options: Vec<String>,
}

/// The word characters: alphanumerics, `_` and `$`.
pub open spec fn is_word_char(c: char) -> bool {
    is_alphanumeric_spec(c) || c == '_' || c == '$'
}

pub fn is_word_character(c: char) -> (b: bool)
    ensures
        b == is_word_char(c),
{
    is_alphanumeric(c) || c == '_' || c == '$'
}

/// Largest character index `j <= i` whose byte offset is at most `b`.
pub open spec fn last_index_at_or_below(s: Seq<char>, b: int, i: int) -> int
    decreases i,
{
    if i <= 0 {
        0
    } else if byte_offset(s, i) <= b {
        i
    } else {
        last_index_at_or_below(s, b, i - 1)
    }
}

/// Index of the character boundary at or before byte offset `b`.
pub open spec fn boundary_index(s: Seq<char>, b: int) -> int {
    last_index_at_or_below(s, b, s.len() as int)
}

/// Start of the word that ends at character index `i`.
pub open spec fn word_start_index(s: Seq<char>, i: int) -> int
    decreases i,
{
    if i <= 0 {
        0
    } else if !is_word_char(s[i - 1]) {
        i
    } else {
        word_start_index(s, i - 1)
    }
}

/// First index at or after `k` (and at most `limit`) that is not a word character.
pub open spec fn skip_word_forward(s: Seq<char>, k: int, limit: int) -> int
    decreases limit - k,
{
    if k >= limit || k < 0 || k >= s.len() || !is_word_char(s[k]) {
        k
    } else {
        skip_word_forward(s, k + 1, limit)
    }
}

/// Last index at or before `k` (and at least `limit`) not preceded by a word character.
pub open spec fn skip_word_backward(s: Seq<char>, k: int, limit: int) -> int
    decreases k,
{
    if k <= limit || k <= 0 || k > s.len() || !is_word_char(s[k - 1]) {
        k
    } else {
        skip_word_backward(s, k - 1, limit)
    }
}

/// Character index of the cursor, clamped to the text and moved back to a boundary.
pub open spec fn cursor_index(s: Seq<char>, cursor: int) -> int {
    boundary_index(s, if cursor < byte_len(s) { cursor } else { byte_len(s) as int })
}

/// Start of the scanned window around the cursor at character index `ci`.
pub open spec fn window_start(s: Seq<char>, ci: int) -> int {
    let cb = byte_offset(s, ci) as int;
    let r = DOCUMENT_COMPLETION_RADIUS as int;
    let start0 = boundary_index(s, if cb >= r { cb - r } else { 0 });
    if start0 > 0 && is_word_char(s[start0 - 1]) {
        skip_word_forward(s, start0, ci)
    } else {
        start0
    }
}

/// End of the scanned window around the cursor at character index `ci`.
pub open spec fn window_end(s: Seq<char>, ci: int) -> int {
    let cb = byte_offset(s, ci) as int;
    let r = DOCUMENT_COMPLETION_RADIUS as int;
    let end0 = boundary_index(s, if cb + r < byte_len(s) { cb + r } else { byte_len(s) as int });
    if end0 < s.len() && end0 > 0 && is_word_char(s[end0 - 1]) {
        skip_word_backward(s, end0, ci)
    } else {
        end0
    }
}

/// Words of `s[i..end]` in order, given the start of a word in progress, leaving
/// out the word that starts at `excluded`.
pub open spec fn scan_words(s: Seq<char>, i: int, end: int, run: Option<int>, excluded: int) -> Seq<
    Seq<char>,
>
    decreases end - i,
{
    if i >= end {
        match run {
            Some(st) => if st != excluded {
                seq![s.subrange(st, end)]
            } else {
                Seq::empty()
            },
            None => Seq::empty(),
        }
    } else if is_word_char(s[i]) {
        scan_words(s, i + 1, end, if run is Some { run } else { Some(i) }, excluded)
    } else {
        let emitted = match run {
            Some(st) => if st != excluded {
                seq![s.subrange(st, i)]
            } else {
                Seq::empty()
            },
            None => Seq::empty(),
        };
        emitted + scan_words(s, i + 1, end, None, excluded)
    }
}

/// Adds the candidates in order, skipping the prefix itself, non-matching words
/// and repeats, until `limit` options are collected.
pub open spec fn collect(
    candidates: Seq<Seq<char>>,
    prefix: Seq<char>,
    limit: nat,
    acc: Seq<Seq<char>>,
) -> Seq<Seq<char>>
    decreases candidates.len(),
{
    if candidates.len() == 0 || acc.len() >= limit {
        acc
    } else {
        let w = candidates[0];
        let next = if w != prefix && starts_with(w, prefix) && !acc.contains(w) {
            acc.push(w)
        } else {
            acc
        };
        collect(candidates.drop_first(), prefix, limit, next)
    }
}

/// Byte offset where the completed word starts.
pub open spec fn completion_from(s: Seq<char>, cursor: int) -> int {
    byte_offset(s, word_start_index(s, cursor_index(s, cursor))) as int
}

/// The completion options: dictionary words first, then words of the window
/// around the cursor, filtered by the prefix, de-duplicated and bounded by `limit`.
pub open spec fn completion_options(
    s: Seq<char>,
    cursor: int,
    dictionary: Seq<Seq<char>>,
    limit: nat,
) -> Seq<Seq<char>> {
    let ci = cursor_index(s, cursor);
    let fi = word_start_index(s, ci);
    let prefix = s.subrange(fi, ci);
    let words = scan_words(s, window_start(s, ci), window_end(s, ci), None, fi);
    collect(dictionary + words, prefix, limit, Seq::empty())
}

proof fn lemma_collect_done(c: Seq<Seq<char>>, p: Seq<char>, limit: nat, acc: Seq<Seq<char>>)
    requires
        acc.len() >= limit,
    ensures
        collect(c, p, limit, acc) == acc,
{
}

proof fn lemma_collect_concat(
    a: Seq<Seq<char>>,
    b: Seq<Seq<char>>,
    p: Seq<char>,
    limit: nat,
    acc: Seq<Seq<char>>,
)
    ensures
        collect(a + b, p, limit, acc) == collect(b, p, limit, collect(a, p, limit, acc)),
    decreases a.len(),
{
    if a.len() == 0 {
        assert(a + b =~= b);
    } else if acc.len() >= limit {
        lemma_collect_done(b, p, limit, acc);
    } else {
        assert((a + b).drop_first() =~= a.drop_first() + b);
        assert((a + b)[0] == a[0]);
        let w = a[0];
        let next = if w != p && starts_with(w, p) && !acc.contains(w) {
            acc.push(w)
        } else {
            acc
        };
        lemma_collect_concat(a.drop_first(), b, p, limit, next);
    }
}

proof fn lemma_collect_grows(c: Seq<Seq<char>>, p: Seq<char>, limit: nat, acc: Seq<Seq<char>>)
    ensures
        acc.len() <= collect(c, p, limit, acc).len(),
        acc.len() <= limit ==> collect(c, p, limit, acc).len() <= limit,
    decreases c.len(),
{
    if c.len() > 0 && acc.len() < limit {
        let w = c[0];
        let next = if w != p && starts_with(w, p) && !acc.contains(w) {
            acc.push(w)
        } else {
            acc
        };
        lemma_collect_grows(c.drop_first(), p, limit, next);
    }
}

proof fn lemma_collect_unique_matches(
    c: Seq<Seq<char>>,
    p: Seq<char>,
    limit: nat,
    acc: Seq<Seq<char>>,
)
    requires
        acc.no_duplicates(),
        forall|k: int| 0 <= k < acc.len() ==> #[trigger] acc[k] != p && starts_with(acc[k], p),
    ensures
        collect(c, p, limit, acc).no_duplicates(),
        forall|k: int|
            0 <= k < collect(c, p, limit, acc).len() ==> #[trigger] collect(c, p, limit, acc)[k]
                != p && starts_with(collect(c, p, limit, acc)[k], p),
        forall|k: int| 0 <= k < acc.len() ==> #[trigger] collect(c, p, limit, acc)[k] == acc[k],
        acc.len() <= limit ==> collect(c, p, limit, acc).len() <= limit,
    decreases c.len(),
{
    lemma_collect_grows(c, p, limit, acc);
    if c.len() > 0 && acc.len() < limit {
        let w = c[0];
        if w != p && starts_with(w, p) && !acc.contains(w) {
            let next = acc.push(w);
            assert forall|i: int, j: int| 0 <= i < j < next.len() implies next[i] != next[j] by {
                if j == next.len() - 1 {
                    assert(acc[i] == next[i]);
                }
            }
            lemma_collect_unique_matches(c.drop_first(), p, limit, next);
            assert forall|k: int| 0 <= k < acc.len() implies #[trigger] collect(c, p, limit, acc)[k]
                == acc[k] by {
                assert(next[k] == acc[k]);
            }
        } else {
            lemma_collect_unique_matches(c.drop_first(), p, limit, acc);
        }
    }
}

/// The completion options never repeat, never exceed the limit, and each one
/// extends the word prefix before the cursor without being equal to it.
pub proof fn completion_options_are_distinct_extensions(
    s: Seq<char>,
    cursor: int,
    dictionary: Seq<Seq<char>>,
    limit: nat,
)
    ensures
        completion_options(s, cursor, dictionary, limit).no_duplicates(),
        completion_options(s, cursor, dictionary, limit).len() <= limit,
        forall|k: int|
            0 <= k < completion_options(s, cursor, dictionary, limit).len() ==> {
                let ci = cursor_index(s, cursor);
                let prefix = s.subrange(word_start_index(s, ci), ci);
                &&& #[trigger] completion_options(s, cursor, dictionary, limit)[k] != prefix
                &&& starts_with(completion_options(s, cursor, dictionary, limit)[k], prefix)
            },
{
    let ci = cursor_index(s, cursor);
    let fi = word_start_index(s, ci);
    let prefix = s.subrange(fi, ci);
    let words = scan_words(s, window_start(s, ci), window_end(s, ci), None, fi);
    lemma_collect_unique_matches(dictionary + words, prefix, limit, Seq::empty());
}

proof fn lemma_collect_members(c: Seq<Seq<char>>, p: Seq<char>, limit: nat, acc: Seq<Seq<char>>)
    ensures
        forall|k: int| 0 <= k < collect(c, p, limit, acc).len() ==> acc.contains(#[trigger] collect(c, p, limit, acc)[k])
            || c.contains(collect(c, p, limit, acc)[k]),
    decreases c.len(),
{
    if c.len() > 0 && acc.len() < limit {
        let w = c[0];
        let next = if w != p && starts_with(w, p) && !acc.contains(w) {
            acc.push(w)
        } else {
            acc
        };
        lemma_collect_members(c.drop_first(), p, limit, next);
        let r = collect(c, p, limit, acc);
        assert(r == collect(c.drop_first(), p, limit, next));
        assert forall|k: int| 0 <= k < r.len() implies acc.contains(#[trigger] r[k]) || c.contains(r[k]) by {
            let x = r[k];
            assert(next.contains(x) || c.drop_first().contains(x));
            if next.contains(x) {
                let i = choose|i: int| 0 <= i < next.len() && next[i] == x;
                if i < acc.len() {
                    assert(acc[i] == x);
                } else {
                    assert(c[0] == x);
                }
            } else {
                assert(c.drop_first().contains(x));
                let i = choose|i: int| 0 <= i < c.drop_first().len() && c.drop_first()[i] == x;
                assert(c[i + 1] == x);
            }
        }
    }
}

/// Every completion option comes from the dictionary or from the words
/// scanned around the cursor, and the dictionary's matches come first: the
/// options begin with those the dictionary alone would give.
pub proof fn completion_options_come_from_the_dictionary_then_the_text(
    s: Seq<char>,
    cursor: int,
    dictionary: Seq<Seq<char>>,
    limit: nat,
)
    ensures
        ({
            let ci = cursor_index(s, cursor);
            let fi = word_start_index(s, ci);
            let prefix = s.subrange(fi, ci);
            let words = scan_words(s, window_start(s, ci), window_end(s, ci), None, fi);
            let options = completion_options(s, cursor, dictionary, limit);
            let first = collect(dictionary, prefix, limit, Seq::empty());
            &&& forall|k: int| 0 <= k < options.len() ==> dictionary.contains(#[trigger] options[k]) || words.contains(
                options[k],
            )
            &&& first.len() <= options.len()
            &&& forall|k: int| 0 <= k < first.len() ==> #[trigger] options[k] == first[k]
        }),
{
    let ci = cursor_index(s, cursor);
    let fi = word_start_index(s, ci);
    let prefix = s.subrange(fi, ci);
    let words = scan_words(s, window_start(s, ci), window_end(s, ci), None, fi);
    let all = dictionary + words;
    lemma_collect_members(all, prefix, limit, Seq::empty());
    let options = completion_options(s, cursor, dictionary, limit);
    assert forall|k: int| 0 <= k < options.len() implies dictionary.contains(#[trigger] options[k]) || words.contains(
        options[k],
    ) by {
        let x = options[k];
        assert(all.contains(x));
        let i = choose|i: int| 0 <= i < all.len() && all[i] == x;
        if i < dictionary.len() {
            assert(dictionary[i] == x);
        } else {
            assert(words[i - dictionary.len()] == x);
        }
    }
    lemma_collect_concat(dictionary, words, prefix, limit, Seq::empty());
    let first = collect(dictionary, prefix, limit, Seq::empty());
    lemma_collect_unique_matches(dictionary, prefix, limit, Seq::empty());
    lemma_collect_unique_matches(words, prefix, limit, first);
    lemma_collect_grows(words, prefix, limit, first);
}

/// Whether a candidate extends the typed `prefix` without being equal to it.
pub open spec fn extends_prefix(w: Seq<char>, prefix: Seq<char>) -> bool {
    w != prefix && starts_with(w, prefix)
}

pub open spec fn extends(prefix: Seq<char>) -> spec_fn(Seq<char>) -> bool {
    |w: Seq<char>| extends_prefix(w, prefix)
}

/// The candidates that extend `prefix`, in order.
pub open spec fn matching(candidates: Seq<Seq<char>>, prefix: Seq<char>) -> Seq<Seq<char>> {
    candidates.filter(extends(prefix))
}

/// The words in order, each kept only where it first occurs.
pub open spec fn dedup_keep_first(words: Seq<Seq<char>>) -> Seq<Seq<char>>
    decreases words.len(),
{
    if words.len() == 0 {
        Seq::empty()
    } else {
        let d = dedup_keep_first(words.drop_last());
        if d.contains(words.last()) {
            d
        } else {
            d.push(words.last())
        }
    }
}

/// At most the first `n` words.
pub open spec fn at_most(words: Seq<Seq<char>>, n: nat) -> Seq<Seq<char>> {
    if words.len() <= n {
        words
    } else {
        words.take(n as int)
    }
}

proof fn lemma_matching_push(ys: Seq<Seq<char>>, w: Seq<char>, p: Seq<char>)
    ensures
        dedup_keep_first(matching(ys.push(w), p)) == (if extends_prefix(w, p) && !dedup_keep_first(
            matching(ys, p),
        ).contains(w) {
            dedup_keep_first(matching(ys, p)).push(w)
        } else {
            dedup_keep_first(matching(ys, p))
        }),
{
    ys.lemma_filter_push(w, extends(p));
    if extends_prefix(w, p) {
        let f = matching(ys, p).push(w);
        assert(f.drop_last() =~= matching(ys, p));
        assert(f.last() == w);
    }
}

proof fn lemma_dedup_grows(a: Seq<Seq<char>>, b: Seq<Seq<char>>, p: Seq<char>)
    ensures
        dedup_keep_first(matching(a, p)).is_prefix_of(dedup_keep_first(matching(a + b, p))),
    decreases b.len(),
{
    if b.len() == 0 {
        assert(a + b =~= a);
    } else {
        lemma_dedup_grows(a, b.drop_last(), p);
        assert(a + b =~= (a + b.drop_last()).push(b.last()));
        lemma_matching_push(a + b.drop_last(), b.last(), p);
    }
}

proof fn lemma_collect_dedup(ys: Seq<Seq<char>>, zs: Seq<Seq<char>>, p: Seq<char>, limit: nat)
    requires
        dedup_keep_first(matching(ys, p)).len() <= limit,
    ensures
        collect(zs, p, limit, dedup_keep_first(matching(ys, p))) == at_most(dedup_keep_first(matching(ys + zs, p)), limit),
    decreases zs.len(),
{
    let acc = dedup_keep_first(matching(ys, p));
    if zs.len() == 0 {
        assert(ys + zs =~= ys);
    } else if acc.len() >= limit {
        lemma_dedup_grows(ys, zs, p);
        let whole = dedup_keep_first(matching(ys + zs, p));
        assert(whole.take(limit as int) =~= acc);
    } else {
        let w = zs[0];
        lemma_matching_push(ys, w, p);
        assert(ys.push(w) + zs.drop_first() =~= ys + zs);
        lemma_collect_dedup(ys.push(w), zs.drop_first(), p, limit);
    }
}

/// The completion options are the first `limit` distinct candidates that
/// extend the typed word, dictionary words first and then the words found
/// around the cursor, each kept where it first occurs; a limit of zero gives
/// none.
pub proof fn completion_options_are_the_first_matches(
    s: Seq<char>,
    cursor: int,
    dictionary: Seq<Seq<char>>,
    limit: nat,
)
    ensures
        ({
            let ci = cursor_index(s, cursor);
            let fi = word_start_index(s, ci);
            let prefix = s.subrange(fi, ci);
            let words = scan_words(s, window_start(s, ci), window_end(s, ci), None, fi);
            completion_options(s, cursor, dictionary, limit) == at_most(
                dedup_keep_first(matching(dictionary + words, prefix)),
                limit,
            )
        }),
        limit == 0 ==> completion_options(s, cursor, dictionary, limit).len() == 0,
{
    let ci = cursor_index(s, cursor);
    let fi = word_start_index(s, ci);
    let prefix = s.subrange(fi, ci);
    let words = scan_words(s, window_start(s, ci), window_end(s, ci), None, fi);
    let none = Seq::<Seq<char>>::empty();
    assert(matching(none, prefix) == none) by {
        reveal(Seq::filter);
    }
    assert(dedup_keep_first(none) == none);
    lemma_collect_dedup(none, dictionary + words, prefix, limit);
    assert(none + (dictionary + words) =~= dictionary + words);
}

/// Whether `w` is a non-empty run of word characters of `s`.
pub open spec fn is_word_run(s: Seq<char>, w: Seq<char>) -> bool {
    exists|a: int, b: int|
        0 <= a < b <= s.len() && w == #[trigger] s.subrange(a, b) && forall|k: int| a <= k < b ==> is_word_char(
            #[trigger] s[k],
        )
}

proof fn lemma_scan_runs(s: Seq<char>, i: int, end: int, run: Option<int>, excluded: int)
    requires
        0 <= i <= end <= s.len(),
        run matches Some(st) ==> 0 <= st < i && forall|k: int| st <= k < i ==> is_word_char(#[trigger] s[k]),
    ensures
        forall|k: int|
            0 <= k < scan_words(s, i, end, run, excluded).len() ==> is_word_run(
                s,
                #[trigger] scan_words(s, i, end, run, excluded)[k],
            ),
    decreases end - i,
{
    let r = scan_words(s, i, end, run, excluded);
    if i >= end {
        if let Some(st) = run {
            if st != excluded {
                assert(r[0] == s.subrange(st, end));
                assert(is_word_run(s, r[0]));
            }
        }
    } else if is_word_char(s[i]) {
        let next = if run is Some { run } else { Some(i) };
        lemma_scan_runs(s, i + 1, end, next, excluded);
        assert(r == scan_words(s, i + 1, end, next, excluded));
    } else {
        lemma_scan_runs(s, i + 1, end, None, excluded);
        let emitted = match run {
            Some(st) => if st != excluded {
                seq![s.subrange(st, i)]
            } else {
                Seq::empty()
            },
            None => Seq::empty(),
        };
        let rest = scan_words(s, i + 1, end, None, excluded);
        assert(r == emitted + rest);
        assert forall|k: int| 0 <= k < r.len() implies is_word_run(s, #[trigger] r[k]) by {
            if k < emitted.len() {
                let st = run->Some_0;
                assert(r[k] == s.subrange(st, i));
                assert(is_word_run(s, r[k]));
            } else {
                assert(r[k] == rest[k - emitted.len()]);
            }
        }
    }
}

/// Every completion option is a dictionary word or a run of word characters
/// of the text.
pub proof fn completion_options_are_known_words(
    s: Seq<char>,
    cursor: int,
    dictionary: Seq<Seq<char>>,
    limit: nat,
)
    ensures
        forall|k: int|
            0 <= k < completion_options(s, cursor, dictionary, limit).len() ==> dictionary.contains(
                #[trigger] completion_options(s, cursor, dictionary, limit)[k],
            ) || is_word_run(s, completion_options(s, cursor, dictionary, limit)[k]),
{
    let ci = cursor_index(s, cursor);
    let fi = word_start_index(s, ci);
    let words = scan_words(s, window_start(s, ci), window_end(s, ci), None, fi);
    completion_options_come_from_the_dictionary_then_the_text(s, cursor, dictionary, limit);
    let b = if cursor < byte_len(s) { cursor } else { byte_len(s) as int };
    lemma_last_index_bounds(s, b, s.len() as int);
    completion_window_holds_the_cursor(s, ci);
    lemma_scan_runs(s, window_start(s, ci), window_end(s, ci), None, fi);
    let options = completion_options(s, cursor, dictionary, limit);
    assert forall|k: int| 0 <= k < options.len() implies dictionary.contains(#[trigger] options[k]) || is_word_run(
        s,
        options[k],
    ) by {
        if !dictionary.contains(options[k]) {
            let j = choose|j: int| 0 <= j < words.len() && words[j] == options[k];
            assert(is_word_run(s, words[j]));
        }
    }
}

proof fn lemma_word_start(s: Seq<char>, i: int)
    requires
        0 <= i <= s.len(),
    ensures
        0 <= word_start_index(s, i) <= i,
        forall|k: int| word_start_index(s, i) <= k < i ==> is_word_char(#[trigger] s[k]),
        word_start_index(s, i) == 0 || !is_word_char(s[word_start_index(s, i) - 1]),
    decreases i,
{
    if i > 0 && is_word_char(s[i - 1]) {
        lemma_word_start(s, i - 1);
    }
}

/// The completed word is the run of word characters just before the
/// cursor: it starts at a character boundary no later than the cursor
/// (taken back to a boundary within the text), holds only word characters,
/// and is not preceded by one.
pub proof fn completed_word_is_the_run_before_the_cursor(s: Seq<char>, cursor: int)
    ensures
        ({
            let ci = cursor_index(s, cursor);
            let fi = word_start_index(s, ci);
            &&& 0 <= fi <= ci <= s.len()
            &&& ci > 0 ==> byte_offset(s, ci) <= cursor
            &&& completion_from(s, cursor) == byte_offset(s, fi)
            &&& completion_from(s, cursor) <= byte_offset(s, ci)
            &&& forall|k: int| fi <= k < ci ==> is_word_char(#[trigger] s[k])
            &&& fi == 0 || !is_word_char(s[fi - 1])
        }),
{
    let b = if cursor < byte_len(s) { cursor } else { byte_len(s) as int };
    lemma_last_index_bounds(s, b, s.len() as int);
    let ci = cursor_index(s, cursor);
    lemma_word_start(s, ci);
    lemma_byte_offset_mono(s, word_start_index(s, ci), ci);
}

proof fn lemma_skip_forward(s: Seq<char>, k: int, limit: int)
    requires
        0 <= k <= limit <= s.len(),
    ensures
        k <= skip_word_forward(s, k, limit) <= limit,
        skip_word_forward(s, k, limit) < limit ==> !is_word_char(s[skip_word_forward(s, k, limit)]),
    decreases limit - k,
{
    if k < limit && is_word_char(s[k]) {
        lemma_skip_forward(s, k + 1, limit);
    }
}

proof fn lemma_skip_backward(s: Seq<char>, k: int, limit: int)
    requires
        0 <= limit <= k <= s.len(),
    ensures
        limit <= skip_word_backward(s, k, limit) <= k,
        skip_word_backward(s, k, limit) > limit ==> !is_word_char(s[skip_word_backward(s, k, limit) - 1]),
    decreases k,
{
    if k > limit && k > 0 && is_word_char(s[k - 1]) {
        lemma_skip_backward(s, k - 1, limit);
    }
}

/// The scanned window holds the cursor, lies within the text, is the
/// whole text when the text is no longer than the scan radius, and cuts a
/// word only at the cursor.
pub proof fn completion_window_holds_the_cursor(s: Seq<char>, ci: int)
    requires
        0 <= ci <= s.len(),
    ensures
        0 <= window_start(s, ci) <= ci <= window_end(s, ci) <= s.len(),
        byte_len(s) <= DOCUMENT_COMPLETION_RADIUS ==> window_start(s, ci) == 0 && window_end(s, ci) == s.len(),
        window_start(s, ci) > 0 && is_word_char(s[window_start(s, ci) - 1]) ==> window_start(s, ci) == ci
            || !is_word_char(s[window_start(s, ci)]),
        window_end(s, ci) < s.len() && window_end(s, ci) > 0 && is_word_char(s[window_end(s, ci) - 1])
            ==> window_end(s, ci) == ci || !is_word_char(s[window_end(s, ci)]) || !is_word_char(s[window_end(s, ci) - 1]),
{
    let cb = byte_offset(s, ci) as int;
    let r = DOCUMENT_COMPLETION_RADIUS as int;
    lemma_byte_offset_mono(s, ci, s.len() as int);
    lemma_byte_offset_full(s);
    let lo = if cb >= r { cb - r } else { 0 };
    let hi = if cb + r < byte_len(s) { cb + r } else { byte_len(s) as int };
    lemma_boundary_le(s, lo, ci);
    lemma_boundary_ge(s, hi, ci);
    lemma_last_index_bounds(s, lo, s.len() as int);
    lemma_last_index_bounds(s, hi, s.len() as int);
    let start0 = boundary_index(s, lo);
    let end0 = boundary_index(s, hi);
    if start0 > 0 && is_word_char(s[start0 - 1]) {
        lemma_skip_forward(s, start0, ci);
    }
    if end0 < s.len() && end0 > 0 && is_word_char(s[end0 - 1]) {
        lemma_skip_backward(s, end0, ci);
    }
    if byte_len(s) <= r {
        assert(lo == 0);
        assert(byte_offset(s, 0) == 0);
        assert(hi == byte_len(s));
        assert(byte_offset(s, s.len() as int) == byte_len(s));
    }
}

/// The scanned window reaches no further than `DOCUMENT_COMPLETION_RADIUS`
/// bytes past the cursor, and begins no more than that radius and the three
/// further bytes of one character before it.
pub proof fn completion_window_stays_near_the_cursor(s: Seq<char>, ci: int)
    requires
        0 <= ci <= s.len(),
    ensures
        byte_offset(s, window_end(s, ci)) <= byte_offset(s, ci) + DOCUMENT_COMPLETION_RADIUS,
        byte_offset(s, ci) <= byte_offset(s, window_start(s, ci)) + DOCUMENT_COMPLETION_RADIUS + 3,
{
    completion_window_holds_the_cursor(s, ci);
    let cb = byte_offset(s, ci) as int;
    let r = DOCUMENT_COMPLETION_RADIUS as int;
    lemma_byte_offset_mono(s, ci, s.len() as int);
    lemma_byte_offset_full(s);
    let lo = if cb >= r { cb - r } else { 0 };
    let hi = if cb + r < byte_len(s) { cb + r } else { byte_len(s) as int };
    lemma_last_index_bounds(s, lo, s.len() as int);
    lemma_last_index_bounds(s, hi, s.len() as int);
    let start0 = boundary_index(s, lo);
    let end0 = boundary_index(s, hi);
    if end0 < s.len() && end0 > 0 && is_word_char(s[end0 - 1]) {
        lemma_skip_backward(s, end0, ci);
    }
    lemma_byte_offset_mono(s, window_end(s, ci), end0);
    assert(byte_offset(s, 0) == 0);
    if start0 > 0 && is_word_char(s[start0 - 1]) {
        lemma_boundary_le(s, lo, ci);
        lemma_skip_forward(s, start0, ci);
    }
    lemma_byte_offset_mono(s, start0, window_start(s, ci));
    if start0 < s.len() {
        lemma_byte_offset_step(s, start0);
    }
}

/// `char::is_alphanumeric`: the Unicode `Alphabetic` or `Numeric` property.
pub uninterp spec fn is_alphanumeric_spec(c: char) -> bool;

/// Calls `char::is_alphanumeric`; its result is named by `is_alphanumeric_spec`.
/// Among ASCII characters exactly the letters and digits are alphanumeric.
#[verifier::external_body]
pub fn is_alphanumeric(c: char) -> (b: bool)
    ensures
        b == is_alphanumeric_spec(c),
        (c as u32) < 128 ==> (b <==> (('0' <= c <= '9') || ('a' <= c <= 'z') || ('A' <= c <= 'Z'))),
{
    c.is_alphanumeric()
}

/// Index of the character boundary at or before byte `b`, from the byte offsets of `s`.
fn char_boundary_at_or_before(s: &Vec<char>, offsets: &Vec<usize>, b: usize) -> (i: usize)
    requires
        offsets@.len() == s@.len() + 1,
        forall|k: int| 0 <= k <= s@.len() ==> #[trigger] offsets@[k] == byte_offset(s@, k),
    ensures
        i == boundary_index(s@, b as int),
        i <= s@.len(),
{
    let mut i = s.len();
    while i > 0 && offsets[i] > b
        invariant
            i <= s@.len(),
            offsets@.len() == s@.len() + 1,
            forall|k: int| 0 <= k <= s@.len() ==> #[trigger] offsets@[k] == byte_offset(s@, k),
            last_index_at_or_below(s@, b as int, s@.len() as int) == last_index_at_or_below(
                s@,
                b as int,
                i as int,
            ),
        decreases i,
    {
        i = i - 1;
    }
    i
}

/// Start of the word that ends at character index `i`.
fn word_start(s: &Vec<char>, i: usize) -> (r: usize)
    requires
        i <= s@.len(),
    ensures
        r == word_start_index(s@, i as int),
        r <= i,
{
    let mut j = i;
    while j > 0 && is_word_character(s[j - 1])
        invariant
            j <= i <= s@.len(),
            word_start_index(s@, i as int) == word_start_index(s@, j as int),
        decreases j,
    {
        j = j - 1;
    }
    j
}

/// Bounds of the window of characters scanned for document words.
fn completion_window(s: &Vec<char>, offsets: &Vec<usize>, ci: usize) -> (r: (usize, usize))
    requires
        ci <= s@.len(),
        offsets@.len() == s@.len() + 1,
        forall|k: int| 0 <= k <= s@.len() ==> #[trigger] offsets@[k] == byte_offset(s@, k),
    ensures
        r.0 == window_start(s@, ci as int),
        r.1 == window_end(s@, ci as int),
        r.0 <= r.1 <= s@.len(),
{
    proof {
        lemma_byte_offset_full(s@);
        lemma_byte_offset_mono(s@, ci as int, s@.len() as int);
        lemma_last_index_bounds(s@, 0, s@.len() as int);
    }
    let cb = offsets[ci];
    let total = offsets[s.len()];
    let low = if cb >= DOCUMENT_COMPLETION_RADIUS {
        cb - DOCUMENT_COMPLETION_RADIUS
    } else {
        0
    };
    let mut start = char_boundary_at_or_before(s, offsets, low);
    proof {
        lemma_boundary_le(s@, low as int, ci as int);
    }
    if start > 0 && is_word_character(s[start - 1]) {
        while start < ci && is_word_character(s[start])
            invariant
                start <= ci <= s@.len(),
                skip_word_forward(s@, start as int, ci as int) == window_start(s@, ci as int),
            decreases ci - start,
        {
            start = start + 1;
        }
    }
    let high = if total >= DOCUMENT_COMPLETION_RADIUS && cb < total - DOCUMENT_COMPLETION_RADIUS {
        cb + DOCUMENT_COMPLETION_RADIUS
    } else {
        total
    };
    let mut end = char_boundary_at_or_before(s, offsets, high);
    proof {
        lemma_boundary_ge(s@, high as int, ci as int);
    }
    if end < s.len() && end > 0 && is_word_character(s[end - 1]) {
        while end > ci && is_word_character(s[end - 1])
            invariant
                ci <= end <= s@.len(),
                skip_word_backward(s@, end as int, ci as int) == window_end(s@, ci as int),
            decreases end,
        {
            end = end - 1;
        }
    }
    proof {
        assert(start <= ci <= end);
    }
    (start, end)
}

proof fn lemma_last_index_bounds(s: Seq<char>, b: int, i: int)
    requires
        0 <= i <= s.len(),
    ensures
        0 <= last_index_at_or_below(s, b, i) <= i,
        last_index_at_or_below(s, b, i) > 0 ==> byte_offset(s, last_index_at_or_below(s, b, i))
            <= b,
        forall|k: int|
            last_index_at_or_below(s, b, i) < k <= i ==> byte_offset(s, k) > b,
    decreases i,
{
    if i > 0 && byte_offset(s, i) > b {
        lemma_last_index_bounds(s, b, i - 1);
    }
}

/// The boundary at or before a byte offset at most that of `ci` lies at or before `ci`.
proof fn lemma_boundary_le(s: Seq<char>, b: int, ci: int)
    requires
        0 <= ci <= s.len(),
        b <= byte_offset(s, ci),
    ensures
        boundary_index(s, b) <= ci,
{
    lemma_last_index_bounds(s, b, s.len() as int);
    let r = boundary_index(s, b);
    if r > ci {
        lemma_byte_offset_mono(s, ci, r);
    }
}

/// The boundary at or before a byte offset at least that of `ci` lies at or after `ci`.
proof fn lemma_boundary_ge(s: Seq<char>, b: int, ci: int)
    requires
        0 <= ci <= s.len(),
        b >= byte_offset(s, ci),
    ensures
        boundary_index(s, b) >= ci,
{
    lemma_last_index_bounds(s, b, s.len() as int);
    let r = boundary_index(s, b);
    if r < ci {
        assert(byte_offset(s, ci) > b);
    }
}

/// One step of `collect`: adds `w` when it is a new match for `prefix`.
fn collect_step(options: &mut Vec<Vec<char>>, w: &Vec<char>, prefix: &Vec<char>)
    ensures
        final(options)@.map_values(|o: Vec<char>| o@) == (if w@ != prefix@ && starts_with(
            w@,
            prefix@,
        ) && !old(options)@.map_values(|o: Vec<char>| o@).contains(w@) {
            old(options)@.map_values(|o: Vec<char>| o@).push(w@)
        } else {
            old(options)@.map_values(|o: Vec<char>| o@)
        }),
{
    let ghost before = options@.map_values(|o: Vec<char>| o@);
    if seq_eq(w, prefix) || !seq_starts_with(w, prefix) {
        return ;
    }
    let mut k: usize = 0;
    while k < options.len()
        invariant
            k <= options@.len(),
            before == options@.map_values(|o: Vec<char>| o@),
            forall|j: int| 0 <= j < k ==> options@[j]@ != w@,
        decreases options@.len() - k,
    {
        if seq_eq(&options[k], w) {
            proof {
                assert(before[k as int] == w@);
            }
            return ;
        }
        k = k + 1;
    }
    proof {
        assert forall|j: int| 0 <= j < before.len() implies before[j] != w@ by {
            assert(before[j] == options@[j]@);
        }
    }
    options.push(w.clone());
    proof {
        assert(options@.map_values(|o: Vec<char>| o@) =~= before.push(w@));
    }
}

/// Collect up to `limit` completion candidates from `source`.
pub fn complete_any_word(source: &str, cursor: usize, limit: usize) -> (r: WordCompletions)
    requires
        byte_len(source@) <= usize::MAX,
    ensures
        r.from == completion_from(source@, cursor as int),
        r.options@.map_values(|o: String| o@) == completion_options(
            source@,
            cursor as int,
            Seq::empty(),
            limit as nat,
        ),
{
    let r = complete_with_words(source, cursor, &[], limit);
    proof {
        let e: Seq<String> = Seq::empty();
        assert(e.map_values(|w: String| w@) =~= Seq::<Seq<char>>::empty());
    }
    r
}

/// Complete from a maintained dictionary and words near the cursor.
///
/// Dictionary candidates are considered first. Document scanning is bounded to
/// keep automatic completion responsive for large buffers.
#[verifier::loop_isolation(false)]
pub fn complete_with_words(source: &str, cursor: usize, dictionary: &[String], limit: usize) -> (r:
    WordCompletions)
    requires
        byte_len(source@) <= usize::MAX,
    ensures
        r.from == completion_from(source@, cursor as int),
        r.options@.map_values(|o: String| o@) == completion_options(
            source@,
            cursor as int,
            dictionary@.map_values(|w: String| w@),
            limit as nat,
        ),
{
    let s = chars_of(source);
    proof {
        lemma_str_len(source);
    }
    let offsets = byte_offsets(&s);
    let total = offsets[s.len()];
    proof {
        lemma_byte_offset_full(s@);
    }
    let clamped = if cursor < total {
        cursor
    } else {
        total
    };
    let ci = char_boundary_at_or_before(&s, &offsets, clamped);
    proof {
        assert(ci == cursor_index(source@, cursor as int));
    }
    let fi = word_start(&s, ci);
    proof {
        lemma_byte_offset_mono(s@, fi as int, s@.len() as int);
    }
    let from = offsets[fi];
    let prefix = slice_to_vec(&s, fi, ci);
    let ghost dict = dictionary@.map_values(|w: String| w@);
    let ghost words = scan_words(
        s@,
        window_start(s@, ci as int),
        window_end(s@, ci as int),
        None,
        fi as int,
    );
    let ghost goal = collect(dict + words, prefix@, limit as nat, Seq::empty());
    proof {
        lemma_collect_concat(dict, words, prefix@, limit as nat, Seq::empty());
    }
    let mut options: Vec<Vec<char>> = Vec::new();
    proof {
        assert(goal == completion_options(
            source@,
            cursor as int,
            dictionary@.map_values(|w: String| w@),
            limit as nat,
        ));
        assert(dict.skip(0) =~= dict);
        assert(options@.map_values(|o: Vec<char>| o@) =~= Seq::<Seq<char>>::empty());
    }
    if limit == 0 {
        proof {
            assert(options@.map_values(|o: Vec<char>| o@) =~= Seq::<Seq<char>>::empty());
        }
        return WordCompletions { from, options: Vec::new() };
    }
    let mut d: usize = 0;
    while d < dictionary.len()
        invariant
            d <= dictionary@.len(),
            dict == dictionary@.map_values(|w: String| w@),
            options@.map_values(|o: Vec<char>| o@).len() < limit,
            goal == collect(
                words,
                prefix@,
                limit as nat,
                collect(dict.skip(d as int), prefix@, limit as nat, options@.map_values(
                    |o: Vec<char>| o@,
                )),
            ),
        decreases dictionary@.len() - d,
    {
        let w = chars_of(dictionary[d].as_str());
        proof {
            assert(dict.skip(d as int)[0] == w@);
            assert(dict.skip(d as int).drop_first() =~= dict.skip(d + 1));
        }
        collect_step(&mut options, &w, &prefix);
        d = d + 1;
        if options.len() == limit {
            proof {
                assert(options@.map_values(|o: Vec<char>| o@).len() == limit);
                lemma_collect_done(
                    dict.skip(d as int),
                    prefix@,
                    limit as nat,
                    options@.map_values(|o: Vec<char>| o@),
                );
                lemma_collect_done(
                    words,
                    prefix@,
                    limit as nat,
                    options@.map_values(|o: Vec<char>| o@),
                );
            }
            return WordCompletions { from, options: to_strings(&options) };
        }
    }
    proof {
        assert(dict.skip(d as int) =~= Seq::<Seq<char>>::empty());
    }
    let (ws, we) = completion_window(&s, &offsets, ci);
    let mut i = ws;
    let mut run: Option<usize> = None;
    while i < we
        invariant
            ws <= i <= we <= s@.len(),
            fi <= s@.len(),
            run matches Some(st) ==> st < i,
            options@.map_values(|o: Vec<char>| o@).len() < limit,
            goal == collect(
                scan_words(s@, i as int, we as int, match run {
                    Some(st) => Some(st as int),
                    None => None,
                }, fi as int),
                prefix@,
                limit as nat,
                options@.map_values(|o: Vec<char>| o@),
            ),
        decreases we - i,
    {
        if is_word_character(s[i]) {
            if run.is_none() {
                run = Some(i);
            }
            i = i + 1;
        } else {
            let ghost rest = scan_words(s@, i + 1, we as int, None, fi as int);
            if let Some(st) = run {
                if st != fi {
                    let w = slice_to_vec(&s, st, i);
                    proof {
                        let em = seq![s@.subrange(st as int, i as int)];
                        assert((em + rest)[0] == w@);
                        assert((em + rest).drop_first() =~= rest);
                    }
                    collect_step(&mut options, &w, &prefix);
                } else {
                    proof {
                        assert(Seq::<Seq<char>>::empty() + rest =~= rest);
                    }
                }
            } else {
                proof {
                    assert(Seq::<Seq<char>>::empty() + rest =~= rest);
                }
            }
            run = None;
            i = i + 1;
            if options.len() == limit {
                proof {
                    lemma_collect_done(
                        rest,
                        prefix@,
                        limit as nat,
                        options@.map_values(|o: Vec<char>| o@),
                    );
                }
                return WordCompletions { from, options: to_strings(&options) };
            }
        }
    }
    proof {
        let ov = options@.map_values(|o: Vec<char>| o@);
        assert(collect(Seq::<Seq<char>>::empty(), prefix@, limit as nat, ov) == ov);
    }
    if let Some(st) = run {
        if st != fi {
            let w = slice_to_vec(&s, st, we);
            proof {
                assert(seq![s@.subrange(st as int, we as int)][0] == w@);
                assert(seq![s@.subrange(st as int, we as int)].drop_first() =~= Seq::<
                    Seq<char>,
                >::empty());
            }
            collect_step(&mut options, &w, &prefix);
            proof {
                let ov = options@.map_values(|o: Vec<char>| o@);
                assert(collect(Seq::<Seq<char>>::empty(), prefix@, limit as nat, ov) == ov);
            }
        }
    }
    WordCompletions { from, options: to_strings(&options) }
}

/// The strings spelled by each character vector.
fn to_strings(v: &Vec<Vec<char>>) -> (r: Vec<String>)
    ensures
        r@.map_values(|o: String| o@) == v@.map_values(|o: Vec<char>| o@),
{
    let mut r: Vec<String> = Vec::new();
    let mut i: usize = 0;
    while i < v.len()
        invariant
            i <= v@.len(),
            r@.map_values(|o: String| o@) =~= v@.take(i as int).map_values(|o: Vec<char>| o@),
        decreases v@.len() - i,
    {
        let s = string_from_chars(v[i].as_slice());
        r.push(s);
        i = i + 1;
        proof {
            assert(v@.take(i as int).map_values(|o: Vec<char>| o@) =~= v@.take(i - 1).map_values(
                |o: Vec<char>| o@,
            ).push(v@[i - 1]@));
        }
    }
    proof {
        assert(v@.take(i as int) =~= v@);
    }
    r
}

} // verus!
