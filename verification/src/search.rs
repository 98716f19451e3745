//! Find and replace in a document, literal or by regular expression, with
//! case and whole-word options.
use vstd::prelude::*;
use crate::completion::{is_alphanumeric, is_alphanumeric_spec};
use crate::text::{
    byte_len, byte_offset, byte_offsets, chars_of, lemma_byte_offset_injective,
    lemma_byte_offset_mono, lemma_str_len, string_from_chars,
};

verus! {

#[verifier::external_type_specification]
#[verifier::external_body]
pub struct ExRegex(regex::Regex);

#[verifier::external_type_specification]
#[verifier::external_body]
pub struct ExRegexError(regex::Error);

#[verifier::external_type_specification]
#[verifier::external_body]
pub struct ExCaptures<'h>(regex::Captures<'h>);

#[derive(Clone, Copy, Debug, PartialEq, Eq, Structural)]
pub struct SearchOptions {
    pub case_sensitive: bool,
    pub whole_word: bool,
    pub regex: bool,
}

impl Default for SearchOptions {
    fn default() -> (r: Self)
        ensures
            r == (SearchOptions { case_sensitive: false, whole_word: false, regex: false }),
    {
        SearchOptions { case_sensitive: false, whole_word: false, regex: false }
    }
}

/// The characters a regex gives a meaning of their own.
pub open spec fn is_meta_character(c: char) -> bool {
    c == '\\' || c == '.' || c == '+' || c == '*' || c == '?' || c == '(' || c == ')' || c == '|'
        || c == '[' || c == ']' || c == '{' || c == '}' || c == '^' || c == '$' || c == '#' || c == '&'
        || c == '-' || c == '~'
}

/// `regex::escape`: `text` with a backslash before each meta character, the
/// pattern that matches `text` literally.
pub open spec fn regex_escape(text: Seq<char>) -> Seq<char>
    decreases text.len(),
{
    if text.len() == 0 {
        Seq::empty()
    } else {
        let rest = regex_escape(text.drop_last());
        if is_meta_character(text.last()) {
            rest + seq!['\\', text.last()]
        } else {
            rest.push(text.last())
        }
    }
}

/// Whether `pattern` builds into a regex with the given case-insensitivity
/// and with multi-line anchors (`RegexBuilder::build`).
pub uninterp spec fn regex_compiles(pattern: Seq<char>, case_insensitive: bool) -> bool;

/// The successive non-overlapping matches of the built regex in `haystack`,
/// as byte ranges (`Regex::find_iter`).
pub uninterp spec fn regex_find_all(pattern: Seq<char>, case_insensitive: bool, haystack: Seq<char>) -> Seq<(usize, usize)>;

/// The byte range of the first match that starts the search at `start`,
/// if any (`Regex::captures_at`, then `Captures::get_match`).
pub uninterp spec fn regex_capture_span(
    pattern: Seq<char>,
    case_insensitive: bool,
    haystack: Seq<char>,
    start: int,
) -> Option<(usize, usize)>;

/// `replacement` with its `$name` references filled from the capture groups
/// of that match (`Captures::expand`).
pub uninterp spec fn regex_expand(
    pattern: Seq<char>,
    case_insensitive: bool,
    haystack: Seq<char>,
    start: int,
    replacement: Seq<char>,
) -> Seq<char>;

/// A byte offset that falls between two characters of `s`.
pub open spec fn on_char_boundary(s: Seq<char>, b: int) -> bool {
    exists|i: int| 0 <= i <= s.len() && #[trigger] byte_offset(s, i) == b
}

/// Ranges that lie in `s` on character boundaries, each starting no earlier
/// than the previous one ended.
pub open spec fn ordered_ranges(s: Seq<char>, ranges: Seq<(usize, usize)>) -> bool {
    &&& forall|k: int| 0 <= k < ranges.len() ==> {
        &&& (#[trigger] ranges[k]).0 <= ranges[k].1
        &&& ranges[k].1 <= byte_len(s)
        &&& on_char_boundary(s, ranges[k].0 as int)
        &&& on_char_boundary(s, ranges[k].1 as int)
    }
    &&& forall|k: int| 0 < k < ranges.len() ==> (#[trigger] ranges[k]).0 >= ranges[k - 1].1
}

/// A compiled search, with the pattern and case mode it was built from.
pub struct SearchExpression {
    regex: regex::Regex,
    pattern: Ghost<Seq<char>>,
    case_insensitive: Ghost<bool>,
}

impl SearchExpression {
    pub closed spec fn pattern(&self) -> Seq<char> {
        self.pattern@
    }

    pub closed spec fn case_insensitive(&self) -> bool {
        self.case_insensitive@
    }
}

/// One match found by `captures_at`, with what the search was given.
pub struct CaptureMatch<'h> {
    captures: regex::Captures<'h>,
    pattern: Ghost<Seq<char>>,
    case_insensitive: Ghost<bool>,
    haystack: Ghost<Seq<char>>,
    start: Ghost<int>,
}

impl<'h> CaptureMatch<'h> {
    pub closed spec fn pattern(&self) -> Seq<char> {
        self.pattern@
    }

    pub closed spec fn case_insensitive(&self) -> bool {
        self.case_insensitive@
    }

    pub closed spec fn haystack(&self) -> Seq<char> {
        self.haystack@
    }

    pub closed spec fn start(&self) -> int {
        self.start@
    }
}

/// Calls `regex::escape`.
#[verifier::external_body]
fn escape(text: &str) -> (r: String)
    ensures
        r@ == regex_escape(text@),
{
    regex::escape(text)
}

/// Builds `pattern` with `RegexBuilder`, case-insensitive as asked and with
/// multi-line anchors; it succeeds exactly when `regex_compiles` holds.
#[verifier::external_body]
fn compile(pattern: &str, case_insensitive: bool) -> (r: Result<SearchExpression, regex::Error>)
    ensures
        r is Ok <==> regex_compiles(pattern@, case_insensitive),
        r matches Ok(e) ==> e.pattern() == pattern@ && e.case_insensitive() == case_insensitive,
{
    match regex::RegexBuilder::new(pattern).case_insensitive(case_insensitive).multi_line(true).build() {
        Ok(regex) => Ok(SearchExpression { regex, pattern: Ghost(pattern@), case_insensitive: Ghost(case_insensitive) }),
        Err(error) => Err(error),
    }
}

/// The text of a build error (`regex::Error`'s `Display`); nothing is
/// promised of its wording.
#[verifier::external_body]
fn error_message(error: &regex::Error) -> String {
    error.to_string()
}

/// Calls `Regex::find_iter` and keeps each match's byte range. The regex
/// documentation promises successive non-overlapping matches whose offsets
/// fall on character boundaries.
#[verifier::external_body]
fn find_all(expression: &SearchExpression, haystack: &str) -> (r: Vec<(usize, usize)>)
    ensures
        r@ == regex_find_all(expression.pattern(), expression.case_insensitive(), haystack@),
        ordered_ranges(haystack@, r@),
{
    expression.regex.find_iter(haystack).map(|found| (found.start(), found.end())).collect()
}

/// Calls `Regex::captures_at`, which panics unless `start` is at most the
/// haystack's length.
#[verifier::external_body]
fn captures_at<'h>(expression: &SearchExpression, haystack: &'h str, start: usize) -> (r: Option<CaptureMatch<'h>>)
    requires
        start <= byte_len(haystack@),
    ensures
        r is Some <==> regex_capture_span(expression.pattern(), expression.case_insensitive(), haystack@, start as int) is Some,
        r matches Some(c) ==> {
            &&& c.pattern() == expression.pattern()
            &&& c.case_insensitive() == expression.case_insensitive()
            &&& c.haystack() == haystack@
            &&& c.start() == start
        },
{
    match expression.regex.captures_at(haystack, start) {
        Some(captures) => Some(CaptureMatch {
            captures,
            pattern: Ghost(expression.pattern@),
            case_insensitive: Ghost(expression.case_insensitive@),
            haystack: Ghost(haystack@),
            start: Ghost(start as int),
        }),
        None => None,
    }
}

/// Calls `Captures::get_match`: the byte range of the whole match.
#[verifier::external_body]
fn capture_span(found: &CaptureMatch) -> (r: (usize, usize))
    requires
        regex_capture_span(found.pattern(), found.case_insensitive(), found.haystack(), found.start()) is Some,
    ensures
        regex_capture_span(found.pattern(), found.case_insensitive(), found.haystack(), found.start()) == Some(r),
{
    let whole = found.captures.get_match();
    (whole.start(), whole.end())
}

/// Calls `Captures::expand` into an empty string.
#[verifier::external_body]
fn expand(found: &CaptureMatch, replacement: &str) -> (r: String)
    ensures
        r@ == regex_expand(found.pattern(), found.case_insensitive(), found.haystack(), found.start(), replacement@),
{
    let mut expanded = String::new();
    found.captures.expand(replacement, &mut expanded);
    expanded
}

/// The pattern searched for: the query itself in regex mode, else the query
/// escaped so that it matches literally.
pub open spec fn search_pattern(query: Seq<char>, options: SearchOptions) -> Seq<char> {
    if options.regex {
        query
    } else {
        regex_escape(query)
    }
}

/// Characters that continue a word for whole-word search.
pub open spec fn search_word_char(c: char) -> bool {
    is_alphanumeric_spec(c) || c == '_'
}

/// The character index of `s` whose byte offset is `b`.
pub open spec fn char_index(s: Seq<char>, b: int) -> int {
    choose|i: int| 0 <= i <= s.len() && byte_offset(s, i) == b
}

/// The match `start..end` is neither preceded nor followed by a word character.
pub open spec fn whole_word_at(s: Seq<char>, start: int, end: int) -> bool {
    let i = char_index(s, start);
    let j = char_index(s, end);
    (i == 0 || !search_word_char(s[i - 1])) && (j == s.len() || !search_word_char(s[j]))
}

pub open spec fn keeps(s: Seq<char>, m: (usize, usize), whole_word: bool) -> bool {
    !whole_word || whole_word_at(s, m.0 as int, m.1 as int)
}

/// The matches that pass the whole-word option, in order.
pub open spec fn kept_matches(s: Seq<char>, found: Seq<(usize, usize)>, whole_word: bool) -> Seq<(usize, usize)>
    decreases found.len(),
{
    if found.len() == 0 {
        Seq::empty()
    } else {
        let rest = kept_matches(s, found.drop_last(), whole_word);
        if keeps(s, found.last(), whole_word) {
            rest.push(found.last())
        } else {
            rest
        }
    }
}

/// The byte ranges a search reports.
pub open spec fn search_matches(source: Seq<char>, query: Seq<char>, options: SearchOptions) -> Seq<(usize, usize)> {
    kept_matches(
        source,
        regex_find_all(search_pattern(query, options), !options.case_sensitive, source),
        options.whole_word,
    )
}

/// Whether the search's pattern builds.
pub open spec fn search_compiles(query: Seq<char>, options: SearchOptions) -> bool {
    regex_compiles(search_pattern(query, options), !options.case_sensitive)
}

/// The text that replaces the match `m` found by `pattern`: when capture
/// references are expanded and a search from the match's start finds that
/// same match, the replacement with its references filled in; otherwise the
/// replacement as written.
pub open spec fn expansion_for(
    pattern: Seq<char>,
    case_insensitive: bool,
    source: Seq<char>,
    m: (usize, usize),
    replacement: Seq<char>,
    expand_captures: bool,
) -> Seq<char> {
    if !expand_captures {
        replacement
    } else {
        match regex_capture_span(pattern, case_insensitive, source, m.0 as int) {
            Some(span) => if span == m {
                regex_expand(pattern, case_insensitive, source, m.0 as int, replacement)
            } else {
                replacement
            },
            None => replacement,
        }
    }
}

/// The text that replaces the match `m` of a search; capture references are
/// expanded in regex mode only.
pub open spec fn replacement_for(
    source: Seq<char>,
    query: Seq<char>,
    options: SearchOptions,
    m: (usize, usize),
    replacement: Seq<char>,
) -> Seq<char> {
    expansion_for(search_pattern(query, options), !options.case_sensitive, source, m, replacement, options.regex)
}

/// `s` with each range in `ranges` from the `k`-th on replaced by the text
/// at the same place in `texts`, copying `s` from character `pos`.
pub open spec fn splice_from(
    s: Seq<char>,
    ranges: Seq<(usize, usize)>,
    texts: Seq<Seq<char>>,
    k: int,
    pos: int,
) -> Seq<char>
    decreases ranges.len() - k,
{
    if k >= ranges.len() || k < 0 {
        s.subrange(pos, s.len() as int)
    } else {
        s.subrange(pos, char_index(s, ranges[k].0 as int)) + texts[k] + splice_from(
            s,
            ranges,
            texts,
            k + 1,
            char_index(s, ranges[k].1 as int),
        )
    }
}

/// `source` with every reported match replaced.
pub open spec fn replaced_all(
    source: Seq<char>,
    query: Seq<char>,
    options: SearchOptions,
    replacement: Seq<char>,
) -> Seq<char> {
    let ranges = search_matches(source, query, options);
    splice_from(
        source,
        ranges,
        ranges.map_values(|m: (usize, usize)| replacement_for(source, query, options, m, replacement)),
        0,
        0,
    )
}

/// `source` with the one match `m` replaced.
pub open spec fn replaced_one(
    source: Seq<char>,
    query: Seq<char>,
    options: SearchOptions,
    m: (usize, usize),
    replacement: Seq<char>,
) -> Seq<char> {
    source.take(char_index(source, m.0 as int)) + replacement_for(source, query, options, m, replacement)
        + source.skip(char_index(source, m.1 as int))
}

proof fn lemma_ordered_pairwise(s: Seq<char>, ranges: Seq<(usize, usize)>, i: int, j: int)
    requires
        ordered_ranges(s, ranges),
        0 <= i < j < ranges.len(),
    ensures
        ranges[i].1 <= ranges[j].0,
    decreases j - i,
{
    if i < j - 1 {
        lemma_ordered_pairwise(s, ranges, i, j - 1);
        assert(ranges[j - 1].0 <= ranges[j - 1].1);
    }
}

proof fn lemma_kept_bounded(s: Seq<char>, found: Seq<(usize, usize)>, whole_word: bool, b: int)
    requires
        forall|k: int| 0 <= k < found.len() ==> (#[trigger] found[k]).1 <= b,
    ensures
        forall|k: int| 0 <= k < kept_matches(s, found, whole_word).len()
            ==> (#[trigger] kept_matches(s, found, whole_word)[k]).1 <= b,
    decreases found.len(),
{
    if found.len() > 0 {
        let rest = found.drop_last();
        assert forall|k: int| 0 <= k < rest.len() implies (#[trigger] rest[k]).1 <= b by {
            assert(rest[k] == found[k]);
        }
        lemma_kept_bounded(s, rest, whole_word, b);
        let kept = kept_matches(s, rest, whole_word);
        assert(found.last() == found[found.len() - 1]);
        if keeps(s, found.last(), whole_word) {
            let all = kept.push(found.last());
            assert forall|k: int| 0 <= k < all.len() implies (#[trigger] all[k]).1 <= b by {
                if k < kept.len() {
                    assert(all[k] == kept[k]);
                }
            }
        }
    }
}

/// Keeping some of the matches keeps them in order.
proof fn lemma_kept_ordered(s: Seq<char>, found: Seq<(usize, usize)>, whole_word: bool)
    requires
        ordered_ranges(s, found),
    ensures
        ordered_ranges(s, kept_matches(s, found, whole_word)),
        kept_matches(s, found, whole_word).len() <= found.len(),
    decreases found.len(),
{
    if found.len() > 0 {
        let rest = found.drop_last();
        lemma_kept_ordered(s, rest, whole_word);
        assert forall|k: int| 0 <= k < rest.len() implies (#[trigger] rest[k]).1 <= found.last().0 by {
            lemma_ordered_pairwise(s, found, k, found.len() - 1);
        }
        lemma_kept_bounded(s, rest, whole_word, found.last().0 as int);
        let kept = kept_matches(s, rest, whole_word);
        if keeps(s, found.last(), whole_word) {
            let all = kept.push(found.last());
            assert forall|k: int| 0 < k < all.len() implies (#[trigger] all[k]).0 >= all[k - 1].1 by {
                if k == all.len() - 1 {
                    assert(all[k - 1] == kept[k - 1]);
                } else {
                    assert(all[k] == kept[k] && all[k - 1] == kept[k - 1]);
                }
            }
        }
    }
}

/// The index of `b` among the byte offsets of the characters, searching from
/// character `from`.
fn char_index_from(s: &Vec<char>, offsets: &Vec<usize>, from: usize, b: usize) -> (i: usize)
    requires
        offsets@.len() == s@.len() + 1,
        forall|k: int| 0 <= k <= s@.len() ==> #[trigger] offsets@[k] == byte_offset(s@, k),
        from <= s@.len(),
        byte_offset(s@, from as int) <= b,
        on_char_boundary(s@, b as int),
    ensures
        from <= i <= s@.len(),
        byte_offset(s@, i as int) == b,
        i == char_index(s@, b as int),
{
    let ghost target = choose|t: int| 0 <= t <= s@.len() && #[trigger] byte_offset(s@, t) == b;
    proof {
        if target < from {
            lemma_byte_offset_mono(s@, target, from as int);
        }
    }
    let n = offsets.len();
    let mut i = from;
    while offsets[i] < b
        invariant
            n == offsets@.len(),
            offsets@.len() == s@.len() + 1,
            forall|k: int| 0 <= k <= s@.len() ==> #[trigger] offsets@[k] == byte_offset(s@, k),
            from <= i <= target,
            0 <= target <= s@.len(),
            byte_offset(s@, target) == b,
        decreases target - i,
    {
        proof {
            if i == target {
                assert(false);
            }
        }
        i = i + 1;
    }
    proof {
        if i < target {
            lemma_byte_offset_mono(s@, i as int, target);
        }
        let c = char_index(s@, b as int);
        lemma_byte_offset_injective(s@, c, i as int);
    }
    i
}

fn search_char(c: char) -> (r: bool)
    ensures
        r == search_word_char(c),
{
    is_alphanumeric(c) || c == '_'
}

/// Whether the match `start..end`, at characters `i..j`, stands as a whole word.
fn is_whole_word(s: &Vec<char>, i: usize, j: usize) -> (r: bool)
    requires
        i <= s@.len(),
        j <= s@.len(),
    ensures
        r == ((i == 0 || !search_word_char(s@[i - 1])) && (j == s@.len() || !search_word_char(s@[j as int]))),
{
    let begins = i == 0 || !search_char(s[i - 1]);
    let ends = j == s.len() || !search_char(s[j]);
    begins && ends
}

fn whole_word_filter(
    source: &str,
    s: &Vec<char>,
    offsets: &Vec<usize>,
    found: &Vec<(usize, usize)>,
    whole_word: bool,
) -> (r: Vec<(usize, usize)>)
    requires
        s@ == source@,
        offsets@.len() == s@.len() + 1,
        forall|k: int| 0 <= k <= s@.len() ==> #[trigger] offsets@[k] == byte_offset(s@, k),
        ordered_ranges(source@, found@),
    ensures
        r@ == kept_matches(source@, found@, whole_word),
        ordered_ranges(source@, r@),
{
    let mut kept: Vec<(usize, usize)> = Vec::new();
    let mut k: usize = 0;
    let mut pos: usize = 0;
    proof {
        assert(found@.take(0) =~= Seq::<(usize, usize)>::empty());
    }
    while k < found.len()
        invariant
            s@ == source@,
            offsets@.len() == s@.len() + 1,
            forall|q: int| 0 <= q <= s@.len() ==> #[trigger] offsets@[q] == byte_offset(s@, q),
            ordered_ranges(source@, found@),
            k <= found@.len(),
            pos <= s@.len(),
            k > 0 ==> byte_offset(s@, pos as int) <= found@[k - 1].1,
            k == 0 ==> pos == 0,
            kept@ == kept_matches(source@, found@.take(k as int), whole_word),
        decreases found@.len() - k,
    {
        let (start, end) = found[k];
        proof {
            if k > 0 {
                assert(found@[k as int].0 >= found@[k - 1].1);
            }
            assert(found@[k as int].0 <= found@[k as int].1);
        }
        let i = char_index_from(s, offsets, pos, start);
        let j = char_index_from(s, offsets, i, end);
        let keep = !whole_word || is_whole_word(s, i, j);
        proof {
            assert(found@.take(k + 1).drop_last() =~= found@.take(k as int));
            assert(found@.take(k + 1).last() == found@[k as int]);
        }
        if keep {
            kept.push((start, end));
        }
        pos = j;
        k = k + 1;
    }
    proof {
        assert(found@.take(found@.len() as int) =~= found@);
        lemma_kept_ordered(source@, found@, whole_word);
    }
    kept
}

/// The matches a search found in `source` (byte ranges on character
/// boundaries, in order) that pass the whole-word option: with it, only
/// those neither preceded nor followed by a letter, digit or `_`.
pub fn kept_search_matches(source: &str, found: &Vec<(usize, usize)>, whole_word: bool) -> (r: Vec<(usize, usize)>)
    requires
        byte_len(source@) <= usize::MAX,
        ordered_ranges(source@, found@),
    ensures
        r@ == kept_matches(source@, found@, whole_word),
        ordered_ranges(source@, r@),
{
    let s = chars_of(source);
    let offsets = byte_offsets(&s);
    whole_word_filter(source, &s, &offsets, found, whole_word)
}

/// The matches of `expression` in `source` that pass the whole-word option.
fn matching_ranges(
    expression: &SearchExpression,
    source: &str,
    s: &Vec<char>,
    offsets: &Vec<usize>,
    whole_word: bool,
) -> (r: Vec<(usize, usize)>)
    requires
        s@ == source@,
        offsets@.len() == s@.len() + 1,
        forall|k: int| 0 <= k <= s@.len() ==> #[trigger] offsets@[k] == byte_offset(s@, k),
    ensures
        r@ == kept_matches(
            source@,
            regex_find_all(expression.pattern(), expression.case_insensitive(), source@),
            whole_word,
        ),
        ordered_ranges(source@, r@),
{
    let found = find_all(expression, source);
    whole_word_filter(source, s, offsets, &found, whole_word)
}

/// Builds the regex for a search, turning a build error into its message.
fn build_search_regex(query: &str, options: SearchOptions) -> (r: Result<SearchExpression, String>)
    ensures
        r is Ok <==> search_compiles(query@, options),
        r matches Ok(e) ==> e.pattern() == search_pattern(query@, options) && e.case_insensitive()
            == !options.case_sensitive,
{
    let pattern = if options.regex {
        query.to_owned()
    } else {
        escape(query)
    };
    match compile(pattern.as_str(), !options.case_sensitive) {
        Ok(expression) => Ok(expression),
        Err(error) => Err(error_message(&error)),
    }
}

/// The replacement text for the match `range`.
fn expand_replacement(
    expression: &SearchExpression,
    source: &str,
    range: (usize, usize),
    replacement: &str,
    expand_captures: bool,
) -> (r: String)
    requires
        range.0 <= byte_len(source@),
    ensures
        r@ == expansion_for(
            expression.pattern(),
            expression.case_insensitive(),
            source@,
            range,
            replacement@,
            expand_captures,
        ),
{
    if !expand_captures {
        return replacement.to_owned();
    }
    match captures_at(expression, source, range.0) {
        None => replacement.to_owned(),
        Some(found) => {
            let (start, end) = capture_span(&found);
            if start != range.0 || end != range.1 {
                replacement.to_owned()
            } else {
                expand(&found, replacement)
            }
        },
    }
}

/// Appends the characters `from..to` of `src` to `dst`.
fn extend_from(dst: &mut Vec<char>, src: &Vec<char>, from: usize, to: usize)
    requires
        from <= to <= src@.len(),
    ensures
        final(dst)@ == old(dst)@ + src@.subrange(from as int, to as int),
{
    let mut i = from;
    while i < to
        invariant
            from <= i <= to <= src@.len(),
            dst@ == old(dst)@ + src@.subrange(from as int, i as int),
        decreases to - i,
    {
        dst.push(src[i]);
        i = i + 1;
        proof {
            assert(src@.subrange(from as int, i as int) =~= src@.subrange(from as int, i - 1).push(src@[i - 1]));
        }
    }
}

/// Finds all matches of `query` in `source`, as byte ranges in order.
///
/// An empty query finds nothing; otherwise the search fails exactly when
/// regex mode is on and `query` is not a valid regex.
pub fn find_matches(source: &str, query: &str, options: SearchOptions) -> (r: Result<Vec<(usize, usize)>, String>)
    requires
        byte_len(source@) <= usize::MAX,
    ensures
        query@.len() == 0 ==> (r matches Ok(v) && v@.len() == 0),
        query@.len() > 0 ==> (r is Ok <==> search_compiles(query@, options)),
        query@.len() > 0 ==> (r matches Ok(v) ==> v@ == search_matches(source@, query@, options)),
        r matches Ok(v) ==> ordered_ranges(source@, v@),
{
    if query.is_empty() {
        return Ok(Vec::new());
    }
    let expression = match build_search_regex(query, options) {
        Ok(expression) => expression,
        Err(message) => return Err(message),
    };
    let s = chars_of(source);
    let offsets = byte_offsets(&s);
    Ok(matching_ranges(&expression, source, &s, &offsets, options.whole_word))
}

/// Replaces one reported match, `range`, in `source`.
///
/// Fails when the query is invalid or `range` is no longer a match.
pub fn replace_search_match(
    source: &str,
    query: &str,
    replacement: &str,
    options: SearchOptions,
    range: (usize, usize),
) -> (r: Result<String, String>)
    requires
        byte_len(source@) <= usize::MAX,
    ensures
        r is Ok <==> search_compiles(query@, options) && search_matches(source@, query@, options).contains(range),
        search_compiles(query@, options) && !search_matches(source@, query@, options).contains(range)
            ==> (r matches Err(message) && message@ == "The selected match is no longer available."@),
        r matches Ok(text) ==> text@ == replaced_one(source@, query@, options, range, replacement@),
{
    let expression = match build_search_regex(query, options) {
        Ok(expression) => expression,
        Err(message) => return Err(message),
    };
    let s = chars_of(source);
    let offsets = byte_offsets(&s);
    let ranges = matching_ranges(&expression, source, &s, &offsets, options.whole_word);
    let mut present = false;
    let mut k: usize = 0;
    while k < ranges.len()
        invariant
            k <= ranges@.len(),
            present <==> exists|q: int| 0 <= q < k && ranges@[q] == range,
        decreases ranges@.len() - k,
    {
        if ranges[k].0 == range.0 && ranges[k].1 == range.1 {
            present = true;
        }
        k = k + 1;
    }
    if !present {
        return Err("The selected match is no longer available.".to_owned());
    }
    let ghost q = choose|q: int| 0 <= q < ranges@.len() && ranges@[q] == range;
    assert(ranges@[q] == range);
    let expanded = expand_replacement(&expression, source, range, replacement, options.regex);
    let i = char_index_from(&s, &offsets, 0, range.0);
    let j = char_index_from(&s, &offsets, 0, range.1);
    let mut out: Vec<char> = Vec::new();
    extend_from(&mut out, &s, 0, i);
    let e = chars_of(expanded.as_str());
    extend_from(&mut out, &e, 0, e.len());
    extend_from(&mut out, &s, j, s.len());
    proof {
        assert(s@.subrange(0, i as int) =~= s@.take(i as int));
        assert(e@.subrange(0, e@.len() as int) =~= e@);
        assert(s@.subrange(j as int, s@.len() as int) =~= s@.skip(j as int));
    }
    Ok(string_from_chars(&out))
}

/// Replaces every reported match in `source`; an empty query changes nothing.
pub fn replace_all_search_matches(
    source: &str,
    query: &str,
    replacement: &str,
    options: SearchOptions,
) -> (r: Result<String, String>)
    requires
        byte_len(source@) <= usize::MAX,
    ensures
        query@.len() == 0 ==> (r matches Ok(text) && text@ == source@),
        query@.len() > 0 ==> (r is Ok <==> search_compiles(query@, options)),
        query@.len() > 0 ==> (r matches Ok(text) ==> text@ == replaced_all(source@, query@, options, replacement@)),
{
    if query.is_empty() {
        return Ok(source.to_owned());
    }
    let expression = match build_search_regex(query, options) {
        Ok(expression) => expression,
        Err(message) => return Err(message),
    };
    let s = chars_of(source);
    let offsets = byte_offsets(&s);
    let ranges = matching_ranges(&expression, source, &s, &offsets, options.whole_word);
    let ghost texts = ranges@.map_values(
        |m: (usize, usize)| replacement_for(source@, query@, options, m, replacement@),
    );
    let ghost total = splice_from(source@, ranges@, texts, 0, 0);
    let mut out: Vec<char> = Vec::new();
    let mut pos: usize = 0;
    let mut k: usize = 0;
    proof {
        assert(out@ + total =~= total);
    }
    while k < ranges.len()
        invariant
            s@ == source@,
            offsets@.len() == s@.len() + 1,
            forall|q: int| 0 <= q <= s@.len() ==> #[trigger] offsets@[q] == byte_offset(s@, q),
            ordered_ranges(source@, ranges@),
            expression.pattern() == search_pattern(query@, options),
            expression.case_insensitive() == !options.case_sensitive,
            texts == ranges@.map_values(
                |m: (usize, usize)| replacement_for(source@, query@, options, m, replacement@),
            ),
            k <= ranges@.len(),
            pos <= s@.len(),
            k > 0 ==> byte_offset(s@, pos as int) == ranges@[k - 1].1,
            k == 0 ==> pos == 0,
            out@ + splice_from(source@, ranges@, texts, k as int, pos as int) == total,
        decreases ranges@.len() - k,
    {
        let (start, end) = ranges[k];
        proof {
            if k > 0 {
                assert(ranges@[k as int].0 >= ranges@[k - 1].1);
            }
            assert(ranges@[k as int].0 <= ranges@[k as int].1);
        }
        let i = char_index_from(&s, &offsets, pos, start);
        let j = char_index_from(&s, &offsets, i, end);
        let expanded = expand_replacement(&expression, source, (start, end), replacement, options.regex);
        let e = chars_of(expanded.as_str());
        let ghost before = out@;
        extend_from(&mut out, &s, pos, i);
        extend_from(&mut out, &e, 0, e.len());
        proof {
            assert(e@.subrange(0, e@.len() as int) =~= e@);
            assert(texts[k as int] == expanded@);
            let rest = splice_from(source@, ranges@, texts, k + 1, j as int);
            assert(splice_from(source@, ranges@, texts, k as int, pos as int) == s@.subrange(
                pos as int,
                i as int,
            ) + texts[k as int] + rest);
            assert(before + (s@.subrange(pos as int, i as int) + texts[k as int] + rest) =~= out@ + rest);
        }
        pos = j;
        k = k + 1;
    }
    extend_from(&mut out, &s, pos, s.len());
    proof {
        assert(splice_from(source@, ranges@, texts, k as int, pos as int) == s@.subrange(pos as int, s@.len() as int));
    }
    Ok(string_from_chars(&out))
}

/// In regex mode, the text put in place of a match is the replacement with
/// its capture references filled in from that match, whenever a search from
/// the match's start finds the same match; in literal mode it is the
/// replacement as written.
pub proof fn regex_replacements_expand_captures(
    source: Seq<char>,
    query: Seq<char>,
    options: SearchOptions,
    m: (usize, usize),
    replacement: Seq<char>,
)
    ensures
        options.regex && regex_capture_span(query, !options.case_sensitive, source, m.0 as int) == Some(m)
            ==> replaced_one(source, query, options, m, replacement) == source.take(char_index(source, m.0 as int))
            + regex_expand(query, !options.case_sensitive, source, m.0 as int, replacement) + source.skip(
            char_index(source, m.1 as int),
        ),
        !options.regex ==> replaced_one(source, query, options, m, replacement) == source.take(
            char_index(source, m.0 as int),
        ) + replacement + source.skip(char_index(source, m.1 as int)),
{
}

/// Replacing a search's only match on its own gives the same text as
/// replacing all its matches: both put the same text in its place.
pub proof fn replacing_the_only_match_is_replacing_all(
    source: Seq<char>,
    query: Seq<char>,
    options: SearchOptions,
    replacement: Seq<char>,
)
    requires
        search_matches(source, query, options).len() == 1,
    ensures
        replaced_one(source, query, options, search_matches(source, query, options)[0], replacement) == replaced_all(
            source,
            query,
            options,
            replacement,
        ),
{
    let ranges = search_matches(source, query, options);
    let m = ranges[0];
    let texts = ranges.map_values(|r: (usize, usize)| replacement_for(source, query, options, r, replacement));
    assert(texts[0] == replacement_for(source, query, options, m, replacement));
    assert(splice_from(source, ranges, texts, 1, char_index(source, m.1 as int)) == source.subrange(
        char_index(source, m.1 as int),
        source.len() as int,
    ));
    assert(replaced_all(source, query, options, replacement) =~= replaced_one(source, query, options, m, replacement));
}

/// Replacing one match inserts, at that match, the text that replacing all
/// matches inserts there: the `k`-th text put in by replace-all is the text
/// replacing the `k`-th match alone puts in.
pub proof fn one_replacement_matches_replace_all(
    source: Seq<char>,
    query: Seq<char>,
    options: SearchOptions,
    replacement: Seq<char>,
    k: int,
)
    requires
        0 <= k < search_matches(source, query, options).len(),
    ensures
        ({
            let ranges = search_matches(source, query, options);
            let m = ranges[k];
            &&& replaced_all(source, query, options, replacement) == splice_from(
                source,
                ranges,
                ranges.map_values(|r: (usize, usize)| replacement_for(source, query, options, r, replacement)),
                0,
                0,
            )
            &&& replaced_one(source, query, options, m, replacement) == source.take(char_index(source, m.0 as int))
                + ranges.map_values(|r: (usize, usize)| replacement_for(source, query, options, r, replacement))[k]
                + source.skip(char_index(source, m.1 as int))
        }),
{
}

} // verus!
