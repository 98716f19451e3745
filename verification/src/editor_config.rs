//! `.editorconfig` resolution and application.
use vstd::prelude::*;
use crate::text::{
    strip_line,
    chars_of, concat, find_char_from, lemma_next_char, lines, lower_seq, next_char,
    parse_unsigned, parse_unsigned_bounded, seq_eq, slice_to_vec, split_char, split_inclusive_lines,
    split_on, starts_with, string_from_chars, strip_line_ending, to_ascii_lowercase, trim,
    trimmed, line_ranges, ascii_lower, is_whitespace_spec, trim_start_index, trim_end_index,
};

verus! {

#[derive(Clone, Copy, Debug, PartialEq, Eq, Structural)]
pub enum IndentStyle {
    Spaces,
    Tabs,
}

#[derive(Clone, Copy, Debug, PartialEq, Eq, Structural)]
pub enum LineEnding {
    Lf,
    Crlf,
}

#[derive(Clone, Copy, Debug, PartialEq, Eq, Structural)]
pub struct EditorConfig {
    pub indent_style: IndentStyle,
    pub indent_size: usize,
    pub tab_width: usize,
    pub line_ending: Option<LineEnding>,
    pub insert_final_newline: bool,
}

/// Settings used where no `.editorconfig` section applies.
pub open spec fn default_editor_config() -> EditorConfig {
    EditorConfig {
        indent_style: IndentStyle::Spaces,
        indent_size: 4,
        tab_width: 4,
        line_ending: None,
        insert_final_newline: false,
    }
}

impl Default for EditorConfig {
    fn default() -> (r: Self)
        ensures
            r == default_editor_config(),
    {
        EditorConfig {
            indent_style: IndentStyle::Spaces,
            indent_size: 4,
            tab_width: 4,
            line_ending: None,
            insert_final_newline: false,
        }
    }
}

#[derive(Clone, Debug, PartialEq, Eq)]
pub struct EditorConfigSource {
    /// Workspace-relative directory containing this `.editorconfig`.
    pub directory: String,
    pub contents: String,
}

/// The settings named by one `.editorconfig` section.
#[derive(Clone, Copy, Debug, PartialEq, Eq, Structural)]
pub struct PartialConfig {
    pub indent_style: Option<IndentStyle>,
    pub indent_size: Option<usize>,
    pub indent_size_uses_tab_width: bool,
    pub tab_width: Option<usize>,
    pub line_ending: Option<LineEnding>,
    pub insert_final_newline: Option<bool>,
}

pub open spec fn empty_partial() -> PartialConfig {
    PartialConfig {
        indent_style: None,
        indent_size: None,
        indent_size_uses_tab_width: false,
        tab_width: None,
        line_ending: None,
        insert_final_newline: None,
    }
}

/// A positive decimal number, as `usize` parses it.
pub open spec fn positive_usize_spec(value: Seq<char>) -> Option<usize> {
    match parse_unsigned(value, usize::MAX as nat) {
        Some(v) => if v > 0 {
            Some(v as usize)
        } else {
            None
        },
        None => None,
    }
}

/// Applies one `key = value` line to a section, keys and values compared
/// without regard to ASCII case.
pub open spec fn apply_property_spec(
    settings: PartialConfig,
    key: Seq<char>,
    value: Seq<char>,
) -> PartialConfig {
    let key = lower_seq(key);
    let value = lower_seq(value);
    if key == "indent_style"@ {
        PartialConfig {
            indent_style: if value == "space"@ {
                Some(IndentStyle::Spaces)
            } else if value == "tab"@ {
                Some(IndentStyle::Tabs)
            } else {
                None
            },
            ..settings
        }
    } else if key == "indent_size"@ && value == "tab"@ {
        PartialConfig { indent_size_uses_tab_width: true, ..settings }
    } else if key == "indent_size"@ {
        PartialConfig { indent_size: positive_usize_spec(value), ..settings }
    } else if key == "tab_width"@ {
        PartialConfig { tab_width: positive_usize_spec(value), ..settings }
    } else if key == "end_of_line"@ {
        PartialConfig {
            line_ending: if value == "lf"@ {
                Some(LineEnding::Lf)
            } else if value == "crlf"@ {
                Some(LineEnding::Crlf)
            } else {
                None
            },
            ..settings
        }
    } else if key == "insert_final_newline"@ {
        PartialConfig {
            insert_final_newline: if value == "true"@ {
                Some(true)
            } else if value == "false"@ {
                Some(false)
            } else {
                None
            },
            ..settings
        }
    } else {
        settings
    }
}

/// Effect of one line of an `.editorconfig` file on the sections read so far.
pub open spec fn section_step(sections: Seq<(Seq<char>, PartialConfig)>, raw_line: Seq<char>) -> Seq<
    (Seq<char>, PartialConfig),
> {
    let line = trim(raw_line);
    if line.len() == 0 || line[0] == '#' || line[0] == ';' {
        sections
    } else if line.len() >= 2 && line[0] == '[' && line.last() == ']' {
        sections.push((trim(line.subrange(1, line.len() - 1)), empty_partial()))
    } else {
        let k = next_char(line, '=', 0);
        if k >= line.len() || sections.len() == 0 {
            sections
        } else {
            let last = sections.last();
            sections.update(
                sections.len() - 1,
                (
                    last.0,
                    apply_property_spec(
                        last.1,
                        trim(line.take(k)),
                        trim(line.skip(k + 1)),
                    ),
                ),
            )
        }
    }
}

/// The sections of an `.editorconfig` file with the settings each names.
pub open spec fn parse_sections_spec(source: Seq<char>) -> Seq<(Seq<char>, PartialConfig)> {
    lines(source).fold_left(
        Seq::<(Seq<char>, PartialConfig)>::empty(),
        |acc: Seq<(Seq<char>, PartialConfig)>, line: Seq<char>| section_step(acc, line),
    )
}

/// `settings` laid over `result`.
pub open spec fn apply_partial_spec(result: EditorConfig, settings: PartialConfig) -> EditorConfig {
    let styled = match settings.indent_style {
        Some(style) => EditorConfig { indent_style: style, ..result },
        None => result,
    };
    let tabbed = match settings.tab_width {
        Some(width) => EditorConfig { tab_width: width, ..styled },
        None => styled,
    };
    let sized = if settings.indent_size_uses_tab_width {
        EditorConfig { indent_size: tabbed.tab_width, ..tabbed }
    } else {
        match settings.indent_size {
            Some(size) => EditorConfig { indent_size: size, ..tabbed },
            None => tabbed,
        }
    };
    let ended = match settings.line_ending {
        Some(ending) => EditorConfig { line_ending: Some(ending), ..sized },
        None => sized,
    };
    match settings.insert_final_newline {
        Some(insert) => EditorConfig { insert_final_newline: insert, ..ended },
        None => ended,
    }
}

/// `s` without leading `c`s.
pub open spec fn strip_leading(s: Seq<char>, c: char) -> Seq<char>
    decreases s.len(),
{
    if s.len() > 0 && s[0] == c {
        strip_leading(s.drop_first(), c)
    } else {
        s
    }
}

/// `s` without trailing `c`s.
pub open spec fn strip_trailing(s: Seq<char>, c: char) -> Seq<char>
    decreases s.len(),
{
    if s.len() > 0 && s.last() == c {
        strip_trailing(s.drop_last(), c)
    } else {
        s
    }
}

/// `path` relative to the workspace directory `directory`, if it lies inside it.
pub open spec fn relative_to_directory_spec(path: Seq<char>, directory: Seq<char>) -> Option<
    Seq<char>,
> {
    let d = strip_trailing(strip_leading(directory, '/'), '/');
    if d.len() == 0 {
        Some(strip_leading(path, '/'))
    } else if starts_with(path, d) && path.len() > d.len() && path[d.len() as int] == '/' {
        Some(path.skip(d.len() as int + 1))
    } else {
        None
    }
}

/// Index of the last `c` in `s`, or `-1`.
pub open spec fn last_index_of(s: Seq<char>, c: char) -> int
    decreases s.len(),
{
    if s.len() == 0 {
        -1
    } else if s.last() == c {
        s.len() - 1
    } else {
        last_index_of(s.drop_last(), c)
    }
}

/// The part of `s` after its last `c` (`rsplit(c).next()`).
pub open spec fn after_last(s: Seq<char>, c: char) -> Seq<char> {
    s.skip(last_index_of(s, c) + 1)
}

/// Alternatives of the first `{a,b,...}` group of a section pattern.
pub open spec fn expand_braces_spec(p: Seq<char>) -> Seq<Seq<char>> {
    let open = next_char(p, '{', 0);
    if open >= p.len() {
        seq![p]
    } else {
        let close = next_char(p, '}', open + 1);
        if close >= p.len() {
            seq![p]
        } else {
            split_char(p.subrange(open + 1, close), ',').map_values(
                |choice: Seq<char>| p.take(open) + choice + p.skip(close + 1),
            )
        }
    }
}

/// Whether the first `i` bytes of a glob pattern match the first `j` bytes of a
/// value: `*` matches any run of bytes and `?` any single byte.
pub open spec fn glob_prefix(p: Seq<u8>, v: Seq<u8>, i: int, j: int) -> bool
    decreases i + j,
{
    if i <= 0 {
        j == 0
    } else if j < 0 {
        false
    } else if p[i - 1] == 42u8 {
        glob_prefix(p, v, i - 1, j) || (j > 0 && glob_prefix(p, v, i, j - 1))
    } else if p[i - 1] == 63u8 {
        j > 0 && glob_prefix(p, v, i - 1, j - 1)
    } else {
        j > 0 && p[i - 1] == v[j - 1] && glob_prefix(p, v, i - 1, j - 1)
    }
}

/// Whether the glob pattern `p` matches all of `v`, byte by byte.
pub open spec fn glob_matches(p: Seq<u8>, v: Seq<u8>) -> bool {
    glob_prefix(p, v, p.len() as int, v.len() as int)
}

/// Whether one alternative of the section pattern matches `value`.
pub open spec fn pattern_matches_spec(pattern: Seq<char>, value: Seq<char>) -> bool {
    exists|k: int|
        0 <= k < expand_braces_spec(pattern).len() && glob_matches(
            vstd::utf8::encode_utf8(#[trigger] expand_braces_spec(pattern)[k]),
            vstd::utf8::encode_utf8(value),
        )
}

/// Applies the matching sections of one `.editorconfig` file, in order.
pub open spec fn apply_sections(
    result: EditorConfig,
    sections: Seq<(Seq<char>, PartialConfig)>,
    relative: Seq<char>,
) -> EditorConfig
    decreases sections.len(),
{
    if sections.len() == 0 {
        result
    } else {
        let (pattern, settings) = sections[0];
        let candidate = if pattern.contains('/') {
            relative
        } else {
            after_last(relative, '/')
        };
        let next = if pattern_matches_spec(pattern, candidate) {
            apply_partial_spec(result, settings)
        } else {
            result
        };
        apply_sections(next, sections.drop_first(), relative)
    }
}

/// Applies each `.editorconfig` file, given as `(directory, contents)`, in order.
pub open spec fn apply_sources(
    result: EditorConfig,
    sources: Seq<(Seq<char>, Seq<char>)>,
    path: Seq<char>,
) -> EditorConfig
    decreases sources.len(),
{
    if sources.len() == 0 {
        result
    } else {
        let next = match relative_to_directory_spec(path, sources[0].0) {
            Some(relative) => apply_sections(result, parse_sections_spec(sources[0].1), relative),
            None => result,
        };
        apply_sources(next, sources.drop_first(), path)
    }
}

pub open spec fn source_view(s: EditorConfigSource) -> (Seq<char>, Seq<char>) {
    (s.directory@, s.contents@)
}

/// The settings for `path`: defaults overridden by every matching section of
/// every `.editorconfig` file, later ones winning.
pub open spec fn resolved_config(sources: Seq<(Seq<char>, Seq<char>)>, path: Seq<char>) -> EditorConfig {
    apply_sources(default_editor_config(), sources, path)
}

/// `\r\n` and lone `\r` replaced by `\n`.
pub open spec fn normalize_newlines(s: Seq<char>) -> Seq<char>
    decreases s.len(),
{
    if s.len() == 0 {
        s
    } else if s[0] == '\r' {
        if s.len() > 1 && s[1] == '\n' {
            seq!['\n'] + normalize_newlines(s.skip(2))
        } else {
            seq!['\n'] + normalize_newlines(s.drop_first())
        }
    } else {
        seq![s[0]] + normalize_newlines(s.drop_first())
    }
}

/// Every `\n` replaced by `\r\n`.
pub open spec fn expand_crlf(s: Seq<char>) -> Seq<char>
    decreases s.len(),
{
    if s.len() == 0 {
        s
    } else if s[0] == '\n' {
        seq!['\r', '\n'] + expand_crlf(s.drop_first())
    } else {
        seq![s[0]] + expand_crlf(s.drop_first())
    }
}

/// Contents after applying the line-ending and final-newline settings.
pub open spec fn applied_contents(contents: Seq<char>, config: EditorConfig) -> Seq<char> {
    let normalized = match config.line_ending {
        Some(LineEnding::Lf) => normalize_newlines(contents),
        Some(LineEnding::Crlf) => expand_crlf(normalize_newlines(contents)),
        None => contents,
    };
    if config.insert_final_newline && !(normalized.len() > 0 && (normalized.last() == '\n'
        || normalized.last() == '\r')) {
        if config.line_ending == Some(LineEnding::Crlf) {
            normalized + seq!['\r', '\n']
        } else {
            normalized.push('\n')
        }
    } else {
        normalized
    }
}


/// A positive decimal number, as `usize` parses it.
fn positive_usize(value: &[char]) -> (r: Option<usize>)
    ensures
        r == positive_usize_spec(value@),
{
    match parse_unsigned_bounded(value, usize::MAX as u64) {
        Some(v) => if v > 0 {
            Some(v as usize)
        } else {
            None
        },
        None => None,
    }
}

/// Characters of a string literal.
fn lit(s: &str) -> (r: Vec<char>)
    ensures
        r@ == s@,
{
    chars_of(s)
}

fn apply_property(settings: &mut PartialConfig, key: &[char], value: &[char])
    ensures
        *final(settings) == apply_property_spec(*old(settings), key@, value@),
{
    let key = to_ascii_lowercase(key);
    let value = to_ascii_lowercase(value);
    if seq_eq(&key, &lit("indent_style")) {
        settings.indent_style = if seq_eq(&value, &lit("space")) {
            Some(IndentStyle::Spaces)
        } else if seq_eq(&value, &lit("tab")) {
            Some(IndentStyle::Tabs)
        } else {
            None
        };
    } else if seq_eq(&key, &lit("indent_size")) && seq_eq(&value, &lit("tab")) {
        settings.indent_size_uses_tab_width = true;
    } else if seq_eq(&key, &lit("indent_size")) {
        settings.indent_size = positive_usize(&value);
    } else if seq_eq(&key, &lit("tab_width")) {
        settings.tab_width = positive_usize(&value);
    } else if seq_eq(&key, &lit("end_of_line")) {
        settings.line_ending = if seq_eq(&value, &lit("lf")) {
            Some(LineEnding::Lf)
        } else if seq_eq(&value, &lit("crlf")) {
            Some(LineEnding::Crlf)
        } else {
            None
        };
    } else if seq_eq(&key, &lit("insert_final_newline")) {
        settings.insert_final_newline = if seq_eq(&value, &lit("true")) {
            Some(true)
        } else if seq_eq(&value, &lit("false")) {
            Some(false)
        } else {
            None
        };
    }
}


pub open spec fn sections_view(v: Seq<(Vec<char>, PartialConfig)>) -> Seq<(Seq<char>, PartialConfig)> {
    v.map_values(|e: (Vec<char>, PartialConfig)| (e.0@, e.1))
}

/// Applies one line to the sections read so far.
fn parse_line(sections: &mut Vec<(Vec<char>, PartialConfig)>, raw_line: &[char])
    ensures
        sections_view(final(sections)@) == section_step(sections_view(old(sections)@), raw_line@),
{
    let ghost before = sections_view(sections@);
    let line = trimmed(raw_line);
    let n = line.len();
    if n == 0 || line[0] == '#' || line[0] == ';' {
        return ;
    }
    if n >= 2 && line[0] == '[' && line[n - 1] == ']' {
        let inner = slice_to_vec(&line, 1, n - 1);
        let pattern = trimmed(&inner);
        sections.push(
            (
                pattern,
                PartialConfig {
                    indent_style: None,
                    indent_size: None,
                    indent_size_uses_tab_width: false,
                    tab_width: None,
                    line_ending: None,
                    insert_final_newline: None,
                },
            ),
        );
        proof {
            assert(sections_view(sections@) =~= section_step(before, raw_line@));
        }
        return ;
    }
    let k = find_char_from(&line, '=', 0);
    if k >= n || sections.len() == 0 {
        return ;
    }
    let key = trimmed(&slice_to_vec(&line, 0, k));
    let value = trimmed(&slice_to_vec(&line, k + 1, n));
    proof {
        assert(line@.subrange(0, k as int) =~= line@.take(k as int));
        assert(line@.subrange(k + 1, n as int) =~= line@.skip(k + 1));
    }
    let last = sections.len() - 1;
    let (pattern, mut settings) = sections.remove(last);
    apply_property(&mut settings, &key, &value);
    sections.push((pattern, settings));
    proof {
        assert(sections_view(sections@) =~= section_step(before, raw_line@));
    }
}

/// The sections of an `.editorconfig` file with the settings each names.
fn parse_sections(source: &str) -> (r: Vec<(Vec<char>, PartialConfig)>)
    ensures
        sections_view(r@) == parse_sections_spec(source@),
{
    let s = chars_of(source);
    let ranges = line_ranges(&s);
    let ghost ls = lines(s@);
    let ghost f = |acc: Seq<(Seq<char>, PartialConfig)>, line: Seq<char>| section_step(acc, line);
    let mut sections: Vec<(Vec<char>, PartialConfig)> = Vec::new();
    let mut i: usize = 0;
    proof {
        assert(sections_view(sections@) =~= Seq::<(Seq<char>, PartialConfig)>::empty());
        assert(ls.take(0) =~= Seq::<Seq<char>>::empty());
    }
    while i < ranges.len()
        invariant
            i <= ranges@.len(),
            ranges@.len() == split_inclusive_lines(s@).len(),
            forall|j: int|
                0 <= j < ranges@.len() ==> #[trigger] ranges@[j].0 < ranges@[j].1 <= s@.len()
                    && split_inclusive_lines(s@)[j] == s@.subrange(
                    ranges@[j].0 as int,
                    ranges@[j].1 as int,
                ),
            ls == lines(s@),
            f == (|acc: Seq<(Seq<char>, PartialConfig)>, line: Seq<char>| section_step(acc, line)),
            sections_view(sections@) == ls.take(i as int).fold_left(Seq::empty(), f),
        decreases ranges@.len() - i,
    {
        let (a, b) = ranges[i];
        let line = strip_line(&s, a, b);
        proof {
            assert(ls[i as int] == line@);
        }
        parse_line(&mut sections, &line);
        i = i + 1;
        proof {
            assert(ls.take(i as int).drop_last() =~= ls.take(i - 1));
            assert(ls.take(i as int).last() == line@);
        }
    }
    proof {
        assert(ls.take(i as int) =~= ls);
    }
    sections
}

fn apply_partial(result: &mut EditorConfig, settings: &PartialConfig)
    ensures
        *final(result) == apply_partial_spec(*old(result), *settings),
{
    if let Some(style) = settings.indent_style {
        result.indent_style = style;
    }
    if let Some(width) = settings.tab_width {
        result.tab_width = width;
    }
    if settings.indent_size_uses_tab_width {
        result.indent_size = result.tab_width;
    } else if let Some(size) = settings.indent_size {
        result.indent_size = size;
    }
    if let Some(line_ending) = settings.line_ending {
        result.line_ending = Some(line_ending);
    }
    if let Some(insert) = settings.insert_final_newline {
        result.insert_final_newline = insert;
    }
}

/// Alternatives of the first `{a,b,...}` group of a section pattern.
fn expand_braces(pattern: &[char]) -> (r: Vec<Vec<char>>)
    ensures
        r@.map_values(|x: Vec<char>| x@) == expand_braces_spec(pattern@),
{
    let n = pattern.len();
    let open = find_char_from(pattern, '{', 0);
    if open >= n {
        let mut r = Vec::new();
        r.push(slice_to_vec(pattern, 0, n));
        proof {
            assert(pattern@.subrange(0, n as int) =~= pattern@);
            assert(r@.map_values(|x: Vec<char>| x@) =~= seq![pattern@]);
        }
        return r;
    }
    let close = find_char_from(pattern, '}', open + 1);
    if close >= n {
        let mut r = Vec::new();
        r.push(slice_to_vec(pattern, 0, n));
        proof {
            assert(pattern@.subrange(0, n as int) =~= pattern@);
            assert(r@.map_values(|x: Vec<char>| x@) =~= seq![pattern@]);
        }
        return r;
    }
    let head = slice_to_vec(pattern, 0, open);
    let tail = slice_to_vec(pattern, close + 1, n);
    let choices = split_on(&slice_to_vec(pattern, open + 1, close), ',');
    let ghost cs = choices@.map_values(|x: Vec<char>| x@);
    let ghost g = |choice: Seq<char>| pattern@.take(open as int) + choice + pattern@.skip(close + 1);
    proof {
        assert(head@ =~= pattern@.take(open as int));
        assert(tail@ =~= pattern@.skip(close + 1));
    }
    let mut r: Vec<Vec<char>> = Vec::new();
    let mut i: usize = 0;
    while i < choices.len()
        invariant
            i <= choices@.len(),
            cs == choices@.map_values(|x: Vec<char>| x@),
            head@ == pattern@.take(open as int),
            tail@ == pattern@.skip(close + 1),
            g == (|choice: Seq<char>| pattern@.take(open as int) + choice + pattern@.skip(close + 1)),
            r@.map_values(|x: Vec<char>| x@) =~= cs.take(i as int).map_values(g),
        decreases choices@.len() - i,
    {
        let middle = concat(&head, &choices[i]);
        let full = concat(&middle, &tail);
        r.push(full);
        i = i + 1;
        proof {
            assert(cs.take(i as int).map_values(g) =~= cs.take(i - 1).map_values(g).push(g(cs[i - 1])));
        }
    }
    proof {
        assert(cs.take(i as int) =~= cs);
    }
    r
}

/// Whether the glob pattern `p` matches all of `v`, byte by byte.
fn wildcard_matches(p: &[u8], v: &[u8]) -> (r: bool)
    ensures
        r == glob_matches(p@, v@),
{
    let m = v.len();
    let mut prev: Vec<bool> = Vec::new();
    prev.push(true);
    let mut j: usize = 0;
    while j < m
        invariant
            j <= m,
            m == v@.len(),
            prev@.len() == j + 1,
            forall|k: int| 0 <= k <= j ==> #[trigger] prev@[k] == glob_prefix(p@, v@, 0, k),
        decreases m - j,
    {
        prev.push(false);
        j = j + 1;
    }
    let mut i: usize = 0;
    while i < p.len()
        invariant
            i <= p@.len(),
            m == v@.len(),
            prev@.len() == m + 1,
            forall|k: int| 0 <= k <= m ==> #[trigger] prev@[k] == glob_prefix(p@, v@, i as int, k),
        decreases p@.len() - i,
    {
        let byte = p[i];
        let mut cur: Vec<bool> = Vec::new();
        cur.push(byte == 42u8 && prev[0]);
        let mut j: usize = 0;
        while j < m
            invariant
                i < p@.len(),
                j <= m,
                m == v@.len(),
                byte == p@[i as int],
                prev@.len() == m + 1,
                forall|k: int| 0 <= k <= m ==> #[trigger] prev@[k] == glob_prefix(p@, v@, i as int, k),
                cur@.len() == j + 1,
                forall|k: int| 0 <= k <= j ==> #[trigger] cur@[k] == glob_prefix(p@, v@, i + 1, k),
            decreases m - j,
        {
            let value = if byte == 42u8 {
                prev[j + 1] || cur[j]
            } else if byte == 63u8 {
                prev[j]
            } else {
                byte == v[j] && prev[j]
            };
            cur.push(value);
            j = j + 1;
        }
        prev = cur;
        i = i + 1;
    }
    prev[m]
}

/// Whether one alternative of the section pattern matches `value`.
fn pattern_matches(pattern: &[char], value: &[char]) -> (r: bool)
    ensures
        r == pattern_matches_spec(pattern@, value@),
{
    let expansions = expand_braces(pattern);
    let value_text = string_from_chars(value);
    let value_bytes = value_text.as_str().as_bytes();
    let mut i: usize = 0;
    while i < expansions.len()
        invariant
            i <= expansions@.len(),
            expansions@.map_values(|x: Vec<char>| x@) == expand_braces_spec(pattern@),
            value_bytes@ == vstd::utf8::encode_utf8(value@),
            forall|k: int|
                0 <= k < i ==> !glob_matches(
                    vstd::utf8::encode_utf8(#[trigger] expand_braces_spec(pattern@)[k]),
                    vstd::utf8::encode_utf8(value@),
                ),
        decreases expansions@.len() - i,
    {
        let text = string_from_chars(&expansions[i]);
        let bytes = text.as_str().as_bytes();
        proof {
            assert(expand_braces_spec(pattern@)[i as int] == expansions@[i as int]@);
        }
        if wildcard_matches(bytes, value_bytes) {
            return true;
        }
        i = i + 1;
    }
    false
}

/// Strips leading `c`s.
pub fn strip_leading_char(s: &[char], c: char) -> (r: usize)
    ensures
        r <= s@.len(),
        s@.skip(r as int) == strip_leading(s@, c),
{
    let mut i: usize = 0;
    proof {
        assert(s@.skip(0) =~= s@);
    }
    while i < s.len() && s[i] == c
        invariant
            i <= s@.len(),
            strip_leading(s@, c) == strip_leading(s@.skip(i as int), c),
        decreases s@.len() - i,
    {
        proof {
            assert(s@.skip(i as int).drop_first() =~= s@.skip(i + 1));
        }
        i = i + 1;
    }
    i
}

/// Strips trailing `c`s.
pub fn strip_trailing_char(s: &[char], c: char) -> (r: usize)
    ensures
        r <= s@.len(),
        s@.take(r as int) == strip_trailing(s@, c),
{
    let mut i: usize = s.len();
    proof {
        assert(s@.take(s@.len() as int) =~= s@);
    }
    while i > 0 && s[i - 1] == c
        invariant
            i <= s@.len(),
            strip_trailing(s@, c) == strip_trailing(s@.take(i as int), c),
        decreases i,
    {
        proof {
            assert(s@.take(i as int).drop_last() =~= s@.take(i - 1));
        }
        i = i - 1;
    }
    i
}

fn relative_to_directory(path: &[char], directory: &[char]) -> (r: Option<Vec<char>>)
    ensures
        match r {
            Some(v) => relative_to_directory_spec(path@, directory@) == Some(v@),
            None => relative_to_directory_spec(path@, directory@) is None,
        },
{
    let a = strip_leading_char(directory, '/');
    let rest = slice_to_vec(directory, a, directory.len());
    proof {
        assert(rest@ =~= directory@.skip(a as int));
    }
    let b = strip_trailing_char(&rest, '/');
    let d = slice_to_vec(&rest, 0, b);
    proof {
        assert(d@ =~= rest@.take(b as int));
    }
    if d.len() == 0 {
        let k = strip_leading_char(path, '/');
        let r = slice_to_vec(path, k, path.len());
        proof {
            assert(r@ =~= path@.skip(k as int));
        }
        return Some(r);
    }
    if crate::text::seq_starts_with(path, &d) && path.len() > d.len() && path[d.len()] == '/' {
        let r = slice_to_vec(path, d.len() + 1, path.len());
        proof {
            assert(r@ =~= path@.skip(d@.len() as int + 1));
        }
        Some(r)
    } else {
        None
    }
}

/// Index of the last `c` in `s`, or `s.len()` when there is none.
fn after_last_index(s: &[char], c: char) -> (r: usize)
    ensures
        r <= s@.len(),
        s@.skip(r as int) == after_last(s@, c),
{
    let mut i: usize = s.len();
    proof {
        assert(s@.take(s@.len() as int) =~= s@);
    }
    while i > 0 && s[i - 1] != c
        invariant
            i <= s@.len(),
            last_index_of(s@, c) == last_index_of(s@.take(i as int), c),
        decreases i,
    {
        proof {
            assert(s@.take(i as int).drop_last() =~= s@.take(i - 1));
        }
        i = i - 1;
    }
    proof {
        if i == 0 {
            assert(s@.take(0) =~= Seq::<char>::empty());
        }
    }
    i
}

/// Resolves the settings for `path` from the `.editorconfig` files that apply,
/// outermost first.
pub fn resolve_editor_config(sources: &[EditorConfigSource], path: &str) -> (r: EditorConfig)
    ensures
        r == resolved_config(sources@.map_values(|s: EditorConfigSource| source_view(s)), path@),
{
    let ghost all = sources@.map_values(|s: EditorConfigSource| source_view(s));
    let path = chars_of(path);
    let mut result = EditorConfig::default();
    let mut n: usize = 0;
    proof {
        assert(all.skip(0) =~= all);
    }
    while n < sources.len()
        invariant
            n <= sources@.len(),
            all == sources@.map_values(|s: EditorConfigSource| source_view(s)),
            resolved_config(all, path@) == apply_sources(result, all.skip(n as int), path@),
        decreases sources@.len() - n,
    {
        let source = &sources[n];
        let directory = chars_of(source.directory.as_str());
        let ghost before = result;
        proof {
            assert(all.skip(n as int)[0] == source_view(*source));
            assert(all.skip(n as int).drop_first() =~= all.skip(n + 1));
        }
        if let Some(relative) = relative_to_directory(&path, &directory) {
            let sections = parse_sections(source.contents.as_str());
            let ghost sv = sections_view(sections@);
            let mut k: usize = 0;
            proof {
                assert(sv.skip(0) =~= sv);
            }
            while k < sections.len()
                invariant
                    k <= sections@.len(),
                    sv == sections_view(sections@),
                    apply_sections(before, sv, relative@) == apply_sections(result, sv.skip(k as int), relative@),
                decreases sections@.len() - k,
            {
                let pattern = &sections[k].0;
                let candidate = if crate::text::contains_char(pattern, '/') {
                    slice_to_vec(&relative, 0, relative.len())
                } else {
                    let a = after_last_index(&relative, '/');
                    slice_to_vec(&relative, a, relative.len())
                };
                proof {
                    assert(sv.skip(k as int)[0] == (pattern@, sections@[k as int].1));
                    assert(sv.skip(k as int).drop_first() =~= sv.skip(k + 1));
                    assert(relative@.subrange(0, relative@.len() as int) =~= relative@);
                    assert(relative@.skip(after_last_index_ghost(relative@)) =~= relative@.skip(after_last_index_ghost(relative@)));
                }
                if pattern_matches(pattern, &candidate) {
                    apply_partial(&mut result, &sections[k].1);
                }
                k = k + 1;
            }
            proof {
                assert(sv.skip(k as int) =~= Seq::<(Seq<char>, PartialConfig)>::empty());
            }
        }
        n = n + 1;
    }
    proof {
        assert(all.skip(n as int) =~= Seq::<(Seq<char>, Seq<char>)>::empty());
    }
    result
}

spec fn after_last_index_ghost(s: Seq<char>) -> int {
    last_index_of(s, '/') + 1
}

fn normalize(s: &[char]) -> (r: Vec<char>)
    ensures
        r@ == normalize_newlines(s@),
{
    let mut r: Vec<char> = Vec::new();
    let mut i: usize = 0;
    proof {
        assert(s@.skip(0) =~= s@);
    }
    while i < s.len()
        invariant
            i <= s@.len(),
            normalize_newlines(s@) == r@ + normalize_newlines(s@.skip(i as int)),
        decreases s@.len() - i,
    {
        let ghost t = s@.skip(i as int);
        if s[i] == '\r' {
            r.push('\n');
            if i + 1 < s.len() && s[i + 1] == '\n' {
                proof {
                    assert(t.skip(2) =~= s@.skip(i + 2));
                }
                i = i + 2;
            } else {
                proof {
                    assert(t.drop_first() =~= s@.skip(i + 1));
                }
                i = i + 1;
            }
        } else {
            r.push(s[i]);
            proof {
                assert(t.drop_first() =~= s@.skip(i + 1));
            }
            i = i + 1;
        }
    }
    proof {
        assert(s@.skip(i as int) =~= Seq::<char>::empty());
        assert(r@ + Seq::<char>::empty() =~= r@);
    }
    r
}

fn crlf(s: &[char]) -> (r: Vec<char>)
    ensures
        r@ == expand_crlf(s@),
{
    let mut r: Vec<char> = Vec::new();
    let mut i: usize = 0;
    proof {
        assert(s@.skip(0) =~= s@);
    }
    while i < s.len()
        invariant
            i <= s@.len(),
            expand_crlf(s@) == r@ + expand_crlf(s@.skip(i as int)),
        decreases s@.len() - i,
    {
        let ghost t = s@.skip(i as int);
        if s[i] == '\n' {
            r.push('\r');
            r.push('\n');
        } else {
            r.push(s[i]);
        }
        proof {
            assert(t.drop_first() =~= s@.skip(i + 1));
        }
        i = i + 1;
    }
    proof {
        assert(s@.skip(i as int) =~= Seq::<char>::empty());
        assert(r@ + Seq::<char>::empty() =~= r@);
    }
    r
}

/// Applies the line-ending and final-newline settings to `contents`.
pub fn apply_editor_config(contents: &str, config: &EditorConfig) -> (r: String)
    ensures
        r@ == applied_contents(contents@, *config),
{
    let s = chars_of(contents);
    let mut normalized = match config.line_ending {
        Some(LineEnding::Lf) => normalize(&s),
        Some(LineEnding::Crlf) => crlf(&normalize(&s)),
        None => s,
    };
    let n = normalized.len();
    if config.insert_final_newline && !(n > 0 && (normalized[n - 1] == '\n' || normalized[n - 1] == '\r')) {
        if config.line_ending == Some(LineEnding::Crlf) {
            normalized.push('\r');
            normalized.push('\n');
        } else {
            normalized.push('\n');
        }
    }
    string_from_chars(&normalized)
}

proof fn lemma_apply_sources_split(
    result: EditorConfig,
    first: Seq<(Seq<char>, Seq<char>)>,
    later: Seq<(Seq<char>, Seq<char>)>,
    path: Seq<char>,
)
    ensures
        apply_sources(result, first + later, path) == apply_sources(apply_sources(result, first, path), later, path),
    decreases first.len(),
{
    if first.len() == 0 {
        assert(first + later =~= later);
    } else {
        assert((first + later).drop_first() =~= first.drop_first() + later);
        assert((first + later)[0] == first[0]);
        let next = match relative_to_directory_spec(path, first[0].0) {
            Some(relative) => apply_sections(result, parse_sections_spec(first[0].1), relative),
            None => result,
        };
        lemma_apply_sources_split(next, first.drop_first(), later, path);
    }
}

/// With no `.editorconfig` file, a path gets the default settings.
pub proof fn no_sources_give_the_defaults(path: Seq<char>)
    ensures
        resolved_config(Seq::empty(), path) == default_editor_config(),
{
}

/// Later `.editorconfig` files are applied over what the earlier ones
/// resolved: settings of the later files win.
pub proof fn later_sources_apply_over_earlier(
    first: Seq<(Seq<char>, Seq<char>)>,
    later: Seq<(Seq<char>, Seq<char>)>,
    path: Seq<char>,
)
    ensures
        resolved_config(first + later, path) == apply_sources(resolved_config(first, path), later, path),
{
    lemma_apply_sources_split(default_editor_config(), first, later, path);
}

proof fn lemma_normalized_has_no_cr(s: Seq<char>)
    ensures
        !normalize_newlines(s).contains('\r'),
    decreases s.len(),
{
    if s.len() > 0 {
        let rest = if s[0] == '\r' && s.len() > 1 && s[1] == '\n' {
            s.skip(2)
        } else {
            s.drop_first()
        };
        lemma_normalized_has_no_cr(rest);
        let head = if s[0] == '\r' {
            '\n'
        } else {
            s[0]
        };
        assert(normalize_newlines(s) =~= seq![head] + normalize_newlines(rest));
        assert forall|i: int| 0 <= i < normalize_newlines(s).len() implies normalize_newlines(s)[i] != '\r' by {
            if i > 0 {
                assert(normalize_newlines(s)[i] == normalize_newlines(rest)[i - 1]);
            }
        }
    }
}

proof fn lemma_normalize_without_cr(s: Seq<char>)
    requires
        !s.contains('\r'),
    ensures
        normalize_newlines(s) == s,
    decreases s.len(),
{
    if s.len() > 0 {
        assert(s[0] != '\r');
        assert forall|i: int| 0 <= i < s.drop_first().len() implies s.drop_first()[i] != '\r' by {
            assert(s.drop_first()[i] == s[i + 1]);
        }
        lemma_normalize_without_cr(s.drop_first());
        assert(seq![s[0]] + s.drop_first() =~= s);
    }
}

proof fn lemma_expand_joined(x: Seq<char>, y: Seq<char>)
    ensures
        expand_crlf(x + y) == expand_crlf(x) + expand_crlf(y),
    decreases x.len(),
{
    if x.len() == 0 {
        assert(x + y =~= y);
        assert(expand_crlf(x) + expand_crlf(y) =~= expand_crlf(y));
    } else {
        assert((x + y).drop_first() =~= x.drop_first() + y);
        assert((x + y)[0] == x[0]);
        lemma_expand_joined(x.drop_first(), y);
        if x[0] == '\n' {
            assert(seq!['\r', '\n'] + (expand_crlf(x.drop_first()) + expand_crlf(y)) =~= (seq!['\r', '\n']
                + expand_crlf(x.drop_first())) + expand_crlf(y));
        } else {
            assert(seq![x[0]] + (expand_crlf(x.drop_first()) + expand_crlf(y)) =~= (seq![x[0]] + expand_crlf(
                x.drop_first(),
            )) + expand_crlf(y));
        }
    }
}

proof fn lemma_normalize_expanded(m: Seq<char>)
    requires
        !m.contains('\r'),
    ensures
        normalize_newlines(expand_crlf(m)) == m,
    decreases m.len(),
{
    if m.len() > 0 {
        let rest = m.drop_first();
        assert forall|i: int| 0 <= i < rest.len() implies rest[i] != '\r' by {
            assert(rest[i] == m[i + 1]);
        }
        lemma_normalize_expanded(rest);
        let e = expand_crlf(m);
        if m[0] == '\n' {
            assert(e =~= seq!['\r', '\n'] + expand_crlf(rest));
            assert(e.skip(2) =~= expand_crlf(rest));
        } else {
            assert(m[0] != '\r');
            assert(e =~= seq![m[0]] + expand_crlf(rest));
            assert(e.drop_first() =~= expand_crlf(rest));
        }
        assert(seq![m[0]] + rest =~= m);
    }
}

proof fn lemma_expand_newline()
    ensures
        expand_crlf(seq!['\n']) == seq!['\r', '\n'],
{
    let one = seq!['\n'];
    let none = Seq::<char>::empty();
    assert(one.len() == 1 && one[0] == '\n');
    assert(one.drop_first() =~= none);
    assert(expand_crlf(none) == none);
    assert(expand_crlf(one) == seq!['\r', '\n'] + expand_crlf(one.drop_first()));
    assert(seq!['\r', '\n'] + none =~= seq!['\r', '\n']);
}

/// Files written with `Lf` line endings hold no carriage return.
pub proof fn lf_contents_have_no_carriage_return(contents: Seq<char>, config: EditorConfig)
    requires
        config.line_ending == Some(LineEnding::Lf),
    ensures
        !applied_contents(contents, config).contains('\r'),
{
    let n = normalize_newlines(contents);
    lemma_normalized_has_no_cr(contents);
    let r = applied_contents(contents, config);
    assert forall|i: int| 0 <= i < r.len() implies r[i] != '\r' by {
        if i < n.len() {
            assert(r[i] == n[i]);
        }
    }
}

/// Files written with `Crlf` line endings hold `\r` only before `\n`: turning
/// them back into `Lf` lines and out again gives them unchanged.
pub proof fn crlf_contents_round_trip(contents: Seq<char>, config: EditorConfig)
    requires
        config.line_ending == Some(LineEnding::Crlf),
    ensures
        expand_crlf(normalize_newlines(applied_contents(contents, config))) == applied_contents(contents, config),
{
    let n = normalize_newlines(contents);
    lemma_normalized_has_no_cr(contents);
    let e = expand_crlf(n);
    let r = applied_contents(contents, config);
    if r == e {
        lemma_normalize_expanded(n);
    } else {
        lemma_expand_joined(n, seq!['\n']);
        lemma_expand_newline();
        assert(r == expand_crlf(n + seq!['\n']));
        assert forall|i: int| 0 <= i < (n + seq!['\n']).len() implies (n + seq!['\n'])[i] != '\r' by {
            if i < n.len() {
                assert((n + seq!['\n'])[i] == n[i]);
            }
        }
        lemma_normalize_expanded(n + seq!['\n']);
    }
}

/// Applying the same settings a second time changes nothing.
pub proof fn applying_the_config_again_changes_nothing(contents: Seq<char>, config: EditorConfig)
    ensures
        applied_contents(applied_contents(contents, config), config) == applied_contents(contents, config),
{
    let once = applied_contents(contents, config);
    let n = normalize_newlines(contents);
    lemma_normalized_has_no_cr(contents);
    match config.line_ending {
        Some(LineEnding::Lf) => {
            lf_contents_have_no_carriage_return(contents, config);
            lemma_normalize_without_cr(once);
        },
        Some(LineEnding::Crlf) => {
            crlf_contents_round_trip(contents, config);
            let e = expand_crlf(n);
            if once != e {
                lemma_expand_joined(n, seq!['\n']);
                lemma_expand_newline();
            }
        },
        None => {},
    }
}

/// The directory of a source without its leading and trailing `/`.
pub open spec fn trimmed_directory(directory: Seq<char>) -> Seq<char> {
    strip_trailing(strip_leading(directory, '/'), '/')
}

/// A source whose directory does not hold the path changes nothing: its
/// directory, trimmed of `/`, is not empty and the path does not start with
/// it followed by `/`.
pub proof fn sources_elsewhere_change_nothing(
    first: Seq<(Seq<char>, Seq<char>)>,
    source: (Seq<char>, Seq<char>),
    path: Seq<char>,
)
    requires
        trimmed_directory(source.0).len() > 0,
        !starts_with(path, trimmed_directory(source.0).push('/')),
    ensures
        resolved_config(first.push(source), path) == resolved_config(first, path),
{
    let d = trimmed_directory(source.0);
    if starts_with(path, d) && path.len() > d.len() && path[d.len() as int] == '/' {
        assert(path.take(d.push('/').len() as int) =~= d.push('/'));
    }
    assert(relative_to_directory_spec(path, source.0) is None);
    lemma_apply_sources_split(default_editor_config(), first, seq![source], path);
    assert(first + seq![source] =~= first.push(source));
    let r = resolved_config(first, path);
    assert(seq![source].drop_first() =~= Seq::<(Seq<char>, Seq<char>)>::empty());
    assert(apply_sources(r, seq![source], path) == apply_sources(r, Seq::<(Seq<char>, Seq<char>)>::empty(), path));
}

/// One section applied to `result`, when its pattern matches.
pub open spec fn section_applied(result: EditorConfig, section: (Seq<char>, PartialConfig), relative: Seq<char>) -> EditorConfig {
    let (pattern, settings) = section;
    let candidate = if pattern.contains('/') {
        relative
    } else {
        after_last(relative, '/')
    };
    if pattern_matches_spec(pattern, candidate) {
        apply_partial_spec(result, settings)
    } else {
        result
    }
}

proof fn lemma_apply_sections_last(result: EditorConfig, sections: Seq<(Seq<char>, PartialConfig)>, relative: Seq<char>)
    requires
        sections.len() > 0,
    ensures
        apply_sections(result, sections, relative) == section_applied(
            apply_sections(result, sections.drop_last(), relative),
            sections.last(),
            relative,
        ),
    decreases sections.len(),
{
    let next = section_applied(result, sections[0], relative);
    if sections.len() == 1 {
        assert(sections.drop_first() =~= Seq::<(Seq<char>, PartialConfig)>::empty());
        assert(sections.drop_last() =~= Seq::<(Seq<char>, PartialConfig)>::empty());
    } else {
        lemma_apply_sections_last(next, sections.drop_first(), relative);
        assert(sections.drop_first().drop_last() =~= sections.drop_last().drop_first());
        assert(sections.drop_last()[0] == sections[0]);
        assert(sections.drop_first().last() == sections.last());
    }
}

proof fn lemma_star_matches_all(v: Seq<u8>, j: int)
    requires
        0 <= j <= v.len(),
    ensures
        glob_prefix(seq![42u8], v, 1, j),
    decreases j,
{
    let p = seq![42u8];
    assert(p[0] == 42u8);
    assert(glob_prefix(p, v, 0, 0));
    if j > 0 {
        lemma_star_matches_all(v, j - 1);
    }
}

proof fn lemma_star_pattern(value: Seq<char>)
    ensures
        pattern_matches_spec("*"@, value),
        !"*"@.contains('/'),
{
    reveal_strlit("*");
    let star = "*"@;
    assert(star =~= seq!['*']);
    assert(next_char(star, '{', 1) == 1);
    assert(next_char(star, '{', 0) == 1);
    assert(expand_braces_spec(star) =~= seq![star]);
    let bytes = vstd::utf8::encode_utf8(star);
    assert(star.drop_first() =~= Seq::<char>::empty());
    assert(vstd::utf8::encode_utf8(star.drop_first()) =~= Seq::<u8>::empty());
    assert(('*' as u32) == 42u32);
    assert((42u32 & 0x7Fu32) as u8 == 42u8) by (bit_vector);
    assert(vstd::utf8::encode_scalar(42u32) =~= seq![42u8]);
    assert(bytes =~= seq![42u8]);
    let v = vstd::utf8::encode_utf8(value);
    lemma_star_matches_all(v, v.len() as int);
    assert(glob_matches(vstd::utf8::encode_utf8(expand_braces_spec(star)[0]), v));
}

/// A later source that holds the path and ends with a `[*]` section setting
/// the indent size decides the indent size, whatever came before.
pub proof fn a_later_star_section_wins(
    first: Seq<(Seq<char>, Seq<char>)>,
    source: (Seq<char>, Seq<char>),
    path: Seq<char>,
    size: usize,
)
    requires
        relative_to_directory_spec(path, source.0) is Some,
        parse_sections_spec(source.1).len() > 0,
        parse_sections_spec(source.1).last().0 == "*"@,
        parse_sections_spec(source.1).last().1.indent_size == Some(size),
        !parse_sections_spec(source.1).last().1.indent_size_uses_tab_width,
    ensures
        resolved_config(first.push(source), path).indent_size == size,
{
    lemma_apply_sources_split(default_editor_config(), first, seq![source], path);
    assert(first + seq![source] =~= first.push(source));
    let r = resolved_config(first, path);
    let relative = relative_to_directory_spec(path, source.0)->Some_0;
    let sections = parse_sections_spec(source.1);
    assert(seq![source].drop_first() =~= Seq::<(Seq<char>, Seq<char>)>::empty());
    assert(seq![source][0] == source);
    lemma_apply_sections_last(r, sections, relative);
    lemma_star_pattern(after_last(relative, '/'));
    let next = apply_sections(r, sections, relative);
    assert(apply_sources(r, seq![source], path) == apply_sources(next, Seq::<(Seq<char>, Seq<char>)>::empty(), path));
    let prev = apply_sections(r, sections.drop_last(), relative);
    assert(next == apply_partial_spec(prev, sections.last().1));
}

/// `s` with every `\r\n` pair taken out, read from the front.
pub open spec fn without_crlf(s: Seq<char>) -> Seq<char>
    decreases s.len(),
{
    if s.len() == 0 {
        s
    } else if s.len() >= 2 && s[0] == '\r' && s[1] == '\n' {
        without_crlf(s.skip(2))
    } else {
        seq![s[0]] + without_crlf(s.drop_first())
    }
}

proof fn lemma_expanded_breaks_are_pairs(m: Seq<char>)
    requires
        !m.contains('\r'),
    ensures
        !without_crlf(expand_crlf(m)).contains('\r'),
        !without_crlf(expand_crlf(m)).contains('\n'),
    decreases m.len(),
{
    if m.len() > 0 {
        let rest = m.drop_first();
        assert forall|i: int| 0 <= i < rest.len() implies rest[i] != '\r' by {
            assert(rest[i] == m[i + 1]);
        }
        lemma_expanded_breaks_are_pairs(rest);
        let e = expand_crlf(m);
        let w = without_crlf(expand_crlf(rest));
        if m[0] == '\n' {
            assert(e =~= seq!['\r', '\n'] + expand_crlf(rest));
            assert(e.skip(2) =~= expand_crlf(rest));
        } else {
            assert(m[0] != '\r');
            assert(e =~= seq![m[0]] + expand_crlf(rest));
            assert(e.drop_first() =~= expand_crlf(rest));
            assert(without_crlf(e) == seq![m[0]] + w);
            assert forall|i: int| 0 <= i < without_crlf(e).len() implies without_crlf(e)[i] != '\r' && without_crlf(
                e,
            )[i] != '\n' by {
                if i > 0 {
                    assert(without_crlf(e)[i] == w[i - 1]);
                }
            }
        }
    }
}

/// With `Crlf` line endings every carriage return and line feed of the
/// written text belongs to a `\r\n` pair; with a final newline asked for,
/// the text ends in a line break; with neither setting, it is unchanged.
pub proof fn applied_line_breaks_follow_the_config(contents: Seq<char>, config: EditorConfig)
    ensures
        config.line_ending == Some(LineEnding::Crlf) ==> !without_crlf(applied_contents(contents, config)).contains(
            '\r',
        ) && !without_crlf(applied_contents(contents, config)).contains('\n'),
        config.insert_final_newline ==> applied_contents(contents, config).len() > 0 && (applied_contents(
            contents,
            config,
        ).last() == '\n' || applied_contents(contents, config).last() == '\r'),
        config.line_ending is None && !config.insert_final_newline ==> applied_contents(contents, config) == contents,
{
    let n = normalize_newlines(contents);
    lemma_normalized_has_no_cr(contents);
    if config.line_ending == Some(LineEnding::Crlf) {
        let r = applied_contents(contents, config);
        if r == expand_crlf(n) {
            lemma_expanded_breaks_are_pairs(n);
        } else {
            lemma_expand_joined(n, seq!['\n']);
            lemma_expand_newline();
            assert(r == expand_crlf(n + seq!['\n']));
            assert forall|i: int| 0 <= i < (n + seq!['\n']).len() implies (n + seq!['\n'])[i] != '\r' by {
                if i < n.len() {
                    assert((n + seq!['\n'])[i] == n[i]);
                }
            }
            lemma_expanded_breaks_are_pairs(n + seq!['\n']);
        }
    }
}

/// The line ending an `end_of_line` value names, compared without regard to
/// ASCII case.
pub open spec fn named_line_ending(value: Seq<char>) -> Option<LineEnding> {
    if lower_seq(value) == "lf"@ {
        Some(LineEnding::Lf)
    } else if lower_seq(value) == "crlf"@ {
        Some(LineEnding::Crlf)
    } else {
        None
    }
}

/// An `end_of_line` property sets the section's line ending to the one its
/// value names, `lf` or `crlf` in any ASCII case, and nothing else.
pub proof fn end_of_line_properties_name_the_line_ending(settings: PartialConfig, key: Seq<char>, value: Seq<char>)
    requires
        lower_seq(key) == "end_of_line"@,
    ensures
        apply_property_spec(settings, key, value) == (PartialConfig {
            line_ending: named_line_ending(value),
            ..settings
        }),
        lower_seq(value) == "lf"@ ==> apply_property_spec(settings, key, value).line_ending == Some(LineEnding::Lf),
        lower_seq(value) == "crlf"@ ==> apply_property_spec(settings, key, value).line_ending == Some(
            LineEnding::Crlf,
        ),
{
    reveal_strlit("end_of_line");
    reveal_strlit("indent_style");
    reveal_strlit("indent_size");
    reveal_strlit("tab_width");
    reveal_strlit("lf");
    reveal_strlit("crlf");
    let k = lower_seq(key);
    assert(k.len() == 11);
    assert(k != "indent_style"@);
    assert(k[0] == 'e');
    assert("indent_size"@[0] == 'i');
    assert(k != "indent_size"@);
    assert("tab_width"@.len() == 9);
    assert(k != "tab_width"@);
}

/// Whether a line opens a section: trimmed, it is `[`, a pattern and `]`.
pub open spec fn is_section_header(line: Seq<char>) -> bool {
    trim(line).len() >= 2 && trim(line)[0] == '[' && trim(line).last() == ']'
}

proof fn lemma_steps_keep_sections(lines: Seq<Seq<char>>)
    ensures
        (exists|k: int| 0 <= k < lines.len() && is_section_header(#[trigger] lines[k])) ==> lines.fold_left(
            Seq::<(Seq<char>, PartialConfig)>::empty(),
            |acc: Seq<(Seq<char>, PartialConfig)>, line: Seq<char>| section_step(acc, line),
        ).len() > 0,
        lines.fold_left(
            Seq::<(Seq<char>, PartialConfig)>::empty(),
            |acc: Seq<(Seq<char>, PartialConfig)>, line: Seq<char>| section_step(acc, line),
        ).len() >= 0,
    decreases lines.len(),
{
    if lines.len() > 0 {
        lemma_steps_keep_sections(lines.drop_last());
        let f = |acc: Seq<(Seq<char>, PartialConfig)>, line: Seq<char>| section_step(acc, line);
        let before = lines.drop_last().fold_left(Seq::<(Seq<char>, PartialConfig)>::empty(), f);
        assert(lines.fold_left(Seq::<(Seq<char>, PartialConfig)>::empty(), f) == section_step(before, lines.last()));
        if exists|k: int| 0 <= k < lines.len() && is_section_header(#[trigger] lines[k]) {
            let k = choose|k: int| 0 <= k < lines.len() && is_section_header(#[trigger] lines[k]);
            if k < lines.len() - 1 {
                assert(lines.drop_last()[k] == lines[k]);
            }
        }
    }
}

proof fn lemma_letter_not_blank(c: char, l: char)
    requires
        ascii_lower(c) == l,
        'a' <= l <= 'z' || l == '_',
    ensures
        !is_whitespace_spec(c),
        c != '=',
        c != '#',
        c != ';',
        c != '[',
{
}

/// The last line of an `.editorconfig` file, when it is `end_of_line = lf`
/// or `end_of_line = crlf` (in any ASCII case) and a section was opened
/// before it, sets the last section's line ending to the one it names.
pub proof fn end_of_line_lines_set_the_line_ending(contents: Seq<char>, key: Seq<char>, value: Seq<char>)
    requires
        lines(contents).len() > 0,
        lines(contents).last() == key + " = "@ + value,
        lower_seq(key) == "end_of_line"@,
        lower_seq(value) == "lf"@ || lower_seq(value) == "crlf"@,
        exists|k: int| 0 <= k < lines(contents).len() - 1 && is_section_header(#[trigger] lines(contents)[k]),
    ensures
        parse_sections_spec(contents).len() > 0,
        parse_sections_spec(contents).last().1.line_ending == named_line_ending(value),
{
    reveal_strlit(" = ");
    reveal_strlit("end_of_line");
    reveal_strlit("lf");
    reveal_strlit("crlf");
    let all = lines(contents);
    let f = |acc: Seq<(Seq<char>, PartialConfig)>, line: Seq<char>| section_step(acc, line);
    let k0 = choose|k: int| 0 <= k < all.len() - 1 && is_section_header(#[trigger] all[k]);
    assert(all.drop_last()[k0] == all[k0]);
    lemma_steps_keep_sections(all.drop_last());
    let before = all.drop_last().fold_left(Seq::<(Seq<char>, PartialConfig)>::empty(), f);
    assert(before.len() > 0);
    assert(parse_sections_spec(contents) == section_step(before, all.last()));
    let line = key + " = "@ + value;
    let n = key.len() as int;
    assert(lower_seq(key).len() == key.len());
    assert(n == 11);
    assert(lower_seq(value).len() == value.len());
    assert(value.len() >= 2);
    assert forall|i: int| 0 <= i < n implies #[trigger] ascii_lower(key[i]) == "end_of_line"@[i] by {
        assert(lower_seq(key)[i] == ascii_lower(key[i]));
    }
    assert forall|i: int| 0 <= i < n implies !is_whitespace_spec(#[trigger] key[i]) && key[i] != '=' by {
        lemma_letter_not_blank(key[i], "end_of_line"@[i]);
    }
    let vl = lower_seq(value);
    assert(vl[vl.len() - 1] == 'f' && 'a' <= vl[0] <= 'z') by {
        if vl == "lf"@ {
        } else {
            assert(vl == "crlf"@);
        }
    }
    assert(ascii_lower(value[0]) == vl[0]);
    assert(ascii_lower(value[value.len() - 1]) == vl[value.len() - 1]);
    lemma_letter_not_blank(value[0], vl[0]);
    lemma_letter_not_blank(value[value.len() - 1], vl[value.len() - 1]);
    lemma_letter_not_blank(key[0], "end_of_line"@[0]);
    assert(line[0] == key[0]);
    assert(line[line.len() - 1] == value[value.len() - 1]);
    assert(trim_start_index(line) == 0);
    assert(trim_end_index(line) == line.len());
    assert(line.skip(0) =~= line);
    assert(trim(line) =~= line);
    lemma_next_char(line, '=', 0);
    assert(line[n] == ' ' && line[n + 1] == '=');
    assert forall|i: int| 0 <= i < n implies line[i] != '=' by {
        assert(line[i] == key[i]);
    }
    assert(next_char(line, '=', 0) == n + 1);
    let left = line.take(n + 1);
    assert(left.drop_last() =~= key);
    assert(is_whitespace_spec(left.last()));
    assert(trim_end_index(key) == key.len()) by {
        assert(key.last() == key[n - 1]);
    }
    assert(trim_end_index(left) == n);
    assert(left[0] == key[0]);
    assert(trim_start_index(left) == 0);
    assert(left.skip(0) =~= left);
    assert(trim(left) =~= key);
    let right = line.skip(n + 2);
    assert(right =~= seq![' '] + value);
    assert(right.drop_first() =~= value);
    assert(trim_start_index(value) == 0);
    assert(trim_start_index(right) == 1);
    assert(trim_end_index(right) == right.len()) by {
        assert(right.last() == value[value.len() - 1]);
    }
    assert(right.skip(1) =~= value);
    assert(trim(right) =~= value);
    end_of_line_properties_name_the_line_ending(before.last().1, key, value);
}

/// A file in a later `[*]` section whose line ending is `lf` resolves to
/// `Lf` line endings, and holds no carriage return once the settings are
/// applied; one whose line ending is `crlf` resolves to `Crlf`.
pub proof fn a_later_star_section_sets_line_endings(
    first: Seq<(Seq<char>, Seq<char>)>,
    source: (Seq<char>, Seq<char>),
    path: Seq<char>,
    contents: Seq<char>,
)
    requires
        relative_to_directory_spec(path, source.0) is Some,
        parse_sections_spec(source.1).len() > 0,
        parse_sections_spec(source.1).last().0 == "*"@,
        parse_sections_spec(source.1).last().1.line_ending is Some,
    ensures
        resolved_config(first.push(source), path).line_ending == parse_sections_spec(source.1).last().1.line_ending,
        parse_sections_spec(source.1).last().1.line_ending == Some(LineEnding::Lf) ==> !applied_contents(
            contents,
            resolved_config(first.push(source), path),
        ).contains('\r'),
{
    lemma_apply_sources_split(default_editor_config(), first, seq![source], path);
    assert(first + seq![source] =~= first.push(source));
    let r = resolved_config(first, path);
    let relative = relative_to_directory_spec(path, source.0)->Some_0;
    let sections = parse_sections_spec(source.1);
    assert(seq![source].drop_first() =~= Seq::<(Seq<char>, Seq<char>)>::empty());
    assert(seq![source][0] == source);
    lemma_apply_sections_last(r, sections, relative);
    lemma_star_pattern(after_last(relative, '/'));
    let next = apply_sections(r, sections, relative);
    assert(apply_sources(r, seq![source], path) == apply_sources(next, Seq::<(Seq<char>, Seq<char>)>::empty(), path));
    let prev = apply_sections(r, sections.drop_last(), relative);
    assert(next == apply_partial_spec(prev, sections.last().1));
    if sections.last().1.line_ending == Some(LineEnding::Lf) {
        lf_contents_have_no_carriage_return(contents, next);
    }
}

proof fn lemma_property_names()
    ensures
        "indent_style"@ == seq!['i', 'n', 'd', 'e', 'n', 't', '_', 's', 't', 'y', 'l', 'e'],
        "indent_size"@ == seq!['i', 'n', 'd', 'e', 'n', 't', '_', 's', 'i', 'z', 'e'],
        "tab_width"@ == seq!['t', 'a', 'b', '_', 'w', 'i', 'd', 't', 'h'],
        "end_of_line"@ == seq!['e', 'n', 'd', '_', 'o', 'f', '_', 'l', 'i', 'n', 'e'],
        "insert_final_newline"@ == seq![
            'i', 'n', 's', 'e', 'r', 't', '_', 'f', 'i', 'n', 'a', 'l', '_', 'n', 'e', 'w', 'l', 'i', 'n', 'e',
        ],
        "space"@ == seq!['s', 'p', 'a', 'c', 'e'],
        "tab"@ == seq!['t', 'a', 'b'],
        "lf"@ == seq!['l', 'f'],
        "crlf"@ == seq!['c', 'r', 'l', 'f'],
        "true"@ == seq!['t', 'r', 'u', 'e'],
        "false"@ == seq!['f', 'a', 'l', 's', 'e'],
        "indent_size"@ != "end_of_line"@,
{
    reveal_strlit("indent_style");
    reveal_strlit("indent_size");
    reveal_strlit("tab_width");
    reveal_strlit("end_of_line");
    reveal_strlit("insert_final_newline");
    reveal_strlit("space");
    reveal_strlit("tab");
    reveal_strlit("lf");
    reveal_strlit("crlf");
    reveal_strlit("true");
    reveal_strlit("false");
    assert("indent_size"@[0] != "end_of_line"@[0]);
}

/// What each `.editorconfig` property does to a section, keys and values
/// compared without regard to ASCII case: `indent_style` takes `space` or
/// `tab`; `indent_size` takes `tab` (use the tab width) or a positive
/// number; `tab_width` a positive number; `end_of_line` `lf` or `crlf`;
/// `insert_final_newline` `true` or `false`. Any other value unsets the
/// setting, and any other key changes nothing.
pub proof fn properties_set_their_setting(settings: PartialConfig, key: Seq<char>, value: Seq<char>)
    ensures
        lower_seq(key) == "indent_style"@ ==> apply_property_spec(settings, key, value) == (PartialConfig {
            indent_style: if lower_seq(value) == "space"@ {
                Some(IndentStyle::Spaces)
            } else if lower_seq(value) == "tab"@ {
                Some(IndentStyle::Tabs)
            } else {
                None
            },
            ..settings
        }),
        lower_seq(key) == "indent_size"@ && lower_seq(value) == "tab"@ ==> apply_property_spec(settings, key, value)
            == (PartialConfig { indent_size_uses_tab_width: true, ..settings }),
        lower_seq(key) == "indent_size"@ && lower_seq(value) != "tab"@ ==> apply_property_spec(settings, key, value)
            == (PartialConfig { indent_size: positive_usize_spec(lower_seq(value)), ..settings }),
        lower_seq(key) == "tab_width"@ ==> apply_property_spec(settings, key, value) == (PartialConfig {
            tab_width: positive_usize_spec(lower_seq(value)),
            ..settings
        }),
        lower_seq(key) == "end_of_line"@ ==> apply_property_spec(settings, key, value) == (PartialConfig {
            line_ending: named_line_ending(value),
            ..settings
        }),
        lower_seq(key) == "insert_final_newline"@ ==> apply_property_spec(settings, key, value) == (PartialConfig {
            insert_final_newline: if lower_seq(value) == "true"@ {
                Some(true)
            } else if lower_seq(value) == "false"@ {
                Some(false)
            } else {
                None
            },
            ..settings
        }),
        !(lower_seq(key) == "indent_style"@ || lower_seq(key) == "indent_size"@ || lower_seq(key) == "tab_width"@
            || lower_seq(key) == "end_of_line"@ || lower_seq(key) == "insert_final_newline"@) ==> apply_property_spec(
            settings,
            key,
            value,
        ) == settings,
{
    lemma_property_names();
    if lower_seq(key) == "end_of_line"@ {
        end_of_line_properties_name_the_line_ending(settings, key, value);
    }
}

/// A section's settings laid over a configuration: each setting the
/// section names replaces the one before, the others stay, and an indent
/// size of `tab` takes the tab width in force after the section.
pub proof fn section_settings_override(result: EditorConfig, settings: PartialConfig)
    ensures
        apply_partial_spec(result, settings).indent_style == match settings.indent_style {
            Some(style) => style,
            None => result.indent_style,
        },
        apply_partial_spec(result, settings).tab_width == match settings.tab_width {
            Some(width) => width,
            None => result.tab_width,
        },
        apply_partial_spec(result, settings).indent_size == if settings.indent_size_uses_tab_width {
            apply_partial_spec(result, settings).tab_width
        } else {
            match settings.indent_size {
                Some(size) => size,
                None => result.indent_size,
            }
        },
        apply_partial_spec(result, settings).line_ending == match settings.line_ending {
            Some(ending) => Some(ending),
            None => result.line_ending,
        },
        apply_partial_spec(result, settings).insert_final_newline == match settings.insert_final_newline {
            Some(insert) => insert,
            None => result.insert_final_newline,
        },
{
}

} // verus!
