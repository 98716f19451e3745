//! Shell-level rules: route queries, clone destinations and project paths
//! typed by the user, and the labels shown while a clone runs.
use vstd::prelude::*;
use vstd::utf8::encode_utf8;
use crate::editor_config::{strip_trailing, strip_trailing_char};
use crate::git_model::{ClonePhase, CloneProgress};
use crate::language::{is_lit, last_index};
use crate::text::{
    byte_len, byte_len_at_most, chars_of, concat, contains_char, decimal, format_decimal,
    has_control, is_control_spec, seq_ends_with, seq_starts_with, slice_to_vec, split_char,
    split_on, starts_with, ends_with, string_from_chars, trim, trimmed,
};

verus! {

/// A sign-in action offered by the runtime.
#[derive(Clone, Debug, PartialEq, Eq)]
pub struct AuthAction {
    pub label: String,
    pub endpoint: String,
}

/// The query of the AI route.
#[derive(Clone, Debug, Default, PartialEq, Eq)]
pub struct AiQuery {
    pub session_id: Option<String>,
}

pub open spec fn opt_view(o: Option<String>) -> Option<Seq<char>> {
    match o {
        Some(s) => Some(s@),
        None => None,
    }
}

/// `form_urlencoded::parse`: the decoded name and value of each pair.
pub uninterp spec fn form_urlencoded_parse(input: Seq<char>) -> Seq<(Seq<char>, Seq<char>)>;

/// An uppercase hexadecimal digit.
pub open spec fn upper_hex_digit(n: int) -> char {
    if n < 10 {
        (48 + n) as char
    } else {
        (55 + n) as char
    }
}

/// How the form encoding writes one byte: ASCII letters, digits and `*-._`
/// as they are, a space as `+`, any other byte as `%` and two uppercase
/// hexadecimal digits.
pub open spec fn form_encoded_byte(b: u8) -> Seq<char> {
    if b == 42 || b == 45 || b == 46 || (48 <= b <= 57) || (65 <= b <= 90) || b == 95 || (97 <= b <= 122) {
        seq![b as char]
    } else if b == 32 {
        seq!['+']
    } else {
        seq!['%', upper_hex_digit(b as int / 16), upper_hex_digit(b as int % 16)]
    }
}

/// The form encoding of each byte, one after the other.
pub open spec fn form_encoded_bytes(bytes: Seq<u8>) -> Seq<char>
    decreases bytes.len(),
{
    if bytes.len() == 0 {
        Seq::empty()
    } else {
        form_encoded_bytes(bytes.drop_last()) + form_encoded_byte(bytes.last())
    }
}

/// `form_urlencoded::byte_serialize`: the form encoding of the UTF-8 bytes
/// of `input`.
pub open spec fn form_urlencoded_byte_serialize(input: Seq<char>) -> Seq<char> {
    form_encoded_bytes(encode_utf8(input))
}

/// Calls `url::form_urlencoded::parse` and keeps the pairs as strings.
#[verifier::external_body]
fn form_pairs(query: &str) -> (r: Vec<(String, String)>)
    ensures
        r@.map_values(|p: (String, String)| (p.0@, p.1@)) == form_urlencoded_parse(query@),
{
    url::form_urlencoded::parse(query.as_bytes()).map(|(name, value)| (name.into_owned(), value.into_owned())).collect()
}

/// Calls `url::form_urlencoded::byte_serialize` on the UTF-8 bytes of `value`;
/// its source writes each byte as `form_encoded_byte` says.
#[verifier::external_body]
fn byte_serialize(value: &str) -> (r: String)
    ensures
        r@ == form_urlencoded_byte_serialize(value@),
{
    url::form_urlencoded::byte_serialize(value.as_bytes()).collect()
}

pub open spec fn is_session_key(name: Seq<char>) -> bool {
    name == "sessionId"@ || name == "session_id"@
}

/// The first session named by the pairs: the trimmed value of the first
/// `sessionId` or `session_id` pair whose value is not blank.
pub open spec fn session_from_pairs(pairs: Seq<(Seq<char>, Seq<char>)>) -> Option<Seq<char>>
    decreases pairs.len(),
{
    if pairs.len() == 0 {
        None
    } else if is_session_key(pairs[0].0) && trim(pairs[0].1).len() > 0 {
        Some(trim(pairs[0].1))
    } else {
        session_from_pairs(pairs.drop_first())
    }
}

/// The session named by a form-encoded query.
pub open spec fn query_session(query: Seq<char>) -> Option<Seq<char>> {
    session_from_pairs(form_urlencoded_parse(query))
}

/// The form-encoded text of a query.
pub open spec fn query_text(session: Option<Seq<char>>) -> Seq<char> {
    match session {
        Some(id) => form_urlencoded_byte_serialize("sessionId"@) + "="@ + form_urlencoded_byte_serialize(id),
        None => Seq::empty(),
    }
}

impl AiQuery {
    pub fn with_session(session_id: String) -> (r: Self)
        ensures
            opt_view(r.session_id) == Some(session_id@),
    {
        AiQuery { session_id: Some(session_id) }
    }

    /// The query in `application/x-www-form-urlencoded` form.
    pub fn to_string(&self) -> (r: String)
        ensures
            r@ == query_text(opt_view(self.session_id)),
    {
        match &self.session_id {
            Some(id) => {
                let mut out = chars_of(byte_serialize("sessionId").as_str());
                let ghost name = out@;
                out.push('=');
                let value = chars_of(byte_serialize(id.as_str()).as_str());
                let all = concat(&out, &value);
                proof {
                    reveal_strlit("=");
                    assert(out@ =~= name + "="@);
                }
                string_from_chars(&all)
            },
            None => String::new(),
        }
    }
}

impl From<&str> for AiQuery {
    fn from(query: &str) -> (r: Self)
        ensures
            opt_view(r.session_id) == query_session(query@),
    {
        let pairs = form_pairs(query);
        let ghost all = form_urlencoded_parse(query@);
        let mut k: usize = 0;
        proof {
            assert(all.skip(0) =~= all);
        }
        while k < pairs.len()
            invariant
                k <= pairs@.len(),
                all == form_urlencoded_parse(query@),
                pairs@.map_values(|p: (String, String)| (p.0@, p.1@)) == all,
                session_from_pairs(all) == session_from_pairs(all.skip(k as int)),
            decreases pairs@.len() - k,
        {
            let ghost rest = all.skip(k as int);
            assert(rest[0] == all[k as int]);
            assert(all[k as int] == (pairs@[k as int].0@, pairs@[k as int].1@));
            let name = chars_of(pairs[k].0.as_str());
            if is_lit(&name, "sessionId") || is_lit(&name, "session_id") {
                let value = chars_of(pairs[k].1.as_str());
                let t = trimmed(&value);
                if t.len() > 0 {
                    proof {
                        assert(rest.len() > 0);
                        assert(is_session_key(rest[0].0));
                        assert(session_from_pairs(rest) == Some(trim(rest[0].1)));
                    }
                    return AiQuery { session_id: Some(string_from_chars(&t)) };
                }
            }
            proof {
                assert(rest.drop_first() =~= all.skip(k + 1));
            }
            k = k + 1;
        }
        AiQuery { session_id: None }
    }
}

impl vstd::std_specs::convert::FromSpecImpl<&str> for AiQuery {
    open spec fn obeys_from_spec() -> bool {
        false
    }

    open spec fn from_spec(query: &str) -> AiQuery {
        AiQuery { session_id: None }
    }
}


/// Whether the text looks like a Git remote: an `https`, `http`, `ssh` or
/// `git` URL, or an scp-like `git@host:path`.
pub open spec fn looks_like_git_url_spec(url: Seq<char>) -> bool {
    let t = trim(url);
    starts_with(t, "https://"@) || starts_with(t, "http://"@) || starts_with(t, "ssh://"@)
        || starts_with(t, "git://"@) || (starts_with(t, "git@"@) && t.contains(':'))
}

fn starts_with_lit(s: &[char], prefix: &str) -> (r: bool)
    ensures
        r == starts_with(s@, prefix@),
{
    let p = chars_of(prefix);
    seq_starts_with(s, &p)
}

pub fn looks_like_git_url(url: &str) -> (r: bool)
    ensures
        r == looks_like_git_url_spec(url@),
{
    let all = chars_of(url);
    let t = trimmed(&all);
    starts_with_lit(&t, "https://") || starts_with_lit(&t, "http://") || starts_with_lit(&t, "ssh://")
        || starts_with_lit(&t, "git://") || (starts_with_lit(&t, "git@") && contains_char(&t, ':'))
}

/// Where a clone goes: the parent folder and the new directory's name.
#[derive(Clone, Debug, PartialEq, Eq)]
pub struct CloneDestination {
    pub parent: String,
    pub directory_name: String,
}

pub open spec fn is_dot_or_empty(part: Seq<char>) -> bool {
    part.len() == 0 || part == "."@ || part == ".."@
}

pub open spec fn has_control_char(s: Seq<char>) -> bool {
    exists|k: int| 0 <= k < s.len() && is_control_spec(#[trigger] s[k])
}

/// `v` with a leading `/` when it has none.
pub open spec fn rooted(v: Seq<char>) -> Seq<char> {
    if starts_with(v, "/"@) {
        v
    } else {
        seq!['/'] + v
    }
}

/// The clone destination typed as `value`: an absolute or root-relative
/// path without empty, `.` or `..` components or backslashes, whose last
/// component is a directory name of at most 255 bytes without control
/// characters.
pub open spec fn clone_destination(value: Seq<char>) -> Option<(Seq<char>, Seq<char>)> {
    let v = trim(value);
    if v.len() == 0 || starts_with(v, "//"@) || v.contains('\\') {
        None
    } else {
        let normalized = rooted(v);
        let parts = split_char(normalized.drop_first(), '/');
        if exists|k: int| 0 <= k < parts.len() && is_dot_or_empty(#[trigger] parts[k]) {
            None
        } else {
            let cut = last_index(normalized, '/');
            let parent = normalized.take(cut);
            let name = normalized.skip(cut + 1);
            if byte_len(name) > 255 || has_control_char(name) {
                None
            } else {
                Some((if parent.len() == 0 { "/"@ } else { parent }, name))
            }
        }
    }
}

proof fn lemma_last_index_at_least(s: Seq<char>, c: char, i: int)
    requires
        0 <= i < s.len(),
        s[i] == c,
    ensures
        i <= last_index(s, c) < s.len(),
        s[last_index(s, c)] == c,
    decreases s.len(),
{
    if s.last() != c {
        lemma_last_index_at_least(s.drop_last(), c, i);
    }
}

/// Whether some piece is empty, `.` or `..`.
fn any_dot_or_empty(parts: &Vec<Vec<char>>) -> (r: bool)
    ensures
        r == exists|k: int| 0 <= k < parts@.len() && is_dot_or_empty(#[trigger] parts@[k]@),
{
    let mut k: usize = 0;
    while k < parts.len()
        invariant
            k <= parts@.len(),
            forall|q: int| 0 <= q < k ==> !is_dot_or_empty(#[trigger] parts@[q]@),
        decreases parts@.len() - k,
    {
        if parts[k].len() == 0 || is_lit(&parts[k], ".") || is_lit(&parts[k], "..") {
            return true;
        }
        k = k + 1;
    }
    false
}

fn destination_chars(value: &[char]) -> (r: Option<(Vec<char>, Vec<char>)>)
    ensures
        match r {
            Some((parent, name)) => clone_destination(value@) == Some((parent@, name@)),
            None => clone_destination(value@) is None,
        },
{
    let v = trimmed(value);
    if v.len() == 0 || starts_with_lit(&v, "//") || contains_char(&v, '\\') {
        return None;
    }
    let mut normalized: Vec<char> = Vec::new();
    if !starts_with_lit(&v, "/") {
        normalized.push('/');
    }
    let normalized = concat(&normalized, &v);
    proof {
        reveal_strlit("/");
        if starts_with(v@, "/"@) {
            assert(normalized@ =~= v@);
            assert(v@.take(1) == "/"@);
            assert(v@[0] == v@.take(1)[0]);
        } else {
            assert(normalized@ =~= seq!['/'] + v@);
        }
        assert(normalized@[0] == '/');
    }
    let rest = slice_to_vec(&normalized, 1, normalized.len());
    let parts = split_on(&rest, '/');
    proof {
        assert(rest@ =~= normalized@.drop_first());
        let spec_parts = split_char(normalized@.drop_first(), '/');
        assert(forall|k: int| 0 <= k < parts@.len() ==> #[trigger] parts@[k]@ == spec_parts[k]) by {
            assert forall|k: int| 0 <= k < parts@.len() implies #[trigger] parts@[k]@ == spec_parts[k] by {
                assert(parts@.map_values(|x: Vec<char>| x@)[k] == parts@[k]@);
            }
        }
        assert(parts@.len() == spec_parts.len());
    }
    if any_dot_or_empty(&parts) {
        proof {
            let ns = rooted(trim(value@));
            assert(ns == normalized@);
            let spec_parts = split_char(ns.drop_first(), '/');
            let k = choose|k: int| 0 <= k < parts@.len() && is_dot_or_empty(#[trigger] parts@[k]@);
            assert(is_dot_or_empty(spec_parts[k]));
            assert(exists|q: int| 0 <= q < spec_parts.len() && is_dot_or_empty(#[trigger] spec_parts[q]));
            assert(clone_destination(value@) is None);
        }
        return None;
    }
    proof {
        let spec_parts = split_char(normalized@.drop_first(), '/');
        assert forall|k: int| 0 <= k < spec_parts.len() implies !is_dot_or_empty(#[trigger] spec_parts[k]) by {
            assert(parts@[k]@ == spec_parts[k]);
        }
        lemma_last_index_at_least(normalized@, '/', 0);
    }
    let cut = crate::language::find_last(&normalized, '/');
    let parent = slice_to_vec(&normalized, 0, cut);
    let name = slice_to_vec(&normalized, cut + 1, normalized.len());
    proof {
        assert(parent@ =~= normalized@.take(cut as int));
        assert(name@ =~= normalized@.skip(cut + 1));
    }
    if !byte_len_at_most(&name, 255) || has_control(&name) {
        return None;
    }
    if parent.len() == 0 {
        let slash = chars_of("/");
        Some((slash, name))
    } else {
        Some((parent, name))
    }
}

/// Splits a typed clone destination into its parent folder and directory name.
pub fn parse_clone_destination(value: &str) -> (r: Option<CloneDestination>)
    ensures
        match r {
            Some(d) => clone_destination(value@) == Some((d.parent@, d.directory_name@)),
            None => clone_destination(value@) is None,
        },
{
    let all = chars_of(value);
    match destination_chars(&all) {
        Some((parent, name)) => Some(
            CloneDestination { parent: string_from_chars(&parent), directory_name: string_from_chars(&name) },
        ),
        None => None,
    }
}

/// Index of the first `?` or `#` at or after `from`, or the length.
pub open spec fn query_cut(s: Seq<char>, from: int) -> int
    decreases s.len() - from,
{
    if from < 0 || from >= s.len() {
        s.len() as int
    } else if s[from] == '?' || s[from] == '#' {
        from
    } else {
        query_cut(s, from + 1)
    }
}

/// Index of the last `/` or `:`, or `-1`.
pub open spec fn last_separator(s: Seq<char>) -> int
    decreases s.len(),
{
    if s.len() == 0 {
        -1
    } else if s.last() == '/' || s.last() == ':' {
        s.len() - 1
    } else {
        last_separator(s.drop_last())
    }
}

/// The directory name suggested for cloning `url`: its last path component
/// without a `.git` suffix, ignoring any query, fragment and trailing slashes.
pub open spec fn repository_name(url: Seq<char>) -> Option<Seq<char>> {
    if !looks_like_git_url_spec(url) {
        None
    } else {
        let t = trim(url);
        let base = strip_trailing(t.take(query_cut(t, 0)), '/');
        let tail = base.skip(last_separator(base) + 1);
        let name = if ends_with(tail, ".git"@) {
            tail.take(tail.len() - 4)
        } else {
            tail
        };
        match clone_destination(name) {
            Some(d) => Some(d.1),
            None => None,
        }
    }
}

fn find_query_cut(s: &[char]) -> (r: usize)
    ensures
        r == query_cut(s@, 0),
        r <= s@.len(),
{
    let mut i: usize = 0;
    while i < s.len() && s[i] != '?' && s[i] != '#'
        invariant
            i <= s@.len(),
            query_cut(s@, 0) == query_cut(s@, i as int),
        decreases s@.len() - i,
    {
        i = i + 1;
    }
    i
}

fn find_last_separator(s: &[char]) -> (r: usize)
    ensures
        r <= s@.len(),
        r as int == last_separator(s@) + 1,
{
    let mut i: usize = s.len();
    proof {
        assert(s@.take(s@.len() as int) =~= s@);
    }
    while i > 0 && s[i - 1] != '/' && s[i - 1] != ':'
        invariant
            i <= s@.len(),
            last_separator(s@) == last_separator(s@.take(i as int)),
        decreases i,
    {
        proof {
            assert(s@.take(i as int).drop_last() =~= s@.take(i - 1));
        }
        i = i - 1;
    }
    proof {
        if i == 0 {
            assert(s@.take(0) =~= Seq::<char>::empty());
        }
    }
    i
}

/// The directory name suggested for cloning `url`, if it looks like a Git URL.
pub fn repository_name_from_url(url: &str) -> (r: Option<String>)
    ensures
        opt_view(r) == repository_name(url@),
{
    if !looks_like_git_url(url) {
        return None;
    }
    let all = chars_of(url);
    let t = trimmed(&all);
    let cut = find_query_cut(&t);
    let head = slice_to_vec(&t, 0, cut);
    let keep = strip_trailing_char(&head, '/');
    let base = slice_to_vec(&head, 0, keep);
    let from = find_last_separator(&base);
    let tail = slice_to_vec(&base, from, base.len());
    let suffix = chars_of(".git");
    proof {
        reveal_strlit(".git");
        assert(head@ =~= t@.take(cut as int));
        assert(base@ =~= head@.take(keep as int));
        assert(tail@ =~= base@.skip(from as int));
    }
    let name = if seq_ends_with(&tail, &suffix) {
        slice_to_vec(&tail, 0, tail.len() - 4)
    } else {
        tail
    };
    proof {
        if ends_with(tail@, ".git"@) {
            assert(name@ =~= tail@.take(tail@.len() - 4));
        }
    }
    match destination_chars(&name) {
        Some((_, directory)) => Some(string_from_chars(&directory)),
        None => None,
    }
}

/// The folder above `path`, or nothing at the root.
pub open spec fn parent_folder_spec(path: Seq<char>) -> Option<Seq<char>> {
    let p = strip_trailing(path, '/');
    if p.len() == 0 {
        None
    } else {
        let cut = last_index(p, '/');
        let parent = if cut < 0 {
            "/"@
        } else {
            p.take(cut)
        };
        Some(if parent.len() == 0 { "/"@ } else { parent })
    }
}

pub fn parent_folder(path: &str) -> (r: Option<String>)
    ensures
        opt_view(r) == parent_folder_spec(path@),
{
    let all = chars_of(path);
    let keep = strip_trailing_char(&all, '/');
    let p = slice_to_vec(&all, 0, keep);
    proof {
        assert(p@ =~= all@.take(keep as int));
    }
    if p.len() == 0 {
        return None;
    }
    let cut = crate::language::find_last(&p, '/');
    if cut == p.len() || cut == 0 {
        return Some("/".to_owned());
    }
    let parent = slice_to_vec(&p, 0, cut);
    proof {
        assert(parent@ =~= p@.take(cut as int));
    }
    Some(string_from_chars(&parent))
}

/// A component that a project path may not have: empty, `.`, `..`, longer
/// than 255 bytes, or holding a control character.
pub open spec fn is_bad_project_component(part: Seq<char>) -> bool {
    is_dot_or_empty(part) || byte_len(part) > 255 || has_control_char(part)
}

/// `p` without one leading `/`.
pub open spec fn unrooted(p: Seq<char>) -> Seq<char> {
    if starts_with(p, "/"@) {
        p.drop_first()
    } else {
        p
    }
}

/// Whether a typed project path is unusable; a blank path is not reported.
pub open spec fn project_path_invalid(path: Seq<char>) -> bool {
    let p = trim(path);
    let parts = split_char(unrooted(p), '/');
    p.len() > 0 && (starts_with(p, "//"@) || p.contains('\\') || exists|k: int|
        0 <= k < parts.len() && is_bad_project_component(#[trigger] parts[k]))
}

pub open spec fn project_path_message() -> Seq<char> {
    "Use a project name or subpath without empty, dot, or parent folders."@
}

fn any_bad_project_component(parts: &Vec<Vec<char>>) -> (r: bool)
    ensures
        r == exists|k: int| 0 <= k < parts@.len() && is_bad_project_component(#[trigger] parts@[k]@),
{
    let mut k: usize = 0;
    while k < parts.len()
        invariant
            k <= parts@.len(),
            forall|q: int| 0 <= q < k ==> !is_bad_project_component(#[trigger] parts@[q]@),
        decreases parts@.len() - k,
    {
        let part = &parts[k];
        if part.len() == 0 || is_lit(part, ".") || is_lit(part, "..") || !byte_len_at_most(part, 255)
            || has_control(part) {
            return true;
        }
        k = k + 1;
    }
    false
}

/// The problem with a typed project path, if any.
pub fn validate_project_path(path: &str) -> (r: Option<String>)
    ensures
        r is Some <==> project_path_invalid(path@),
        r matches Some(message) ==> message@ == project_path_message(),
{
    let all = chars_of(path);
    let p = trimmed(&all);
    if p.len() == 0 {
        return None;
    }
    let relative = if starts_with_lit(&p, "/") {
        slice_to_vec(&p, 1, p.len())
    } else {
        slice_to_vec(&p, 0, p.len())
    };
    proof {
        reveal_strlit("/");
        if starts_with(p@, "/"@) {
            assert(relative@ =~= p@.drop_first());
        } else {
            assert(relative@ =~= p@);
        }
    }
    let parts = split_on(&relative, '/');
    let ghost spec_parts = split_char(relative@, '/');
    proof {
        assert(parts@.len() == spec_parts.len());
        assert forall|k: int| 0 <= k < parts@.len() implies #[trigger] parts@[k]@ == spec_parts[k] by {
            assert(parts@.map_values(|x: Vec<char>| x@)[k] == parts@[k]@);
        }
    }
    let bad = any_bad_project_component(&parts);
    proof {
        let rel = unrooted(trim(path@));
        assert(rel == relative@);
        if bad {
            let k = choose|k: int| 0 <= k < parts@.len() && is_bad_project_component(#[trigger] parts@[k]@);
            assert(is_bad_project_component(split_char(rel, '/')[k]));
            assert(exists|q: int| 0 <= q < split_char(rel, '/').len() && is_bad_project_component(
                #[trigger] split_char(rel, '/')[q],
            ));
            assert(project_path_invalid(path@));
        } else {
            assert forall|k: int| 0 <= k < spec_parts.len() implies !is_bad_project_component(
                #[trigger] spec_parts[k],
            ) by {
                assert(parts@[k]@ == spec_parts[k]);
            }
        }
    }
    if starts_with_lit(&p, "//") || contains_char(&p, '\\') || bad {
        Some("Use a project name or subpath without empty, dot, or parent folders.".to_owned())
    } else {
        None
    }
}

pub open spec fn clone_phase_label(phase: ClonePhase) -> Seq<char> {
    match phase {
        ClonePhase::Preparing => "Preparing clone"@,
        ClonePhase::Counting => "Counting objects"@,
        ClonePhase::Compressing => "Compressing objects"@,
        ClonePhase::Receiving => "Receiving objects"@,
        ClonePhase::Resolving => "Resolving deltas"@,
        ClonePhase::CheckingOut => "Checking out files"@,
        ClonePhase::Finalizing => "Registering workspace"@,
    }
}

/// The label shown while a clone runs.
pub open spec fn clone_progress_text(progress: Option<CloneProgress>) -> Seq<char> {
    match progress {
        None => "Starting clone…"@,
        Some(p) => match p.percent {
            None => clone_phase_label(p.phase) + "…"@,
            Some(percent) => clone_phase_label(p.phase) + "… "@ + decimal(percent as nat) + "%"@,
        },
    }
}

fn phase_label(phase: ClonePhase) -> (r: &'static str)
    ensures
        r@ == clone_phase_label(phase),
{
    match phase {
        ClonePhase::Preparing => "Preparing clone",
        ClonePhase::Counting => "Counting objects",
        ClonePhase::Compressing => "Compressing objects",
        ClonePhase::Receiving => "Receiving objects",
        ClonePhase::Resolving => "Resolving deltas",
        ClonePhase::CheckingOut => "Checking out files",
        ClonePhase::Finalizing => "Registering workspace",
    }
}

pub fn clone_progress_label(progress: Option<CloneProgress>) -> (r: String)
    ensures
        r@ == clone_progress_text(progress),
{
    match progress {
        None => "Starting clone…".to_owned(),
        Some(p) => {
            let label = chars_of(phase_label(p.phase));
            match p.percent {
                None => {
                    let ellipsis = chars_of("…");
                    string_from_chars(&concat(&label, &ellipsis))
                },
                Some(percent) => {
                    let head = concat(&label, &chars_of("… "));
                    let digits = format_decimal(percent as u64);
                    let body = concat(&head, &digits);
                    let tail = concat(&body, &chars_of("%"));
                    string_from_chars(&tail)
                },
            }
        },
    }
}

/// What the clone dialog shows: whether it is open, whether a clone runs,
/// the error to show and the last progress reported.
#[derive(Clone, Debug, PartialEq, Eq)]
pub struct CloneDialog {
    pub open: bool,
    pub busy: bool,
    pub error: Option<String>,
    pub progress: Option<CloneProgress>,
}

/// What reaches the clone dialog's task while it starts or follows a clone.
#[derive(Clone, Debug, PartialEq, Eq)]
pub enum CloneSignal {
    /// The clone could not start.
    StartFailed(String),
    /// The user asked to cancel.
    Cancel,
    /// Cancelling the clone failed.
    CancelFailed(String),
    /// Another start was asked for while a clone runs.
    IgnoreStart,
    /// The dialog's command channel closed.
    CommandsClosed,
    Started,
    Progress(CloneProgress),
    /// The clone finished as the workspace with this slug.
    Completed(String),
    Cancelled,
    /// The clone's event stream ended.
    Ended,
    Failed(String),
}

/// What the task does next.
#[derive(Clone, Debug, PartialEq, Eq)]
pub enum CloneStep {
    /// Wait for the next command: no clone is followed any more.
    AwaitCommand,
    /// Keep reading the clone's events.
    ReadStream,
    /// Ask the clone to stop, then keep reading its events.
    CancelStream,
    /// The dialog is gone: stop.
    Stop,
    /// Open the files of the workspace with this slug.
    Open(String),
}

/// The dialog after a clone stopped, with `error` to show: not busy and with
/// no progress.
pub open spec fn clone_stopped(d: CloneDialog, error: Option<String>) -> CloneDialog {
    CloneDialog { busy: false, progress: None, error, ..d }
}

/// The dialog's next state and step for one signal.
pub open spec fn clone_dialog_next(d: CloneDialog, signal: CloneSignal) -> (CloneDialog, CloneStep) {
    match signal {
        CloneSignal::StartFailed(m) => (clone_stopped(d, Some(m)), CloneStep::AwaitCommand),
        CloneSignal::Cancel => (d, CloneStep::CancelStream),
        CloneSignal::CancelFailed(m) => (clone_stopped(d, Some(m)), CloneStep::AwaitCommand),
        CloneSignal::IgnoreStart => (d, CloneStep::ReadStream),
        CloneSignal::CommandsClosed => (d, CloneStep::Stop),
        CloneSignal::Started => (d, CloneStep::ReadStream),
        CloneSignal::Progress(p) => (CloneDialog { progress: Some(p), ..d }, CloneStep::ReadStream),
        CloneSignal::Completed(slug) => (
            CloneDialog { open: false, ..clone_stopped(d, d.error) },
            CloneStep::Open(slug),
        ),
        CloneSignal::Cancelled => (clone_stopped(d, d.error), CloneStep::AwaitCommand),
        CloneSignal::Ended => (clone_stopped(d, d.error), CloneStep::AwaitCommand),
        CloneSignal::Failed(m) => (clone_stopped(d, Some(m)), CloneStep::AwaitCommand),
    }
}

/// Moves the clone dialog on by one signal and says what its task does next.
pub fn clone_dialog_step(dialog: &mut CloneDialog, signal: CloneSignal) -> (r: CloneStep)
    ensures
        (*final(dialog), r) == clone_dialog_next(*old(dialog), signal),
{
    match signal {
        CloneSignal::StartFailed(m) | CloneSignal::CancelFailed(m) | CloneSignal::Failed(m) => {
            dialog.busy = false;
            dialog.progress = None;
            dialog.error = Some(m);
            CloneStep::AwaitCommand
        },
        CloneSignal::Cancel => CloneStep::CancelStream,
        CloneSignal::IgnoreStart | CloneSignal::Started => CloneStep::ReadStream,
        CloneSignal::CommandsClosed => CloneStep::Stop,
        CloneSignal::Progress(p) => {
            dialog.progress = Some(p);
            CloneStep::ReadStream
        },
        CloneSignal::Completed(slug) => {
            dialog.busy = false;
            dialog.progress = None;
            dialog.open = false;
            CloneStep::Open(slug)
        },
        CloneSignal::Cancelled | CloneSignal::Ended => {
            dialog.busy = false;
            dialog.progress = None;
            CloneStep::AwaitCommand
        },
    }
}

/// Whenever the task stops following a clone, the dialog is no longer busy
/// and shows no progress; a finished clone also closes the dialog.
pub proof fn clone_dialog_settles(d: CloneDialog, signal: CloneSignal)
    ensures
        clone_dialog_next(d, signal).1 == CloneStep::AwaitCommand || clone_dialog_next(d, signal).1 is Open
            ==> !clone_dialog_next(d, signal).0.busy && clone_dialog_next(d, signal).0.progress is None,
        clone_dialog_next(d, signal).1 is Open ==> !clone_dialog_next(d, signal).0.open,
{
}
} // verus!
