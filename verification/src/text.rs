//! Character-level text model shared by the editor, Git and agent modules.
//!
//! Text is viewed as a sequence of Unicode scalar values (`Seq<char>`); byte
//! offsets are the lengths of UTF-8 encodings of prefixes of that sequence.
use vstd::prelude::*;
use vstd::utf8::*;
use vstd::string::StringSliceAdditionalSpecFns;

verus! {

/// Number of bytes in the UTF-8 encoding of `c`.
pub open spec fn utf8_width(c: char) -> nat {
    if (c as u32) < 0x80 {
        1
    } else if (c as u32) < 0x800 {
        2
    } else if (c as u32) < 0x10000 {
        3
    } else {
        4
    }
}

/// Number of bytes in the UTF-8 encoding of `s`.
pub open spec fn byte_len(s: Seq<char>) -> nat
    decreases s.len(),
{
    if s.len() == 0 {
        0
    } else {
        utf8_width(s[0]) + byte_len(s.drop_first())
    }
}

/// Byte offset of the character at index `i` of `s`.
pub open spec fn byte_offset(s: Seq<char>, i: int) -> nat {
    byte_len(s.take(i))
}

pub proof fn lemma_byte_len_concat(a: Seq<char>, b: Seq<char>)
    ensures
        byte_len(a + b) == byte_len(a) + byte_len(b),
    decreases a.len(),
{
    if a.len() == 0 {
        assert(a + b =~= b);
    } else {
        assert((a + b).drop_first() =~= a.drop_first() + b);
        lemma_byte_len_concat(a.drop_first(), b);
    }
}

pub proof fn lemma_byte_offset_step(s: Seq<char>, i: int)
    requires
        0 <= i < s.len(),
    ensures
        byte_offset(s, i + 1) == byte_offset(s, i) + utf8_width(s[i]),
{
    assert(s.take(i + 1) =~= s.take(i) + seq![s[i]]);
    lemma_byte_len_concat(s.take(i), seq![s[i]]);
    assert(seq![s[i]].drop_first() =~= Seq::<char>::empty());
    assert(byte_len(Seq::<char>::empty()) == 0);
    assert(byte_len(seq![s[i]]) == utf8_width(s[i]) + byte_len(seq![s[i]].drop_first()));
}

pub proof fn lemma_byte_offset_mono(s: Seq<char>, i: int, j: int)
    requires
        0 <= i <= j <= s.len(),
    ensures
        byte_offset(s, i) <= byte_offset(s, j),
        i < j ==> byte_offset(s, i) < byte_offset(s, j),
    decreases j - i,
{
    if i < j {
        lemma_byte_offset_mono(s, i, j - 1);
        lemma_byte_offset_step(s, j - 1);
    }
}

pub proof fn lemma_byte_offset_full(s: Seq<char>)
    ensures
        byte_offset(s, s.len() as int) == byte_len(s),
{
    assert(s.take(s.len() as int) =~= s);
}

/// Distinct character indices have distinct byte offsets.
pub proof fn lemma_byte_offset_injective(s: Seq<char>, i: int, j: int)
    requires
        0 <= i <= s.len(),
        0 <= j <= s.len(),
        byte_offset(s, i) == byte_offset(s, j),
    ensures
        i == j,
{
    if i < j {
        lemma_byte_offset_mono(s, i, j);
    } else if j < i {
        lemma_byte_offset_mono(s, j, i);
    }
}

proof fn lemma_encode_scalar_len(c: char)
    ensures
        encode_scalar(c as u32).len() == utf8_width(c),
{
    char_is_scalar(c);
}

/// The UTF-8 encoding of `s` has `byte_len(s)` bytes.
pub proof fn lemma_encode_len(s: Seq<char>)
    ensures
        encode_utf8(s).len() == byte_len(s),
    decreases s.len(),
{
    if s.len() > 0 {
        lemma_encode_scalar_len(s[0]);
        lemma_encode_len(s.drop_first());
    }
}

/// `str::len` is the byte length of the character view.
pub proof fn lemma_str_len(s: &str)
    ensures
        s.spec_bytes().len() == byte_len(s@),
{
    lemma_encode_len(s@);
}

/// Number of bytes in the UTF-8 encoding of `c`.
pub fn char_width(c: char) -> (w: usize)
    ensures
        w == utf8_width(c),
        1 <= w <= 4,
{
    let v = c as u32;
    if v < 0x80 {
        1
    } else if v < 0x800 {
        2
    } else if v < 0x10000 {
        3
    } else {
        4
    }
}

/// The characters of `s`, in order.
pub fn chars_of(s: &str) -> (v: Vec<char>)
    ensures
        v@ == s@,
{
    let mut v: Vec<char> = Vec::new();
    for c in it: s.chars()
        invariant
            v@ == it.seq().take(it.index() as int),
            it.seq() == s@,
    {
        v.push(c);
    }
    v
}

/// Byte offsets of every character index of `s`, including the end.
pub fn byte_offsets(s: &[char]) -> (offsets: Vec<usize>)
    requires
        byte_len(s@) <= usize::MAX,
    ensures
        offsets@.len() == s@.len() + 1,
        forall|i: int| 0 <= i <= s@.len() ==> #[trigger] offsets@[i] == byte_offset(s@, i),
{
    let mut offsets: Vec<usize> = Vec::new();
    let mut acc: usize = 0;
    let mut i: usize = 0;
    proof {
        assert(s@.take(0) =~= Seq::<char>::empty());
        lemma_byte_offset_full(s@);
    }
    offsets.push(0);
    while i < s.len()
        invariant
            i <= s@.len(),
            byte_len(s@) <= usize::MAX,
            acc == byte_offset(s@, i as int),
            offsets@.len() == i + 1,
            forall|k: int| 0 <= k <= i ==> #[trigger] offsets@[k] == byte_offset(s@, k),
        decreases s@.len() - i,
    {
        proof {
            lemma_byte_offset_step(s@, i as int);
            lemma_byte_offset_mono(s@, i + 1, s@.len() as int);
            lemma_byte_offset_full(s@);
        }
        acc = acc + char_width(s[i]);
        i = i + 1;
        offsets.push(acc);
    }
    offsets
}

/// The string whose characters are `v`.
#[verifier::external_body]
pub fn string_from_chars(v: &[char]) -> (s: String)
    ensures
        s@ == v@,
{
    v.iter().collect()
}

/// Appends `c` to `s` (`String::push`).
#[verifier::external_body]
pub fn push_char(s: &mut String, c: char)
    ensures
        final(s)@ == old(s)@.push(c),
{
    s.push(c)
}

/// Appends `t` to `s` (`String::push_str`).
#[verifier::external_body]
pub fn push_str(s: &mut String, t: &str)
    ensures
        final(s)@ == old(s)@ + t@,
{
    s.push_str(t)
}

/// Characters with the Unicode `White_Space` property, which `char::is_whitespace` tests.
pub open spec fn is_whitespace_spec(c: char) -> bool {
    let v = c as u32;
    (0x09 <= v <= 0x0D) || v == 0x20 || v == 0x85 || v == 0xA0 || v == 0x1680 || (0x2000 <= v
        <= 0x200A) || v == 0x2028 || v == 0x2029 || v == 0x202F || v == 0x205F || v == 0x3000
}

pub fn is_whitespace(c: char) -> (b: bool)
    ensures
        b == is_whitespace_spec(c),
{
    let v = c as u32;
    (0x09 <= v && v <= 0x0D) || v == 0x20 || v == 0x85 || v == 0xA0 || v == 0x1680 || (0x2000
        <= v && v <= 0x200A) || v == 0x2028 || v == 0x2029 || v == 0x202F || v == 0x205F || v
        == 0x3000
}

/// Characters of the general category `Cc`, which `char::is_control` tests.
pub open spec fn is_control_spec(c: char) -> bool {
    let v = c as u32;
    v <= 0x1F || (0x7F <= v <= 0x9F)
}

pub fn is_control(c: char) -> (b: bool)
    ensures
        b == is_control_spec(c),
{
    let v = c as u32;
    v <= 0x1F || (0x7F <= v && v <= 0x9F)
}

pub open spec fn is_ascii_digit_spec(c: char) -> bool {
    '0' <= c <= '9'
}

pub open spec fn is_ascii_alphanumeric_spec(c: char) -> bool {
    ('0' <= c <= '9') || ('a' <= c <= 'z') || ('A' <= c <= 'Z')
}

/// `char::to_ascii_lowercase`.
pub open spec fn ascii_lower(c: char) -> char {
    if 'A' <= c <= 'Z' {
        ((c as u32) + 32) as char
    } else {
        c
    }
}

pub fn to_ascii_lower(c: char) -> (r: char)
    ensures
        r == ascii_lower(c),
{
    if 'A' <= c && c <= 'Z' {
        let v: u32 = (c as u32) + 32;
        proof {
            assert(0x61 <= v <= 0x7A);
        }
        char_from_ascii_code(v)
    } else {
        c
    }
}

/// The ASCII character with code `v`.
fn char_from_ascii_code(v: u32) -> (c: char)
    requires
        v < 0x80,
    ensures
        c == v as char,
        c as u32 == v,
{
    let b = v as u8;
    let c = b as char;
    c
}

pub open spec fn lower_seq(s: Seq<char>) -> Seq<char> {
    s.map_values(|c: char| ascii_lower(c))
}

/// `str::to_ascii_lowercase`, on characters.
pub fn to_ascii_lowercase(s: &[char]) -> (r: Vec<char>)
    ensures
        r@ == lower_seq(s@),
{
    let mut r: Vec<char> = Vec::new();
    let mut i: usize = 0;
    while i < s.len()
        invariant
            i <= s@.len(),
            r@ =~= lower_seq(s@.take(i as int)),
        decreases s@.len() - i,
    {
        let c = to_ascii_lower(s[i]);
        r.push(c);
        i = i + 1;
        proof {
            assert(lower_seq(s@.take(i as int)) =~= lower_seq(s@.take(i - 1)).push(ascii_lower(
                s@[i - 1],
            )));
        }
    }
    proof {
        assert(s@.take(i as int) =~= s@);
    }
    r
}

/// `s` begins with `prefix`.
pub open spec fn starts_with(s: Seq<char>, prefix: Seq<char>) -> bool {
    prefix.len() <= s.len() && s.take(prefix.len() as int) =~= prefix
}

/// `s` ends with `suffix`.
pub open spec fn ends_with(s: Seq<char>, suffix: Seq<char>) -> bool {
    suffix.len() <= s.len() && s.skip(s.len() - suffix.len()) =~= suffix
}

/// `needle` occurs in `s` at character index `i`.
pub open spec fn occurs_at(s: Seq<char>, needle: Seq<char>, i: int) -> bool {
    0 <= i && i + needle.len() <= s.len() && s.subrange(i, i + needle.len()) =~= needle
}

/// `needle` occurs somewhere in `s`.
pub open spec fn contains_seq(s: Seq<char>, needle: Seq<char>) -> bool {
    exists|i: int| occurs_at(s, needle, i)
}

/// Index of the first occurrence of `needle` in `s` at or after `from`.
pub open spec fn find_from(s: Seq<char>, needle: Seq<char>, from: int) -> Option<int>
    decreases s.len() - from,
{
    if from < 0 || from + needle.len() > s.len() {
        None
    } else if occurs_at(s, needle, from) {
        Some(from)
    } else {
        find_from(s, needle, from + 1)
    }
}

pub fn seq_eq(a: &[char], b: &[char]) -> (r: bool)
    ensures
        r == (a@ == b@),
{
    if a.len() != b.len() {
        return false;
    }
    let mut i: usize = 0;
    while i < a.len()
        invariant
            a@.len() == b@.len(),
            i <= a@.len(),
            forall|k: int| 0 <= k < i ==> a@[k] == b@[k],
        decreases a@.len() - i,
    {
        if a[i] != b[i] {
            return false;
        }
        i = i + 1;
    }
    proof {
        assert(a@ =~= b@);
    }
    true
}

/// Whether `needle` occurs in `s` at character index `at`.
pub fn matches_at(s: &[char], needle: &[char], at: usize) -> (r: bool)
    ensures
        r == occurs_at(s@, needle@, at as int),
{
    if at > s.len() || needle.len() > s.len() - at {
        return false;
    }
    let mut i: usize = 0;
    while i < needle.len()
        invariant
            at + needle@.len() <= s@.len(),
            s@.len() <= usize::MAX,
            i <= needle@.len(),
            forall|k: int| 0 <= k < i ==> s@[at + k] == needle@[k],
        decreases needle@.len() - i,
    {
        assert(at + i < s@.len());
        if s[at + i] != needle[i] {
            proof {
                assert(s@.subrange(at as int, at + needle@.len())[i as int] != needle@[i as int]);
            }
            return false;
        }
        i = i + 1;
    }
    proof {
        assert(s@.subrange(at as int, at + needle@.len()) =~= needle@);
    }
    true
}

pub fn seq_starts_with(s: &[char], prefix: &[char]) -> (r: bool)
    ensures
        r == starts_with(s@, prefix@),
{
    let r = matches_at(s, prefix, 0);
    proof {
        assert(s@.take(prefix@.len() as int) =~= s@.subrange(0, prefix@.len() as int));
    }
    r
}

pub fn seq_ends_with(s: &[char], suffix: &[char]) -> (r: bool)
    ensures
        r == ends_with(s@, suffix@),
{
    if suffix.len() > s.len() {
        return false;
    }
    let r = matches_at(s, suffix, s.len() - suffix.len());
    proof {
        assert(s@.skip(s@.len() - suffix@.len()) =~= s@.subrange(
            s@.len() - suffix@.len(),
            s@.len() as int,
        ));
    }
    r
}

/// Index of the first occurrence of `needle` in `s` at or after `from`.
pub fn find_seq_from(s: &[char], needle: &[char], from: usize) -> (r: Option<usize>)
    ensures
        r matches Some(i) ==> find_from(s@, needle@, from as int) == Some(i as int),
        r is None ==> find_from(s@, needle@, from as int) is None,
{
    let mut i = from;
    while i <= s.len() && needle.len() <= s.len() - i
        invariant
            from <= i,
            find_from(s@, needle@, from as int) == find_from(s@, needle@, i as int),
        decreases s@.len() + 1 - i,
    {
        if matches_at(s, needle, i) {
            return Some(i);
        }
        i = i + 1;
    }
    None
}

pub proof fn lemma_find_from_some(s: Seq<char>, needle: Seq<char>, from: int)
    requires
        find_from(s, needle, from) is Some,
    ensures
        occurs_at(s, needle, find_from(s, needle, from)->0),
        from <= find_from(s, needle, from)->0,
        forall|k: int| from <= k < find_from(s, needle, from)->0 ==> !occurs_at(s, needle, k),
    decreases s.len() - from,
{
    if !occurs_at(s, needle, from) {
        lemma_find_from_some(s, needle, from + 1);
    }
}

pub proof fn lemma_find_from_none(s: Seq<char>, needle: Seq<char>, from: int)
    requires
        find_from(s, needle, from) is None,
        from >= 0,
    ensures
        forall|k: int| from <= k ==> !occurs_at(s, needle, k),
    decreases s.len() - from,
{
    if from + needle.len() <= s.len() {
        lemma_find_from_none(s, needle, from + 1);
    }
}

/// `contains_seq`, decided.
pub fn seq_contains(s: &[char], needle: &[char]) -> (r: bool)
    ensures
        r == contains_seq(s@, needle@),
{
    let found = find_seq_from(s, needle, 0);
    proof {
        match found {
            Some(i) => {
                lemma_find_from_some(s@, needle@, 0);
            },
            None => {
                lemma_find_from_none(s@, needle@, 0);
            },
        }
    }
    found.is_some()
}

/// Whether the character `c` occurs in `s`.
pub fn contains_char(s: &[char], c: char) -> (r: bool)
    ensures
        r == s@.contains(c),
{
    let mut i: usize = 0;
    while i < s.len()
        invariant
            i <= s@.len(),
            forall|k: int| 0 <= k < i ==> s@[k] != c,
        decreases s@.len() - i,
    {
        if s[i] == c {
            return true;
        }
        i = i + 1;
    }
    false
}

/// Index just past the leading white space of `s`.
pub open spec fn trim_start_index(s: Seq<char>) -> int
    decreases s.len(),
{
    if s.len() == 0 {
        0
    } else if is_whitespace_spec(s[0]) {
        1 + trim_start_index(s.drop_first())
    } else {
        0
    }
}

/// Index of the end of `s` without its trailing white space.
pub open spec fn trim_end_index(s: Seq<char>) -> int
    decreases s.len(),
{
    if s.len() == 0 {
        0
    } else if is_whitespace_spec(s.last()) {
        trim_end_index(s.drop_last())
    } else {
        s.len() as int
    }
}

/// `str::trim_start`.
pub open spec fn trim_start(s: Seq<char>) -> Seq<char> {
    s.skip(trim_start_index(s))
}

/// `str::trim_end`.
pub open spec fn trim_end(s: Seq<char>) -> Seq<char> {
    s.take(trim_end_index(s))
}

/// `str::trim`.
pub open spec fn trim(s: Seq<char>) -> Seq<char> {
    trim_end(trim_start(s))
}

proof fn lemma_trim_start_index_bounds(s: Seq<char>)
    ensures
        0 <= trim_start_index(s) <= s.len(),
        forall|k: int| 0 <= k < trim_start_index(s) ==> is_whitespace_spec(#[trigger] s[k]),
        trim_start_index(s) < s.len() ==> !is_whitespace_spec(s[trim_start_index(s)]),
    decreases s.len(),
{
    if s.len() > 0 && is_whitespace_spec(s[0]) {
        lemma_trim_start_index_bounds(s.drop_first());
        assert forall|k: int| 0 <= k < trim_start_index(s) implies is_whitespace_spec(
            #[trigger] s[k],
        ) by {
            if k > 0 {
                assert(s[k] == s.drop_first()[k - 1]);
            }
        }
    }
}

proof fn lemma_trim_end_index_bounds(s: Seq<char>)
    ensures
        0 <= trim_end_index(s) <= s.len(),
        forall|k: int| trim_end_index(s) <= k < s.len() ==> is_whitespace_spec(#[trigger] s[k]),
        trim_end_index(s) > 0 ==> !is_whitespace_spec(s[trim_end_index(s) - 1]),
    decreases s.len(),
{
    if s.len() > 0 && is_whitespace_spec(s.last()) {
        lemma_trim_end_index_bounds(s.drop_last());
        assert forall|k: int| trim_end_index(s) <= k < s.len() implies is_whitespace_spec(
            #[trigger] s[k],
        ) by {
            if k < s.len() - 1 {
                assert(s[k] == s.drop_last()[k]);
            }
        }
    }
}

proof fn lemma_trim_start_index_char(s: Seq<char>, i: int)
    requires
        0 <= i <= s.len(),
        forall|k: int| 0 <= k < i ==> is_whitespace_spec(#[trigger] s[k]),
        i < s.len() ==> !is_whitespace_spec(s[i]),
    ensures
        trim_start_index(s) == i,
    decreases s.len(),
{
    if s.len() > 0 && i > 0 {
        assert(is_whitespace_spec(s[0]));
        assert forall|k: int| 0 <= k < i - 1 implies is_whitespace_spec(
            #[trigger] s.drop_first()[k],
        ) by {
            assert(s.drop_first()[k] == s[k + 1]);
        }
        lemma_trim_start_index_char(s.drop_first(), i - 1);
    }
}

proof fn lemma_trim_end_index_char(s: Seq<char>, j: int)
    requires
        0 <= j <= s.len(),
        forall|k: int| j <= k < s.len() ==> is_whitespace_spec(#[trigger] s[k]),
        j > 0 ==> !is_whitespace_spec(s[j - 1]),
    ensures
        trim_end_index(s) == j,
    decreases s.len(),
{
    if s.len() > 0 && j < s.len() {
        assert(is_whitespace_spec(s[s.len() - 1]));
        assert forall|k: int| j <= k < s.len() - 1 implies is_whitespace_spec(
            #[trigger] s.drop_last()[k],
        ) by {
            assert(s.drop_last()[k] == s[k]);
        }
        lemma_trim_end_index_char(s.drop_last(), j);
    }
}

/// The bounds `(start, end)` of `trim(s)` within `s`.
pub fn trim_bounds(s: &[char]) -> (r: (usize, usize))
    ensures
        r.0 <= r.1 <= s@.len(),
        r.0 == trim_start_index(s@),
        s@.subrange(r.0 as int, r.1 as int) =~= trim(s@),
{
    let mut start: usize = 0;
    while start < s.len() && is_whitespace(s[start])
        invariant
            start <= s@.len(),
            forall|k: int| 0 <= k < start ==> is_whitespace_spec(#[trigger] s@[k]),
        decreases s@.len() - start,
    {
        start = start + 1;
    }
    proof {
        lemma_trim_start_index_char(s@, start as int);
    }
    let mut end: usize = s.len();
    while end > start && is_whitespace(s[end - 1])
        invariant
            start <= end <= s@.len(),
            forall|k: int| end <= k < s@.len() ==> is_whitespace_spec(#[trigger] s@[k]),
        decreases end,
    {
        end = end - 1;
    }
    proof {
        let t = s@.skip(start as int);
        assert forall|k: int| end - start <= k < t.len() implies is_whitespace_spec(
            #[trigger] t[k],
        ) by {
            assert(t[k] == s@[k + start]);
        }
        if end > start {
            assert(t[end - start - 1] == s@[end - 1]);
        }
        lemma_trim_end_index_char(t, end - start);
        assert(trim(s@) =~= t.take(end - start));
    }
    (start, end)
}

/// `trim(s)` as a new vector.
pub fn trimmed(s: &[char]) -> (r: Vec<char>)
    ensures
        r@ == trim(s@),
{
    let (a, b) = trim_bounds(s);
    slice_to_vec(s, a, b)
}

/// The characters `s[from..to]`.
pub fn slice_to_vec(s: &[char], from: usize, to: usize) -> (r: Vec<char>)
    requires
        from <= to <= s@.len(),
    ensures
        r@ == s@.subrange(from as int, to as int),
{
    let mut r: Vec<char> = Vec::new();
    let mut i = from;
    while i < to
        invariant
            from <= i <= to <= s@.len(),
            r@ =~= s@.subrange(from as int, i as int),
        decreases to - i,
    {
        r.push(s[i]);
        i = i + 1;
    }
    r
}

/// Whether `s` holds only white space.
pub fn is_blank(s: &[char]) -> (r: bool)
    ensures
        r == (trim(s@).len() == 0),
{
    let (a, b) = trim_bounds(s);
    a == b
}

/// Concatenation of two character vectors.
pub fn concat(a: &[char], b: &[char]) -> (r: Vec<char>)
    ensures
        r@ == a@ + b@,
{
    let mut r = slice_to_vec(a, 0, a.len());
    let mut i: usize = 0;
    proof {
        assert(a@.subrange(0, a@.len() as int) =~= a@);
    }
    while i < b.len()
        invariant
            i <= b@.len(),
            r@ =~= a@ + b@.take(i as int),
        decreases b@.len() - i,
    {
        r.push(b[i]);
        i = i + 1;
    }
    proof {
        assert(b@.take(b@.len() as int) =~= b@);
    }
    r
}


/// First index at or after `from` holding `c`, or the length of `s` when there is none.
pub open spec fn next_char(s: Seq<char>, c: char, from: int) -> int
    decreases s.len() - from,
{
    if from >= s.len() {
        s.len() as int
    } else if from >= 0 && s[from] == c {
        from
    } else {
        next_char(s, c, from + 1)
    }
}

pub proof fn lemma_next_char(s: Seq<char>, c: char, from: int)
    requires
        0 <= from <= s.len(),
    ensures
        from <= next_char(s, c, from) <= s.len(),
        next_char(s, c, from) < s.len() ==> s[next_char(s, c, from)] == c,
        forall|k: int| from <= k < next_char(s, c, from) ==> s[k] != c,
    decreases s.len() - from,
{
    if from < s.len() && s[from] != c {
        lemma_next_char(s, c, from + 1);
    }
}

/// `next_char`, computed.
pub fn find_char_from(s: &[char], c: char, from: usize) -> (r: usize)
    requires
        from <= s@.len(),
    ensures
        r == next_char(s@, c, from as int),
        from <= r <= s@.len(),
{
    let mut i = from;
    while i < s.len() && s[i] != c
        invariant
            from <= i <= s@.len(),
            next_char(s@, c, from as int) == next_char(s@, c, i as int),
        decreases s@.len() - i,
    {
        i = i + 1;
    }
    proof {
        lemma_next_char(s@, c, i as int);
    }
    i
}

/// Pieces of `s[from..]` separated by `c` (`str::split` with a character).
pub open spec fn split_from(s: Seq<char>, c: char, from: int) -> Seq<Seq<char>>
    decreases s.len() + 1 - from,
{
    if from < 0 || from > s.len() {
        Seq::empty()
    } else {
        let k = next_char(s, c, from);
        proof {
            lemma_next_char(s, c, from);
        }
        if k < s.len() {
            seq![s.subrange(from, k)] + split_from(s, c, k + 1)
        } else {
            seq![s.subrange(from, s.len() as int)]
        }
    }
}

/// `str::split` with a character separator.
pub open spec fn split_char(s: Seq<char>, c: char) -> Seq<Seq<char>> {
    split_from(s, c, 0)
}

/// `str::split`, on characters.
pub fn split_on(s: &[char], c: char) -> (r: Vec<Vec<char>>)
    ensures
        r@.map_values(|x: Vec<char>| x@) == split_char(s@, c),
{
    let mut r: Vec<Vec<char>> = Vec::new();
    let mut from: usize = 0;
    loop
        invariant
            from <= s@.len(),
            split_char(s@, c) == r@.map_values(|x: Vec<char>| x@) + split_from(s@, c, from as int),
        decreases s@.len() - from,
    {
        let k = find_char_from(s, c, from);
        let piece = slice_to_vec(s, from, k);
        let ghost before = r@.map_values(|x: Vec<char>| x@);
        r.push(piece);
        proof {
            assert(r@.map_values(|x: Vec<char>| x@) =~= before.push(s@.subrange(from as int, k as int)));
        }
        if k == s.len() {
            proof {
                assert(split_char(s@, c) =~= r@.map_values(|x: Vec<char>| x@));
            }
            return r;
        }
        proof {
            assert(split_char(s@, c) =~= r@.map_values(|x: Vec<char>| x@) + split_from(s@, c, k + 1));
        }
        from = k + 1;
    }
}

/// Pieces of `s[from..]` each ending with a line feed, except possibly the last
/// (`str::split_inclusive('\n')`).
pub open spec fn split_lines_from(s: Seq<char>, from: int) -> Seq<Seq<char>>
    decreases s.len() - from,
{
    if from < 0 || from >= s.len() {
        Seq::empty()
    } else {
        let k = next_char(s, '\n', from);
        proof {
            lemma_next_char(s, '\n', from);
        }
        if k < s.len() {
            seq![s.subrange(from, k + 1)] + split_lines_from(s, k + 1)
        } else {
            seq![s.subrange(from, s.len() as int)]
        }
    }
}

/// `str::split_inclusive('\n')`.
pub open spec fn split_inclusive_lines(s: Seq<char>) -> Seq<Seq<char>> {
    split_lines_from(s, 0)
}

/// A line without its line ending, as `str::lines` yields it.
pub open spec fn strip_line_ending(line: Seq<char>) -> Seq<char> {
    if line.len() > 0 && line.last() == '\n' {
        let l = line.drop_last();
        if l.len() > 0 && l.last() == '\r' {
            l.drop_last()
        } else {
            l
        }
    } else {
        line
    }
}

/// `str::lines`.
pub open spec fn lines(s: Seq<char>) -> Seq<Seq<char>> {
    split_inclusive_lines(s).map_values(|l: Seq<char>| strip_line_ending(l))
}

/// Character ranges `(start, end)` of the pieces of `split_inclusive_lines`.
pub open spec fn line_ranges_from(s: Seq<char>, from: int) -> Seq<(int, int)>
    decreases s.len() - from,
{
    if from < 0 || from >= s.len() {
        Seq::empty()
    } else {
        let k = next_char(s, '\n', from);
        proof {
            lemma_next_char(s, '\n', from);
        }
        if k < s.len() {
            seq![(from, k + 1)] + line_ranges_from(s, k + 1)
        } else {
            seq![(from, s.len() as int)]
        }
    }
}

pub proof fn lemma_line_ranges(s: Seq<char>, from: int)
    requires
        0 <= from <= s.len(),
    ensures
        line_ranges_from(s, from).len() == split_lines_from(s, from).len(),
        forall|i: int|
            0 <= i < line_ranges_from(s, from).len() ==> {
                let r = #[trigger] line_ranges_from(s, from)[i];
                &&& from <= r.0 < r.1 <= s.len()
                &&& split_lines_from(s, from)[i] == s.subrange(r.0, r.1)
                &&& (i + 1 < line_ranges_from(s, from).len() ==> line_ranges_from(s, from)[i
                    + 1].0 == r.1)
            },
        line_ranges_from(s, from).len() > 0 ==> line_ranges_from(s, from)[0].0 == from,
        line_ranges_from(s, from).len() > 0 ==> line_ranges_from(s, from).last().1 == s.len(),
        line_ranges_from(s, from).len() == 0 ==> from == s.len(),
    decreases s.len() - from,
{
    if from < s.len() {
        lemma_next_char(s, '\n', from);
        let k = next_char(s, '\n', from);
        if k < s.len() {
            lemma_line_ranges(s, k + 1);
            let rest = line_ranges_from(s, k + 1);
            let rs = line_ranges_from(s, from);
            assert(rs == seq![(from, k + 1)] + rest);
            assert forall|i: int| 0 <= i < rs.len() implies {
                let r = #[trigger] rs[i];
                &&& from <= r.0 < r.1 <= s.len()
                &&& split_lines_from(s, from)[i] == s.subrange(r.0, r.1)
                &&& (i + 1 < rs.len() ==> rs[i + 1].0 == r.1)
            } by {
                if i > 0 {
                    assert(rs[i] == rest[i - 1]);
                    assert(split_lines_from(s, from)[i] == split_lines_from(s, k + 1)[i - 1]);
                }
            }
        }
    }
}

/// Character ranges of `split_inclusive_lines(s)`.
pub fn line_ranges(s: &[char]) -> (r: Vec<(usize, usize)>)
    ensures
        r@.len() == split_inclusive_lines(s@).len(),
        forall|i: int|
            0 <= i < r@.len() ==> #[trigger] r@[i].0 < r@[i].1 <= s@.len() && r@[i].0 == line_ranges_from(s@, 0)[i].0
                && r@[i].1 == line_ranges_from(s@, 0)[i].1
                && split_inclusive_lines(s@)[i] == s@.subrange(r@[i].0 as int, r@[i].1 as int),
{
    let mut r: Vec<(usize, usize)> = Vec::new();
    let mut from: usize = 0;
    proof {
        lemma_line_ranges(s@, 0);
    }
    while from < s.len()
        invariant
            from <= s@.len(),
            line_ranges_from(s@, 0) =~= r@.map_values(|p: (usize, usize)| (p.0 as int, p.1 as int)) + line_ranges_from(s@, from as int),
        decreases s@.len() - from,
    {
        let k = find_char_from(s, '\n', from);
        let end = if k < s.len() { k + 1 } else { s.len() };
        let ghost before = r@.map_values(|p: (usize, usize)| (p.0 as int, p.1 as int));
        r.push((from, end));
        proof {
            assert(r@.map_values(|p: (usize, usize)| (p.0 as int, p.1 as int)) =~= before.push((from as int, end as int)));
        }
        from = end;
    }
    proof {
        lemma_line_ranges(s@, 0);
        let m = r@.map_values(|p: (usize, usize)| (p.0 as int, p.1 as int));
        assert(line_ranges_from(s@, 0) =~= m);
        assert forall|i: int| 0 <= i < r@.len() implies #[trigger] r@[i].0 < r@[i].1 <= s@.len() && r@[i].0 == line_ranges_from(s@, 0)[i].0
                && r@[i].1 == line_ranges_from(s@, 0)[i].1
                && split_inclusive_lines(s@)[i] == s@.subrange(r@[i].0 as int, r@[i].1 as int) by {
            assert(m[i] == line_ranges_from(s@, 0)[i]);
        }
    }
    r
}

/// Value of an ASCII digit.
pub open spec fn digit_value(c: char) -> nat {
    if '0' <= c <= '9' {
        ((c as u32) - ('0' as u32)) as nat
    } else {
        0
    }
}

/// Decimal value of a sequence of ASCII digits.
pub open spec fn digits_value(d: Seq<char>) -> nat
    decreases d.len(),
{
    if d.len() == 0 {
        0
    } else {
        digits_value(d.drop_last()) * 10 + digit_value(d.last())
    }
}

pub open spec fn all_digits(d: Seq<char>) -> bool {
    forall|k: int| 0 <= k < d.len() ==> is_ascii_digit_spec(#[trigger] d[k])
}

/// `FromStr` for an unsigned integer type whose largest value is `max`: an
/// optional `+` and at least one ASCII digit, with a value of at most `max`.
pub open spec fn parse_unsigned(s: Seq<char>, max: nat) -> Option<nat> {
    let d = if s.len() > 0 && s[0] == '+' { s.drop_first() } else { s };
    if d.len() > 0 && all_digits(d) && digits_value(d) <= max {
        Some(digits_value(d))
    } else {
        None
    }
}

/// Parses an unsigned decimal number bounded by `max`, as `FromStr` does for
/// the unsigned integer type whose largest value is `max`.
pub fn parse_unsigned_bounded(s: &[char], max: u64) -> (r: Option<u64>)
    ensures
        r matches Some(v) ==> parse_unsigned(s@, max as nat) == Some(v as nat),
        r is None ==> parse_unsigned(s@, max as nat) is None,
{
    let start: usize = if s.len() > 0 && s[0] == '+' { 1 } else { 0 };
    let ghost d = if s@.len() > 0 && s@[0] == '+' { s@.drop_first() } else { s@ };
    proof {
        assert(d =~= s@.skip(start as int));
    }
    if start == s.len() {
        return None;
    }
    let mut value: u64 = 0;
    let mut i = start;
    while i < s.len()
        invariant
            start <= i <= s@.len(),
            d =~= s@.skip(start as int),
            d == (if s@.len() > 0 && s@[0] == '+' { s@.drop_first() } else { s@ }),
            value as nat == digits_value(d.take(i - start)),
            all_digits(d.take(i - start)),
            value <= max,
        decreases s@.len() - i,
    {
        let c = s[i];
        if !('0' <= c && c <= '9') {
            proof {
                assert(d[i - start] == c);
                assert(!is_ascii_digit_spec(d[i - start]));
                assert(!all_digits(d));
            }
            return None;
        }
        let digit = (c as u32 - '0' as u32) as u64;
        proof {
            assert(d.take(i + 1 - start).drop_last() =~= d.take(i - start));
            assert(d.take(i + 1 - start).last() == c);
        }
        if digit > max || value > (max - digit) / 10 {
            proof {
                assert(digits_value(d.take(i + 1 - start)) > max) by (nonlinear_arith)
                    requires
                        digits_value(d.take(i + 1 - start)) == value * 10 + digit,
                        digit > max || value > (max - digit) / 10,
                        digit <= 9,
                ;
                lemma_digits_value_prefix_mono(d, i + 1 - start);
            }
            return None;
        }
        proof {
            assert(value * 10 + digit <= max) by (nonlinear_arith)
                requires
                    value <= (max - digit) / 10,
                    digit <= max,
            ;
        }
        value = value * 10 + digit;
        i = i + 1;
        proof {
            assert forall|k: int| 0 <= k < d.take(i - start).len() implies is_ascii_digit_spec(#[trigger] d.take(i - start)[k]) by {
                if k < i - 1 - start {
                    assert(d.take(i - start)[k] == d.take(i - 1 - start)[k]);
                }
            }
        }
    }
    proof {
        assert(d.take(i - start) =~= d);
    }
    Some(value)
}

proof fn lemma_digits_value_prefix_mono(d: Seq<char>, k: int)
    requires
        0 <= k <= d.len(),
    ensures
        digits_value(d.take(k)) <= digits_value(d),
    decreases d.len() - k,
{
    if k == d.len() {
        assert(d.take(k) =~= d);
    }
    if k < d.len() {
        lemma_digits_value_prefix_mono(d, k + 1);
        assert(d.take(k + 1).drop_last() =~= d.take(k));
        assert(digits_value(d.take(k)) <= digits_value(d.take(k + 1))) by (nonlinear_arith)
            requires
                digits_value(d.take(k + 1)) == digits_value(d.take(k)) * 10 + digit_value(d.take(k + 1).last()),
        ;
    }
}


/// The ASCII digit for `d < 10`.
pub open spec fn digit_char(d: nat) -> char {
    ((d + 48) as u32) as char
}

/// The decimal digits of `n`, without leading zeros (`0` for zero).
pub open spec fn decimal(n: nat) -> Seq<char>
    decreases n,
{
    if n < 10 {
        seq![digit_char(n)]
    } else {
        decimal(n / 10).push(digit_char(n % 10))
    }
}

fn digit(d: u64) -> (c: char)
    requires
        d < 10,
    ensures
        c == digit_char(d as nat),
{
    let v: u32 = 48 + d as u32;
    proof {
        assert(48 <= v <= 57);
    }
    char_from_ascii_code(v)
}

/// `n` written in decimal.
pub fn format_decimal(n: u64) -> (r: Vec<char>)
    ensures
        r@ == decimal(n as nat),
    decreases n,
{
    if n < 10 {
        let mut r: Vec<char> = Vec::new();
        r.push(digit(n));
        proof {
            assert(r@ =~= seq![digit_char(n as nat)]);
        }
        r
    } else {
        let mut r = format_decimal(n / 10);
        r.push(digit(n % 10));
        r
    }
}

/// Whether the UTF-8 encoding of `s` takes at most `limit` bytes.
pub fn byte_len_at_most(s: &[char], limit: usize) -> (r: bool)
    ensures
        r == (byte_len(s@) <= limit),
{
    let mut total: usize = 0;
    let mut i: usize = 0;
    proof {
        assert(s@.take(0) =~= Seq::<char>::empty());
    }
    while i < s.len()
        invariant
            i <= s@.len(),
            total == byte_offset(s@, i as int),
            total <= limit,
        decreases s@.len() - i,
    {
        proof {
            lemma_byte_offset_step(s@, i as int);
        }
        let w = char_width(s[i]);
        if w > limit - total {
            proof {
                lemma_byte_offset_mono(s@, i + 1, s@.len() as int);
                lemma_byte_offset_full(s@);
            }
            return false;
        }
        total = total + w;
        i = i + 1;
    }
    proof {
        lemma_byte_offset_full(s@);
    }
    true
}

/// Whether some character of `s` is a control character.
pub fn has_control(s: &[char]) -> (r: bool)
    ensures
        r == exists|k: int| 0 <= k < s@.len() && is_control_spec(#[trigger] s@[k]),
{
    let mut i: usize = 0;
    while i < s.len()
        invariant
            i <= s@.len(),
            forall|k: int| 0 <= k < i ==> !is_control_spec(#[trigger] s@[k]),
        decreases s@.len() - i,
    {
        if is_control(s[i]) {
            return true;
        }
        i = i + 1;
    }
    false
}

/// ASCII white space, as `u8::is_ascii_whitespace` and `char::is_ascii_whitespace` define it.
pub open spec fn is_ascii_ws(c: char) -> bool {
    c == ' ' || c == '\t' || c == '\n' || c == '\x0C' || c == '\r'
}

/// End of the run of non-white-space characters starting at `i`.
pub open spec fn token_end(s: Seq<char>, i: int) -> int
    decreases s.len() - i,
{
    if i < 0 || i >= s.len() || is_ascii_ws(s[i]) {
        i
    } else {
        token_end(s, i + 1)
    }
}

pub proof fn lemma_token_end(s: Seq<char>, i: int)
    requires
        0 <= i <= s.len(),
    ensures
        i <= token_end(s, i) <= s.len(),
        forall|k: int| i <= k < token_end(s, i) ==> !is_ascii_ws(#[trigger] s[k]),
    decreases s.len() - i,
{
    if i < s.len() && !is_ascii_ws(s[i]) {
        lemma_token_end(s, i + 1);
    }
}

/// The words of `s[i..]` separated by ASCII white space (`split_ascii_whitespace`).
pub open spec fn ws_tokens_from(s: Seq<char>, i: int) -> Seq<Seq<char>>
    decreases s.len() - i, 1int,
{
    if i < 0 || i >= s.len() {
        Seq::empty()
    } else if is_ascii_ws(s[i]) {
        ws_tokens_from(s, i + 1)
    } else {
        let e = token_end(s, i);
        proof {
            lemma_token_end(s, i);
        }
        if e <= i {
            Seq::empty()
        } else {
            seq![s.subrange(i, e)] + ws_tokens_from(s, e)
        }
    }
}

/// The words of `s` separated by ASCII white space (`split_ascii_whitespace`).
pub open spec fn ws_tokens(s: Seq<char>) -> Seq<Seq<char>> {
    ws_tokens_from(s, 0)
}

pub fn is_ascii_whitespace(c: char) -> (r: bool)
    ensures
        r == is_ascii_ws(c),
{
    c == ' ' || c == '\t' || c == '\n' || c == '\x0C' || c == '\r'
}

/// The words of `s` separated by ASCII white space.
pub fn split_ascii_whitespace(s: &[char]) -> (r: Vec<Vec<char>>)
    ensures
        r@.map_values(|x: Vec<char>| x@) == ws_tokens(s@),
{
    let mut r: Vec<Vec<char>> = Vec::new();
    let mut i: usize = 0;
    while i < s.len()
        invariant
            i <= s@.len(),
            ws_tokens(s@) == r@.map_values(|x: Vec<char>| x@) + ws_tokens_from(s@, i as int),
        decreases s@.len() - i,
    {
        if is_ascii_whitespace(s[i]) {
            i = i + 1;
        } else {
            let mut e = i;
            while e < s.len() && !is_ascii_whitespace(s[e])
                invariant
                    i <= e <= s@.len(),
                    token_end(s@, i as int) == token_end(s@, e as int),
                decreases s@.len() - e,
            {
                e = e + 1;
            }
            proof {
                lemma_token_end(s@, i as int);
            }
            let word = slice_to_vec(s, i, e);
            let ghost before = r@.map_values(|x: Vec<char>| x@);
            r.push(word);
            proof {
                assert(r@.map_values(|x: Vec<char>| x@) =~= before.push(s@.subrange(i as int, e as int)));
                assert(ws_tokens(s@) =~= r@.map_values(|x: Vec<char>| x@) + ws_tokens_from(s@, e as int));
            }
            i = e;
        }
    }
    proof {
        assert(ws_tokens(s@) =~= r@.map_values(|x: Vec<char>| x@));
    }
    r
}

/// Whether `s` begins with the characters of `prefix`.
pub fn starts_with_str(s: &[char], prefix: &str) -> (r: bool)
    ensures
        r == starts_with(s@, prefix@),
{
    let p = chars_of(prefix);
    seq_starts_with(s, &p)
}

/// A line without its line ending.
pub fn strip_line(s: &[char], from: usize, to: usize) -> (r: Vec<char>)
    requires
        from <= to <= s@.len(),
    ensures
        r@ == strip_line_ending(s@.subrange(from as int, to as int)),
{
    let ghost l = s@.subrange(from as int, to as int);
    let mut end = to;
    if end > from && s[end - 1] == '\n' {
        end = end - 1;
        if end > from && s[end - 1] == '\r' {
            end = end - 1;
        }
    }
    let r = slice_to_vec(s, from, end);
    proof {
        if l.len() > 0 && l.last() == '\n' {
            assert(l.drop_last() =~= s@.subrange(from as int, to - 1));
            if l.drop_last().len() > 0 && l.drop_last().last() == '\r' {
                assert(l.drop_last().drop_last() =~= s@.subrange(from as int, to - 2));
            }
        }
    }
    r
}

/// The lines of `s`, as `str::lines` yields them.
pub fn text_lines(s: &[char]) -> (r: Vec<Vec<char>>)
    ensures
        r@.map_values(|x: Vec<char>| x@) == lines(s@),
{
    let ranges = line_ranges(s);
    let mut r: Vec<Vec<char>> = Vec::new();
    let mut k: usize = 0;
    while k < ranges.len()
        invariant
            k <= ranges@.len(),
            ranges@.len() == split_inclusive_lines(s@).len(),
            forall|i: int|
                0 <= i < ranges@.len() ==> #[trigger] ranges@[i].0 < ranges@[i].1 <= s@.len()
                    && split_inclusive_lines(s@)[i] == s@.subrange(ranges@[i].0 as int, ranges@[i].1 as int),
            r@.map_values(|x: Vec<char>| x@) =~= lines(s@).take(k as int),
        decreases ranges@.len() - k,
    {
        let (from, to) = ranges[k];
        let line = strip_line(s, from, to);
        let ghost before = r@.map_values(|x: Vec<char>| x@);
        r.push(line);
        proof {
            assert(r@.map_values(|x: Vec<char>| x@) =~= before.push(line@));
            assert(lines(s@).take(k + 1) =~= lines(s@).take(k as int).push(lines(s@)[k as int]));
        }
        k = k + 1;
    }
    proof {
        assert(lines(s@).take(k as int) =~= lines(s@));
    }
    r
}

/// A decimal `i64`, as `FromStr` parses it: an optional sign, then digits.
pub open spec fn parse_i64(s: Seq<char>) -> Option<int> {
    if s.len() > 0 && s[0] == '-' {
        let d = s.drop_first();
        if d.len() > 0 && all_digits(d) && digits_value(d) <= 0x8000_0000_0000_0000 {
            Some(-(digits_value(d) as int))
        } else {
            None
        }
    } else {
        match parse_unsigned(s, 0x7fff_ffff_ffff_ffff) {
            Some(v) => Some(v as int),
            None => None,
        }
    }
}

/// Parses a decimal `i64`.
pub fn parse_i64_chars(s: &[char]) -> (r: Option<i64>)
    ensures
        match r {
            Some(v) => parse_i64(s@) == Some(v as int),
            None => parse_i64(s@) is None,
        },
{
    if s.len() > 0 && s[0] == '-' {
        let d = slice_to_vec(s, 1, s.len());
        proof {
            assert(d@ =~= s@.drop_first());
        }
        if d.len() > 0 && d[0] == '+' {
            proof {
                assert(!is_ascii_digit_spec(d@[0]));
                assert(!all_digits(d@));
            }
            return None;
        }
        match parse_unsigned_bounded(&d, 0x8000_0000_0000_0000u64) {
            Some(v) => {
                if v == 0x8000_0000_0000_0000u64 {
                    Some(i64::MIN)
                } else {
                    let n = v as i64;
                    Some(-n)
                }
            },
            None => None,
        }
    } else {
        match parse_unsigned_bounded(s, 0x7fff_ffff_ffff_ffffu64) {
            Some(v) => Some(v as i64),
            None => None,
        }
    }
}

/// The UTF-8 length of `s` in bytes, or `cap` when that is smaller.
pub fn byte_len_capped(s: &[char], cap: usize) -> (r: usize)
    requires
        cap > 0,
    ensures
        r == if byte_len(s@) < cap { byte_len(s@) } else { cap as nat },
{
    let mut total: usize = 0;
    let mut i: usize = 0;
    proof {
        assert(s@.take(0) =~= Seq::<char>::empty());
    }
    while i < s.len()
        invariant
            i <= s@.len(),
            total == byte_offset(s@, i as int),
            total < cap,
        decreases s@.len() - i,
    {
        proof {
            lemma_byte_offset_step(s@, i as int);
        }
        let w = char_width(s[i]);
        if w >= cap - total {
            proof {
                lemma_byte_offset_mono(s@, i + 1, s@.len() as int);
                lemma_byte_offset_full(s@);
            }
            return cap;
        }
        total = total + w;
        i = i + 1;
    }
    proof {
        lemma_byte_offset_full(s@);
    }
    total
}
} // verus!
