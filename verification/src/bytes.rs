//! Byte strings as Git prints them: splitting on separators, comparing with
//! ASCII words, and decoding UTF-8.
use vstd::prelude::*;
use vstd::utf8::{decode_utf8, encode_utf8, valid_utf8};

verus! {

/// ASCII codes of the characters Git's machine-readable output uses.
pub const BANG: u8 = 33;
pub const DIGIT_ONE: u8 = 49;
pub const DIGIT_TWO: u8 = 50;
pub const DOT: u8 = 46;
pub const NUL: u8 = 0;
pub const TAB: u8 = 9;
pub const NEWLINE: u8 = 10;
pub const FORM_FEED: u8 = 12;
pub const CARRIAGE_RETURN: u8 = 13;
pub const UNIT_SEPARATOR: u8 = 31;
pub const HASH: u8 = 35;
pub const LOWER_U: u8 = 117;
pub const QUESTION: u8 = 63;
pub const SPACE: u8 = 32;
pub const UPPER_A: u8 = 65;
pub const UPPER_C: u8 = 67;
pub const UPPER_D: u8 = 68;
pub const UPPER_M: u8 = 77;
pub const UPPER_R: u8 = 82;
pub const UPPER_T: u8 = 84;
pub const UPPER_U: u8 = 85;

/// First index at or after `from` holding `b`, or the length of `s`.
pub open spec fn next_byte<T>(s: Seq<T>, b: T, from: int) -> int
    decreases s.len() - from,
{
    if from < 0 || from >= s.len() {
        s.len() as int
    } else if s[from] == b {
        from
    } else {
        next_byte(s, b, from + 1)
    }
}

pub proof fn lemma_next_byte<T>(s: Seq<T>, b: T, from: int)
    requires
        0 <= from <= s.len(),
    ensures
        from <= next_byte(s, b, from) <= s.len(),
        next_byte(s, b, from) < s.len() ==> s[next_byte(s, b, from)] == b,
        forall|k: int| from <= k < next_byte(s, b, from) ==> s[k] != b,
    decreases s.len() - from,
{
    if from < s.len() && s[from] != b {
        lemma_next_byte(s, b, from + 1);
    }
}

/// First index at or after `from` holding `b`, or the length of `s`.
pub fn find_byte_from(s: &[u8], b: u8, from: usize) -> (r: usize)
    requires
        from <= s@.len(),
    ensures
        r == next_byte(s@, b, from as int),
        from <= r <= s@.len(),
{
    let mut i = from;
    while i < s.len() && s[i] != b
        invariant
            from <= i <= s@.len(),
            next_byte(s@, b, from as int) == next_byte(s@, b, i as int),
        decreases s@.len() - i,
    {
        i = i + 1;
    }
    i
}

/// The pieces of `s[from..]` between occurrences of `b` (`split`).
pub open spec fn split_bytes_from<T>(s: Seq<T>, b: T, from: int) -> Seq<Seq<T>>
    decreases s.len() + 1 - from,
{
    if from < 0 || from > s.len() {
        Seq::empty()
    } else {
        let k = next_byte(s, b, from);
        proof {
            lemma_next_byte(s, b, from);
        }
        if k < s.len() {
            seq![s.subrange(from, k)] + split_bytes_from(s, b, k + 1)
        } else {
            seq![s.subrange(from, s.len() as int)]
        }
    }
}

/// The pieces of `s` between occurrences of `b` (`split`).
pub open spec fn split_bytes<T>(s: Seq<T>, b: T) -> Seq<Seq<T>> {
    split_bytes_from(s, b, 0)
}

/// At most `n` pieces of `s[from..]`, the last holding the rest (`splitn`).
pub open spec fn splitn_bytes_from<T>(s: Seq<T>, b: T, from: int, n: int) -> Seq<Seq<T>>
    decreases s.len() + 1 - from,
{
    if from < 0 || from > s.len() || n <= 0 {
        Seq::empty()
    } else if n == 1 {
        seq![s.subrange(from, s.len() as int)]
    } else {
        let k = next_byte(s, b, from);
        proof {
            lemma_next_byte(s, b, from);
        }
        if k < s.len() {
            seq![s.subrange(from, k)] + splitn_bytes_from(s, b, k + 1, n - 1)
        } else {
            seq![s.subrange(from, s.len() as int)]
        }
    }
}

/// At most `n` pieces of `s` split at `b` (`splitn`).
pub open spec fn splitn_bytes<T>(s: Seq<T>, b: T, n: int) -> Seq<Seq<T>> {
    splitn_bytes_from(s, b, 0, n)
}

pub open spec fn views(v: Seq<Vec<u8>>) -> Seq<Seq<u8>> {
    v.map_values(|x: Vec<u8>| x@)
}

/// The bytes `s[from..to]`.
pub fn byte_range(s: &[u8], from: usize, to: usize) -> (r: Vec<u8>)
    requires
        from <= to <= s@.len(),
    ensures
        r@ == s@.subrange(from as int, to as int),
{
    let mut r: Vec<u8> = Vec::new();
    let mut i = from;
    while i < to
        invariant
            from <= i <= to <= s@.len(),
            r@ =~= s@.subrange(from as int, i as int),
        decreases to - i,
    {
        r.push(s[i]);
        i = i + 1;
    }
    r
}

/// `s` split at every `b`.
pub fn split_on_byte(s: &[u8], b: u8) -> (r: Vec<Vec<u8>>)
    ensures
        views(r@) == split_bytes(s@, b),
{
    splitn_on_byte_from(s, b, 0, 0)
}

/// `s[from..]` split at every `b` (when `n` is 0) or into at most `n` pieces.
fn splitn_on_byte_from(s: &[u8], b: u8, from: usize, n: usize) -> (r: Vec<Vec<u8>>)
    requires
        from <= s@.len(),
    ensures
        n == 0 ==> views(r@) == split_bytes_from(s@, b, from as int),
        n > 0 ==> views(r@) == splitn_bytes_from(s@, b, from as int, n as int),
{
    let mut r: Vec<Vec<u8>> = Vec::new();
    let mut start: usize = from;
    let mut left: usize = n;
    loop
        invariant
            from <= start <= s@.len(),
            n == 0 ==> left == 0,
            n > 0 ==> left > 0,
            n == 0 ==> split_bytes_from(s@, b, from as int) == views(r@) + split_bytes_from(
                s@,
                b,
                start as int,
            ),
            n > 0 ==> splitn_bytes_from(s@, b, from as int, n as int) == views(r@)
                + splitn_bytes_from(s@, b, start as int, left as int),
        decreases s@.len() - start,
    {
        let k = if left == 1 {
            s.len()
        } else {
            find_byte_from(s, b, start)
        };
        proof {
            lemma_next_byte(s@, b, start as int);
        }
        let piece = byte_range(s, start, k);
        let ghost before = views(r@);
        r.push(piece);
        proof {
            assert(views(r@) =~= before.push(s@.subrange(start as int, k as int)));
        }
        if k == s.len() {
            proof {
                if n == 0 {
                    assert(split_bytes_from(s@, b, from as int) =~= views(r@));
                } else {
                    assert(splitn_bytes_from(s@, b, from as int, n as int) =~= views(r@));
                }
            }
            return r;
        }
        proof {
            if n == 0 {
                assert(split_bytes_from(s@, b, from as int) =~= views(r@) + split_bytes_from(
                    s@,
                    b,
                    k + 1,
                ));
            } else {
                assert(splitn_bytes_from(s@, b, from as int, n as int) =~= views(r@)
                    + splitn_bytes_from(s@, b, k + 1, left - 1));
            }
        }
        start = k + 1;
        if left > 0 {
            left = left - 1;
        }
    }
}

/// `s` split at `b` into at most `n` pieces.
pub fn splitn_on_byte(s: &[u8], b: u8, n: usize) -> (r: Vec<Vec<u8>>)
    requires
        n > 0,
    ensures
        views(r@) == splitn_bytes(s@, b, n as int),
{
    splitn_on_byte_from(s, b, 0, n)
}

/// Whether `a` and `b` hold the same bytes.
pub fn bytes_eq(a: &[u8], b: &[u8]) -> (r: bool)
    ensures
        r == (a@ == b@),
{
    if a.len() != b.len() {
        return false;
    }
    let mut i: usize = 0;
    while i < a.len()
        invariant
            a@.len() == b@.len(),
            i <= a@.len(),
            forall|k: int| 0 <= k < i ==> a@[k] == b@[k],
        decreases a@.len() - i,
    {
        if a[i] != b[i] {
            return false;
        }
        i = i + 1;
    }
    proof {
        assert(a@ =~= b@);
    }
    true
}

pub open spec fn bytes_start_with(s: Seq<u8>, prefix: Seq<u8>) -> bool {
    prefix.len() <= s.len() && s.take(prefix.len() as int) == prefix
}

/// Whether `s` begins with `prefix`.
pub fn bytes_starts_with(s: &[u8], prefix: &[u8]) -> (r: bool)
    ensures
        r == bytes_start_with(s@, prefix@),
{
    if prefix.len() > s.len() {
        return false;
    }
    let mut i: usize = 0;
    while i < prefix.len()
        invariant
            prefix@.len() <= s@.len(),
            i <= prefix@.len(),
            forall|k: int| 0 <= k < i ==> s@[k] == prefix@[k],
        decreases prefix@.len() - i,
    {
        if s[i] != prefix[i] {
            return false;
        }
        i = i + 1;
    }
    proof {
        assert(s@.take(prefix@.len() as int) =~= prefix@);
    }
    true
}

/// Whether `s` is the UTF-8 encoding of `word`.
pub fn is_word(s: &[u8], word: &str) -> (r: bool)
    ensures
        r == (s@ == encode_utf8(word@)),
{
    bytes_eq(s, word.as_bytes())
}

/// Whether `s` begins with the UTF-8 encoding of `word`.
pub fn starts_with_word(s: &[u8], word: &str) -> (r: bool)
    ensures
        r == bytes_start_with(s@, encode_utf8(word@)),
{
    bytes_starts_with(s, word.as_bytes())
}

/// Decodes `bytes` as UTF-8 (`std::str::from_utf8`): the text when the
/// bytes are valid UTF-8, else nothing.
#[verifier::external_body]
pub(crate) fn utf8_text(bytes: &[u8]) -> (r: Option<String>)
    ensures
        r is Some <==> valid_utf8(bytes@),
        r matches Some(text) ==> text@ == decode_utf8(bytes@),
{
    match std::str::from_utf8(bytes) {
        Ok(text) => Some(text.to_owned()),
        Err(_) => None,
    }
}


/// First index at or after `from` holding `c`, or the length of `s`.
fn find_char_index(s: &[char], c: char, from: usize) -> (r: usize)
    requires
        from <= s@.len(),
    ensures
        r == next_byte(s@, c, from as int),
        from <= r <= s@.len(),
{
    let mut i = from;
    while i < s.len() && s[i] != c
        invariant
            from <= i <= s@.len(),
            next_byte(s@, c, from as int) == next_byte(s@, c, i as int),
        decreases s@.len() - i,
    {
        i = i + 1;
    }
    i
}

/// `s` split at `c` into at most `n` pieces (`str::splitn`).
pub fn splitn_on_char(s: &[char], c: char, n: usize) -> (r: Vec<Vec<char>>)
    requires
        n > 0,
    ensures
        r@.map_values(|x: Vec<char>| x@) == splitn_bytes(s@, c, n as int),
{
    let mut r: Vec<Vec<char>> = Vec::new();
    let mut start: usize = 0;
    let mut left: usize = n;
    loop
        invariant
            start <= s@.len(),
            left > 0,
            splitn_bytes(s@, c, n as int) == r@.map_values(|x: Vec<char>| x@) + splitn_bytes_from(
                s@,
                c,
                start as int,
                left as int,
            ),
        decreases s@.len() - start,
    {
        let k = if left == 1 {
            s.len()
        } else {
            find_char_index(s, c, start)
        };
        proof {
            lemma_next_byte(s@, c, start as int);
        }
        let piece = crate::text::slice_to_vec(s, start, k);
        let ghost before = r@.map_values(|x: Vec<char>| x@);
        r.push(piece);
        proof {
            assert(r@.map_values(|x: Vec<char>| x@) =~= before.push(s@.subrange(start as int, k as int)));
        }
        if k == s.len() {
            proof {
                assert(splitn_bytes(s@, c, n as int) =~= r@.map_values(|x: Vec<char>| x@));
            }
            return r;
        }
        proof {
            assert(splitn_bytes(s@, c, n as int) =~= r@.map_values(|x: Vec<char>| x@) + splitn_bytes_from(
                s@,
                c,
                k + 1,
                left - 1,
            ));
        }
        start = k + 1;
        left = left - 1;
    }
}

/// Number of `b`s in `s[from..]`.
pub open spec fn count_from(s: Seq<u8>, b: u8, from: int) -> nat
    decreases s.len() - from,
{
    if from < 0 || from >= s.len() {
        0
    } else {
        count_from(s, b, from + 1) + if s[from] == b {
            1nat
        } else {
            0nat
        }
    }
}

/// Splitting at `b` gives one piece more than there are `b`s.
pub proof fn lemma_split_count(s: Seq<u8>, b: u8, from: int)
    requires
        0 <= from <= s.len(),
    ensures
        split_bytes_from(s, b, from).len() == count_from(s, b, from) + 1,
    decreases s.len() - from,
{
    lemma_next_byte(s, b, from);
    let k = next_byte(s, b, from);
    lemma_count_skip(s, b, from, k);
    if k < s.len() {
        lemma_split_count(s, b, k + 1);
    }
}

/// No `b` lies in `s[from..k]`, so counting from `from` counts from `k`.
proof fn lemma_count_skip(s: Seq<u8>, b: u8, from: int, k: int)
    requires
        0 <= from <= k <= s.len(),
        forall|j: int| from <= j < k ==> s[j] != b,
    ensures
        count_from(s, b, from) == count_from(s, b, k),
    decreases k - from,
{
    if from < k {
        lemma_count_skip(s, b, from + 1, k);
    }
}
} // verus!
