//! Handing a session's exported HTML to the client: which files the host
//! reads back, how large they may be, and the message that carries them.
use vstd::prelude::*;
use base64::Engine;
use crate::agent::{AgentError, AgentErrorCode};
use crate::agent_state::{event_view, EventView, ServerMessage};
use crate::text::{chars_of, lower_seq, seq_starts_with, slice_to_vec, to_ascii_lowercase};

verus! {

/// Largest export the host reads back, in bytes.
pub const MAX_EXPORT_BYTES: u64 = 8388608;

/// Name under which the client saves the export.
pub open spec fn export_download_name() -> Seq<char> {
    "pi-session.html"@
}

/// The character of a six-bit value in the standard base64 alphabet.
pub open spec fn base64_digit(n: int) -> char {
    if n < 26 {
        (65 + n) as char
    } else if n < 52 {
        (71 + n) as char
    } else if n < 62 {
        (n - 4) as char
    } else if n == 62 {
        '+'
    } else {
        '/'
    }
}

/// The standard base64 text of `bytes`: each group of three bytes becomes
/// four characters, and a last group of one or two bytes is padded with `=`.
pub open spec fn standard_base64(bytes: Seq<u8>) -> Seq<char>
    decreases bytes.len(),
{
    let b0 = if bytes.len() > 0 { bytes[0] as int } else { 0 };
    let b1 = if bytes.len() > 1 { bytes[1] as int } else { 0 };
    let b2 = if bytes.len() > 2 { bytes[2] as int } else { 0 };
    if bytes.len() == 0 {
        Seq::empty()
    } else if bytes.len() == 1 {
        seq![base64_digit(b0 / 4), base64_digit((b0 % 4) * 16), '=', '=']
    } else if bytes.len() == 2 {
        seq![base64_digit(b0 / 4), base64_digit((b0 % 4) * 16 + b1 / 16), base64_digit((b1 % 16) * 4), '=']
    } else {
        seq![
            base64_digit(b0 / 4),
            base64_digit((b0 % 4) * 16 + b1 / 16),
            base64_digit((b1 % 16) * 4 + b2 / 64),
            base64_digit(b2 % 64),
        ] + standard_base64(bytes.skip(3))
    }
}

/// `base64::engine::general_purpose::STANDARD.encode`: the padded base64
/// text of `bytes` in the standard alphabet, as `standard_base64` spells it.
#[verifier::external_body]
fn encode_base64(bytes: &[u8]) -> (r: String)
    ensures
        r@ == standard_base64(bytes@),
{
    base64::engine::general_purpose::STANDARD.encode(bytes)
}

/// Index of the last `.` in `s`, or -1.
pub open spec fn last_dot(s: Seq<char>) -> int
    decreases s.len(),
{
    if s.len() == 0 {
        -1
    } else if s.last() == '.' {
        s.len() - 1
    } else {
        last_dot(s.drop_last())
    }
}

pub proof fn lemma_last_dot(s: Seq<char>)
    ensures
        -1 <= last_dot(s) < s.len(),
        last_dot(s) >= 0 ==> s[last_dot(s)] == '.',
        forall|k: int| last_dot(s) < k < s.len() ==> s[k] != '.',
    decreases s.len(),
{
    if s.len() > 0 && s.last() != '.' {
        lemma_last_dot(s.drop_last());
        assert forall|k: int| last_dot(s) < k < s.len() implies s[k] != '.' by {
            if k < s.len() - 1 {
                assert(s.drop_last()[k] == s[k]);
            }
        }
    }
}

/// Whether a file in the temporary directory is one of the host's exports:
/// its name starts `syntaxis-session-` and its extension is `html` in any
/// ASCII case.
pub open spec fn export_name_accepted(name: Seq<char>) -> bool {
    let k = last_dot(name);
    &&& name.len() >= "syntaxis-session-"@.len()
    &&& name.take("syntaxis-session-"@.len() as int) == "syntaxis-session-"@
    &&& k > 0
    &&& lower_seq(name.skip(k + 1)) == "html"@
}

/// Whether `name` is the name of one of the host's exports.
pub fn is_export_name(name: &str) -> (r: bool)
    ensures
        r == export_name_accepted(name@),
{
    let chars = chars_of(name);
    let prefix = chars_of("syntaxis-session-");
    if !seq_starts_with(&chars, &prefix) {
        return false;
    }
    let mut k: usize = chars.len();
    while k > 0 && chars[k - 1] != '.'
        invariant
            k <= chars@.len(),
            forall|j: int| k <= j < chars@.len() ==> chars@[j] != '.',
        decreases k,
    {
        k = k - 1;
    }
    proof {
        lemma_last_dot(chars@);
        assert(last_dot(chars@) == k - 1) by {
            if last_dot(chars@) != k - 1 {
                if k > 0 {
                    assert(chars@[k - 1] == '.');
                }
            }
        }
    }
    if k < 2 {
        return false;
    }
    let extension = to_ascii_lowercase(&slice_to_vec(&chars, k, chars.len()));
    let html = chars_of("html");
    proof {
        assert(chars@.subrange(k as int, chars@.len() as int) =~= chars@.skip(k as int));
    }
    let same = extension.len() == html.len() && seq_starts_with(&extension, &html);
    proof {
        if extension@.len() == html@.len() && extension@.take(html@.len() as int) == html@ {
            assert(extension@ =~= html@);
        }
        if extension@ == html@ {
            assert(extension@.take(html@.len() as int) =~= html@);
        }
    }
    same
}

/// Whether an export of `size` bytes is small enough to hand over.
pub open spec fn export_size_accepted(size: u64) -> bool {
    size <= MAX_EXPORT_BYTES
}

pub fn is_export_size(size: u64) -> (r: bool)
    ensures
        r == export_size_accepted(size),
{
    size <= MAX_EXPORT_BYTES
}

/// What the client gets for an export: the file's contents in base64, or
/// the reason it gets none.
pub open spec fn export_outcome(contents: Option<Seq<u8>>) -> EventView {
    match contents {
        Some(bytes) => EventView::ExportReady(export_download_name(), standard_base64(bytes)),
        None => EventView::Error(
            AgentErrorCode::Unavailable,
            "The exported session could not be downloaded or exceeded 8 MiB"@,
        ),
    }
}

/// The message for an export that was read back, or could not be.
pub fn export_message(contents: Option<Vec<u8>>) -> (r: ServerMessage)
    ensures
        event_view(r) == export_outcome(match contents {
            Some(c) => Some(c@),
            None => None,
        }),
{
    match contents {
        Some(bytes) => ServerMessage::ExportReady {
            filename: "pi-session.html".to_owned(),
            data_base64: encode_base64(bytes.as_slice()),
        },
        None => ServerMessage::Error {
            error: AgentError::new(
                AgentErrorCode::Unavailable,
                "The exported session could not be downloaded or exceeded 8 MiB",
            ),
        },
    }
}

} // verus!
