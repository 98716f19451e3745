//! The messages exchanged with a language server over its standard streams:
//! JSON-RPC objects framed by a `Content-Length` header, with limits on the
//! header and on the message.
use vstd::prelude::*;
use vstd::utf8::{decode_utf8, encode_utf8, valid_utf8};
use crate::bytes::utf8_text;
use crate::text::{all_digits, chars_of, decimal, digit_char, digit_value, digits_value, format_decimal, is_ascii_digit_spec,
    is_whitespace_spec, parse_unsigned, parse_unsigned_bounded, push_str, slice_to_vec, string_from_chars, trim,
    trim_end_index, trim_start, trim_start_index, trimmed};

verus! {

/// Largest message accepted in either direction, in bytes.
pub const MAX_LSP_MESSAGE_BYTES: usize = 1048576;

/// Largest header block accepted from a server, in bytes.
pub const MAX_HEADER_BYTES: usize = 8192;

/// What `serde_json::from_str` makes of a text: nothing when it is not
/// JSON, else whether the value is an object.
pub uninterp spec fn json_text_kind(text: Seq<char>) -> Option<bool>;

/// Parses `text` with `serde_json::from_str` into a `serde_json::Value`
/// and tells whether it is JSON, and if so whether it is an object.
#[verifier::external_body]
fn parse_json_kind(text: &str) -> (r: Option<bool>)
    ensures
        r == json_text_kind(text@),
{
    match serde_json::from_str::<serde_json::Value>(text) {
        Ok(serde_json::Value::Object(_)) => Some(true),
        Ok(_) => Some(false),
        Err(_) => None,
    }
}

pub open spec fn invalid_json_message() -> Seq<char> {
    "Invalid language-server JSON"@
}

pub open spec fn not_object_message() -> Seq<char> {
    "Language-server messages must be JSON objects"@
}

/// A JSON-RPC message must be a JSON object.
pub fn validate_json_rpc(message: &str) -> (r: Result<(), String>)
    ensures
        r is Ok <==> json_text_kind(message@) == Some(true),
        json_text_kind(message@) is None ==> (r matches Err(e) && e@ == invalid_json_message()),
        json_text_kind(message@) == Some(false) ==> (r matches Err(e) && e@ == not_object_message()),
{
    match parse_json_kind(message) {
        Some(true) => Ok(()),
        Some(false) => Err("Language-server messages must be JSON objects".to_owned()),
        None => Err("Invalid language-server JSON".to_owned()),
    }
}

/// The header that announces a message of `length` bytes.
pub open spec fn frame_header(length: nat) -> Seq<char> {
    "Content-Length: "@ + decimal(length) + "\r\n\r\n"@
}

pub open spec fn client_limit_message() -> Seq<char> {
    "Language-client message exceeded the safety limit"@
}

/// The bytes sent for a message: the header with the message's length in
/// bytes, then the message. Empty and oversized messages are refused first,
/// then messages that are not JSON objects.
pub fn lsp_frame(message: &str) -> (r: Result<Vec<u8>, String>)
    ensures
        ({
            let n = encode_utf8(message@).len();
            &&& (n == 0 || n > MAX_LSP_MESSAGE_BYTES) ==> (r matches Err(e) && e@ == client_limit_message())
            &&& !(n == 0 || n > MAX_LSP_MESSAGE_BYTES) && json_text_kind(message@) is None ==> (r matches Err(e)
                && e@ == invalid_json_message())
            &&& !(n == 0 || n > MAX_LSP_MESSAGE_BYTES) && json_text_kind(message@) == Some(false) ==> (r matches Err(e)
                && e@ == not_object_message())
            &&& r is Ok <==> !(n == 0 || n > MAX_LSP_MESSAGE_BYTES) && json_text_kind(message@) == Some(true)
            &&& r matches Ok(bytes) ==> bytes@ == encode_utf8(frame_header(n)) + encode_utf8(message@)
        }),
{
    let body = message.as_bytes();
    let n = body.len();
    proof {
        assert(body@ == encode_utf8(message@));
    }
    if n == 0 || n > MAX_LSP_MESSAGE_BYTES {
        return Err("Language-client message exceeded the safety limit".to_owned());
    }
    match validate_json_rpc(message) {
        Ok(()) => {},
        Err(e) => {
            return Err(e);
        },
    }
    let mut header = "Content-Length: ".to_owned();
    let digits = string_from_chars(&format_decimal(n as u64));
    push_str(&mut header, digits.as_str());
    push_str(&mut header, "\r\n\r\n");
    let head = header.as_str().as_bytes();
    let mut out: Vec<u8> = Vec::new();
    let mut i: usize = 0;
    while i < head.len()
        invariant
            i <= head@.len(),
            out@ == head@.take(i as int),
        decreases head@.len() - i,
    {
        out.push(head[i]);
        i = i + 1;
        proof {
            assert(head@.take(i as int) =~= head@.take(i - 1).push(head@[i - 1]));
        }
    }
    let mut j: usize = 0;
    proof {
        assert(head@.take(head@.len() as int) =~= head@);
    }
    while j < body.len()
        invariant
            j <= body@.len(),
            out@ == head@ + body@.take(j as int),
        decreases body@.len() - j,
    {
        out.push(body[j]);
        j = j + 1;
        proof {
            assert(body@.take(j as int) =~= body@.take(j - 1).push(body@[j - 1]));
        }
    }
    proof {
        assert(body@.take(body@.len() as int) =~= body@);
        assert(header@ == frame_header(n as nat));
    }
    Ok(out)
}

/// The length a header line announces: the text after `Content-Length:`,
/// trimmed, read as a `usize`.
pub open spec fn content_length_spec(line: Seq<char>) -> Option<nat> {
    let prefix = "Content-Length:"@;
    if line.len() >= prefix.len() && line.take(prefix.len() as int) == prefix {
        parse_unsigned(trim(line.skip(prefix.len() as int)), usize::MAX as nat)
    } else {
        None
    }
}

pub fn content_length(line: &str) -> (r: Option<usize>)
    ensures
        match content_length_spec(line@) {
            Some(n) => r == Some(n as usize),
            None => r is None,
        },
{
    let chars = chars_of(line);
    let prefix = chars_of("Content-Length:");
    if !crate::text::seq_starts_with(&chars, &prefix) {
        return None;
    }
    let rest = slice_to_vec(&chars, prefix.len(), chars.len());
    proof {
        assert(chars@.subrange(prefix@.len() as int, chars@.len() as int) =~= chars@.skip(prefix@.len() as int));
    }
    let value = trimmed(&rest);
    match parse_unsigned_bounded(&value, usize::MAX as u64) {
        Some(v) => Some(v as usize),
        None => None,
    }
}

/// Where reading a server's header block stands after one more line.
#[derive(Debug, PartialEq, Eq)]
pub enum HeaderStep {
    /// More header lines follow: the bytes read so far and the length
    /// announced so far.
    Continue { header_bytes: usize, content_length: Option<usize> },
    /// The blank line ended the block; the length announced, if any.
    End { content_length: Option<usize> },
}

pub open spec fn header_limit_message() -> Seq<char> {
    "Language-server headers exceeded the safety limit"@
}

/// Takes in one header line of `read` bytes. The block may hold at most
/// `MAX_HEADER_BYTES` bytes; a blank line ends it; a `Content-Length` line
/// sets the length, and other lines are passed over.
pub fn header_step(header_bytes: usize, read: usize, line: &str, content_length: Option<usize>) -> (r: Result<
    HeaderStep,
    String,
>)
    ensures
        header_bytes + read > MAX_HEADER_BYTES ==> (r matches Err(e) && e@ == header_limit_message()),
        header_bytes + read <= MAX_HEADER_BYTES && (line@ == "\r\n"@ || line@ == "\n"@) ==> r == Ok::<HeaderStep, String>(
            HeaderStep::End { content_length },
        ),
        header_bytes + read <= MAX_HEADER_BYTES && !(line@ == "\r\n"@ || line@ == "\n"@) ==> (r matches Ok(
            HeaderStep::Continue { header_bytes: total, content_length: length },
        ) && total == header_bytes + read && length == match content_length_spec(line@) {
            Some(n) => Some(n as usize),
            None => content_length,
        }),
{
    if read > MAX_HEADER_BYTES || header_bytes > MAX_HEADER_BYTES - read {
        return Err("Language-server headers exceeded the safety limit".to_owned());
    }
    let total = header_bytes + read;
    let chars = chars_of(line);
    if crate::text::seq_eq(&chars, &chars_of("\r\n")) || crate::text::seq_eq(&chars, &chars_of("\n")) {
        return Ok(HeaderStep::End { content_length });
    }
    let length = match self::content_length(line) {
        Some(n) => Some(n),
        None => content_length,
    };
    Ok(HeaderStep::Continue { header_bytes: total, content_length: length })
}

pub open spec fn missing_length_message() -> Seq<char> {
    "Language server omitted Content-Length"@
}

pub open spec fn server_limit_message() -> Seq<char> {
    "Language-server message exceeded the safety limit"@
}

/// The body length a finished header block announces: it must announce
/// one, neither empty nor over `MAX_LSP_MESSAGE_BYTES`.
pub fn body_length(content_length: Option<usize>) -> (r: Result<usize, String>)
    ensures
        content_length is None ==> (r matches Err(e) && e@ == missing_length_message()),
        content_length matches Some(n) ==> (n == 0 || n > MAX_LSP_MESSAGE_BYTES ==> (r matches Err(e) && e@
            == server_limit_message())),
        content_length matches Some(n) ==> (!(n == 0 || n > MAX_LSP_MESSAGE_BYTES) ==> r == Ok::<usize, String>(n)),
{
    match content_length {
        None => Err("Language server omitted Content-Length".to_owned()),
        Some(n) => if n == 0 || n > MAX_LSP_MESSAGE_BYTES {
            Err("Language-server message exceeded the safety limit".to_owned())
        } else {
            Ok(n)
        },
    }
}

/// A received body: UTF-8 text that is a JSON object.
pub fn server_message(body: &[u8]) -> (r: Result<String, String>)
    ensures
        !valid_utf8(body@) ==> (r matches Err(e) && e@ == "Language server returned invalid UTF-8"@),
        valid_utf8(body@) && json_text_kind(decode_utf8(body@)) is None ==> (r matches Err(e) && e@
            == invalid_json_message()),
        valid_utf8(body@) && json_text_kind(decode_utf8(body@)) == Some(false) ==> (r matches Err(e) && e@
            == not_object_message()),
        valid_utf8(body@) && json_text_kind(decode_utf8(body@)) == Some(true) ==> (r matches Ok(t) && t@ == decode_utf8(
            body@,
        )),
{
    let text = match utf8_text(body) {
        Some(t) => t,
        None => {
            return Err("Language server returned invalid UTF-8".to_owned());
        },
    };
    match validate_json_rpc(text.as_str()) {
        Ok(()) => Ok(text),
        Err(e) => Err(e),
    }
}

pub(crate) proof fn lemma_decimal_reads_back(n: nat)
    ensures
        decimal(n).len() > 0,
        all_digits(decimal(n)),
        digits_value(decimal(n)) == n,
        forall|k: int| 0 <= k < decimal(n).len() ==> (#[trigger] decimal(n)[k] as u32) < 0x80,
    decreases n,
{
    if n >= 10 {
        lemma_decimal_reads_back(n / 10);
        let d = decimal(n);
        assert(d.drop_last() =~= decimal(n / 10));
        assert(d.last() == digit_char(n % 10));
        assert(digit_value(digit_char(n % 10)) == n % 10);
        assert(n == (n / 10) * 10 + n % 10) by (nonlinear_arith);
        assert(digits_value(d) == digits_value(decimal(n / 10)) * 10 + digit_value(digit_char(n % 10)));
        assert forall|k: int| 0 <= k < d.len() implies is_ascii_digit_spec(#[trigger] d[k]) by {
            if k < d.len() - 1 {
                assert(d[k] == decimal(n / 10)[k]);
            }
        }
        assert forall|k: int| 0 <= k < d.len() implies (#[trigger] d[k] as u32) < 0x80 by {
            if k < d.len() - 1 {
                assert(d[k] == decimal(n / 10)[k]);
            }
        }
    } else {
        let d = decimal(n);
        assert(d.drop_last() =~= Seq::<char>::empty());
        assert(digit_value(digit_char(n)) == n);
        assert(digits_value(d) == digits_value(d.drop_last()) * 10 + digit_value(d.last()));
    }
}

pub open spec fn ten_to(k: nat) -> nat
    decreases k,
{
    if k == 0 {
        1
    } else {
        10 * ten_to((k - 1) as nat)
    }
}

proof fn lemma_decimal_short(n: nat, k: nat)
    requires
        k >= 1,
        n < ten_to(k),
    ensures
        decimal(n).len() <= k,
    decreases k,
{
    if n >= 10 {
        let p = ten_to((k - 1) as nat);
        if k == 1 {
            assert(ten_to(1) == 10 * ten_to(0));
        }
        assert(n / 10 < p) by (nonlinear_arith)
            requires
                n < 10 * p,
        ;
        lemma_decimal_short(n / 10, (k - 1) as nat);
    }
}

proof fn lemma_ascii_encoding_len(s: Seq<char>)
    requires
        forall|k: int| 0 <= k < s.len() ==> (#[trigger] s[k] as u32) < 0x80,
    ensures
        encode_utf8(s).len() == s.len(),
    decreases s.len(),
{
    if s.len() > 0 {
        assert forall|k: int| 0 <= k < s.drop_first().len() implies (#[trigger] s.drop_first()[k] as u32) < 0x80 by {
            assert(s.drop_first()[k] == s[k + 1]);
        }
        lemma_ascii_encoding_len(s.drop_first());
    }
}

/// The first line of the header a message of `length` bytes is sent with.
pub open spec fn length_line(length: nat) -> Seq<char> {
    "Content-Length: "@ + decimal(length) + "\r\n"@
}

/// A message `lsp_frame` accepts reads back unchanged: its header is the
/// `Content-Length` line announcing its byte length, within the header
/// limit, then a blank line; that length passes the body limits; and the
/// body is valid UTF-8 that decodes to the message, a JSON object.
pub proof fn framed_messages_read_back(message: Seq<char>)
    requires
        0 < encode_utf8(message).len() <= MAX_LSP_MESSAGE_BYTES,
        json_text_kind(message) == Some(true),
    ensures
        ({
            let n = encode_utf8(message).len();
            &&& frame_header(n) == length_line(n) + "\r\n"@
            &&& content_length_spec(length_line(n)) == Some(n)
            &&& encode_utf8(length_line(n)).len() + encode_utf8("\r\n"@).len() <= MAX_HEADER_BYTES
            &&& length_line(n) != "\r\n"@ && length_line(n) != "\n"@
            &&& valid_utf8(encode_utf8(message))
            &&& decode_utf8(encode_utf8(message)) == message
            &&& json_text_kind(decode_utf8(encode_utf8(message))) == Some(true)
        }),
{
    let n = encode_utf8(message).len();
    vstd::utf8::encode_utf8_valid_utf8(message);
    vstd::utf8::encode_utf8_decode_utf8(message);
    reveal_strlit("Content-Length: ");
    reveal_strlit("Content-Length:");
    reveal_strlit("\r\n");
    reveal_strlit("\r\n\r\n");
    reveal_strlit("\n");
    lemma_decimal_reads_back(n);
    assert(ten_to(7) == 10000000) by {
        reveal_with_fuel(ten_to, 8);
    }
    lemma_decimal_short(n, 7);
    let d = decimal(n);
    let line = length_line(n);
    assert(frame_header(n) =~= line + "\r\n"@);
    let prefix = "Content-Length:"@;
    assert(line.take(prefix.len() as int) =~= prefix);
    let rest = line.skip(prefix.len() as int);
    assert(rest =~= seq![' '] + d + seq!['\r', '\n']);
    assert(!is_whitespace_spec(d[0]));
    assert(!is_whitespace_spec(d.last()));
    assert(rest.drop_first() =~= d + seq!['\r', '\n']);
    assert(trim_start_index(d + seq!['\r', '\n']) == 0);
    assert(trim_start_index(rest) == 1);
    let started = trim_start(rest);
    assert(started =~= d + seq!['\r', '\n']);
    assert(started.drop_last() =~= d + seq!['\r']);
    assert((d + seq!['\r']).drop_last() =~= d);
    assert(trim_end_index(d) == d.len());
    assert(trim_end_index(d + seq!['\r']) == d.len());
    assert(trim_end_index(started) == d.len());
    assert(trim(rest) =~= d);
    assert(d[0] != '+');
    assert forall|k: int| 0 <= k < line.len() implies (#[trigger] line[k] as u32) < 0x80 by {
        if 16 <= k < 16 + d.len() {
            assert(line[k] == d[k - 16]);
        }
    }
    lemma_ascii_encoding_len(line);
    lemma_ascii_encoding_len("\r\n"@);
}

} // verus!
