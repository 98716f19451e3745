use syntaxis::lsp::{
    body_length, content_length, header_step, lsp_frame, server_message, validate_json_rpc,
    HeaderStep, MAX_HEADER_BYTES, MAX_LSP_MESSAGE_BYTES,
};

#[test]
fn json_rpc_validation_rejects_non_objects() {
    validate_json_rpc(r#"{"jsonrpc":"2.0","method":"initialized"}"#).unwrap();
    assert!(validate_json_rpc("[]").is_err());
    assert!(validate_json_rpc("not json").is_err());
}

#[test]
fn validation_errors_say_what_was_wrong() {
    assert_eq!(validate_json_rpc("[]").unwrap_err(), "Language-server messages must be JSON objects");
    assert_eq!(validate_json_rpc("{").unwrap_err(), "Invalid language-server JSON");
}

#[test]
fn frames_carry_the_byte_length_header() {
    let message = r#"{"jsonrpc":"2.0","id":1,"method":"é"}"#;
    let framed = lsp_frame(message).unwrap();
    let expected = format!("Content-Length: {}\r\n\r\n{}", message.len(), message);
    assert_eq!(framed, expected.into_bytes());
    assert!(lsp_frame("").is_err());
    assert!(lsp_frame("[1]").is_err());
    let oversized = format!("{{\"a\":\"{}\"}}", "x".repeat(MAX_LSP_MESSAGE_BYTES));
    assert_eq!(
        lsp_frame(&oversized).unwrap_err(),
        "Language-client message exceeded the safety limit"
    );
}

#[test]
fn content_length_lines_are_read_like_usize() {
    assert_eq!(content_length("Content-Length: 42\r\n"), Some(42));
    assert_eq!(content_length("Content-Length:+7"), Some(7));
    assert_eq!(content_length("Content-Length: x"), None);
    assert_eq!(content_length("content-length: 42"), None);
    assert_eq!(content_length("Content-Type: text"), None);
}

#[test]
fn header_blocks_end_at_a_blank_line_within_the_limit() {
    let step = header_step(0, 20, "Content-Length: 42\r\n", None).unwrap();
    assert_eq!(
        step,
        HeaderStep::Continue {
            header_bytes: 20,
            content_length: Some(42)
        }
    );
    let step = header_step(20, 10, "X-Other: 1\r\n", Some(42)).unwrap();
    assert_eq!(
        step,
        HeaderStep::Continue {
            header_bytes: 30,
            content_length: Some(42)
        }
    );
    assert_eq!(
        header_step(30, 2, "\r\n", Some(42)).unwrap(),
        HeaderStep::End {
            content_length: Some(42)
        }
    );
    assert!(header_step(MAX_HEADER_BYTES, 1, "\n", None).is_err());
    assert_eq!(body_length(Some(42)), Ok(42));
    assert!(body_length(None).is_err());
    assert!(body_length(Some(0)).is_err());
    assert!(body_length(Some(MAX_LSP_MESSAGE_BYTES + 1)).is_err());
}

#[test]
fn server_messages_must_be_json_object_text() {
    assert_eq!(server_message(br#"{"id":1}"#), Ok(r#"{"id":1}"#.to_string()));
    assert!(server_message(&[0xff]).is_err());
    assert!(server_message(b"1").is_err());
}

#[test]
fn framed_messages_read_back_unchanged() {
    let message = r#"{"jsonrpc":"2.0","id":1,"result":"héllo"}"#;
    let frame = lsp_frame(message).unwrap();
    let text = String::from_utf8(frame.clone()).unwrap();
    let mut rest = text.as_str();
    let mut header_bytes = 0;
    let mut length = None;
    loop {
        let end = rest.find('\n').unwrap() + 1;
        let line = &rest[..end];
        rest = &rest[end..];
        match header_step(header_bytes, line.len(), line, length).unwrap() {
            HeaderStep::Continue { header_bytes: total, content_length } => {
                header_bytes = total;
                length = content_length;
            }
            HeaderStep::End { content_length } => {
                length = content_length;
                break;
            }
        }
    }
    let n = body_length(length).unwrap();
    assert_eq!(n, message.len());
    assert_eq!(server_message(rest.as_bytes()).unwrap(), message);
}
