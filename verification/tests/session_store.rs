use syntaxis::json::JsonValue;
use syntaxis::session_store::{explicit_title, first_user_message, read_session_header, record_lines, session_title};

fn text(value: &str) -> JsonValue {
    JsonValue::String(value.to_owned())
}

fn object(fields: Vec<(&str, JsonValue)>) -> JsonValue {
    JsonValue::Object(fields.into_iter().map(|(key, value)| (key.to_owned(), value)).collect())
}

fn user(content: JsonValue) -> Option<JsonValue> {
    Some(object(vec![
        ("type", text("message")),
        ("message", object(vec![("role", text("user")), ("content", content)])),
    ]))
}

fn info(name: &str) -> Option<JsonValue> {
    Some(object(vec![("type", text("session_info")), ("name", text(name))]))
}

#[test]
fn reads_pi_session_identity_and_title() {
    let header = object(vec![("type", text("session")), ("id", text("session-1")), ("cwd", text("/work/project"))]);
    assert_eq!(read_session_header(&header), Some(("session-1".to_owned(), "/work/project".to_owned())));
    let mut head = vec![Some(header), user(text("Inspect the project"))];
    assert_eq!(session_title(&Vec::new(), &head), "Inspect the project");
    head.push(info("Project review"));
    assert_eq!(session_title(&Vec::new(), &head), "Project review");
    assert_eq!(session_title(&vec![info("Later name")], &head), "Later name");
    assert_eq!(session_title(&Vec::new(), &Vec::new()), "New chat");
}

#[test]
fn the_last_named_info_record_wins() {
    let records = vec![info("First"), None, info("  "), info("Second"), info("   ")];
    assert_eq!(explicit_title(&records), Some("Second".to_owned()));
    assert_eq!(explicit_title(&vec![None]), None);
}

#[test]
fn first_user_message_joins_text_parts() {
    let parts = JsonValue::Array(vec![
        object(vec![("type", text("image")), ("data", text("AAAA"))]),
        object(vec![("type", text("text")), ("text", text("Look  at"))]),
        object(vec![("type", text("text")), ("text", text("this"))]),
    ]);
    let records = vec![user(text("   ")), user(parts)];
    assert_eq!(first_user_message(&records), Some("Look at this".to_owned()));
}

#[test]
fn headers_need_a_session_id_and_directory() {
    let missing = object(vec![("type", text("session")), ("id", text("s"))]);
    assert_eq!(read_session_header(&missing), None);
    let wrong = object(vec![("type", text("message")), ("id", text("s")), ("cwd", text("/w"))]);
    assert_eq!(read_session_header(&wrong), None);
    assert_eq!(record_lines("a\r\nb\n"), vec!["a".to_owned(), "b".to_owned()]);
}
