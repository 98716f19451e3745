//! Reading the sessions Pi stored for a workspace: which lines of a session
//! file name it, and the title the session list shows for it.
use vstd::prelude::*;
use crate::agent_mapping::is_text_of;
use crate::agent_workspace::{cut_with_ellipsis, non_empty, normalized_words, preview, MAX_PREVIEW_CHARS};
use crate::json::{json_view, json_views, lemma_json_views, member, text_member, Json, JsonValue};
use crate::text::{lines, string_from_chars, text_lines, chars_of};

verus! {

/// The lines of a session file's text, as `str::lines` yields them; each
/// is one JSON record.
pub fn record_lines(content: &str) -> (r: Vec<String>)
    ensures
        r@.map_values(|s: String| s@) == lines(content@),
{
    let parts = text_lines(&chars_of(content));
    let mut out: Vec<String> = Vec::new();
    let mut k: usize = 0;
    while k < parts.len()
        invariant
            k <= parts@.len(),
            out@.len() == k,
            forall|i: int| 0 <= i < k ==> #[trigger] out@[i]@ == parts@[i]@,
        decreases parts@.len() - k,
    {
        out.push(string_from_chars(&parts[k]));
        k = k + 1;
    }
    proof {
        assert(out@.map_values(|s: String| s@) =~= parts@.map_values(|x: Vec<char>| x@));
    }
    out
}

/// A member's text with its words on one line, when it has any.
pub open spec fn named_text(value: Json, key: Seq<char>) -> Option<Seq<char>> {
    match text_member(value, key) {
        Some(t) => if normalized_words(t).len() > 0 {
            Some(normalized_words(t))
        } else {
            None
        },
        None => None,
    }
}

fn string_member(value: &JsonValue, key: &str) -> (r: Option<String>)
    ensures
        match r {
            Some(t) => named_text(json_view(*value), key@) == Some(t@),
            None => named_text(json_view(*value), key@) is None,
        },
{
    match value.get(key) {
        Some(JsonValue::String(t)) => non_empty(t.as_str()),
        _ => None,
    }
}

pub open spec fn record_views(records: Seq<Option<JsonValue>>) -> Seq<Option<Json>> {
    records.map_values(|r: Option<JsonValue>| match r {
        Some(v) => Some(json_view(v)),
        None => None,
    })
}

/// The name a `session_info` record gives, if any.
pub open spec fn info_name(record: Option<Json>) -> Option<Seq<char>> {
    match record {
        Some(r) => if text_member(r, "type"@) == Some("session_info"@) {
            named_text(r, "name"@)
        } else {
            None
        },
        None => None,
    }
}

/// The last name a `session_info` record gives among `records`.
pub open spec fn last_info_name(records: Seq<Option<Json>>) -> Option<Seq<char>>
    decreases records.len(),
{
    if records.len() == 0 {
        None
    } else {
        match info_name(records.last()) {
            Some(n) => Some(n),
            None => last_info_name(records.drop_last()),
        }
    }
}

/// The session's explicit title: the name of its last `session_info`
/// record that has one (`explicit_title`).
pub fn explicit_title(records: &Vec<Option<JsonValue>>) -> (r: Option<String>)
    ensures
        match r {
            Some(t) => last_info_name(record_views(records@)) == Some(t@),
            None => last_info_name(record_views(records@)) is None,
        },
{
    let ghost rv = record_views(records@);
    let mut k: usize = records.len();
    proof {
        assert(rv.take(records@.len() as int) =~= rv);
    }
    while k > 0
        invariant
            k <= records@.len(),
            rv == record_views(records@),
            last_info_name(rv) == last_info_name(rv.take(k as int)),
        decreases k,
    {
        proof {
            assert(rv.take(k as int).drop_last() =~= rv.take(k - 1));
            assert(rv.take(k as int).last() == rv[k - 1]);
        }
        match &records[k - 1] {
            Some(record) => {
                if is_text_of(record, "type", "session_info") {
                    match string_member(record, "name") {
                        Some(name) => {
                            return Some(name);
                        },
                        None => {},
                    }
                }
            },
            None => {},
        }
        k = k - 1;
    }
    proof {
        assert(rv.take(0) =~= Seq::<Option<Json>>::empty());
    }
    None
}

/// The texts of the `text` parts of a message's content, in order.
pub open spec fn text_part_texts(parts: Seq<Json>) -> Seq<Seq<char>>
    decreases parts.len(),
{
    if parts.len() == 0 {
        Seq::empty()
    } else {
        let rest = text_part_texts(parts.drop_last());
        let part = parts.last();
        if text_member(part, "type"@) == Some("text"@) {
            match text_member(part, "text"@) {
                Some(t) => rest.push(t),
                None => rest,
            }
        } else {
            rest
        }
    }
}

/// `parts` joined by single spaces.
pub open spec fn space_joined(parts: Seq<Seq<char>>) -> Seq<char>
    decreases parts.len(),
{
    if parts.len() == 0 {
        Seq::empty()
    } else if parts.len() == 1 {
        parts[0]
    } else {
        space_joined(parts.drop_last()) + " "@ + parts.last()
    }
}

/// The text of a stored message's content, with its words on one line,
/// when it has any (`message_text`).
pub open spec fn content_text(content: Json) -> Option<Seq<char>> {
    let text = match content {
        Json::Str(t) => Some(t),
        Json::Array(parts) => Some(space_joined(text_part_texts(parts))),
        _ => None,
    };
    match text {
        Some(t) => if normalized_words(t).len() > 0 {
            Some(normalized_words(t))
        } else {
            None
        },
        None => None,
    }
}

fn content_text_of(content: &JsonValue) -> (r: Option<String>)
    ensures
        match r {
            Some(t) => content_text(json_view(*content)) == Some(t@),
            None => content_text(json_view(*content)) is None,
        },
{
    match content {
        JsonValue::String(t) => non_empty(t.as_str()),
        JsonValue::Array(parts) => {
            proof {
                lemma_json_views(parts@);
            }
            let ghost views = json_views(parts@);
            let mut joined: Vec<char> = Vec::new();
            let mut count: usize = 0;
            let mut k: usize = 0;
            proof {
                assert(views.take(0) =~= Seq::<Json>::empty());
            }
            while k < parts.len()
                invariant
                    k <= parts@.len(),
                    views == json_views(parts@),
                    views.len() == parts@.len(),
                    forall|i: int| 0 <= i < parts@.len() ==> #[trigger] views[i] == json_view(parts@[i]),
                    count == text_part_texts(views.take(k as int)).len(),
                    count <= k,
                    joined@ == space_joined(text_part_texts(views.take(k as int))),
                decreases parts@.len() - k,
            {
                proof {
                    assert(views.take(k + 1).drop_last() =~= views.take(k as int));
                    assert(views.take(k + 1).last() == views[k as int]);
                }
                if is_text_of(&parts[k], "type", "text") {
                    match parts[k].get("text") {
                        Some(JsonValue::String(t)) => {
                            let ghost before = text_part_texts(views.take(k as int));
                            let ghost joined_before = joined@;
                            if count > 0 {
                                joined.push(' ');
                            }
                            let piece = chars_of(t.as_str());
                            joined = crate::text::concat(&joined, &piece);
                            proof {
                                let after = before.push(t@);
                                assert(text_member(views[k as int], "text"@) == Some(t@));
                                assert(text_part_texts(views.take(k + 1)) == after);
                                assert(after.drop_last() =~= before);
                                assert(after.last() == t@);
                                if count == 0 {
                                    assert(before.len() == 0);
                                    assert(joined_before == Seq::<char>::empty());
                                    assert(joined@ =~= t@);
                                    assert(space_joined(after) == after[0]);
                                } else {
                                    assert(joined@ =~= joined_before + " "@ + t@) by {
                                        reveal_strlit(" ");
                                    }
                                }
                            }
                            count = count + 1;
                        },
                        _ => {},
                    }
                }
                k = k + 1;
            }
            proof {
                assert(views.take(parts@.len() as int) =~= views);
            }
            let text = string_from_chars(&joined);
            non_empty(text.as_str())
        },
        _ => None,
    }
}

/// The text of a user message record, when it is one and has text.
pub open spec fn user_text(record: Option<Json>) -> Option<Seq<char>> {
    match record {
        Some(r) => if text_member(r, "type"@) != Some("message"@) {
            None
        } else {
            match member(r, "message"@) {
                Some(message) => if text_member(message, "role"@) != Some("user"@) {
                    None
                } else {
                    match member(message, "content"@) {
                        Some(content) => content_text(content),
                        None => None,
                    }
                },
                None => None,
            }
        },
        None => None,
    }
}

/// The text of the first user message among `records` that has text.
pub open spec fn first_user_text(records: Seq<Option<Json>>) -> Option<Seq<char>>
    decreases records.len(),
{
    if records.len() == 0 {
        None
    } else {
        match user_text(records[0]) {
            Some(t) => Some(t),
            None => first_user_text(records.drop_first()),
        }
    }
}

/// The session's first user message (`first_user_message`).
pub fn first_user_message(records: &Vec<Option<JsonValue>>) -> (r: Option<String>)
    ensures
        match r {
            Some(t) => first_user_text(record_views(records@)) == Some(t@),
            None => first_user_text(record_views(records@)) is None,
        },
{
    let ghost rv = record_views(records@);
    let mut k: usize = 0;
    proof {
        assert(rv.skip(0) =~= rv);
    }
    while k < records.len()
        invariant
            k <= records@.len(),
            rv == record_views(records@),
            first_user_text(rv) == first_user_text(rv.skip(k as int)),
        decreases records@.len() - k,
    {
        proof {
            assert(rv.skip(k as int).drop_first() =~= rv.skip(k + 1));
            assert(rv.skip(k as int)[0] == rv[k as int]);
        }
        match &records[k] {
            Some(record) => {
                if is_text_of(record, "type", "message") {
                    match record.get("message") {
                        Some(message) => {
                            if is_text_of(message, "role", "user") {
                                match message.get("content") {
                                    Some(content) => {
                                        match content_text_of(content) {
                                            Some(t) => {
                                                return Some(t);
                                            },
                                            None => {},
                                        }
                                    },
                                    None => {},
                                }
                            }
                        },
                        None => {},
                    }
                }
            },
            None => {},
        }
        k = k + 1;
    }
    proof {
        assert(rv.skip(records@.len() as int) =~= Seq::<Option<Json>>::empty());
    }
    None
}

/// The title the session list shows for a stored session: its explicit
/// title from the end of the file, else from its start, else its first
/// user message, else `New chat`; cut to the preview length.
pub open spec fn stored_title(tail: Seq<Option<Json>>, head: Seq<Option<Json>>) -> Seq<char> {
    let title = match last_info_name(tail) {
        Some(t) => t,
        None => match last_info_name(head) {
            Some(t) => t,
            None => match first_user_text(head) {
                Some(t) => t,
                None => "New chat"@,
            },
        },
    };
    cut_with_ellipsis(normalized_words(title), MAX_PREVIEW_CHARS as nat)
}

/// The title the session list shows for a stored session, from the
/// records at the end and at the start of its file.
pub fn session_title(tail: &Vec<Option<JsonValue>>, head: &Vec<Option<JsonValue>>) -> (r: String)
    ensures
        r@ == stored_title(record_views(tail@), record_views(head@)),
{
    let title = match explicit_title(tail) {
        Some(t) => t,
        None => match explicit_title(head) {
            Some(t) => t,
            None => match first_user_message(head) {
                Some(t) => t,
                None => "New chat".to_owned(),
            },
        },
    };
    preview(title.as_str())
}

/// The id and working directory of a session file's first record, when it
/// is a `session` record that has both.
pub open spec fn session_header(record: Json) -> Option<(Seq<char>, Seq<char>)> {
    if text_member(record, "type"@) != Some("session"@) {
        None
    } else {
        match (named_text(record, "id"@), named_text(record, "cwd"@)) {
            (Some(id), Some(cwd)) => Some((id, cwd)),
            _ => None,
        }
    }
}

/// Reads a session file's header record.
pub fn read_session_header(record: &JsonValue) -> (r: Option<(String, String)>)
    ensures
        match r {
            Some((id, cwd)) => session_header(json_view(*record)) == Some((id@, cwd@)),
            None => session_header(json_view(*record)) is None,
        },
{
    if !is_text_of(record, "type", "session") {
        return None;
    }
    let id = match string_member(record, "id") {
        Some(i) => i,
        None => return None,
    };
    match string_member(record, "cwd") {
        Some(cwd) => Some((id, cwd)),
        None => None,
    }
}

} // verus!
