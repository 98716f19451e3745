//! Bounded text and JSON taken from Pi's records: tool output, summaries
//! and structured details are cut to fixed sizes before they are shown.
use vstd::prelude::*;
use crate::json::{
    as_text, compact_json, compact_text, field_views, json_view, json_views, lemma_field_views,
    lemma_json_views, member, field_index, string_field, text_member, Json, JsonValue,
};
use crate::app_shell::opt_view;
use crate::text::{chars_of, concat, slice_to_vec, string_from_chars};

verus! {

/// Characters of tool output kept for display.
pub const MAX_TOOL_OUTPUT_CHARS: usize = 24576;

/// `text` cut to at most `max_chars` characters, the last replaced by `…`
/// when anything was cut.
pub open spec fn truncated(text: Seq<char>, max_chars: nat) -> Seq<char> {
    if text.len() <= max_chars {
        text
    } else {
        text.take(if max_chars == 0 { 0 } else { max_chars - 1 }) + seq!['…']
    }
}

/// Cuts `text` to at most `max_chars` characters, ending with `…` when cut.
pub fn truncate_chars(text: String, max_chars: usize) -> (r: String)
    ensures
        r@ == truncated(text@, max_chars as nat),
{
    let chars = chars_of(text.as_str());
    if chars.len() <= max_chars {
        return text;
    }
    let keep = if max_chars == 0 {
        0
    } else {
        max_chars - 1
    };
    let mut out = slice_to_vec(&chars, 0, keep);
    out.push('…');
    proof {
        assert(out@ =~= text@.take(keep as int) + seq!['…']);
    }
    string_from_chars(&out)
}

/// Pieces joined by line feeds.
pub open spec fn joined_lines(parts: Seq<Seq<char>>) -> Seq<char>
    decreases parts.len(),
{
    if parts.len() == 0 {
        Seq::empty()
    } else if parts.len() == 1 {
        parts[0]
    } else {
        joined_lines(parts.drop_last()) + seq!['\n'] + parts.last()
    }
}

/// Appends `part` to `out`, after a line feed unless `out` holds no piece yet.
pub fn push_line(out: &mut Vec<char>, first: bool, part: &Vec<char>)
    ensures
        final(out)@ == if first { old(out)@ + part@ } else { old(out)@ + seq!['\n'] + part@ },
{
    if !first {
        out.push('\n');
    }
    let mut k: usize = 0;
    let ghost start = out@;
    while k < part.len()
        invariant
            k <= part@.len(),
            out@ == start + part@.take(k as int),
        decreases part@.len() - k,
    {
        out.push(part[k]);
        k = k + 1;
        proof {
            assert(part@.take(k as int) =~= part@.take(k - 1).push(part@[k - 1]));
        }
    }
    proof {
        assert(part@.take(part@.len() as int) =~= part@);
        if !first {
            assert(start == old(out)@ + seq!['\n']);
        }
    }
}

/// The text shown for a tool result before it is cut: a string as is; the
/// text of its `content`; the non-empty texts of an array's items joined by
/// line feeds; its `text` member; otherwise its compact JSON.
pub open spec fn raw_result_text(j: Json) -> Seq<char>
    decreases j, 1nat,
{
    match j {
        Json::Str(s) => s,
        Json::Object(fields) => {
            let k = field_index(fields, "content"@, 0);
            if 0 <= k < fields.len() {
                proof {
                    assert(decreases_to!(j => fields));
                    assert(decreases_to!(fields => fields[k]));
                    assert(decreases_to!(fields[k] => fields[k].1));
                }
                result_text(fields[k].1)
            } else {
                match text_member(j, "text"@) {
                    Some(t) => t,
                    None => compact_text(j),
                }
            }
        },
        Json::Array(items) => joined_lines(nonempty_result_texts(items)),
        _ => compact_text(j),
    }
}

/// The texts of the items, without the empty ones.
pub open spec fn nonempty_result_texts(items: Seq<Json>) -> Seq<Seq<char>>
    decreases items, 0nat,
{
    if items.len() == 0 {
        Seq::empty()
    } else {
        let rest = nonempty_result_texts(items.drop_last());
        let t = result_text(items.last());
        if t.len() == 0 {
            rest
        } else {
            rest.push(t)
        }
    }
}

/// The text shown for a tool result, cut to the tool-output limit.
pub open spec fn result_text(j: Json) -> Seq<char>
    decreases j, 2nat,
{
    truncated(raw_result_text(j), MAX_TOOL_OUTPUT_CHARS as nat)
}


/// The index of the first field named `key`, or the length.
pub fn field_position(fields: &Vec<(String, JsonValue)>, key: &str) -> (k: usize)
    ensures
        k <= fields@.len(),
        k == field_index(field_views(fields@), key@, 0),
{
    proof {
        lemma_field_views(fields@);
    }
    let ghost fv = field_views(fields@);
    let wanted = key.to_owned();
    let mut k: usize = 0;
    while k < fields.len()
        invariant
            k <= fields@.len(),
            fv == field_views(fields@),
            fv.len() == fields@.len(),
            forall|i: int| 0 <= i < fields@.len() ==> #[trigger] fv[i] == (fields@[i].0@, json_view(fields@[i].1)),
            field_index(fv, key@, 0) == field_index(fv, key@, k as int),
            wanted@ == key@,
        decreases fields@.len() - k,
    {
        if fields[k].0 == wanted {
            return k;
        }
        k = k + 1;
    }
    k
}

/// The text shown for a tool result, cut to the tool-output limit.
#[verifier::loop_isolation(false)]
pub fn extract_result_text(result: &JsonValue) -> (r: String)
    ensures
        r@ == result_text(json_view(*result)),
    decreases result,
{
    let raw: String = match result {
        JsonValue::String(s) => s.clone(),
        JsonValue::Object(fields) => {
            let k = field_position(fields, "content");
            proof {
                lemma_field_views(fields@);
            }
            if k < fields.len() {
                proof {
                    assert(decreases_to!(*result => *fields));
                    assert(decreases_to!(*fields => fields@));
                    assert(decreases_to!(fields@ => fields@[k as int]));
                    assert(decreases_to!(fields@[k as int] => fields@[k as int].1));
                }
                extract_result_text(&fields[k].1)
            } else {
                match string_field(result, "text") {
                    Some(t) => t,
                    None => compact_json(result),
                }
            }
        },
        JsonValue::Array(items) => {
            proof {
                lemma_json_views(items@);
            }
            let ghost views = json_views(items@);
            let mut out: Vec<char> = Vec::new();
            let mut first = true;
            let mut k: usize = 0;
            proof {
                assert(views.take(0) =~= Seq::<Json>::empty());
            }
            while k < items.len()
                invariant
                    k <= items@.len(),
                    views == json_views(items@),
                    views.len() == items@.len(),
                    forall|i: int| 0 <= i < items@.len() ==> #[trigger] views[i] == json_view(items@[i]),
                    out@ == joined_lines(nonempty_result_texts(views.take(k as int))),
                    first == (nonempty_result_texts(views.take(k as int)).len() == 0),
                decreases items@.len() - k,
            {
                proof {
                    assert(decreases_to!(*result => *items));
                    assert(decreases_to!(*items => items@));
                    assert(decreases_to!(items@ => items@[k as int]));
                }
                let t = extract_result_text(&items[k]);
                let tc = chars_of(t.as_str());
                proof {
                    assert(views.take(k + 1).drop_last() =~= views.take(k as int));
                    assert(views.take(k + 1).last() == views[k as int]);
                }
                if tc.len() > 0 {
                    let ghost before = nonempty_result_texts(views.take(k as int));
                    push_line(&mut out, first, &tc);
                    proof {
                        let after = before.push(t@);
                        assert(nonempty_result_texts(views.take(k + 1)) == after);
                        if before.len() > 0 {
                            assert(after.drop_last() =~= before);
                        } else {
                            assert(after.len() == 1);
                        }
                    }
                    first = false;
                }
                k = k + 1;
            }
            proof {
                assert(views.take(items@.len() as int) =~= views);
            }
            string_from_chars(&out)
        },
        _ => compact_json(result),
    };
    truncate_chars(raw, MAX_TOOL_OUTPUT_CHARS)
}

/// The argument keys whose value summarizes a call of the named tool.
pub open spec fn tool_summary_keys(name: Seq<char>) -> Seq<Seq<char>> {
    if name == "bash"@ {
        seq!["command"@]
    } else if name == "read"@ || name == "write"@ || name == "edit"@ || name == "ls"@ {
        seq!["path"@, "file_path"@]
    } else if name == "grep"@ || name == "find"@ {
        seq!["pattern"@, "path"@]
    } else {
        Seq::empty()
    }
}

/// The first of `keys` whose member is a string, with that string.
pub open spec fn first_text_member(j: Json, keys: Seq<Seq<char>>) -> Option<Seq<char>>
    decreases keys.len(),
{
    if keys.len() == 0 {
        None
    } else {
        match text_member(j, keys[0]) {
            Some(t) => Some(t),
            None => first_text_member(j, keys.drop_first()),
        }
    }
}

/// The one-line summary of a tool call: the first summarizing argument,
/// else the arguments' compact JSON, cut to 240 characters.
pub open spec fn tool_summary(name: Seq<char>, arguments: Option<Json>) -> Seq<char> {
    let j = match arguments {
        Some(a) => a,
        None => Json::Null,
    };
    match first_text_member(j, tool_summary_keys(name)) {
        Some(t) => truncated(t, 240),
        None => if j is Null {
            Seq::empty()
        } else {
            truncated(compact_text(j), 240)
        },
    }
}

fn summary_from_keys(arguments: &JsonValue, keys: &[&str]) -> (r: Option<String>)
    requires
        keys@.len() <= 2,
    ensures
        opt_view(r) == first_text_member(json_view(*arguments), keys@.map_values(|k: &str| k@)),
{
    let ghost ks = keys@.map_values(|k: &str| k@);
    let mut i: usize = 0;
    proof {
        assert(ks.skip(0) =~= ks);
    }
    while i < keys.len()
        invariant
            i <= keys@.len(),
            ks == keys@.map_values(|k: &str| k@),
            first_text_member(json_view(*arguments), ks) == first_text_member(json_view(*arguments), ks.skip(i as int)),
        decreases keys@.len() - i,
    {
        let ghost rest = ks.skip(i as int);
        assert(rest[0] == keys@[i as int]@);
        match string_field(arguments, keys[i]) {
            Some(value) => return Some(value),
            None => {},
        }
        proof {
            assert(rest.drop_first() =~= ks.skip(i + 1));
        }
        i = i + 1;
    }
    None
}

/// Summarizes a tool call for display.
pub fn summarize_tool(name: &str, arguments: Option<&JsonValue>) -> (r: String)
    ensures
        r@ == tool_summary(name@, match arguments {
            Some(a) => Some(json_view(*a)),
            None => None,
        }),
{
    let null = JsonValue::Null;
    let arguments = match arguments {
        Some(a) => a,
        None => &null,
    };
    let n = chars_of(name);
    let found = if crate::language::is_lit(&n, "bash") {
        let keys = ["command"];
        proof {
            assert(keys@.map_values(|k: &str| k@) =~= seq!["command"@]);
        }
        summary_from_keys(arguments, &keys)
    } else if crate::language::is_lit(&n, "read") || crate::language::is_lit(&n, "write") || crate::language::is_lit(
        &n,
        "edit",
    ) || crate::language::is_lit(&n, "ls") {
        let keys = ["path", "file_path"];
        proof {
            assert(keys@.map_values(|k: &str| k@) =~= seq!["path"@, "file_path"@]);
        }
        summary_from_keys(arguments, &keys)
    } else if crate::language::is_lit(&n, "grep") || crate::language::is_lit(&n, "find") {
        let keys = ["pattern", "path"];
        proof {
            assert(keys@.map_values(|k: &str| k@) =~= seq!["pattern"@, "path"@]);
        }
        summary_from_keys(arguments, &keys)
    } else {
        None
    };
    match found {
        Some(value) => truncate_chars(value, 240),
        None => if arguments.is_null() {
            String::new()
        } else {
            truncate_chars(compact_json(arguments), 240)
        },
    }
}

/// Nesting kept in structured details.
pub const MAX_STRUCTURED_DEPTH: usize = 6;
/// Items or members kept per array or object.
pub const MAX_STRUCTURED_ITEMS: usize = 64;
/// Characters kept per string.
pub const MAX_STRUCTURED_STRING_CHARS: usize = 4096;

/// A value cut to the structured-detail limits at nesting `depth`, and
/// whether anything was cut.
pub open spec fn bounded(j: Json, depth: nat) -> (Json, bool)
    decreases j, 1nat,
{
    if depth >= MAX_STRUCTURED_DEPTH {
        (Json::Str("… nested data truncated …"@), true)
    } else {
        match j {
            Json::Str(t) => if t.len() > MAX_STRUCTURED_STRING_CHARS {
                (Json::Str(truncated(t, MAX_STRUCTURED_STRING_CHARS as nat)), true)
            } else {
                (j, false)
            },
            Json::Array(items) => {
                let inner = bounded_items(items, depth + 1);
                (Json::Array(inner.0), inner.1 || items.len() > MAX_STRUCTURED_ITEMS)
            },
            Json::Object(fields) => {
                let inner = bounded_fields(fields, depth + 1);
                (Json::Object(inner.0), inner.1 || fields.len() > MAX_STRUCTURED_ITEMS)
            },
            _ => (j, false),
        }
    }
}

/// The first items, up to the item limit, each bounded.
pub open spec fn bounded_items(items: Seq<Json>, depth: nat) -> (Seq<Json>, bool)
    decreases items, 0nat,
{
    if items.len() == 0 {
        (Seq::empty(), false)
    } else {
        let rest = bounded_items(items.drop_last(), depth);
        if items.len() > MAX_STRUCTURED_ITEMS {
            rest
        } else {
            let b = bounded(items.last(), depth);
            (rest.0.push(b.0), rest.1 || b.1)
        }
    }
}

/// The first members, up to the item limit, with keys cut to 256
/// characters and values bounded.
pub open spec fn bounded_fields(fields: Seq<(Seq<char>, Json)>, depth: nat) -> (Seq<(Seq<char>, Json)>, bool)
    decreases fields, 0nat,
{
    if fields.len() == 0 {
        (Seq::empty(), false)
    } else {
        let rest = bounded_fields(fields.drop_last(), depth);
        if fields.len() > MAX_STRUCTURED_ITEMS {
            rest
        } else {
            let b = bounded(fields.last().1, depth);
            (rest.0.push((truncated(fields.last().0, 256), b.0)), rest.1 || b.1)
        }
    }
}

proof fn lemma_bounded_items_prefix(items: Seq<Json>, depth: nat, k: int)
    requires
        MAX_STRUCTURED_ITEMS <= k <= items.len(),
    ensures
        bounded_items(items.take(k), depth) == bounded_items(items.take(MAX_STRUCTURED_ITEMS as int), depth),
    decreases k,
{
    if k > MAX_STRUCTURED_ITEMS {
        assert(items.take(k).drop_last() =~= items.take(k - 1));
        lemma_bounded_items_prefix(items, depth, k - 1);
    }
}

proof fn lemma_bounded_fields_prefix(fields: Seq<(Seq<char>, Json)>, depth: nat, k: int)
    requires
        MAX_STRUCTURED_ITEMS <= k <= fields.len(),
    ensures
        bounded_fields(fields.take(k), depth) == bounded_fields(fields.take(MAX_STRUCTURED_ITEMS as int), depth),
    decreases k,
{
    if k > MAX_STRUCTURED_ITEMS {
        assert(fields.take(k).drop_last() =~= fields.take(k - 1));
        lemma_bounded_fields_prefix(fields, depth, k - 1);
    }
}

/// A value cut to the structured-detail limits, and whether anything was cut.
#[verifier::loop_isolation(false)]
pub fn bound_json_value(value: &JsonValue, depth: usize) -> (r: (JsonValue, bool))
    requires
        depth <= MAX_STRUCTURED_DEPTH,
    ensures
        (json_view(r.0), r.1) == bounded(json_view(*value), depth as nat),
    decreases value,
{
    if depth >= MAX_STRUCTURED_DEPTH {
        return (JsonValue::String("… nested data truncated …".to_owned()), true);
    }
    match value {
        JsonValue::String(text) => {
            let count = chars_of(text.as_str()).len();
            if count > MAX_STRUCTURED_STRING_CHARS {
                (JsonValue::String(truncate_chars(text.clone(), MAX_STRUCTURED_STRING_CHARS)), true)
            } else {
                (value.copy(), false)
            }
        },
        JsonValue::Array(items) => {
            proof {
                lemma_json_views(items@);
            }
            let ghost views = json_views(items@);
            let mut out: Vec<JsonValue> = Vec::new();
            let mut cut = false;
            let mut k: usize = 0;
            proof {
                assert(views.take(0) =~= Seq::<Json>::empty());
                lemma_json_views(out@);
            }
            while k < items.len() && k < MAX_STRUCTURED_ITEMS
                invariant
                    k <= items@.len(),
                    k <= MAX_STRUCTURED_ITEMS,
                    views == json_views(items@),
                    views.len() == items@.len(),
                    forall|i: int| 0 <= i < items@.len() ==> #[trigger] views[i] == json_view(items@[i]),
                    (json_views(out@), cut) == bounded_items(views.take(k as int), depth as nat + 1),
                decreases items@.len() - k,
            {
                proof {
                    assert(decreases_to!(*value => *items));
                    assert(decreases_to!(*items => items@));
                    assert(decreases_to!(items@ => items@[k as int]));
                }
                let (b, c) = bound_json_value(&items[k], depth + 1);
                proof {
                    assert(views.take(k + 1).drop_last() =~= views.take(k as int));
                    assert(views.take(k + 1).last() == views[k as int]);
                }
                let ghost before = out@;
                out.push(b);
                proof {
                    assert(out@.drop_last() =~= before);
                }
                cut = cut || c;
                k = k + 1;
            }
            proof {
                if items@.len() > MAX_STRUCTURED_ITEMS {
                    lemma_bounded_items_prefix(views, depth as nat + 1, views.len() as int);
                    assert(views.take(views.len() as int) =~= views);
                } else {
                    assert(views.take(k as int) =~= views);
                }
            }
            (JsonValue::Array(out), cut || items.len() > MAX_STRUCTURED_ITEMS)
        },
        JsonValue::Object(fields) => {
            proof {
                lemma_field_views(fields@);
            }
            let ghost views = field_views(fields@);
            let mut out: Vec<(String, JsonValue)> = Vec::new();
            let mut cut = false;
            let mut k: usize = 0;
            proof {
                assert(views.take(0) =~= Seq::<(Seq<char>, Json)>::empty());
            }
            while k < fields.len() && k < MAX_STRUCTURED_ITEMS
                invariant
                    k <= fields@.len(),
                    k <= MAX_STRUCTURED_ITEMS,
                    views == field_views(fields@),
                    views.len() == fields@.len(),
                    forall|i: int| 0 <= i < fields@.len() ==> #[trigger] views[i] == (fields@[i].0@, json_view(fields@[i].1)),
                    (field_views(out@), cut) == bounded_fields(views.take(k as int), depth as nat + 1),
                decreases fields@.len() - k,
            {
                proof {
                    assert(decreases_to!(*value => *fields));
                    assert(decreases_to!(*fields => fields@));
                    assert(decreases_to!(fields@ => fields@[k as int]));
                    assert(decreases_to!(fields@[k as int] => fields@[k as int].1));
                }
                let (b, c) = bound_json_value(&fields[k].1, depth + 1);
                let key = truncate_chars(fields[k].0.clone(), 256);
                proof {
                    assert(views.take(k + 1).drop_last() =~= views.take(k as int));
                    assert(views.take(k + 1).last() == views[k as int]);
                }
                let ghost before = out@;
                out.push((key, b));
                proof {
                    assert(out@.drop_last() =~= before);
                }
                cut = cut || c;
                k = k + 1;
            }
            proof {
                if fields@.len() > MAX_STRUCTURED_ITEMS {
                    lemma_bounded_fields_prefix(views, depth as nat + 1, views.len() as int);
                    assert(views.take(views.len() as int) =~= views);
                } else {
                    assert(views.take(k as int) =~= views);
                }
            }
            (JsonValue::Object(out), cut || fields.len() > MAX_STRUCTURED_ITEMS)
        },
        _ => (value.copy(), false),
    }
}

/// Structured details cut to their limits, and whether anything was cut;
/// nothing when there are no details.
pub open spec fn bounded_details(value: Option<Json>) -> (Option<Json>, bool) {
    match value {
        Some(j) => {
            let b = bounded(j, 0);
            (Some(b.0), b.1)
        },
        None => (None, false),
    }
}

pub open spec fn opt_json_view(v: Option<JsonValue>) -> Option<Json> {
    match v {
        Some(j) => Some(json_view(j)),
        None => None,
    }
}

/// Cuts structured details to their limits (`bounded_json`).
pub fn bounded_json(value: Option<&JsonValue>) -> (r: (Option<JsonValue>, bool))
    ensures
        (opt_json_view(r.0), r.1) == bounded_details(match value {
            Some(v) => Some(json_view(*v)),
            None => None,
        }),
{
    match value {
        Some(v) => {
            let (b, cut) = bound_json_value(v, 0);
            (Some(b), cut)
        },
        None => (None, false),
    }
}
} // verus!
