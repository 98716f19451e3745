//! How Pi's JSON records become conversation items, models, commands and
//! session figures.
use vstd::prelude::*;
use crate::agent::{
    all_levels, effective_level, level_rank, offered_level_is_kept, rising, standard_levels,
    thinking_level_name, AgentStatus, ImageAttachment, ItemStatus,
    ModelCost, ModelSummary, PiCommand, SessionStats, ThinkingLevel, TokenUsage,
};
use crate::agent_state::{
    command_view, image_view, item_view, items_view, model_view, opt_model_view, pushed, push_item,
    snapshot_view, item_id, AgentSnapshot, ChatItem, CommandView, ImageView, ItemView, ModelView,
    SnapshotView,
};
use crate::agent_values::{
    bounded, extract_result_text, result_text, summarize_tool, tool_summary,
};
use crate::text::{decimal, format_decimal};
use crate::agent_values::{
    bounded_details, bounded_json, field_position, joined_lines, opt_json_view, push_line,
};
use crate::app_shell::opt_view;
use crate::json::{
    as_flag, as_text, as_unsigned, count_member, field_index, field_views, flag_member,
    json_view, json_views, lemma_field_views, lemma_json_views, member, opt_json, string_field,
    text_member, u64_field, bool_field, Json, JsonNumber, JsonValue,
};
use crate::text::{byte_len, chars_of, concat, lemma_str_len, string_from_chars, trim, trimmed};

verus! {

/// The texts of the `text` parts, in order.
pub open spec fn text_parts(parts: Seq<Json>) -> Seq<Seq<char>>
    decreases parts.len(),
{
    if parts.len() == 0 {
        Seq::empty()
    } else {
        let rest = text_parts(parts.drop_last());
        let p = parts.last();
        if text_member(p, "type"@) == Some("text"@) {
            match text_member(p, "text"@) {
                Some(t) => rest.push(t),
                None => rest,
            }
        } else {
            rest
        }
    }
}

/// The text of a message: its string content, or its text parts joined by
/// line feeds.
pub open spec fn message_text(message: Json) -> Seq<char> {
    match member(message, "content"@) {
        Some(Json::Str(t)) => t,
        Some(Json::Array(parts)) => joined_lines(text_parts(parts)),
        _ => Seq::empty(),
    }
}

pub(crate) fn is_text_of(value: &JsonValue, key: &str, expected: &str) -> (r: bool)
    ensures
        r == (text_member(json_view(*value), key@) == Some(expected@)),
{
    match string_field(value, key) {
        Some(t) => t == expected.to_owned(),
        None => false,
    }
}

/// The text of a message (`extract_message_text`).
pub fn extract_message_text(message: &JsonValue) -> (r: String)
    ensures
        r@ == message_text(json_view(*message)),
{
    match message.get("content") {
        Some(JsonValue::String(t)) => t.clone(),
        Some(JsonValue::Array(parts)) => {
            proof {
                lemma_json_views(parts@);
            }
            let ghost views = json_views(parts@);
            let mut out: Vec<char> = Vec::new();
            let mut first = true;
            let mut k: usize = 0;
            proof {
                assert(views.take(0) =~= Seq::<Json>::empty());
            }
            while k < parts.len()
                invariant
                    k <= parts@.len(),
                    views == json_views(parts@),
                    views.len() == parts@.len(),
                    forall|i: int| 0 <= i < parts@.len() ==> #[trigger] views[i] == json_view(parts@[i]),
                    out@ == joined_lines(text_parts(views.take(k as int))),
                    first == (text_parts(views.take(k as int)).len() == 0),
                decreases parts@.len() - k,
            {
                proof {
                    assert(views.take(k + 1).drop_last() =~= views.take(k as int));
                    assert(views.take(k + 1).last() == views[k as int]);
                }
                if is_text_of(&parts[k], "type", "text") {
                    match string_field(&parts[k], "text") {
                        Some(t) => {
                            let tc = chars_of(t.as_str());
                            let ghost before = text_parts(views.take(k as int));
                            push_line(&mut out, first, &tc);
                            proof {
                                let after = before.push(t@);
                                if before.len() > 0 {
                                    assert(after.drop_last() =~= before);
                                }
                            }
                            first = false;
                        },
                        None => {},
                    }
                }
                k = k + 1;
            }
            proof {
                assert(views.take(parts@.len() as int) =~= views);
            }
            string_from_chars(&out)
        },
        _ => String::new(),
    }
}

/// The answer and reasoning texts of an assistant message's parts.
pub open spec fn assistant_parts(parts: Seq<Json>) -> (Seq<char>, Seq<char>)
    decreases parts.len(),
{
    if parts.len() == 0 {
        (Seq::empty(), Seq::empty())
    } else {
        let rest = assistant_parts(parts.drop_last());
        let p = parts.last();
        if text_member(p, "type"@) == Some("text"@) {
            match text_member(p, "text"@) {
                Some(t) => (rest.0 + t, rest.1),
                None => rest,
            }
        } else if text_member(p, "type"@) == Some("thinking"@) {
            match text_member(p, "thinking"@) {
                Some(t) => (rest.0, rest.1 + t),
                None => rest,
            }
        } else {
            rest
        }
    }
}

/// The item for an assistant message: its answer, followed by its error
/// after a blank line, and its reasoning; it is marked truncated when Pi
/// stopped the message for its length.
pub open spec fn assistant_item(message: Json, status: ItemStatus, id: Seq<char>) -> ItemView {
    let parts = match member(message, "content"@) {
        Some(Json::Array(ps)) => assistant_parts(ps),
        _ => (Seq::empty(), Seq::empty()),
    };
    let text = match text_member(message, "errorMessage"@) {
        Some(error) => if parts.0.len() > 0 {
            parts.0 + "\n\n"@ + error
        } else {
            error
        },
        None => parts.0,
    };
    ItemView::Assistant {
        id,
        text,
        thinking: parts.1,
        status,
        truncated: text_member(message, "stopReason"@) == Some("length"@),
    }
}

fn append(out: &mut Vec<char>, s: &String)
    ensures
        final(out)@ == old(out)@ + s@,
{
    let c = chars_of(s.as_str());
    let r = concat(out, &c);
    *out = r;
}

/// The item for an assistant message (`assistant_item_from_message`).
pub fn assistant_item_from_message(message: &JsonValue, status: ItemStatus, id: String) -> (r: ChatItem)
    ensures
        item_view(r) == assistant_item(json_view(*message), status, id@),
{
    let mut text: Vec<char> = Vec::new();
    let mut thinking: Vec<char> = Vec::new();
    let content = message.get("content");
    match content {
        Some(JsonValue::Array(parts)) => {
            proof {
                lemma_json_views(parts@);
            }
            let ghost views = json_views(parts@);
            let mut k: usize = 0;
            proof {
                assert(views.take(0) =~= Seq::<Json>::empty());
            }
            while k < parts.len()
                invariant
                    k <= parts@.len(),
                    views == json_views(parts@),
                    views.len() == parts@.len(),
                    forall|i: int| 0 <= i < parts@.len() ==> #[trigger] views[i] == json_view(parts@[i]),
                    (text@, thinking@) == assistant_parts(views.take(k as int)),
                decreases parts@.len() - k,
            {
                proof {
                    assert(views.take(k + 1).drop_last() =~= views.take(k as int));
                    assert(views.take(k + 1).last() == views[k as int]);
                }
                if is_text_of(&parts[k], "type", "text") {
                    match string_field(&parts[k], "text") {
                        Some(t) => append(&mut text, &t),
                        None => {},
                    }
                } else if is_text_of(&parts[k], "type", "thinking") {
                    match string_field(&parts[k], "thinking") {
                        Some(t) => append(&mut thinking, &t),
                        None => {},
                    }
                }
                k = k + 1;
            }
            proof {
                assert(views.take(parts@.len() as int) =~= views);
            }
        },
        _ => {},
    }
    match string_field(message, "errorMessage") {
        Some(error) => {
            if text.len() > 0 {
                append(&mut text, &"\n\n".to_owned());
            }
            append(&mut text, &error);
        },
        None => {},
    }
    let truncated = is_text_of(message, "stopReason", "length");
    ChatItem::Assistant {
        id,
        text: string_from_chars(&text),
        thinking: string_from_chars(&thinking),
        status,
        truncated,
    }
}

/// The id `prefix-fresh`, for an item Pi gave no id.
pub open spec fn fresh_id(prefix: Seq<char>, fresh: Seq<char>) -> Seq<char> {
    prefix + "-"@ + fresh
}

pub fn new_id(prefix: &str, fresh: &str) -> (r: String)
    ensures
        r@ == fresh_id(prefix@, fresh@),
{
    let p = chars_of(prefix);
    let d = chars_of("-");
    let f = chars_of(fresh);
    let pd = concat(&p, &d);
    string_from_chars(&concat(&pd, &f))
}

/// A lowercase hexadecimal digit.
pub open spec fn lower_hex(c: char) -> bool {
    ('0' <= c <= '9') || ('a' <= c <= 'f')
}

/// The hyphenated text of a UUID: 36 characters, hyphens after the 8th,
/// 12th, 16th and 20th digit, lowercase hexadecimal digits elsewhere.
pub open spec fn hyphenated_uuid(t: Seq<char>) -> bool {
    &&& t.len() == 36
    &&& forall|i: int| 0 <= i < 36 ==> if i == 8 || i == 13 || i == 18 || i == 23 {
        #[trigger] t[i] == '-'
    } else {
        lower_hex(t[i])
    }
}

/// `Uuid::new_v4().to_string()`: a random version 4 UUID in its hyphenated
/// lowercase form (`Display` of `Uuid`). Which UUID it is comes from the
/// system's random source and is not claimed; the crate gives up (panics) if
/// that source fails.
#[verifier::external_body]
pub(crate) fn random_uuid() -> (r: String)
    ensures
        hyphenated_uuid(r@),
{
    uuid::Uuid::new_v4().to_string()
}

/// A new id under `prefix`, made unique by a random UUID (`new_id`).
pub fn generate_id(prefix: &str) -> (r: String)
    ensures
        exists|fresh: Seq<char>| hyphenated_uuid(fresh) && r@ == fresh_id(prefix@, fresh),
{
    let token = random_uuid();
    new_id(prefix, token.as_str())
}

pub(crate) fn text_or(value: Option<String>, fallback: &str) -> (r: String)
    ensures
        r@ == match opt_view(value) {
            Some(t) => t,
            None => fallback@,
        },
{
    match value {
        Some(t) => t,
        None => fallback.to_owned(),
    }
}

/// The item for a message of an extension's own type, unless it is hidden
/// or has nothing to show.
pub open spec fn custom_item(message: Json, fresh: Seq<char>) -> Option<ItemView> {
    if flag_member(message, "display"@) == Some(false) {
        None
    } else {
        let label = match text_member(message, "customType"@) {
            Some(l) => l,
            None => match text_member(message, "role"@) {
                Some(r) => r,
                None => "extension"@,
            },
        };
        let text = match text_member(message, "summary"@) {
            Some(s) => s,
            None => message_text(message),
        };
        let details = bounded_details(member(message, "details"@));
        if trim(text).len() == 0 && details.0 is None {
            None
        } else {
            Some(
                ItemView::Custom {
                    id: match text_member(message, "id"@) {
                        Some(i) => i,
                        None => fresh_id("custom"@, fresh),
                    },
                    label,
                    text,
                    details: details.0,
                    details_truncated: details.1,
                },
            )
        }
    }
}

/// The item for an extension's message (`custom_item_from_message`).
pub fn custom_item_from_message(message: &JsonValue, fresh: &str) -> (r: Option<ChatItem>)
    ensures
        match r {
            Some(item) => custom_item(json_view(*message), fresh@) == Some(item_view(item)),
            None => custom_item(json_view(*message), fresh@) is None,
        },
{
    if bool_field(message, "display") == Some(false) {
        return None;
    }
    let label = match string_field(message, "customType") {
        Some(l) => l,
        None => text_or(string_field(message, "role"), "extension"),
    };
    let text = match string_field(message, "summary") {
        Some(s) => s,
        None => extract_message_text(message),
    };
    let (details, details_truncated) = bounded_json(message.get("details"));
    let blank = trimmed(&chars_of(text.as_str())).len() == 0;
    if blank && details.is_none() {
        return None;
    }
    let id = match string_field(message, "id") {
        Some(i) => i,
        None => new_id("custom", fresh),
    };
    Some(ChatItem::Custom { id, label, text, details, details_truncated })
}

/// A command Pi offers, when it has a name.
pub open spec fn command_of(value: Json) -> Option<CommandView> {
    match text_member(value, "name"@) {
        Some(name) => Some(
            CommandView {
                name,
                description: match text_member(value, "description"@) {
                    Some(d) => d,
                    None => Seq::empty(),
                },
                source: match text_member(value, "source"@) {
                    Some(s) => s,
                    None => "command"@,
                },
                location: text_member(value, "location"@),
                argument_hint: text_member(value, "argumentHint"@),
                invocation: text_member(value, "invocation"@),
            },
        ),
        None => None,
    }
}

/// Reads a command Pi offers (`parse_command`).
pub fn parse_command(value: &JsonValue) -> (r: Option<PiCommand>)
    ensures
        match r {
            Some(c) => command_of(json_view(*value)) == Some(command_view(c)),
            None => command_of(json_view(*value)) is None,
        },
{
    let name = match string_field(value, "name") {
        Some(n) => n,
        None => return None,
    };
    proof {
        reveal_strlit("");
        assert(""@ =~= Seq::<char>::empty());
    }
    Some(
        PiCommand {
            name,
            description: text_or(string_field(value, "description"), ""),
            source: text_or(string_field(value, "source"), "command"),
            location: string_field(value, "location"),
            argument_hint: string_field(value, "argumentHint"),
            invocation: string_field(value, "invocation"),
        },
    )
}

pub open spec fn thinking_level_named(text: Seq<char>) -> Option<ThinkingLevel> {
    if text == "off"@ {
        Some(ThinkingLevel::Off)
    } else if text == "minimal"@ {
        Some(ThinkingLevel::Minimal)
    } else if text == "low"@ {
        Some(ThinkingLevel::Low)
    } else if text == "medium"@ {
        Some(ThinkingLevel::Medium)
    } else if text == "high"@ {
        Some(ThinkingLevel::High)
    } else if text == "xhigh"@ {
        Some(ThinkingLevel::Xhigh)
    } else if text == "max"@ {
        Some(ThinkingLevel::Max)
    } else {
        None
    }
}

/// The thinking level Pi names (`parse_thinking_level`).
pub fn parse_thinking_level(value: &str) -> (r: Option<ThinkingLevel>)
    ensures
        r == thinking_level_named(value@),
{
    let v = chars_of(value);
    if crate::language::is_lit(&v, "off") {
        Some(ThinkingLevel::Off)
    } else if crate::language::is_lit(&v, "minimal") {
        Some(ThinkingLevel::Minimal)
    } else if crate::language::is_lit(&v, "low") {
        Some(ThinkingLevel::Low)
    } else if crate::language::is_lit(&v, "medium") {
        Some(ThinkingLevel::Medium)
    } else if crate::language::is_lit(&v, "high") {
        Some(ThinkingLevel::High)
    } else if crate::language::is_lit(&v, "xhigh") {
        Some(ThinkingLevel::Xhigh)
    } else if crate::language::is_lit(&v, "max") {
        Some(ThinkingLevel::Max)
    } else {
        None
    }
}


/// Millionths of a number, rounded into `0..=1e15` (`rounded_u64(x * 1e6, 1e15)`).
pub open spec fn millionths_of(j: Json) -> u64 {
    match j {
        Json::Unsigned(n) => if n * 1_000_000 > 1_000_000_000_000_000 {
            1_000_000_000_000_000
        } else {
            (n * 1_000_000) as u64
        },
        Json::Signed(n) => if n <= 0 {
            0
        } else if n * 1_000_000 > 1_000_000_000_000_000 {
            1_000_000_000_000_000
        } else {
            (n * 1_000_000) as u64
        },
        Json::Float(_, millionths, _) => millionths,
        _ => 0,
    }
}

/// A number as a whole percentage of at most 100; nothing for a value that
/// is not a number.
pub open spec fn percent_of(j: Json) -> Option<u8> {
    let p: u64 = match j {
        Json::Unsigned(n) => if n > 100 {
            100
        } else {
            n
        },
        Json::Signed(n) => if n <= 0 {
            0
        } else if n > 100 {
            100
        } else {
            n as u64
        },
        Json::Float(_, _, percent) => percent,
        _ => 0,
    };
    if j is Unsigned || j is Signed || j is Float {
        if p <= 255 {
            Some(p as u8)
        } else {
            None
        }
    } else {
        None
    }
}

/// The rate in member `field`, in millionths; zero when it is not a number.
pub open spec fn rate_of(value: Option<Json>, field: Seq<char>) -> u64 {
    match value {
        Some(v) => match member(v, field) {
            Some(x) => millionths_of(x),
            None => 0,
        },
        None => 0,
    }
}

fn millionths(value: &JsonValue) -> (r: u64)
    ensures
        r == millionths_of(json_view(*value)),
{
    match value {
        JsonValue::Number(JsonNumber::Unsigned(n)) => {
            if *n > 1_000_000_000 {
                1_000_000_000_000_000
            } else {
                *n * 1_000_000
            }
        },
        JsonValue::Number(JsonNumber::Signed(n)) => {
            if *n <= 0 {
                0
            } else if *n > 1_000_000_000 {
                1_000_000_000_000_000
            } else {
                (*n as u64) * 1_000_000
            }
        },
        JsonValue::Number(JsonNumber::Float { millionths, .. }) => *millionths,
        _ => 0,
    }
}

fn percent(value: &JsonValue) -> (r: Option<u8>)
    ensures
        r == percent_of(json_view(*value)),
{
    let p: u64 = match value {
        JsonValue::Number(JsonNumber::Unsigned(n)) => if *n > 100 {
            100
        } else {
            *n
        },
        JsonValue::Number(JsonNumber::Signed(n)) => if *n <= 0 {
            0
        } else if *n > 100 {
            100
        } else {
            *n as u64
        },
        JsonValue::Number(JsonNumber::Float { percent, .. }) => *percent,
        _ => return None,
    };
    if p <= 255 {
        Some(p as u8)
    } else {
        None
    }
}

fn rate(value: Option<&JsonValue>, field: &str) -> (r: u64)
    ensures
        r == rate_of(opt_json(value), field@),
{
    match value {
        Some(v) => match v.get(field) {
            Some(x) => millionths(x),
            None => 0,
        },
        None => 0,
    }
}

/// Whether a pricing tier charges for anything.
pub open spec fn paid_tier(tier: Json) -> bool {
    rate_of(Some(tier), "input"@) > 0 || rate_of(Some(tier), "output"@) > 0 || rate_of(Some(tier), "cacheRead"@) > 0
        || rate_of(Some(tier), "cacheWrite"@) > 0
}

/// Whether some tier of a tier list charges for anything.
pub open spec fn tiers_paid(t: Json) -> bool {
    match t {
        Json::Array(tiers) => some_tier_paid(tiers),
        _ => false,
    }
}

pub open spec fn some_tier_paid(tiers: Seq<Json>) -> bool
    decreases tiers.len(),
{
    tiers.len() > 0 && (some_tier_paid(tiers.drop_last()) || paid_tier(tiers.last()))
}

/// A model's prices per million tokens, in micro-USD.
pub open spec fn model_cost(cost: Option<Json>) -> ModelCost {
    ModelCost {
        input: rate_of(cost, "input"@),
        output: rate_of(cost, "output"@),
        cache_read: rate_of(cost, "cacheRead"@),
        cache_write: rate_of(cost, "cacheWrite"@),
        has_paid_tier: match cost {
            Some(c) => match member(c, "tiers"@) {
                Some(t) => tiers_paid(t),
                None => false,
            },
            None => false,
        },
    }
}

fn any_paid_tier(tiers: &Vec<JsonValue>) -> (r: bool)
    ensures
        r == tiers_paid(Json::Array(json_views(tiers@))),
{
    proof {
        lemma_json_views(tiers@);
    }
    let ghost all = json_views(tiers@);
    let mut found = false;
    let mut k: usize = 0;
    while k < tiers.len()
        invariant
            k <= tiers@.len(),
            all == json_views(tiers@),
            all.len() == tiers@.len(),
            forall|i: int| 0 <= i < tiers@.len() ==> #[trigger] all[i] == json_view(tiers@[i]),
            found == some_tier_paid(all.take(k as int)),
        decreases tiers@.len() - k,
    {
        let t = &tiers[k];
        let paid = rate(Some(t), "input") > 0 || rate(Some(t), "output") > 0 || rate(Some(t), "cacheRead") > 0
            || rate(Some(t), "cacheWrite") > 0;
        proof {
            assert(all.take(k + 1).drop_last() =~= all.take(k as int));
            assert(all.take(k + 1).last() == all[k as int]);
        }
        found = found || paid;
        k = k + 1;
    }
    proof {
        assert(all.take(tiers@.len() as int) =~= all);
    }
    found
}

fn any_image(inputs: &Vec<JsonValue>) -> (r: bool)
    ensures
        r == exists|k: int| 0 <= k < json_views(inputs@).len() && as_text(#[trigger] json_views(inputs@)[k]) == Some("image"@),
{
    proof {
        lemma_json_views(inputs@);
    }
    let mut k: usize = 0;
    while k < inputs.len()
        invariant
            k <= inputs@.len(),
            json_views(inputs@).len() == inputs@.len(),
            forall|i: int| 0 <= i < inputs@.len() ==> #[trigger] json_views(inputs@)[i] == json_view(inputs@[i]),
            forall|i: int| 0 <= i < k ==> as_text(#[trigger] json_views(inputs@)[i]) != Some("image"@),
        decreases inputs@.len() - k,
    {
        let hit = match inputs[k].as_str() {
            Some(t) => *t == "image".to_owned(),
            None => false,
        };
        if hit {
            proof {
                assert(as_text(json_views(inputs@)[k as int]) == Some("image"@));
            }
            return true;
        }
        k = k + 1;
    }
    false
}

/// Reads a model's prices (`parse_model_cost`).
pub fn parse_model_cost(cost: Option<&JsonValue>) -> (r: ModelCost)
    ensures
        r == model_cost(opt_json(cost)),
{
    let has_paid_tier = match cost {
        Some(c) => match c.get("tiers") {
            Some(JsonValue::Array(tiers)) => {
                let r = any_paid_tier(tiers);
                proof {
                    assert(member(json_view(*c), "tiers"@) == Some(Json::Array(json_views(tiers@))));
                }
                r
            },
            Some(other) => {
                proof {
                    assert(!(json_view(*other) is Array));
                }
                false
            },
            None => false,
        },
        None => false,
    };
    ModelCost {
        input: rate(cost, "input"),
        output: rate(cost, "output"),
        cache_read: rate(cost, "cacheRead"),
        cache_write: rate(cost, "cacheWrite"),
        has_paid_tier,
    }
}

/// What a model's `thinkingLevelMap` says of `level`, when it is an object
/// that has an entry for the level's name.
pub open spec fn level_entry(value: Json, level: ThinkingLevel) -> Option<Json> {
    match member(value, "thinkingLevelMap"@) {
        Some(map) => member(map, thinking_level_name(level)),
        None => None,
    }
}

/// Whether a reasoning model offers `level`: a null entry withdraws it, a
/// text entry offers it, and without either the standard levels are offered.
pub open spec fn level_offered(value: Json, level: ThinkingLevel) -> bool {
    match level_entry(value, level) {
        Some(Json::Null) => false,
        Some(Json::Str(_)) => true,
        _ => standard_levels().contains(level),
    }
}

/// The thinking levels a model offers, from least to most thinking.
pub open spec fn thinking_levels_of(value: Json, reasoning: bool) -> Seq<ThinkingLevel> {
    if !reasoning {
        seq![ThinkingLevel::Off]
    } else {
        all_levels().filter(|level: ThinkingLevel| level_offered(value, level))
    }
}

fn is_standard(level: ThinkingLevel) -> (r: bool)
    ensures
        r == standard_levels().contains(level),
{
    let standard = ThinkingLevel::standard();
    let mut k: usize = 0;
    while k < 5
        invariant
            k <= 5,
            standard@ == standard_levels(),
            forall|i: int| 0 <= i < k ==> standard@[i] != level,
        decreases 5 - k,
    {
        if standard[k] == level {
            proof {
                assert(standard_levels()[k as int] == level);
            }
            return true;
        }
        k = k + 1;
    }
    false
}

fn offers_level(value: &JsonValue, level: ThinkingLevel) -> (r: bool)
    ensures
        r == level_offered(json_view(*value), level),
{
    let entry = match value.get("thinkingLevelMap") {
        Some(map) => map.get(level.as_str()),
        None => None,
    };
    match entry {
        Some(JsonValue::Null) => false,
        Some(JsonValue::String(_)) => true,
        _ => is_standard(level),
    }
}

fn parse_thinking_levels(value: &JsonValue, reasoning: bool) -> (r: Vec<ThinkingLevel>)
    ensures
        r@ == thinking_levels_of(json_view(*value), reasoning),
{
    if !reasoning {
        let only = ThinkingLevel::off_only();
        return vec![only[0]];
    }
    let all = ThinkingLevel::all();
    let ghost pred = |level: ThinkingLevel| level_offered(json_view(*value), level);
    let mut out: Vec<ThinkingLevel> = Vec::new();
    let mut k: usize = 0;
    proof {
        assert(all_levels().take(0) =~= Seq::<ThinkingLevel>::empty());
        reveal(Seq::filter);
    }
    while k < 7
        invariant
            k <= 7,
            all@ == all_levels(),
            pred == (|level: ThinkingLevel| level_offered(json_view(*value), level)),
            out@ == all_levels().take(k as int).filter(pred),
        decreases 7 - k,
    {
        let level = all[k];
        proof {
            assert(all_levels().take(k + 1) =~= all_levels().take(k as int).push(level));
            all_levels().take(k as int).lemma_filter_push(level, pred);
        }
        if offers_level(value, level) {
            out.push(level);
        }
        k = k + 1;
    }
    proof {
        assert(all_levels().take(7) =~= all_levels());
    }
    out
}

proof fn lemma_filter_rises(levels: Seq<ThinkingLevel>, pred: spec_fn(ThinkingLevel) -> bool)
    requires
        rising(levels),
    ensures
        rising(levels.filter(pred)),
    decreases levels.len(),
{
    reveal(Seq::filter);
    if levels.len() > 0 {
        let rest = levels.drop_last();
        assert forall|a: int, b: int| 0 <= a < b < rest.len() implies level_rank(#[trigger] rest[a])
            < level_rank(#[trigger] rest[b]) by {
            assert(levels[a] == rest[a] && levels[b] == rest[b]);
        }
        lemma_filter_rises(rest, pred);
        let sub = rest.filter(pred);
        if pred(levels.last()) {
            assert forall|a: int, b: int| 0 <= a < b < sub.push(levels.last()).len() implies level_rank(
                #[trigger] sub.push(levels.last())[a],
            ) < level_rank(#[trigger] sub.push(levels.last())[b]) by {
                if b == sub.len() {
                    assert(sub.contains(sub[a]));
                    rest.lemma_filter_contains_rev(pred, sub[a]);
                    let i = choose|i: int| 0 <= i < rest.len() && rest[i] == sub[a];
                    assert(levels[i] == rest[i]);
                    assert(level_rank(levels[i]) < level_rank(levels[levels.len() - 1]));
                }
            }
        }
    }
}

/// The levels a model offers are listed from least to most thinking, none
/// twice.
pub proof fn offered_levels_rise(value: Json, reasoning: bool)
    ensures
        rising(thinking_levels_of(value, reasoning)),
{
    if reasoning {
        lemma_filter_rises(all_levels(), |level: ThinkingLevel| level_offered(value, level));
    }
}

/// A model Pi describes runs at the requested thinking level whenever it
/// offers that level.
pub proof fn offered_level_is_used(value: Json, requested: ThinkingLevel)
    requires
        model_of(value) is Some,
        model_of(value)->Some_0.thinking_levels.contains(requested),
    ensures
        effective_level(model_of(value)->Some_0.thinking_levels, requested) == requested,
{
    offered_levels_rise(value, flag_member(value, "reasoning"@) == Some(true));
    offered_level_is_kept(model_of(value)->Some_0.thinking_levels, requested);
}

/// A model Pi describes, when it names its provider and id.
pub open spec fn model_of(value: Json) -> Option<ModelView> {
    match (text_member(value, "provider"@), text_member(value, "id"@)) {
        (Some(provider), Some(id)) => Some(
            ModelView {
                provider,
                id,
                name: match text_member(value, "name"@) {
                    Some(n) => n,
                    None => id,
                },
                reasoning: flag_member(value, "reasoning"@) == Some(true),
                thinking_levels: thinking_levels_of(value, flag_member(value, "reasoning"@) == Some(true)),
                supports_images: match member(value, "input"@) {
                    Some(Json::Array(inputs)) => exists|k: int|
                        0 <= k < inputs.len() && as_text(#[trigger] inputs[k]) == Some("image"@),
                    _ => false,
                },
                context_window: match count_member(value, "contextWindow"@) {
                    Some(n) => n,
                    None => 128000,
                },
                max_tokens: match count_member(value, "maxTokens"@) {
                    Some(n) => n,
                    None => 16384,
                },
                cost: model_cost(member(value, "cost"@)),
            },
        ),
        _ => None,
    }
}

/// Reads a model Pi describes (`parse_model`).
pub fn parse_model(value: &JsonValue) -> (r: Option<ModelSummary>)
    ensures
        match r {
            Some(m) => model_of(json_view(*value)) == Some(model_view(m)),
            None => model_of(json_view(*value)) is None,
        },
{
    let provider = match string_field(value, "provider") {
        Some(p) => p,
        None => return None,
    };
    let id = match string_field(value, "id") {
        Some(i) => i,
        None => return None,
    };
    let name = match string_field(value, "name") {
        Some(n) => n,
        None => id.clone(),
    };
    let reasoning = bool_field(value, "reasoning") == Some(true);
    let supports_images = match value.get("input") {
        Some(JsonValue::Array(inputs)) => any_image(inputs),
        _ => false,
    };
    let context_window = match value.get("contextWindow") {
        Some(v) => match v.as_u64() {
            Some(n) => n,
            None => 128000,
        },
        None => 128000,
    };
    let max_tokens = match value.get("maxTokens") {
        Some(v) => match v.as_u64() {
            Some(n) => n,
            None => 16384,
        },
        None => 16384,
    };
    let cost = parse_model_cost(value.get("cost"));
    let thinking_levels = parse_thinking_levels(value, reasoning);
    Some(ModelSummary {
        provider,
        id,
        name,
        reasoning,
        thinking_levels,
        supports_images,
        context_window,
        max_tokens,
        cost,
    })
}

/// The counters of a session, as Pi reports them.
pub open spec fn session_stats_of(value: Json) -> SessionStats {
    let tokens = match member(value, "tokens"@) {
        Some(t) => t,
        None => Json::Null,
    };
    let context = match member(value, "contextUsage"@) {
        Some(c) => c,
        None => Json::Null,
    };
    let count = |j: Json, key: Seq<char>| match count_member(j, key) {
        Some(n) => n,
        None => 0u64,
    };
    SessionStats {
        user_messages: count(value, "userMessages"@),
        assistant_messages: count(value, "assistantMessages"@),
        tool_calls: count(value, "toolCalls"@),
        total_messages: count(value, "totalMessages"@),
        tokens: TokenUsage {
            input: count(tokens, "input"@),
            output: count(tokens, "output"@),
            cache_read: count(tokens, "cacheRead"@),
            cache_write: count(tokens, "cacheWrite"@),
            total: count(tokens, "total"@),
        },
        cost_microusd: rate_of(Some(value), "cost"@),
        context_tokens: count_member(context, "tokens"@),
        context_window: count_member(context, "contextWindow"@),
        context_percent: match member(context, "percent"@) {
            Some(p) => percent_of(p),
            None => None,
        },
    }
}

/// Reads a session's counters (`parse_session_stats`).
pub fn parse_session_stats(value: &JsonValue) -> (r: SessionStats)
    ensures
        r == session_stats_of(json_view(*value)),
{
    let null = JsonValue::Null;
    let tokens = match value.get("tokens") {
        Some(t) => t,
        None => &null,
    };
    let context = match value.get("contextUsage") {
        Some(c) => c,
        None => &null,
    };
    let context_tokens = match context.get("tokens") {
        Some(v) => v.as_u64(),
        None => None,
    };
    let context_window = match context.get("contextWindow") {
        Some(v) => v.as_u64(),
        None => None,
    };
    let context_percent = match context.get("percent") {
        Some(v) => percent(v),
        None => None,
    };
    SessionStats {
        user_messages: u64_field(value, "userMessages"),
        assistant_messages: u64_field(value, "assistantMessages"),
        tool_calls: u64_field(value, "toolCalls"),
        total_messages: u64_field(value, "totalMessages"),
        tokens: TokenUsage {
            input: u64_field(tokens, "input"),
            output: u64_field(tokens, "output"),
            cache_read: u64_field(tokens, "cacheRead"),
            cache_write: u64_field(tokens, "cacheWrite"),
            total: u64_field(tokens, "total"),
        },
        cost_microusd: rate(Some(value), "cost"),
        context_tokens,
        context_window,
        context_percent,
    }
}

/// The queued messages of a `queue_update`: each item's text, or its
/// `message` member.
pub open spec fn queued_texts(items: Seq<Json>) -> Seq<Seq<char>>
    decreases items.len(),
{
    if items.len() == 0 {
        Seq::empty()
    } else {
        let rest = queued_texts(items.drop_last());
        match as_text(items.last()) {
            Some(t) => rest.push(t),
            None => match text_member(items.last(), "message"@) {
                Some(m) => rest.push(m),
                None => rest,
            },
        }
    }
}

pub open spec fn queue_of(value: Option<Json>) -> Seq<Seq<char>> {
    match value {
        Some(Json::Array(items)) => queued_texts(items),
        _ => Seq::empty(),
    }
}

/// Reads a queue of messages (`queue_messages`).
pub fn queue_messages(value: Option<&JsonValue>) -> (r: Vec<String>)
    ensures
        r@.map_values(|s: String| s@) == queue_of(opt_json(value)),
{
    let mut out: Vec<String> = Vec::new();
    match value {
        Some(JsonValue::Array(items)) => {
            proof {
                lemma_json_views(items@);
            }
            let ghost views = json_views(items@);
            let mut k: usize = 0;
            proof {
                assert(views.take(0) =~= Seq::<Json>::empty());
                assert(out@.map_values(|s: String| s@) =~= Seq::<Seq<char>>::empty());
            }
            while k < items.len()
                invariant
                    k <= items@.len(),
                    views == json_views(items@),
                    views.len() == items@.len(),
                    forall|i: int| 0 <= i < items@.len() ==> #[trigger] views[i] == json_view(items@[i]),
                    out@.map_values(|s: String| s@) == queued_texts(views.take(k as int)),
                decreases items@.len() - k,
            {
                proof {
                    assert(views.take(k + 1).drop_last() =~= views.take(k as int));
                    assert(views.take(k + 1).last() == views[k as int]);
                }
                let ghost before = out@.map_values(|s: String| s@);
                let text = match items[k].as_str() {
                    Some(t) => Some(t.clone()),
                    None => string_field(&items[k], "message"),
                };
                match text {
                    Some(t) => {
                        let ghost tv = t@;
                        out.push(t);
                        proof {
                            assert(out@.map_values(|s: String| s@) =~= before.push(tv));
                        }
                    },
                    None => {},
                }
                k = k + 1;
            }
            proof {
                assert(views.take(items@.len() as int) =~= views);
            }
        },
        _ => {
            proof {
                assert(out@.map_values(|s: String| s@) =~= Seq::<Seq<char>>::empty());
            }
        },
    }
    out
}

/// The snapshot after Pi reports its session state: identity, model,
/// thinking level, queue length and whether it is working or compacting.
pub open spec fn session_state_applied(s: SnapshotView, value: Json) -> SnapshotView {
    let compacting = flag_member(value, "isCompacting"@) == Some(true);
    let streaming = flag_member(value, "isStreaming"@) == Some(true);
    SnapshotView {
        session_id: text_member(value, "sessionId"@),
        session_name: text_member(value, "sessionName"@),
        model: match member(value, "model"@) {
            Some(m) => model_of(m),
            None => None,
        },
        thinking_level: match text_member(value, "thinkingLevel"@) {
            Some(t) => match thinking_level_named(t) {
                Some(level) => level,
                None => s.thinking_level,
            },
            None => s.thinking_level,
        },
        pending_messages: match count_member(value, "pendingMessageCount"@) {
            Some(n) => if n <= usize::MAX {
                n as usize
            } else {
                0
            },
            None => 0,
        },
        status: if compacting {
            AgentStatus::Compacting
        } else if streaming {
            AgentStatus::Working
        } else {
            AgentStatus::Ready
        },
        status_message: if compacting {
            "Pi is compacting the conversation…"@
        } else if streaming {
            "Pi is working…"@
        } else {
            "Ready"@
        },
        ..s
    }
}

/// Takes Pi's session state into the snapshot (`apply_session_state`).
pub fn apply_session_state(snapshot: &mut AgentSnapshot, value: &JsonValue)
    ensures
        snapshot_view(*final(snapshot)) == session_state_applied(snapshot_view(*old(snapshot)), json_view(*value)),
{
    snapshot.session_id = string_field(value, "sessionId");
    snapshot.session_name = string_field(value, "sessionName");
    snapshot.model = match value.get("model") {
        Some(m) => parse_model(m),
        None => None,
    };
    match string_field(value, "thinkingLevel") {
        Some(t) => match parse_thinking_level(t.as_str()) {
            Some(level) => snapshot.thinking_level = level,
            None => {},
        },
        None => {},
    }
    snapshot.pending_messages = match value.get("pendingMessageCount") {
        Some(v) => match v.as_u64() {
            Some(n) => if n <= usize::MAX as u64 {
                n as usize
            } else {
                0
            },
            None => 0,
        },
        None => 0,
    };
    let compacting = bool_field(value, "isCompacting") == Some(true);
    let streaming = bool_field(value, "isStreaming") == Some(true);
    if compacting {
        snapshot.status = AgentStatus::Compacting;
        snapshot.status_message = "Pi is compacting the conversation…".to_owned();
    } else if streaming {
        snapshot.status = AgentStatus::Working;
        snapshot.status_message = "Pi is working…".to_owned();
    } else {
        snapshot.status = AgentStatus::Ready;
        snapshot.status_message = "Ready".to_owned();
    }
}

/// The image attached by an `image` part, when it has data and a type.
pub open spec fn image_of(part: Json) -> Option<ImageView> {
    if text_member(part, "type"@) != Some("image"@) {
        None
    } else {
        let data = match text_member(part, "data"@) {
            Some(d) => Some(d),
            None => text_member(part, "content"@),
        };
        match (data, text_member(part, "mimeType"@)) {
            (Some(d), Some(mime_type)) => Some(
                ImageView {
                    name: match text_member(part, "fileName"@) {
                        Some(n) => n,
                        None => "image"@,
                    },
                    size: if byte_len(d) * 3 > usize::MAX {
                        (usize::MAX / 4) as u64
                    } else {
                        (byte_len(d) * 3 / 4) as u64
                    },
                    mime_type,
                    data: d,
                },
            ),
            _ => None,
        }
    }
}

pub open spec fn images_of(parts: Seq<Json>) -> Seq<ImageView>
    decreases parts.len(),
{
    if parts.len() == 0 {
        Seq::empty()
    } else {
        match image_of(parts.last()) {
            Some(i) => images_of(parts.drop_last()).push(i),
            None => images_of(parts.drop_last()),
        }
    }
}

/// The images attached to a message.
pub open spec fn message_images(message: Json) -> Seq<ImageView> {
    match member(message, "content"@) {
        Some(Json::Array(parts)) => images_of(parts),
        _ => Seq::empty(),
    }
}

fn image_from_part(part: &JsonValue) -> (r: Option<ImageAttachment>)
    ensures
        match r {
            Some(i) => image_of(json_view(*part)) == Some(image_view(i)),
            None => image_of(json_view(*part)) is None,
        },
{
    if !is_text_of(part, "type", "image") {
        return None;
    }
    let data = match string_field(part, "data") {
        Some(d) => d,
        None => match string_field(part, "content") {
            Some(c) => c,
            None => return None,
        },
    };
    let mime_type = match string_field(part, "mimeType") {
        Some(m) => m,
        None => return None,
    };
    let bytes = crate::text::byte_len_capped(&chars_of(data.as_str()), usize::MAX / 3 + 1);
    let size = if bytes > usize::MAX / 3 {
        usize::MAX / 4
    } else {
        bytes * 3 / 4
    };
    Some(ImageAttachment { name: text_or(string_field(part, "fileName"), "image"), mime_type, size: size as u64, data })
}

/// The images attached to a message (`extract_message_images`).
pub fn extract_message_images(message: &JsonValue) -> (r: Vec<ImageAttachment>)
    ensures
        r@.map_values(|i: ImageAttachment| image_view(i)) == message_images(json_view(*message)),
{
    let mut out: Vec<ImageAttachment> = Vec::new();
    match message.get("content") {
        Some(JsonValue::Array(parts)) => {
            proof {
                lemma_json_views(parts@);
            }
            let ghost views = json_views(parts@);
            let mut k: usize = 0;
            proof {
                assert(views.take(0) =~= Seq::<Json>::empty());
                assert(out@.map_values(|i: ImageAttachment| image_view(i)) =~= Seq::<ImageView>::empty());
            }
            while k < parts.len()
                invariant
                    k <= parts@.len(),
                    views == json_views(parts@),
                    views.len() == parts@.len(),
                    forall|i: int| 0 <= i < parts@.len() ==> #[trigger] views[i] == json_view(parts@[i]),
                    out@.map_values(|i: ImageAttachment| image_view(i)) == images_of(views.take(k as int)),
                decreases parts@.len() - k,
            {
                proof {
                    assert(views.take(k + 1).drop_last() =~= views.take(k as int));
                    assert(views.take(k + 1).last() == views[k as int]);
                }
                match image_from_part(&parts[k]) {
                    Some(image) => {
                        let ghost before = out@.map_values(|i: ImageAttachment| image_view(i));
                        let ghost iv = image_view(image);
                        out.push(image);
                        proof {
                            assert(out@.map_values(|i: ImageAttachment| image_view(i)) =~= before.push(iv));
                        }
                    },
                    None => {},
                }
                k = k + 1;
            }
            proof {
                assert(views.take(parts@.len() as int) =~= views);
            }
        },
        _ => {
            proof {
                assert(out@.map_values(|i: ImageAttachment| image_view(i)) =~= Seq::<ImageView>::empty());
            }
        },
    }
    out
}

/// The id `prefix` followed by the decimal `index`.
pub open spec fn indexed_id(prefix: Seq<char>, index: nat) -> Seq<char> {
    prefix + decimal(index)
}

fn indexed(prefix: &str, index: usize) -> (r: String)
    ensures
        r@ == indexed_id(prefix@, index as nat),
{
    let p = chars_of(prefix);
    let d = format_decimal(index as u64);
    string_from_chars(&concat(&p, &d))
}

/// The first item at or after `k` with the id `id`, or the length.
pub open spec fn item_with_id(items: Seq<ItemView>, id: Seq<char>, k: int) -> int
    decreases items.len() - k,
{
    if k < 0 || k >= items.len() {
        items.len() as int
    } else if item_id(items[k]) == id {
        k
    } else {
        item_with_id(items, id, k + 1)
    }
}

pub proof fn lemma_item_with_id(items: Seq<ItemView>, id: Seq<char>, k: int)
    requires
        0 <= k <= items.len(),
    ensures
        k <= item_with_id(items, id, k) <= items.len(),
        item_with_id(items, id, k) < items.len() ==> item_id(items[item_with_id(items, id, k)]) == id,
    decreases items.len() - k,
{
    if k < items.len() && item_id(items[k]) != id {
        lemma_item_with_id(items, id, k + 1);
    }
}

/// The index of the first item with the id `id`, or the length.
pub fn find_item(items: &Vec<ChatItem>, id: &String) -> (k: usize)
    ensures
        k == item_with_id(items_view(items@), id@, 0),
        k <= items@.len(),
{
    let ghost iv = items_view(items@);
    let mut k: usize = 0;
    while k < items.len()
        invariant
            k <= items@.len(),
            iv == items_view(items@),
            item_with_id(iv, id@, 0) == item_with_id(iv, id@, k as int),
        decreases items@.len() - k,
    {
        proof {
            assert(iv[k as int] == crate::agent_state::item_view(items@[k as int]));
        }
        if *items[k].id() == *id {
            return k;
        }
        k = k + 1;
    }
    k
}

/// A tool item after its result arrives: the output, any new details, and
/// whether it failed.
pub open spec fn tool_result_applied(item: ItemView, output: Seq<char>, details: (Option<Json>, bool), failed: bool) -> ItemView {
    match item {
        ItemView::Tool { id, name, summary, args, details: old_details, args_truncated, details_truncated, .. } => ItemView::Tool {
            id,
            name,
            summary,
            output,
            args,
            details: if details.0 is Some {
                details.0
            } else {
                old_details
            },
            args_truncated,
            details_truncated: if details.0 is Some {
                details.1
            } else {
                details_truncated
            },
            status: if failed {
                ItemStatus::Failed
            } else {
                ItemStatus::Complete
            },
        },
        other => other,
    }
}

/// The tool items for the tool calls among an assistant message's parts.
pub open spec fn tool_call_items(items: Seq<ItemView>, parts: Seq<Json>, index: nat) -> Seq<ItemView>
    decreases parts.len(),
{
    if parts.len() == 0 {
        items
    } else {
        let before = tool_call_items(items, parts.drop_last(), index);
        let part = parts.last();
        if text_member(part, "type"@) == Some("toolCall"@) {
            let name = match text_member(part, "name"@) {
                Some(n) => n,
                None => "tool"@,
            };
            let args = bounded_details(member(part, "arguments"@));
            pushed(
                before,
                ItemView::Tool {
                    id: match text_member(part, "id"@) {
                        Some(i) => i,
                        None => indexed_id("history-tool-"@, index),
                    },
                    name,
                    summary: tool_summary(name, member(part, "arguments"@)),
                    output: Seq::empty(),
                    args: args.0,
                    details: None,
                    args_truncated: args.1,
                    details_truncated: false,
                    status: ItemStatus::Complete,
                },
            )
        } else {
            before
        }
    }
}

/// The items after one message of a session's history.
pub open spec fn history_step(items: Seq<ItemView>, m: Json, index: nat) -> Seq<ItemView> {
    let role = text_member(m, "role"@);
    if role == Some("user"@) {
        let text = message_text(m);
        if trim(text).len() > 0 {
            pushed(
                items,
                ItemView::User {
                    id: indexed_id("history-user-"@, index),
                    entry_id: None,
                    text,
                    images: message_images(m),
                },
            )
        } else {
            items
        }
    } else if role == Some("custom"@) {
        match custom_item(m, Seq::empty()) {
            Some(ItemView::Custom { label, text, details, details_truncated, .. }) => pushed(
                items,
                ItemView::Custom {
                    id: match text_member(m, "id"@) {
                        Some(i) => i,
                        None => indexed_id("history-custom-"@, index),
                    },
                    label,
                    text,
                    details,
                    details_truncated,
                },
            ),
            _ => items,
        }
    } else if role == Some("assistant"@) {
        let failed = match member(m, "errorMessage"@) {
            Some(e) => !(e is Null),
            None => false,
        };
        let item = assistant_item(
            m,
            if failed {
                ItemStatus::Failed
            } else {
                ItemStatus::Complete
            },
            indexed_id("history-assistant-"@, index),
        );
        let with_answer = match item {
            ItemView::Assistant { text, thinking, .. } => if text.len() > 0 || thinking.len() > 0 {
                pushed(items, item)
            } else {
                items
            },
            _ => items,
        };
        match member(m, "content"@) {
            Some(Json::Array(parts)) => tool_call_items(with_answer, parts, index),
            _ => with_answer,
        }
    } else if role == Some("toolResult"@) {
        match text_member(m, "toolCallId"@) {
            Some(id) => {
                let k = item_with_id(items, id, 0);
                if 0 <= k < items.len() {
                    let output = match member(m, "content"@) {
                        Some(c) => result_text(c),
                        None => Seq::empty(),
                    };
                    items.update(
                        k,
                        tool_result_applied(
                            items[k],
                            output,
                            bounded_details(member(m, "details"@)),
                            flag_member(m, "isError"@) == Some(true),
                        ),
                    )
                } else {
                    items
                }
            },
            None => items,
        }
    } else {
        items
    }
}

/// The conversation items of a session's history, from the `i`-th message on.
pub open spec fn history_from(messages: Seq<Json>, i: int, items: Seq<ItemView>) -> Seq<ItemView>
    decreases messages.len() - i,
{
    if i < 0 || i >= messages.len() {
        items
    } else {
        history_from(messages, i + 1, history_step(items, messages[i], i as nat))
    }
}

fn role_is(m: &JsonValue, role: &str) -> (r: bool)
    ensures
        r == (text_member(json_view(*m), "role"@) == Some(role@)),
{
    is_text_of(m, "role", role)
}

/// A tool item updated with its result, when `item` is a tool item.
fn with_tool_result(item: &ChatItem, output: String, details: (Option<JsonValue>, bool), failed: bool) -> (r: Option<ChatItem>)
    ensures
        match r {
            Some(t) => item_view(t) == tool_result_applied(
                item_view(*item),
                output@,
                (opt_json_view(details.0), details.1),
                failed,
            ) && item_view(*item) is Tool,
            None => !(item_view(*item) is Tool),
        },
{
    match item {
        ChatItem::Tool { id, name, summary, args, details: old_details, args_truncated, details_truncated, .. } => {
            let (new_details, new_truncated) = details;
            let keep = new_details.is_none();
            Some(
                ChatItem::Tool {
                    id: id.clone(),
                    name: name.clone(),
                    summary: summary.clone(),
                    output,
                    args: crate::agent_state::copy_json(args),
                    details: if keep {
                        crate::agent_state::copy_json(old_details)
                    } else {
                        new_details
                    },
                    args_truncated: *args_truncated,
                    details_truncated: if keep {
                        *details_truncated
                    } else {
                        new_truncated
                    },
                    status: if failed {
                        ItemStatus::Failed
                    } else {
                        ItemStatus::Complete
                    },
                },
            )
        },
        _ => None,
    }
}

fn push_tool_calls(items: &mut Vec<ChatItem>, parts: &Vec<JsonValue>, index: usize)
    ensures
        items_view(final(items)@) == tool_call_items(items_view(old(items)@), json_views(parts@), index as nat),
{
    proof {
        lemma_json_views(parts@);
    }
    let ghost views = json_views(parts@);
    let ghost start = items_view(items@);
    let mut k: usize = 0;
    proof {
        assert(views.take(0) =~= Seq::<Json>::empty());
    }
    while k < parts.len()
        invariant
            k <= parts@.len(),
            views == json_views(parts@),
            views.len() == parts@.len(),
            forall|i: int| 0 <= i < parts@.len() ==> #[trigger] views[i] == json_view(parts@[i]),
            items_view(items@) == tool_call_items(start, views.take(k as int), index as nat),
        decreases parts@.len() - k,
    {
        proof {
            assert(views.take(k + 1).drop_last() =~= views.take(k as int));
            assert(views.take(k + 1).last() == views[k as int]);
        }
        let part = &parts[k];
        if is_text_of(part, "type", "toolCall") {
            let id = match string_field(part, "id") {
                Some(i) => i,
                None => indexed("history-tool-", index),
            };
            let name = text_or(string_field(part, "name"), "tool");
            let (args, args_truncated) = bounded_json(part.get("arguments"));
            let summary = summarize_tool(name.as_str(), part.get("arguments"));
            push_item(
                items,
                ChatItem::Tool {
                    id,
                    name,
                    summary,
                    output: String::new(),
                    args,
                    details: None,
                    args_truncated,
                    details_truncated: false,
                    status: ItemStatus::Complete,
                },
            );
        }
        k = k + 1;
    }
    proof {
        assert(views.take(parts@.len() as int) =~= views);
    }
}

/// Adds the items of one history message (`map_history`, one step).
fn history_message(items: &mut Vec<ChatItem>, m: &JsonValue, index: usize)
    ensures
        items_view(final(items)@) == history_step(items_view(old(items)@), json_view(*m), index as nat),
{
    if role_is(m, "user") {
        let text = extract_message_text(m);
        if trimmed(&chars_of(text.as_str())).len() > 0 {
            let images = extract_message_images(m);
            push_item(items, ChatItem::User { id: indexed("history-user-", index), entry_id: None, text, images });
        }
    } else if role_is(m, "custom") {
        match custom_item_from_message(m, "") {
            Some(ChatItem::Custom { label, text, details, details_truncated, .. }) => {
                let id = match string_field(m, "id") {
                    Some(i) => i,
                    None => indexed("history-custom-", index),
                };
                proof {
                    reveal_strlit("");
                    assert(""@ =~= Seq::<char>::empty());
                }
                push_item(items, ChatItem::Custom { id, label, text, details, details_truncated });
            },
            _ => {
                proof {
                    reveal_strlit("");
                    assert(""@ =~= Seq::<char>::empty());
                }
            },
        }
    } else if role_is(m, "assistant") {
        let failed = match m.get("errorMessage") {
            Some(e) => !e.is_null(),
            None => false,
        };
        let status = if failed {
            ItemStatus::Failed
        } else {
            ItemStatus::Complete
        };
        let item = assistant_item_from_message(m, status, indexed("history-assistant-", index));
        let shown = match &item {
            ChatItem::Assistant { text, thinking, .. } => !text.as_str().is_empty() || !thinking.as_str().is_empty(),
            _ => false,
        };
        if shown {
            push_item(items, item);
        }
        match m.get("content") {
            Some(JsonValue::Array(parts)) => push_tool_calls(items, parts, index),
            _ => {},
        }
    } else if role_is(m, "toolResult") {
        match string_field(m, "toolCallId") {
            Some(id) => {
                let k = find_item(items, &id);
                if k < items.len() {
                    let output = match m.get("content") {
                        Some(c) => extract_result_text(c),
                        None => String::new(),
                    };
                    let details = bounded_json(m.get("details"));
                    let failed = bool_field(m, "isError") == Some(true);
                    match with_tool_result(&items[k], output, details, failed) {
                        Some(updated) => {
                            let ghost before = items_view(items@);
                            let ghost uv = item_view(updated);
                            items.set(k, updated);
                            proof {
                                assert(items_view(items@) =~= before.update(k as int, uv));
                            }
                        },
                        None => {
                            proof {
                                assert(items_view(items@)[k as int] == item_view(items@[k as int]));
                            }
                        },
                    }
                }
            },
            None => {},
        }
    }
}

/// The conversation items of a session's history (`map_history`).
pub fn map_history(messages: &Vec<JsonValue>) -> (r: Vec<ChatItem>)
    ensures
        items_view(r@) == history_from(json_views(messages@), 0, Seq::empty()),
{
    proof {
        lemma_json_views(messages@);
    }
    let ghost views = json_views(messages@);
    let mut items: Vec<ChatItem> = Vec::new();
    let mut i: usize = 0;
    proof {
        assert(items_view(items@) =~= Seq::<ItemView>::empty());
    }
    while i < messages.len()
        invariant
            i <= messages@.len(),
            views == json_views(messages@),
            views.len() == messages@.len(),
            forall|j: int| 0 <= j < messages@.len() ==> #[trigger] views[j] == json_view(messages@[j]),
            history_from(views, 0, Seq::empty()) == history_from(views, i as int, items_view(items@)),
        decreases messages@.len() - i,
    {
        history_message(&mut items, &messages[i], i);
        i = i + 1;
    }
    items
}

/// The first message at or after `from` whose text is `text`, or the length.
pub open spec fn fork_match(messages: Seq<(Seq<char>, Seq<char>)>, text: Seq<char>, from: int) -> int
    decreases messages.len() - from,
{
    if from < 0 || from >= messages.len() {
        messages.len() as int
    } else if messages[from].1 == text {
        from
    } else {
        fork_match(messages, text, from + 1)
    }
}

proof fn lemma_fork_match(messages: Seq<(Seq<char>, Seq<char>)>, text: Seq<char>, from: int)
    requires
        0 <= from <= messages.len(),
    ensures
        from <= fork_match(messages, text, from) <= messages.len(),
    decreases messages.len() - from,
{
    if from < messages.len() && messages[from].1 != text {
        lemma_fork_match(messages, text, from + 1);
    }
}

/// The items with each user message linked, in order, to the next forkable
/// entry with the same text, from the `k`-th item and the `from`-th entry on.
pub open spec fn fork_ids_from(items: Seq<ItemView>, messages: Seq<(Seq<char>, Seq<char>)>, k: int, from: int) -> Seq<ItemView>
    decreases items.len() - k,
{
    if k < 0 || k >= items.len() {
        items
    } else {
        match items[k] {
            ItemView::User { id, text, images, .. } => {
                let p = fork_match(messages, text, from);
                if 0 <= p < messages.len() {
                    fork_ids_from(
                        items.update(k, ItemView::User { id, entry_id: Some(messages[p].0), text, images }),
                        messages,
                        k + 1,
                        p + 1,
                    )
                } else {
                    fork_ids_from(items.update(k, ItemView::User { id, entry_id: None, text, images }), messages, k + 1, from)
                }
            },
            _ => fork_ids_from(items, messages, k + 1, from),
        }
    }
}

fn linked_user(item: &ChatItem, entry_id: Option<String>) -> (r: Option<ChatItem>)
    ensures
        match item_view(*item) {
            ItemView::User { id, text, images, .. } => r is Some && item_view(r.unwrap()) == ItemView::User {
                id,
                entry_id: opt_view(entry_id),
                text,
                images,
            },
            _ => r is None,
        },
{
    match item {
        ChatItem::User { id, text, images, .. } => {
            let copied = item.copy();
            match copied {
                ChatItem::User { images: copied_images, .. } => Some(
                    ChatItem::User { id: id.clone(), entry_id, text: text.clone(), images: copied_images },
                ),
                _ => None,
            }
        },
        _ => None,
    }
}

/// Links user items to the entries Pi can fork from (`apply_fork_message_ids`).
pub fn apply_fork_message_ids(items: &mut Vec<ChatItem>, messages: &Vec<(String, String)>)
    ensures
        items_view(final(items)@) == fork_ids_from(
            items_view(old(items)@),
            crate::agent_state::pairs_view(messages@),
            0,
            0,
        ),
{
    let ghost mv = crate::agent_state::pairs_view(messages@);
    let mut from: usize = 0;
    let mut k: usize = 0;
    while k < items.len()
        invariant
            k <= items@.len(),
            from <= messages@.len(),
            mv == crate::agent_state::pairs_view(messages@),
            mv.len() == messages@.len(),
            fork_ids_from(items_view(old(items)@), mv, 0, 0) == fork_ids_from(
                items_view(items@),
                mv,
                k as int,
                from as int,
            ),
        decreases items@.len() - k,
    {
        let ghost before = items_view(items@);
        proof {
            assert(before[k as int] == item_view(items@[k as int]));
        }
        let is_user = match &items[k] {
            ChatItem::User { .. } => true,
            _ => false,
        };
        if is_user {
            let text = match &items[k] {
                ChatItem::User { text, .. } => text.clone(),
                _ => String::new(),
            };
            let mut p = from;
            while p < messages.len() && messages[p].1 != text
                invariant
                    from <= p <= messages@.len(),
                    mv == crate::agent_state::pairs_view(messages@),
                    mv.len() == messages@.len(),
                    fork_match(mv, text@, from as int) == fork_match(mv, text@, p as int),
                decreases messages@.len() - p,
            {
                proof {
                    assert(mv[p as int] == (messages@[p as int].0@, messages@[p as int].1@));
                }
                p = p + 1;
            }
            proof {
                if p < messages@.len() {
                    assert(mv[p as int] == (messages@[p as int].0@, messages@[p as int].1@));
                }
            }
            let entry = if p < messages.len() {
                Some(messages[p].0.clone())
            } else {
                None
            };
            match linked_user(&items[k], entry) {
                Some(updated) => {
                    let ghost uv = item_view(updated);
                    items.set(k, updated);
                    proof {
                        assert(items_view(items@) =~= before.update(k as int, uv));
                    }
                },
                None => {},
            }
            if p < messages.len() {
                from = p + 1;
            }
        }
        k = k + 1;
    }
}
} // verus!
