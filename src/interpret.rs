//! Turns decoded frames into text deltas or in-stream failures, per provider dialect.
use vstd::prelude::*;
use crate::config::{Dialect, ProviderKind, dialect_of};
use crate::json::{
    JsonValue, as_str_value, get_member, json_error_text, json_parse, json_text, json_to_string,
    member, parse_json, str_of,
};
use crate::sse::{FrameView, SseEvent};
use crate::text::{append_chars, append_str, chars_of, string_of, trim, trim_chars};

verus! {

/// A delta as plain data: nothing, a piece of text, or a failure message.
pub type DeltaView = Option<Result<Seq<char>, Seq<char>>>;

pub open spec fn delta_view(d: Option<Result<String, String>>) -> DeltaView {
    match d {
        Some(Ok(t)) => Some(Ok(t@)),
        Some(Err(e)) => Some(Err(e@)),
        None => None,
    }
}

pub open spec fn api_error(m: Seq<char>) -> Seq<char> {
    "API error: "@ + m
}

// ---- chat-completion dialect ----

/// Text of one element of a `content` array: its `text` string, or the element itself
/// where it is a string.
pub open spec fn item_text(item: JsonValue) -> Seq<char> {
    match str_of(member(item, "text"@)) {
        Some(t) => t,
        None => match item {
            JsonValue::Str(s) => s@,
            _ => Seq::empty(),
        },
    }
}

pub open spec fn items_text(items: Seq<JsonValue>) -> Seq<char>
    decreases items.len(),
{
    if items.len() == 0 {
        Seq::empty()
    } else {
        items_text(items.drop_last()) + item_text(items.last())
    }
}

pub open spec fn non_empty(t: Seq<char>) -> Option<Seq<char>> {
    if t.len() > 0 {
        Some(t)
    } else {
        None
    }
}

/// Text of a `delta` or `message` object: a non-empty string `content`, else the
/// non-empty concatenation of a `content` array, else a non-empty `text` string.
pub open spec fn message_text(v: JsonValue) -> Option<Seq<char>> {
    let from_content = match member(v, "content"@) {
        Some(JsonValue::Str(t)) => non_empty(t@),
        Some(JsonValue::Array(a)) => non_empty(items_text(a@)),
        _ => None,
    };
    match from_content {
        Some(t) => Some(t),
        None => match str_of(member(v, "text"@)) {
            Some(t) => non_empty(t),
            None => None,
        },
    }
}

pub open spec fn or_empty(t: Option<Seq<char>>) -> Seq<char> {
    match t {
        Some(x) => x,
        None => Seq::empty(),
    }
}

/// Text of one choice: from its `delta` where it has one, else from its `message`.
pub open spec fn choice_text(c: JsonValue) -> Seq<char> {
    match member(c, "delta"@) {
        Some(d) => or_empty(message_text(d)),
        None => match member(c, "message"@) {
            Some(m) => or_empty(message_text(m)),
            None => Seq::empty(),
        },
    }
}

pub open spec fn choices_text(cs: Seq<JsonValue>) -> Seq<char>
    decreases cs.len(),
{
    if cs.len() == 0 {
        Seq::empty()
    } else {
        choices_text(cs.drop_last()) + choice_text(cs.last())
    }
}

/// The delta of a parsed chat-completion payload.
pub open spec fn chat_delta(v: JsonValue) -> DeltaView {
    match member(v, "error"@) {
        Some(e) => Some(
            Err(
                api_error(
                    match str_of(member(e, "message"@)) {
                        Some(m) => m,
                        None => json_text(e),
                    },
                ),
            ),
        ),
        None => match member(v, "choices"@) {
            Some(JsonValue::Array(cs)) => match non_empty(choices_text(cs@)) {
                Some(t) => Some(Ok(t)),
                None => None,
            },
            _ => None,
        },
    }
}

fn key(s: &str) -> (r: Vec<char>)
    ensures
        r@ == s@,
{
    chars_of(s)
}

fn items_text_exec(items: &Vec<JsonValue>) -> (r: Vec<char>)
    ensures
        r@ == items_text(items@),
{
    let text_key = key("text");
    let mut out: Vec<char> = Vec::new();
    let mut i: usize = 0;
    while i < items.len()
        invariant
            i <= items@.len(),
            text_key@ == "text"@,
            out@ == items_text(items@.take(i as int)),
        decreases items@.len() - i,
    {
        let item = &items[i];
        let t = get_member(item, &text_key);
        match as_str_value(t) {
            Some(s) => append_str(&mut out, s.as_str()),
            None => match item {
                JsonValue::Str(s) => append_str(&mut out, s.as_str()),
                _ => {},
            },
        }
        proof {
            assert(items@.take(i + 1).drop_last() =~= items@.take(i as int));
        }
        i += 1;
    }
    proof {
        assert(items@.take(items@.len() as int) =~= items@);
    }
    out
}

pub open spec fn opt_chars(r: Option<String>) -> Option<Seq<char>> {
    match r {
        Some(s) => Some(s@),
        None => None,
    }
}

/// Text of a `delta` or `message` object of a chat-completion payload.
pub fn extract_openai_text(value: &JsonValue) -> (r: Option<String>)
    ensures
        opt_chars(r) == message_text(*value),
{
    let content_key = key("content");
    let text_key = key("text");
    match get_member(value, &content_key) {
        Some(JsonValue::Str(t)) => {
            if !t.as_str().is_empty() {
                return Some(t.clone());
            }
        },
        Some(JsonValue::Array(a)) => {
            let combined = items_text_exec(a);
            if combined.len() > 0 {
                return Some(string_of(&combined));
            }
        },
        _ => {},
    }
    let t = get_member(value, &text_key);
    match as_str_value(t) {
        Some(s) => {
            if !s.as_str().is_empty() {
                Some(s.clone())
            } else {
                None
            }
        },
        None => None,
    }
}

fn choice_text_exec(c: &JsonValue) -> (r: Vec<char>)
    ensures
        r@ == choice_text(*c),
{
    let delta_key = key("delta");
    let message_key = key("message");
    let picked = match get_member(c, &delta_key) {
        Some(d) => Some(d),
        None => get_member(c, &message_key),
    };
    match picked {
        Some(m) => match extract_openai_text(m) {
            Some(t) => chars_of(t.as_str()),
            None => Vec::new(),
        },
        None => Vec::new(),
    }
}

/// The delta of a parsed chat-completion payload: an `error` member gives a failure
/// with its `message` string (or its JSON text); otherwise the text of all choices, in
/// order, where there is any.
pub fn openai_value_delta(value: &JsonValue) -> (r: Option<Result<String, String>>)
    ensures
        delta_view(r) == chat_delta(*value),
{
    let error_key = key("error");
    let message_key = key("message");
    let choices_key = key("choices");
    if let Some(e) = get_member(value, &error_key) {
        let m = get_member(e, &message_key);
        let mut out = chars_of("API error: ");
        match as_str_value(m) {
            Some(s) => append_str(&mut out, s.as_str()),
            None => {
                let whole = json_to_string(e);
                append_str(&mut out, whole.as_str());
            },
        }
        return Some(Err(string_of(&out)));
    }
    let choices = match get_member(value, &choices_key) {
        Some(JsonValue::Array(cs)) => cs,
        _ => {
            return None;
        },
    };
    let mut collected: Vec<char> = Vec::new();
    let mut i: usize = 0;
    while i < choices.len()
        invariant
            i <= choices@.len(),
            collected@ == choices_text(choices@.take(i as int)),
        decreases choices@.len() - i,
    {
        let t = choice_text_exec(&choices[i]);
        append_chars(&mut collected, &t);
        proof {
            assert(choices@.take(i + 1).drop_last() =~= choices@.take(i as int));
        }
        i += 1;
    }
    proof {
        assert(choices@.take(choices@.len() as int) =~= choices@);
    }
    if collected.len() == 0 {
        None
    } else {
        Some(Ok(string_of(&collected)))
    }
}

// ---- structured-event dialect ----

/// The kinds of event of the structured dialect.
#[derive(Clone, Copy, Debug, PartialEq, Eq, Structural)]
pub enum EventKind {
    MessageStart,
    ContentBlockStart,
    ContentBlockDelta,
    ContentBlockStop,
    MessageDelta,
    MessageStop,
    Ping,
    Error,
}

pub open spec fn is_digit(c: char) -> bool {
    '0' <= c && c <= '9'
}

pub open spec fn digits_value(t: Seq<char>) -> nat
    decreases t.len(),
{
    if t.len() == 0 {
        0
    } else {
        digits_value(t.drop_last()) * 10 + ((t.last() as u32) - ('0' as u32)) as nat
    }
}

/// A number text that names an unsigned 32-bit integer.
pub open spec fn is_u32_text(t: Seq<char>) -> bool {
    &&& t.len() > 0
    &&& forall|i: int| 0 <= i < t.len() ==> is_digit(t[i])
    &&& digits_value(t) <= 0xffff_ffff
}

pub open spec fn capped(v: int) -> int {
    if v > 0xffff_ffff {
        0x1_0000_0000
    } else {
        v
    }
}

fn is_u32_number(t: &[char]) -> (r: bool)
    ensures
        r == is_u32_text(t@),
{
    if t.len() == 0 {
        return false;
    }
    let limit: u64 = 0xffff_ffff;
    let mut acc: u64 = 0;
    let mut i: usize = 0;
    while i < t.len()
        invariant
            i <= t@.len(),
            forall|j: int| 0 <= j < i ==> is_digit(t@[j]),
            limit == 0xffff_ffff,
            acc as int == capped(digits_value(t@.take(i as int)) as int),
        decreases t@.len() - i,
    {
        let c = t[i];
        if !('0' <= c && c <= '9') {
            return false;
        }
        let d: u64 = ((c as u32) - ('0' as u32)) as u64;
        let ghost prev = digits_value(t@.take(i as int));
        proof {
            assert(t@.take(i + 1).drop_last() =~= t@.take(i as int));
            assert(t@.take(i + 1).last() == c);
            assert(digits_value(t@.take(i + 1)) == prev * 10 + d);
            if prev > 0xffff_ffff {
                assert(prev * 10 + d > 0xffff_ffff) by (nonlinear_arith)
                    requires
                        prev > 0xffff_ffff,
                        d >= 0,
                ;
            }
        }
        if acc > limit {
            acc = limit + 1;
        } else {
            let v = acc * 10 + d;
            if v > limit {
                acc = limit + 1;
            } else {
                acc = v;
            }
        }
        i += 1;
    }
    proof {
        assert(t@.take(t@.len() as int) =~= t@);
    }
    acc <= limit
}

/// The `index` member is an unsigned 32-bit integer.
pub open spec fn has_index(v: JsonValue) -> bool {
    match member(v, "index"@) {
        Some(JsonValue::Number(t)) => is_u32_text(t@),
        _ => false,
    }
}

/// An optional string: absent, null, or a string.
pub open spec fn optional_text_ok(t: Option<JsonValue>) -> bool {
    match t {
        None => true,
        Some(JsonValue::Null) => true,
        Some(JsonValue::Str(_)) => true,
        _ => false,
    }
}

/// An object with a string `type` and an optional string `text`.
pub open spec fn is_typed_part(b: Option<JsonValue>) -> bool {
    match b {
        Some(x) => x is Object && str_of(member(x, "type"@)) is Some && optional_text_ok(
            member(x, "text"@),
        ),
        None => false,
    }
}

/// The kind of a structured-dialect payload, where it has the members its kind requires.
pub open spec fn event_kind(v: JsonValue) -> Option<EventKind> {
    match str_of(member(v, "type"@)) {
        Some(t) => if t == "message_start"@ {
            if member(v, "message"@) is Some {
                Some(EventKind::MessageStart)
            } else {
                None
            }
        } else if t == "content_block_start"@ {
            if has_index(v) && is_typed_part(member(v, "content_block"@)) {
                Some(EventKind::ContentBlockStart)
            } else {
                None
            }
        } else if t == "content_block_delta"@ {
            if has_index(v) && is_typed_part(member(v, "delta"@)) {
                Some(EventKind::ContentBlockDelta)
            } else {
                None
            }
        } else if t == "content_block_stop"@ {
            if has_index(v) {
                Some(EventKind::ContentBlockStop)
            } else {
                None
            }
        } else if t == "message_delta"@ {
            if member(v, "delta"@) is Some {
                Some(EventKind::MessageDelta)
            } else {
                None
            }
        } else if t == "message_stop"@ {
            Some(EventKind::MessageStop)
        } else if t == "ping"@ {
            Some(EventKind::Ping)
        } else if t == "error"@ {
            if member(v, "error"@) is Some {
                Some(EventKind::Error)
            } else {
                None
            }
        } else {
            None
        },
        None => None,
    }
}

pub open spec fn shape_failure(payload: Seq<char>) -> Seq<char> {
    "Failed to parse event: unexpected event shape ("@ + payload + ")"@
}

/// The delta of a parsed structured-dialect payload: a content-block delta gives its
/// text, an error event gives a failure with the error's JSON text, the other kinds
/// give nothing, and a payload of no known shape gives a failure that quotes it.
pub open spec fn structured_delta(v: JsonValue, payload: Seq<char>) -> DeltaView {
    match event_kind(v) {
        Some(EventKind::ContentBlockDelta) => match member(v, "delta"@) {
            Some(d) => match str_of(member(d, "text"@)) {
                Some(t) => Some(Ok(t)),
                None => None,
            },
            None => None,
        },
        Some(EventKind::Error) => match member(v, "error"@) {
            Some(e) => Some(Err(api_error(json_text(e)))),
            None => None,
        },
        Some(_) => None,
        None => Some(Err(shape_failure(payload))),
    }
}

fn has_index_exec(v: &JsonValue) -> (r: bool)
    ensures
        r == has_index(*v),
{
    let index_key = key("index");
    match get_member(v, &index_key) {
        Some(JsonValue::Number(t)) => {
            let cs = chars_of(t.as_str());
            is_u32_number(&cs)
        },
        _ => false,
    }
}

fn is_typed_part_exec(b: Option<&JsonValue>) -> (r: bool)
    ensures
        r == is_typed_part(
            match b {
                Some(x) => Some(*x),
                None => None,
            },
        ),
{
    let type_key = key("type");
    let text_key = key("text");
    match b {
        Some(x) => {
            if !matches!(x, JsonValue::Object(_)) {
                return false;
            }
            let ty = get_member(x, &type_key);
            if as_str_value(ty).is_none() {
                return false;
            }
            match get_member(x, &text_key) {
                None => true,
                Some(JsonValue::Null) => true,
                Some(JsonValue::Str(_)) => true,
                _ => false,
            }
        },
        None => false,
    }
}

/// Classifies a structured-dialect payload.
pub fn decode_stream_event(v: &JsonValue) -> (r: Option<EventKind>)
    ensures
        r == event_kind(*v),
{
    let type_key = key("type");
    let ty = get_member(v, &type_key);
    let t = match as_str_value(ty) {
        Some(s) => s.as_str(),
        None => {
            return None;
        },
    };
    if crate::text::str_is(t, "message_start") {
        let k = key("message");
        if get_member(v, &k).is_some() {
            Some(EventKind::MessageStart)
        } else {
            None
        }
    } else if crate::text::str_is(t, "content_block_start") {
        let k = key("content_block");
        if has_index_exec(v) && is_typed_part_exec(get_member(v, &k)) {
            Some(EventKind::ContentBlockStart)
        } else {
            None
        }
    } else if crate::text::str_is(t, "content_block_delta") {
        let k = key("delta");
        if has_index_exec(v) && is_typed_part_exec(get_member(v, &k)) {
            Some(EventKind::ContentBlockDelta)
        } else {
            None
        }
    } else if crate::text::str_is(t, "content_block_stop") {
        if has_index_exec(v) {
            Some(EventKind::ContentBlockStop)
        } else {
            None
        }
    } else if crate::text::str_is(t, "message_delta") {
        let k = key("delta");
        if get_member(v, &k).is_some() {
            Some(EventKind::MessageDelta)
        } else {
            None
        }
    } else if crate::text::str_is(t, "message_stop") {
        Some(EventKind::MessageStop)
    } else if crate::text::str_is(t, "ping") {
        Some(EventKind::Ping)
    } else if crate::text::str_is(t, "error") {
        let k = key("error");
        if get_member(v, &k).is_some() {
            Some(EventKind::Error)
        } else {
            None
        }
    } else {
        None
    }
}

/// The delta of a parsed structured-dialect payload; `payload` is its text, quoted
/// where the payload has no known shape.
pub fn anthropic_value_delta(v: &JsonValue, payload: &str) -> (r: Option<Result<String, String>>)
    ensures
        delta_view(r) == structured_delta(*v, payload@),
{
    match decode_stream_event(v) {
        Some(kind) => event_to_result(kind, v),
        None => {
            let mut out = chars_of("Failed to parse event: unexpected event shape (");
            append_str(&mut out, payload);
            append_str(&mut out, ")");
            Some(Err(string_of(&out)))
        },
    }
}

/// What an event of kind `kind` yields.
pub fn event_to_result(kind: EventKind, v: &JsonValue) -> (r: Option<Result<String, String>>)
    requires
        event_kind(*v) == Some(kind),
    ensures
        delta_view(r) == structured_delta(*v, Seq::empty()),
{
    match kind {
        EventKind::ContentBlockDelta => {
            let delta_key = key("delta");
            let text_key = key("text");
            match get_member(v, &delta_key) {
                Some(d) => {
                    let t = get_member(d, &text_key);
                    match as_str_value(t) {
                        Some(s) => Some(Ok(s.clone())),
                        None => None,
                    }
                },
                None => None,
            }
        },
        EventKind::Error => {
            let error_key = key("error");
            match get_member(v, &error_key) {
                Some(e) => {
                    let mut out = chars_of("API error: ");
                    let whole = json_to_string(e);
                    append_str(&mut out, whole.as_str());
                    Some(Err(string_of(&out)))
                },
                None => None,
            }
        },
        _ => None,
    }
}

// ---- frames ----

pub open spec fn parse_failure(prefix: Seq<char>, payload: Seq<char>) -> Seq<char> {
    prefix + json_error_text(payload) + " ("@ + payload + ")"@
}

/// The delta of a payload in dialect `d`; a payload that is no JSON gives a failure
/// with the parser's message and the payload.
pub open spec fn payload_delta(d: Dialect, payload: Seq<char>) -> DeltaView {
    match d {
        Dialect::StructuredEvents => match json_parse(payload) {
            Some(v) => structured_delta(v, payload),
            None => Some(Err(parse_failure("Failed to parse event: "@, payload))),
        },
        Dialect::ChatCompletion => match json_parse(payload) {
            Some(v) => chat_delta(v),
            None => Some(Err(parse_failure("Failed to parse OpenAI-compatible event: "@, payload))),
        },
    }
}

/// The delta of a frame: nothing for a `ping` event, an empty (after trimming) payload
/// or the `[DONE]` sentinel; otherwise the delta of the trimmed payload in the
/// provider's dialect.
pub open spec fn frame_delta(p: ProviderKind, f: FrameView) -> DeltaView {
    let payload = trim(f.1);
    if f.0 == Some("ping"@) || payload.len() == 0 || payload == "[DONE]"@ {
        None
    } else {
        payload_delta(dialect_of(p), payload)
    }
}

fn parse_failure_message(prefix: &str, err: &String, payload: &str) -> (r: String)
    ensures
        r@ == prefix@ + err@ + " ("@ + payload@ + ")"@,
{
    let mut out = chars_of(prefix);
    append_str(&mut out, err.as_str());
    append_str(&mut out, " (");
    append_str(&mut out, payload);
    append_str(&mut out, ")");
    string_of(&out)
}

/// The delta of a chat-completion payload.
pub fn parse_openai_payload(payload: &str) -> (r: Option<Result<String, String>>)
    ensures
        delta_view(r) == payload_delta(Dialect::ChatCompletion, payload@),
{
    match parse_json(payload) {
        Ok(v) => openai_value_delta(&v),
        Err(e) => Some(
            Err(parse_failure_message("Failed to parse OpenAI-compatible event: ", &e, payload)),
        ),
    }
}

/// The delta of a structured-dialect payload.
pub fn parse_anthropic_payload(payload: &str) -> (r: Option<Result<String, String>>)
    ensures
        delta_view(r) == payload_delta(Dialect::StructuredEvents, payload@),
{
    match parse_json(payload) {
        Ok(v) => anthropic_value_delta(&v, payload),
        Err(e) => Some(Err(parse_failure_message("Failed to parse event: ", &e, payload))),
    }
}

/// The delta, if any, that a decoded frame yields for `provider`.
pub fn interpret_sse_event(provider: ProviderKind, event: SseEvent) -> (r: Option<
    Result<String, String>,
>)
    ensures
        delta_view(r) == frame_delta(provider, event@),
{
    if let Some(name) = &event.event {
        if crate::text::str_is(name.as_str(), "ping") {
            return None;
        }
    }
    let data = chars_of(event.data.as_str());
    let trimmed = trim_chars(&data);
    let payload = string_of(&trimmed);
    if trimmed.len() == 0 || crate::text::str_is(payload.as_str(), "[DONE]") {
        return None;
    }
    match provider.dialect() {
        Dialect::StructuredEvents => parse_anthropic_payload(payload.as_str()),
        Dialect::ChatCompletion => parse_openai_payload(payload.as_str()),
    }
}

/// A heartbeat: a frame whose event is named `ping` yields nothing, whatever the
/// dialect and the data.
pub proof fn lemma_ping_yields_nothing(p: ProviderKind, f: FrameView)
    requires
        f.0 == Some("ping"@),
    ensures
        frame_delta(p, f) is None,
{
}

/// The termination sentinel: a frame whose trimmed data is `[DONE]` yields nothing.
pub proof fn lemma_done_yields_nothing(p: ProviderKind, f: FrameView)
    requires
        trim(f.1) == "[DONE]"@,
    ensures
        frame_delta(p, f) is None,
{
}

/// The payload of a frame that is neither a heartbeat, nor empty, nor the sentinel.
pub open spec fn live_payload(f: FrameView) -> bool {
    f.0 != Some("ping"@) && trim(f.1).len() > 0 && trim(f.1) != "[DONE]"@
}

/// An error payload in the chat-completion dialect is reported as a failure whose
/// message ends with the upstream `message` string, or with the error's JSON text
/// where it has none.
pub proof fn lemma_chat_error_reported(p: ProviderKind, f: FrameView, v: JsonValue, e: JsonValue)
    requires
        dialect_of(p) == Dialect::ChatCompletion,
        live_payload(f),
        json_parse(trim(f.1)) == Some(v),
        member(v, "error"@) == Some(e),
    ensures
        frame_delta(p, f) == Some(
            Err::<Seq<char>, Seq<char>>(
                api_error(
                    match str_of(member(e, "message"@)) {
                        Some(m) => m,
                        None => json_text(e),
                    },
                ),
            ),
        ),
{
}

/// An error event in the structured dialect is reported as a failure whose message
/// ends with the JSON text of the upstream error.
pub proof fn lemma_structured_error_reported(
    p: ProviderKind,
    f: FrameView,
    v: JsonValue,
    e: JsonValue,
)
    requires
        dialect_of(p) == Dialect::StructuredEvents,
        live_payload(f),
        json_parse(trim(f.1)) == Some(v),
        event_kind(v) == Some(EventKind::Error),
        member(v, "error"@) == Some(e),
    ensures
        frame_delta(p, f) == Some(Err::<Seq<char>, Seq<char>>(api_error(json_text(e)))),
{
}

} // verus!
