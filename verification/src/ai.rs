//! AI title generation: settings checks, the chat endpoint address, reading
//! the model's replies (whole or streamed), and extracting a title.
use crate::error::AppError;
use crate::json::{as_str, at, get, json_reading, json_value_of, member, member_of, opt_val, read_json, JsonValue};
use crate::text::{
    ascii_lower, blank, chars_of, concat3, contains_seq, ends_with, find_seq, has_suffix, is_blank,
    join, string_of, take_chars, to_ascii_lower, trim, trim_chars, trim_end_char,
    trim_end_char_index,
};
use vstd::prelude::*;

verus! {

/// One OpenAI-compatible chat endpoint.
pub struct AiEndpointConfig {
    pub base_url: String,
    pub api_key: String,
    pub model: String,
    /// Thinking mode: streamed replies with reasoning.
    pub thinking: bool,
    pub reasoning_effort: String,
}

/// AI settings: a switch and the two models.
pub struct AiConfig {
    pub enabled: bool,
    /// The image-recognition model.
    pub vision: AiEndpointConfig,
    /// The title-writing model.
    pub writer: AiEndpointConfig,
    pub ffmpeg_path: String,
}

/// Result of the recognition step: the game information read from a frame.
#[derive(Debug)]
pub struct AiAnalyzeResult {
    pub info: String,
    pub reasoning: String,
}

/// Result of the writing step: a title and the model's reasoning.
#[derive(Debug)]
pub struct AiTitleResult {
    pub title: String,
    pub reasoning: String,
}

pub open spec fn is_custom(e: AppError, msg: Seq<char>) -> bool {
    e matches AppError::Custom(m) && m@ == msg
}

/// The result is the user-facing error `msg`.
pub open spec fn fails_with<T>(r: Result<T, AppError>, msg: Seq<char>) -> bool {
    r matches Err(e) && is_custom(e, msg)
}

pub open spec fn ai_disabled_message() -> Seq<char> {
    "AI 标题生成尚未启用，请先在「全局设置 → AI 设置」中开启，并分别配置「图像识别」与「标题生成」两个模型"@
}

/// Fails unless AI features are switched on.
pub fn check_ai_enabled(ai: &AiConfig) -> (r: Result<(), AppError>)
    ensures
        r is Ok <==> ai.enabled,
        r matches Err(e) ==> is_custom(e, ai_disabled_message()),
{
    if !ai.enabled {
        return Err(
            AppError::Custom(
                "AI 标题生成尚未启用，请先在「全局设置 → AI 设置」中开启，并分别配置「图像识别」与「标题生成」两个模型".to_owned(),
            ),
        );
    }
    Ok(())
}

/// Fails on the first of base URL, API key and model name that is blank,
/// naming the role of the endpoint in the message.
pub fn check_endpoint(endpoint: &AiEndpointConfig, role: &str) -> (r: Result<(), AppError>)
    ensures
        r is Ok <==> !is_blank(endpoint.base_url@) && !is_blank(endpoint.api_key@) && !is_blank(
            endpoint.model@,
        ),
        is_blank(endpoint.base_url@) ==> fails_with(
            r,
            "尚未配置"@ + role@ + "模型的接口地址，请先在「全局设置 → AI 设置」中填写其 Base URL"@,
        ),
        !is_blank(endpoint.base_url@) && is_blank(endpoint.api_key@) ==> fails_with(
            r,
            "尚未配置"@ + role@ + "模型的接口密钥，请先在「全局设置 → AI 设置」中填写其 API Key"@,
        ),
        !is_blank(endpoint.base_url@) && !is_blank(endpoint.api_key@) && is_blank(
            endpoint.model@,
        ) ==> fails_with(
            r,
            "尚未配置"@ + role@ + "模型的名称，请先在「全局设置 → AI 设置」中填写其模型名"@,
        ),
{
    if blank(endpoint.base_url.as_str()) {
        return Err(
            AppError::Custom(
                concat3(
                    "尚未配置",
                    role,
                    "模型的接口地址，请先在「全局设置 → AI 设置」中填写其 Base URL",
                ),
            ),
        );
    }
    if blank(endpoint.api_key.as_str()) {
        return Err(
            AppError::Custom(
                concat3(
                    "尚未配置",
                    role,
                    "模型的接口密钥，请先在「全局设置 → AI 设置」中填写其 API Key",
                ),
            ),
        );
    }
    if blank(endpoint.model.as_str()) {
        return Err(
            AppError::Custom(
                concat3("尚未配置", role, "模型的名称，请先在「全局设置 → AI 设置」中填写其模型名"),
            ),
        );
    }
    Ok(())
}

/// The chat/completions address for a configured base URL: trimmed, without
/// trailing slashes; kept as is when it already ends with
/// `/chat/completions`; `https://` added when no scheme is given.
pub open spec fn chat_endpoint(base_url: Seq<char>) -> Seq<char> {
    let base = trim_end_char(trim(base_url), '/');
    if base.len() == 0 {
        Seq::<char>::empty()
    } else if ends_with(base, "/chat/completions"@) {
        base
    } else if !contains_seq(base, "://"@) {
        "https://"@ + base + "/chat/completions"@
    } else {
        base + "/chat/completions"@
    }
}

pub fn build_chat_endpoint(base_url: &str) -> (r: String)
    ensures
        r@ == chat_endpoint(base_url@),
{
    let raw = chars_of(base_url);
    let t = trim_chars(raw.as_slice());
    let j = trim_end_char_index(t.as_slice(), '/');
    let base = crate::text::copy_range(t.as_slice(), 0, j);
    if base.len() == 0 {
        return String::new();
    }
    let suffix = chars_of("/chat/completions");
    if has_suffix(base.as_slice(), suffix.as_slice()) {
        return string_of(base.as_slice());
    }
    let scheme = chars_of("://");
    let b = string_of(base.as_slice());
    if find_seq(base.as_slice(), scheme.as_slice()).is_none() {
        concat3("https://", b.as_str(), "/chat/completions")
    } else {
        crate::text::concat2(b.as_str(), "/chat/completions")
    }
}

/// The reasoning effort sent to the endpoint: `high` or `max` when so
/// configured (ignoring case and surrounding whitespace), else `low`.
pub open spec fn reasoning_effort(raw: Seq<char>) -> Seq<char> {
    let v = ascii_lower(trim(raw));
    if v == "high"@ {
        "high"@
    } else if v == "max"@ {
        "max"@
    } else {
        "low"@
    }
}

pub fn normalize_reasoning_effort(raw: &str) -> (r: &'static str)
    ensures
        r@ == reasoning_effort(raw@),
{
    let v = chars_of(raw);
    let t = trim_chars(v.as_slice());
    let lower = to_ascii_lower(t.as_slice());
    let high = chars_of("high");
    let max = chars_of("max");
    if crate::text::chars_eq(lower.as_slice(), high.as_slice()) {
        "high"
    } else if crate::text::chars_eq(lower.as_slice(), max.as_slice()) {
        "max"
    } else {
        "low"
    }
}

/// Position of the second newline of the first blank line (`"\n\n"`) in a
/// stream buffer.
/// Two newlines at `k` and `k + 1`.
pub open spec fn newline_pair_at(buf: Seq<u8>, k: int) -> bool {
    buf[k] == 10 && buf[k + 1] == 10
}

pub fn find_sse_delimiter(buf: &[u8]) -> (r: Option<usize>)
    ensures
        match r {
            Some(p) => 1 <= p < buf@.len() && newline_pair_at(buf@, p - 1) && forall|k: int|
                0 <= k < p - 1 ==> !#[trigger] newline_pair_at(buf@, k),
            None => forall|k: int| 0 <= k < buf@.len() - 1 ==> !#[trigger] newline_pair_at(buf@, k),
        },
{
    let n = buf.len();
    let mut i: usize = 0;
    while n > 0 && i < n - 1
        invariant
            n == buf@.len(),
            forall|k: int| 0 <= k < i ==> !#[trigger] newline_pair_at(buf@, k),
        decreases n - i,
    {
        if buf[i] == 10 && buf[i + 1] == 10 {
            return Some(i + 1);
        }
        i = i + 1;
    }
    None
}

pub open spec fn only_reasoning_message(brief: Seq<char>) -> Seq<char> {
    "AI 只返回了思考内容（reasoning）而没有正文，通常是接口侧的输出长度上限被耗尽。可在「全局设置 → AI 设置」中关闭对应模型的思考模式或放宽输出限制后重试。响应片段: "@
        + brief
}

pub open spec fn empty_content_message(brief: Seq<char>) -> Seq<char> {
    "AI 返回的 content 为空：可能是该模型不支持图片输入（图像识别步骤）、响应结构不兼容或输出被截断。响应片段: "@
        + brief
}

/// Fails when the reply has no text, distinguishing a reply that has only
/// reasoning; the message quotes the first 800 characters of the reply.
pub fn check_content_not_empty(
    content_text: &str,
    reasoning_text: Option<&str>,
    raw_text: &str,
) -> (r: Result<(), AppError>)
    ensures
        r is Ok <==> !is_blank(content_text@),
        r matches Err(e) ==> {
            let brief = take_chars(raw_text@, 800);
            if reasoning_text matches Some(t) && !is_blank(t@) {
                is_custom(e, only_reasoning_message(brief))
            } else {
                is_custom(e, empty_content_message(brief))
            }
        },
{
    if !blank(content_text) {
        return Ok(());
    }
    let raw = chars_of(raw_text);
    let brief = string_of(crate::text::prefix_chars(raw.as_slice(), 800).as_slice());
    let has_reasoning = match reasoning_text {
        Some(t) => !blank(t),
        None => false,
    };
    if has_reasoning {
        return Err(
            AppError::Custom(
                crate::text::concat2(
                    "AI 只返回了思考内容（reasoning）而没有正文，通常是接口侧的输出长度上限被耗尽。可在「全局设置 → AI 设置」中关闭对应模型的思考模式或放宽输出限制后重试。响应片段: ",
                    brief.as_str(),
                ),
            ),
        );
    }
    Err(
        AppError::Custom(
            crate::text::concat2(
                "AI 返回的 content 为空：可能是该模型不支持图片输入（图像识别步骤）、响应结构不兼容或输出被截断。响应片段: ",
                brief.as_str(),
            ),
        ),
    )
}

} // verus!

verus! {

/// A JSON pointer step with token `0`: the first element of an array, or
/// the member named `"0"` of an object.
pub open spec fn step0(v: Option<JsonValue>) -> Option<JsonValue> {
    match v {
        Some(JsonValue::Array(a)) => if a@.len() > 0 {
            Some(a@[0])
        } else {
            None
        },
        Some(JsonValue::Object(m)) => member(m@, "0"@),
        _ => None,
    }
}

/// `/choices/0` of a reply.
pub open spec fn first_choice(parsed: JsonValue) -> Option<JsonValue> {
    step0(get(Some(parsed), "choices"@))
}

/// The text of one part of a structured content array: its `text`, or when
/// it has no `text` member its `content`, if that is a non-blank string.
pub open spec fn part_text(item: JsonValue) -> Option<Seq<char>> {
    let t = get(Some(item), "text"@);
    let u = if t is Some {
        t
    } else {
        get(Some(item), "content"@)
    };
    match as_str(u) {
        Some(s) => if !is_blank(s) {
            Some(s)
        } else {
            None
        },
        None => None,
    }
}

/// The texts of the parts that have one, in order.
pub open spec fn part_texts(items: Seq<JsonValue>) -> Seq<Seq<char>>
    decreases items.len(),
{
    if items.len() == 0 {
        Seq::<Seq<char>>::empty()
    } else {
        let rest = part_texts(items.drop_last());
        match part_text(items.last()) {
            Some(s) => rest.push(s),
            None => rest,
        }
    }
}

/// Text of a content value: a non-blank string, or the texts of an array of
/// parts joined by newlines (when there is at least one).
pub open spec fn text_of(v: Option<JsonValue>) -> Option<Seq<char>> {
    match v {
        Some(JsonValue::Str(s)) => if !is_blank(s@) {
            Some(s@)
        } else {
            None
        },
        Some(JsonValue::Array(items)) => {
            let parts = part_texts(items@);
            if parts.len() == 0 {
                None
            } else {
                Some(join(parts, "\n"@))
            }
        },
        _ => None,
    }
}

/// The answer text of a reply: `/choices/0/message/content`, else
/// `/choices/0/text`, else `/output_text`, else `/result`, else empty.
pub open spec fn reply_content(parsed: JsonValue) -> Seq<char> {
    let c = first_choice(parsed);
    let a = text_of(get(get(c, "message"@), "content"@));
    let b = text_of(get(c, "text"@));
    let d = text_of(get(Some(parsed), "output_text"@));
    let e = text_of(get(Some(parsed), "result"@));
    if a is Some {
        a->0
    } else if b is Some {
        b->0
    } else if d is Some {
        d->0
    } else if e is Some {
        e->0
    } else {
        Seq::<char>::empty()
    }
}

/// The reasoning of a reply: `/choices/0/message/reasoning_content`.
pub open spec fn reply_reasoning(parsed: JsonValue) -> Option<Seq<char>> {
    text_of(get(get(first_choice(parsed), "message"@), "reasoning_content"@))
}

fn step0_exec(v: Option<&JsonValue>) -> (r: Option<&JsonValue>)
    ensures
        r matches Some(x) ==> step0(opt_val(v)) == Some(*x),
        r is None ==> step0(opt_val(v)) is None,
{
    match v {
        Some(JsonValue::Array(a)) => if a.len() > 0 {
            Some(&a[0])
        } else {
            None
        },
        Some(x) => crate::json::get_member(x, "0"),
        None => None,
    }
}

/// The value behind an optional reference.
fn part_text_exec(item: &JsonValue) -> (r: Option<Vec<char>>)
    ensures
        match r {
            Some(s) => part_text(*item) == Some(s@),
            None => part_text(*item) is None,
        },
{
    let t = crate::json::get_member(item, "text");
    let u = if t.is_some() {
        t
    } else {
        crate::json::get_member(item, "content")
    };
    match u {
        Some(JsonValue::Str(s)) => if !blank(s.as_str()) {
            Some(chars_of(s.as_str()))
        } else {
            None
        },
        _ => None,
    }
}

fn text_of_exec(v: Option<&JsonValue>) -> (r: Option<String>)
    ensures
        match r {
            Some(s) => text_of(opt_val(v)) == Some(s@),
            None => text_of(opt_val(v)) is None,
        },
{
    match v {
        Some(JsonValue::Str(s)) => if !blank(s.as_str()) {
            Some(s.clone())
        } else {
            None
        },
        Some(JsonValue::Array(items)) => {
            let mut parts: Vec<Vec<char>> = Vec::new();
            let mut i: usize = 0;
            while i < items.len()
                invariant
                    i <= items@.len(),
                    parts@.map_values(|l: Vec<char>| l@) == part_texts(
                        items@.subrange(0, i as int),
                    ),
                decreases items@.len() - i,
            {
                assert(items@.subrange(0, i + 1).drop_last() =~= items@.subrange(0, i as int));
                let ghost before = parts@.map_values(|l: Vec<char>| l@);
                match part_text_exec(&items[i]) {
                    Some(s) => {
                        parts.push(s);
                        assert(parts@.map_values(|l: Vec<char>| l@) =~= before.push(
                            part_text(items@[i as int])->0,
                        ));
                    },
                    None => {},
                }
                i = i + 1;
            }
            assert(items@.subrange(0, items@.len() as int) =~= items@);
            if parts.len() == 0 {
                None
            } else {
                let nl = chars_of("\n");
                let joined = crate::text::join_parts(&parts, nl.as_slice());
                Some(string_of(joined.as_slice()))
            }
        },
        _ => None,
    }
}

/// The answer text and the reasoning of a complete reply.
pub fn extract_message_content(parsed: &JsonValue) -> (r: (String, Option<String>))
    ensures
        r.0@ == reply_content(*parsed),
        match r.1 {
            Some(s) => reply_reasoning(*parsed) == Some(s@),
            None => reply_reasoning(*parsed) is None,
        },
{
    let choices = crate::json::get_member(parsed, "choices");
    let c = step0_exec(choices);
    assert(opt_val(choices) == get(Some(*parsed), "choices"@));
    let message = member_of(c, "message");
    let content = match text_of_exec(member_of(message, "content")) {
        Some(s) => s,
        None => match text_of_exec(member_of(c, "text")) {
            Some(s) => s,
            None => match text_of_exec(crate::json::get_member(parsed, "output_text")) {
                Some(s) => s,
                None => match text_of_exec(crate::json::get_member(parsed, "result")) {
                    Some(s) => s,
                    None => String::new(),
                },
            },
        },
    };
    let reasoning = text_of_exec(member_of(message, "reasoning_content"));
    (content, reasoning)
}

/// The first of two values that is a string.
pub open spec fn first_str(a: Option<JsonValue>, b: Option<JsonValue>) -> Seq<char> {
    if as_str(a) is Some {
        as_str(a)->0
    } else if as_str(b) is Some {
        as_str(b)->0
    } else {
        Seq::<char>::empty()
    }
}

/// The increments carried by one streamed event: reasoning from
/// `/choices/0/delta/reasoning_content` (else the same under `message`), and
/// content from `/choices/0/delta/content` (else under `message`).
pub open spec fn stream_deltas(parsed: JsonValue) -> (Seq<char>, Seq<char>) {
    let c = first_choice(parsed);
    let d = get(c, "delta"@);
    let m = get(c, "message"@);
    (
        first_str(get(d, "reasoning_content"@), get(m, "reasoning_content"@)),
        first_str(get(d, "content"@), get(m, "content"@)),
    )
}

/// Where a streamed event's increments come from, for an event whose first
/// choice (`/choices/0`) is `c`: the reasoning is the string at
/// `delta.reasoning_content`, else at `message.reasoning_content`, else
/// nothing; the content likewise from `delta.content`, else
/// `message.content` (a whole message frame carries its text there).
pub proof fn law_stream_delta_sources(v: JsonValue, c: JsonValue)
    requires
        at(get(Some(v), "choices"@), 0) == Some(c),
    ensures
        ({
            let d = get(Some(c), "delta"@);
            let m = get(Some(c), "message"@);
            let (reasoning, content) = stream_deltas(v);
            &&& match as_str(get(d, "content"@)) {
                Some(s) => content == s,
                None => match as_str(get(m, "content"@)) {
                    Some(s) => content == s,
                    None => content.len() == 0,
                },
            }
            &&& match as_str(get(d, "reasoning_content"@)) {
                Some(s) => reasoning == s,
                None => match as_str(get(m, "reasoning_content"@)) {
                    Some(s) => reasoning == s,
                    None => reasoning.len() == 0,
                },
            }
        }),
{
    assert(first_choice(v) == Some(c));
}

fn first_str_exec(a: Option<&JsonValue>, b: Option<&JsonValue>) -> (r: String)
    ensures
        r@ == first_str(opt_val(a), opt_val(b)),
{
    match a {
        Some(JsonValue::Str(s)) => s.clone(),
        _ => match b {
            Some(JsonValue::Str(s)) => s.clone(),
            _ => String::new(),
        },
    }
}

/// Reasoning and content increments of a streamed event.
pub fn extract_stream_deltas(parsed: &JsonValue) -> (r: (String, String))
    ensures
        (r.0@, r.1@) == stream_deltas(*parsed),
{
    let choices = crate::json::get_member(parsed, "choices");
    let c = step0_exec(choices);
    let d = member_of(c, "delta");
    let m = member_of(c, "message");
    let reasoning = first_str_exec(member_of(d, "reasoning_content"), member_of(m, "reasoning_content"));
    let content = first_str_exec(member_of(d, "content"), member_of(m, "content"));
    (reasoning, content)
}

} // verus!

verus! {

/// Text of UTF-8 bytes with invalid sequences replaced, as
/// `String::from_utf8_lossy` decodes them.
pub uninterp spec fn utf8_lossy(bytes: Seq<u8>) -> Seq<char>;

/// `String::from_utf8_lossy`: the text is exactly the lossy decoding of the
/// bytes (named, not spelled out here).
#[verifier::external_body]
fn decode_lossy(bytes: &[u8]) -> (r: String)
    ensures
        r@ == utf8_lossy(bytes@),
{
    String::from_utf8_lossy(bytes).into_owned()
}

/// Removes the first complete event (up to and including its blank line)
/// from a stream buffer.
pub fn take_sse_event(buffer: &mut Vec<u8>) -> (r: Option<Vec<u8>>)
    ensures
        match r {
            Some(ev) => {
                &&& 2 <= ev@.len() <= old(buffer)@.len()
                &&& newline_pair_at(old(buffer)@, ev@.len() - 2)
                &&& forall|k: int|
                    0 <= k < ev@.len() - 2 ==> !#[trigger] newline_pair_at(old(buffer)@, k)
                &&& ev@ == old(buffer)@.subrange(0, ev@.len() as int)
                &&& final(buffer)@ == old(buffer)@.subrange(
                    ev@.len() as int,
                    old(buffer)@.len() as int,
                )
            },
            None => final(buffer)@ == old(buffer)@ && forall|k: int|
                0 <= k < old(buffer)@.len() - 1 ==> !#[trigger] newline_pair_at(old(buffer)@, k),
        },
{
    match find_sse_delimiter(buffer.as_slice()) {
        Some(end) => {
            let mut ev: Vec<u8> = Vec::new();
            let mut rest: Vec<u8> = Vec::new();
            let mut i: usize = 0;
            while i < buffer.len()
                invariant
                    i <= buffer@.len(),
                    end < buffer@.len(),
                    i <= end + 1 ==> ev@ == buffer@.subrange(0, i as int) && rest@.len() == 0,
                    i > end + 1 ==> ev@ == buffer@.subrange(0, end + 1) && rest@ == buffer@.subrange(
                        end + 1,
                        i as int,
                    ),
                decreases buffer@.len() - i,
            {
                if i <= end {
                    ev.push(buffer[i]);
                } else {
                    rest.push(buffer[i]);
                }
                i = i + 1;
                assert(i <= end + 1 ==> ev@ =~= buffer@.subrange(0, i as int));
                assert(i > end + 1 ==> rest@ =~= buffer@.subrange(end + 1, i as int));
            }
            assert(i > end + 1 || rest@ =~= buffer@.subrange(end + 1, i as int));
            *buffer = rest;
            Some(ev)
        },
        None => None,
    }
}

/// What one stream event carries.
#[derive(Debug)]
pub enum SseEvent {
    /// No `data:` line.
    Empty,
    /// The end marker `[DONE]`.
    Done,
    /// The data lines, joined by newlines.
    Data(String),
}

/// The payloads of the `data:` lines (after the prefix, trimmed).
pub open spec fn data_parts(ls: Seq<Seq<char>>) -> Seq<Seq<char>>
    decreases ls.len(),
{
    if ls.len() == 0 {
        Seq::<Seq<char>>::empty()
    } else {
        let rest = data_parts(ls.drop_last());
        let l = crate::text::strip_cr(ls.last());
        if crate::text::starts_with(l, "data:"@) {
            rest.push(trim(l.subrange(5, l.len() as int)))
        } else {
            rest
        }
    }
}

/// `r` is what the event text `text` carries: its `data:` payloads, joined
/// by newlines, unless there are none or they are the end marker.
pub open spec fn event_of(r: SseEvent, text: Seq<char>) -> bool {
    let parts = data_parts(crate::text::lines(text));
    match r {
        SseEvent::Empty => parts.len() == 0,
        SseEvent::Done => parts.len() > 0 && trim(join(parts, "\n"@)) == "[DONE]"@,
        SseEvent::Data(s) => parts.len() > 0 && trim(join(parts, "\n"@)) != "[DONE]"@ && s@ == join(
            parts,
            "\n"@,
        ),
    }
}

/// Reads one raw stream event: its bytes decoded as UTF-8 (invalid
/// sequences replaced), then its `data:` lines (see `event_of`).
pub fn read_sse_event(raw: &[u8]) -> (r: SseEvent)
    ensures
        event_of(r, utf8_lossy(raw@)),
{
    let text = decode_lossy(raw);
    sse_event_data(text.as_str())
}

/// Reads the `data:` lines of one event.
pub fn sse_event_data(text: &str) -> (r: SseEvent)
    ensures
        event_of(r, text@),
{
    let v = chars_of(text);
    let ls = crate::text::split_lines(v.as_slice());
    let prefix = chars_of("data:");
    let mut parts: Vec<Vec<char>> = Vec::new();
    let mut i: usize = 0;
    let ghost lsv = ls@.map_values(|l: Vec<char>| l@);
    while i < ls.len()
        invariant
            i <= ls@.len(),
            lsv == ls@.map_values(|l: Vec<char>| l@),
            prefix@ == "data:"@,
            parts@.map_values(|l: Vec<char>| l@) == data_parts(lsv.subrange(0, i as int)),
        decreases ls@.len() - i,
    {
        assert(lsv.subrange(0, i + 1).drop_last() =~= lsv.subrange(0, i as int));
        let line = &ls[i];
        let n = line.len();
        let l = if n > 0 && line[n - 1] == '\r' {
            crate::text::copy_range(line.as_slice(), 0, n - 1)
        } else {
            crate::text::copy_range(line.as_slice(), 0, n)
        };
        assert(line@.subrange(0, n as int) =~= line@);
        assert(n > 0 ==> line@.drop_last() =~= line@.subrange(0, n - 1));
        assert(l@ == crate::text::strip_cr(lsv[i as int]));
        let ghost before = parts@.map_values(|l: Vec<char>| l@);
        if crate::text::has_prefix(l.as_slice(), prefix.as_slice()) {
            proof {
                reveal_strlit("data:");
            }
            let payload = crate::text::copy_range(l.as_slice(), 5, l.len());
            let t = trim_chars(payload.as_slice());
            parts.push(t);
            assert(parts@.map_values(|l: Vec<char>| l@) =~= before.push(
                trim(l@.subrange(5, l@.len() as int)),
            ));
        }
        i = i + 1;
    }
    assert(lsv.subrange(0, lsv.len() as int) =~= lsv);
    if parts.len() == 0 {
        return SseEvent::Empty;
    }
    let nl = chars_of("\n");
    let joined = crate::text::join_parts(&parts, nl.as_slice());
    let t = trim_chars(joined.as_slice());
    let done = chars_of("[DONE]");
    if crate::text::chars_eq(t.as_slice(), done.as_slice()) {
        SseEvent::Done
    } else {
        SseEvent::Data(string_of(joined.as_slice()))
    }
}

/// Adds the increments of a streamed event to the running reasoning and
/// content; returns the reasoning increment (empty when there is none).
pub fn apply_stream_deltas(parsed: &JsonValue, reasoning: &mut String, content: &mut String) -> (r:
    String)
    ensures
        r@ == stream_deltas(*parsed).0,
        final(reasoning)@ == old(reasoning)@ + stream_deltas(*parsed).0,
        final(content)@ == old(content)@ + stream_deltas(*parsed).1,
{
    let (reasoning_delta, content_delta) = extract_stream_deltas(parsed);
    if reasoning_delta.unicode_len() > 0 {
        *reasoning = crate::text::concat2(reasoning.as_str(), reasoning_delta.as_str());
    } else {
        assert(old(reasoning)@ + reasoning_delta@ =~= old(reasoning)@);
    }
    if content_delta.unicode_len() > 0 {
        *content = crate::text::concat2(content.as_str(), content_delta.as_str());
    } else {
        assert(old(content)@ + content_delta@ =~= old(content)@);
    }
    reasoning_delta
}

pub open spec fn no_stream_content_message() -> Seq<char> {
    "AI 流式返回异常：未收到任何内容。请检查模型是否兼容 OpenAI chat/completions 格式（图像识别步骤还要求支持图片输入）与流式输出，或在「全局设置 → AI 设置」中关闭对应模型的思考模式后重试。"@
}

pub open spec fn stream_only_reasoning_message(brief: Seq<char>) -> Seq<char> {
    "AI 只返回了思考内容（reasoning）而没有正文，通常是接口侧的输出长度上限被耗尽。可在接口侧关闭思考模式或放宽输出限制后重试。思考片段: "@
        + brief
}

/// Reasoning and content of a finished stream, with the whole body read
/// as one JSON reply when the stream carried neither (some gateways ignore
/// streaming).
pub open spec fn stream_texts(reasoning: Seq<char>, content: Seq<char>, fallback: Option<JsonValue>) -> (
    Seq<char>,
    Seq<char>,
) {
    if is_blank(reasoning) && is_blank(content) && fallback is Some && !is_blank(
        reply_content(fallback->0),
    ) {
        (
            match reply_reasoning(fallback->0) {
                Some(r) => r,
                None => Seq::<char>::empty(),
            },
            reply_content(fallback->0),
        )
    } else {
        (reasoning, content)
    }
}

/// `r` is the outcome of a streamed reply with the given reasoning and
/// content (and the whole body's JSON reading `fallback`): `(content,
/// reasoning)` trimmed, or an error when there is no content.
pub open spec fn stream_outcome(r: Result<(String, String), AppError>, reasoning: Seq<char>, content: Seq<char>, fallback: Option<JsonValue>) -> bool {
    let (rs, cs) = stream_texts(reasoning, content, fallback);
    &&& r is Ok <==> trim(cs).len() > 0
    &&& r matches Ok(p) ==> p.0@ == trim(cs) && p.1@ == trim(rs)
    &&& trim(cs).len() == 0 && trim(rs).len() == 0 ==> fails_with(r, no_stream_content_message())
    &&& trim(cs).len() == 0 && trim(rs).len() > 0 ==> fails_with(
        r,
        stream_only_reasoning_message(take_chars(trim(rs), 300)),
    )
}

/// The outcome of a streamed reply: `(content, reasoning)` trimmed, or an
/// error when there is no content. `fallback` is the whole body read as
/// JSON, when it is not blank and reads as JSON.
pub fn finish_stream(reasoning: &str, content: &str, fallback: Option<&JsonValue>) -> (r: Result<
    (String, String),
    AppError,
>)
    ensures
        stream_outcome(r, reasoning@, content@, opt_val(fallback)),
{
    let mut rs = reasoning.to_owned();
    let mut cs = content.to_owned();
    if blank(reasoning) && blank(content) {
        match fallback {
            Some(parsed) => {
                let (c, rr) = extract_message_content(parsed);
                if !blank(c.as_str()) {
                    cs = c;
                    rs = match rr {
                        Some(x) => x,
                        None => String::new(),
                    };
                }
            },
            None => {},
        }
    }
    let reasoning_out = crate::text::trimmed(rs.as_str());
    let content_out = crate::text::trimmed(cs.as_str());
    if content_out.unicode_len() == 0 {
        if reasoning_out.unicode_len() == 0 {
            return Err(
                AppError::Custom(
                    "AI 流式返回异常：未收到任何内容。请检查模型是否兼容 OpenAI chat/completions 格式（图像识别步骤还要求支持图片输入）与流式输出，或在「全局设置 → AI 设置」中关闭对应模型的思考模式后重试。".to_owned(),
                ),
            );
        }
        let rv = chars_of(reasoning_out.as_str());
        let brief = string_of(crate::text::prefix_chars(rv.as_slice(), 300).as_slice());
        return Err(
            AppError::Custom(
                crate::text::concat2(
                    "AI 只返回了思考内容（reasoning）而没有正文，通常是接口侧的输出长度上限被耗尽。可在接口侧关闭思考模式或放宽输出限制后重试。思考片段: ",
                    brief.as_str(),
                ),
            ),
        );
    }
    Ok((content_out, reasoning_out))
}

/// `r` is the outcome of a complete reply that reads as `parsed`:
/// `(content, reasoning)`, or an error quoting the first 800 characters of
/// the reply when it has no content.
pub open spec fn once_outcome(r: Result<(String, String), AppError>, parsed: JsonValue, raw_text: Seq<char>) -> bool {
    &&& r is Ok <==> !is_blank(reply_content(parsed))
    &&& r matches Ok(p) ==> p.0@ == reply_content(parsed) && p.1@ == match reply_reasoning(parsed) {
        Some(s) => s,
        None => Seq::<char>::empty(),
    }
    &&& r is Err ==> {
        let brief = take_chars(raw_text, 800);
        if reply_reasoning(parsed) matches Some(t) && !is_blank(t) {
            fails_with(r, only_reasoning_message(brief))
        } else {
            fails_with(r, empty_content_message(brief))
        }
    }
}

pub open spec fn http_error_message(status: Seq<char>, text: Seq<char>) -> Seq<char> {
    "AI 接口返回错误 (HTTP "@ + status + "): "@ + take_chars(text, 500)
}

pub open spec fn parse_failed_message(err: Seq<char>, text: Seq<char>) -> Seq<char> {
    "解析 AI 响应失败: "@ + err + "; 原始响应: "@ + take_chars(text, 500)
}

/// The error for a reply whose status (`status`, as shown) is no success:
/// it quotes the first 500 characters of the body `text`.
pub fn http_failure(status: &str, text: &str) -> (e: AppError)
    ensures
        is_custom(e, http_error_message(status@, text@)),
{
    proof {
        reveal_strlit("AI 接口返回错误 (HTTP ");
        reveal_strlit("): ");
    }
    let v = chars_of(text);
    let brief = string_of(crate::text::prefix_chars(v.as_slice(), 500).as_slice());
    let head = crate::text::concat3("AI 接口返回错误 (HTTP ", status, "): ");
    AppError::Custom(crate::text::concat2(head.as_str(), brief.as_str()))
}

/// A complete (non-streamed) reply with status `status` (as shown), whether
/// that is a success, and the body `text`: a failed status is an error
/// quoting the body (see `http_failure`); a body that is no JSON is an
/// error naming the parse failure and quoting the body; else the reply's
/// content and reasoning (see `finish_once`).
pub fn once_reply(status: &str, success: bool, text: &str) -> (r: Result<(String, String), AppError>)
    ensures
        !success ==> fails_with(r, http_error_message(status@, text@)),
        success ==> match json_reading(text@) {
            Err(e) => fails_with(r, parse_failed_message(e, text@)),
            Ok(v) => once_outcome(r, v, text@),
        },
{
    if !success {
        return Err(http_failure(status, text));
    }
    match read_json(text) {
        Ok(v) => finish_once(&v, text),
        Err(e) => {
            proof {
                reveal_strlit("解析 AI 响应失败: ");
                reveal_strlit("; 原始响应: ");
            }
            let v = chars_of(text);
            let brief = string_of(crate::text::prefix_chars(v.as_slice(), 500).as_slice());
            let head = crate::text::concat3("解析 AI 响应失败: ", e.as_str(), "; 原始响应: ");
            Err(AppError::Custom(crate::text::concat2(head.as_str(), brief.as_str())))
        },
    }
}

/// The outcome of a complete (non-streamed) reply: `(content, reasoning)`,
/// or the error of `check_content_not_empty`.
pub fn finish_once(parsed: &JsonValue, raw_text: &str) -> (r: Result<(String, String), AppError>)
    ensures
        once_outcome(r, *parsed, raw_text@),
{
    let (content_text, reasoning_text) = extract_message_content(parsed);
    let check = match &reasoning_text {
        Some(t) => check_content_not_empty(content_text.as_str(), Some(t.as_str()), raw_text),
        None => check_content_not_empty(content_text.as_str(), None, raw_text),
    };
    match check {
        Ok(()) => Ok(
            (
                content_text,
                match reasoning_text {
                    Some(t) => t,
                    None => String::new(),
                },
            ),
        ),
        Err(e) => Err(e),
    }
}

} // verus!

verus! {

/// The trimmed video path, or an error when it is blank. (The caller also
/// checks that the path is a file, with the same message.)
pub fn prepare_video_path(video_path: &str) -> (r: Result<String, AppError>)
    ensures
        r is Ok <==> !is_blank(video_path@),
        r matches Ok(p) ==> p@ == trim(video_path@),
        r is Err ==> fails_with(r, "视频文件不存在或路径无效"@),
{
    let p = crate::text::trimmed(video_path);
    if p.unicode_len() == 0 {
        return Err(AppError::Custom("视频文件不存在或路径无效".to_owned()));
    }
    Ok(p)
}

/// The trimmed recognition prompt, or an error when it is blank.
pub fn prepare_vision_prompt(prompt: &str) -> (r: Result<String, AppError>)
    ensures
        r is Ok <==> !is_blank(prompt@),
        r matches Ok(p) ==> p@ == trim(prompt@),
        r is Err ==> fails_with(
            r,
            "图像识别提示词为空：请升级前端版本后重试（提示词由前端传入，Rust 侧不内置）。"@,
        ),
{
    let p = crate::text::trimmed(prompt);
    if p.unicode_len() == 0 {
        return Err(
            AppError::Custom(
                "图像识别提示词为空：请升级前端版本后重试（提示词由前端传入，Rust 侧不内置）。".to_owned(),
            ),
        );
    }
    Ok(p)
}

/// The trimmed recognized information and writing prompt, or an error for
/// the first that is blank.
pub fn prepare_title_inputs(info: &str, prompt: &str) -> (r: Result<(String, String), AppError>)
    ensures
        r is Ok <==> !is_blank(info@) && !is_blank(prompt@),
        r matches Ok(p) ==> p.0@ == trim(info@) && p.1@ == trim(prompt@),
        is_blank(info@) ==> fails_with(
            r,
            "缺少图像识别出的对局信息：请先完成步骤一（截帧识别），再基于识别信息生成标题。"@,
        ),
        !is_blank(info@) && is_blank(prompt@) ==> fails_with(
            r,
            "标题创作提示词为空：请升级前端版本后重试（提示词由前端传入，Rust 侧不内置）。"@,
        ),
{
    let i = crate::text::trimmed(info);
    if i.unicode_len() == 0 {
        return Err(
            AppError::Custom(
                "缺少图像识别出的对局信息：请先完成步骤一（截帧识别），再基于识别信息生成标题。".to_owned(),
            ),
        );
    }
    let p = crate::text::trimmed(prompt);
    if p.unicode_len() == 0 {
        return Err(
            AppError::Custom(
                "标题创作提示词为空：请升级前端版本后重试（提示词由前端传入，Rust 侧不内置）。".to_owned(),
            ),
        );
    }
    Ok((i, p))
}

/// Fails when the captured frame is empty.
pub fn check_frame(frame: &[u8]) -> (r: Result<(), AppError>)
    ensures
        r is Ok <==> frame@.len() > 0,
        r is Err ==> fails_with(r, "截取视频画面失败，输出为空"@),
{
    if frame.len() == 0 {
        return Err(AppError::Custom("截取视频画面失败，输出为空".to_owned()));
    }
    Ok(())
}

/// The chat address of an endpoint, or an error when there is none.
pub fn chat_url(endpoint: &AiEndpointConfig) -> (r: Result<String, AppError>)
    ensures
        r is Ok <==> chat_endpoint(endpoint.base_url@).len() > 0,
        r matches Ok(u) ==> u@ == chat_endpoint(endpoint.base_url@),
        r is Err ==> fails_with(r, "AI 接口地址无效"@),
{
    let url = build_chat_endpoint(endpoint.base_url.as_str());
    if url.unicode_len() == 0 {
        return Err(AppError::Custom("AI 接口地址无效".to_owned()));
    }
    Ok(url)
}

pub open spec fn no_info_message() -> Seq<char> {
    "图像识别未返回有效内容：可能是该模型不支持图片输入、响应结构不兼容或输出被截断。可在「全局设置 → AI 设置」中更换图像识别模型或关闭其思考模式后重试。"@
}

/// The recognition result: the reply trimmed, or an error when it is blank.
pub fn analyze_result(content: &str, reasoning: &str) -> (r: Result<AiAnalyzeResult, AppError>)
    ensures
        r is Ok <==> !is_blank(content@),
        r matches Ok(a) ==> a.info@ == trim(content@) && a.reasoning@ == trim(reasoning@),
        r is Err ==> fails_with(r, no_info_message()),
{
    let info = crate::text::trimmed(content);
    if info.unicode_len() == 0 {
        return Err(
            AppError::Custom(
                "图像识别未返回有效内容：可能是该模型不支持图片输入、响应结构不兼容或输出被截断。可在「全局设置 → AI 设置」中更换图像识别模型或关闭其思考模式后重试。".to_owned(),
            ),
        );
    }
    Ok(AiAnalyzeResult { info, reasoning: crate::text::trimmed(reasoning) })
}

/// The writing result: the first title of the reply (see
/// `pick_first_title`), with the trimmed reasoning.
pub fn title_result(content: &str, reasoning: &str) -> (r: Result<AiTitleResult, AppError>)
    ensures
        ({
            let ts = crate::titles::titles_of_reply(content@);
            if ts.len() > 0 && ts[0].len() > 0 {
                r matches Ok(t) && t.title@ == ts[0] && t.reasoning@ == trim(reasoning@)
            } else {
                fails_with(r, crate::titles::no_title_message(content@))
            }
        }),
{
    match crate::titles::pick_first_title(content) {
        Ok(title) => Ok(AiTitleResult { title, reasoning: crate::text::trimmed(reasoning) }),
        Err(e) => Err(e),
    }
}

/// `v` is the text `s`.
pub open spec fn is_text(v: Option<JsonValue>, s: Seq<char>) -> bool {
    as_str(v) == Some(s)
}

/// `v` is an object with exactly the keys `keys`, in this order.
pub open spec fn has_keys(v: Option<JsonValue>, keys: Seq<Seq<char>>) -> bool {
    v matches Some(o) && crate::season::object_keys(o) == keys && o is Object
}

/// `v` is an array of `n` elements.
pub open spec fn array_len(v: Option<JsonValue>, n: int) -> bool {
    crate::json::as_array(v) matches Some(a) && a.len() == n
}

/// The messages of an image-recognition request: one user message made of
/// the instruction text and the image.
pub open spec fn is_vision_messages(m: JsonValue, data_url: Seq<char>, prompt: Seq<char>) -> bool {
    let msg = at(Some(m), 0);
    let content = get(msg, "content"@);
    let text_part = at(content, 0);
    let image_part = at(content, 1);
    &&& array_len(Some(m), 1)
    &&& has_keys(msg, seq!["role"@, "content"@])
    &&& is_text(get(msg, "role"@), "user"@)
    &&& array_len(content, 2)
    &&& has_keys(text_part, seq!["type"@, "text"@])
    &&& is_text(get(text_part, "type"@), "text"@)
    &&& is_text(get(text_part, "text"@), prompt)
    &&& has_keys(image_part, seq!["type"@, "image_url"@])
    &&& is_text(get(image_part, "type"@), "image_url"@)
    &&& has_keys(get(image_part, "image_url"@), seq!["url"@])
    &&& is_text(get(get(image_part, "image_url"@), "url"@), data_url)
}

fn text_value(s: &str) -> (r: JsonValue)
    ensures
        as_str(Some(r)) == Some(s@),
{
    JsonValue::Str(s.to_string())
}

/// The messages of an image-recognition request (see `is_vision_messages`).
pub fn build_vision_messages(data_url: &str, prompt: &str) -> (r: JsonValue)
    ensures
        is_vision_messages(r, data_url@, prompt@),
{
    proof {
        reveal_strlit("role");
        reveal_strlit("content");
        reveal_strlit("type");
        reveal_strlit("text");
        reveal_strlit("image_url");
        reveal_strlit("url");
        reveal_strlit("user");
    }
    let text_part = JsonValue::Object(
        vec![("type".to_string(), text_value("text")), ("text".to_string(), text_value(prompt))],
    );
    let url = JsonValue::Object(vec![("url".to_string(), text_value(data_url))]);
    let image_part = JsonValue::Object(
        vec![("type".to_string(), text_value("image_url")), ("image_url".to_string(), url)],
    );
    let msg = JsonValue::Object(
        vec![
            ("role".to_string(), text_value("user")),
            ("content".to_string(), JsonValue::Array(vec![text_part, image_part])),
        ],
    );
    let r = JsonValue::Array(vec![msg]);
    proof {
        assert("role"@.len() == 4 && "content"@.len() == 7 && "type"@.len() == 4);
        assert("text"@.len() == 4 && "image_url"@.len() == 9 && "url"@.len() == 3);
        assert("type"@[1] != "text"@[1]);
        let mm = crate::json::members_of(msg);
        crate::json::lemma_member_at(mm, "role"@, 0);
        crate::json::lemma_member_at(mm, "content"@, 1);
        assert(crate::season::object_keys(msg) =~= seq!["role"@, "content"@]);
        let tm = crate::json::members_of(text_part);
        crate::json::lemma_member_at(tm, "type"@, 0);
        crate::json::lemma_member_at(tm, "text"@, 1);
        assert(crate::season::object_keys(text_part) =~= seq!["type"@, "text"@]);
        let im = crate::json::members_of(image_part);
        crate::json::lemma_member_at(im, "type"@, 0);
        crate::json::lemma_member_at(im, "image_url"@, 1);
        assert(crate::season::object_keys(image_part) =~= seq!["type"@, "image_url"@]);
        let um = crate::json::members_of(url);
        crate::json::lemma_member_at(um, "url"@, 0);
        assert(crate::season::object_keys(url) =~= seq!["url"@]);
    }
    r
}

/// The messages of a title-writing request: the recognized information as
/// the system message, the writing instruction as the user message.
pub open spec fn is_text_messages(m: JsonValue, info: Seq<char>, prompt: Seq<char>) -> bool {
    let sys = at(Some(m), 0);
    let user = at(Some(m), 1);
    &&& array_len(Some(m), 2)
    &&& has_keys(sys, seq!["role"@, "content"@])
    &&& is_text(get(sys, "role"@), "system"@)
    &&& is_text(get(sys, "content"@), info)
    &&& has_keys(user, seq!["role"@, "content"@])
    &&& is_text(get(user, "role"@), "user"@)
    &&& is_text(get(user, "content"@), prompt)
}

fn role_message(role: &str, content: &str) -> (r: JsonValue)
    ensures
        has_keys(Some(r), seq!["role"@, "content"@]),
        is_text(get(Some(r), "role"@), role@),
        is_text(get(Some(r), "content"@), content@),
{
    proof {
        reveal_strlit("role");
        reveal_strlit("content");
    }
    let r = JsonValue::Object(
        vec![("role".to_string(), text_value(role)), ("content".to_string(), text_value(content))],
    );
    proof {
        assert("role"@.len() == 4 && "content"@.len() == 7);
        let m = crate::json::members_of(r);
        crate::json::lemma_member_at(m, "role"@, 0);
        crate::json::lemma_member_at(m, "content"@, 1);
        assert(crate::season::object_keys(r) =~= seq!["role"@, "content"@]);
    }
    r
}

/// The messages of a title-writing request (see `is_text_messages`).
pub fn build_text_messages(info: &str, prompt: &str) -> (r: JsonValue)
    ensures
        is_text_messages(r, info@, prompt@),
{
    proof {
        reveal_strlit("system");
        reveal_strlit("user");
    }
    JsonValue::Array(vec![role_message("system", info), role_message("user", prompt)])
}

/// The body of a chat request, but for its `temperature` (a float, which
/// the caller adds): the trimmed model name, whether to stream, and the
/// messages; in thinking mode also `thinking: {type: enabled}` and the
/// reasoning effort.
pub open spec fn is_chat_payload(
    body: JsonValue,
    endpoint: AiEndpointConfig,
    messages: JsonValue,
    stream: bool,
) -> bool {
    let b = Some(body);
    &&& is_text(get(b, "model"@), trim(endpoint.model@))
    &&& get(b, "stream"@) == Some(JsonValue::Bool(stream))
    &&& get(b, "messages"@) == Some(messages)
    &&& if endpoint.thinking {
        &&& has_keys(b, seq!["model"@, "stream"@, "messages"@, "thinking"@, "reasoning_effort"@])
        &&& has_keys(get(b, "thinking"@), seq!["type"@])
        &&& is_text(get(get(b, "thinking"@), "type"@), "enabled"@)
        &&& is_text(get(b, "reasoning_effort"@), reasoning_effort(endpoint.reasoning_effort@))
    } else {
        has_keys(b, seq!["model"@, "stream"@, "messages"@])
    }
}

/// The body of a chat request without its temperature (see
/// `is_chat_payload`).
pub fn build_chat_payload(endpoint: &AiEndpointConfig, messages: JsonValue, stream: bool) -> (r:
    JsonValue)
    ensures
        is_chat_payload(r, *endpoint, messages, stream),
{
    proof {
        reveal_strlit("model");
        reveal_strlit("stream");
        reveal_strlit("messages");
        reveal_strlit("thinking");
        reveal_strlit("reasoning_effort");
        reveal_strlit("type");
        reveal_strlit("enabled");
    }
    let model = crate::text::trimmed(endpoint.model.as_str());
    let ghost msgs = messages;
    let mut members: Vec<(String, JsonValue)> = vec![
        ("model".to_string(), JsonValue::Str(model)),
        ("stream".to_string(), JsonValue::Bool(stream)),
        ("messages".to_string(), messages),
    ];
    if endpoint.thinking {
        let effort = normalize_reasoning_effort(endpoint.reasoning_effort.as_str());
        let thinking = JsonValue::Object(vec![("type".to_string(), text_value("enabled"))]);
        proof {
            assert("type"@.len() == 4);
            crate::json::lemma_member_at(crate::json::members_of(thinking), "type"@, 0);
            assert(crate::season::object_keys(thinking) =~= seq!["type"@]);
        }
        members.push(("thinking".to_string(), thinking));
        members.push(("reasoning_effort".to_string(), text_value(effort)));
    }
    let r = JsonValue::Object(members);
    proof {
        assert("model"@.len() == 5 && "stream"@.len() == 6 && "messages"@.len() == 8);
        assert("thinking"@.len() == 8 && "reasoning_effort"@.len() == 16);
        assert("messages"@[0] != "thinking"@[0]);
        let m = crate::json::members_of(r);
        crate::json::lemma_member_at(m, "model"@, 0);
        crate::json::lemma_member_at(m, "stream"@, 1);
        crate::json::lemma_member_at(m, "messages"@, 2);
        if endpoint.thinking {
            crate::json::lemma_member_at(m, "thinking"@, 3);
            crate::json::lemma_member_at(m, "reasoning_effort"@, 4);
            assert(crate::season::object_keys(r) =~= seq![
                "model"@,
                "stream"@,
                "messages"@,
                "thinking"@,
                "reasoning_effort"@,
            ]);
        } else {
            assert(crate::season::object_keys(r) =~= seq!["model"@, "stream"@, "messages"@]);
        }
    }
    r
}

/// The bearer token sent with a chat request: the trimmed API key, when
/// there is one.
pub fn bearer_token(api_key: &str) -> (r: Option<String>)
    ensures
        match r {
            Some(t) => t@ == trim(api_key@) && t@.len() > 0,
            None => trim(api_key@).len() == 0,
        },
{
    let t = crate::text::trimmed(api_key);
    if t.unicode_len() > 0 {
        Some(t)
    } else {
        None
    }
}

proof fn lemma_trim_end_char_prefix(s: Seq<char>, c: char)
    ensures
        trim_end_char(s, c).len() <= s.len(),
        trim_end_char(s, c) == s.subrange(0, trim_end_char(s, c).len() as int),
        trim_end_char(s, c).len() > 0 ==> trim_end_char(s, c).last() != c,
    decreases s.len(),
{
    if s.len() > 0 && s.last() == c {
        lemma_trim_end_char_prefix(s.drop_last(), c);
        assert(s.drop_last().subrange(0, trim_end_char(s, c).len() as int) =~= s.subrange(
            0,
            trim_end_char(s, c).len() as int,
        ));
    } else {
        assert(s.subrange(0, s.len() as int) =~= s);
    }
}

/// Text without whitespace at either end is its own trim.
proof fn lemma_trim_id(s: Seq<char>)
    requires
        s.len() > 0,
        !crate::text::is_ws(s[0]),
        !crate::text::is_ws(s.last()),
    ensures
        trim(s) == s,
{
}

/// An address made by `build_chat_endpoint` is kept as it is when it is
/// given again: the result is already a full chat/completions address.
pub proof fn law_chat_endpoint_stable(base_url: Seq<char>)
    ensures
        chat_endpoint(chat_endpoint(base_url)) == chat_endpoint(base_url),
{
    reveal_strlit("/chat/completions");
    reveal_strlit("https://");
    let suffix = "/chat/completions"@;
    let ts = crate::text::trim_start(base_url);
    crate::text::lemma_trim_start_shape(base_url);
    crate::text::lemma_trim_end_len(ts);
    let t = trim(base_url);
    let base = trim_end_char(t, '/');
    lemma_trim_end_char_prefix(t, '/');
    let e = chat_endpoint(base_url);
    if base.len() > 0 {
        assert(base[0] == t[0]);
        assert(t[0] == ts[0]);
        assert(!crate::text::is_ws(base[0]));
        if ends_with(base, suffix) {
            assert(e == base);
            assert(e.last() == base.subrange(base.len() - 17, base.len() as int)[16]);
        } else if !contains_seq(base, "://"@) {
            assert(e == "https://"@ + base + suffix);
            assert(e.subrange(e.len() - 17, e.len() as int) =~= suffix);
        } else {
            assert(e == base + suffix);
            assert(e.subrange(e.len() - 17, e.len() as int) =~= suffix);
            assert(e[0] == base[0]);
        }
        assert(e.last() == 's');
        lemma_trim_id(e);
        assert(trim_end_char(e, '/') == e);
    }
}

/// A streamed reply being read: bytes not yet cut into events, the whole
/// body as text, and the reasoning and content so far.
pub struct SseStream {
    pub buffer: Vec<u8>,
    pub raw_body: String,
    pub reasoning: String,
    pub content: String,
    /// The end marker has come.
    pub done: bool,
    /// The input has ended: no more chunks will come.
    pub over: bool,
}

impl SseStream {
    pub fn new() -> (s: Self)
        ensures
            s.buffer@.len() == 0,
            s.raw_body@.len() == 0,
            s.reasoning@.len() == 0,
            s.content@.len() == 0,
            !s.done,
            !s.over,
    {
        SseStream {
            buffer: Vec::new(),
            raw_body: String::new(),
            reasoning: String::new(),
            content: String::new(),
            done: false,
            over: false,
        }
    }

    /// Takes in a chunk: its bytes wait to be cut into events, and its
    /// text (decoded on its own, invalid sequences replaced) is added to
    /// the body.
    pub fn push_chunk(&mut self, bytes: &[u8])
        ensures
            final(self).buffer@ == old(self).buffer@ + bytes@,
            final(self).raw_body@ == old(self).raw_body@ + utf8_lossy(bytes@),
            final(self).reasoning == old(self).reasoning,
            final(self).content == old(self).content,
            final(self).done == old(self).done,
            final(self).over == old(self).over,
    {
        let mut i: usize = 0;
        while i < bytes.len()
            invariant
                i <= bytes@.len(),
                self.buffer@ == old(self).buffer@ + bytes@.subrange(0, i as int),
                self.raw_body == old(self).raw_body,
                self.reasoning == old(self).reasoning,
                self.content == old(self).content,
                self.done == old(self).done,
                self.over == old(self).over,
            decreases bytes@.len() - i,
        {
            self.buffer.push(bytes[i]);
            i = i + 1;
            assert(self.buffer@ =~= old(self).buffer@ + bytes@.subrange(0, i as int));
        }
        assert(bytes@.subrange(0, bytes@.len() as int) =~= bytes@);
        let text = decode_lossy(bytes);
        self.raw_body = crate::text::concat2(self.raw_body.as_str(), text.as_str());
    }

    /// Cuts the next complete event off the waiting bytes and reads it (see
    /// `event_of`); the end marker ends the stream. Nothing when no complete
    /// event waits.
    pub fn next_event(&mut self) -> (r: Option<SseEvent>)
        ensures
            final(self).over == old(self).over,
            final(self).raw_body == old(self).raw_body,
            final(self).reasoning == old(self).reasoning,
            final(self).content == old(self).content,
            match r {
                Some(e) => (exists|len: int|
                    cut_at(old(self).buffer@, final(self).buffer@, len) && event_of(
                        e,
                        utf8_lossy(old(self).buffer@.subrange(0, len)),
                    )) && final(self).done == (old(self).done || e is Done),
                None => final(self).buffer@ == old(self).buffer@ && final(self).done == old(
                    self,
                ).done && forall|k: int|
                    0 <= k < old(self).buffer@.len() - 1 ==> !#[trigger] newline_pair_at(
                        old(self).buffer@,
                        k,
                    ),
            },
    {
        match take_sse_event(&mut self.buffer) {
            Some(raw) => {
                let e = read_sse_event(raw.as_slice());
                if let SseEvent::Done = e {
                    self.done = true;
                }
                assert(raw@ == old(self).buffer@.subrange(0, raw@.len() as int));
                assert(cut_at(old(self).buffer@, self.buffer@, raw@.len() as int));
                Some(e)
            },
            None => None,
        }
    }

    /// At the end of the stream: what is left waiting (if anything) is read
    /// as a last event. The body keeps its text as it came (every chunk was
    /// added when it came), so that the whole reply can still be read as one.
    pub fn finish_buffer(&mut self) -> (r: Option<SseEvent>)
        ensures
            final(self).over == old(self).over,
            final(self).buffer@.len() == 0,
            final(self).raw_body == old(self).raw_body,
            final(self).reasoning == old(self).reasoning,
            final(self).content == old(self).content,
            final(self).done == old(self).done,
            match r {
                Some(e) => old(self).buffer@.len() > 0 && event_of(e, utf8_lossy(old(self).buffer@)),
                None => old(self).buffer@.len() == 0,
            },
    {
        if self.buffer.len() == 0 {
            return None;
        }
        let mut tail: Vec<u8> = Vec::new();
        std::mem::swap(&mut tail, &mut self.buffer);
        Some(read_sse_event(tail.as_slice()))
    }

    /// Adds the increments of a parsed event (see `apply_stream_deltas`);
    /// returns the reasoning increment.
    pub fn apply(&mut self, parsed: &JsonValue) -> (r: String)
        ensures
            r@ == stream_deltas(*parsed).0,
            final(self).reasoning@ == old(self).reasoning@ + stream_deltas(*parsed).0,
            final(self).content@ == old(self).content@ + stream_deltas(*parsed).1,
            final(self).buffer == old(self).buffer,
            final(self).raw_body == old(self).raw_body,
            final(self).done == old(self).done,
            final(self).over == old(self).over,
    {
        apply_stream_deltas(parsed, &mut self.reasoning, &mut self.content)
    }
}

/// What the reader of a streamed reply hands to `SseStream::step`.
pub enum StreamEvent {
    /// Nothing new: decide what comes next.
    Next,
    /// A chunk of the body has come.
    Chunk(Vec<u8>),
    /// The body has ended.
    End,
    /// Reading the body failed, for this reason.
    ReadFailed(String),
}

/// What the reader of a streamed reply is to do next.
pub enum StreamAction {
    /// Read the next chunk of the body.
    Read,
    /// An event was taken in and nothing is to be reported: step on with
    /// `Next`.
    Skip,
    /// Hand this reasoning increment to the caller, then step on with `Next`.
    Report(String),
    /// The stream is over: the reply is made of what was gathered (see
    /// `SseStream::finish`).
    Finish,
    /// Reading failed: the reply is this error.
    Fail(AppError),
}

/// `after` is `before` with its first complete event, the first `len`
/// bytes (ended by a blank line), cut off.
pub open spec fn cut_at(before: Seq<u8>, after: Seq<u8>, len: int) -> bool {
    &&& 2 <= len <= before.len()
    &&& newline_pair_at(before, len - 2)
    &&& forall|k: int| 0 <= k < len - 2 ==> !#[trigger] newline_pair_at(before, k)
    &&& after == before.subrange(len, before.len() as int)
}

/// No complete event waits in `buf`.
pub open spec fn no_event(buf: Seq<u8>) -> bool {
    forall|k: int| 0 <= k < buf.len() - 1 ==> !#[trigger] newline_pair_at(buf, k)
}

/// The reasoning and content increments of an event's data: those of its
/// JSON reading, none when it is no JSON.
pub open spec fn data_deltas(data: Seq<char>) -> (Seq<char>, Seq<char>) {
    match json_value_of(data) {
        Some(v) => stream_deltas(v),
        None => (Seq::<char>::empty(), Seq::<char>::empty()),
    }
}

/// What taking in the event that reads as `text` does, from reasoning `r0`,
/// content `c0` and end marker `d0`: an event without data changes nothing;
/// the end marker ends the stream; data adds its increments (see
/// `data_deltas`), and a reasoning increment that is not empty is to be
/// reported.
pub open spec fn event_taken(
    r0: Seq<char>,
    c0: Seq<char>,
    d0: bool,
    after: &SseStream,
    text: Seq<char>,
    r: &StreamAction,
) -> bool {
    let parts = data_parts(crate::text::lines(text));
    if parts.len() == 0 {
        r is Skip && after.reasoning@ == r0 && after.content@ == c0 && after.done == d0
    } else if trim(join(parts, "\n"@)) == "[DONE]"@ {
        r is Finish && after.reasoning@ == r0 && after.content@ == c0 && after.done
    } else {
        let (dr, dc) = data_deltas(join(parts, "\n"@));
        &&& after.reasoning@ == r0 + dr
        &&& after.content@ == c0 + dc
        &&& after.done == d0
        &&& if dr.len() > 0 {
            (*r matches StreamAction::Report(d) && d@ == dr)
        } else {
            r is Skip
        }
    }
}

/// What pulling the next event out of the waiting bytes `buf` does: after
/// the end marker, finish; with no complete event waiting, read on; else
/// the first event is cut off and taken in (see `event_taken`).
pub open spec fn pulled(before: &SseStream, buf: Seq<u8>, after: &SseStream, r: &StreamAction) -> bool {
    if before.done {
        &&& r is Finish
        &&& after.buffer@ == buf
        &&& after.done
        &&& after.reasoning == before.reasoning
        &&& after.content == before.content
    } else if no_event(buf) {
        &&& r is Read
        &&& after.buffer@ == buf
        &&& !after.done
        &&& after.reasoning == before.reasoning
        &&& after.content == before.content
    } else {
        exists|len: int|
            cut_at(buf, after.buffer@, len) && event_taken(
                before.reasoning@,
                before.content@,
                before.done,
                after,
                utf8_lossy(buf.subrange(0, len)),
                r,
            )
    }
}

/// What stepping on does once the waiting bytes are `buf`: when the input
/// is over, finish; else pull the next event (see `pulled`).
pub open spec fn stepped_on(before: &SseStream, buf: Seq<u8>, after: &SseStream, r: &StreamAction) -> bool {
    if before.over {
        &&& r is Finish
        &&& after.buffer@ == buf
        &&& after.done == before.done
        &&& after.reasoning == before.reasoning
        &&& after.content == before.content
    } else {
        pulled(before, buf, after, r)
    }
}

pub open spec fn read_failed_message(e: Seq<char>) -> Seq<char> {
    "读取 AI 流失败: "@ + e
}

/// The whole body read as one JSON reply, when it is not blank (some
/// gateways ignore streaming and send one reply).
pub open spec fn body_fallback(raw_body: Seq<char>) -> Option<JsonValue> {
    if trim(raw_body).len() == 0 {
        None
    } else {
        json_value_of(trim(raw_body))
    }
}

impl SseStream {
    /// Takes in one event that reads as `text` (see `event_taken`); its
    /// data is read as JSON here.
    fn take_event(&mut self, e: SseEvent, Ghost(text): Ghost<Seq<char>>) -> (r: StreamAction)
        requires
            event_of(e, text),
        ensures
            event_taken(old(self).reasoning@, old(self).content@, old(self).done, final(self), text, &r),
            final(self).buffer == old(self).buffer,
            final(self).raw_body == old(self).raw_body,
            final(self).over == old(self).over,
    {
        match e {
            SseEvent::Empty => StreamAction::Skip,
            SseEvent::Done => {
                self.done = true;
                StreamAction::Finish
            },
            SseEvent::Data(s) => {
                let d = match read_json(s.as_str()) {
                    Ok(v) => self.apply(&v),
                    Err(_) => {
                        assert(old(self).reasoning@ + Seq::<char>::empty() =~= old(self).reasoning@);
                        assert(old(self).content@ + Seq::<char>::empty() =~= old(self).content@);
                        String::new()
                    },
                };
                if d.unicode_len() > 0 {
                    StreamAction::Report(d)
                } else {
                    StreamAction::Skip
                }
            },
        }
    }

    /// Pulls the next event out of the waiting bytes (see `pulled`).
    fn pull(&mut self) -> (r: StreamAction)
        ensures
            pulled(old(self), old(self).buffer@, final(self), &r),
            final(self).raw_body == old(self).raw_body,
            final(self).over == old(self).over,
    {
        if self.done {
            return StreamAction::Finish;
        }
        let ghost buf = self.buffer@;
        match self.next_event() {
            None => StreamAction::Read,
            Some(e) => {
                let ghost len = choose|len: int|
                    cut_at(buf, self.buffer@, len) && event_of(
                        e,
                        utf8_lossy(buf.subrange(0, len)),
                    );
                proof {
                    assert(newline_pair_at(buf, len - 2));
                    assert(!no_event(buf));
                }
                let r = self.take_event(e, Ghost(utf8_lossy(buf.subrange(0, len))));
                assert(cut_at(buf, self.buffer@, len));
                r
            },
        }
    }

    /// Steps on (see `stepped_on`).
    fn step_on(&mut self) -> (r: StreamAction)
        ensures
            stepped_on(old(self), old(self).buffer@, final(self), &r),
            final(self).raw_body == old(self).raw_body,
            final(self).over == old(self).over,
    {
        if self.over {
            return StreamAction::Finish;
        }
        self.pull()
    }

    /// One step of reading a streamed reply: takes what came and says what
    /// to do next.
    /// - `Next`: step on: finish once the input is over or the end marker
    ///   has come, else cut the next waiting event off and take it in.
    /// - `Chunk`: the chunk is taken in (see `push_chunk`), then step on.
    /// - `End`: what is left waiting, if anything, is taken in as a last
    ///   event; with nothing left, finish.
    /// - `ReadFailed`: fail with the reason.
    pub fn step(&mut self, event: StreamEvent) -> (r: StreamAction)
        ensures
            match event {
                StreamEvent::Next => {
                    &&& stepped_on(old(self), old(self).buffer@, final(self), &r)
                    &&& final(self).raw_body == old(self).raw_body
                    &&& final(self).over == old(self).over
                },
                StreamEvent::Chunk(b) => {
                    &&& stepped_on(old(self), old(self).buffer@ + b@, final(self), &r)
                    &&& final(self).raw_body@ == old(self).raw_body@ + utf8_lossy(b@)
                    &&& final(self).over == old(self).over
                },
                StreamEvent::End => {
                    &&& final(self).over
                    &&& if old(self).done || old(self).over || old(self).buffer@.len() == 0 {
                        &&& r is Finish
                        &&& final(self).buffer@ == old(self).buffer@
                        &&& final(self).raw_body == old(self).raw_body
                        &&& final(self).done == old(self).done
                        &&& final(self).reasoning == old(self).reasoning
                        &&& final(self).content == old(self).content
                    } else {
                        let text = utf8_lossy(old(self).buffer@);
                        &&& final(self).buffer@.len() == 0
                        &&& final(self).raw_body == old(self).raw_body
                        &&& event_taken(
                            old(self).reasoning@,
                            old(self).content@,
                            old(self).done,
                            final(self),
                            text,
                            &r,
                        )
                    }
                },
                StreamEvent::ReadFailed(e) => {
                    &&& (r matches StreamAction::Fail(AppError::Custom(m)) && m@ == read_failed_message(e@))
                    &&& *final(self) == *old(self)
                },
            },
    {
        match event {
            StreamEvent::Next => self.step_on(),
            StreamEvent::Chunk(b) => {
                self.push_chunk(b.as_slice());
                self.step_on()
            },
            StreamEvent::End => {
                if self.done || self.over || self.buffer.len() == 0 {
                    self.over = true;
                    return StreamAction::Finish;
                }
                let ghost tail = self.buffer@;
                self.over = true;
                match self.finish_buffer() {
                    Some(e) => self.take_event(e, Ghost(utf8_lossy(tail))),
                    None => StreamAction::Finish,
                }
            },
            StreamEvent::ReadFailed(e) => {
                proof {
                    reveal_strlit("读取 AI 流失败: ");
                }
                StreamAction::Fail(AppError::Custom(crate::text::concat2("读取 AI 流失败: ", e.as_str())))
            },
        }
    }

    /// The reply once the stream is over: its reasoning and content, with
    /// the whole body read as JSON as the fallback (see `finish_stream`).
    pub fn finish(&self) -> (r: Result<(String, String), AppError>)
        ensures
            stream_outcome(r, self.reasoning@, self.content@, body_fallback(self.raw_body@)),
    {
        let t = crate::text::trimmed(self.raw_body.as_str());
        if t.unicode_len() == 0 {
            return finish_stream(self.reasoning.as_str(), self.content.as_str(), None);
        }
        match read_json(t.as_str()) {
            Ok(v) => finish_stream(self.reasoning.as_str(), self.content.as_str(), Some(&v)),
            Err(_) => finish_stream(self.reasoning.as_str(), self.content.as_str(), None),
        }
    }
}

} // verus!
