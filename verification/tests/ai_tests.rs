use biliup_app::ai::{
    analyze_result, apply_stream_deltas, bearer_token, build_chat_endpoint, build_chat_payload,
    build_text_messages, build_vision_messages, chat_url, check_ai_enabled,
    check_content_not_empty, check_endpoint, check_frame, extract_message_content,
    extract_stream_deltas, find_sse_delimiter, finish_once, finish_stream,
    normalize_reasoning_effort, prepare_title_inputs, prepare_video_path, prepare_vision_prompt,
    read_sse_event, sse_event_data, take_sse_event, title_result, AiConfig, AiEndpointConfig,
    SseEvent, SseStream, StreamAction, StreamEvent, http_failure, once_reply,
};
use biliup_app::error::AppError;
use biliup_app::json::JsonValue;

fn text(s: &str) -> JsonValue {
    JsonValue::Str(s.to_string())
}

fn object(members: Vec<(&str, JsonValue)>) -> JsonValue {
    JsonValue::Object(members.into_iter().map(|(k, v)| (k.to_string(), v)).collect())
}

fn get<'a>(v: &'a JsonValue, key: &str) -> &'a JsonValue {
    match v {
        JsonValue::Object(m) => &m.iter().find(|(k, _)| k == key).unwrap().1,
        _ => panic!("not an object"),
    }
}

fn keys(v: &JsonValue) -> Vec<String> {
    match v {
        JsonValue::Object(m) => m.iter().map(|(k, _)| k.clone()).collect(),
        _ => panic!("not an object"),
    }
}

fn item(v: &JsonValue, i: usize) -> &JsonValue {
    match v {
        JsonValue::Array(a) => &a[i],
        _ => panic!("not an array"),
    }
}

fn as_text(v: &JsonValue) -> &str {
    match v {
        JsonValue::Str(s) => s,
        _ => panic!("not a string"),
    }
}

fn endpoint(base: &str, key: &str, model: &str) -> AiEndpointConfig {
    AiEndpointConfig {
        base_url: base.to_string(),
        api_key: key.to_string(),
        model: model.to_string(),
        thinking: false,
        reasoning_effort: String::new(),
    }
}

fn custom(e: AppError) -> String {
    match e {
        AppError::Custom(m) => m,
        other => panic!("unexpected {other:?}"),
    }
}

/// A reply `{"choices": [{"message": {"content": .., "reasoning_content": ..}}]}`.
fn reply(content: JsonValue, reasoning: Option<&str>) -> JsonValue {
    let mut message = vec![("content", content)];
    if let Some(r) = reasoning {
        message.push(("reasoning_content", text(r)));
    }
    object(vec![("choices", JsonValue::Array(vec![object(vec![("message", object(message))])]))])
}

#[test]
fn chat_endpoint_is_completed() {
    assert_eq!(build_chat_endpoint("api.example.com/v1/"), "https://api.example.com/v1/chat/completions");
    assert_eq!(build_chat_endpoint(" http://h/v1 "), "http://h/v1/chat/completions");
    assert_eq!(build_chat_endpoint("https://h/v1/chat/completions//"), "https://h/v1/chat/completions");
    assert_eq!(build_chat_endpoint("  / "), "");
}

#[test]
fn chat_endpoint_given_again_is_kept() {
    for base in ["api.example.com", "http://x/y/", "https://x/chat/completions"] {
        let once = build_chat_endpoint(base);
        assert_eq!(build_chat_endpoint(&once), once);
    }
}

#[test]
fn reasoning_effort_values() {
    assert_eq!(normalize_reasoning_effort(" HIGH "), "high");
    assert_eq!(normalize_reasoning_effort("max"), "max");
    assert_eq!(normalize_reasoning_effort("medium"), "low");
    assert_eq!(normalize_reasoning_effort(""), "low");
}

#[test]
fn ai_switch_and_endpoint_checks() {
    let ai = AiConfig {
        enabled: false,
        vision: endpoint("u", "k", "m"),
        writer: endpoint("u", "k", "m"),
        ffmpeg_path: String::new(),
    };
    assert!(custom(check_ai_enabled(&ai).unwrap_err()).starts_with("AI 标题生成尚未启用"));
    assert!(check_endpoint(&endpoint("u", "k", "m"), "图像识别").is_ok());
    assert_eq!(
        custom(check_endpoint(&endpoint(" ", "k", "m"), "图像识别").unwrap_err()),
        "尚未配置图像识别模型的接口地址，请先在「全局设置 → AI 设置」中填写其 Base URL"
    );
    assert_eq!(
        custom(check_endpoint(&endpoint("u", "", "m"), "标题生成").unwrap_err()),
        "尚未配置标题生成模型的接口密钥，请先在「全局设置 → AI 设置」中填写其 API Key"
    );
    assert_eq!(
        custom(check_endpoint(&endpoint("u", "k", ""), "标题生成").unwrap_err()),
        "尚未配置标题生成模型的名称，请先在「全局设置 → AI 设置」中填写其模型名"
    );
}

#[test]
fn sse_delimiter_is_the_second_newline() {
    assert_eq!(find_sse_delimiter(b"data: x\n\nrest"), Some(8));
    assert_eq!(find_sse_delimiter(b"data: x\n"), None);
    assert_eq!(find_sse_delimiter(b""), None);
}

#[test]
fn events_are_taken_one_by_one() {
    let mut buf = b"data: a\n\ndata: b\n\npartial".to_vec();
    assert_eq!(take_sse_event(&mut buf).unwrap(), b"data: a\n\n".to_vec());
    assert_eq!(take_sse_event(&mut buf).unwrap(), b"data: b\n\n".to_vec());
    assert!(take_sse_event(&mut buf).is_none());
    assert_eq!(buf, b"partial".to_vec());
}

#[test]
fn event_data_lines() {
    assert!(matches!(sse_event_data(": comment\n"), SseEvent::Empty));
    assert!(matches!(sse_event_data("data: [DONE]\n\n"), SseEvent::Done));
    match sse_event_data("event: x\r\ndata: {\"a\":1}\r\ndata:  2 \n\n") {
        SseEvent::Data(s) => assert_eq!(s, "{\"a\":1}\n2"),
        other => panic!("unexpected {other:?}"),
    }
}

#[test]
fn raw_event_bytes_are_decoded_lossily() {
    let mut raw = b"data: ab".to_vec();
    raw.push(0xff);
    raw.extend_from_slice(b"c\n\n");
    match read_sse_event(&raw) {
        SseEvent::Data(s) => assert_eq!(s, "ab\u{fffd}c"),
        other => panic!("unexpected {other:?}"),
    }
    assert!(matches!(read_sse_event(b"data: [DONE]\n\n"), SseEvent::Done));
}

#[test]
fn stream_deltas_are_accumulated() {
    let ev = object(vec![(
        "choices",
        JsonValue::Array(vec![object(vec![(
            "delta",
            object(vec![("reasoning_content", text("想")), ("content", text("写"))]),
        )])]),
    )]);
    assert_eq!(extract_stream_deltas(&ev), ("想".to_string(), "写".to_string()));
    let mut r = "思".to_string();
    let mut c = String::new();
    let d = apply_stream_deltas(&ev, &mut r, &mut c);
    assert_eq!(d, "想");
    assert_eq!(r, "思想");
    assert_eq!(c, "写");
}

#[test]
fn message_content_variants() {
    assert_eq!(
        extract_message_content(&reply(text("正文"), Some("推理"))),
        ("正文".to_string(), Some("推理".to_string()))
    );
    let parts = JsonValue::Array(vec![
        object(vec![("text", text("一"))]),
        object(vec![("content", text("二"))]),
        object(vec![("text", text("  "))]),
    ]);
    assert_eq!(extract_message_content(&reply(parts, None)), ("一\n二".to_string(), None));
    let alt = object(vec![("output_text", text("备选"))]);
    assert_eq!(extract_message_content(&alt), ("备选".to_string(), None));
    let blank = reply(text("  "), None);
    assert_eq!(extract_message_content(&blank), (String::new(), None));
}

#[test]
fn empty_content_errors() {
    assert!(check_content_not_empty("x", None, "raw").is_ok());
    let e = custom(check_content_not_empty(" ", Some("想了"), "raw").unwrap_err());
    assert!(e.starts_with("AI 只返回了思考内容（reasoning）而没有正文"));
    assert!(e.ends_with("响应片段: raw"));
    let e = custom(check_content_not_empty("", None, "raw").unwrap_err());
    assert!(e.starts_with("AI 返回的 content 为空"));
}

#[test]
fn complete_reply_outcome() {
    assert_eq!(
        finish_once(&reply(text("内容"), Some("想")), "raw").unwrap(),
        ("内容".to_string(), "想".to_string())
    );
    assert!(finish_once(&reply(text(""), None), "raw").is_err());
}

#[test]
fn stream_outcome() {
    assert_eq!(finish_stream(" 想 ", " 写 ", None).unwrap(), ("写".to_string(), "想".to_string()));
    let fallback = reply(text("整段"), Some("推理"));
    assert_eq!(
        finish_stream("", " ", Some(&fallback)).unwrap(),
        ("整段".to_string(), "推理".to_string())
    );
    let e = custom(finish_stream("", "", None).unwrap_err());
    assert!(e.starts_with("AI 流式返回异常：未收到任何内容"));
    let e = custom(finish_stream("只想", "", None).unwrap_err());
    assert!(e.ends_with("思考片段: 只想"));
}

#[test]
fn prepared_inputs() {
    assert_eq!(prepare_video_path(" /v.mp4 ").unwrap(), "/v.mp4");
    assert_eq!(custom(prepare_video_path(" ").unwrap_err()), "视频文件不存在或路径无效");
    assert_eq!(prepare_vision_prompt(" p ").unwrap(), "p");
    assert!(prepare_vision_prompt("").is_err());
    assert_eq!(prepare_title_inputs(" i ", " p ").unwrap(), ("i".to_string(), "p".to_string()));
    assert!(custom(prepare_title_inputs("", "p").unwrap_err()).starts_with("缺少图像识别出的对局信息"));
    assert!(custom(prepare_title_inputs("i", "").unwrap_err()).starts_with("标题创作提示词为空"));
    assert!(check_frame(&[1]).is_ok());
    assert_eq!(custom(check_frame(&[]).unwrap_err()), "截取视频画面失败，输出为空");
}

#[test]
fn chat_url_of_endpoint() {
    assert_eq!(chat_url(&endpoint("h/v1", "", "")).unwrap(), "https://h/v1/chat/completions");
    assert_eq!(custom(chat_url(&endpoint("  ", "", "")).unwrap_err()), "AI 接口地址无效");
}

#[test]
fn results_of_both_steps() {
    let a = analyze_result(" 信息 ", " 想 ").unwrap();
    assert_eq!(a.info, "信息");
    assert_eq!(a.reasoning, "想");
    assert!(custom(analyze_result(" ", "").unwrap_err()).starts_with("图像识别未返回有效内容"));
    let t = title_result("1. 标题", " r ").unwrap();
    assert_eq!(t.title, "标题");
    assert_eq!(t.reasoning, "r");
}

#[test]
fn vision_messages_shape() {
    let m = build_vision_messages("data:image/jpeg;base64,AA==", "看图");
    let msg = item(&m, 0);
    assert_eq!(keys(msg), vec!["role", "content"]);
    assert_eq!(as_text(get(msg, "role")), "user");
    let content = get(msg, "content");
    assert_eq!(as_text(get(item(content, 0), "type")), "text");
    assert_eq!(as_text(get(item(content, 0), "text")), "看图");
    assert_eq!(as_text(get(item(content, 1), "type")), "image_url");
    assert_eq!(as_text(get(get(item(content, 1), "image_url"), "url")), "data:image/jpeg;base64,AA==");
}

#[test]
fn text_messages_shape() {
    let m = build_text_messages("信息", "写标题");
    assert_eq!(as_text(get(item(&m, 0), "role")), "system");
    assert_eq!(as_text(get(item(&m, 0), "content")), "信息");
    assert_eq!(as_text(get(item(&m, 1), "role")), "user");
    assert_eq!(as_text(get(item(&m, 1), "content")), "写标题");
}

#[test]
fn chat_payload_with_and_without_thinking() {
    let mut e = endpoint("u", "k", " model ");
    let p = build_chat_payload(&e, JsonValue::Array(vec![]), false);
    assert_eq!(keys(&p), vec!["model", "stream", "messages"]);
    assert_eq!(as_text(get(&p, "model")), "model");
    assert!(matches!(get(&p, "stream"), JsonValue::Bool(false)));
    e.thinking = true;
    e.reasoning_effort = "HIGH".to_string();
    let p = build_chat_payload(&e, JsonValue::Array(vec![]), true);
    assert_eq!(keys(&p), vec!["model", "stream", "messages", "thinking", "reasoning_effort"]);
    assert_eq!(as_text(get(get(&p, "thinking"), "type")), "enabled");
    assert_eq!(as_text(get(&p, "reasoning_effort")), "high");
}

#[test]
fn bearer_token_is_the_trimmed_key() {
    assert_eq!(bearer_token(" sk-1 "), Some("sk-1".to_string()));
    assert_eq!(bearer_token("   "), None);
}

#[test]
fn stream_reader_cuts_events_across_chunks() {
    let mut st = SseStream::new();
    st.push_chunk(b"data: {\"a\"");
    assert!(st.next_event().is_none());
    st.push_chunk(b":1}\n\ndata: [DONE]\n\ndata: late\n\n");
    match st.next_event() {
        Some(SseEvent::Data(s)) => assert_eq!(s, "{\"a\":1}"),
        other => panic!("unexpected {other:?}"),
    }
    assert!(!st.done);
    assert!(matches!(st.next_event(), Some(SseEvent::Done)));
    assert!(st.done);
    assert_eq!(st.raw_body, "data: {\"a\":1}\n\ndata: [DONE]\n\ndata: late\n\n");
}

#[test]
fn stream_reader_reads_the_unterminated_tail() {
    let mut st = SseStream::new();
    st.push_chunk(b"data: tail");
    assert!(st.next_event().is_none());
    match st.finish_buffer() {
        Some(SseEvent::Data(s)) => assert_eq!(s, "tail"),
        other => panic!("unexpected {other:?}"),
    }
    assert!(st.buffer.is_empty());
    // the body keeps the text as it came
    assert_eq!(st.raw_body, "data: tail");
    assert!(st.finish_buffer().is_none());
    let ev = object(vec![(
        "choices",
        JsonValue::Array(vec![object(vec![("delta", object(vec![("content", text("字"))]))])]),
    )]);
    assert_eq!(st.apply(&ev), "");
    assert_eq!(st.content, "字");
}

fn delta(field: &str, value: &str) -> JsonValue {
    object(vec![(
        "choices",
        JsonValue::Array(vec![object(vec![("delta", object(vec![(field, text(value))]))])]),
    )])
}

#[test]
fn stream_steps_report_reasoning_and_stop_at_the_end_marker() {
    let mut st = SseStream::new();
    assert!(matches!(st.step(StreamEvent::Next), StreamAction::Read));
    let body = [
        ": ping\n\n",
        "data: {\"choices\":[{\"delta\":{\"reasoning_content\":\"想\"}}]}\n\n",
        "data: not json\n\n",
        "data: {\"choices\":[{\"delta\":{\"content\":\"答\"}}]}\n\n",
        "data: [DONE]\n\n",
        "data: late\n\n",
    ]
    .concat();
    let a = st.step(StreamEvent::Chunk(body.as_bytes().to_vec()));
    assert!(matches!(a, StreamAction::Skip));
    let a = st.step(StreamEvent::Next);
    assert!(matches!(&a, StreamAction::Report(d) if d == "想"));
    // data that is no JSON is passed over
    assert!(matches!(st.step(StreamEvent::Next), StreamAction::Skip));
    // a content increment is not reported
    assert!(matches!(st.step(StreamEvent::Next), StreamAction::Skip));
    assert!(matches!(st.step(StreamEvent::Next), StreamAction::Finish));
    assert!(st.done);
    assert_eq!(st.reasoning, "想");
    assert_eq!(st.content, "答");
    // after the end marker nothing more is read
    assert!(matches!(st.step(StreamEvent::Next), StreamAction::Finish));
    assert_eq!(st.finish().unwrap(), ("答".to_string(), "想".to_string()));
}

#[test]
fn stream_steps_read_the_tail_at_the_end() {
    let mut st = SseStream::new();
    let tail = "data: {\"choices\":[{\"delta\":{\"reasoning_content\":\"尾\",\"content\":\"文\"}}]}";
    let a = st.step(StreamEvent::Chunk(tail.as_bytes().to_vec()));
    assert!(matches!(a, StreamAction::Read));
    let a = st.step(StreamEvent::End);
    assert!(matches!(&a, StreamAction::Report(d) if d == "尾"));
    assert!(st.over);
    assert_eq!(st.raw_body, tail);
    assert!(matches!(st.step(StreamEvent::Next), StreamAction::Finish));
    assert_eq!(st.content, "文");
    let mut empty = SseStream::new();
    assert!(matches!(empty.step(StreamEvent::End), StreamAction::Finish));
}

#[test]
fn stream_without_events_falls_back_to_the_whole_body() {
    let mut st = SseStream::new();
    let body = "{\"choices\":[{\"message\":{\"content\":\" 整段 \",\"reasoning_content\":\"r\"}}]}";
    assert!(matches!(st.step(StreamEvent::Chunk(body.as_bytes().to_vec())), StreamAction::Read));
    assert!(matches!(st.step(StreamEvent::End), StreamAction::Skip));
    assert!(matches!(st.step(StreamEvent::Next), StreamAction::Finish));
    assert_eq!(st.finish().unwrap(), ("整段".to_string(), "r".to_string()));
}

#[test]
fn complete_replies_are_read_by_the_library() {
    let ok = "{\"choices\":[{\"message\":{\"content\":\"内容\",\"reasoning_content\":\"想\"}}]}";
    assert_eq!(once_reply("200 OK", true, ok).unwrap(), ("内容".to_string(), "想".to_string()));
    let e = custom(once_reply("500 Internal Server Error", false, "坏了").unwrap_err());
    assert_eq!(e, "AI 接口返回错误 (HTTP 500 Internal Server Error): 坏了");
    let e = custom(once_reply("200 OK", true, "not json").unwrap_err());
    assert!(e.starts_with("解析 AI 响应失败: "));
    assert!(e.ends_with("; 原始响应: not json"));
    let long = "x".repeat(600);
    let e = custom(http_failure("404 Not Found", &long));
    assert_eq!(e, format!("AI 接口返回错误 (HTTP 404 Not Found): {}", "x".repeat(500)));
}

#[test]
fn stream_read_failure_is_reported() {
    let mut st = SseStream::new();
    match st.step(StreamEvent::ReadFailed("断开".to_string())) {
        StreamAction::Fail(AppError::Custom(m)) => assert_eq!(m, "读取 AI 流失败: 断开"),
        _ => panic!("unexpected action"),
    }
}
