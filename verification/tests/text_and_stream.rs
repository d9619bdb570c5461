use compleo::llm::openai::{
    classify_sse_line, reply_messages, split_think, SseLine, StreamMessage, StreamState,
    REPLY_USER_PREFIX, SYSTEM_PROMPT_REPLY,
};
use compleo::llm::{
    api_error_text, api_error_text_truncated, api_status_error_text, bearer_token,
    chat_completions_url, request_failure_text, LlmRequest, RequestFailure,
};
use compleo::text::{
    after_last_char, contains_str, numbered_lines, parse_u32_exec, trim_chars, trim_start_matches_str,
    trim_str, CharSet,
};

fn texts(msgs: &[StreamMessage]) -> Vec<(bool, String)> {
    msgs.iter()
        .map(|m| match m {
            StreamMessage::Thinking(t) => (true, t.clone()),
            StreamMessage::Content(t) => (false, t.clone()),
        })
        .collect()
}

#[test]
fn trim_matches_std_whitespace() {
    assert_eq!(trim_str("  \t hello world \n"), "hello world");
    assert_eq!(trim_str("\u{3000}全角\u{a0}"), "全角");
    assert_eq!(trim_str("   "), "");
    assert_eq!(trim_chars("\"\"quoted\"", CharSet::Only('"')), "quoted");
}

#[test]
fn trim_start_matches_removes_every_copy() {
    assert_eq!(trim_start_matches_str("→ → 收到", "→ "), "收到");
    assert_eq!(trim_start_matches_str("x→ ", "→ "), "x→ ");
    assert_eq!(trim_start_matches_str("abc", ""), "abc");
}

#[test]
fn contains_and_split_last() {
    assert!(contains_str("WeChat Work", "Chat"));
    assert!(!contains_str("Chat", "WeChat"));
    assert!(contains_str("abc", ""));
    assert_eq!(after_last_char("a:b:c", ':'), "c");
    assert_eq!(after_last_char("abc", ':'), "abc");
}

#[test]
fn parse_u32_follows_from_str() {
    assert_eq!(parse_u32_exec("1234"), Some(1234));
    assert_eq!(parse_u32_exec("+7"), Some(7));
    assert_eq!(parse_u32_exec("007"), Some(7));
    assert_eq!(parse_u32_exec("4294967295"), Some(u32::MAX));
    assert_eq!(parse_u32_exec("4294967296"), None);
    assert_eq!(parse_u32_exec(""), None);
    assert_eq!(parse_u32_exec("+"), None);
    assert_eq!(parse_u32_exec("-1"), None);
    assert_eq!(parse_u32_exec("12a"), None);
    for s in ["0", "42", "+10", "99999999999", "1 2", "x"] {
        assert_eq!(parse_u32_exec(s), s.parse::<u32>().ok());
    }
}

#[test]
fn numbered_lines_numbers_from_one() {
    let items = vec!["好的".to_string(), "行".to_string(), "嗯".to_string()];
    assert_eq!(numbered_lines(&items, 10), "1. 好的\n2. 行\n3. 嗯");
    assert_eq!(numbered_lines(&items, 2), "1. 好的\n2. 行");
    assert_eq!(numbered_lines(&items, 0), "");
    let many: Vec<String> = (0..12).map(|i| format!("m{}", i)).collect();
    let out = numbered_lines(&many, 20);
    assert!(out.ends_with("\n12. m11"));
    assert!(out.starts_with("1. m0\n2. m1\n"));
}

#[test]
fn split_think_plain_text_is_reply() {
    let (msgs, state) = split_think("hello there", false);
    assert_eq!(texts(&msgs), vec![(false, "hello there".to_string())]);
    assert!(!state);
    let (msgs, state) = split_think("", false);
    assert!(msgs.is_empty());
    assert!(!state);
}

#[test]
fn split_think_separates_reasoning() {
    let (msgs, state) = split_think("<think>plan it</think>answer", false);
    assert_eq!(
        texts(&msgs),
        vec![(true, "plan it".to_string()), (false, "answer".to_string())]
    );
    assert!(!state);
    let (msgs, state) = split_think("a<think>b", false);
    assert_eq!(texts(&msgs), vec![(false, "a".to_string()), (true, "b".to_string())]);
    assert!(state);
    let (msgs, state) = split_think("still thinking</think>", true);
    assert_eq!(texts(&msgs), vec![(true, "still thinking".to_string())]);
    assert!(!state);
    let (msgs, state) = split_think("<think></think>", false);
    assert!(msgs.is_empty());
    assert!(!state);
}

#[test]
fn emit_content_keeps_reply_only() {
    let mut st = StreamState::new();
    let m1 = st.emit_content("<think>hmm");
    assert_eq!(texts(&m1), vec![(true, "hmm".to_string())]);
    assert!(st.in_think);
    let m2 = st.emit_content(" more</think>Hi");
    assert_eq!(texts(&m2), vec![(true, " more".to_string()), (false, "Hi".to_string())]);
    let m3 = st.emit_content(" there ");
    assert_eq!(texts(&m3), vec![(false, " there ".to_string())]);
    assert_eq!(st.full_content, "Hi there ");
    assert_eq!(st.finish(), "Hi there");
}

fn kind_texts(msgs: &[StreamMessage]) -> (String, String) {
    let mut thinking = String::new();
    let mut reply = String::new();
    for (is_thinking, t) in texts(msgs) {
        if is_thinking {
            thinking.push_str(&t);
        } else {
            reply.push_str(&t);
        }
    }
    (thinking, reply)
}

#[test]
fn emit_content_chunking_law_on_example() {
    let c1 = "Hello <think>plan";
    let c2 = " more</think> world<think>x";
    let mut pieces = StreamState::new();
    let mut sent = st_emit(&mut pieces, c1);
    sent.extend(st_emit(&mut pieces, c2));
    let mut joined = StreamState::new();
    let all = st_emit(&mut joined, &format!("{}{}", c1, c2));
    assert_eq!(pieces.in_think, joined.in_think);
    assert!(joined.in_think);
    assert_eq!(pieces.full_content, joined.full_content);
    assert_eq!(joined.full_content, "Hello  world");
    assert_eq!(kind_texts(&sent), kind_texts(&all));
    assert_eq!(kind_texts(&all), ("plan morex".to_string(), "Hello  world".to_string()));
}

fn st_emit(st: &mut StreamState, content: &str) -> Vec<StreamMessage> {
    st.emit_content(content)
}

#[test]
fn apply_delta_reasoning_then_content() {
    let mut st = StreamState::new();
    let msgs = st.apply_delta(Some("why".to_string()), Some("ok".to_string()));
    assert_eq!(texts(&msgs), vec![(true, "why".to_string()), (false, "ok".to_string())]);
    let msgs = st.apply_delta(Some(String::new()), None);
    assert!(msgs.is_empty());
    assert_eq!(st.full_content, "ok");
}

#[test]
fn classify_lines() {
    assert!(matches!(classify_sse_line(""), SseLine::Skip));
    assert!(matches!(classify_sse_line(": keep-alive"), SseLine::Skip));
    assert!(matches!(classify_sse_line("event: delta"), SseLine::Skip));
    assert!(matches!(classify_sse_line("data:{}"), SseLine::Skip));
    assert!(matches!(classify_sse_line("data: [DONE]"), SseLine::Done));
    assert!(matches!(classify_sse_line("data:  [DONE]"), SseLine::Done));
    match classify_sse_line("data: {\"choices\":[]}") {
        SseLine::Data(d) => assert_eq!(d, "{\"choices\":[]}"),
        _ => panic!("expected data"),
    }
}

#[test]
fn stream_lines_across_chunks() {
    let mut st = StreamState::new();
    st.push_text("data: {\"a\"");
    assert!(st.next_line().is_none());
    st.push_bytes(b":1}\r\n\r\n: ping\ndata: [DO");
    match st.next_line() {
        Some(SseLine::Data(d)) => assert_eq!(d, "{\"a\":1}"),
        _ => panic!("expected data"),
    }
    assert!(matches!(st.next_line(), Some(SseLine::Skip)));
    assert!(matches!(st.next_line(), Some(SseLine::Skip)));
    assert!(st.next_line().is_none());
    assert_eq!(st.buffer, "data: [DO");
    st.push_bytes("NE]\n".as_bytes());
    assert!(matches!(st.next_line(), Some(SseLine::Done)));
    assert_eq!(st.buffer, "");
}

#[test]
fn push_bytes_decodes_utf8() {
    let mut st = StreamState::new();
    st.push_bytes("你好".as_bytes());
    assert_eq!(st.buffer, "你好");
    st.push_bytes(&[0xff]);
    assert_eq!(st.buffer, "你好\u{fffd}");
}

#[test]
fn chunking_law_on_example() {
    // The lines of "a\nb\nc" are the same whether it arrives at once or in pieces.
    let mut whole = StreamState::new();
    whole.push_text("data: 1\ndata: 2\ndata: 3\n");
    let mut pieces = StreamState::new();
    let mut got_whole = Vec::new();
    while let Some(l) = whole.next_line() {
        if let SseLine::Data(d) = l {
            got_whole.push(d);
        }
    }
    let mut got_pieces = Vec::new();
    for chunk in ["data", ": 1\nda", "ta: 2\ndata: 3", "\n"] {
        pieces.push_text(chunk);
        while let Some(l) = pieces.next_line() {
            if let SseLine::Data(d) = l {
                got_pieces.push(d);
            }
        }
    }
    assert_eq!(got_whole, got_pieces);
    assert_eq!(got_whole, vec!["1", "2", "3"]);
}

#[test]
fn request_builders() {
    assert_eq!(chat_completions_url("https://api.openai.com/v1"), "https://api.openai.com/v1/chat/completions");
    assert_eq!(bearer_token("sk-x"), "Bearer sk-x");
    let msgs = reply_messages(&LlmRequest { current_context: "ctx".to_string() });
    assert_eq!(msgs.len(), 2);
    assert_eq!(msgs[0].role, "system");
    assert_eq!(msgs[0].content, SYSTEM_PROMPT_REPLY);
    assert_eq!(msgs[1].role, "user");
    assert_eq!(msgs[1].content, format!("{}ctx", REPLY_USER_PREFIX));
    assert_eq!(msgs[1].content, "以下是聊天截屏的 OCR 文本：\n\nctx");
}

#[test]
fn request_error_texts() {
    assert_eq!(request_failure_text(RequestFailure::RequestFailed, "dns"), "HTTP request failed: dns");
    assert_eq!(request_failure_text(RequestFailure::StreamError, "reset"), "Stream error: reset");
    assert_eq!(request_failure_text(RequestFailure::HttpError, "timeout"), "HTTP error: timeout");
    assert_eq!(request_failure_text(RequestFailure::ParseError, "eof"), "Parse error: eof");
    assert_eq!(api_error_text("401 Unauthorized", "bad key"), "API error (401 Unauthorized): bad key");
    assert_eq!(api_status_error_text("500 Internal Server Error"), "API error: 500 Internal Server Error");
    assert_eq!(api_error_text_truncated("429 Too Many Requests", "slow"), "API error (429 Too Many Requests): slow");
    let long = "x".repeat(250);
    assert_eq!(
        api_error_text_truncated("502 Bad Gateway", &long),
        format!("API error (502 Bad Gateway): {}", "x".repeat(200))
    );
    let wide = "é".repeat(150);
    assert_eq!(
        api_error_text_truncated("400 Bad Request", &wide),
        format!("API error (400 Bad Request): {}", "é".repeat(100))
    );
}
