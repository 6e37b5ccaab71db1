use falconshot::ai::{
    base64_encode, chat_endpoint, extract_reply, plan_ai_extract, png_data_url_of, read_stream, trim_trailing_char, AiRequest,
    ChatMessage, ChatRole, MessageContent, OpenAiProvider, PromptCategory, PromptTemplate, DEFAULT_BASE_URL,
    DEFAULT_SYSTEM_PROMPT, DEFAULT_USER_PROMPT, IMAGE_ENDPOINT_MESSAGE, MISSING_CONTENT_MESSAGE, MISSING_KEY_MESSAGE,
};
use falconshot::settings::AiSettings;

#[test]
fn base64_known_values() {
    assert_eq!(base64_encode(b""), "");
    assert_eq!(base64_encode(b"f"), "Zg==");
    assert_eq!(base64_encode(b"fo"), "Zm8=");
    assert_eq!(base64_encode(b"foo"), "Zm9v");
    assert_eq!(base64_encode(b"foobar"), "Zm9vYmFy");
    assert_eq!(base64_encode(&[0xff, 0xfe, 0x00]), "//4A");
}

#[test]
fn base64_length_law() {
    for n in 0..20usize {
        let data: Vec<u8> = (0..n as u8).collect();
        assert_eq!(base64_encode(&data).len(), 4 * ((n + 2) / 3));
    }
}

#[test]
fn data_url_prefix() {
    assert_eq!(png_data_url_of(b"ab"), "data:image/png;base64,YWI=");
}

#[test]
fn provider_setup() {
    let p = OpenAiProvider::new("k", "https://host/v1///", "m");
    assert_eq!(p.chat_url(), "https://host/v1/chat/completions");
    assert_eq!(p.auth_header(), "Bearer k");
    assert_eq!(p.timeout_secs(), 60);
    let p = p.with_timeout(5).with_vision(false);
    assert_eq!(p.timeout_secs(), 5);
    assert_eq!(p.name(), "openai-compatible");
    assert!(!p.is_local());
    assert_eq!(trim_trailing_char("a//", '/'), "a");
}

fn request() -> AiRequest {
    AiRequest {
        image_data: b"img".to_vec(),
        prompt: "what?".to_string(),
        system_prompt: Some("sys".to_string()),
        history: vec![ChatMessage { role: ChatRole::Assistant, content: "earlier".to_string() }],
        max_tokens: None,
        conversation_id: None,
    }
}

#[test]
fn messages_in_order_with_image() {
    let p = OpenAiProvider::new("k", "u", "m");
    let msgs = p.build_messages(&request());
    assert_eq!(msgs.len(), 3);
    assert_eq!(msgs[0].role, ChatRole::System);
    assert_eq!(msgs[1].role.as_str(), "assistant");
    match &msgs[2].content {
        MessageContent::TextAndImage { text, image_url } => {
            assert_eq!(text, "what?");
            assert_eq!(image_url, "data:image/png;base64,aW1n");
        }
        _ => panic!("expected an image part"),
    }
    let p = p.with_vision(false);
    let msgs = p.build_messages(&request());
    assert!(matches!(&msgs[2].content, MessageContent::Text(t) if t == "what?"));
}

#[test]
fn stream_parsing_stops_at_done() {
    let body = "data: {\"choices\":[{\"delta\":{\"content\":\"Hel\"}}]}\n: keep-alive\r\n  data: {\"choices\":[{\"delta\":{\"content\":\"lo\"}}]}  \r\ndata: {\"choices\":[{\"delta\":{}}]}\ndata: not json\ndata: [DONE]\ndata: {\"choices\":[{\"delta\":{\"content\":\"late\"}}]}\n";
    let s = read_stream(body);
    assert_eq!(s.deltas, vec!["Hel".to_string(), "lo".to_string()]);
    assert_eq!(s.content, "Hello");
}

fn settings() -> AiSettings {
    AiSettings::new()
}

#[test]
fn extract_plan_needs_a_key() {
    let s = settings();
    match plan_ai_extract(&s, None, None) {
        Err(e) => assert_eq!(e, MISSING_KEY_MESSAGE),
        Ok(_) => panic!("expected an error"),
    }
    let plan = plan_ai_extract(&s, Some("env-key"), Some("   ")).unwrap();
    assert_eq!(plan.api_key, "env-key");
    assert_eq!(plan.base_url, DEFAULT_BASE_URL);
    assert_eq!(plan.system_prompt, DEFAULT_SYSTEM_PROMPT);
    assert_eq!(plan.user_prompt, DEFAULT_USER_PROMPT);
    assert_eq!(plan.timeout_secs, 60);
}

#[test]
fn extract_plan_prefers_settings() {
    let mut s = settings();
    s.api_key = "cfg".to_string();
    s.base_url = None;
    s.system_prompt = "be brief".to_string();
    s.timeout_secs = 3;
    let plan = plan_ai_extract(&s, Some("env"), Some("read it")).unwrap();
    assert_eq!(plan.api_key, "cfg");
    assert_eq!(plan.base_url, DEFAULT_BASE_URL);
    assert_eq!(plan.system_prompt, "be brief");
    assert_eq!(plan.user_prompt, "read it");
    assert_eq!(plan.timeout_secs, 10);
}

#[test]
fn endpoints() {
    assert_eq!(chat_endpoint("https://h/v1/").unwrap(), "https://h/v1/chat/completions");
    assert_eq!(chat_endpoint("https://h/v1/chat/completions").unwrap(), "https://h/v1/chat/completions");
    assert_eq!(chat_endpoint("https://h/v1/images/generations/").unwrap_err(), IMAGE_ENDPOINT_MESSAGE);
}

#[test]
fn replies() {
    assert_eq!(extract_reply(true, "200 OK", "u", None, "{}", Some("text")).unwrap(), "text");
    assert_eq!(extract_reply(true, "200 OK", "u", None, "{}", None).unwrap_err(), MISSING_CONTENT_MESSAGE);
    assert_eq!(
        extract_reply(false, "401 Unauthorized", "https://x", Some("bad key"), "{}", None).unwrap_err(),
        "API 错误 401 Unauthorized（POST https://x）: bad key"
    );
    assert_eq!(extract_reply(false, "500", "u", None, "{\"a\":1}", None).unwrap_err(), "API 错误 500（POST u）: {\"a\":1}");
}

#[test]
fn reply_fields_and_fallbacks() {
    let p = OpenAiProvider::new("k", "u", "model-x");
    let r = p.response_from_reply(None, Some(5_000_000_000), None, 7, None);
    assert_eq!(r.content, "");
    assert_eq!(r.model, "model-x");
    assert_eq!(r.tokens_used, (5_000_000_000u64 as u32));
    assert_eq!(r.duration_ms, 7);
}

#[test]
fn builtin_templates_listed() {
    let ts = PromptTemplate::builtin_templates();
    assert_eq!(ts.len(), 4);
    assert_eq!(ts[0].id, "summarize");
    assert_eq!(ts[2].category, PromptCategory::ErrorAnalysis);
    assert_eq!(ts[3].name, "提取表格");
}
