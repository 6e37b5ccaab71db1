use falconshot::ai::{api_error_message, extract_reply_from_body, OpenAiProvider, MISSING_CONTENT_MESSAGE};

const URL: &str = "https://host/v1/chat/completions";

#[test]
fn extraction_reply_body_gives_the_text() {
    let body = br#"{"choices":[{"message":{"content":"hello"}}]}"#;
    assert_eq!(extract_reply_from_body(true, "200 OK", URL, body), Ok("hello".to_string()));
}

#[test]
fn extraction_reply_body_not_json() {
    assert_eq!(
        extract_reply_from_body(true, "200 OK", URL, b"<html>"),
        Err("解析响应失败: error decoding response body".to_string())
    );
    assert!(extract_reply_from_body(false, "502 Bad Gateway", URL, b"oops").is_err());
}

#[test]
fn extraction_reply_body_api_error() {
    let body = br#"{"error":{"message":"bad key"}}"#;
    assert_eq!(
        extract_reply_from_body(false, "401 Unauthorized", URL, body),
        Err(format!("API 错误 401 Unauthorized（POST {URL}）: bad key"))
    );
    let body = br#"{ "detail" : 1 }"#;
    assert_eq!(
        extract_reply_from_body(false, "500 Internal Server Error", URL, body),
        Err(format!("API 错误 500 Internal Server Error（POST {URL}）: {{\"detail\":1}}"))
    );
}

#[test]
fn extraction_reply_body_without_text() {
    let body = br#"{"choices":[]}"#;
    assert_eq!(extract_reply_from_body(true, "200 OK", URL, body), Err(MISSING_CONTENT_MESSAGE.to_string()));
}

#[test]
fn chat_reply_body_gives_the_response() {
    let p = OpenAiProvider::new("k", "u", "model-x");
    let body = br#"{"choices":[{"message":{"content":"hi"}}],"usage":{"total_tokens":42},"model":"m2"}"#;
    let r = p.response_from_body(body, 7, Some("c".to_string())).ok().unwrap();
    assert_eq!(r.content, "hi");
    assert_eq!(r.tokens_used, 42);
    assert_eq!(r.model, "m2");
    assert_eq!(r.duration_ms, 7);
    assert_eq!(r.conversation_id, Some("c".to_string()));
    let r = p.response_from_body(b"{}", 1, None).ok().unwrap();
    assert_eq!((r.content.as_str(), r.tokens_used, r.model.as_str()), ("", 0, "model-x"));
    match p.response_from_body(b"nope", 1, None) {
        Err(e) => assert_eq!(e, "error decoding response body"),
        Ok(_) => panic!("a body that is not JSON must be refused"),
    }
}

#[test]
fn refused_chat_request_message() {
    assert_eq!(api_error_message("404 Not Found", "gone"), "API error 404 Not Found: gone");
}
