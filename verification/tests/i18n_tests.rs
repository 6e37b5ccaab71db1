use falconshot::i18n::{ai_api_error, ai_parse_failed, ai_request_failed, hotkey_invalid, locale_to_lang, resolve_lang_from, tr, Lang, Str};

#[test]
fn tr_covers_both_langs() {
    for s in [
        Str::TrayShow,
        Str::TrayQuit,
        Str::EditorTitle,
        Str::HotkeyInvalid,
        Str::AiNoApiKey,
        Str::AiImageGenUrl,
        Str::AiRequestFailed,
        Str::AiParseFailed,
        Str::AiApiError,
        Str::AiNoContent,
    ] {
        assert!(!tr(Lang::ZhCn, s).is_empty());
        assert!(!tr(Lang::En, s).is_empty());
    }
}

#[test]
fn locale_mapping() {
    assert_eq!(locale_to_lang("zh-CN"), Lang::ZhCn);
    assert_eq!(locale_to_lang("ZH-tw"), Lang::ZhCn);
    assert_eq!(locale_to_lang("en-US"), Lang::En);
    assert_eq!(locale_to_lang(""), Lang::En);
}

#[test]
fn placeholder_substitution() {
    assert_eq!(hotkey_invalid(Lang::En, "F3"), "Invalid hotkey: F3");
    assert_eq!(ai_api_error(Lang::ZhCn, "500", "http://x", "boom"), "API 错误 500（POST http://x）: boom");
}

#[test]
fn other_placeholders_are_filled() {
    assert!(ai_request_failed(Lang::En, "timeout").contains("timeout"));
    assert!(ai_parse_failed(Lang::En, "eof").contains("eof"));
}

#[test]
fn explicit_language_setting_wins_over_locale() {
    assert_eq!(resolve_lang_from("en", "zh-CN"), Lang::En);
    assert_eq!(resolve_lang_from("zh-CN", "en-US"), Lang::ZhCn);
    assert_eq!(resolve_lang_from("system", "zh-TW"), Lang::ZhCn);
    assert_eq!(resolve_lang_from("system", "fr-FR"), Lang::En);
}
