use falconshot::desktop::{capture_file_name, editor_label, editor_url, hotkey_to_register, ocr_request_for, pin_id, pin_side};
use falconshot::floating::FloatingGroups;
use falconshot::geometry::Rect;
use falconshot::ocr::{MockOcrProvider, OcrRequest, WindowsOcrProvider};
use falconshot::platform::{rect_from_edges, select_monitor, WindowsCaptureBackend, WindowsOverlay, CAPTURE_UNAVAILABLE};
use falconshot::privacy::{PrivacyConfig, PrivacyMode, SensitiveDataDetector, SensitiveType};
use falconshot::settings::{split_key_path, CaptureAction, CaptureSettings, GeneralSettings, OcrEngine, OcrSettings, PrivacySettings};

#[test]
fn backend_creation_fails_on_non_windows() {
    let result = WindowsCaptureBackend::new();
    assert!(result.is_err());
}

#[test]
fn all_operations_fail_on_non_windows() {
    let result = WindowsCaptureBackend::new();
    assert!(result.is_err());
    assert!(result.err().unwrap().contains("only available on Windows"));
    assert_eq!(CAPTURE_UNAVAILABLE, "WindowsCaptureBackend is only available on Windows");
    assert!(WindowsOverlay::new().show_and_select().is_err());
}

#[test]
fn monitor_selection() {
    let bounds = vec![Rect::new(0, 0, 1920, 1080), Rect::new(1920, 0, 1280, 1024)];
    let primary = vec![false, true];
    assert_eq!(select_monitor(&Rect::new(2000, 10, 100, 100), &bounds, &primary), Some(1));
    assert_eq!(select_monitor(&Rect::new(10, 10, 100, 100), &bounds, &primary), Some(0));
    assert_eq!(select_monitor(&Rect::new(-500, -500, 10, 10), &bounds, &primary), Some(1));
    assert_eq!(select_monitor(&Rect::new(-500, -500, 10, 10), &bounds, &vec![false, false]), Some(0));
    assert_eq!(select_monitor(&Rect::new(0, 0, 10, 10), &vec![], &vec![]), None);
    assert_eq!(rect_from_edges(-10, 5, 30, 25), Rect::new(-10, 5, 40, 20));
}

#[test]
fn mock_ocr() {
    let p = MockOcrProvider::new();
    let req = OcrRequest { image_data: vec![0; 42], languages: vec![], preprocess: false };
    assert_eq!(p.recognized_text(&req), "[Mock OCR: 42 bytes]");
    assert_eq!(p.name(), "mock");
    assert!(p.is_local());
    assert_eq!(p.supported_languages(), vec!["en".to_string(), "zh".to_string()]);
}

#[test]
fn windows_ocr_script_and_output() {
    let p = WindowsOcrProvider::new();
    assert_eq!(p.language(), "zh-Hans");
    assert_eq!(WindowsOcrProvider::with_language("en").language(), "en");
    let script = WindowsOcrProvider::powershell_script("C:\\it's\\a.png");
    assert!(script.contains("GetFileFromPathAsync('C:\\it''s\\a.png')"));
    assert_eq!(script.matches("it''s").count(), 2);
    assert!(script.starts_with("\nAdd-Type -AssemblyName System.Runtime.WindowsRuntime\n"));
    assert!(script.ends_with("Write-Output $result.Text\n"));
    assert_eq!(WindowsOcrProvider::powershell_args("s")[3], "s");
    assert_eq!(WindowsOcrProvider::script_outcome(true, "  hi \r\n", "").unwrap(), "hi");
    assert_eq!(WindowsOcrProvider::script_outcome(false, "", "boom").unwrap_err(), "PowerShell OCR failed: boom");
    assert_eq!(WindowsOcrProvider::text_blocks("a\n\n  \r\nb c\n"), vec!["a".to_string(), "b c".to_string()]);
    assert_eq!(p.supported_languages().len(), 5);
}

#[test]
fn sensitive_data() {
    let d = SensitiveDataDetector::new();
    let found = d.detect("call 13812345678 or mail a.b@example.com, token=abc123");
    let kinds: Vec<SensitiveType> = found.iter().map(|m| m.sensitive_type).collect();
    assert_eq!(kinds, vec![SensitiveType::Phone, SensitiveType::Email, SensitiveType::Token]);
    assert_eq!(found[0].matched_text, "13812345678");
    assert_eq!((found[0].start, found[0].end), (5, 16));
    assert_eq!(found[1].matched_text, "a.b@example.com");
    assert!(d.detect("nothing here").is_empty());
    let ip = d.detect("host 192.168.1.20 up");
    assert_eq!(ip[0].sensitive_type, SensitiveType::IpAddress);
    assert_eq!(ip[0].matched_text, "192.168.1.20");
}

#[test]
fn privacy_defaults() {
    let c = PrivacyConfig::default();
    assert_eq!(c.mode, PrivacyMode::Normal);
    assert!(!c.allow_cloud_upload);
    assert!(c.save_history);
    let s = PrivacySettings::new();
    assert!(!s.privacy_mode && !s.allow_cloud && !s.encrypt_history && !s.auto_redact);
}

#[test]
fn settings_defaults_and_keys() {
    assert_eq!(GeneralSettings::new().language, "system");
    assert_eq!(GeneralSettings::new().default_image_format, "png");
    assert_eq!(CaptureSettings::new().default_action, CaptureAction::Copy);
    assert_eq!(OcrSettings::new().engine, OcrEngine::Local);
    assert_eq!(split_key_path("general.language"), vec!["general".to_string(), "language".to_string()]);
    assert_eq!(split_key_path(""), vec!["".to_string()]);
    assert_eq!(split_key_path("a..b."), vec!["a", "", "b", ""].iter().map(|s| s.to_string()).collect::<Vec<_>>());
}

#[test]
fn groups() {
    let mut g = FloatingGroups::new();
    g.create_group("g1", "one", vec!["w1".to_string(), "w2".to_string()]);
    g.create_group("g2", "two", vec!["w2".to_string()]);
    g.forget_window("w2");
    assert_eq!(g.groups()[0].window_ids, vec!["w1".to_string()]);
    assert!(g.groups()[1].window_ids.is_empty());
    g.remove_group("g1");
    assert_eq!(g.groups().len(), 1);
    assert_eq!(g.groups()[0].id, "g2");
    assert!(g.groups()[0].visible);
}

#[test]
fn desktop_names_and_urls() {
    assert_eq!(pin_id(123), "pin-123");
    assert_eq!(editor_label(9), "editor-9");
    assert_eq!(capture_file_name(77), "capture_77.png");
    assert_eq!(pin_side(-3), 1);
    assert_eq!(pin_side(40), 40);
    assert_eq!(
        editor_url("C:\\a b.png", -10, 20, 300, 200, 12, -4),
        "index.html?editor=1&path=C%3A%5Ca%20b.png&x=-10&y=20&w=300&h=200&ox=12&oy=-4"
    );
    assert_eq!(hotkey_to_register(false, "  F2 "), Some("F2".to_string()));
    assert_eq!(hotkey_to_register(true, "F2"), None);
    assert_eq!(hotkey_to_register(false, "   "), None);
    let req = ocr_request_for(vec![1, 2]);
    assert_eq!(req.languages, vec!["zh-Hans".to_string(), "en".to_string()]);
    assert!(req.preprocess);
}

#[test]
fn editor_url_percent_encodes_utf8_paths() {
    assert_eq!(
        editor_url("C:\\截图\\a b~.png", 1, 2, 3, 4, 5, 6),
        "index.html?editor=1&path=C%3A%5C%E6%88%AA%E5%9B%BE%5Ca%20b~.png&x=1&y=2&w=3&h=4&ox=5&oy=6"
    );
}
