use vstd::prelude::*;

use crate::text::string_from;

verus! {

/// General preferences.
pub struct GeneralSettings {
    pub launch_on_startup: bool,
    /// `"system"` follows the operating system's language.
    pub language: String,
    pub default_save_dir: String,
    pub default_image_format: String,
}

impl GeneralSettings {
    pub fn new() -> (s: Self)
        ensures
            !s.launch_on_startup,
            s.language@ == "system"@,
            s.default_save_dir@ == Seq::<char>::empty(),
            s.default_image_format@ == "png"@,
    {
        GeneralSettings {
            launch_on_startup: false,
            language: String::from_str("system"),
            default_save_dir: String::new(),
            default_image_format: String::from_str("png"),
        }
    }
}

/// Light, dark, or whatever the system uses.
#[derive(Debug, Clone, Copy, PartialEq, Eq, Structural)]
pub enum ThemeMode {
    Light,
    Dark,
    System,
}

/// What happens after a region is captured.
#[derive(Debug, Clone, Copy, PartialEq, Eq, Structural)]
pub enum CaptureAction {
    Copy,
    Save,
    Pin,
    Ocr,
    AiAnalyze,
    Annotate,
}

/// Capture preferences.
#[derive(Debug, Clone, Copy, PartialEq, Eq, Structural)]
pub struct CaptureSettings {
    pub default_action: CaptureAction,
    pub show_magnifier: bool,
    pub show_dimensions: bool,
    pub remember_last_region: bool,
    pub auto_detect_window: bool,
}

impl CaptureSettings {
    pub fn new() -> (s: Self)
        ensures
            s == (CaptureSettings {
                default_action: CaptureAction::Copy,
                show_magnifier: true,
                show_dimensions: true,
                remember_last_region: true,
                auto_detect_window: true,
            }),
    {
        CaptureSettings {
            default_action: CaptureAction::Copy,
            show_magnifier: true,
            show_dimensions: true,
            remember_last_region: true,
            auto_detect_window: true,
        }
    }
}

/// Where text recognition runs.
#[derive(Debug, Clone, Copy, PartialEq, Eq, Structural)]
pub enum OcrEngine {
    Local,
    Cloud,
    Auto,
}

/// Text-recognition preferences.
pub struct OcrSettings {
    pub engine: OcrEngine,
    pub default_language: String,
    pub auto_copy: bool,
    pub preprocess: bool,
}

impl OcrSettings {
    pub fn new() -> (s: Self)
        ensures
            s.engine == OcrEngine::Local,
            s.default_language@ == "zh-CN"@,
            !s.auto_copy,
            s.preprocess,
    {
        OcrSettings {
            engine: OcrEngine::Local,
            default_language: String::from_str("zh-CN"),
            auto_copy: false,
            preprocess: true,
        }
    }
}

/// The AI service the screenshots are sent to.
pub struct AiSettings {
    pub provider: String,
    pub model: String,
    pub base_url: Option<String>,
    pub api_key: String,
    pub system_prompt: String,
    pub timeout_secs: u32,
    pub allow_image_upload: bool,
    pub save_history: bool,
}

impl AiSettings {
    pub fn new() -> (s: Self)
        ensures
            s.provider@ == "openai_compatible"@,
            s.model@ == "deepseek-chat"@,
            s.base_url matches Some(u) && u@ == "https://api.deepseek.com"@,
            s.api_key@ == Seq::<char>::empty(),
            s.system_prompt@ == Seq::<char>::empty(),
            s.timeout_secs == 60,
            !s.allow_image_upload,
            s.save_history,
    {
        AiSettings {
            provider: String::from_str("openai_compatible"),
            model: String::from_str("deepseek-chat"),
            base_url: Some(String::from_str("https://api.deepseek.com")),
            api_key: String::new(),
            system_prompt: String::new(),
            timeout_secs: 60,
            allow_image_upload: false,
            save_history: true,
        }
    }
}

/// Privacy preferences.
#[derive(Debug, Clone, Copy, PartialEq, Eq, Structural)]
pub struct PrivacySettings {
    pub privacy_mode: bool,
    pub allow_cloud: bool,
    pub encrypt_history: bool,
    pub auto_redact: bool,
}

impl PrivacySettings {
    pub fn new() -> (s: Self)
        ensures
            s == (PrivacySettings {
                privacy_mode: false,
                allow_cloud: false,
                encrypt_history: false,
                auto_redact: false,
            }),
    {
        PrivacySettings { privacy_mode: false, allow_cloud: false, encrypt_history: false, auto_redact: false }
    }
}

/// The default screenshot hotkey.
pub open spec fn default_screenshot_hotkey_spec() -> Seq<char> {
    "F2"@
}

pub fn default_screenshot_hotkey() -> (s: String)
    ensures
        s@ == default_screenshot_hotkey_spec(),
{
    String::from_str("F2")
}

/// The segments of a dotted settings key, `"general.language"` giving `general` and
/// `language`; as `str::split('.')` gives them, empty segments included.
pub open spec fn key_segments(key: Seq<char>) -> Seq<Seq<char>>
    decreases key.len(),
{
    if key.len() == 0 {
        seq![Seq::empty()]
    } else {
        let rest = key_segments(key.drop_last());
        if key.last() == '.' {
            rest.push(Seq::empty())
        } else {
            rest.update(rest.len() - 1, rest.last().push(key.last()))
        }
    }
}

/// A dotted key has at least one segment.
pub proof fn lemma_key_segments_nonempty(key: Seq<char>)
    ensures
        key_segments(key).len() >= 1,
    decreases key.len(),
{
    if key.len() > 0 {
        lemma_key_segments_nonempty(key.drop_last());
    }
}

/// Splits a dotted settings key at every `'.'`.
pub fn split_key_path(key: &str) -> (parts: Vec<String>)
    ensures
        parts@.len() == key_segments(key@).len(),
        forall|i: int| 0 <= i < parts@.len() ==> #[trigger] parts@[i]@ == key_segments(key@)[i],
{
    let chars = crate::text::chars_of(key);
    let ghost k = chars@;
    let mut done: Vec<Vec<char>> = Vec::new();
    let mut cur: Vec<char> = Vec::new();
    let mut i: usize = 0;
    while i < chars.len()
        invariant
            k == chars@,
            i <= chars.len(),
            done@.len() + 1 == key_segments(k.subrange(0, i as int)).len(),
            forall|j: int| 0 <= j < done@.len() ==> #[trigger] done@[j]@ == key_segments(k.subrange(0, i as int))[j],
            cur@ == key_segments(k.subrange(0, i as int)).last(),
        decreases chars.len() - i,
    {
        let c = chars[i];
        proof {
            let pre = k.subrange(0, i as int);
            let next = k.subrange(0, i + 1);
            assert(next.drop_last() == pre);
            assert(next.last() == c);
            lemma_key_segments_nonempty(pre);
        }
        if c == '.' {
            let finished = cur;
            done.push(finished);
            cur = Vec::new();
        } else {
            cur.push(c);
        }
        i = i + 1;
    }
    proof {
        assert(k.subrange(0, k.len() as int) == k);
    }
    let mut parts: Vec<String> = Vec::new();
    let mut j: usize = 0;
    while j < done.len()
        invariant
            j <= done.len(),
            parts@.len() == j,
            forall|t: int| 0 <= t < j ==> #[trigger] parts@[t]@ == done@[t]@,
        decreases done.len() - j,
    {
        parts.push(string_from(&done[j]));
        j = j + 1;
    }
    parts.push(string_from(&cur));
    parts
}

} // verus!
