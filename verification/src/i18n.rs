use vstd::prelude::*;

use crate::text::{chars_of, contains_spec, has_at, replace_all, replace_spec, string_from};

verus! {

/// UI languages shipped with the app; simplified Chinese is the product default.
#[derive(Debug, Clone, Copy, PartialEq, Eq, Structural)]
pub enum Lang {
    ZhCn,
    En,
}

/// Source strings of the UI; `{braces}` mark placeholders.
#[derive(Debug, Clone, Copy, PartialEq, Eq, Structural)]
pub enum Str {
    TrayShow,
    TrayQuit,
    EditorTitle,
    HotkeyInvalid,
    AiNoApiKey,
    AiImageGenUrl,
    AiRequestFailed,
    AiParseFailed,
    AiApiError,
    AiNoContent,
}

/// The text of `s` in `lang`.
pub open spec fn tr_spec(lang: Lang, s: Str) -> Seq<char> {
    match (lang, s) {
        (Lang::ZhCn, Str::TrayShow) => "显示主窗口"@,
        (Lang::En, Str::TrayShow) => "Show Main Window"@,
        (Lang::ZhCn, Str::TrayQuit) => "退出"@,
        (Lang::En, Str::TrayQuit) => "Quit"@,
        (Lang::ZhCn, Str::EditorTitle) => "FalconShot 编辑"@,
        (Lang::En, Str::EditorTitle) => "FalconShot Editor"@,
        (Lang::ZhCn, Str::HotkeyInvalid) => "无效的快捷键: {hotkey}"@,
        (Lang::En, Str::HotkeyInvalid) => "Invalid hotkey: {hotkey}"@,
        (Lang::ZhCn, Str::AiNoApiKey) => "请先在设置页填写 API Key（需要支持视觉的模型）"@,
        (Lang::En, Str::AiNoApiKey) => "Set an API Key on the Settings page first (a vision-capable model is required)"@,
        (Lang::ZhCn, Str::AiImageGenUrl) => "Base URL 指向的是图片生成接口（images/generations），无法用于文字识别。请填写 API 根地址，例如 https://api.agnes-ai.cn/v1"@,
        (Lang::En, Str::AiImageGenUrl) => "The Base URL points to an image-generation endpoint (images/generations), which cannot extract text. Use the API root, e.g. https://api.agnes-ai.cn/v1"@,
        (Lang::ZhCn, Str::AiRequestFailed) => "请求失败: {error}"@,
        (Lang::En, Str::AiRequestFailed) => "Request failed: {error}"@,
        (Lang::ZhCn, Str::AiParseFailed) => "解析响应失败: {error}"@,
        (Lang::En, Str::AiParseFailed) => "Failed to parse response: {error}"@,
        (Lang::ZhCn, Str::AiApiError) => "API 错误 {status}（POST {url}）: {message}"@,
        (Lang::En, Str::AiApiError) => "API error {status} (POST {url}): {message}"@,
        (Lang::ZhCn, Str::AiNoContent) => "响应中缺少识别内容"@,
        (Lang::En, Str::AiNoContent) => "No recognized content in the response"@,
    }
}

pub fn tr(lang: Lang, s: Str) -> (r: &'static str)
    ensures
        r@ == tr_spec(lang, s),
{
    match (lang, s) {
        (Lang::ZhCn, Str::TrayShow) => "显示主窗口",
        (Lang::En, Str::TrayShow) => "Show Main Window",
        (Lang::ZhCn, Str::TrayQuit) => "退出",
        (Lang::En, Str::TrayQuit) => "Quit",
        (Lang::ZhCn, Str::EditorTitle) => "FalconShot 编辑",
        (Lang::En, Str::EditorTitle) => "FalconShot Editor",
        (Lang::ZhCn, Str::HotkeyInvalid) => "无效的快捷键: {hotkey}",
        (Lang::En, Str::HotkeyInvalid) => "Invalid hotkey: {hotkey}",
        (Lang::ZhCn, Str::AiNoApiKey) => "请先在设置页填写 API Key（需要支持视觉的模型）",
        (Lang::En, Str::AiNoApiKey) => {
            "Set an API Key on the Settings page first (a vision-capable model is required)"
        },
        (Lang::ZhCn, Str::AiImageGenUrl) => "Base URL 指向的是图片生成接口（images/generations），无法用于文字识别。请填写 API 根地址，例如 https://api.agnes-ai.cn/v1",
        (Lang::En, Str::AiImageGenUrl) => "The Base URL points to an image-generation endpoint (images/generations), which cannot extract text. Use the API root, e.g. https://api.agnes-ai.cn/v1",
        (Lang::ZhCn, Str::AiRequestFailed) => "请求失败: {error}",
        (Lang::En, Str::AiRequestFailed) => "Request failed: {error}",
        (Lang::ZhCn, Str::AiParseFailed) => "解析响应失败: {error}",
        (Lang::En, Str::AiParseFailed) => "Failed to parse response: {error}",
        (Lang::ZhCn, Str::AiApiError) => "API 错误 {status}（POST {url}）: {message}",
        (Lang::En, Str::AiApiError) => "API error {status} (POST {url}): {message}",
        (Lang::ZhCn, Str::AiNoContent) => "响应中缺少识别内容",
        (Lang::En, Str::AiNoContent) => "No recognized content in the response",
    }
}

/// ASCII lower-casing of one character, as `to_ascii_lowercase` does it.
pub open spec fn ascii_lower_spec(c: char) -> char {
    if 'A' <= c <= 'Z' {
        ((c as u32) + 32) as char
    } else {
        c
    }
}

pub fn ascii_lower(c: char) -> (r: char)
    ensures
        r == ascii_lower_spec(c),
{
    if 'A' <= c && c <= 'Z' {
        ((c as u8) + 32) as char
    } else {
        c
    }
}

/// A locale names Chinese when it starts with `zh`, in any ASCII case.
pub open spec fn locale_is_chinese(locale: Seq<char>) -> bool {
    locale.len() >= 2 && ascii_lower_spec(locale[0]) == 'z' && ascii_lower_spec(locale[1]) == 'h'
}

pub fn locale_to_lang(locale: &str) -> (r: Lang)
    ensures
        r == (if locale_is_chinese(locale@) {
            Lang::ZhCn
        } else {
            Lang::En
        }),
{
    let cs = chars_of(locale);
    if cs.len() >= 2 && ascii_lower(cs[0]) == 'z' && ascii_lower(cs[1]) == 'h' {
        Lang::ZhCn
    } else {
        Lang::En
    }
}

/// The UI language for a settings value and the system locale: an explicit `zh-CN` or `en`
/// wins, anything else (`system` among it) follows the locale.
pub open spec fn resolve_lang_spec(setting: Seq<char>, locale: Seq<char>) -> Lang {
    if setting == "zh-CN"@ {
        Lang::ZhCn
    } else if setting == "en"@ {
        Lang::En
    } else if locale_is_chinese(locale) {
        Lang::ZhCn
    } else {
        Lang::En
    }
}

fn chars_eq(a: &Vec<char>, b: &Vec<char>) -> (r: bool)
    ensures
        r == (a@ == b@),
{
    if a.len() != b.len() {
        return false;
    }
    let mut i: usize = 0;
    while i < a.len()
        invariant
            a.len() == b.len(),
            0 <= i <= a.len(),
            forall|j: int| 0 <= j < i ==> a@[j] == b@[j],
        decreases a.len() - i,
    {
        if a[i] != b[i] {
            return false;
        }
        i = i + 1;
    }
    assert(a@ =~= b@);
    true
}

/// Chooses the UI language from the language setting and the system locale.
pub fn resolve_lang_from(setting: &str, locale: &str) -> (r: Lang)
    ensures
        r == resolve_lang_spec(setting@, locale@),
{
    let s = chars_of(setting);
    if chars_eq(&s, &chars_of("zh-CN")) {
        Lang::ZhCn
    } else if chars_eq(&s, &chars_of("en")) {
        Lang::En
    } else {
        locale_to_lang(locale)
    }
}

/// Replaces the placeholder `key` in `template` by `value`.
fn fill(template: &str, key: &str, value: &str) -> (r: String)
    requires
        key@.len() > 0,
    ensures
        r@ == replace_spec(template@, key@, value@),
{
    let t = chars_of(template);
    let k = chars_of(key);
    let v = chars_of(value);
    let out = replace_all(&t, &k, &v);
    string_from(&out)
}

pub fn hotkey_invalid(lang: Lang, hotkey: &str) -> (r: String)
    ensures
        r@ == replace_spec(tr_spec(lang, Str::HotkeyInvalid), "{hotkey}"@, hotkey@),
{
    proof {
        reveal_strlit("{hotkey}");
    }
    fill(tr(lang, Str::HotkeyInvalid), "{hotkey}", hotkey)
}

pub fn ai_request_failed(lang: Lang, error: &str) -> (r: String)
    ensures
        r@ == replace_spec(tr_spec(lang, Str::AiRequestFailed), "{error}"@, error@),
{
    proof {
        reveal_strlit("{error}");
    }
    fill(tr(lang, Str::AiRequestFailed), "{error}", error)
}

pub fn ai_parse_failed(lang: Lang, error: &str) -> (r: String)
    ensures
        r@ == replace_spec(tr_spec(lang, Str::AiParseFailed), "{error}"@, error@),
{
    proof {
        reveal_strlit("{error}");
    }
    fill(tr(lang, Str::AiParseFailed), "{error}", error)
}

pub fn ai_api_error(lang: Lang, status: &str, url: &str, message: &str) -> (r: String)
    ensures
        r@ == replace_spec(
            replace_spec(
                replace_spec(tr_spec(lang, Str::AiApiError), "{status}"@, status@),
                "{url}"@,
                url@,
            ),
            "{message}"@,
            message@,
        ),
{
    proof {
        reveal_strlit("{status}");
        reveal_strlit("{url}");
        reveal_strlit("{message}");
    }
    let a = fill(tr(lang, Str::AiApiError), "{status}", status);
    let b = fill(a.as_str(), "{url}", url);
    fill(b.as_str(), "{message}", message)
}

/// Every UI string has a non-empty text in both languages.
pub proof fn lemma_tr_nonempty(lang: Lang, s: Str)
    ensures
        tr_spec(lang, s).len() > 0,
{
    reveal_strlit("显示主窗口");
    reveal_strlit("Show Main Window");
    reveal_strlit("退出");
    reveal_strlit("Quit");
    reveal_strlit("FalconShot 编辑");
    reveal_strlit("FalconShot Editor");
    reveal_strlit("无效的快捷键: {hotkey}");
    reveal_strlit("Invalid hotkey: {hotkey}");
    reveal_strlit("请先在设置页填写 API Key（需要支持视觉的模型）");
    reveal_strlit("Set an API Key on the Settings page first (a vision-capable model is required)");
    reveal_strlit("Base URL 指向的是图片生成接口（images/generations），无法用于文字识别。请填写 API 根地址，例如 https://api.agnes-ai.cn/v1");
    reveal_strlit("The Base URL points to an image-generation endpoint (images/generations), which cannot extract text. Use the API root, e.g. https://api.agnes-ai.cn/v1");
    reveal_strlit("请求失败: {error}");
    reveal_strlit("Request failed: {error}");
    reveal_strlit("解析响应失败: {error}");
    reveal_strlit("Failed to parse response: {error}");
    reveal_strlit("API 错误 {status}（POST {url}）: {message}");
    reveal_strlit("API error {status} (POST {url}): {message}");
    reveal_strlit("响应中缺少识别内容");
    reveal_strlit("No recognized content in the response");
}

} // verus!

verus! {

/// The placeholders a UI string carries, in the order its English text has them.
pub open spec fn placeholders_of(s: Str) -> Seq<Seq<char>> {
    match s {
        Str::HotkeyInvalid => seq!["{hotkey}"@],
        Str::AiRequestFailed => seq!["{error}"@],
        Str::AiParseFailed => seq!["{error}"@],
        Str::AiApiError => seq!["{status}"@, "{url}"@, "{message}"@],
        _ => Seq::empty(),
    }
}

/// `t` holds each of `ps` at exactly one place, and every `{` in it begins one of them.
pub open spec fn carries_exactly(t: Seq<char>, ps: Seq<Seq<char>>) -> bool {
    &&& forall|k: int| 0 <= k < ps.len() ==> contains_spec(t, #[trigger] ps[k])
    &&& forall|k: int, i: int, j: int|
        0 <= k < ps.len() && #[trigger] has_at(t, ps[k], i) && #[trigger] has_at(t, ps[k], j) ==> i == j
    &&& forall|i: int|
        0 <= i < t.len() && #[trigger] t[i] == '{' ==> exists|k: int| 0 <= k < ps.len() && has_at(t, ps[k], i)
}

proof fn lemma_carries(t: Seq<char>, ps: Seq<Seq<char>>, pos: Seq<int>)
    requires
        ps.len() == pos.len(),
        forall|k: int| 0 <= k < ps.len() ==> (#[trigger] ps[k]).len() >= 2 && ps[k][0] == '{',
        forall|k: int, m: int| 0 <= k < ps.len() && 0 <= m < ps.len() && k != m ==> #[trigger] ps[k][1] != #[trigger] ps[m][1],
        forall|k: int| 0 <= k < ps.len() ==> #[trigger] has_at(t, ps[k], pos[k]),
        forall|i: int| 0 <= i < t.len() && t[i] == '{' ==> exists|m: int| 0 <= m < pos.len() && i == #[trigger] pos[m],
    ensures
        carries_exactly(t, ps),
{
    assert forall|k: int| 0 <= k < ps.len() implies contains_spec(t, #[trigger] ps[k]) by {
        assert(has_at(t, ps[k], pos[k]));
    }
    assert forall|k: int, i: int, j: int|
        0 <= k < ps.len() && #[trigger] has_at(t, ps[k], i) && #[trigger] has_at(t, ps[k], j) implies i == j by {
        lemma_at_placeholder(t, ps, pos, k, i);
        lemma_at_placeholder(t, ps, pos, k, j);
    }
    assert forall|i: int| 0 <= i < t.len() && #[trigger] t[i] == '{' implies exists|k: int|
        0 <= k < ps.len() && has_at(t, ps[k], i) by {
        let m = choose|m: int| 0 <= m < pos.len() && i == #[trigger] pos[m];
        assert(has_at(t, ps[m], pos[m]));
    }
}

proof fn lemma_at_placeholder(t: Seq<char>, ps: Seq<Seq<char>>, pos: Seq<int>, k: int, i: int)
    requires
        ps.len() == pos.len(),
        forall|k: int| 0 <= k < ps.len() ==> (#[trigger] ps[k]).len() >= 2 && ps[k][0] == '{',
        forall|k: int, m: int| 0 <= k < ps.len() && 0 <= m < ps.len() && k != m ==> #[trigger] ps[k][1] != #[trigger] ps[m][1],
        forall|k: int| 0 <= k < ps.len() ==> #[trigger] has_at(t, ps[k], pos[k]),
        forall|i: int| 0 <= i < t.len() && t[i] == '{' ==> exists|m: int| 0 <= m < pos.len() && i == #[trigger] pos[m],
        0 <= k < ps.len(),
        has_at(t, ps[k], i),
    ensures
        i == pos[k],
{
    assert(t.subrange(i, i + ps[k].len())[0] == ps[k][0]);
    assert(t[i] == '{');
    let m = choose|m: int| 0 <= m < pos.len() && i == #[trigger] pos[m];
    assert(has_at(t, ps[m], pos[m]));
    assert(t.subrange(i, i + ps[k].len())[1] == t[i + 1]);
    assert(t.subrange(i, i + ps[m].len())[1] == t[i + 1]);
    if m != k {
        assert(ps[k][1] != ps[m][1]);
    }
}

/// Every UI string carries, in both languages, exactly the placeholders of its kind, each
/// once: `{hotkey}` for an invalid hotkey, `{error}` for a failed request or parse, `{status}`,
/// `{url}` and `{message}` for an API error, none elsewhere.
pub proof fn lemma_tr_placeholders(lang: Lang, s: Str)
    ensures
        carries_exactly(tr_spec(lang, s), placeholders_of(s)),
{
    reveal_strlit("{hotkey}");
    reveal_strlit("{error}");
    reveal_strlit("{status}");
    reveal_strlit("{url}");
    reveal_strlit("{message}");
    match (lang, s) {
        (Lang::ZhCn, Str::TrayShow) => {
            reveal_strlit("显示主窗口");
            let t = tr_spec(lang, s);
            assert(forall|i: int| 0 <= i < t.len() ==> t[i] != '{');
            lemma_carries(t, placeholders_of(s), Seq::<int>::empty());
        },
        (Lang::En, Str::TrayShow) => {
            reveal_strlit("Show Main Window");
            let t = tr_spec(lang, s);
            assert(forall|i: int| 0 <= i < t.len() ==> t[i] != '{');
            lemma_carries(t, placeholders_of(s), Seq::<int>::empty());
        },
        (Lang::ZhCn, Str::TrayQuit) => {
            reveal_strlit("退出");
            let t = tr_spec(lang, s);
            assert(forall|i: int| 0 <= i < t.len() ==> t[i] != '{');
            lemma_carries(t, placeholders_of(s), Seq::<int>::empty());
        },
        (Lang::En, Str::TrayQuit) => {
            reveal_strlit("Quit");
            let t = tr_spec(lang, s);
            assert(forall|i: int| 0 <= i < t.len() ==> t[i] != '{');
            lemma_carries(t, placeholders_of(s), Seq::<int>::empty());
        },
        (Lang::ZhCn, Str::EditorTitle) => {
            reveal_strlit("FalconShot 编辑");
            let t = tr_spec(lang, s);
            assert(forall|i: int| 0 <= i < t.len() ==> t[i] != '{');
            lemma_carries(t, placeholders_of(s), Seq::<int>::empty());
        },
        (Lang::En, Str::EditorTitle) => {
            reveal_strlit("FalconShot Editor");
            let t = tr_spec(lang, s);
            assert(forall|i: int| 0 <= i < t.len() ==> t[i] != '{');
            lemma_carries(t, placeholders_of(s), Seq::<int>::empty());
        },
        (Lang::ZhCn, Str::HotkeyInvalid) => {
            reveal_strlit("无效的快捷键: {hotkey}");
            let t = tr_spec(lang, s);
            assert(t.subrange(8, 16) =~= "{hotkey}"@);
            assert(forall|i: int| 0 <= i < t.len() && t[i] == '{' ==> i == 8);
            let pos = seq![8int];
            assert(pos[0] == 8int);
            lemma_carries(t, placeholders_of(s), pos);
        },
        (Lang::En, Str::HotkeyInvalid) => {
            reveal_strlit("Invalid hotkey: {hotkey}");
            let t = tr_spec(lang, s);
            assert(t.subrange(16, 24) =~= "{hotkey}"@);
            assert(forall|i: int| 0 <= i < t.len() && t[i] == '{' ==> i == 16);
            let pos = seq![16int];
            assert(pos[0] == 16int);
            lemma_carries(t, placeholders_of(s), pos);
        },
        (Lang::ZhCn, Str::AiNoApiKey) => {
            reveal_strlit("请先在设置页填写 API Key（需要支持视觉的模型）");
            let t = tr_spec(lang, s);
            assert(forall|i: int| 0 <= i < t.len() ==> t[i] != '{');
            lemma_carries(t, placeholders_of(s), Seq::<int>::empty());
        },
        (Lang::En, Str::AiNoApiKey) => {
            reveal_strlit("Set an API Key on the Settings page first (a vision-capable model is required)");
            let t = tr_spec(lang, s);
            assert(forall|i: int| 0 <= i < t.len() ==> t[i] != '{');
            lemma_carries(t, placeholders_of(s), Seq::<int>::empty());
        },
        (Lang::ZhCn, Str::AiImageGenUrl) => {
            reveal_strlit("Base URL 指向的是图片生成接口（images/generations），无法用于文字识别。请填写 API 根地址，例如 https://api.agnes-ai.cn/v1");
            let t = tr_spec(lang, s);
            assert(forall|i: int| 0 <= i < t.len() ==> t[i] != '{');
            lemma_carries(t, placeholders_of(s), Seq::<int>::empty());
        },
        (Lang::En, Str::AiImageGenUrl) => {
            reveal_strlit("The Base URL points to an image-generation endpoint (images/generations), which cannot extract text. Use the API root, e.g. https://api.agnes-ai.cn/v1");
            let t = tr_spec(lang, s);
            assert(forall|i: int| 0 <= i < t.len() ==> t[i] != '{');
            lemma_carries(t, placeholders_of(s), Seq::<int>::empty());
        },
        (Lang::ZhCn, Str::AiRequestFailed) => {
            reveal_strlit("请求失败: {error}");
            let t = tr_spec(lang, s);
            assert(t.subrange(6, 13) =~= "{error}"@);
            assert(forall|i: int| 0 <= i < t.len() && t[i] == '{' ==> i == 6);
            let pos = seq![6int];
            assert(pos[0] == 6int);
            lemma_carries(t, placeholders_of(s), pos);
        },
        (Lang::En, Str::AiRequestFailed) => {
            reveal_strlit("Request failed: {error}");
            let t = tr_spec(lang, s);
            assert(t.subrange(16, 23) =~= "{error}"@);
            assert(forall|i: int| 0 <= i < t.len() && t[i] == '{' ==> i == 16);
            let pos = seq![16int];
            assert(pos[0] == 16int);
            lemma_carries(t, placeholders_of(s), pos);
        },
        (Lang::ZhCn, Str::AiParseFailed) => {
            reveal_strlit("解析响应失败: {error}");
            let t = tr_spec(lang, s);
            assert(t.subrange(8, 15) =~= "{error}"@);
            assert(forall|i: int| 0 <= i < t.len() && t[i] == '{' ==> i == 8);
            let pos = seq![8int];
            assert(pos[0] == 8int);
            lemma_carries(t, placeholders_of(s), pos);
        },
        (Lang::En, Str::AiParseFailed) => {
            reveal_strlit("Failed to parse response: {error}");
            let t = tr_spec(lang, s);
            assert(t.subrange(26, 33) =~= "{error}"@);
            assert(forall|i: int| 0 <= i < t.len() && t[i] == '{' ==> i == 26);
            let pos = seq![26int];
            assert(pos[0] == 26int);
            lemma_carries(t, placeholders_of(s), pos);
        },
        (Lang::ZhCn, Str::AiApiError) => {
            reveal_strlit("API 错误 {status}（POST {url}）: {message}");
            let t = tr_spec(lang, s);
            assert(t.subrange(7, 15) =~= "{status}"@);
            assert(t.subrange(21, 26) =~= "{url}"@);
            assert(t.subrange(29, 38) =~= "{message}"@);
            assert(forall|i: int| 0 <= i < t.len() && t[i] == '{' ==> i == 7 || i == 21 || i == 29);
            let pos = seq![7int, 21int, 29int];
            assert(pos[0] == 7int);
            assert(pos[1] == 21int);
            assert(pos[2] == 29int);
            lemma_carries(t, placeholders_of(s), pos);
        },
        (Lang::En, Str::AiApiError) => {
            reveal_strlit("API error {status} (POST {url}): {message}");
            let t = tr_spec(lang, s);
            assert(t.subrange(10, 18) =~= "{status}"@);
            assert(t.subrange(25, 30) =~= "{url}"@);
            assert(t.subrange(33, 42) =~= "{message}"@);
            assert(forall|i: int| 0 <= i < t.len() && t[i] == '{' ==> i == 10 || i == 25 || i == 33);
            let pos = seq![10int, 25int, 33int];
            assert(pos[0] == 10int);
            assert(pos[1] == 25int);
            assert(pos[2] == 33int);
            lemma_carries(t, placeholders_of(s), pos);
        },
        (Lang::ZhCn, Str::AiNoContent) => {
            reveal_strlit("响应中缺少识别内容");
            let t = tr_spec(lang, s);
            assert(forall|i: int| 0 <= i < t.len() ==> t[i] != '{');
            lemma_carries(t, placeholders_of(s), Seq::<int>::empty());
        },
        (Lang::En, Str::AiNoContent) => {
            reveal_strlit("No recognized content in the response");
            let t = tr_spec(lang, s);
            assert(forall|i: int| 0 <= i < t.len() ==> t[i] != '{');
            lemma_carries(t, placeholders_of(s), Seq::<int>::empty());
        },
    }
}

} // verus!
