use vstd::prelude::*;

use crate::ocr::OcrRequest;
use crate::text::{chars_of, dec_spec, hex2_spec, push_chars, push_decimal, push_signed_decimal, push_str, signed_dec_spec, string_from, trim, trim_spec};

verus! {

/// The characters `urlencoding` leaves as they are: ASCII letters, digits and `-._~`.
pub open spec fn url_unreserved(c: char) -> bool {
    ('0' <= c <= '9') || ('A' <= c <= 'Z') || ('a' <= c <= 'z') || c == '-' || c == '.' || c == '_' || c == '~'
}

/// The UTF-8 encoding of a character.
pub open spec fn utf8_bytes(c: char) -> Seq<u8> {
    let v = c as int;
    if v < 0x80 {
        seq![v as u8]
    } else if v < 0x800 {
        seq![(0xC0 + v / 64) as u8, (0x80 + v % 64) as u8]
    } else if v < 0x10000 {
        seq![(0xE0 + v / 4096) as u8, (0x80 + (v / 64) % 64) as u8, (0x80 + v % 64) as u8]
    } else {
        seq![
            (0xF0 + v / 262144) as u8,
            (0x80 + (v / 4096) % 64) as u8,
            (0x80 + (v / 64) % 64) as u8,
            (0x80 + v % 64) as u8,
        ]
    }
}

/// One byte percent-encoded: an unreserved ASCII character stays, any other byte becomes
/// `%` and two upper-case hex digits.
pub open spec fn percent_byte(b: u8) -> Seq<char> {
    if url_unreserved(b as char) {
        seq![b as char]
    } else {
        seq!['%'] + hex2_spec(b)
    }
}

/// Bytes percent-encoded one by one.
pub open spec fn percent_bytes(bs: Seq<u8>) -> Seq<char>
    decreases bs.len(),
{
    if bs.len() == 0 {
        Seq::empty()
    } else {
        percent_bytes(bs.drop_last()) + percent_byte(bs.last())
    }
}

/// What `urlencoding::encode` makes of `s`: its UTF-8 bytes, each percent-encoded unless it
/// is an unreserved character.
pub open spec fn url_encoded(s: Seq<char>) -> Seq<char>
    decreases s.len(),
{
    if s.len() == 0 {
        Seq::empty()
    } else {
        url_encoded(s.drop_last()) + percent_bytes(utf8_bytes(s.last()))
    }
}

/// Calls `urlencoding::encode`. Its source (`encode` on `str::as_bytes`, then
/// `encode_into`) keeps ASCII letters, digits and `-._~` and writes every other byte of the
/// UTF-8 text as `%` with two upper-case hex digits.
#[verifier::external_body]
fn url_encode(s: &str) -> (r: String)
    ensures
        r@ == url_encoded(s@),
{
    urlencoding::encode(s).into_owned()
}

/// The address of the editor page for a capture saved at `path`, shown at `(x, y)` with the
/// image `w` x `h` and the canvas offset `(ox, oy)` inside the window.
pub open spec fn editor_url_spec(path: Seq<char>, x: i32, y: i32, w: i32, h: i32, ox: i32, oy: i32) -> Seq<char> {
    "index.html?editor=1&path="@ + url_encoded(path) + "&x="@ + signed_dec_spec(x as int) + "&y="@
        + signed_dec_spec(y as int) + "&w="@ + signed_dec_spec(w as int) + "&h="@ + signed_dec_spec(h as int)
        + "&ox="@ + signed_dec_spec(ox as int) + "&oy="@ + signed_dec_spec(oy as int)
}

fn push_i32(out: &mut Vec<char>, v: i32)
    ensures
        final(out)@ == old(out)@ + signed_dec_spec(v as int),
{
    push_signed_decimal(out, v as i64);
}

/// The address of the editor page for a saved capture.
pub fn editor_url(path: &str, x: i32, y: i32, w: i32, h: i32, ox: i32, oy: i32) -> (r: String)
    ensures
        r@ == editor_url_spec(path@, x, y, w, h, ox, oy),
{
    let mut out: Vec<char> = Vec::new();
    push_str(&mut out, "index.html?editor=1&path=");
    let enc = url_encode(path);
    let ec = chars_of(enc.as_str());
    push_chars(&mut out, &ec);
    push_str(&mut out, "&x=");
    push_i32(&mut out, x);
    push_str(&mut out, "&y=");
    push_i32(&mut out, y);
    push_str(&mut out, "&w=");
    push_i32(&mut out, w);
    push_str(&mut out, "&h=");
    push_i32(&mut out, h);
    push_str(&mut out, "&ox=");
    push_i32(&mut out, ox);
    push_str(&mut out, "&oy=");
    push_i32(&mut out, oy);
    string_from(&out)
}

fn prefixed_number(prefix: &str, n: u64, suffix: &str) -> (r: String)
    ensures
        r@ == prefix@ + dec_spec(n as nat) + suffix@,
{
    let mut out: Vec<char> = Vec::new();
    push_str(&mut out, prefix);
    push_decimal(&mut out, n);
    push_str(&mut out, suffix);
    string_from(&out)
}

/// The id of a pinned image made at `millis` milliseconds since 1970.
pub fn pin_id(millis: u64) -> (r: String)
    ensures
        r@ == "pin-"@ + dec_spec(millis as nat),
{
    let r = prefixed_number("pin-", millis, "");
    proof {
        reveal_strlit("");
        assert(r@ == "pin-"@ + dec_spec(millis as nat));
    }
    r
}

/// The label of an editor window opened at `millis` milliseconds since 1970.
pub fn editor_label(millis: u64) -> (r: String)
    ensures
        r@ == "editor-"@ + dec_spec(millis as nat),
{
    let r = prefixed_number("editor-", millis, "");
    proof {
        reveal_strlit("");
        assert(r@ == "editor-"@ + dec_spec(millis as nat));
    }
    r
}

/// The file name of a capture saved at `millis` milliseconds since 1970.
pub fn capture_file_name(millis: u64) -> (r: String)
    ensures
        r@ == "capture_"@ + dec_spec(millis as nat) + ".png"@,
{
    prefixed_number("capture_", millis, ".png")
}

/// A pinned image's side from the requested one: at least one pixel.
pub fn pin_side(requested: i32) -> (r: u32)
    ensures
        r == if requested >= 1 {
            requested as int
        } else {
            1
        },
{
    if requested >= 1 {
        requested as u32
    } else {
        1
    }
}

/// The screenshot hotkey to register after the settings change: none while hotkeys are
/// paused or when the setting is blank, else the setting without surrounding white space.
pub fn hotkey_to_register(paused: bool, screenshot: &str) -> (r: Option<String>)
    ensures
        paused ==> r is None,
        !paused ==> match r {
            Some(h) => h@ == trim_spec(screenshot@) && h@.len() > 0,
            None => trim_spec(screenshot@).len() == 0,
        },
{
    if paused {
        return None;
    }
    let c = chars_of(screenshot);
    let t = trim(&c);
    if t.len() == 0 {
        None
    } else {
        Some(string_from(&t))
    }
}

/// The request the text-recognition command sends: the file's bytes, simplified Chinese
/// and English, with preprocessing.
pub fn ocr_request_for(image_data: Vec<u8>) -> (r: OcrRequest)
    ensures
        r.image_data@ == image_data@,
        r.languages@.len() == 2,
        r.languages@[0]@ == "zh-Hans"@,
        r.languages@[1]@ == "en"@,
        r.preprocess,
{
    let mut languages: Vec<String> = Vec::new();
    languages.push(String::from_str("zh-Hans"));
    languages.push(String::from_str("en"));
    OcrRequest { image_data, languages, preprocess: true }
}

} // verus!
