use vstd::prelude::*;

use crate::pixels::{dib24_header, dib24_rows, dib24_stride, encode_dib24, RgbaImage};
use crate::text::chars_of;

verus! {

/// What the clipboard holds.
pub enum ClipboardContent {
    Empty,
    Text,
    Image,
    Html,
    Color(String),
    FilePaths(Vec<String>),
    Unknown,
}

/// What the clipboard reports holding: an image when a bitmap is offered, else text when
/// Unicode text is, else nothing.
pub fn content_kind(has_bitmap: bool, has_text: bool) -> (r: ClipboardContent)
    ensures
        has_bitmap ==> r is Image,
        !has_bitmap && has_text ==> r is Text,
        !has_bitmap && !has_text ==> r is Empty,
{
    if has_bitmap {
        ClipboardContent::Image
    } else if has_text {
        ClipboardContent::Text
    } else {
        ClipboardContent::Empty
    }
}

/// The UTF-16 code units of a character: one below `U+10000`, a surrogate pair above.
pub open spec fn utf16_units(c: char) -> Seq<u16> {
    let v = c as u32;
    if v < 0x10000 {
        seq![v as u16]
    } else {
        let w = v - 0x10000;
        seq![(0xD800 + w / 1024) as u16, (0xDC00 + w % 1024) as u16]
    }
}

/// The UTF-16 encoding of a string, as `str::encode_utf16` yields it.
pub open spec fn utf16_of(s: Seq<char>) -> Seq<u16>
    decreases s.len(),
{
    if s.len() == 0 {
        Seq::empty()
    } else {
        utf16_of(s.drop_last()) + utf16_units(s.last())
    }
}

/// The text as NUL-terminated UTF-16, the form the clipboard takes text in.
pub fn wide_text(s: &str) -> (r: Vec<u16>)
    ensures
        r@ == utf16_of(s@).push(0u16),
{
    let cs = chars_of(s);
    let mut out: Vec<u16> = Vec::new();
    let mut i: usize = 0;
    while i < cs.len()
        invariant
            i <= cs.len(),
            out@ == utf16_of(cs@.take(i as int)),
        decreases cs.len() - i,
    {
        let c = cs[i];
        let v = c as u32;
        proof {
            assert(cs@.take(i + 1).drop_last() == cs@.take(i as int));
            assert(cs@.take(i + 1).last() == c);
        }
        if v < 0x10000 {
            out.push(v as u16);
        } else {
            let w = v - 0x10000;
            out.push(#[verifier::truncate] ((0xD800 + w / 1024) as u16));
            out.push(#[verifier::truncate] ((0xDC00 + w % 1024) as u16));
        }
        proof {
            assert(out@ =~= utf16_of(cs@.take(i + 1)));
        }
        i = i + 1;
    }
    proof {
        assert(cs@.take(cs@.len() as int) == cs@);
    }
    out.push(0);
    out
}

/// How many code units come before the first NUL among the first `max` of `units`.
pub open spec fn units_before_nul(units: Seq<u16>, max: int) -> int
    decreases max,
{
    if max <= 0 {
        0
    } else if units_before_nul(units, max - 1) < max - 1 {
        units_before_nul(units, max - 1)
    } else if max - 1 < units.len() && units[max - 1] != 0 {
        max
    } else {
        max - 1
    }
}

/// What `String::from_utf16_lossy` makes of some code units (unpaired surrogates become
/// U+FFFD).
pub uninterp spec fn utf16_lossy(units: Seq<u16>) -> Seq<char>;

/// Calls `String::from_utf16_lossy`. The decoding is named; for units with no surrogates at
/// all, its documentation makes each unit the character with that value, which is stated.
#[verifier::external_body]
pub(crate) fn decode_utf16_lossy(units: &[u16]) -> (r: String)
    ensures
        r@ == utf16_lossy(units@),
        (forall|i: int| 0 <= i < units@.len() ==> !(0xD800 <= #[trigger] units@[i] <= 0xDFFF)) ==> r@
            == units@.map_values(|u: u16| u as char),
{
    String::from_utf16_lossy(units)
}

/// The text of the clipboard's Unicode buffer of `byte_size` bytes: the code units before
/// the terminating NUL (or all that fit), decoded.
pub fn clipboard_text(units: &[u16], byte_size: usize) -> (r: String)
    requires
        byte_size / 2 <= units.len(),
    ensures
        r@ == utf16_lossy(units@.take(units_before_nul(units@, (byte_size / 2) as int))),
{
    text_before_nul(units, byte_size / 2)
}

/// The first `max_chars` code units of `units` up to the first NUL, decoded: a
/// NUL-terminated UTF-16 string held in a buffer.
pub fn text_before_nul(units: &[u16], max_chars: usize) -> (r: String)
    requires
        max_chars <= units.len(),
    ensures
        r@ == utf16_lossy(units@.take(units_before_nul(units@, max_chars as int))),
{
    let mut len: usize = 0;
    while len < max_chars && units[len] != 0
        invariant
            len <= max_chars,
            max_chars <= units.len(),
            forall|k: int| 0 <= k < len ==> units@[k] != 0,
            units_before_nul(units@, len as int) == len,
        decreases max_chars - len,
    {
        proof {
            assert(units_before_nul(units@, len + 1) == len + 1);
        }
        len = len + 1;
    }
    proof {
        lemma_units_before_nul_stable(units@, len as int, max_chars as int);
    }
    let mut prefix: Vec<u16> = Vec::new();
    let mut k: usize = 0;
    while k < len
        invariant
            k <= len <= units.len(),
            prefix@ == units@.take(k as int),
        decreases len - k,
    {
        prefix.push(units[k]);
        proof {
            assert(units@.take(k + 1) == units@.take(k as int).push(units@[k as int]));
        }
        k = k + 1;
    }
    decode_utf16_lossy(prefix.as_slice())
}

/// Once the count stops short of the limit (at a NUL or at the limit itself), raising the
/// limit does not change it.
proof fn lemma_units_before_nul_stable(units: Seq<u16>, len: int, max: int)
    requires
        0 <= len <= max,
        max <= units.len(),
        units_before_nul(units, len) == len,
        len == max || units[len] == 0,
    ensures
        units_before_nul(units, max) == len,
    decreases max - len,
{
    if max > len {
        lemma_units_before_nul_stable(units, len, max - 1);
        assert(units_before_nul(units, max - 1) == len);
        if len < max - 1 {
        } else {
            assert(units[max - 1] == 0);
        }
    }
}

/// The PNG file `image::DynamicImage::write_to` writes for an RGBA image of `w` x `h`
/// pixels with bytes `data`.
pub uninterp spec fn png_encoding(w: u32, h: u32, data: Seq<u8>) -> Seq<u8>;

/// Encodes the RGBA image `w` x `h` with bytes `data` as PNG through
/// `DynamicImage::write_to` into an in-memory cursor. The bytes are named. The `png`
/// encoder refuses an image of zero width or height (`Writer::init`), and writing into a
/// `Vec` cannot fail otherwise, so an encoder error, given as `None`, comes exactly then.
#[verifier::external_body]
fn png_bytes(w: u32, h: u32, data: &[u8]) -> (r: Option<Vec<u8>>)
    requires
        data.len() == 4 * (w * h),
    ensures
        r is Some <==> (w > 0 && h > 0),
        r matches Some(b) ==> b@ == png_encoding(w, h, data@),
{
    let buf = image::RgbaImage::from_raw(w, h, data.to_vec()).expect("length checked by the caller");
    let mut out = std::io::Cursor::new(Vec::new());
    match image::DynamicImage::ImageRgba8(buf).write_to(&mut out, image::ImageFormat::Png) {
        Ok(()) => Some(out.into_inner()),
        Err(_) => None,
    }
}

/// What copying an image puts on the clipboard: a 24-bit bitmap, which every program
/// accepts, and a PNG file, which keeps transparency.
pub struct ImagePayloads {
    pub dib: Vec<u8>,
    pub png: Vec<u8>,
}

/// The two clipboard forms of an image; `None` when the PNG encoder refuses it, which it
/// does for an empty image.
pub fn image_payloads(image: &RgbaImage) -> (r: Option<ImagePayloads>)
    requires
        image.wf(),
        3 * image.width_spec() + 3 <= u32::MAX,
        dib24_stride(image.width_spec() as int) * image.height_spec() <= u32::MAX,
        40 + dib24_stride(image.width_spec() as int) * image.height_spec() <= usize::MAX,
        image.height_spec() < 0x8000_0000,
    ensures
        r is Some <==> (image.width_spec() > 0 && image.height_spec() > 0),
        r matches Some(p) ==> {
            &&& p.dib@ == dib24_header(image.width_spec() as u32, image.height_spec() as u32) + dib24_rows(
                image.bytes(),
                image.width_spec() as int,
                image.height_spec() as int,
            )
            &&& p.png@ == png_encoding(image.width_spec() as u32, image.height_spec() as u32, image.bytes())
        },
{
    let dib = encode_dib24(image);
    let (w, h) = image.dimensions();
    match png_bytes(w, h, image.as_raw().as_slice()) {
        Some(png) => Some(ImagePayloads { dib, png }),
        None => None,
    }
}

} // verus!
