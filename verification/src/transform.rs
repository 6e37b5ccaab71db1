use vstd::prelude::*;

use crate::pixels::{in_image, rgba_at, GrayImage, RgbaImage};
use image::GenericImageView;

verus! {

/// The bytes of `image::DynamicImage::resize_exact` with the Lanczos3 filter, applied to an
/// RGBA image of `w` x `h` pixels with bytes `data`, resized to `nw` x `nh`.
pub uninterp spec fn lanczos3_resized(w: u32, h: u32, data: Seq<u8>, nw: u32, nh: u32) -> Seq<u8>;

/// The bytes of `image::DynamicImage::to_luma8` applied to an RGBA image of `w` x `h`
/// pixels with bytes `data`.
pub uninterp spec fn luma8_of(w: u32, h: u32, data: Seq<u8>) -> Seq<u8>;

/// Calls `image::DynamicImage::rotate90` on the RGBA image `w` x `h` with bytes `data`.
/// Claims what `imageops::rotate90_in` does in image 0.25: the result is `h` pixels wide and
/// `w` high, and source pixel `(x, y)` lands at `(h - 1 - y, x)`.
#[verifier::external_body]
fn image_rotate90(w: u32, h: u32, data: &[u8]) -> (out: Vec<u8>)
    requires
        data.len() == 4 * (w * h),
    ensures
        out.len() == 4 * (w * h),
        forall|x: int, y: int| in_image(w as int, h as int, x, y) ==> #[trigger] rgba_at(data@, w as int, x, y)
            == rgba_at(out@, h as int, h - 1 - y, x),
{
    let buf = image::RgbaImage::from_raw(w, h, data.to_vec()).expect("length checked by the caller");
    image::DynamicImage::ImageRgba8(buf).rotate90().to_rgba8().into_raw()
}

/// Calls `image::DynamicImage::fliph` on the RGBA image `w` x `h` with bytes `data`.
/// Claims what `imageops::flip_horizontal_in` does: same size, pixel `(x, y)` lands at
/// `(w - 1 - x, y)`.
#[verifier::external_body]
fn image_fliph(w: u32, h: u32, data: &[u8]) -> (out: Vec<u8>)
    requires
        data.len() == 4 * (w * h),
    ensures
        out.len() == 4 * (w * h),
        forall|x: int, y: int| in_image(w as int, h as int, x, y) ==> #[trigger] rgba_at(data@, w as int, x, y)
            == rgba_at(out@, w as int, w - 1 - x, y),
{
    let buf = image::RgbaImage::from_raw(w, h, data.to_vec()).expect("length checked by the caller");
    image::DynamicImage::ImageRgba8(buf).fliph().to_rgba8().into_raw()
}

/// Calls `image::DynamicImage::flipv` on the RGBA image `w` x `h` with bytes `data`.
/// Claims what `imageops::flip_vertical_in` does: same size, pixel `(x, y)` lands at
/// `(x, h - 1 - y)`.
#[verifier::external_body]
fn image_flipv(w: u32, h: u32, data: &[u8]) -> (out: Vec<u8>)
    requires
        data.len() == 4 * (w * h),
    ensures
        out.len() == 4 * (w * h),
        forall|x: int, y: int| in_image(w as int, h as int, x, y) ==> #[trigger] rgba_at(data@, w as int, x, y)
            == rgba_at(out@, w as int, x, h - 1 - y),
{
    let buf = image::RgbaImage::from_raw(w, h, data.to_vec()).expect("length checked by the caller");
    image::DynamicImage::ImageRgba8(buf).flipv().to_rgba8().into_raw()
}

/// Calls `GenericImageView::view(x, y, cw, ch).to_image()` on the RGBA image `w` x `h` with
/// bytes `data`. `view` asserts that the window lies inside the image, so `requires` does
/// too; `SubImage::to_image` copies window pixel `(i, j)` from `(x + i, y + j)`.
#[verifier::external_body]
fn image_crop(w: u32, h: u32, data: &[u8], x: u32, y: u32, cw: u32, ch: u32) -> (out: Vec<u8>)
    requires
        data.len() == 4 * (w * h),
        x + cw <= w,
        y + ch <= h,
    ensures
        out.len() == 4 * (cw * ch),
        forall|i: int, j: int| in_image(cw as int, ch as int, i, j) ==> #[trigger] rgba_at(out@, cw as int, i, j)
            == rgba_at(data@, w as int, x + i, y + j),
{
    let buf = image::RgbaImage::from_raw(w, h, data.to_vec()).expect("length checked by the caller");
    buf.view(x, y, cw, ch).to_image().into_raw()
}

/// Calls `image::DynamicImage::resize_exact` with `FilterType::Lanczos3` on the RGBA image
/// `w` x `h` with bytes `data`. The result is named; besides its size, the source states
/// two facts of `imageops::resize`: an empty source gives a zeroed buffer, and an unchanged
/// size gives a copy.
#[verifier::external_body]
fn image_resize_lanczos3(w: u32, h: u32, data: &[u8], nw: u32, nh: u32) -> (out: Vec<u8>)
    requires
        data.len() == 4 * (w * h),
        4 * (nw * nh) <= usize::MAX,
    ensures
        out@ == lanczos3_resized(w, h, data@, nw, nh),
        out.len() == 4 * (nw * nh),
        (w == 0 || h == 0) ==> out@ == Seq::new((4 * (nw * nh)) as nat, |i: int| 0u8),
        (w != 0 && h != 0 && nw == w && nh == h) ==> out@ == data@,
{
    let buf = image::RgbaImage::from_raw(w, h, data.to_vec()).expect("length checked by the caller");
    image::DynamicImage::ImageRgba8(buf).resize_exact(nw, nh, image::imageops::FilterType::Lanczos3).to_rgba8().into_raw()
}

/// Calls `image::DynamicImage::to_luma8` on the RGBA image `w` x `h` with bytes `data`.
/// The gray levels are named (the conversion goes through the crate's colour-space code);
/// the result has one byte per pixel.
#[verifier::external_body]
fn image_to_luma8(w: u32, h: u32, data: &[u8]) -> (out: Vec<u8>)
    requires
        data.len() == 4 * (w * h),
    ensures
        out@ == luma8_of(w, h, data@),
        out.len() == w * h,
{
    let buf = image::RgbaImage::from_raw(w, h, data.to_vec()).expect("length checked by the caller");
    image::DynamicImage::ImageRgba8(buf).to_luma8().into_raw()
}

/// Builds an image from bytes whose length is known to fit its size.
fn assemble(w: u32, h: u32, data: Vec<u8>) -> (img: RgbaImage)
    requires
        data.len() == 4 * (w * h),
    ensures
        img.wf(),
        img.width_spec() == w,
        img.height_spec() == h,
        img.bytes() == data@,
{
    match RgbaImage::from_raw(w, h, data) {
        Some(img) => img,
        None => {
            assert(false);
            RgbaImage::new(0, 0)
        },
    }
}

/// `out` is `img` turned a quarter turn clockwise: pixel `(x, y)` moves to `(h - 1 - y, x)`.
pub open spec fn is_rotated_90(img: RgbaImage, out: RgbaImage) -> bool {
    &&& out.width_spec() == img.height_spec()
    &&& out.height_spec() == img.width_spec()
    &&& forall|x: int, y: int|
        in_image(img.width_spec() as int, img.height_spec() as int, x, y) ==> #[trigger] img.pixel(x, y) == out.pixel(
            img.height_spec() - 1 - y,
            x,
        )
}

/// `out` is `img` mirrored left to right: pixel `(x, y)` moves to `(w - 1 - x, y)`.
pub open spec fn is_mirrored(img: RgbaImage, out: RgbaImage) -> bool {
    &&& out.width_spec() == img.width_spec()
    &&& out.height_spec() == img.height_spec()
    &&& forall|x: int, y: int|
        in_image(img.width_spec() as int, img.height_spec() as int, x, y) ==> #[trigger] img.pixel(x, y) == out.pixel(
            img.width_spec() - 1 - x,
            y,
        )
}

/// `out` is `img` mirrored top to bottom: pixel `(x, y)` moves to `(x, h - 1 - y)`.
pub open spec fn is_upside_down(img: RgbaImage, out: RgbaImage) -> bool {
    &&& out.width_spec() == img.width_spec()
    &&& out.height_spec() == img.height_spec()
    &&& forall|x: int, y: int|
        in_image(img.width_spec() as int, img.height_spec() as int, x, y) ==> #[trigger] img.pixel(x, y) == out.pixel(
            x,
            img.height_spec() - 1 - y,
        )
}

/// The image turned a quarter turn clockwise: pixel `(x, y)` moves to `(h - 1 - y, x)`.
pub fn rotate_90(image: &RgbaImage) -> (out: RgbaImage)
    requires
        image.wf(),
    ensures
        out.wf(),
        is_rotated_90(*image, out),
{
    let (w, h) = image.dimensions();
    let data = image_rotate90(w, h, image.as_raw().as_slice());
    assert(4 * (h * w) == 4 * (w * h)) by (nonlinear_arith);
    assemble(h, w, data)
}

/// The image mirrored left to right: pixel `(x, y)` moves to `(w - 1 - x, y)`.
pub fn flip_horizontal(image: &RgbaImage) -> (out: RgbaImage)
    requires
        image.wf(),
    ensures
        out.wf(),
        is_mirrored(*image, out),
{
    let (w, h) = image.dimensions();
    let data = image_fliph(w, h, image.as_raw().as_slice());
    assemble(w, h, data)
}

/// The image mirrored top to bottom: pixel `(x, y)` moves to `(x, h - 1 - y)`.
pub fn flip_vertical(image: &RgbaImage) -> (out: RgbaImage)
    requires
        image.wf(),
    ensures
        out.wf(),
        is_upside_down(*image, out),
{
    let (w, h) = image.dimensions();
    let data = image_flipv(w, h, image.as_raw().as_slice());
    assemble(w, h, data)
}

/// The `width` x `height` window at `(x, y)`, which must lie inside the image.
pub fn crop(image: &RgbaImage, x: u32, y: u32, width: u32, height: u32) -> (out: RgbaImage)
    requires
        image.wf(),
        x + width <= image.width_spec(),
        y + height <= image.height_spec(),
    ensures
        out.wf(),
        out.width_spec() == width,
        out.height_spec() == height,
        forall|i: int, j: int| in_image(width as int, height as int, i, j) ==> #[trigger] out.pixel(i, j)
            == image.pixel(x + i, y + j),
{
    let (w, h) = image.dimensions();
    let data = image_crop(w, h, image.as_raw().as_slice(), x, y, width, height);
    assemble(width, height, data)
}

/// The image resampled to exactly `width` x `height` with the Lanczos3 filter.
pub fn resize(image: &RgbaImage, width: u32, height: u32) -> (out: RgbaImage)
    requires
        image.wf(),
        4 * (width * height) <= usize::MAX,
    ensures
        out.wf(),
        out.width_spec() == width,
        out.height_spec() == height,
        out.bytes() == lanczos3_resized(
            image.width_spec() as u32,
            image.height_spec() as u32,
            image.bytes(),
            width,
            height,
        ),
        image.width_spec() == width && image.height_spec() == height && width != 0 && height != 0
            ==> out.bytes() == image.bytes(),
{
    let (w, h) = image.dimensions();
    let data = image_resize_lanczos3(w, h, image.as_raw().as_slice(), width, height);
    assemble(width, height, data)
}

/// Conversions that prepare a screenshot for text recognition.
pub struct OcrPreprocessor;

impl OcrPreprocessor {
    /// The image as gray levels.
    pub fn to_grayscale(image: &RgbaImage) -> (out: GrayImage)
        requires
            image.wf(),
        ensures
            out.wf(),
            out.width_spec() == image.width_spec(),
            out.height_spec() == image.height_spec(),
            out.bytes() == luma8_of(image.width_spec() as u32, image.height_spec() as u32, image.bytes()),
    {
        let (w, h) = image.dimensions();
        let data = image_to_luma8(w, h, image.as_raw().as_slice());
        match GrayImage::from_raw(w, h, data) {
            Some(g) => g,
            None => {
                assert(false);
                GrayImage::from_raw(0, 0, Vec::new()).unwrap()
            },
        }
    }

    /// Turns every gray level above `threshold` white and every other one black.
    pub fn binarize(image: &GrayImage, threshold: u8) -> (out: GrayImage)
        requires
            image.wf(),
        ensures
            out.wf(),
            out.width_spec() == image.width_spec(),
            out.height_spec() == image.height_spec(),
            out.bytes() == image.bytes().map_values(|v: u8| crate::pixels::threshold_level(v, threshold)),
    {
        crate::pixels::binarize(image, threshold)
    }
}

/// The file formats screenshots are saved in.
#[derive(Debug, Clone, Copy, PartialEq, Eq, Structural)]
pub enum ImageFormat {
    Png,
    Jpg,
    WebP,
    Bmp,
}

impl ImageFormat {
    /// The usual file-name extension, without the dot.
    pub fn extension(&self) -> (r: &'static str)
        ensures
            r@ == match *self {
                ImageFormat::Png => "png"@,
                ImageFormat::Jpg => "jpg"@,
                ImageFormat::WebP => "webp"@,
                ImageFormat::Bmp => "bmp"@,
            },
    {
        match self {
            ImageFormat::Png => "png",
            ImageFormat::Jpg => "jpg",
            ImageFormat::WebP => "webp",
            ImageFormat::Bmp => "bmp",
        }
    }
}

/// Mirroring left to right twice gives the image back.
pub proof fn lemma_mirror_twice(a: RgbaImage, b: RgbaImage, c: RgbaImage)
    requires
        is_mirrored(a, b),
        is_mirrored(b, c),
    ensures
        c.width_spec() == a.width_spec(),
        c.height_spec() == a.height_spec(),
        forall|x: int, y: int| in_image(a.width_spec() as int, a.height_spec() as int, x, y) ==> #[trigger] c.pixel(x, y) == a.pixel(x, y),
{
    let w = a.width_spec() as int;
    assert forall|x: int, y: int| in_image(w, a.height_spec() as int, x, y) implies #[trigger] c.pixel(x, y) == a.pixel(x, y) by {
        assert(a.pixel(x, y) == b.pixel(w - 1 - x, y));
        assert(b.pixel(w - 1 - x, y) == c.pixel(w - 1 - (w - 1 - x), y));
    }
}

/// Mirroring top to bottom twice gives the image back.
pub proof fn lemma_upside_down_twice(a: RgbaImage, b: RgbaImage, c: RgbaImage)
    requires
        is_upside_down(a, b),
        is_upside_down(b, c),
    ensures
        c.width_spec() == a.width_spec(),
        c.height_spec() == a.height_spec(),
        forall|x: int, y: int| in_image(a.width_spec() as int, a.height_spec() as int, x, y) ==> #[trigger] c.pixel(x, y) == a.pixel(x, y),
{
    let h = a.height_spec() as int;
    assert forall|x: int, y: int| in_image(a.width_spec() as int, h, x, y) implies #[trigger] c.pixel(x, y) == a.pixel(x, y) by {
        assert(a.pixel(x, y) == b.pixel(x, h - 1 - y));
        assert(b.pixel(x, h - 1 - y) == c.pixel(x, h - 1 - (h - 1 - y)));
    }
}

/// Four quarter turns give the image back.
pub proof fn lemma_four_quarter_turns(a: RgbaImage, b: RgbaImage, c: RgbaImage, d: RgbaImage, e: RgbaImage)
    requires
        is_rotated_90(a, b),
        is_rotated_90(b, c),
        is_rotated_90(c, d),
        is_rotated_90(d, e),
    ensures
        e.width_spec() == a.width_spec(),
        e.height_spec() == a.height_spec(),
        forall|x: int, y: int| in_image(a.width_spec() as int, a.height_spec() as int, x, y) ==> #[trigger] e.pixel(x, y) == a.pixel(x, y),
{
    let w = a.width_spec() as int;
    let h = a.height_spec() as int;
    assert forall|x: int, y: int| in_image(w, h, x, y) implies #[trigger] e.pixel(x, y) == a.pixel(x, y) by {
        assert(a.pixel(x, y) == b.pixel(h - 1 - y, x));
        assert(in_image(h, w, h - 1 - y, x));
        assert(b.pixel(h - 1 - y, x) == c.pixel(w - 1 - x, h - 1 - y));
        assert(in_image(w, h, w - 1 - x, h - 1 - y));
        assert(c.pixel(w - 1 - x, h - 1 - y) == d.pixel(h - 1 - (h - 1 - y), w - 1 - x));
        assert(in_image(h, w, y, w - 1 - x));
        assert(d.pixel(y, w - 1 - x) == e.pixel(w - 1 - (w - 1 - x), y));
    }
}

} // verus!
