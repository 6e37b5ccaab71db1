use vstd::prelude::*;

use crate::color::PixelColor;
use crate::overlay::DIM_FACTOR;

verus! {

/// Offset of the first byte of pixel `(x, y)` in a row-major buffer `w` pixels wide with
/// `channels` bytes per pixel.
pub open spec fn offset(w: int, x: int, y: int, channels: int) -> int {
    channels * (y * w + x)
}

/// The RGBA pixel at `(x, y)` of a row-major 4-byte-per-pixel buffer.
pub open spec fn rgba_at(data: Seq<u8>, w: int, x: int, y: int) -> PixelColor {
    let o = offset(w, x, y, 4);
    PixelColor { r: data[o], g: data[o + 1], b: data[o + 2], a: data[o + 3] }
}

/// `(x, y)` lies inside a `w` x `h` image.
pub open spec fn in_image(w: int, h: int, x: int, y: int) -> bool {
    0 <= x < w && 0 <= y < h
}

/// Pixel offsets stay inside the buffer, and distinct pixels own disjoint bytes.
pub proof fn lemma_offset_bounds(w: int, h: int, x: int, y: int, channels: int)
    requires
        in_image(w, h, x, y),
        channels >= 1,
    ensures
        0 <= offset(w, x, y, channels),
        offset(w, x, y, channels) + channels <= channels * (w * h),
{
    assert(0 <= y * w + x) by (nonlinear_arith)
        requires
            0 <= x < w,
            0 <= y < h,
    ;
    assert(y * w + x + 1 <= w * h) by (nonlinear_arith)
        requires
            0 <= x < w,
            0 <= y < h,
    ;
    assert(channels * (y * w + x) >= 0) by (nonlinear_arith)
        requires
            channels >= 1,
            0 <= y * w + x,
    ;
    assert(channels * (y * w + x) + channels <= channels * (w * h)) by (nonlinear_arith)
        requires
            channels >= 1,
            y * w + x + 1 <= w * h,
    ;
}

/// Two different pixels of the same image never share a byte.
pub proof fn lemma_offsets_disjoint(w: int, h: int, x1: int, y1: int, x2: int, y2: int, channels: int)
    requires
        in_image(w, h, x1, y1),
        in_image(w, h, x2, y2),
        x1 != x2 || y1 != y2,
        channels >= 1,
    ensures
        offset(w, x1, y1, channels) + channels <= offset(w, x2, y2, channels)
            || offset(w, x2, y2, channels) + channels <= offset(w, x1, y1, channels),
{
    let a = y1 * w + x1;
    let b = y2 * w + x2;
    if y1 == y2 {
        assert(a != b);
    } else if y1 < y2 {
        assert(y1 * w + w <= y2 * w) by (nonlinear_arith)
            requires
                y1 < y2,
                w >= 0,
        ;
        assert(a < b);
    } else {
        assert(y2 * w + w <= y1 * w) by (nonlinear_arith)
            requires
                y2 < y1,
                w >= 0,
        ;
        assert(b < a);
    }
    if a < b {
        assert(channels * a + channels <= channels * b) by (nonlinear_arith)
            requires
                a < b,
                channels >= 1,
        ;
    } else {
        assert(channels * b + channels <= channels * a) by (nonlinear_arith)
            requires
                b < a,
                channels >= 1,
        ;
    }
}

/// An image with 8-bit red, green, blue and alpha channels, stored row by row.
pub struct RgbaImage {
    width: u32,
    height: u32,
    data: Vec<u8>,
}

impl RgbaImage {
    /// Exactly four bytes per pixel.
    pub closed spec fn wf(&self) -> bool {
        self.data.len() == 4 * (self.width * self.height)
    }

    pub closed spec fn width_spec(&self) -> nat {
        self.width as nat
    }

    pub closed spec fn height_spec(&self) -> nat {
        self.height as nat
    }

    /// The raw bytes, four per pixel, row by row.
    pub closed spec fn bytes(&self) -> Seq<u8> {
        self.data@
    }

    /// The pixel at `(x, y)`.
    pub open spec fn pixel(&self, x: int, y: int) -> PixelColor {
        rgba_at(self.bytes(), self.width_spec() as int, x, y)
    }

    /// A `width` x `height` image with every byte zero.
    pub fn new(width: u32, height: u32) -> (img: Self)
        requires
            4 * (width * height) <= usize::MAX,
        ensures
            img.wf(),
            img.width_spec() == width,
            img.height_spec() == height,
            img.bytes() == Seq::new((4 * (width * height)) as nat, |i: int| 0u8),
    {
        let n: usize = 4 * (width as usize * height as usize);
        let mut data: Vec<u8> = Vec::new();
        let mut i: usize = 0;
        while i < n
            invariant
                i <= n,
                data@ == Seq::new(i as nat, |k: int| 0u8),
            decreases n - i,
        {
            data.push(0);
            i = i + 1;
        }
        RgbaImage { width, height, data }
    }

    /// A `width` x `height` image with every pixel set to `color`.
    pub fn from_pixel(width: u32, height: u32, color: PixelColor) -> (img: Self)
        requires
            4 * (width * height) <= usize::MAX,
        ensures
            img.wf(),
            img.width_spec() == width,
            img.height_spec() == height,
            forall|x: int, y: int| in_image(width as int, height as int, x, y) ==> #[trigger] img.pixel(x, y) == color,
    {
        let n: usize = width as usize * height as usize;
        let mut data: Vec<u8> = Vec::new();
        let mut i: usize = 0;
        while i < n
            invariant
                i <= n,
                n == width * height,
                4 * n <= usize::MAX,
                data@.len() == 4 * i,
                forall|k: int| 0 <= k < i ==> #[trigger] rgba_at(data@, 1, k, 0) == color,
            decreases n - i,
        {
            let ghost prev = data@;
            data.push(color.r);
            data.push(color.g);
            data.push(color.b);
            data.push(color.a);
            proof {
                assert forall|k: int| 0 <= k < i + 1 implies #[trigger] rgba_at(data@, 1, k, 0) == color by {
                    if k < i {
                        assert(rgba_at(prev, 1, k, 0) == color);
                    }
                }
            }
            i = i + 1;
        }
        let img = RgbaImage { width, height, data };
        proof {
            assert forall|x: int, y: int| in_image(width as int, height as int, x, y) implies #[trigger] img.pixel(x, y) == color by {
                lemma_offset_bounds(width as int, height as int, x, y, 1);
                assert(offset(width as int, x, y, 4) == 4 * (y * width + x));
                assert(rgba_at(data@, 1, y * width + x, 0) == color);
            }
        }
        img
    }

    /// Wraps raw RGBA bytes; `None` unless there are exactly four bytes per pixel.
    pub fn from_raw(width: u32, height: u32, data: Vec<u8>) -> (r: Option<Self>)
        ensures
            r is Some <==> data.len() == 4 * (width * height),
            r matches Some(img) ==> img.wf() && img.width_spec() == width && img.height_spec() == height
                && img.bytes() == data@,
    {
        let w = width as u128;
        let h = height as u128;
        let n = data.len() as u128;
        assert(w * h <= 0xffff_ffff * 0xffff_ffff) by (nonlinear_arith)
            requires
                w <= 0xffff_ffff,
                h <= 0xffff_ffff,
        ;
        if n == 4 * (w * h) {
            Some(RgbaImage { width, height, data })
        } else {
            None
        }
    }

    pub fn width(&self) -> (r: u32)
        ensures
            r == self.width_spec(),
    {
        self.width
    }

    pub fn height(&self) -> (r: u32)
        ensures
            r == self.height_spec(),
    {
        self.height
    }

    pub fn dimensions(&self) -> (r: (u32, u32))
        ensures
            r.0 == self.width_spec(),
            r.1 == self.height_spec(),
    {
        (self.width, self.height)
    }

    /// The raw bytes, four per pixel, row by row.
    pub fn as_raw(&self) -> (r: &Vec<u8>)
        ensures
            r@ == self.bytes(),
            self.wf() ==> r.len() == 4 * (self.width_spec() * self.height_spec()),
    {
        &self.data
    }

    /// Gives up the image and returns its raw bytes.
    pub fn into_raw(self) -> (r: Vec<u8>)
        ensures
            r@ == self.bytes(),
            self.wf() ==> r.len() == 4 * (self.width_spec() * self.height_spec()),
    {
        self.data
    }

    /// The pixel at `(x, y)`.
    pub fn get_pixel(&self, x: u32, y: u32) -> (c: PixelColor)
        requires
            self.wf(),
            x < self.width_spec(),
            y < self.height_spec(),
        ensures
            c == self.pixel(x as int, y as int),
    {
        proof {
            lemma_offset_bounds(self.width as int, self.height as int, x as int, y as int, 4);
        }
        let o: usize = 4 * (y as usize * self.width as usize + x as usize);
        PixelColor { r: self.data[o], g: self.data[o + 1], b: self.data[o + 2], a: self.data[o + 3] }
    }

    /// Sets the pixel at `(x, y)` and leaves every other pixel as it was.
    pub fn put_pixel(&mut self, x: u32, y: u32, c: PixelColor)
        requires
            old(self).wf(),
            x < old(self).width_spec(),
            y < old(self).height_spec(),
        ensures
            final(self).wf(),
            final(self).width_spec() == old(self).width_spec(),
            final(self).height_spec() == old(self).height_spec(),
            final(self).pixel(x as int, y as int) == c,
            forall|px: int, py: int|
                in_image(old(self).width_spec() as int, old(self).height_spec() as int, px, py)
                    && (px != x || py != y) ==> #[trigger] final(self).pixel(px, py) == old(self).pixel(px, py),
    {
        proof {
            lemma_offset_bounds(self.width as int, self.height as int, x as int, y as int, 4);
        }
        let ghost before = self.data@;
        let o: usize = 4 * (y as usize * self.width as usize + x as usize);
        self.data.set(o, c.r);
        self.data.set(o + 1, c.g);
        self.data.set(o + 2, c.b);
        self.data.set(o + 3, c.a);
        proof {
            let w = self.width as int;
            let h = self.height as int;
            assert forall|px: int, py: int|
                in_image(w, h, px, py) && (px != x || py != y) implies #[trigger] rgba_at(self.data@, w, px, py)
                    == rgba_at(before, w, px, py) by {
                lemma_offsets_disjoint(w, h, x as int, y as int, px, py, 4);
                lemma_offset_bounds(w, h, px, py, 4);
            }
        }
    }
}


/// Channel `c` of a pixel: 0 red, 1 green, 2 blue, 3 alpha.
pub open spec fn chan(p: PixelColor, c: int) -> int {
    if c == 0 {
        p.r as int
    } else if c == 1 {
        p.g as int
    } else if c == 2 {
        p.b as int
    } else {
        p.a as int
    }
}

/// Sum of channel `c` over the pixels `x0 .. x1` of row `y`.
pub open spec fn row_sum(data: Seq<u8>, w: int, y: int, x0: int, x1: int, c: int) -> int
    decreases x1 - x0,
{
    if x1 <= x0 {
        0
    } else {
        row_sum(data, w, y, x0, x1 - 1, c) + chan(rgba_at(data, w, x1 - 1, y), c)
    }
}

/// Sum of channel `c` over the pixels of columns `x0 .. x1` and rows `y0 .. y1`.
pub open spec fn rect_sum(data: Seq<u8>, w: int, x0: int, x1: int, y0: int, y1: int, c: int) -> int
    decreases y1 - y0,
{
    if y1 <= y0 {
        0
    } else {
        rect_sum(data, w, x0, x1, y0, y1 - 1, c) + row_sum(data, w, y1 - 1, x0, x1, c)
    }
}

/// The mean of one channel over a block of `n` pixels, rounded down.
pub open spec fn mean(sum: int, n: int) -> u8 {
    (sum / n) as u8
}

/// The mean colour of the `bw` x `bh` block at `(x, y)`, made opaque; opaque black for an
/// empty block.
pub open spec fn block_avg(data: Seq<u8>, w: int, x: int, y: int, bw: int, bh: int) -> PixelColor {
    let n = bw * bh;
    if n == 0 {
        PixelColor { r: 0, g: 0, b: 0, a: 255 }
    } else {
        PixelColor {
            r: mean(rect_sum(data, w, x, x + bw, y, y + bh, 0), n),
            g: mean(rect_sum(data, w, x, x + bw, y, y + bh, 1), n),
            b: mean(rect_sum(data, w, x, x + bw, y, y + bh, 2), n),
            a: 255,
        }
    }
}

/// A row sum of byte values lies between zero and 255 per pixel.
pub proof fn lemma_row_sum_bounds(data: Seq<u8>, w: int, y: int, x0: int, x1: int, c: int)
    requires
        x0 <= x1,
    ensures
        0 <= row_sum(data, w, y, x0, x1, c) <= 255 * (x1 - x0),
    decreases x1 - x0,
{
    if x1 > x0 {
        lemma_row_sum_bounds(data, w, y, x0, x1 - 1, c);
    }
}

/// A block sum of byte values lies between zero and 255 per pixel.
pub proof fn lemma_rect_sum_bounds(data: Seq<u8>, w: int, x0: int, x1: int, y0: int, y1: int, c: int)
    requires
        x0 <= x1,
        y0 <= y1,
    ensures
        0 <= rect_sum(data, w, x0, x1, y0, y1, c) <= 255 * ((x1 - x0) * (y1 - y0)),
    decreases y1 - y0,
{
    if y1 > y0 {
        lemma_rect_sum_bounds(data, w, x0, x1, y0, y1 - 1, c);
        lemma_row_sum_bounds(data, w, y1 - 1, x0, x1, c);
        assert((x1 - x0) * (y1 - 1 - y0) + (x1 - x0) == (x1 - x0) * (y1 - y0)) by (nonlinear_arith);
    }
}

/// Row sums only look at the pixels of their row segment.
pub proof fn lemma_row_sum_frame(d1: Seq<u8>, d2: Seq<u8>, w: int, y: int, x0: int, x1: int, c: int)
    requires
        forall|px: int| x0 <= px < x1 ==> #[trigger] rgba_at(d1, w, px, y) == rgba_at(d2, w, px, y),
    ensures
        row_sum(d1, w, y, x0, x1, c) == row_sum(d2, w, y, x0, x1, c),
    decreases x1 - x0,
{
    if x1 > x0 {
        lemma_row_sum_frame(d1, d2, w, y, x0, x1 - 1, c);
        assert(rgba_at(d1, w, x1 - 1, y) == rgba_at(d2, w, x1 - 1, y));
    }
}

/// Block sums only look at the pixels of their block.
pub proof fn lemma_rect_sum_frame(
    d1: Seq<u8>,
    d2: Seq<u8>,
    w: int,
    x0: int,
    x1: int,
    y0: int,
    y1: int,
    c: int,
)
    requires
        forall|px: int, py: int|
            x0 <= px < x1 && y0 <= py < y1 ==> #[trigger] rgba_at(d1, w, px, py) == rgba_at(d2, w, px, py),
    ensures
        rect_sum(d1, w, x0, x1, y0, y1, c) == rect_sum(d2, w, x0, x1, y0, y1, c),
    decreases y1 - y0,
{
    if y1 > y0 {
        lemma_rect_sum_frame(d1, d2, w, x0, x1, y0, y1 - 1, c);
        assert forall|px: int| x0 <= px < x1 implies #[trigger] rgba_at(d1, w, px, y1 - 1) == rgba_at(
            d2,
            w,
            px,
            y1 - 1,
        ) by {}
        lemma_row_sum_frame(d1, d2, w, y1 - 1, x0, x1, c);
    }
}

/// The mean colour of a block depends only on the pixels of that block.
pub proof fn lemma_block_avg_frame(d1: Seq<u8>, d2: Seq<u8>, w: int, x: int, y: int, bw: int, bh: int)
    requires
        forall|px: int, py: int|
            x <= px < x + bw && y <= py < y + bh ==> #[trigger] rgba_at(d1, w, px, py) == rgba_at(d2, w, px, py),
    ensures
        block_avg(d1, w, x, y, bw, bh) == block_avg(d2, w, x, y, bw, bh),
{
    lemma_rect_sum_frame(d1, d2, w, x, x + bw, y, y + bh, 0);
    lemma_rect_sum_frame(d1, d2, w, x, x + bw, y, y + bh, 1);
    lemma_rect_sum_frame(d1, d2, w, x, x + bw, y, y + bh, 2);
}

/// Channel totals over a block of an image, with the number of pixels summed.
pub struct ChannelSums {
    pub r: u128,
    pub g: u128,
    pub b: u128,
    pub a: u128,
    pub count: u128,
}

impl ChannelSums {
    /// The totals of the block `x0 .. x1` by `y0 .. y1` of `data`, an image `w` pixels wide.
    pub open spec fn of_block(self, data: Seq<u8>, w: int, x0: int, x1: int, y0: int, y1: int) -> bool {
        &&& self.r == rect_sum(data, w, x0, x1, y0, y1, 0)
        &&& self.g == rect_sum(data, w, x0, x1, y0, y1, 1)
        &&& self.b == rect_sum(data, w, x0, x1, y0, y1, 2)
        &&& self.a == rect_sum(data, w, x0, x1, y0, y1, 3)
        &&& self.count == (x1 - x0) * (y1 - y0)
        &&& self.r <= 255 * self.count
        &&& self.g <= 255 * self.count
        &&& self.b <= 255 * self.count
        &&& self.a <= 255 * self.count
    }
}

/// Adds up each channel over the pixels of columns `x0 .. x1` and rows `y0 .. y1`.
pub fn region_sums(image: &RgbaImage, x0: u32, x1: u32, y0: u32, y1: u32) -> (s: ChannelSums)
    requires
        image.wf(),
        x0 <= x1 <= image.width_spec(),
        y0 <= y1 <= image.height_spec(),
    ensures
        s.of_block(image.bytes(), image.width_spec() as int, x0 as int, x1 as int, y0 as int, y1 as int),
{
    let ghost d = image.bytes();
    let ghost iw = image.width_spec() as int;
    let ghost w = x1 - x0;
    let mut r: u128 = 0;
    let mut g: u128 = 0;
    let mut b: u128 = 0;
    let mut a: u128 = 0;
    let mut count: u128 = 0;
    let mut py: u32 = y0;
    while py < y1
        invariant
            image.wf(),
            d == image.bytes(),
            iw == image.width_spec(),
            w == x1 - x0,
            x0 <= x1 <= image.width_spec(),
            y0 <= y1 <= image.height_spec(),
            y0 <= py <= y1,
            r == rect_sum(d, iw, x0 as int, x1 as int, y0 as int, py as int, 0),
            g == rect_sum(d, iw, x0 as int, x1 as int, y0 as int, py as int, 1),
            b == rect_sum(d, iw, x0 as int, x1 as int, y0 as int, py as int, 2),
            a == rect_sum(d, iw, x0 as int, x1 as int, y0 as int, py as int, 3),
            r <= 255 * count,
            g <= 255 * count,
            b <= 255 * count,
            a <= 255 * count,
            count == w * (py - y0),
            count <= 0xffff_ffff_ffff_ffff,
        decreases y1 - py,
    {
        let mut px: u32 = x0;
        while px < x1
            invariant
                image.wf(),
                d == image.bytes(),
                iw == image.width_spec(),
                w == x1 - x0,
                x0 <= x1 <= image.width_spec(),
                y0 <= y1 <= image.height_spec(),
                y0 <= py < y1,
                x0 <= px <= x1,
                r == rect_sum(d, iw, x0 as int, x1 as int, y0 as int, py as int, 0) + row_sum(d, iw, py as int, x0 as int, px as int, 0),
                g == rect_sum(d, iw, x0 as int, x1 as int, y0 as int, py as int, 1) + row_sum(d, iw, py as int, x0 as int, px as int, 1),
                b == rect_sum(d, iw, x0 as int, x1 as int, y0 as int, py as int, 2) + row_sum(d, iw, py as int, x0 as int, px as int, 2),
                a == rect_sum(d, iw, x0 as int, x1 as int, y0 as int, py as int, 3) + row_sum(d, iw, py as int, x0 as int, px as int, 3),
                r <= 255 * count,
                g <= 255 * count,
                b <= 255 * count,
                a <= 255 * count,
                count == w * (py - y0) + (px - x0),
                count <= 0xffff_ffff_ffff_ffff,
            decreases x1 - px,
        {
            let p = image.get_pixel(px, py);
            r = r + p.r as u128;
            g = g + p.g as u128;
            b = b + p.b as u128;
            a = a + p.a as u128;
            proof {
                assert(w * (py - y0) + (px - x0) + 1 <= w * (y1 - y0)) by (nonlinear_arith)
                    requires
                        y0 <= py < y1,
                        x0 <= px < x1,
                        w == x1 - x0,
                ;
                assert(w * (y1 - y0) <= 0xffff_ffff_ffff_ffff) by (nonlinear_arith)
                    requires
                        0 <= w <= 0xffff_ffff,
                        0 <= y1 - y0 <= 0xffff_ffff,
                ;
            }
            count = count + 1;
            px = px + 1;
        }
        proof {
            assert(w * (py - y0) + w == w * (py + 1 - y0)) by (nonlinear_arith);
        }
        py = py + 1;
    }
    ChannelSums { r, g, b, a, count }
}

/// The mean of a channel total over `count` pixels, which fits a byte.
pub fn mean_of(sum: u128, count: u128) -> (m: u8)
    requires
        count > 0,
        sum <= 255 * count,
    ensures
        m == mean(sum as int, count as int),
{
    assert(sum / count <= 255) by (nonlinear_arith)
        requires
            sum <= 255 * count,
            count > 0,
    ;
    (sum / count) as u8
}

/// The mean colour of the `w` x `h` block at `(x, y)`, with full alpha.
fn average_color(image: &RgbaImage, x: u32, y: u32, w: u32, h: u32) -> (c: PixelColor)
    requires
        image.wf(),
        x + w <= image.width_spec(),
        y + h <= image.height_spec(),
    ensures
        c == block_avg(image.bytes(), image.width_spec() as int, x as int, y as int, w as int, h as int),
{
    let s = region_sums(image, x, x + w, y, y + h);
    if s.count == 0 {
        return PixelColor { r: 0, g: 0, b: 0, a: 255 };
    }
    PixelColor { r: mean_of(s.r, s.count), g: mean_of(s.g, s.count), b: mean_of(s.b, s.count), a: 255 }
}

/// `(px, py)` lies in the `w` x `h` block at `(x, y)`.
pub open spec fn in_block(x: int, y: int, w: int, h: int, px: int, py: int) -> bool {
    x <= px < x + w && y <= py < y + h
}

/// Paints every pixel of the `w` x `h` block at `(x, y)` with `color`.
fn fill_block(image: &mut RgbaImage, x: u32, y: u32, w: u32, h: u32, color: PixelColor)
    requires
        old(image).wf(),
        x + w <= old(image).width_spec(),
        y + h <= old(image).height_spec(),
    ensures
        final(image).wf(),
        final(image).width_spec() == old(image).width_spec(),
        final(image).height_spec() == old(image).height_spec(),
        forall|px: int, py: int|
            in_image(old(image).width_spec() as int, old(image).height_spec() as int, px, py)
                ==> #[trigger] final(image).pixel(px, py) == if in_block(x as int, y as int, w as int, h as int, px, py) {
                color
            } else {
                old(image).pixel(px, py)
            },
{
    let ghost before = *image;
    let ghost iw = image.width_spec() as int;
    let ghost ih = image.height_spec() as int;
    let mut py: u32 = y;
    while py < y + h
        invariant
            image.wf(),
            image.width_spec() == iw,
            image.height_spec() == ih,
            x + w <= iw,
            y + h <= ih,
            y <= py <= y + h,
            forall|px: int, qy: int|
                in_image(iw, ih, px, qy) ==> #[trigger] image.pixel(px, qy) == if in_block(
                    x as int,
                    y as int,
                    w as int,
                    py - y,
                    px,
                    qy,
                ) {
                    color
                } else {
                    before.pixel(px, qy)
                },
        decreases y + h - py,
    {
        let mut px: u32 = x;
        while px < x + w
            invariant
                image.wf(),
                image.width_spec() == iw,
                image.height_spec() == ih,
                x + w <= iw,
                y + h <= ih,
                y <= py < y + h,
                x <= px <= x + w,
                forall|qx: int, qy: int|
                    in_image(iw, ih, qx, qy) ==> #[trigger] image.pixel(qx, qy) == if in_block(
                        x as int,
                        y as int,
                        w as int,
                        py - y,
                        qx,
                        qy,
                    ) || (qy == py && x <= qx < px) {
                        color
                    } else {
                        before.pixel(qx, qy)
                    },
            decreases x + w - px,
        {
            image.put_pixel(px, py, color);
            px = px + 1;
        }
        py = py + 1;
    }
}

/// Where block `k` of a grid of `bs`-wide blocks starting at `origin` begins, for the block
/// that holds `p`.
pub open spec fn block_start(origin: int, bs: int, p: int) -> int {
    origin + ((p - origin) / bs) * bs
}

/// The smaller of two integers.
pub open spec fn min_of(a: int, b: int) -> int {
    if a <= b {
        a
    } else {
        b
    }
}

/// The colour of pixel `(px, py)` after pixelating the area from `(x, y)` to
/// `(x_end, y_end)` in `bs`-pixel blocks: inside the area, the mean colour of its block
/// (blocks at the far edges are clipped); outside, the pixel as it was.
pub open spec fn mosaic_pixel(
    orig: Seq<u8>,
    w: int,
    x: int,
    y: int,
    x_end: int,
    y_end: int,
    bs: int,
    px: int,
    py: int,
) -> PixelColor {
    if x <= px < x_end && y <= py < y_end {
        let bx = block_start(x, bs, px);
        let by = block_start(y, bs, py);
        block_avg(orig, w, bx, by, min_of(bs, x_end - bx), min_of(bs, y_end - by))
    } else {
        rgba_at(orig, w, px, py)
    }
}

/// A point `p` at or after a grid line `origin + k * bs` and before the next one belongs to
/// the block that starts on that line.
proof fn lemma_block_start(origin: int, bs: int, k: int, p: int)
    requires
        bs > 0,
        k >= 0,
        origin + k * bs <= p < origin + k * bs + bs,
    ensures
        block_start(origin, bs, p) == origin + k * bs,
{
    vstd::arithmetic::div_mod::lemma_fundamental_div_mod_converse(p - origin, bs, k, p - origin - k * bs);
}

/// Pixelates the area of `width` x `height` at `(x, y)`, clipped to the image, in square
/// blocks of `block_size` pixels: each block takes the mean colour of its pixels, opaque.
pub fn apply_mosaic(image: &mut RgbaImage, x: u32, y: u32, width: u32, height: u32, block_size: u32)
    requires
        old(image).wf(),
        x + width <= u32::MAX,
        y + height <= u32::MAX,
        block_size > 0 || y >= min_of(y + height, old(image).height_spec() as int),
    ensures
        final(image).wf(),
        final(image).width_spec() == old(image).width_spec(),
        final(image).height_spec() == old(image).height_spec(),
        forall|px: int, py: int|
            in_image(old(image).width_spec() as int, old(image).height_spec() as int, px, py)
                ==> #[trigger] final(image).pixel(px, py) == mosaic_pixel(
                old(image).bytes(),
                old(image).width_spec() as int,
                x as int,
                y as int,
                min_of(x + width, old(image).width_spec() as int),
                min_of(y + height, old(image).height_spec() as int),
                block_size as int,
                px,
                py,
            ),
{
    let (img_w, img_h) = image.dimensions();
    let x_end: u32 = if x + width < img_w { x + width } else { img_w };
    let y_end: u32 = if y + height < img_h { y + height } else { img_h };
    let ghost orig = image.bytes();
    let ghost iw = img_w as int;
    let ghost ih = img_h as int;
    let ghost bs = block_size as int;
    let ghost mut ky: int = 0;
    let mut by: u64 = y as u64;
    while by < y_end as u64
        invariant
            image.wf(),
            image.width_spec() == iw,
            image.height_spec() == ih,
            iw == img_w,
            ih == img_h,
            x_end == min_of(x + width, iw),
            y_end == min_of(y + height, ih),
            bs == block_size,
            by < y_end ==> bs > 0,
            ky >= 0,
            by == y + ky * bs,
            by <= 0x1_ffff_ffff,
            forall|px: int, py: int|
                in_image(iw, ih, px, py) ==> #[trigger] image.pixel(px, py) == if py < by {
                    mosaic_pixel(orig, iw, x as int, y as int, x_end as int, y_end as int, bs, px, py)
                } else {
                    rgba_at(orig, iw, px, py)
                },
        decreases y_end + block_size - by,
    {
        let bh: u32 = if block_size < y_end - by as u32 { block_size } else { y_end - by as u32 };
        let ghost mut kx: int = 0;
        let mut bx: u64 = x as u64;
        while bx < x_end as u64
            invariant
                image.wf(),
                image.width_spec() == iw,
                image.height_spec() == ih,
                iw == img_w,
                ih == img_h,
                x_end == min_of(x + width, iw),
                y_end == min_of(y + height, ih),
                bs == block_size,
                bs > 0,
                ky >= 0,
                by == y + ky * bs,
                by < y_end,
                bh == min_of(bs, y_end - by),
                kx >= 0,
                bx == x + kx * bs,
                bx <= 0x1_ffff_ffff,
                forall|px: int, py: int|
                    in_image(iw, ih, px, py) ==> #[trigger] image.pixel(px, py) == if py < by || (py < by + bs
                        && px < bx) {
                        mosaic_pixel(orig, iw, x as int, y as int, x_end as int, y_end as int, bs, px, py)
                    } else {
                        rgba_at(orig, iw, px, py)
                    },
            decreases x_end + block_size - bx,
        {
            let bw: u32 = if block_size < x_end - bx as u32 { block_size } else { x_end - bx as u32 };
            let ghost cur = image.bytes();
            proof {
                assert forall|px: int, py: int|
                    in_block(bx as int, by as int, bw as int, bh as int, px, py) implies #[trigger] rgba_at(
                        cur,
                        iw,
                        px,
                        py,
                    ) == rgba_at(orig, iw, px, py) by {
                    assert(in_image(iw, ih, px, py));
                    assert(image.pixel(px, py) == rgba_at(cur, iw, px, py));
                }
                lemma_block_avg_frame(cur, orig, iw, bx as int, by as int, bw as int, bh as int);
            }
            let avg = average_color(image, bx as u32, by as u32, bw, bh);
            let ghost mid = *image;
            fill_block(image, bx as u32, by as u32, bw, bh, avg);
            proof {
                assert forall|px: int, py: int| in_image(iw, ih, px, py) implies #[trigger] image.pixel(px, py)
                    == if py < by || (py < by + bs && px < bx + bs) {
                    mosaic_pixel(orig, iw, x as int, y as int, x_end as int, y_end as int, bs, px, py)
                } else {
                    rgba_at(orig, iw, px, py)
                } by {
                    assert(mid.pixel(px, py) == rgba_at(mid.bytes(), iw, px, py));
                    if in_block(bx as int, by as int, bw as int, bh as int, px, py) {
                        lemma_block_start(x as int, bs, kx, px);
                        lemma_block_start(y as int, bs, ky, py);
                    }
                }
            }
            bx = bx + block_size as u64;
            proof {
                kx = kx + 1;
                assert(bx == x + kx * bs) by (nonlinear_arith)
                    requires
                        bx == x + (kx - 1) * bs + bs,
                ;
            }
        }
        by = by + block_size as u64;
        proof {
            ky = ky + 1;
            assert(by == y + ky * bs) by (nonlinear_arith)
                requires
                    by == y + (ky - 1) * bs + bs,
            ;
        }
    }
}

/// A single-channel 8-bit image, stored row by row.
pub struct GrayImage {
    width: u32,
    height: u32,
    data: Vec<u8>,
}

impl GrayImage {
    /// Exactly one byte per pixel.
    pub closed spec fn wf(&self) -> bool {
        self.data.len() == self.width * self.height
    }

    pub closed spec fn width_spec(&self) -> nat {
        self.width as nat
    }

    pub closed spec fn height_spec(&self) -> nat {
        self.height as nat
    }

    /// The raw bytes, one per pixel, row by row.
    pub closed spec fn bytes(&self) -> Seq<u8> {
        self.data@
    }

    /// Wraps raw gray bytes; `None` unless there is exactly one byte per pixel.
    pub fn from_raw(width: u32, height: u32, data: Vec<u8>) -> (r: Option<Self>)
        ensures
            r is Some <==> data.len() == width * height,
            r matches Some(img) ==> img.wf() && img.width_spec() == width && img.height_spec() == height
                && img.bytes() == data@,
    {
        let w = width as u128;
        let h = height as u128;
        assert(w * h <= 0xffff_ffff * 0xffff_ffff) by (nonlinear_arith)
            requires
                w <= 0xffff_ffff,
                h <= 0xffff_ffff,
        ;
        if data.len() as u128 == w * h {
            Some(GrayImage { width, height, data })
        } else {
            None
        }
    }

    pub fn width(&self) -> (r: u32)
        ensures
            r == self.width_spec(),
    {
        self.width
    }

    pub fn height(&self) -> (r: u32)
        ensures
            r == self.height_spec(),
    {
        self.height
    }

    /// The raw bytes, one per pixel, row by row.
    pub fn as_raw(&self) -> (r: &Vec<u8>)
        ensures
            r@ == self.bytes(),
    {
        &self.data
    }

    /// Gives up the image and returns its raw bytes.
    pub fn into_raw(self) -> (r: Vec<u8>)
        ensures
            r@ == self.bytes(),
    {
        self.data
    }

    /// The gray level at `(x, y)`.
    pub fn get_pixel(&self, x: u32, y: u32) -> (v: u8)
        requires
            self.wf(),
            x < self.width_spec(),
            y < self.height_spec(),
        ensures
            v == self.bytes()[offset(self.width_spec() as int, x as int, y as int, 1)],
    {
        proof {
            lemma_offset_bounds(self.width as int, self.height as int, x as int, y as int, 1);
        }
        self.data[y as usize * self.width as usize + x as usize]
    }
}

/// A gray level after thresholding: white above the threshold, black otherwise.
pub open spec fn threshold_level(v: u8, threshold: u8) -> u8 {
    if v > threshold {
        255
    } else {
        0
    }
}

/// Turns every gray level above `threshold` white and every other one black.
pub fn binarize(image: &GrayImage, threshold: u8) -> (out: GrayImage)
    requires
        image.wf(),
    ensures
        out.wf(),
        out.width_spec() == image.width_spec(),
        out.height_spec() == image.height_spec(),
        out.bytes() == image.bytes().map_values(|v: u8| threshold_level(v, threshold)),
{
    let mut data: Vec<u8> = Vec::new();
    let mut i: usize = 0;
    while i < image.data.len()
        invariant
            i <= image.data.len(),
            data@ == image.data@.subrange(0, i as int).map_values(|v: u8| threshold_level(v, threshold)),
        decreases image.data.len() - i,
    {
        let v = image.data[i];
        data.push(if v > threshold { 255 } else { 0 });
        proof {
            assert(image.data@.subrange(0, i + 1) == image.data@.subrange(0, i as int).push(v));
        }
        i = i + 1;
    }
    proof {
        assert(image.data@.subrange(0, image.data.len() as int) == image.data@);
    }
    GrayImage { width: image.width, height: image.height, data }
}

/// A channel value darkened for the capture overlay background.
pub open spec fn dim_channel(c: u8) -> u8 {
    ((c as int * DIM_FACTOR as int) / 100) as u8
}

/// A copy of `img` darkened to `DIM_FACTOR` percent brightness and made opaque.
pub fn dim_image(img: &RgbaImage) -> (out: RgbaImage)
    requires
        img.wf(),
    ensures
        out.wf(),
        out.width_spec() == img.width_spec(),
        out.height_spec() == img.height_spec(),
        forall|x: int, y: int|
            in_image(img.width_spec() as int, img.height_spec() as int, x, y) ==> #[trigger] out.pixel(x, y)
                == (PixelColor {
                r: dim_channel(img.pixel(x, y).r),
                g: dim_channel(img.pixel(x, y).g),
                b: dim_channel(img.pixel(x, y).b),
                a: 255,
            }),
{
    let n: usize = img.data.len() / 4;
    let mut data: Vec<u8> = Vec::new();
    let mut i: usize = 0;
    while i < n
        invariant
            img.wf(),
            n == img.width * img.height,
            i <= n,
            data@.len() == 4 * i,
            forall|k: int| 0 <= k < i ==> #[trigger] rgba_at(data@, 1, k, 0) == (PixelColor {
                r: dim_channel(rgba_at(img.data@, 1, k, 0).r),
                g: dim_channel(rgba_at(img.data@, 1, k, 0).g),
                b: dim_channel(rgba_at(img.data@, 1, k, 0).b),
                a: 255,
            }),
        decreases n - i,
    {
        let ghost prev = data@;
        let o: usize = 4 * i;
        data.push(((img.data[o] as u32 * DIM_FACTOR as u32) / 100) as u8);
        data.push(((img.data[o + 1] as u32 * DIM_FACTOR as u32) / 100) as u8);
        data.push(((img.data[o + 2] as u32 * DIM_FACTOR as u32) / 100) as u8);
        data.push(255);
        proof {
            assert forall|k: int| 0 <= k < i + 1 implies #[trigger] rgba_at(data@, 1, k, 0) == (PixelColor {
                r: dim_channel(rgba_at(img.data@, 1, k, 0).r),
                g: dim_channel(rgba_at(img.data@, 1, k, 0).g),
                b: dim_channel(rgba_at(img.data@, 1, k, 0).b),
                a: 255,
            }) by {
                if k < i {
                    assert(rgba_at(prev, 1, k, 0) == rgba_at(data@, 1, k, 0));
                }
            }
        }
        i = i + 1;
    }
    let out = RgbaImage { width: img.width, height: img.height, data };
    proof {
        let w = img.width as int;
        let h = img.height as int;
        assert forall|x: int, y: int| in_image(w, h, x, y) implies #[trigger] out.pixel(x, y) == (PixelColor {
            r: dim_channel(img.pixel(x, y).r),
            g: dim_channel(img.pixel(x, y).g),
            b: dim_channel(img.pixel(x, y).b),
            a: 255,
        }) by {
            lemma_offset_bounds(w, h, x, y, 1);
            let k = y * w + x;
            assert(rgba_at(out.data@, 1, k, 0) == out.pixel(x, y));
            assert(rgba_at(img.data@, 1, k, 0) == img.pixel(x, y));
        }
    }
    out
}

/// Four consecutive bytes taken as one pixel (bytes `4k .. 4k + 4`).
pub open spec fn quad(d: Seq<u8>, k: int) -> PixelColor {
    rgba_at(d, 1, k, 0)
}

/// Turns a screen grab in blue-green-red-unused order into opaque RGBA: the red and blue
/// bytes of every pixel trade places and the fourth byte becomes 255.
pub fn bgra_to_rgba(buffer: &[u8]) -> (out: Vec<u8>)
    requires
        buffer.len() % 4 == 0,
    ensures
        out.len() == buffer.len(),
        forall|k: int| 0 <= k < buffer.len() / 4 ==> #[trigger] quad(out@, k) == (PixelColor {
            r: quad(buffer@, k).b,
            g: quad(buffer@, k).g,
            b: quad(buffer@, k).r,
            a: 255,
        }),
{
    let n: usize = buffer.len() / 4;
    let mut out: Vec<u8> = Vec::new();
    let mut i: usize = 0;
    while i < n
        invariant
            n == buffer.len() / 4,
            buffer.len() % 4 == 0,
            i <= n,
            out@.len() == 4 * i,
            forall|k: int| 0 <= k < i ==> #[trigger] quad(out@, k) == (PixelColor {
                r: quad(buffer@, k).b,
                g: quad(buffer@, k).g,
                b: quad(buffer@, k).r,
                a: 255,
            }),
        decreases n - i,
    {
        let ghost prev = out@;
        let o: usize = 4 * i;
        out.push(buffer[o + 2]);
        out.push(buffer[o + 1]);
        out.push(buffer[o]);
        out.push(255);
        proof {
            assert forall|k: int| 0 <= k < i + 1 implies #[trigger] quad(out@, k) == (PixelColor {
                r: quad(buffer@, k).b,
                g: quad(buffer@, k).g,
                b: quad(buffer@, k).r,
                a: 255,
            }) by {
                if k < i {
                    assert(quad(prev, k) == quad(out@, k));
                }
            }
        }
        i = i + 1;
    }
    out
}

/// `out` is `d` with the first and third byte of every whole group of four swapped.
pub open spec fn red_blue_swapped(d: Seq<u8>, out: Seq<u8>) -> bool {
    &&& out.len() == d.len()
    &&& forall|k: int| 0 <= k < d.len() / 4 ==> #[trigger] quad(out, k) == (PixelColor {
        r: quad(d, k).b,
        g: quad(d, k).g,
        b: quad(d, k).r,
        a: quad(d, k).a,
    })
    &&& forall|j: int| 4 * (d.len() / 4) <= j < d.len() ==> #[trigger] out[j] == d[j]
}

/// Swapping red and blue twice gives the bytes back.
pub proof fn lemma_swap_twice(a: Seq<u8>, b: Seq<u8>, c: Seq<u8>)
    requires
        red_blue_swapped(a, b),
        red_blue_swapped(b, c),
    ensures
        c == a,
{
    assert forall|j: int| 0 <= j < a.len() implies c[j] == a[j] by {
        if j < 4 * (a.len() / 4) {
            let k = j / 4;
            assert(0 <= k < a.len() / 4);
            assert(quad(c, k) == quad(a, k)) by {
                assert(quad(b, k) == quad(c, k) || true);
            }
            assert(j == 4 * k || j == 4 * k + 1 || j == 4 * k + 2 || j == 4 * k + 3);
        } else {
            assert(c[j] == b[j]);
        }
    }
    assert(c =~= a);
}

/// Swaps the first and third byte of every whole group of four (RGBA to BGRA and back),
/// leaving the alpha byte and any trailing partial group as they were.
pub fn swap_red_blue(data: &[u8]) -> (out: Vec<u8>)
    ensures
        red_blue_swapped(data@, out@),
{
    let n: usize = data.len() / 4;
    let mut out: Vec<u8> = Vec::new();
    let mut i: usize = 0;
    while i < n
        invariant
            n == data.len() / 4,
            i <= n,
            out@.len() == 4 * i,
            forall|k: int| 0 <= k < i ==> #[trigger] quad(out@, k) == (PixelColor {
                r: quad(data@, k).b,
                g: quad(data@, k).g,
                b: quad(data@, k).r,
                a: quad(data@, k).a,
            }),
        decreases n - i,
    {
        let ghost prev = out@;
        let o: usize = 4 * i;
        out.push(data[o + 2]);
        out.push(data[o + 1]);
        out.push(data[o]);
        out.push(data[o + 3]);
        proof {
            assert forall|k: int| 0 <= k < i + 1 implies #[trigger] quad(out@, k) == (PixelColor {
                r: quad(data@, k).b,
                g: quad(data@, k).g,
                b: quad(data@, k).r,
                a: quad(data@, k).a,
            }) by {
                if k < i {
                    assert(quad(prev, k) == quad(out@, k));
                }
            }
        }
        i = i + 1;
    }
    let ghost whole = out@;
    let mut j: usize = 4 * n;
    while j < data.len()
        invariant
            n == data.len() / 4,
            4 * n <= j <= data.len(),
            out@.len() == j,
            out@.subrange(0, 4 * n) == whole,
            forall|t: int| 4 * n <= t < j ==> #[trigger] out@[t] == data@[t],
        decreases data.len() - j,
    {
        out.push(data[j]);
        proof {
            assert(out@.subrange(0, 4 * n) == whole);
        }
        j = j + 1;
    }
    proof {
        assert forall|k: int| 0 <= k < n implies #[trigger] quad(out@, k) == quad(whole, k) by {
            assert(out@.subrange(0, 4 * n) == whole);
            assert(out@[4 * k] == whole[4 * k]);
            assert(out@[4 * k + 1] == whole[4 * k + 1]);
            assert(out@[4 * k + 2] == whole[4 * k + 2]);
            assert(out@[4 * k + 3] == whole[4 * k + 3]);
        }
    }
    out
}

/// Size in bytes of the bitmap info header that opens a device-independent bitmap.
pub const DIB_HEADER_SIZE: u32 = 40;

/// A 32-bit value as four little-endian bytes.
pub open spec fn le32(v: u32) -> Seq<u8> {
    seq![(v % 256) as u8, ((v / 256) % 256) as u8, ((v / 65536) % 256) as u8, (v / 16777216) as u8]
}

/// A 16-bit value as two little-endian bytes.
pub open spec fn le16(v: u16) -> Seq<u8> {
    seq![(v % 256) as u8, (v / 256) as u8]
}

/// The four little-endian bytes at `at` read as an unsigned 32-bit value.
pub open spec fn read_le32(d: Seq<u8>, at: int) -> int {
    d[at] + 256 * d[at + 1] + 65536 * d[at + 2] + 16777216 * d[at + 3]
}

/// The two little-endian bytes at `at` read as an unsigned 16-bit value.
pub open spec fn read_le16(d: Seq<u8>, at: int) -> int {
    d[at] + 256 * d[at + 1]
}

/// Bytes per row of a 24-bit bitmap `w` pixels wide: three per pixel, padded to a multiple
/// of four.
pub open spec fn dib24_stride(w: int) -> int {
    ((3 * w + 3) / 4) * 4
}

/// The 32-bit two's-complement bit pattern of `-h`.
pub open spec fn neg_bits(h: u32) -> u32 {
    if h == 0 {
        0
    } else {
        (0x1_0000_0000 - h) as u32
    }
}

/// The header of a top-down 24-bit uncompressed bitmap of `w` x `h` pixels (a negative
/// height marks the rows as stored top row first).
pub open spec fn dib24_header(w: u32, h: u32) -> Seq<u8> {
    le32(DIB_HEADER_SIZE) + le32(w) + le32(neg_bits(h)) + le16(1) + le16(24) + le32(0)
        + le32((dib24_stride(w as int) * h) as u32) + le32(0) + le32(0) + le32(0) + le32(0)
}

/// Row `y` of a 24-bit bitmap: blue, green, red for each pixel, then zero padding.
pub open spec fn dib24_row(d: Seq<u8>, w: int, y: int) -> Seq<u8> {
    Seq::new(
        dib24_stride(w) as nat,
        |i: int|
            if i < 3 * w {
                let p = rgba_at(d, w, i / 3, y);
                if i % 3 == 0 {
                    p.b
                } else if i % 3 == 1 {
                    p.g
                } else {
                    p.r
                }
            } else {
                0u8
            },
    )
}

/// Rows `0 .. y` of a 24-bit bitmap, top row first.
pub open spec fn dib24_rows(d: Seq<u8>, w: int, y: int) -> Seq<u8>
    decreases y,
{
    if y <= 0 {
        Seq::empty()
    } else {
        dib24_rows(d, w, y - 1) + dib24_row(d, w, y - 1)
    }
}

fn push_le32(out: &mut Vec<u8>, v: u32)
    ensures
        final(out)@ == old(out)@ + le32(v),
{
    out.push((v % 256) as u8);
    out.push(((v / 256) % 256) as u8);
    out.push(((v / 65536) % 256) as u8);
    out.push((v / 16777216) as u8);
}

fn push_le16(out: &mut Vec<u8>, v: u16)
    ensures
        final(out)@ == old(out)@ + le16(v),
{
    out.push((v % 256) as u8);
    out.push((v / 256) as u8);
}

/// The image as a top-down 24-bit device-independent bitmap: header, then each row in
/// blue-green-red order padded to a multiple of four bytes. Alpha is dropped.
pub fn encode_dib24(image: &RgbaImage) -> (out: Vec<u8>)
    requires
        image.wf(),
        3 * image.width_spec() + 3 <= u32::MAX,
        dib24_stride(image.width_spec() as int) * image.height_spec() <= u32::MAX,
        40 + dib24_stride(image.width_spec() as int) * image.height_spec() <= usize::MAX,
        image.height_spec() < 0x8000_0000,
    ensures
        out@ == dib24_header(image.width_spec() as u32, image.height_spec() as u32) + dib24_rows(
            image.bytes(),
            image.width_spec() as int,
            image.height_spec() as int,
        ),
{
    let width = image.width();
    let height = image.height();
    let row_size: u32 = ((width * 3 + 3) / 4) * 4;
    let mut out: Vec<u8> = Vec::new();
    push_le32(&mut out, DIB_HEADER_SIZE);
    push_le32(&mut out, width);
    push_le32(&mut out, if height == 0 { 0 } else { 0xffff_ffff - height + 1 });
    push_le16(&mut out, 1);
    push_le16(&mut out, 24);
    push_le32(&mut out, 0);
    push_le32(&mut out, row_size * height);
    push_le32(&mut out, 0);
    push_le32(&mut out, 0);
    push_le32(&mut out, 0);
    push_le32(&mut out, 0);
    proof {
        assert(out@ =~= dib24_header(width, height));
    }
    let ghost header = out@;
    let ghost d = image.bytes();
    let ghost w = width as int;
    let mut y: u32 = 0;
    while y < height
        invariant
            image.wf(),
            d == image.bytes(),
            w == width,
            width == image.width_spec(),
            height == image.height_spec(),
            row_size == dib24_stride(w),
            3 * width + 3 <= u32::MAX,
            y <= height,
            out@ == header + dib24_rows(d, w, y as int),
        decreases height - y,
    {
        let ghost before = out@;
        let mut x: u32 = 0;
        while x < width
            invariant
                image.wf(),
                d == image.bytes(),
                w == width,
                width == image.width_spec(),
                height == image.height_spec(),
                3 * width + 3 <= u32::MAX,
                y < height,
                x <= width,
                out@ == before + dib24_row(d, w, y as int).subrange(0, 3 * x),
            decreases width - x,
        {
            let p = image.get_pixel(x, y);
            out.push(p.b);
            out.push(p.g);
            out.push(p.r);
            proof {
                let row = dib24_row(d, w, y as int);
                assert(row.subrange(0, 3 * x + 3) == row.subrange(0, 3 * x).push(p.b).push(p.g).push(p.r));
            }
            x = x + 1;
        }
        let mut k: u32 = 3 * width;
        while k < row_size
            invariant
                3 * width <= k <= row_size,
                row_size == dib24_stride(w),
                w == width,
                out@ == before + dib24_row(d, w, y as int).subrange(0, k as int),
            decreases row_size - k,
        {
            out.push(0);
            proof {
                let row = dib24_row(d, w, y as int);
                assert(row.subrange(0, k + 1) == row.subrange(0, k as int).push(0u8));
            }
            k = k + 1;
        }
        proof {
            let row = dib24_row(d, w, y as int);
            assert(row.subrange(0, row_size as int) == row);
        }
        y = y + 1;
    }
    out
}

/// The header fields of a device-independent bitmap that decoding looks at.
pub open spec fn dib_header_size(d: Seq<u8>) -> int {
    read_le32(d, 0)
}

/// The width field, read as unsigned (a negative width comes out huge).
pub open spec fn dib_width(d: Seq<u8>) -> int {
    read_le32(d, 4)
}

/// A negative height field marks a bitmap stored top row first.
pub open spec fn dib_top_down(d: Seq<u8>) -> bool {
    read_le32(d, 8) >= 0x8000_0000
}

/// The magnitude of the height field.
pub open spec fn dib_height(d: Seq<u8>) -> int {
    if dib_top_down(d) {
        0x1_0000_0000 - read_le32(d, 8)
    } else {
        read_le32(d, 8)
    }
}

/// Bits per pixel.
pub open spec fn dib_bpp(d: Seq<u8>) -> int {
    read_le16(d, 14)
}

/// Bytes per stored row: four per pixel at 32 bits, three padded to a multiple of four at 24.
pub open spec fn dib_stride(d: Seq<u8>) -> int {
    if dib_bpp(d) == 32 {
        4 * dib_width(d)
    } else {
        dib24_stride(dib_width(d))
    }
}

/// The bitmap can be decoded: 24 or 32 bits per pixel, every row lies within the bytes, and
/// the decoded image has a representable size.
pub open spec fn dib_readable(d: Seq<u8>) -> bool {
    &&& d.len() >= 16
    &&& dib_bpp(d) == 24 || dib_bpp(d) == 32
    &&& dib_header_size(d) + dib_stride(d) * dib_height(d) <= d.len()
    &&& 4 * (dib_width(d) * dib_height(d)) <= usize::MAX
}

/// The colour of pixel `(x, y)` of a readable bitmap: stored as blue, green, red (and alpha
/// at 32 bits; opaque at 24 bits), bottom row first unless the bitmap is top-down.
pub open spec fn dib_pixel(d: Seq<u8>, x: int, y: int) -> PixelColor {
    let src_y = if dib_top_down(d) {
        y
    } else {
        dib_height(d) - 1 - y
    };
    let bytes_per_pixel = dib_bpp(d) / 8;
    let o = dib_header_size(d) + src_y * dib_stride(d) + x * bytes_per_pixel;
    PixelColor {
        r: d[o + 2],
        g: d[o + 1],
        b: d[o],
        a: if dib_bpp(d) == 32 {
            d[o + 3]
        } else {
            255
        },
    }
}

/// The colour stored at column `x` of stored row `row` of a bitmap: blue, green, red (and
/// alpha at 32 bits), rows counted in the order they lie in the bytes.
pub open spec fn stored_pixel(d: Seq<u8>, x: int, row: int) -> PixelColor {
    let o = read_le32(d, 0) + row * dib_stride(d) + x * (read_le16(d, 14) / 8);
    PixelColor { r: d[o + 2], g: d[o + 1], b: d[o], a: if read_le16(d, 14) == 32 { d[o + 3] } else { 255 } }
}

/// The row order of a decoded bitmap, at either depth: with a positive height field the rows
/// are stored bottom row first, so image row `y` is stored row `height - 1 - y` (the first
/// stored row is the bottom of the image); with a negative height field image row `y` is
/// stored row `y`.
pub proof fn lemma_dib_row_order(d: Seq<u8>, x: int, y: int)
    requires
        dib_readable(d),
        0 <= x < dib_width(d),
        0 <= y < dib_height(d),
    ensures
        read_le32(d, 8) < 0x8000_0000 ==> dib_pixel(d, x, y) == stored_pixel(d, x, read_le32(d, 8) - 1 - y),
        read_le32(d, 8) < 0x8000_0000 ==> dib_pixel(d, x, read_le32(d, 8) - 1) == stored_pixel(d, x, 0),
        read_le32(d, 8) >= 0x8000_0000 ==> dib_pixel(d, x, y) == stored_pixel(d, x, y),
{
}

fn read_le32_at(d: &[u8], at: usize) -> (v: u32)
    requires
        at + 4 <= d.len(),
    ensures
        v == read_le32(d@, at as int),
{
    d[at] as u32 + 256 * (d[at + 1] as u32) + 65536 * (d[at + 2] as u32) + 16777216 * (d[at + 3] as u32)
}

/// Pixels earlier in row-major order have smaller linear indices.
proof fn lemma_linear_index_lt(w: int, px: int, py: int, x: int, y: int)
    requires
        0 <= px < w,
        0 <= x,
        0 <= py,
        py < y || (py == y && px < x),
    ensures
        py * w + px < y * w + x,
{
    if py < y {
        assert(py * w + w <= y * w) by (nonlinear_arith)
            requires
                py < y,
                w >= 0,
        ;
    }
}

/// Where the bytes of a source pixel lie: inside the rows that readability guarantees.
proof fn lemma_dib_source_in_bounds(hs: int, stride: int, h: int, src_y: int, x: int, bpx: int, len: int)
    requires
        0 <= hs,
        0 <= src_y < h,
        0 <= x,
        x * bpx + bpx <= stride,
        0 <= bpx,
        hs + stride * h <= len,
    ensures
        0 <= src_y * stride,
        0 <= x * bpx,
        hs + src_y * stride + x * bpx + bpx <= len,
{
    assert(src_y * stride + stride <= stride * h) by (nonlinear_arith)
        requires
            0 <= src_y < h,
            stride >= 0,
    ;
    assert(0 <= src_y * stride + x * bpx) by (nonlinear_arith)
        requires
            0 <= src_y,
            stride >= 0,
            0 <= x,
            0 <= bpx,
    ;
}

/// Decodes a device-independent bitmap of 24 or 32 bits per pixel into an RGBA image;
/// `None` for any other depth or when the pixel rows do not fit in the bytes.
pub fn decode_dib(d: &[u8]) -> (r: Option<RgbaImage>)
    ensures
        r is Some <==> dib_readable(d@),
        r matches Some(img) ==> {
            &&& img.wf()
            &&& img.width_spec() == dib_width(d@)
            &&& img.height_spec() == dib_height(d@)
            &&& forall|x: int, y: int|
                in_image(img.width_spec() as int, img.height_spec() as int, x, y) ==> #[trigger] img.pixel(x, y)
                    == dib_pixel(d@, x, y)
        },
{
    if d.len() < 16 {
        return None;
    }
    let hs = read_le32_at(d, 0);
    let width = read_le32_at(d, 4);
    let raw_h = read_le32_at(d, 8);
    let bpp: u16 = d[14] as u16 + 256 * (d[15] as u16);
    let top_down = raw_h >= 0x8000_0000;
    let height: u32 = if top_down { ((0x1_0000_0000u64 - raw_h as u64) as u32) } else { raw_h };
    if bpp != 24 && bpp != 32 {
        return None;
    }
    let bpx: u64 = if bpp == 32 { 4 } else { 3 };
    let stride_wide: u64 = if bpp == 32 { 4 * width as u64 } else { ((3 * width as u64 + 3) / 4) * 4 };
    assert(stride_wide * (height as u64) <= 0x4_0000_0000 * 0xffff_ffff) by (nonlinear_arith)
        requires
            stride_wide <= 0x4_0000_0000,
            height <= 0xffff_ffff,
    ;
    assert(4 * (width as u128 * height as u128) <= 4 * (0xffff_ffff * 0xffff_ffff)) by (nonlinear_arith)
        requires
            width <= 0xffff_ffff,
            height <= 0xffff_ffff,
    ;
    if hs as u128 + stride_wide as u128 * height as u128 > d.len() as u128 {
        return None;
    }
    if 4 * (width as u128 * height as u128) > usize::MAX as u128 {
        return None;
    }
    if height == 0 {
        assert(4 * (width * height) == 0) by (nonlinear_arith)
            requires
                height == 0,
        ;
        return Some(RgbaImage { width, height, data: Vec::new() });
    }
    assert(stride_wide <= stride_wide * (height as u64)) by (nonlinear_arith)
        requires
            height >= 1,
    ;
    let ghost dd = d@;
    let ghost w = width as int;
    let ghost h = height as int;
    let stride: usize = stride_wide as usize;
    let hs_u: usize = hs as usize;
    let bpx_u: usize = bpx as usize;
    let mut data: Vec<u8> = Vec::new();
    let mut y: u32 = 0;
    while y < height
        invariant
            dib_readable(dd),
            dd == d@,
            w == width,
            h == height,
            w == dib_width(dd),
            h == dib_height(dd),
            top_down == dib_top_down(dd),
            stride == dib_stride(dd),
            hs_u == dib_header_size(dd),
            bpx_u == dib_bpp(dd) / 8,
            bpp == dib_bpp(dd),
            y <= height,
            data@.len() == 4 * (y * w),
            forall|px: int, py: int|
                0 <= px < w && 0 <= py < y ==> #[trigger] rgba_at(data@, w, px, py) == dib_pixel(dd, px, py),
        decreases height - y,
    {
        let src_y: u32 = if top_down { y } else { height - 1 - y };
        let mut x: u32 = 0;
        while x < width
            invariant
                dib_readable(dd),
                dd == d@,
                w == width,
                h == height,
                w == dib_width(dd),
                h == dib_height(dd),
                top_down == dib_top_down(dd),
                stride == dib_stride(dd),
                hs_u == dib_header_size(dd),
                bpx_u == dib_bpp(dd) / 8,
                bpp == dib_bpp(dd),
                y < height,
                src_y == if top_down { y as int } else { h - 1 - y },
                x <= width,
                data@.len() == 4 * (y * w + x),
                forall|px: int, py: int|
                    0 <= px < w && 0 <= py && (py < y || (py == y && px < x)) ==> #[trigger] rgba_at(data@, w, px, py)
                        == dib_pixel(dd, px, py),
            decreases width - x,
        {
            proof {
                assert(x * bpx_u + bpx_u <= stride) by (nonlinear_arith)
                    requires
                        x < w,
                        bpx_u == 4 ==> stride == 4 * w,
                        bpx_u == 3 ==> stride == ((3 * w + 3) / 4) * 4,
                        bpx_u == 3 || bpx_u == 4,
                ;
                lemma_dib_source_in_bounds(hs_u as int, stride as int, h, src_y as int, x as int, bpx_u as int, dd.len() as int);
                assert(hs_u + src_y * stride + x * bpx_u + bpx_u <= d.len());
                assert(src_y * stride <= usize::MAX);
            }
            let o: usize = hs_u + src_y as usize * stride + x as usize * bpx_u;
            let ghost prev = data@;
            data.push(d[o + 2]);
            data.push(d[o + 1]);
            data.push(d[o]);
            data.push(if bpp == 32 { d[o + 3] } else { 255 });
            proof {
                assert(offset(w, x as int, y as int, 4) == prev.len());
                assert forall|px: int, py: int|
                    0 <= px < w && 0 <= py && (py < y || (py == y && px < x + 1)) implies #[trigger] rgba_at(
                        data@,
                        w,
                        px,
                        py,
                    ) == dib_pixel(dd, px, py) by {
                    if py < y || px < x {
                        lemma_linear_index_lt(w, px, py, x as int, y as int);
                        assert(offset(w, px, py, 4) + 4 <= offset(w, x as int, y as int, 4)) by (nonlinear_arith)
                            requires
                                py * w + px < y * w + x,
                        ;
                        assert(rgba_at(prev, w, px, py) == rgba_at(data@, w, px, py));
                    }
                }
            }
            x = x + 1;
        }
        proof {
            assert(y * w + w == (y + 1) * w) by (nonlinear_arith);
        }
        y = y + 1;
    }
    proof {
        assert(h * w == w * h) by (nonlinear_arith);
    }
    let img = RgbaImage { width, height, data };
    proof {
        assert forall|x: int, y: int| in_image(w, h, x, y) implies #[trigger] img.pixel(x, y) == dib_pixel(dd, x, y) by {
            assert(rgba_at(img.data@, w, x, y) == dib_pixel(dd, x, y));
        }
    }
    Some(img)
}

/// Width in pixels of the glowing frame drawn around a pinned screenshot.
pub const PIN_GLOW_MARGIN: u32 = 10;

/// The accent colour of the pin frame, `#00AEFF`.
pub open spec fn pin_accent() -> PixelColor {
    PixelColor { r: 0, g: 174, b: 255, a: 255 }
}

/// How far `e` lies outside the span `m .. m + n` (0 inside it).
pub open spec fn outside_by(e: int, m: int, n: int) -> int {
    if e < m {
        m - e
    } else if e >= m + n {
        e - m - n + 1
    } else {
        0
    }
}

/// A channel tinted 40 percent towards the accent.
pub open spec fn tint(c: u8, accent: u8) -> u8 {
    ((c * 6 + accent * 4) / 10) as u8
}

/// An accent channel scaled by the alpha `a` (premultiplied).
pub open spec fn premultiply(c: u8, a: u8) -> u8 {
    ((c * a) / 255) as u8
}

/// Pixel `(ex, ey)` of a pinned screenshot: the image inside the frame with its outermost
/// ring tinted towards the accent, a solid accent ring just outside it, and beyond that a
/// premultiplied accent halo whose alpha at distance `d` is `halo[d]`.
pub open spec fn pin_pixel(img: RgbaImage, halo: Seq<u8>, ex: int, ey: int) -> PixelColor {
    let m = PIN_GLOW_MARGIN as int;
    let w = img.width_spec() as int;
    let h = img.height_spec() as int;
    let dx = outside_by(ex, m, w);
    let dy = outside_by(ey, m, h);
    let d = if dx >= dy {
        dx
    } else {
        dy
    };
    let acc = pin_accent();
    if d == 0 {
        let p = img.pixel(ex - m, ey - m);
        if ex - m == 0 || ey - m == 0 || ex - m == w - 1 || ey - m == h - 1 {
            PixelColor { r: tint(p.r, acc.r), g: tint(p.g, acc.g), b: tint(p.b, acc.b), a: p.a }
        } else {
            p
        }
    } else if d == 1 {
        acc
    } else {
        let a = halo[d];
        PixelColor { r: premultiply(acc.r, a), g: premultiply(acc.g, a), b: premultiply(acc.b, a), a }
    }
}

fn pin_pixel_at(image: &RgbaImage, halo: &[u8], ex: u32, ey: u32) -> (p: PixelColor)
    requires
        image.wf(),
        halo.len() == PIN_GLOW_MARGIN + 1,
        ex < image.width_spec() + 2 * PIN_GLOW_MARGIN,
        ey < image.height_spec() + 2 * PIN_GLOW_MARGIN,
        image.width_spec() + 2 * PIN_GLOW_MARGIN <= u32::MAX,
        image.height_spec() + 2 * PIN_GLOW_MARGIN <= u32::MAX,
    ensures
        p == pin_pixel(*image, halo@, ex as int, ey as int),
{
    let m = PIN_GLOW_MARGIN;
    let (w, h) = image.dimensions();
    let dx: u32 = if ex < m {
        m - ex
    } else if ex >= m + w {
        ex - m - w + 1
    } else {
        0
    };
    let dy: u32 = if ey < m {
        m - ey
    } else if ey >= m + h {
        ey - m - h + 1
    } else {
        0
    };
    let d: u32 = if dx >= dy { dx } else { dy };
    if d == 0 {
        let ix = ex - m;
        let iy = ey - m;
        let px = image.get_pixel(ix, iy);
        if ix == 0 || iy == 0 || ix == w - 1 || iy == h - 1 {
            PixelColor {
                r: ((px.r as u32 * 6 + 0 * 4) / 10) as u8,
                g: ((px.g as u32 * 6 + 174 * 4) / 10) as u8,
                b: ((px.b as u32 * 6 + 255 * 4) / 10) as u8,
                a: px.a,
            }
        } else {
            px
        }
    } else if d == 1 {
        PixelColor { r: 0, g: 174, b: 255, a: 255 }
    } else {
        let a = halo[d as usize];
        let k = a as u32;
        PixelColor { r: ((0 * k) / 255) as u8, g: ((174 * k) / 255) as u8, b: ((255 * k) / 255) as u8, a }
    }
}

/// The pinned-window picture: the screenshot grown by `PIN_GLOW_MARGIN` on every side for
/// its accent frame and halo. `halo[d]` is the alpha of the halo `d` pixels out.
pub fn decorate_pin(image: &RgbaImage, halo: &[u8]) -> (out: RgbaImage)
    requires
        image.wf(),
        halo.len() == PIN_GLOW_MARGIN + 1,
        image.width_spec() + 2 * PIN_GLOW_MARGIN <= u32::MAX,
        image.height_spec() + 2 * PIN_GLOW_MARGIN <= u32::MAX,
        4 * ((image.width_spec() + 2 * PIN_GLOW_MARGIN) * (image.height_spec() + 2 * PIN_GLOW_MARGIN))
            <= usize::MAX,
    ensures
        out.wf(),
        out.width_spec() == image.width_spec() + 2 * PIN_GLOW_MARGIN,
        out.height_spec() == image.height_spec() + 2 * PIN_GLOW_MARGIN,
        forall|ex: int, ey: int|
            in_image(out.width_spec() as int, out.height_spec() as int, ex, ey) ==> #[trigger] out.pixel(ex, ey)
                == pin_pixel(*image, halo@, ex, ey),
{
    let (w, h) = image.dimensions();
    let ew: u32 = w + 2 * PIN_GLOW_MARGIN;
    let eh: u32 = h + 2 * PIN_GLOW_MARGIN;
    let ghost gw = ew as int;
    let mut data: Vec<u8> = Vec::new();
    let mut ey: u32 = 0;
    while ey < eh
        invariant
            image.wf(),
            halo.len() == PIN_GLOW_MARGIN + 1,
            w == image.width_spec(),
            h == image.height_spec(),
            ew == w + 2 * PIN_GLOW_MARGIN,
            eh == h + 2 * PIN_GLOW_MARGIN,
            ew <= u32::MAX,
            eh <= u32::MAX,
            gw == ew,
            ey <= eh,
            data@.len() == 4 * (ey * gw),
            forall|px: int, py: int|
                0 <= px < gw && 0 <= py < ey ==> #[trigger] rgba_at(data@, gw, px, py) == pin_pixel(
                    *image,
                    halo@,
                    px,
                    py,
                ),
        decreases eh - ey,
    {
        let mut ex: u32 = 0;
        while ex < ew
            invariant
                image.wf(),
                halo.len() == PIN_GLOW_MARGIN + 1,
                w == image.width_spec(),
                h == image.height_spec(),
                ew == w + 2 * PIN_GLOW_MARGIN,
                eh == h + 2 * PIN_GLOW_MARGIN,
                ew <= u32::MAX,
                eh <= u32::MAX,
                gw == ew,
                ey < eh,
                ex <= ew,
                data@.len() == 4 * (ey * gw + ex),
                forall|px: int, py: int|
                    0 <= px < gw && 0 <= py && (py < ey || (py == ey && px < ex)) ==> #[trigger] rgba_at(
                        data@,
                        gw,
                        px,
                        py,
                    ) == pin_pixel(*image, halo@, px, py),
            decreases ew - ex,
        {
            let p = pin_pixel_at(image, halo, ex, ey);
            let ghost prev = data@;
            data.push(p.r);
            data.push(p.g);
            data.push(p.b);
            data.push(p.a);
            proof {
                assert(offset(gw, ex as int, ey as int, 4) == prev.len());
                assert forall|px: int, py: int|
                    0 <= px < gw && 0 <= py && (py < ey || (py == ey && px < ex + 1)) implies #[trigger] rgba_at(
                        data@,
                        gw,
                        px,
                        py,
                    ) == pin_pixel(*image, halo@, px, py) by {
                    if py < ey || px < ex {
                        lemma_linear_index_lt(gw, px, py, ex as int, ey as int);
                        assert(offset(gw, px, py, 4) + 4 <= offset(gw, ex as int, ey as int, 4)) by (nonlinear_arith)
                            requires
                                py * gw + px < ey * gw + ex,
                        ;
                        assert(rgba_at(prev, gw, px, py) == rgba_at(data@, gw, px, py));
                    }
                }
            }
            ex = ex + 1;
        }
        proof {
            assert(ey * gw + gw == (ey + 1) * gw) by (nonlinear_arith);
        }
        ey = ey + 1;
    }
    proof {
        assert(eh * gw == ew * eh) by (nonlinear_arith)
            requires
                gw == ew,
        ;
    }
    let out = RgbaImage { width: ew, height: eh, data };
    proof {
        assert forall|ex: int, ey: int| in_image(gw, eh as int, ex, ey) implies #[trigger] out.pixel(ex, ey)
            == pin_pixel(*image, halo@, ex, ey) by {
            assert(rgba_at(out.data@, gw, ex, ey) == pin_pixel(*image, halo@, ex, ey));
        }
    }
    out
}

proof fn lemma_le32_read(v: u32)
    ensures
        le32(v)[0] + 256 * le32(v)[1] + 65536 * le32(v)[2] + 16777216 * le32(v)[3] == v,
{
    assert((v % 256) + 256 * ((v / 256) % 256) + 65536 * ((v / 65536) % 256) + 16777216 * (v / 16777216) == v)
        by (bit_vector);
    assert(((v % 256) as u8) as int == v % 256);
    assert((((v / 256) % 256) as u8) as int == (v / 256) % 256);
    assert((((v / 65536) % 256) as u8) as int == (v / 65536) % 256);
    assert(v / 16777216 < 256) by (bit_vector);
    assert(((v / 16777216) as u8) as int == v / 16777216);
}

/// The rows of a 24-bit bitmap take one stride each.
proof fn lemma_dib24_rows_len(d: Seq<u8>, w: int, h: int)
    requires
        w >= 0,
        h >= 0,
    ensures
        dib24_rows(d, w, h).len() == dib24_stride(w) * h,
    decreases h,
{
    assert(dib24_stride(w) >= 0);
    if h == 0 {
        assert(dib24_stride(w) * h == 0) by (nonlinear_arith)
            requires
                h == 0,
        ;
    } else {
        lemma_dib24_rows_len(d, w, h - 1);
        assert(dib24_row(d, w, h - 1).len() == dib24_stride(w));
        assert(dib24_stride(w) * (h - 1) + dib24_stride(w) == dib24_stride(w) * h) by (nonlinear_arith);
    }
}

/// Byte `i` of row `y` sits at `y * stride + i` in the rows.
proof fn lemma_dib24_rows_index(d: Seq<u8>, w: int, h: int, y: int, i: int)
    requires
        w >= 0,
        0 <= y < h,
        0 <= i < dib24_stride(w),
    ensures
        dib24_rows(d, w, h)[y * dib24_stride(w) + i] == dib24_row(d, w, y)[i],
    decreases h,
{
    lemma_dib24_rows_len(d, w, h - 1);
    if y < h - 1 {
        lemma_dib24_rows_index(d, w, h - 1, y, i);
        assert(y * dib24_stride(w) + i < dib24_stride(w) * (h - 1)) by (nonlinear_arith)
            requires
                y < h - 1,
                0 <= i < dib24_stride(w),
        ;
    } else {
        assert(y * dib24_stride(w) == dib24_stride(w) * (h - 1)) by (nonlinear_arith)
            requires
                y == h - 1,
        ;
    }
}

/// A pixel with its alpha replaced by full opacity.
pub open spec fn opaque(p: PixelColor) -> PixelColor {
    PixelColor { a: 255, ..p }
}

/// Decoding an encoded 24-bit bitmap gives back the image, made opaque: what the clipboard
/// returns of an image it was given.
pub proof fn lemma_dib24_round_trip(img: RgbaImage)
    requires
        img.wf(),
        3 * img.width_spec() + 3 <= u32::MAX,
        dib24_stride(img.width_spec() as int) * img.height_spec() <= u32::MAX,
        40 + dib24_stride(img.width_spec() as int) * img.height_spec() <= usize::MAX,
        img.height_spec() < 0x8000_0000,
    ensures
        ({
            let bytes = dib24_header(img.width_spec() as u32, img.height_spec() as u32) + dib24_rows(
                img.bytes(),
                img.width_spec() as int,
                img.height_spec() as int,
            );
            &&& dib_readable(bytes)
            &&& dib_width(bytes) == img.width_spec()
            &&& dib_height(bytes) == img.height_spec()
            &&& forall|x: int, y: int|
                in_image(img.width_spec() as int, img.height_spec() as int, x, y) ==> #[trigger] dib_pixel(bytes, x, y)
                    == opaque(img.pixel(x, y))
        }),
{
    let w = img.width_spec() as u32;
    let h = img.height_spec() as u32;
    let d = img.bytes();
    let hd = dib24_header(w, h);
    let rows = dib24_rows(d, w as int, h as int);
    let bytes = hd + rows;
    let stride = dib24_stride(w as int);
    lemma_dib24_rows_len(d, w as int, h as int);
    assert(hd.len() == 40);
    lemma_le32_read(DIB_HEADER_SIZE);
    lemma_le32_read(w);
    lemma_le32_read(neg_bits(h));
    assert(bytes.subrange(0, 4) == le32(DIB_HEADER_SIZE));
    assert(bytes.subrange(4, 8) == le32(w));
    assert(bytes.subrange(8, 12) == le32(neg_bits(h)));
    assert(bytes[0] == le32(DIB_HEADER_SIZE)[0] && bytes[1] == le32(DIB_HEADER_SIZE)[1] && bytes[2] == le32(DIB_HEADER_SIZE)[2] && bytes[3] == le32(DIB_HEADER_SIZE)[3]);
    assert(bytes[4] == le32(w)[0] && bytes[5] == le32(w)[1] && bytes[6] == le32(w)[2] && bytes[7] == le32(w)[3]);
    assert(bytes[8] == le32(neg_bits(h))[0] && bytes[9] == le32(neg_bits(h))[1] && bytes[10] == le32(neg_bits(h))[2]
        && bytes[11] == le32(neg_bits(h))[3]);
    assert(bytes[14] == 24 && bytes[15] == 0);
    assert(dib_header_size(bytes) == 40);
    assert(dib_width(bytes) == w);
    assert(read_le32(bytes, 8) == neg_bits(h));
    assert(dib_height(bytes) == h);
    assert(dib_bpp(bytes) == 24);
    assert(dib_stride(bytes) == stride);
    assert(4 * (w * h) <= usize::MAX) by {
        assert(d.len() == 4 * (w * h));
    }
    assert forall|x: int, y: int| in_image(w as int, h as int, x, y) implies #[trigger] dib_pixel(bytes, x, y) == opaque(
        img.pixel(x, y),
    ) by {
        let row = dib24_row(d, w as int, y);
        assert(dib_top_down(bytes) == (h > 0));
        assert(3 * x + 2 < 3 * w);
        assert(3 * w <= stride);
        lemma_dib24_rows_index(d, w as int, h as int, y, 3 * x);
        lemma_dib24_rows_index(d, w as int, h as int, y, 3 * x + 1);
        lemma_dib24_rows_index(d, w as int, h as int, y, 3 * x + 2);
        assert(row[3 * x] == img.pixel(x, y).b);
        assert(row[3 * x + 1] == img.pixel(x, y).g);
        assert(row[3 * x + 2] == img.pixel(x, y).r);
        assert(0 <= y * stride) by (nonlinear_arith)
            requires
                0 <= y,
                0 <= stride,
        ;
        assert(y * stride + stride <= stride * h) by (nonlinear_arith)
            requires
                0 <= y < h,
                0 <= stride,
        ;
        let k = y * stride + 3 * x;
        let o = dib_header_size(bytes) + y * dib_stride(bytes) + x * (dib_bpp(bytes) / 8);
        assert(dib_bpp(bytes) / 8 == 3);
        assert(x * (dib_bpp(bytes) / 8) == 3 * x);
        assert(y * dib_stride(bytes) == y * stride);
        assert(o == 40 + k);
        assert(bytes[40 + k] == rows[k]);
        assert(bytes[40 + k + 1] == rows[k + 1]);
        assert(bytes[40 + k + 2] == rows[k + 2]);
        assert(dib_pixel(bytes, x, y) == PixelColor { r: bytes[o + 2], g: bytes[o + 1], b: bytes[o], a: 255 });
    }
}

/// A point at or after `origin` lies in the block that `block_start` names for it.
proof fn lemma_in_own_block(origin: int, bs: int, p: int)
    requires
        bs > 0,
        p >= origin,
    ensures
        block_start(origin, bs, p) <= p < block_start(origin, bs, p) + bs,
        (p - origin) / bs >= 0,
{
    let q = (p - origin) / bs;
    let r = (p - origin) % bs;
    vstd::arithmetic::div_mod::lemma_fundamental_div_mod(p - origin, bs);
    vstd::arithmetic::div_mod::lemma_mod_pos_bound(p - origin, bs);
    assert(bs * q == q * bs) by (nonlinear_arith);
    assert(q >= 0) by (nonlinear_arith)
        requires
            p - origin == bs * q + r,
            0 <= r < bs,
            p - origin >= 0,
            bs > 0,
    ;
}

/// A row of pixels that all have channel value `v` sums to `v` per pixel.
proof fn lemma_row_sum_const(d: Seq<u8>, w: int, y: int, x0: int, x1: int, c: int, v: int)
    requires
        x0 <= x1,
        forall|px: int| x0 <= px < x1 ==> chan(#[trigger] rgba_at(d, w, px, y), c) == v,
    ensures
        row_sum(d, w, y, x0, x1, c) == v * (x1 - x0),
    decreases x1 - x0,
{
    if x1 > x0 {
        lemma_row_sum_const(d, w, y, x0, x1 - 1, c, v);
        assert(chan(rgba_at(d, w, x1 - 1, y), c) == v);
        assert(v * (x1 - 1 - x0) + v == v * (x1 - x0)) by (nonlinear_arith);
    } else {
        assert(v * (x1 - x0) == 0) by (nonlinear_arith)
            requires
                x1 == x0,
        ;
    }
}

/// A block of pixels that all have channel value `v` sums to `v` per pixel.
proof fn lemma_rect_sum_const(d: Seq<u8>, w: int, x0: int, x1: int, y0: int, y1: int, c: int, v: int)
    requires
        x0 <= x1,
        y0 <= y1,
        forall|px: int, py: int| x0 <= px < x1 && y0 <= py < y1 ==> chan(#[trigger] rgba_at(d, w, px, py), c) == v,
    ensures
        rect_sum(d, w, x0, x1, y0, y1, c) == v * ((x1 - x0) * (y1 - y0)),
    decreases y1 - y0,
{
    if y1 > y0 {
        lemma_rect_sum_const(d, w, x0, x1, y0, y1 - 1, c, v);
        assert forall|px: int| x0 <= px < x1 implies chan(#[trigger] rgba_at(d, w, px, y1 - 1), c) == v by {}
        lemma_row_sum_const(d, w, y1 - 1, x0, x1, c, v);
        assert(v * ((x1 - x0) * (y1 - 1 - y0)) + v * (x1 - x0) == v * ((x1 - x0) * (y1 - y0))) by (nonlinear_arith);
    } else {
        assert(v * ((x1 - x0) * (y1 - y0)) == 0) by (nonlinear_arith)
            requires
                y1 == y0,
        ;
    }
}

/// The mean of a block whose pixels all have colour `p` is `p`, made opaque.
proof fn lemma_block_avg_const(d: Seq<u8>, w: int, x: int, y: int, bw: int, bh: int, p: PixelColor)
    requires
        bw > 0,
        bh > 0,
        forall|px: int, py: int| x <= px < x + bw && y <= py < y + bh ==> #[trigger] rgba_at(d, w, px, py) == p,
    ensures
        block_avg(d, w, x, y, bw, bh) == opaque(p),
{
    let n = bw * bh;
    assert(n > 0) by (nonlinear_arith)
        requires
            bw > 0,
            bh > 0,
            n == bw * bh,
    ;
    assert forall|c: int| 0 <= c < 3 implies rect_sum(d, w, x, x + bw, y, y + bh, c) / n == chan(p, c) by {
        lemma_rect_sum_const(d, w, x, x + bw, y, y + bh, c, chan(p, c));
        assert((chan(p, c) * n) / n == chan(p, c)) by (nonlinear_arith)
            requires
                n > 0,
        ;
    }
}

/// Pixelating an area twice with the same blocks gives what pixelating it once gives.
pub proof fn lemma_mosaic_idempotent(
    orig: Seq<u8>,
    mid: Seq<u8>,
    w: int,
    h: int,
    x: int,
    y: int,
    x_end: int,
    y_end: int,
    bs: int,
)
    requires
        0 <= x,
        0 <= y,
        x_end <= w,
        y_end <= h,
        bs > 0,
        forall|px: int, py: int| in_image(w, h, px, py) ==> #[trigger] rgba_at(mid, w, px, py) == mosaic_pixel(
            orig,
            w,
            x,
            y,
            x_end,
            y_end,
            bs,
            px,
            py,
        ),
    ensures
        forall|px: int, py: int|
            in_image(w, h, px, py) ==> #[trigger] mosaic_pixel(mid, w, x, y, x_end, y_end, bs, px, py) == mosaic_pixel(
                orig,
                w,
                x,
                y,
                x_end,
                y_end,
                bs,
                px,
                py,
            ),
{
    assert forall|px: int, py: int| in_image(w, h, px, py) implies #[trigger] mosaic_pixel(
        mid,
        w,
        x,
        y,
        x_end,
        y_end,
        bs,
        px,
        py,
    ) == mosaic_pixel(orig, w, x, y, x_end, y_end, bs, px, py) by {
        if x <= px < x_end && y <= py < y_end {
            let kx = (px - x) / bs;
            let ky = (py - y) / bs;
            let bx = block_start(x, bs, px);
            let by = block_start(y, bs, py);
            assert(0 <= kx && 0 <= ky) by (nonlinear_arith)
                requires
                    px >= x,
                    py >= y,
                    bs > 0,
                    kx == (px - x) / bs,
                    ky == (py - y) / bs,
            ;
            lemma_in_own_block(x, bs, px);
            lemma_in_own_block(y, bs, py);
            let bw = min_of(bs, x_end - bx);
            let bh = min_of(bs, y_end - by);
            let c = block_avg(orig, w, bx, by, bw, bh);
            assert forall|qx: int, qy: int| bx <= qx < bx + bw && by <= qy < by + bh implies #[trigger] rgba_at(
                mid,
                w,
                qx,
                qy,
            ) == c by {
                lemma_block_start(x, bs, kx, qx);
                lemma_block_start(y, bs, ky, qy);
                assert(in_image(w, h, qx, qy));
            }
            lemma_block_avg_const(mid, w, bx, by, bw, bh, c);
        }
    }
}

/// The darkest and brightest gray levels of `d`, folded from `(255, 0)` as the contrast
/// stretch does (so an empty image gives `(255, 0)`).
pub open spec fn gray_range_spec(d: Seq<u8>) -> (u8, u8)
    decreases d.len(),
{
    if d.len() == 0 {
        (255, 0)
    } else {
        let (mn, mx) = gray_range_spec(d.drop_last());
        let v = d.last();
        (if v < mn {
            v
        } else {
            mn
        }, if v > mx {
            v
        } else {
            mx
        })
    }
}

/// The darkest and brightest gray levels of the image.
pub fn gray_range(image: &GrayImage) -> (r: (u8, u8))
    ensures
        r == gray_range_spec(image.bytes()),
        forall|i: int| 0 <= i < image.bytes().len() ==> r.0 <= #[trigger] image.bytes()[i] <= r.1,
{
    let mut mn: u8 = 255;
    let mut mx: u8 = 0;
    let mut i: usize = 0;
    while i < image.data.len()
        invariant
            i <= image.data.len(),
            (mn, mx) == gray_range_spec(image.data@.take(i as int)),
            forall|k: int| 0 <= k < i ==> mn <= #[trigger] image.data@[k] <= mx,
        decreases image.data.len() - i,
    {
        let v = image.data[i];
        proof {
            assert(image.data@.take(i + 1).drop_last() == image.data@.take(i as int));
        }
        if v < mn {
            mn = v;
        }
        if v > mx {
            mx = v;
        }
        i = i + 1;
    }
    proof {
        assert(image.data@.take(image.data.len() as int) == image.data@);
    }
    (mn, mx)
}

} // verus!
