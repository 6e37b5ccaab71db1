use vstd::prelude::*;

use crate::pixels::{in_image, mean, mean_of, min_of, rect_sum, region_sums, RgbaImage};
use crate::text::{dec_spec, hex2_spec, push_decimal, push_hex2, push_str, string_from};

verus! {

/// An RGBA colour with 8-bit channels.
#[derive(Debug, Clone, Copy, PartialEq, Eq, Structural)]
pub struct PixelColor {
    pub r: u8,
    pub g: u8,
    pub b: u8,
    pub a: u8,
}

/// The alpha channel as a fraction of 255, in hundredths, rounded to the nearest (no value
/// lies half-way).
pub open spec fn alpha_hundredths(a: u8) -> nat {
    ((200 * (a as nat) + 255) / 510) as nat
}

/// `n` hundredths written with two decimals, as `{:.2}` writes `n / 100`.
pub open spec fn two_decimals(n: nat) -> Seq<char> {
    dec_spec(n / 100) + seq!['.'] + dec_spec(((n % 100) / 10) as nat) + dec_spec((n % 10) as nat)
}

impl PixelColor {
    pub open spec fn hex_spec(self) -> Seq<char> {
        seq!['#'] + hex2_spec(self.r) + hex2_spec(self.g) + hex2_spec(self.b)
    }

    pub open spec fn hex_with_alpha_spec(self) -> Seq<char> {
        self.hex_spec() + hex2_spec(self.a)
    }

    pub open spec fn rgb_spec(self) -> Seq<char> {
        "rgb("@ + dec_spec(self.r as nat) + ", "@ + dec_spec(self.g as nat) + ", "@ + dec_spec(
            self.b as nat,
        ) + ")"@
    }

    pub open spec fn rgba_spec(self) -> Seq<char> {
        "rgba("@ + dec_spec(self.r as nat) + ", "@ + dec_spec(self.g as nat) + ", "@ + dec_spec(
            self.b as nat,
        ) + ", "@ + two_decimals(alpha_hundredths(self.a)) + ")"@
    }

    pub fn new(r: u8, g: u8, b: u8, a: u8) -> (c: Self)
        ensures
            c == (PixelColor { r, g, b, a }),
    {
        Self { r, g, b, a }
    }

    /// `#RRGGBB` in upper-case hexadecimal.
    pub fn hex(&self) -> (s: String)
        ensures
            s@ == self.hex_spec(),
    {
        let mut out: Vec<char> = Vec::new();
        out.push('#');
        push_hex2(&mut out, self.r);
        push_hex2(&mut out, self.g);
        push_hex2(&mut out, self.b);
        assert(out@ =~= self.hex_spec());
        string_from(&out)
    }

    /// `#RRGGBBAA` in upper-case hexadecimal.
    pub fn hex_with_alpha(&self) -> (s: String)
        ensures
            s@ == self.hex_with_alpha_spec(),
    {
        let mut out: Vec<char> = Vec::new();
        out.push('#');
        push_hex2(&mut out, self.r);
        push_hex2(&mut out, self.g);
        push_hex2(&mut out, self.b);
        push_hex2(&mut out, self.a);
        assert(out@ =~= self.hex_with_alpha_spec());
        string_from(&out)
    }

    /// `rgb(r, g, b)` in decimal.
    pub fn rgb_string(&self) -> (s: String)
        ensures
            s@ == self.rgb_spec(),
    {
        let mut out: Vec<char> = Vec::new();
        push_str(&mut out, "rgb(");
        push_decimal(&mut out, self.r as u64);
        push_str(&mut out, ", ");
        push_decimal(&mut out, self.g as u64);
        push_str(&mut out, ", ");
        push_decimal(&mut out, self.b as u64);
        push_str(&mut out, ")");
        string_from(&out)
    }

    /// `rgba(r, g, b, alpha)` with the alpha as a fraction of 255 to two decimals.
    pub fn rgba_string(&self) -> (s: String)
        ensures
            s@ == self.rgba_spec(),
    {
        let n: u64 = (200 * (self.a as u64) + 255) / 510;
        let mut out: Vec<char> = Vec::new();
        push_str(&mut out, "rgba(");
        push_decimal(&mut out, self.r as u64);
        push_str(&mut out, ", ");
        push_decimal(&mut out, self.g as u64);
        push_str(&mut out, ", ");
        push_decimal(&mut out, self.b as u64);
        push_str(&mut out, ", ");
        push_decimal(&mut out, n / 100);
        out.push('.');
        push_decimal(&mut out, (n % 100) / 10);
        push_decimal(&mut out, n % 10);
        push_str(&mut out, ")");
        assert(out@ =~= self.rgba_spec());
        string_from(&out)
    }
}

/// The largest number of colours the picker remembers.
pub const MAX_HISTORY: usize = 20;

/// Holds of every colour other than `c`.
pub open spec fn differs_from(c: PixelColor) -> spec_fn(PixelColor) -> bool {
    |x: PixelColor| x != c
}

/// The history after picking `c`: `c` first, then the earlier colours other than `c` in
/// their order, cut to `max` entries.
pub open spec fn add_history_spec(h: Seq<PixelColor>, c: PixelColor, max: nat) -> Seq<PixelColor> {
    let full = seq![c] + h.filter(differs_from(c));
    if full.len() > max {
        full.take(max as int)
    } else {
        full
    }
}

/// No colour occurs twice.
pub open spec fn no_duplicates(h: Seq<PixelColor>) -> bool {
    forall|i: int, j: int| 0 <= i < h.len() && 0 <= j < h.len() && i != j ==> h[i] != h[j]
}

/// The mean colour, alpha included, of the pixels within `radius` of `(x, y)` (a square,
/// clipped to the image), or `None` when that square misses the image.
pub open spec fn neighbourhood_mean(img: RgbaImage, x: int, y: int, radius: int) -> Option<PixelColor> {
    let w = img.width_spec() as int;
    let h = img.height_spec() as int;
    let x0 = if x >= radius { x - radius } else { 0 };
    let y0 = if y >= radius { y - radius } else { 0 };
    let x1 = min_of(x + radius, w - 1);
    let y1 = min_of(y + radius, h - 1);
    if x0 > x1 || y0 > y1 {
        None
    } else {
        let d = img.bytes();
        let n = (x1 + 1 - x0) * (y1 + 1 - y0);
        Some(
            PixelColor {
                r: mean(rect_sum(d, w, x0, x1 + 1, y0, y1 + 1, 0), n),
                g: mean(rect_sum(d, w, x0, x1 + 1, y0, y1 + 1, 1), n),
                b: mean(rect_sum(d, w, x0, x1 + 1, y0, y1 + 1, 2), n),
                a: mean(rect_sum(d, w, x0, x1 + 1, y0, y1 + 1, 3), n),
            },
        )
    }
}

/// Remembers recently picked colours, newest first, without repeats.
pub struct ColorPicker {
    history: Vec<PixelColor>,
    max_history: usize,
}

impl ColorPicker {
    pub closed spec fn history_spec(&self) -> Seq<PixelColor> {
        self.history@
    }

    pub closed spec fn max_spec(&self) -> nat {
        self.max_history as nat
    }

    /// The limit is always `MAX_HISTORY`, and the history stays within it, without repeats.
    #[verifier::type_invariant]
    spec fn within_limit(&self) -> bool {
        &&& self.max_history == MAX_HISTORY
        &&& self.history@.len() <= MAX_HISTORY
        &&& no_duplicates(self.history@)
    }

    pub fn new() -> (r: Self)
        ensures
            r.history_spec() == Seq::<PixelColor>::empty(),
            r.max_spec() == MAX_HISTORY,
    {
        let r = Self { history: Vec::new(), max_history: MAX_HISTORY };
        r
    }

    /// Puts `color` first in the history, dropping an earlier copy and the oldest entries
    /// beyond the limit.
    pub fn add_to_history(&mut self, color: PixelColor)
        ensures
            final(self).history_spec() == add_history_spec(
                old(self).history_spec(),
                color,
                old(self).max_spec(),
            ),
            final(self).max_spec() == old(self).max_spec(),
            final(self).max_spec() == MAX_HISTORY,
            final(self).history_spec().len() <= MAX_HISTORY,
            no_duplicates(final(self).history_spec()),
    {
        proof {
            use_type_invariant(&*self);
        }
        let ghost h = self.history@;
        let mut kept: Vec<PixelColor> = Vec::new();
        kept.push(color);
        let mut i: usize = 0;
        while i < self.history.len()
            invariant
                h == self.history@,
                0 <= i <= self.history.len(),
                kept@ == seq![color] + h.subrange(0, i as int).filter(differs_from(color)),
            decreases self.history.len() - i,
        {
            let c = self.history[i];
            proof {
                let pre = h.subrange(0, i as int);
                assert(h.subrange(0, i + 1) == pre.push(c));
                pre.lemma_filter_push(c, differs_from(color));
            }
            if c != color {
                kept.push(c);
            }
            i = i + 1;
        }
        assert(h.subrange(0, h.len() as int) == h);
        let mut out: Vec<PixelColor> = Vec::new();
        let mut j: usize = 0;
        while j < kept.len() && j < self.max_history
            invariant
                j <= kept.len(),
                j <= self.max_history,
                out@ == kept@.take(j as int),
            decreases kept.len() - j,
        {
            out.push(kept[j]);
            j = j + 1;
        }
        assert(out@ == add_history_spec(h, color, self.max_history as nat));
        proof {
            lemma_add_history(h, color, self.max_history as nat);
        }
        self.history = out;
    }

    /// The colour at `(x, y)`, which also goes into the history; `None` outside the image.
    pub fn pick_from_image(&mut self, image: &RgbaImage, x: u32, y: u32) -> (r: Option<PixelColor>)
        requires
            image.wf(),
        ensures
            r is Some <==> in_image(image.width_spec() as int, image.height_spec() as int, x as int, y as int),
            r matches Some(c) ==> c == image.pixel(x as int, y as int) && final(self).history_spec()
                == add_history_spec(old(self).history_spec(), c, old(self).max_spec()),
            r is None ==> final(self).history_spec() == old(self).history_spec(),
            final(self).max_spec() == old(self).max_spec(),
            final(self).max_spec() == MAX_HISTORY,
            final(self).history_spec().len() <= MAX_HISTORY,
            no_duplicates(final(self).history_spec()),
    {
        proof {
            use_type_invariant(&*self);
        }
        if x >= image.width() || y >= image.height() {
            return None;
        }
        let color = image.get_pixel(x, y);
        self.add_to_history(color);
        Some(color)
    }

    /// The mean colour of the square of pixels within `radius` of `(x, y)`, clipped to the
    /// image; `None` when the square misses the image.
    pub fn average_color(&self, image: &RgbaImage, x: u32, y: u32, radius: u32) -> (r: Option<PixelColor>)
        requires
            image.wf(),
            image.width_spec() > 0,
            image.height_spec() > 0,
            x + radius <= u32::MAX,
            y + radius <= u32::MAX,
        ensures
            r == neighbourhood_mean(*image, x as int, y as int, radius as int),
    {
        let x_start: u32 = if x >= radius { x - radius } else { 0 };
        let y_start: u32 = if y >= radius { y - radius } else { 0 };
        let x_end: u32 = if x + radius < image.width() - 1 { x + radius } else { image.width() - 1 };
        let y_end: u32 = if y + radius < image.height() - 1 { y + radius } else { image.height() - 1 };
        if x_start > x_end || y_start > y_end {
            return None;
        }
        let s = region_sums(image, x_start, x_end + 1, y_start, y_end + 1);
        assert(s.count > 0) by (nonlinear_arith)
            requires
                s.count == (x_end + 1 - x_start) * (y_end + 1 - y_start),
                x_start <= x_end,
                y_start <= y_end,
        ;
        Some(PixelColor {
            r: mean_of(s.r, s.count),
            g: mean_of(s.g, s.count),
            b: mean_of(s.b, s.count),
            a: mean_of(s.a, s.count),
        })
    }

    /// The remembered colours, newest first.
    pub fn history(&self) -> (r: &[PixelColor])
        ensures
            r@ == self.history_spec(),
            r@.len() <= MAX_HISTORY,
            no_duplicates(r@),
    {
        proof {
            use_type_invariant(self);
        }
        self.history.as_slice()
    }

    pub fn clear_history(&mut self)
        ensures
            final(self).history_spec() == Seq::<PixelColor>::empty(),
            final(self).max_spec() == old(self).max_spec(),
            final(self).max_spec() == MAX_HISTORY,
    {
        proof {
            use_type_invariant(&*self);
        }
        self.history = Vec::new();
    }
}

/// After picking a colour it comes first; a repeat-free history stays repeat-free and never
/// grows beyond the limit.
pub proof fn lemma_add_history(h: Seq<PixelColor>, c: PixelColor, max: nat)
    requires
        max >= 1,
        no_duplicates(h),
    ensures
        add_history_spec(h, c, max)[0] == c,
        add_history_spec(h, c, max).len() <= max,
        no_duplicates(add_history_spec(h, c, max)),
        add_history_spec(h, c, max).len() <= h.len() + 1,
{
    let pred = differs_from(c);
    let f = h.filter(pred);
    let full = seq![c] + f;
    h.lemma_filter_len(pred);
    lemma_filter_no_duplicates(h, pred);
    assert forall|i: int| 0 <= i < f.len() implies f[i] != c by {
        h.lemma_filter_pred(pred, i);
    }
    assert forall|i: int, j: int| 0 <= i < full.len() && 0 <= j < full.len() && i != j implies full[i]
        != full[j] by {
        if i == 0 {
            assert(full[j] == f[j - 1]);
        } else if j == 0 {
            assert(full[i] == f[i - 1]);
        } else {
            assert(full[i] == f[i - 1] && full[j] == f[j - 1]);
        }
    }
}

proof fn lemma_filter_no_duplicates(h: Seq<PixelColor>, pred: spec_fn(PixelColor) -> bool)
    requires
        no_duplicates(h),
    ensures
        no_duplicates(h.filter(pred)),
    decreases h.len(),
{
    reveal(Seq::filter);
    if h.len() > 0 {
        let init = h.drop_last();
        assert forall|i: int, j: int| 0 <= i < init.len() && 0 <= j < init.len() && i != j implies init[i]
            != init[j] by {
            assert(init[i] == h[i] && init[j] == h[j]);
        }
        lemma_filter_no_duplicates(init, pred);
        let fi = init.filter(pred);
        if pred(h.last()) {
            broadcast use vstd::seq_lib::group_filter_ensures;
            let f = fi.push(h.last());
            assert forall|i: int, j: int| 0 <= i < f.len() && 0 <= j < f.len() && i != j implies f[i]
                != f[j] by {
                if i == f.len() - 1 || j == f.len() - 1 {
                    let k = if i == f.len() - 1 {
                        j
                    } else {
                        i
                    };
                    assert(fi.contains(fi[k]));
                    init.lemma_filter_contains_rev(pred, fi[k]);
                    let m = choose|m: int| 0 <= m < init.len() && init[m] == fi[k];
                    assert(h[m] == init[m]);
                    assert(h[h.len() - 1] == h.last());
                }
            }
        }
    }
}

} // verus!

verus! {

/// A pick puts the colour first, then the earlier colours other than it, newest first,
/// keeping `max` colours at most (the picker's limit is `MAX_HISTORY`).
pub proof fn lemma_pick_order(h: Seq<PixelColor>, c: PixelColor, max: nat)
    requires
        max >= 1,
    ensures
        add_history_spec(h, c, max).len() == (if h.filter(differs_from(c)).len() + 1 <= max {
            h.filter(differs_from(c)).len() + 1
        } else {
            max
        }),
        add_history_spec(h, c, max)[0] == c,
        add_history_spec(h, c, max).skip(1) == h.filter(differs_from(c)).take(
            add_history_spec(h, c, max).len() - 1,
        ),
{
    let o = h.filter(differs_from(c));
    let a = add_history_spec(h, c, max);
    assert(a.skip(1) =~= o.take(a.len() - 1));
}

} // verus!
