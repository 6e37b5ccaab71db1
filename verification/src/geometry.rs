use vstd::prelude::*;

verus! {

/// Signed integer division that truncates toward zero, as Rust's `/` on `i32` does.
pub open spec fn trunc_half(v: int) -> int {
    if v >= 0 {
        v / 2
    } else {
        -((-v) / 2)
    }
}

/// The minimum of two integers.
pub open spec fn min_int(a: int, b: int) -> int {
    if a <= b {
        a
    } else {
        b
    }
}

/// The maximum of two integers.
pub open spec fn max_int(a: int, b: int) -> int {
    if a >= b {
        a
    } else {
        b
    }
}

/// True when `v` fits in an `i32`.
pub open spec fn fits_i32(v: int) -> bool {
    i32::MIN <= v <= i32::MAX
}

/// An axis-aligned rectangle in screen pixels: top-left corner plus size.
#[derive(Debug, Clone, Copy, PartialEq, Eq, Structural)]
pub struct Rect {
    pub x: i32,
    pub y: i32,
    pub width: u32,
    pub height: u32,
}

impl Rect {
    /// The right edge, `x + width as i32` (the width is reinterpreted as a signed value).
    pub open spec fn right_spec(self) -> int {
        self.x + (self.width as i32)
    }

    /// The bottom edge, `y + height as i32`.
    pub open spec fn bottom_spec(self) -> int {
        self.y + (self.height as i32)
    }

    /// Both far edges are representable as `i32`.
    pub open spec fn edges_fit(self) -> bool {
        fits_i32(self.right_spec()) && fits_i32(self.bottom_spec())
    }

    /// The size fits in `i32`, so the signed reinterpretation of the size is the size itself.
    pub open spec fn size_fits(self) -> bool {
        self.width <= i32::MAX && self.height <= i32::MAX
    }

    /// A rectangle of positive area whose coordinates all stay inside `i32`.
    pub open spec fn is_proper(self) -> bool {
        &&& self.size_fits()
        &&& self.edges_fit()
        &&& self.width > 0
        &&& self.height > 0
    }

    /// The point lies inside the half-open area `[x, right) x [y, bottom)`.
    pub open spec fn contains_spec(self, px: int, py: int) -> bool {
        px >= self.x && px < self.right_spec() && py >= self.y && py < self.bottom_spec()
    }

    /// The two areas overlap (touching edges do not count).
    pub open spec fn intersects_spec(self, other: Rect) -> bool {
        &&& self.x < other.right_spec()
        &&& self.right_spec() > other.x
        &&& self.y < other.bottom_spec()
        &&& self.bottom_spec() > other.y
    }

    /// The overlap of two rectangles, or `None` when it has no area.
    pub open spec fn intersection_spec(self, other: Rect) -> Option<Rect> {
        let x = max_int(self.x as int, other.x as int);
        let y = max_int(self.y as int, other.y as int);
        let right = min_int(self.right_spec(), other.right_spec());
        let bottom = min_int(self.bottom_spec(), other.bottom_spec());
        if right > x && bottom > y {
            Some(Rect { x: x as i32, y: y as i32, width: (right - x) as u32, height: (bottom - y) as u32 })
        } else {
            None
        }
    }

    pub fn new(x: i32, y: i32, width: u32, height: u32) -> (r: Self)
        ensures
            r == (Rect { x, y, width, height }),
    {
        Self { x, y, width, height }
    }

    pub fn is_empty(&self) -> (r: bool)
        ensures
            r == (self.width == 0 || self.height == 0),
    {
        self.width == 0 || self.height == 0
    }

    pub fn right(&self) -> (r: i32)
        requires
            fits_i32(self.right_spec()),
        ensures
            r == self.right_spec(),
    {
        self.x + #[verifier::truncate] (self.width as i32)
    }

    pub fn bottom(&self) -> (r: i32)
        requires
            fits_i32(self.bottom_spec()),
        ensures
            r == self.bottom_spec(),
    {
        self.y + #[verifier::truncate] (self.height as i32)
    }

    pub fn center(&self) -> (r: (i32, i32))
        requires
            fits_i32(self.x + trunc_half((self.width as i32) as int)),
            fits_i32(self.y + trunc_half((self.height as i32) as int)),
        ensures
            r.0 == self.x + trunc_half((self.width as i32) as int),
            r.1 == self.y + trunc_half((self.height as i32) as int),
    {
        (
            self.x + #[verifier::truncate] (self.width as i32) / 2,
            self.y + #[verifier::truncate] (self.height as i32) / 2,
        )
    }

    pub fn contains_point(&self, px: i32, py: i32) -> (r: bool)
        requires
            self.edges_fit(),
        ensures
            r == self.contains_spec(px as int, py as int),
    {
        px >= self.x && px < self.right() && py >= self.y && py < self.bottom()
    }

    pub fn intersects(&self, other: &Rect) -> (r: bool)
        requires
            self.edges_fit(),
            other.edges_fit(),
        ensures
            r == self.intersects_spec(*other),
    {
        self.x < other.right() && self.right() > other.x && self.y < other.bottom()
            && self.bottom() > other.y
    }

    pub fn intersection(&self, other: &Rect) -> (r: Option<Rect>)
        requires
            self.edges_fit(),
            other.edges_fit(),
        ensures
            r == self.intersection_spec(*other),
    {
        let x = if self.x >= other.x {
            self.x
        } else {
            other.x
        };
        let y = if self.y >= other.y {
            self.y
        } else {
            other.y
        };
        let sr = self.right();
        let or = other.right();
        let right = if sr <= or {
            sr
        } else {
            or
        };
        let sb = self.bottom();
        let ob = other.bottom();
        let bottom = if sb <= ob {
            sb
        } else {
            ob
        };
        if right > x && bottom > y {
            let w = (right as i64 - x as i64) as u32;
            let h = (bottom as i64 - y as i64) as u32;
            Some(Rect { x, y, width: w, height: h })
        } else {
            None
        }
    }
}

/// For rectangles whose size fits in `i32`, the signed edges are the plain sums.
pub proof fn lemma_edges_of_fitting_size(r: Rect)
    requires
        r.size_fits(),
    ensures
        r.right_spec() == r.x + r.width,
        r.bottom_spec() == r.y + r.height,
{
}

/// Overlap is symmetric: `a` overlaps `b` exactly when `b` overlaps `a`.
pub proof fn lemma_intersects_symmetric(a: Rect, b: Rect)
    ensures
        a.intersects_spec(b) == b.intersects_spec(a),
{
}

/// For two proper rectangles, the overlap has area exactly when they intersect, and
/// a point lies in the overlap exactly when it lies in both rectangles.
pub proof fn lemma_intersection_agrees(a: Rect, b: Rect, px: int, py: int)
    requires
        a.is_proper(),
        b.is_proper(),
    ensures
        a.intersection_spec(b).is_some() == a.intersects_spec(b),
        a.intersection_spec(b) matches Some(i) ==> (i.is_proper() && (i.contains_spec(px, py) <==> (
        a.contains_spec(px, py) && b.contains_spec(px, py)))),
{
    if let Some(i) = a.intersection_spec(b) {
        let x = max_int(a.x as int, b.x as int);
        let y = max_int(a.y as int, b.y as int);
        let right = min_int(a.right_spec(), b.right_spec());
        let bottom = min_int(a.bottom_spec(), b.bottom_spec());
        assert(i.x == x && i.y == y);
        assert(i.width == right - x);
        assert(i.height == bottom - y);
    }
}

/// Intersection is commutative.
pub proof fn lemma_intersection_commutative(a: Rect, b: Rect)
    ensures
        a.intersection_spec(b) == b.intersection_spec(a),
{
}

/// Options for a capture request.
#[derive(Debug, Clone, Copy)]
pub struct CaptureOptions {
    pub region: Option<Rect>,
    pub monitor_index: Option<usize>,
    pub include_cursor: bool,
    pub exclude_self: bool,
}

impl Default for CaptureOptions {
    fn default() -> (r: Self)
        ensures
            r.region.is_none(),
            r.monitor_index.is_none(),
            !r.include_cursor,
            r.exclude_self,
    {
        Self { region: None, monitor_index: None, include_cursor: false, exclude_self: true }
    }
}

/// A top-level window as reported by the windowing system.
#[derive(Debug, Clone)]
pub struct WindowInfo {
    pub id: u64,
    pub title: String,
    pub class_name: String,
    pub bounds: Rect,
    pub is_visible: bool,
    pub is_minimized: bool,
}

} // verus!
