use vstd::prelude::*;

use crate::geometry::{fits_i32, max_int, min_int, trunc_half, Rect};

verus! {

/// The part of a selection that a pointer grabbed.
#[derive(Debug, Clone, Copy, PartialEq, Eq, Structural)]
pub enum DragHandle {
    TopLeft,
    TopRight,
    BottomLeft,
    BottomRight,
    Top,
    Bottom,
    Left,
    Right,
    Move,
}

/// How far (in pixels, per axis) a pointer may be from a handle and still grab it.
pub const HANDLE_SIZE: i32 = 8;

/// `|a - b|` as an integer.
pub open spec fn abs_diff(a: int, b: int) -> int {
    if a >= b {
        a - b
    } else {
        b - a
    }
}

/// The pointer is within `HANDLE_SIZE` of a coordinate.
pub open spec fn near(a: int, b: int) -> bool {
    abs_diff(a, b) <= HANDLE_SIZE
}

/// The rectangle spanned by two corner points, as `Rect::new(min, min, |dx|, |dy|)` builds it.
pub open spec fn span_rect(x1: int, y1: int, x2: int, y2: int) -> Rect {
    Rect {
        x: min_int(x1, x2) as i32,
        y: min_int(y1, y2) as i32,
        width: abs_diff(x1, x2) as u32,
        height: abs_diff(y1, y2) as u32,
    }
}

/// `a - b` can be computed in `i32` and its absolute value too (so it is not `i32::MIN`).
pub open spec fn diff_fits(a: int, b: int) -> bool {
    i32::MIN < a - b <= i32::MAX
}

/// `|a - b|` for two `i32` values whose difference fits in `i32`.
pub fn abs_diff_u32(a: i32, b: i32) -> (r: u32)
    requires
        fits_i32(a - b),
    ensures
        r == abs_diff(a as int, b as int),
{
    let d = a as i64 - b as i64;
    if d >= 0 {
        d as u32
    } else {
        (-d) as u32
    }
}

fn min_i32(a: i32, b: i32) -> (r: i32)
    ensures
        r == min_int(a as int, b as int),
{
    if a <= b {
        a
    } else {
        b
    }
}

fn max_i32(a: i32, b: i32) -> (r: i32)
    ensures
        r == max_int(a as int, b as int),
{
    if a >= b {
        a
    } else {
        b
    }
}

fn is_near(a: i32, b: i32) -> (r: bool)
    requires
        diff_fits(a as int, b as int),
    ensures
        r == near(a as int, b as int),
{
    let d = a - b;
    let ad = if d >= 0 {
        d
    } else {
        -d
    };
    ad <= HANDLE_SIZE
}

/// A rubber-band selection: the rectangle, the point a drag started from, and the handle
/// being dragged.
#[derive(Debug, Clone, Copy)]
pub struct SelectionModel {
    pub rect: Rect,
    pub anchor: (i32, i32),
    pub is_dragging: bool,
    pub drag_handle: Option<DragHandle>,
}

impl SelectionModel {
    pub open spec fn valid_spec(self) -> bool {
        self.rect.width > 2 && self.rect.height > 2
    }

    /// The horizontal middle of the selection, where the top and bottom handles sit.
    pub open spec fn mid_x(self) -> int {
        self.rect.x + trunc_half((self.rect.width as i32) as int)
    }

    /// The vertical middle of the selection, where the left and right handles sit.
    pub open spec fn mid_y(self) -> int {
        self.rect.y + trunc_half((self.rect.height as i32) as int)
    }

    /// Every coordinate and difference that a hit test computes fits in `i32`.
    pub open spec fn hit_arith_fits(self, x: int, y: int) -> bool {
        let r = self.rect;
        &&& r.edges_fit()
        &&& fits_i32(self.mid_x())
        &&& fits_i32(self.mid_y())
        &&& diff_fits(x, r.x as int)
        &&& diff_fits(x, r.right_spec())
        &&& diff_fits(x, self.mid_x())
        &&& diff_fits(y, r.y as int)
        &&& diff_fits(y, r.bottom_spec())
        &&& diff_fits(y, self.mid_y())
    }

    /// Which handle a pointer at `(x, y)` grabs: corners first, then edge midpoints, then the
    /// inside (move); nothing for an invalid selection or a point away from it.
    pub open spec fn hit_test_spec(self, x: int, y: int) -> Option<DragHandle> {
        let r = self.rect;
        let left = r.x as int;
        let top = r.y as int;
        let right = r.right_spec();
        let bottom = r.bottom_spec();
        if !self.valid_spec() {
            None
        } else if near(x, left) && near(y, top) {
            Some(DragHandle::TopLeft)
        } else if near(x, right) && near(y, top) {
            Some(DragHandle::TopRight)
        } else if near(x, left) && near(y, bottom) {
            Some(DragHandle::BottomLeft)
        } else if near(x, right) && near(y, bottom) {
            Some(DragHandle::BottomRight)
        } else if near(x, self.mid_x()) && near(y, top) {
            Some(DragHandle::Top)
        } else if near(x, self.mid_x()) && near(y, bottom) {
            Some(DragHandle::Bottom)
        } else if near(x, left) && near(y, self.mid_y()) {
            Some(DragHandle::Left)
        } else if near(x, right) && near(y, self.mid_y()) {
            Some(DragHandle::Right)
        } else if r.contains_spec(x, y) {
            Some(DragHandle::Move)
        } else {
            None
        }
    }

    /// The edges `(left, top, right, bottom)` after dragging `handle` to `(x, y)`.
    pub open spec fn resized_edges(self, handle: DragHandle, x: int, y: int) -> (int, int, int, int) {
        let l = self.rect.x as int;
        let t = self.rect.y as int;
        let r = self.rect.right_spec();
        let b = self.rect.bottom_spec();
        match handle {
            DragHandle::TopLeft => (x, y, r, b),
            DragHandle::TopRight => (l, y, x, b),
            DragHandle::BottomLeft => (x, t, r, y),
            DragHandle::BottomRight => (l, t, x, y),
            DragHandle::Top => (l, y, r, b),
            DragHandle::Bottom => (l, t, r, y),
            DragHandle::Left => (x, t, r, b),
            DragHandle::Right => (l, t, x, b),
            DragHandle::Move => (l, t, r, b),
        }
    }

    /// The arithmetic that `update_resize` performs stays inside `i32`.
    pub open spec fn resize_arith_fits(self, x: int, y: int) -> bool {
        match self.drag_handle {
            None => true,
            Some(DragHandle::Move) => {
                let dx = x - self.anchor.0;
                let dy = y - self.anchor.1;
                self.rect.edges_fit() && fits_i32(dx) && fits_i32(dy) && fits_i32(self.rect.x + dx)
                    && fits_i32(self.rect.y + dy)
            },
            Some(h) => {
                let (l, t, r, b) = self.resized_edges(h, x, y);
                self.rect.edges_fit() && fits_i32(r - l) && fits_i32(b - t)
            },
        }
    }

    /// The width `clamp_to_bounds` tries first: the selection's width, capped by the room left
    /// to the right of the clamped left edge (reinterpreted as `u32`).
    pub open spec fn clamp_width0(self, bounds: Rect) -> u32 {
        let x = max_int(self.rect.x as int, bounds.x as int);
        min_int(self.rect.width as int, ((bounds.right_spec() - x) as u32) as int) as u32
    }

    /// The height `clamp_to_bounds` tries first.
    pub open spec fn clamp_height0(self, bounds: Rect) -> u32 {
        let y = max_int(self.rect.y as int, bounds.y as int);
        min_int(self.rect.height as int, ((bounds.bottom_spec() - y) as u32) as int) as u32
    }

    /// The clamping arithmetic of `clamp_to_bounds` stays inside `i32`.
    pub open spec fn clamp_arith_fits(self, bounds: Rect) -> bool {
        let x = max_int(self.rect.x as int, bounds.x as int);
        let y = max_int(self.rect.y as int, bounds.y as int);
        &&& bounds.edges_fit()
        &&& fits_i32(bounds.right_spec() - x)
        &&& fits_i32(bounds.bottom_spec() - y)
        &&& fits_i32(x + (self.clamp_width0(bounds) as i32))
        &&& fits_i32(y + (self.clamp_height0(bounds) as i32))
    }

    /// The clamped rectangle, following `clamp_to_bounds` step by step (including its
    /// `as u32` reinterpretation of a negative room).
    pub open spec fn clamp_spec(self, bounds: Rect) -> Rect {
        let x = max_int(self.rect.x as int, bounds.x as int);
        let y = max_int(self.rect.y as int, bounds.y as int);
        let room_w = (bounds.right_spec() - x) as u32;
        let room_h = (bounds.bottom_spec() - y) as u32;
        let w0 = self.clamp_width0(bounds);
        let h0 = self.clamp_height0(bounds);
        let w = if x + (w0 as i32) > bounds.right_spec() {
            room_w
        } else {
            w0
        };
        let h = if y + (h0 as i32) > bounds.bottom_spec() {
            room_h
        } else {
            h0
        };
        Rect { x: x as i32, y: y as i32, width: w, height: h }
    }

    pub fn new(x: i32, y: i32) -> (r: Self)
        ensures
            r.rect == (Rect { x, y, width: 0, height: 0 }),
            r.anchor == (x, y),
            !r.is_dragging,
            r.drag_handle.is_none(),
    {
        Self { rect: Rect::new(x, y, 0, 0), anchor: (x, y), is_dragging: false, drag_handle: None }
    }

    pub fn start_drag(&mut self, x: i32, y: i32)
        ensures
            final(self).anchor == (x, y),
            final(self).rect == (Rect { x, y, width: 0, height: 0 }),
            final(self).is_dragging,
            final(self).drag_handle.is_none(),
    {
        self.anchor = (x, y);
        self.rect = Rect::new(x, y, 0, 0);
        self.is_dragging = true;
        self.drag_handle = None;
    }

    pub fn update_drag(&mut self, x: i32, y: i32)
        requires
            old(self).is_dragging ==> fits_i32(x - old(self).anchor.0) && fits_i32(
                y - old(self).anchor.1,
            ),
        ensures
            final(self).anchor == old(self).anchor,
            final(self).is_dragging == old(self).is_dragging,
            final(self).drag_handle == old(self).drag_handle,
            old(self).is_dragging ==> final(self).rect == span_rect(
                old(self).anchor.0 as int,
                old(self).anchor.1 as int,
                x as int,
                y as int,
            ),
            !old(self).is_dragging ==> final(self).rect == old(self).rect,
    {
        if !self.is_dragging {
            return ;
        }
        let (ax, ay) = self.anchor;
        self.rect = Rect::new(min_i32(ax, x), min_i32(ay, y), abs_diff_u32(x, ax), abs_diff_u32(y, ay));
    }

    pub fn end_drag(&mut self)
        ensures
            final(self).rect == old(self).rect,
            final(self).anchor == old(self).anchor,
            !final(self).is_dragging,
            final(self).drag_handle.is_none(),
    {
        self.is_dragging = false;
        self.drag_handle = None;
    }

    pub fn is_valid(&self) -> (r: bool)
        ensures
            r == self.valid_spec(),
    {
        self.rect.width > 2 && self.rect.height > 2
    }

    pub fn hit_test_handle(&self, x: i32, y: i32) -> (r: Option<DragHandle>)
        requires
            self.valid_spec() ==> self.hit_arith_fits(x as int, y as int),
        ensures
            r == self.hit_test_spec(x as int, y as int),
    {
        if !self.is_valid() {
            return None;
        }
        let r = &self.rect;
        let left = r.x;
        let top = r.y;
        let right = r.right();
        let bottom = r.bottom();
        if is_near(x, left) && is_near(y, top) {
            return Some(DragHandle::TopLeft);
        }
        if is_near(x, right) && is_near(y, top) {
            return Some(DragHandle::TopRight);
        }
        if is_near(x, left) && is_near(y, bottom) {
            return Some(DragHandle::BottomLeft);
        }
        if is_near(x, right) && is_near(y, bottom) {
            return Some(DragHandle::BottomRight);
        }
        let mid_x = r.x + #[verifier::truncate] (r.width as i32) / 2;
        let mid_y = r.y + #[verifier::truncate] (r.height as i32) / 2;
        if is_near(x, mid_x) && is_near(y, top) {
            return Some(DragHandle::Top);
        }
        if is_near(x, mid_x) && is_near(y, bottom) {
            return Some(DragHandle::Bottom);
        }
        if is_near(x, left) && is_near(y, mid_y) {
            return Some(DragHandle::Left);
        }
        if is_near(x, right) && is_near(y, mid_y) {
            return Some(DragHandle::Right);
        }
        if r.contains_point(x, y) {
            return Some(DragHandle::Move);
        }
        None
    }

    pub fn start_resize(&mut self, handle: DragHandle, x: i32, y: i32)
        ensures
            final(self).rect == old(self).rect,
            final(self).is_dragging,
            final(self).drag_handle == Some(handle),
            final(self).anchor == (x, y),
    {
        self.is_dragging = true;
        self.drag_handle = Some(handle);
        self.anchor = (x, y);
    }

    pub fn update_resize(&mut self, x: i32, y: i32)
        requires
            old(self).resize_arith_fits(x as int, y as int),
        ensures
            final(self).is_dragging == old(self).is_dragging,
            final(self).drag_handle == old(self).drag_handle,
            match old(self).drag_handle {
                None => *final(self) == *old(self),
                Some(DragHandle::Move) => {
                    &&& final(self).rect.x == old(self).rect.x + (x - old(self).anchor.0)
                    &&& final(self).rect.y == old(self).rect.y + (y - old(self).anchor.1)
                    &&& final(self).rect.width == old(self).rect.width
                    &&& final(self).rect.height == old(self).rect.height
                    &&& final(self).anchor == (x, y)
                },
                Some(h) => {
                    let (l, t, r, b) = old(self).resized_edges(h, x as int, y as int);
                    &&& final(self).rect == span_rect(l, t, r, b)
                    &&& final(self).anchor == old(self).anchor
                },
            },
    {
        let handle = match self.drag_handle {
            Some(h) => h,
            None => return ,
        };
        let mut left = self.rect.x;
        let mut top = self.rect.y;
        let mut right = self.rect.right();
        let mut bottom = self.rect.bottom();
        match handle {
            DragHandle::TopLeft => {
                left = x;
                top = y;
            },
            DragHandle::TopRight => {
                right = x;
                top = y;
            },
            DragHandle::BottomLeft => {
                left = x;
                bottom = y;
            },
            DragHandle::BottomRight => {
                right = x;
                bottom = y;
            },
            DragHandle::Top => {
                top = y;
            },
            DragHandle::Bottom => {
                bottom = y;
            },
            DragHandle::Left => {
                left = x;
            },
            DragHandle::Right => {
                right = x;
            },
            DragHandle::Move => {
                let dx = x - self.anchor.0;
                let dy = y - self.anchor.1;
                self.rect.x = self.rect.x + dx;
                self.rect.y = self.rect.y + dy;
                self.anchor = (x, y);
                return ;
            },
        }
        self.rect = Rect::new(
            min_i32(left, right),
            min_i32(top, bottom),
            abs_diff_u32(right, left),
            abs_diff_u32(bottom, top),
        );
    }

    pub fn clamp_to_bounds(&mut self, bounds: &Rect)
        requires
            old(self).clamp_arith_fits(*bounds),
        ensures
            final(self).rect == old(self).clamp_spec(*bounds),
            final(self).anchor == old(self).anchor,
            final(self).is_dragging == old(self).is_dragging,
            final(self).drag_handle == old(self).drag_handle,
    {
        let x = max_i32(self.rect.x, bounds.x);
        let y = max_i32(self.rect.y, bounds.y);
        let room_w = #[verifier::truncate] ((bounds.right() - x) as u32);
        let room_h = #[verifier::truncate] ((bounds.bottom() - y) as u32);
        let mut w = if self.rect.width <= room_w {
            self.rect.width
        } else {
            room_w
        };
        let mut h = if self.rect.height <= room_h {
            self.rect.height
        } else {
            room_h
        };
        if x + #[verifier::truncate] (w as i32) > bounds.right() {
            w = room_w;
        }
        if y + #[verifier::truncate] (h as i32) > bounds.bottom() {
            h = room_h;
        }
        self.rect = Rect::new(x, y, w, h);
    }
}

/// Dragging is direction-independent: the rectangle spanned from `(x1, y1)` to `(x2, y2)`
/// is the one spanned the other way round, and (when the span fits in `i32`) its edges
/// are the minimum and maximum of the two points.
pub proof fn lemma_span_rect(x1: int, y1: int, x2: int, y2: int)
    requires
        fits_i32(x1),
        fits_i32(y1),
        fits_i32(x2),
        fits_i32(y2),
        diff_fits(x1, x2),
        diff_fits(y1, y2),
    ensures
        span_rect(x1, y1, x2, y2) == span_rect(x2, y2, x1, y1),
        span_rect(x1, y1, x2, y2).x == min_int(x1, x2),
        span_rect(x1, y1, x2, y2).y == min_int(y1, y2),
        span_rect(x1, y1, x2, y2).right_spec() == max_int(x1, x2),
        span_rect(x1, y1, x2, y2).bottom_spec() == max_int(y1, y2),
{
}

/// On a valid selection, a pointer exactly on the top-left corner grabs that corner, and a
/// pointer on the bottom-right corner grabs that one when the selection is wider and taller
/// than two handle sizes.
pub proof fn lemma_corner_handles(sel: SelectionModel)
    requires
        sel.valid_spec(),
        sel.rect.size_fits(),
        sel.rect.edges_fit(),
    ensures
        sel.hit_test_spec(sel.rect.x as int, sel.rect.y as int) == Some(DragHandle::TopLeft),
        sel.rect.width > 2 * HANDLE_SIZE && sel.rect.height > 2 * HANDLE_SIZE ==> sel.hit_test_spec(
            sel.rect.right_spec(),
            sel.rect.bottom_spec(),
        ) == Some(DragHandle::BottomRight),
{
}

/// Clamping a selection whose top-left corner is not past the bounds' far edges yields a
/// rectangle inside the bounds.
pub proof fn lemma_clamp_within_bounds(sel: SelectionModel, bounds: Rect)
    requires
        bounds.size_fits(),
        bounds.edges_fit(),
        sel.rect.size_fits(),
        sel.clamp_arith_fits(bounds),
        max_int(sel.rect.x as int, bounds.x as int) <= bounds.right_spec(),
        max_int(sel.rect.y as int, bounds.y as int) <= bounds.bottom_spec(),
    ensures
        ({
            let r = sel.clamp_spec(bounds);
            &&& r.size_fits()
            &&& r.x >= bounds.x
            &&& r.y >= bounds.y
            &&& r.right_spec() <= bounds.right_spec()
            &&& r.bottom_spec() <= bounds.bottom_spec()
        }),
{
}

/// Clamping a selection that already lies inside the bounds leaves it unchanged.
pub proof fn lemma_clamp_inside_is_identity(sel: SelectionModel, bounds: Rect)
    requires
        bounds.size_fits(),
        bounds.edges_fit(),
        sel.rect.size_fits(),
        sel.rect.x >= bounds.x,
        sel.rect.y >= bounds.y,
        sel.rect.right_spec() <= bounds.right_spec(),
        sel.rect.bottom_spec() <= bounds.bottom_spec(),
    ensures
        sel.clamp_arith_fits(bounds),
        sel.clamp_spec(bounds) == sel.rect,
{
}

/// The handle hit test: nothing on an invalid selection; within a handle's reach of a corner
/// that corner (the left and the top edge win a tie); corners before edge midpoints, each
/// midpoint grabbing its own edge; a point inside the
/// selection always grabs something, `Move` only inside, and on a valid selection nothing
/// only outside.
pub proof fn lemma_hit_test_law(sel: SelectionModel, x: int, y: int)
    requires
        sel.rect.size_fits(),
        sel.rect.edges_fit(),
    ensures
        !sel.valid_spec() ==> sel.hit_test_spec(x, y) is None,
        sel.valid_spec() && near(x, sel.rect.x as int) && near(y, sel.rect.y as int) ==> sel.hit_test_spec(x, y)
            == Some(DragHandle::TopLeft),
        sel.valid_spec() && (near(x, sel.rect.x as int) || near(x, sel.rect.right_spec())) && (near(
            y,
            sel.rect.y as int,
        ) || near(y, sel.rect.bottom_spec())) ==> (sel.hit_test_spec(x, y) == Some(DragHandle::TopLeft)
            || sel.hit_test_spec(x, y) == Some(DragHandle::TopRight) || sel.hit_test_spec(x, y) == Some(
            DragHandle::BottomLeft,
        ) || sel.hit_test_spec(x, y) == Some(DragHandle::BottomRight)),
        sel.valid_spec() && sel.rect.contains_spec(x, y) ==> sel.hit_test_spec(x, y) is Some,
        sel.hit_test_spec(x, y) == Some(DragHandle::Move) ==> sel.rect.contains_spec(x, y),
        sel.valid_spec() && sel.hit_test_spec(x, y) is None ==> !sel.rect.contains_spec(x, y),
        ({
            let l = sel.rect.x as int;
            let t = sel.rect.y as int;
            let r = sel.rect.right_spec();
            let b = sel.rect.bottom_spec();
            let corner = (near(x, l) || near(x, r)) && (near(y, t) || near(y, b));
            &&& sel.valid_spec() && near(x, r) && near(y, t) && !near(x, l) ==> sel.hit_test_spec(x, y) == Some(
                DragHandle::TopRight,
            )
            &&& sel.valid_spec() && near(x, l) && near(y, b) && !near(y, t) ==> sel.hit_test_spec(x, y) == Some(
                DragHandle::BottomLeft,
            )
            &&& sel.valid_spec() && near(x, r) && near(y, b) && !near(x, l) && !near(y, t) ==> sel.hit_test_spec(x, y)
                == Some(DragHandle::BottomRight)
            &&& sel.valid_spec() && !corner && near(x, sel.mid_x()) && near(y, t) ==> sel.hit_test_spec(x, y) == Some(
                DragHandle::Top,
            )
            &&& sel.valid_spec() && !corner && near(x, sel.mid_x()) && near(y, b) && !near(y, t) ==> sel.hit_test_spec(
                x,
                y,
            ) == Some(DragHandle::Bottom)
            &&& sel.valid_spec() && !corner && !(near(x, sel.mid_x()) && (near(y, t) || near(y, b))) && near(x, l)
                && near(y, sel.mid_y()) ==> sel.hit_test_spec(x, y) == Some(DragHandle::Left)
            &&& sel.valid_spec() && !corner && !(near(x, sel.mid_x()) && (near(y, t) || near(y, b))) && near(x, r)
                && near(y, sel.mid_y()) && !near(x, l) ==> sel.hit_test_spec(x, y) == Some(DragHandle::Right)
        }),
{
}

/// Clamping a selection whose top-left corner is not past the bounds' far edges gives the
/// selection's own size where it fits and the room left where it does not; clamping again
/// changes nothing.
pub proof fn lemma_clamp_idempotent(sel: SelectionModel, bounds: Rect)
    requires
        bounds.size_fits(),
        bounds.edges_fit(),
        sel.rect.size_fits(),
        sel.clamp_arith_fits(bounds),
        max_int(sel.rect.x as int, bounds.x as int) <= bounds.right_spec(),
        max_int(sel.rect.y as int, bounds.y as int) <= bounds.bottom_spec(),
    ensures
        sel.clamp_spec(bounds).width == min_int(
            sel.rect.width as int,
            bounds.right_spec() - max_int(sel.rect.x as int, bounds.x as int),
        ),
        sel.clamp_spec(bounds).height == min_int(
            sel.rect.height as int,
            bounds.bottom_spec() - max_int(sel.rect.y as int, bounds.y as int),
        ),
        (SelectionModel { rect: sel.clamp_spec(bounds), ..sel }).clamp_arith_fits(bounds),
        (SelectionModel { rect: sel.clamp_spec(bounds), ..sel }).clamp_spec(bounds) == sel.clamp_spec(bounds),
{
    lemma_clamp_within_bounds(sel, bounds);
    lemma_clamp_inside_is_identity(SelectionModel { rect: sel.clamp_spec(bounds), ..sel }, bounds);
}

/// Dragging a corner handle moves that corner to the pointer and keeps the opposite corner:
/// while the pointer does not cross the opposite edges, the new rectangle spans from the
/// kept corner to `(x, y)` (for `TopRight`, from the old left edge to `x` and from `y` to the
/// old bottom edge).
pub proof fn lemma_corner_drag_keeps_opposite_corner(sel: SelectionModel, x: int, y: int)
    requires
        sel.rect.edges_fit(),
        fits_i32(x),
        fits_i32(y),
        fits_i32(x - sel.rect.x),
        fits_i32(sel.rect.right_spec() - x),
        fits_i32(y - sel.rect.y),
        fits_i32(sel.rect.bottom_spec() - y),
    ensures
        ({
            let l = sel.rect.x as int;
            let t = sel.rect.y as int;
            let r = sel.rect.right_spec();
            let b = sel.rect.bottom_spec();
            let tl = sel.resized_edges(DragHandle::TopLeft, x, y);
            let tr = sel.resized_edges(DragHandle::TopRight, x, y);
            let bl = sel.resized_edges(DragHandle::BottomLeft, x, y);
            let br = sel.resized_edges(DragHandle::BottomRight, x, y);
            let n_tl = span_rect(tl.0, tl.1, tl.2, tl.3);
            let n_tr = span_rect(tr.0, tr.1, tr.2, tr.3);
            let n_bl = span_rect(bl.0, bl.1, bl.2, bl.3);
            let n_br = span_rect(br.0, br.1, br.2, br.3);
            &&& x <= r && y <= b ==> n_tl.x == x && n_tl.y == y && n_tl.right_spec() == r && n_tl.bottom_spec() == b
            &&& x >= l && y <= b ==> n_tr.x == l && n_tr.y == y && n_tr.right_spec() == x && n_tr.bottom_spec() == b
            &&& x <= r && y >= t ==> n_bl.x == x && n_bl.y == t && n_bl.right_spec() == r && n_bl.bottom_spec() == y
            &&& x >= l && y >= t ==> n_br.x == l && n_br.y == t && n_br.right_spec() == x && n_br.bottom_spec() == y
        }),
{
}

/// Dragging an edge handle moves only that edge to the pointer: while the pointer does not
/// cross the opposite edge, the other three edges stay where they were.
pub proof fn lemma_edge_drag_moves_one_edge(sel: SelectionModel, x: int, y: int)
    requires
        sel.rect.edges_fit(),
        fits_i32(x),
        fits_i32(y),
        fits_i32(x - sel.rect.x),
        fits_i32(sel.rect.right_spec() - x),
        fits_i32(y - sel.rect.y),
        fits_i32(sel.rect.bottom_spec() - y),
        sel.rect.size_fits(),
    ensures
        ({
            let l = sel.rect.x as int;
            let t = sel.rect.y as int;
            let r = sel.rect.right_spec();
            let b = sel.rect.bottom_spec();
            let et = sel.resized_edges(DragHandle::Top, x, y);
            let eb = sel.resized_edges(DragHandle::Bottom, x, y);
            let el = sel.resized_edges(DragHandle::Left, x, y);
            let er = sel.resized_edges(DragHandle::Right, x, y);
            let n_t = span_rect(et.0, et.1, et.2, et.3);
            let n_b = span_rect(eb.0, eb.1, eb.2, eb.3);
            let n_l = span_rect(el.0, el.1, el.2, el.3);
            let n_r = span_rect(er.0, er.1, er.2, er.3);
            &&& y <= b ==> n_t.x == l && n_t.y == y && n_t.right_spec() == r && n_t.bottom_spec() == b
            &&& y >= t ==> n_b.x == l && n_b.y == t && n_b.right_spec() == r && n_b.bottom_spec() == y
            &&& x <= r ==> n_l.x == x && n_l.y == t && n_l.right_spec() == r && n_l.bottom_spec() == b
            &&& x >= l ==> n_r.x == l && n_r.y == t && n_r.right_spec() == x && n_r.bottom_spec() == b
        }),
{
}

} // verus!
