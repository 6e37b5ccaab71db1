use vstd::prelude::*;

use crate::geometry::{max_int, min_int, trunc_half, Rect};
use crate::text::{dec_spec, hex2_spec, push_decimal, push_hex2, push_str, string_from};
use crate::selection::abs_diff;

verus! {

/// What the capture overlay is doing.
#[derive(Debug, Clone, Copy, PartialEq, Eq, Structural)]
pub enum OverlayMode {
    RegionSelect,
    WindowDetect,
    ElementDetect,
    ColorPick,
}

/// A window found under the pointer while the overlay is up.
#[derive(Debug, Clone)]
pub struct DetectedWindow {
    pub rect: Rect,
    pub title: String,
    pub is_hovered: bool,
}

/// The last user action the overlay reported.
#[derive(Debug, Clone, Copy, PartialEq, Eq, Structural)]
pub enum OverlayAction {
    Idle,
    Selecting,
    Resizing,
    Moving,
    WindowHover,
    ColorPicking,
    Confirmed,
    Cancelled,
}

/// Brightness, in percent, of the frozen frame outside the selection.
pub const DIM_FACTOR: u8 = 55;

/// Distance within which a pointer grabs a corner of the selection.
pub const CORNER_HIT: i32 = 10;

/// Distance within which a pointer grabs an edge of the selection.
pub const EDGE_HIT: i32 = 6;

/// Smallest width or height a resize leaves the selection with.
pub const MIN_SEL: i32 = 4;

/// Bound on every coordinate the overlay handles (pointer positions arrive as `i16`, the
/// virtual screen is far smaller than this).
pub const COORD_LIMIT: i32 = 1048576;

/// `v.clamp(lo, hi)` for `lo <= hi`.
pub open spec fn clamp_int(v: int, lo: int, hi: int) -> int {
    if v < lo {
        lo
    } else if v > hi {
        hi
    } else {
        v
    }
}

fn clamp_i32(v: i32, lo: i32, hi: i32) -> (r: i32)
    requires
        lo <= hi,
    ensures
        r == clamp_int(v as int, lo as int, hi as int),
{
    if v < lo {
        lo
    } else if v > hi {
        hi
    } else {
        v
    }
}

/// A rectangle given by its four edges, in overlay-window coordinates.
#[derive(Debug, Clone, Copy, PartialEq, Eq, Structural)]
pub struct SelRect {
    pub l: i32,
    pub t: i32,
    pub r: i32,
    pub b: i32,
}

impl SelRect {
    pub open spec fn width_spec(self) -> int {
        self.r - self.l
    }

    pub open spec fn height_spec(self) -> int {
        self.b - self.t
    }

    pub open spec fn valid_spec(self) -> bool {
        self.width_spec() > 2 && self.height_spec() > 2
    }

    /// Every edge lies in `[lo, hi]`.
    pub open spec fn within(self, lo: int, hi: int) -> bool {
        &&& lo <= self.l <= hi
        &&& lo <= self.t <= hi
        &&& lo <= self.r <= hi
        &&& lo <= self.b <= hi
    }

    pub fn width(&self) -> (r: i32)
        requires
            self.within(-COORD_LIMIT * 4, COORD_LIMIT * 4),
        ensures
            r == self.width_spec(),
    {
        self.r - self.l
    }

    pub fn height(&self) -> (r: i32)
        requires
            self.within(-COORD_LIMIT * 4, COORD_LIMIT * 4),
        ensures
            r == self.height_spec(),
    {
        self.b - self.t
    }

    pub fn valid(&self) -> (r: bool)
        requires
            self.within(-COORD_LIMIT * 4, COORD_LIMIT * 4),
        ensures
            r == self.valid_spec(),
    {
        self.width() > 2 && self.height() > 2
    }

    pub fn from_points(x1: i32, y1: i32, x2: i32, y2: i32) -> (r: Self)
        ensures
            r.l == min_int(x1 as int, x2 as int),
            r.t == min_int(y1 as int, y2 as int),
            r.r == max_int(x1 as int, x2 as int),
            r.b == max_int(y1 as int, y2 as int),
    {
        Self {
            l: if x1 <= x2 {
                x1
            } else {
                x2
            },
            t: if y1 <= y2 {
                y1
            } else {
                y2
            },
            r: if x1 >= x2 {
                x1
            } else {
                x2
            },
            b: if y1 >= y2 {
                y1
            } else {
                y2
            },
        }
    }
}

/// `x` lies in `r`, edges included.
pub open spec fn pt_in_rect_spec(x: int, y: int, r: SelRect) -> bool {
    x >= r.l && x <= r.r && y >= r.t && y <= r.b
}

pub fn pt_in_rect(x: i32, y: i32, r: &SelRect) -> (res: bool)
    ensures
        res == pt_in_rect_spec(x as int, y as int, *r),
{
    x >= r.l && x <= r.r && y >= r.t && y <= r.b
}

/// Hit-test zones around an existing selection.
#[derive(Debug, Clone, Copy, PartialEq, Eq, Structural)]
pub enum Zone {
    Outside,
    Inside,
    L,
    R,
    T,
    B,
    Tl,
    Tr,
    Bl,
    Br,
}

/// The zone a pointer at `(x, y)` is in: corners take precedence over edges, edges over the
/// inside; an invalid selection has only the outside.
pub open spec fn zone_at_spec(sel: SelRect, x: int, y: int) -> Zone {
    let near_l = abs_diff(x, sel.l as int) <= CORNER_HIT;
    let near_r = abs_diff(x, sel.r as int) <= CORNER_HIT;
    let near_t = abs_diff(y, sel.t as int) <= CORNER_HIT;
    let near_b = abs_diff(y, sel.b as int) <= CORNER_HIT;
    let edge_l = abs_diff(x, sel.l as int) <= EDGE_HIT;
    let edge_r = abs_diff(x, sel.r as int) <= EDGE_HIT;
    let edge_t = abs_diff(y, sel.t as int) <= EDGE_HIT;
    let edge_b = abs_diff(y, sel.b as int) <= EDGE_HIT;
    let inside_x = x > sel.l && x < sel.r;
    let inside_y = y > sel.t && y < sel.b;
    if !sel.valid_spec() {
        Zone::Outside
    } else if (near_l || near_r) && (near_t || near_b) {
        if near_l && near_t {
            Zone::Tl
        } else if near_t {
            Zone::Tr
        } else if near_l {
            Zone::Bl
        } else {
            Zone::Br
        }
    } else if edge_l && inside_y {
        Zone::L
    } else if edge_r && inside_y {
        Zone::R
    } else if edge_t && inside_x {
        Zone::T
    } else if edge_b && inside_x {
        Zone::B
    } else if inside_x && inside_y {
        Zone::Inside
    } else {
        Zone::Outside
    }
}

fn within_hit(a: i32, b: i32, dist: i32) -> (r: bool)
    requires
        -COORD_LIMIT * 8 <= a <= COORD_LIMIT * 8,
        -COORD_LIMIT * 8 <= b <= COORD_LIMIT * 8,
    ensures
        r == (abs_diff(a as int, b as int) <= dist),
{
    let d = a - b;
    let ad = if d >= 0 {
        d
    } else {
        -d
    };
    ad <= dist
}

pub fn zone_at(sel: SelRect, x: i32, y: i32) -> (z: Zone)
    requires
        sel.within(-COORD_LIMIT * 4, COORD_LIMIT * 4),
        -COORD_LIMIT * 4 <= x <= COORD_LIMIT * 4,
        -COORD_LIMIT * 4 <= y <= COORD_LIMIT * 4,
    ensures
        z == zone_at_spec(sel, x as int, y as int),
{
    if !sel.valid() {
        return Zone::Outside;
    }
    let near_l = within_hit(x, sel.l, CORNER_HIT);
    let near_r = within_hit(x, sel.r, CORNER_HIT);
    let near_t = within_hit(y, sel.t, CORNER_HIT);
    let near_b = within_hit(y, sel.b, CORNER_HIT);
    if (near_l || near_r) && (near_t || near_b) {
        return if near_l && near_t {
            Zone::Tl
        } else if near_t {
            Zone::Tr
        } else if near_l {
            Zone::Bl
        } else {
            Zone::Br
        };
    }
    let edge_l = within_hit(x, sel.l, EDGE_HIT);
    let edge_r = within_hit(x, sel.r, EDGE_HIT);
    let edge_t = within_hit(y, sel.t, EDGE_HIT);
    let edge_b = within_hit(y, sel.b, EDGE_HIT);
    let inside_x = x > sel.l && x < sel.r;
    let inside_y = y > sel.t && y < sel.b;
    if edge_l && inside_y {
        Zone::L
    } else if edge_r && inside_y {
        Zone::R
    } else if edge_t && inside_x {
        Zone::T
    } else if edge_b && inside_x {
        Zone::B
    } else if inside_x && inside_y {
        Zone::Inside
    } else {
        Zone::Outside
    }
}

/// The mouse cursor the overlay shows.
#[derive(Debug, Clone, Copy, PartialEq, Eq, Structural)]
pub enum CursorShape {
    Cross,
    Arrow,
    SizeWe,
    SizeNs,
    SizeNwse,
    SizeNesw,
    SizeAll,
}

pub open spec fn zone_cursor_spec(zone: Zone) -> CursorShape {
    match zone {
        Zone::L | Zone::R => CursorShape::SizeWe,
        Zone::T | Zone::B => CursorShape::SizeNs,
        Zone::Tl | Zone::Br => CursorShape::SizeNwse,
        Zone::Tr | Zone::Bl => CursorShape::SizeNesw,
        Zone::Inside => CursorShape::SizeAll,
        Zone::Outside => CursorShape::Arrow,
    }
}

pub fn zone_cursor(zone: Zone) -> (c: CursorShape)
    ensures
        c == zone_cursor_spec(zone),
{
    match zone {
        Zone::L | Zone::R => CursorShape::SizeWe,
        Zone::T | Zone::B => CursorShape::SizeNs,
        Zone::Tl | Zone::Br => CursorShape::SizeNwse,
        Zone::Tr | Zone::Bl => CursorShape::SizeNesw,
        Zone::Inside => CursorShape::SizeAll,
        Zone::Outside => CursorShape::Arrow,
    }
}

/// Button width of the confirm/cancel toolbar.
pub const TOOLBAR_BUTTON_W: i32 = 34;

/// Button height of the confirm/cancel toolbar.
pub const TOOLBAR_BUTTON_H: i32 = 26;

/// Gap between the two toolbar buttons.
pub const TOOLBAR_GAP: i32 = 4;

/// Padding around the toolbar buttons.
pub const TOOLBAR_PAD: i32 = 4;

/// Panel width: two buttons, the gap and the padding on both sides.
pub open spec fn toolbar_total_w() -> int {
    TOOLBAR_PAD * 2 + TOOLBAR_BUTTON_W * 2 + TOOLBAR_GAP
}

/// Panel height: one button and the padding above and below.
pub open spec fn toolbar_total_h() -> int {
    TOOLBAR_BUTTON_H + TOOLBAR_PAD * 2
}

/// Top-left corner of the toolbar panel: right-aligned with the selection and kept on screen,
/// below the selection when there is room, above it otherwise.
pub open spec fn toolbar_origin(sel: SelRect, cx: int, cy: int) -> (int, int) {
    let tw = toolbar_total_w();
    let th = toolbar_total_h();
    let bx = clamp_int(sel.r - tw, 0, max_int(cx - tw, 0));
    let by = if sel.b + 8 + th <= cy {
        sel.b + 8
    } else {
        max_int(sel.t - 8 - th, 0)
    };
    (bx, by)
}

/// The panel, the confirm button and the cancel button of the toolbar.
pub open spec fn toolbar_spec(sel: SelRect, cx: int, cy: int) -> (SelRect, SelRect, SelRect) {
    let (bx, by) = toolbar_origin(sel, cx, cy);
    let p = TOOLBAR_PAD as int;
    let bw = TOOLBAR_BUTTON_W as int;
    let bh = TOOLBAR_BUTTON_H as int;
    let g = TOOLBAR_GAP as int;
    (
        SelRect {
            l: bx as i32,
            t: by as i32,
            r: (bx + toolbar_total_w()) as i32,
            b: (by + toolbar_total_h()) as i32,
        },
        SelRect {
            l: (bx + p) as i32,
            t: (by + p) as i32,
            r: (bx + p + bw) as i32,
            b: (by + p + bh) as i32,
        },
        SelRect {
            l: (bx + p + bw + g) as i32,
            t: (by + p) as i32,
            r: (bx + p + bw + g + bw) as i32,
            b: (by + p + bh) as i32,
        },
    )
}

pub fn toolbar_rects(sel: SelRect, cx: i32, cy: i32) -> (r: (SelRect, SelRect, SelRect))
    requires
        sel.within(-COORD_LIMIT * 4, COORD_LIMIT * 4),
        0 <= cx <= COORD_LIMIT,
        0 <= cy <= COORD_LIMIT,
    ensures
        r == toolbar_spec(sel, cx as int, cy as int),
{
    let total_w = TOOLBAR_PAD * 2 + TOOLBAR_BUTTON_W * 2 + TOOLBAR_GAP;
    let total_h = TOOLBAR_BUTTON_H + TOOLBAR_PAD * 2;
    let hi = if cx - total_w >= 0 {
        cx - total_w
    } else {
        0
    };
    let bx = clamp_i32(sel.r - total_w, 0, hi);
    let by = if sel.b + 8 + total_h <= cy {
        sel.b + 8
    } else {
        let above = sel.t - 8 - total_h;
        if above >= 0 {
            above
        } else {
            0
        }
    };
    (
        SelRect { l: bx, t: by, r: bx + total_w, b: by + total_h },
        SelRect {
            l: bx + TOOLBAR_PAD,
            t: by + TOOLBAR_PAD,
            r: bx + TOOLBAR_PAD + TOOLBAR_BUTTON_W,
            b: by + TOOLBAR_PAD + TOOLBAR_BUTTON_H,
        },
        SelRect {
            l: bx + TOOLBAR_PAD + TOOLBAR_BUTTON_W + TOOLBAR_GAP,
            t: by + TOOLBAR_PAD,
            r: bx + TOOLBAR_PAD + TOOLBAR_BUTTON_W + TOOLBAR_GAP + TOOLBAR_BUTTON_W,
            b: by + TOOLBAR_PAD + TOOLBAR_BUTTON_H,
        },
    )
}

/// An adjustment in progress after the initial drag.
#[derive(Debug, Clone, Copy, PartialEq, Eq, Structural)]
pub enum Adjust {
    Move { off_x: i32, off_y: i32 },
    Resize(Zone),
}

/// Input the overlay window reacts to, in window coordinates.
#[derive(Debug, Clone, Copy, PartialEq, Eq, Structural)]
pub enum OverlayEvent {
    LeftDown { x: i32, y: i32 },
    MouseMove { x: i32, y: i32 },
    LeftUp,
    LeftDoubleClick,
    RightDown,
    KeyDown { vk: u32 },
    Destroy,
}

/// What the window must do after an event: nothing, repaint, or end the session.
#[derive(Debug, Clone, Copy, PartialEq, Eq, Structural)]
pub enum OverlayReaction {
    Ignore,
    Redraw,
    Finish,
}

/// Virtual-key code of Enter.
pub const VK_RETURN: u32 = 0x0D;

/// Virtual-key code of Escape.
pub const VK_ESCAPE: u32 = 0x1B;

/// The interactive state of a region-selection session.
#[derive(Debug, Clone, Copy, PartialEq, Eq, Structural)]
pub struct OverlayState {
    pub sel: SelRect,
    pub dragging: bool,
    pub anchor_x: i32,
    pub anchor_y: i32,
    pub adjust: Option<Adjust>,
    pub mouse_x: i32,
    pub mouse_y: i32,
    pub confirmed: bool,
}

/// The part of the frozen frame a confirmed session selected.
#[derive(Debug, Clone, Copy, PartialEq, Eq, Structural)]
pub struct OverlaySelection {
    /// The selection in virtual-screen coordinates, with the cropped size.
    pub rect: Rect,
    pub crop_x: u32,
    pub crop_y: u32,
    pub crop_w: u32,
    pub crop_h: u32,
}

pub open spec fn coord_ok(v: int) -> bool {
    -COORD_LIMIT <= v <= COORD_LIMIT
}

pub open spec fn event_ok(ev: OverlayEvent) -> bool {
    match ev {
        OverlayEvent::LeftDown { x, y } => coord_ok(x as int) && coord_ok(y as int),
        OverlayEvent::MouseMove { x, y } => coord_ok(x as int) && coord_ok(y as int),
        _ => true,
    }
}

pub open spec fn screen_ok(cx: int, cy: int) -> bool {
    0 <= cx <= COORD_LIMIT && 0 <= cy <= COORD_LIMIT
}

/// The new left edge when the left edge is dragged to `x`.
pub open spec fn drag_left(sel: SelRect, x: int) -> int {
    clamp_int(x, 0, sel.r - MIN_SEL)
}

/// The new right edge when the right edge is dragged to `x`.
pub open spec fn drag_right(sel: SelRect, x: int, cx: int) -> int {
    clamp_int(x, sel.l + MIN_SEL, cx)
}

/// The new top edge when the top edge is dragged to `y`.
pub open spec fn drag_top(sel: SelRect, y: int) -> int {
    clamp_int(y, 0, sel.b - MIN_SEL)
}

/// The new bottom edge when the bottom edge is dragged to `y`.
pub open spec fn drag_bottom(sel: SelRect, y: int, cy: int) -> int {
    clamp_int(y, sel.t + MIN_SEL, cy)
}

pub open spec fn moves_left(z: Zone) -> bool {
    z == Zone::L || z == Zone::Tl || z == Zone::Bl
}

pub open spec fn moves_right(z: Zone) -> bool {
    z == Zone::R || z == Zone::Tr || z == Zone::Br
}

pub open spec fn moves_top(z: Zone) -> bool {
    z == Zone::T || z == Zone::Tl || z == Zone::Tr
}

pub open spec fn moves_bottom(z: Zone) -> bool {
    z == Zone::B || z == Zone::Bl || z == Zone::Br
}

/// The selection after resizing it through zone `z` with the pointer at `(x, y)`.
pub open spec fn resize_spec(sel: SelRect, z: Zone, x: int, y: int, cx: int, cy: int) -> SelRect {
    SelRect {
        l: if moves_left(z) {
            drag_left(sel, x) as i32
        } else {
            sel.l
        },
        r: if moves_right(z) {
            drag_right(sel, x, cx) as i32
        } else {
            sel.r
        },
        t: if moves_top(z) {
            drag_top(sel, y) as i32
        } else {
            sel.t
        },
        b: if moves_bottom(z) {
            drag_bottom(sel, y, cy) as i32
        } else {
            sel.b
        },
    }
}

/// The selection after moving it so its top-left corner follows the pointer at the grab
/// offset, kept on screen where it fits.
pub open spec fn move_spec(sel: SelRect, x: int, y: int, off_x: int, off_y: int, cx: int, cy: int) -> SelRect {
    let w = sel.width_spec();
    let h = sel.height_spec();
    let l = clamp_int(x - off_x, 0, max_int(cx - w, 0));
    let t = clamp_int(y - off_y, 0, max_int(cy - h, 0));
    SelRect { l: l as i32, t: t as i32, r: (l + w) as i32, b: (t + h) as i32 }
}

impl OverlayState {
    /// Every coordinate stays in a range where no arithmetic of the overlay overflows, and
    /// the selection's edges are ordered.
    pub open spec fn bounded(self) -> bool {
        let m = COORD_LIMIT as int;
        &&& -m <= self.sel.l <= self.sel.r <= 2 * m
        &&& -m <= self.sel.t <= self.sel.b <= 2 * m
        &&& self.sel.r - self.sel.l <= 2 * m
        &&& self.sel.b - self.sel.t <= 2 * m
        &&& coord_ok(self.anchor_x as int)
        &&& coord_ok(self.anchor_y as int)
        &&& coord_ok(self.mouse_x as int)
        &&& coord_ok(self.mouse_y as int)
        &&& (self.adjust matches Some(Adjust::Move { off_x, off_y }) ==> -3 * m <= off_x <= 3
            * m && -3 * m <= off_y <= 3 * m)
    }

    /// The clamps a resize performs have a lower bound not above the upper one (the
    /// resize would abort otherwise).
    pub open spec fn resize_clamps_ok(self, cx: int, cy: int) -> bool {
        self.adjust matches Some(Adjust::Resize(z)) ==> {
            &&& moves_left(z) ==> 0 <= self.sel.r - MIN_SEL
            &&& moves_right(z) ==> self.sel.l + MIN_SEL <= cx
            &&& moves_top(z) ==> 0 <= self.sel.b - MIN_SEL
            &&& moves_bottom(z) ==> self.sel.t + MIN_SEL <= cy
        }
    }

    /// The event can be handled without an aborted clamp.
    pub open spec fn can_handle(self, ev: OverlayEvent, cx: int, cy: int) -> bool {
        ev matches OverlayEvent::MouseMove { .. } && !self.dragging ==> self.resize_clamps_ok(
            cx,
            cy,
        )
    }

    /// The state after a left press at `(x, y)`, and the reaction.
    pub open spec fn press_spec(self, x: int, y: int, cx: int, cy: int) -> (OverlayState, OverlayReaction) {
        let (panel, confirm, cancel) = toolbar_spec(self.sel, cx, cy);
        if self.sel.valid_spec() && pt_in_rect_spec(x, y, confirm) {
            (OverlayState { confirmed: true, ..self }, OverlayReaction::Finish)
        } else if self.sel.valid_spec() && pt_in_rect_spec(x, y, cancel) {
            (self, OverlayReaction::Finish)
        } else if self.sel.valid_spec() && pt_in_rect_spec(x, y, panel) {
            (self, OverlayReaction::Redraw)
        } else {
            let zone = zone_at_spec(self.sel, x, y);
            if zone == Zone::Inside {
                (
                    OverlayState {
                        dragging: false,
                        adjust: Some(
                            Adjust::Move { off_x: (x - self.sel.l) as i32, off_y: (y - self.sel.t) as i32 },
                        ),
                        ..self
                    },
                    OverlayReaction::Redraw,
                )
            } else if zone == Zone::Outside {
                (
                    OverlayState {
                        dragging: true,
                        adjust: None,
                        anchor_x: x as i32,
                        anchor_y: y as i32,
                        sel: SelRect { l: x as i32, t: y as i32, r: x as i32, b: y as i32 },
                        ..self
                    },
                    OverlayReaction::Redraw,
                )
            } else {
                (
                    OverlayState { dragging: false, adjust: Some(Adjust::Resize(zone)), ..self },
                    OverlayReaction::Redraw,
                )
            }
        }
    }

    /// The state after the pointer moved to `(x, y)`, and the reaction.
    pub open spec fn motion_spec(self, x: int, y: int, cx: int, cy: int) -> (OverlayState, OverlayReaction) {
        let s = OverlayState { mouse_x: x as i32, mouse_y: y as i32, ..self };
        if self.dragging {
            (
                OverlayState {
                    sel: SelRect {
                        l: min_int(self.anchor_x as int, x) as i32,
                        t: min_int(self.anchor_y as int, y) as i32,
                        r: max_int(self.anchor_x as int, x) as i32,
                        b: max_int(self.anchor_y as int, y) as i32,
                    },
                    ..s
                },
                OverlayReaction::Redraw,
            )
        } else {
            match self.adjust {
                Some(Adjust::Move { off_x, off_y }) => (
                    OverlayState {
                        sel: move_spec(self.sel, x, y, off_x as int, off_y as int, cx, cy),
                        ..s
                    },
                    OverlayReaction::Redraw,
                ),
                Some(Adjust::Resize(z)) => (
                    OverlayState { sel: resize_spec(self.sel, z, x, y, cx, cy), ..s },
                    OverlayReaction::Redraw,
                ),
                None => (s, OverlayReaction::Ignore),
            }
        }
    }

    /// The transition of the selection session: the state after `ev` and what the window
    /// must do.
    pub open spec fn next_spec(self, ev: OverlayEvent, cx: int, cy: int) -> (OverlayState, OverlayReaction) {
        match ev {
            OverlayEvent::LeftDown { x, y } => self.press_spec(x as int, y as int, cx, cy),
            OverlayEvent::MouseMove { x, y } => self.motion_spec(x as int, y as int, cx, cy),
            OverlayEvent::LeftUp => (
                OverlayState { dragging: false, adjust: None, ..self },
                OverlayReaction::Redraw,
            ),
            OverlayEvent::LeftDoubleClick => if self.sel.valid_spec() {
                (OverlayState { confirmed: true, ..self }, OverlayReaction::Finish)
            } else {
                (self, OverlayReaction::Ignore)
            },
            OverlayEvent::RightDown => (self, OverlayReaction::Finish),
            OverlayEvent::KeyDown { vk } => if vk == VK_RETURN {
                if self.sel.valid_spec() {
                    (OverlayState { confirmed: true, ..self }, OverlayReaction::Finish)
                } else {
                    (self, OverlayReaction::Ignore)
                }
            } else if vk == VK_ESCAPE {
                (self, OverlayReaction::Finish)
            } else {
                (self, OverlayReaction::Ignore)
            },
            OverlayEvent::Destroy => (self, OverlayReaction::Finish),
        }
    }

    /// The cursor for the current pointer position: a crosshair while drawing, an arrow over
    /// the toolbar, otherwise the shape of the zone under the pointer.
    pub open spec fn cursor_spec(self, cx: int, cy: int) -> CursorShape {
        if self.dragging || !self.sel.valid_spec() {
            CursorShape::Cross
        } else if pt_in_rect_spec(
            self.mouse_x as int,
            self.mouse_y as int,
            toolbar_spec(self.sel, cx, cy).0,
        ) {
            CursorShape::Arrow
        } else {
            zone_cursor_spec(zone_at_spec(self.sel, self.mouse_x as int, self.mouse_y as int))
        }
    }

    /// The captured region of a finished session: a confirmed, valid selection cut down to the
    /// frozen frame, when anything of it is left.
    pub open spec fn result_spec(self, frame_w: int, frame_h: int, vx: int, vy: int) -> Option<
        OverlaySelection,
    > {
        let crop_x = max_int(self.sel.l as int, 0);
        let crop_y = max_int(self.sel.t as int, 0);
        let crop_w = min_int(self.sel.width_spec(), max_int(frame_w - crop_x, 0));
        let crop_h = min_int(self.sel.height_spec(), max_int(frame_h - crop_y, 0));
        if self.confirmed && self.sel.valid_spec() && crop_w > 0 && crop_h > 0 {
            Some(
                OverlaySelection {
                    rect: Rect {
                        x: (self.sel.l + vx) as i32,
                        y: (self.sel.t + vy) as i32,
                        width: crop_w as u32,
                        height: crop_h as u32,
                    },
                    crop_x: crop_x as u32,
                    crop_y: crop_y as u32,
                    crop_w: crop_w as u32,
                    crop_h: crop_h as u32,
                },
            )
        } else {
            None
        }
    }

    pub fn new() -> (r: Self)
        ensures
            r.sel == (SelRect { l: 0, t: 0, r: 0, b: 0 }),
            !r.dragging,
            r.anchor_x == 0 && r.anchor_y == 0,
            r.adjust.is_none(),
            r.mouse_x == 0 && r.mouse_y == 0,
            !r.confirmed,
            r.bounded(),
    {
        Self {
            sel: SelRect { l: 0, t: 0, r: 0, b: 0 },
            dragging: false,
            anchor_x: 0,
            anchor_y: 0,
            adjust: None,
            mouse_x: 0,
            mouse_y: 0,
            confirmed: false,
        }
    }

    fn press(&mut self, x: i32, y: i32, cx: i32, cy: i32) -> (r: OverlayReaction)
        requires
            old(self).bounded(),
            screen_ok(cx as int, cy as int),
            coord_ok(x as int),
            coord_ok(y as int),
        ensures
            (*final(self), r) == old(self).press_spec(x as int, y as int, cx as int, cy as int),
    {
        if self.sel.valid() {
            let (panel, confirm, cancel) = toolbar_rects(self.sel, cx, cy);
            if pt_in_rect(x, y, &confirm) {
                self.confirmed = true;
                return OverlayReaction::Finish;
            }
            if pt_in_rect(x, y, &cancel) {
                return OverlayReaction::Finish;
            }
            if pt_in_rect(x, y, &panel) {
                return OverlayReaction::Redraw;
            }
        }
        let zone = zone_at(self.sel, x, y);
        match zone {
            Zone::Inside => {
                self.dragging = false;
                self.adjust = Some(Adjust::Move { off_x: x - self.sel.l, off_y: y - self.sel.t });
            },
            Zone::Outside => {
                self.dragging = true;
                self.adjust = None;
                self.anchor_x = x;
                self.anchor_y = y;
                self.sel = SelRect { l: x, t: y, r: x, b: y };
            },
            _ => {
                self.dragging = false;
                self.adjust = Some(Adjust::Resize(zone));
            },
        }
        OverlayReaction::Redraw
    }

    fn motion(&mut self, x: i32, y: i32, cx: i32, cy: i32) -> (r: OverlayReaction)
        requires
            old(self).bounded(),
            screen_ok(cx as int, cy as int),
            coord_ok(x as int),
            coord_ok(y as int),
            !old(self).dragging ==> old(self).resize_clamps_ok(cx as int, cy as int),
        ensures
            (*final(self), r) == old(self).motion_spec(x as int, y as int, cx as int, cy as int),
    {
        self.mouse_x = x;
        self.mouse_y = y;
        if self.dragging {
            self.sel = SelRect::from_points(self.anchor_x, self.anchor_y, x, y);
            return OverlayReaction::Redraw;
        }
        match self.adjust {
            Some(Adjust::Move { off_x, off_y }) => {
                let w = self.sel.width();
                let h = self.sel.height();
                let hx = if cx - w >= 0 {
                    cx - w
                } else {
                    0
                };
                let hy = if cy - h >= 0 {
                    cy - h
                } else {
                    0
                };
                let l = clamp_i32(x - off_x, 0, hx);
                let t = clamp_i32(y - off_y, 0, hy);
                self.sel = SelRect { l, t, r: l + w, b: t + h };
                OverlayReaction::Redraw
            },
            Some(Adjust::Resize(zone)) => {
                let old_sel = self.sel;
                let mut sel = self.sel;
                if zone == Zone::L || zone == Zone::Tl || zone == Zone::Bl {
                    sel.l = clamp_i32(x, 0, old_sel.r - MIN_SEL);
                }
                if zone == Zone::R || zone == Zone::Tr || zone == Zone::Br {
                    sel.r = clamp_i32(x, old_sel.l + MIN_SEL, cx);
                }
                if zone == Zone::T || zone == Zone::Tl || zone == Zone::Tr {
                    sel.t = clamp_i32(y, 0, old_sel.b - MIN_SEL);
                }
                if zone == Zone::B || zone == Zone::Bl || zone == Zone::Br {
                    sel.b = clamp_i32(y, old_sel.t + MIN_SEL, cy);
                }
                self.sel = sel;
                OverlayReaction::Redraw
            },
            None => OverlayReaction::Ignore,
        }
    }

    /// Handles one input event of the selection session.
    pub fn handle_event(&mut self, ev: OverlayEvent, cx: i32, cy: i32) -> (r: OverlayReaction)
        requires
            old(self).bounded(),
            screen_ok(cx as int, cy as int),
            event_ok(ev),
            old(self).can_handle(ev, cx as int, cy as int),
        ensures
            (*final(self), r) == old(self).next_spec(ev, cx as int, cy as int),
            final(self).bounded(),
    {
        proof {
            lemma_step_bounded(*self, ev, cx as int, cy as int);
        }
        match ev {
            OverlayEvent::LeftDown { x, y } => self.press(x, y, cx, cy),
            OverlayEvent::MouseMove { x, y } => self.motion(x, y, cx, cy),
            OverlayEvent::LeftUp => {
                self.dragging = false;
                self.adjust = None;
                OverlayReaction::Redraw
            },
            OverlayEvent::LeftDoubleClick => {
                if self.sel.valid() {
                    self.confirmed = true;
                    OverlayReaction::Finish
                } else {
                    OverlayReaction::Ignore
                }
            },
            OverlayEvent::RightDown => OverlayReaction::Finish,
            OverlayEvent::KeyDown { vk } => {
                if vk == VK_RETURN {
                    if self.sel.valid() {
                        self.confirmed = true;
                        OverlayReaction::Finish
                    } else {
                        OverlayReaction::Ignore
                    }
                } else if vk == VK_ESCAPE {
                    OverlayReaction::Finish
                } else {
                    OverlayReaction::Ignore
                }
            },
            OverlayEvent::Destroy => OverlayReaction::Finish,
        }
    }

    /// The cursor shape to show for the current pointer position.
    pub fn cursor(&self, cx: i32, cy: i32) -> (c: CursorShape)
        requires
            self.bounded(),
            screen_ok(cx as int, cy as int),
        ensures
            c == self.cursor_spec(cx as int, cy as int),
    {
        if self.dragging || !self.sel.valid() {
            return CursorShape::Cross;
        }
        let (panel, _, _) = toolbar_rects(self.sel, cx, cy);
        if pt_in_rect(self.mouse_x, self.mouse_y, &panel) {
            return CursorShape::Arrow;
        }
        zone_cursor(zone_at(self.sel, self.mouse_x, self.mouse_y))
    }

    /// The region a finished session captured from a frozen frame of `frame_w` by `frame_h`
    /// pixels whose origin sits at `(vx, vy)` on the virtual screen.
    pub fn result(&self, frame_w: u32, frame_h: u32, vx: i32, vy: i32) -> (r: Option<
        OverlaySelection,
    >)
        requires
            self.bounded(),
            coord_ok(vx as int),
            coord_ok(vy as int),
        ensures
            r == self.result_spec(frame_w as int, frame_h as int, vx as int, vy as int),
    {
        if self.confirmed && self.sel.valid() {
            let crop_x: u32 = if self.sel.l >= 0 {
                self.sel.l as u32
            } else {
                0
            };
            let crop_y: u32 = if self.sel.t >= 0 {
                self.sel.t as u32
            } else {
                0
            };
            let room_w: u32 = if frame_w >= crop_x {
                frame_w - crop_x
            } else {
                0
            };
            let room_h: u32 = if frame_h >= crop_y {
                frame_h - crop_y
            } else {
                0
            };
            let sw = self.sel.width() as u32;
            let sh = self.sel.height() as u32;
            let crop_w = if sw <= room_w {
                sw
            } else {
                room_w
            };
            let crop_h = if sh <= room_h {
                sh
            } else {
                room_h
            };
            if crop_w > 0 && crop_h > 0 {
                return Some(
                    OverlaySelection {
                        rect: Rect::new(self.sel.l + vx, self.sel.t + vy, crop_w, crop_h),
                        crop_x,
                        crop_y,
                        crop_w,
                        crop_h,
                    },
                );
            }
        }
        None
    }
}

/// Every transition of a selection session keeps its coordinates bounded and its edges
/// ordered.
pub proof fn lemma_step_bounded(s: OverlayState, ev: OverlayEvent, cx: int, cy: int)
    requires
        s.bounded(),
        screen_ok(cx, cy),
        event_ok(ev),
        s.can_handle(ev, cx, cy),
    ensures
        s.next_spec(ev, cx, cy).0.bounded(),
{
}

/// A session is only ever confirmed with a valid selection, and confirming leaves the
/// selection as it was.
pub proof fn lemma_confirm_requires_valid(s: OverlayState, ev: OverlayEvent, cx: int, cy: int)
    requires
        s.bounded(),
        screen_ok(cx, cy),
        !s.confirmed,
        s.next_spec(ev, cx, cy).0.confirmed,
    ensures
        s.sel.valid_spec(),
        s.next_spec(ev, cx, cy).0.sel == s.sel,
        s.next_spec(ev, cx, cy).1 == OverlayReaction::Finish,
{
}

/// Escape, a right click and the window's destruction end the session without changing
/// anything, so an unconfirmed session stays unconfirmed.
pub proof fn lemma_cancel_keeps_state(s: OverlayState, cx: int, cy: int)
    ensures
        s.next_spec(OverlayEvent::KeyDown { vk: VK_ESCAPE }, cx, cy) == (s, OverlayReaction::Finish),
        s.next_spec(OverlayEvent::RightDown, cx, cy) == (s, OverlayReaction::Finish),
        s.next_spec(OverlayEvent::Destroy, cx, cy) == (s, OverlayReaction::Finish),
{
}

/// Enter, a double click and a click on the confirm button each confirm a valid selection
/// and end the session, keeping the selection.
pub proof fn lemma_three_ways_to_confirm(s: OverlayState, cx: int, cy: int)
    requires
        s.bounded(),
        screen_ok(cx, cy),
        s.sel.valid_spec(),
    ensures
        s.next_spec(OverlayEvent::KeyDown { vk: VK_RETURN }, cx, cy) == (
            OverlayState { confirmed: true, ..s },
            OverlayReaction::Finish,
        ),
        s.next_spec(OverlayEvent::LeftDoubleClick, cx, cy) == (
            OverlayState { confirmed: true, ..s },
            OverlayReaction::Finish,
        ),
        ({
            let confirm = toolbar_spec(s.sel, cx, cy).1;
            s.next_spec(OverlayEvent::LeftDown { x: confirm.l, y: confirm.t }, cx, cy) == (
                OverlayState { confirmed: true, ..s },
                OverlayReaction::Finish,
            )
        }),
{
}

/// Cancelling an unconfirmed session (Escape, a right click, or the cancel button) ends it
/// with nothing captured.
pub proof fn lemma_cancel_captures_nothing(s: OverlayState, cx: int, cy: int, frame_w: int, frame_h: int, vx: int, vy: int)
    requires
        s.bounded(),
        screen_ok(cx, cy),
        !s.confirmed,
    ensures
        s.next_spec(OverlayEvent::KeyDown { vk: VK_ESCAPE }, cx, cy).0.result_spec(frame_w, frame_h, vx, vy) is None,
        s.next_spec(OverlayEvent::RightDown, cx, cy).0.result_spec(frame_w, frame_h, vx, vy) is None,
        ({
            let (panel, confirm, cancel) = toolbar_spec(s.sel, cx, cy);
            s.sel.valid_spec() && !pt_in_rect_spec(cancel.l as int, cancel.t as int, confirm) ==> s.next_spec(
                OverlayEvent::LeftDown { x: cancel.l, y: cancel.t },
                cx,
                cy,
            ) == (s, OverlayReaction::Finish)
        }),
{
}

/// Resizing through an edge or corner never makes the selection thinner than `MIN_SEL` along
/// the axis being dragged, so a resized selection stays valid.
pub proof fn lemma_resize_keeps_min_size(s: OverlayState, z: Zone, x: int, y: int, cx: int, cy: int)
    requires
        s.bounded(),
        screen_ok(cx, cy),
        coord_ok(x),
        coord_ok(y),
        !s.dragging,
        s.adjust == Some(Adjust::Resize(z)),
        s.resize_clamps_ok(cx, cy),
    ensures
        ({
            let n = s.next_spec(OverlayEvent::MouseMove { x: x as i32, y: y as i32 }, cx, cy).0;
            &&& (moves_left(z) || moves_right(z)) ==> n.sel.width_spec() >= MIN_SEL
            &&& (moves_top(z) || moves_bottom(z)) ==> n.sel.height_spec() >= MIN_SEL
        }),
{
}

/// Moving a selection keeps its size, and a selection no larger than the screen stays
/// entirely on screen.
pub proof fn lemma_move_keeps_size(
    s: OverlayState,
    off_x: i32,
    off_y: i32,
    x: int,
    y: int,
    cx: int,
    cy: int,
)
    requires
        s.bounded(),
        screen_ok(cx, cy),
        coord_ok(x),
        coord_ok(y),
        !s.dragging,
        s.adjust == Some(Adjust::Move { off_x, off_y }),
    ensures
        ({
            let n = s.next_spec(OverlayEvent::MouseMove { x: x as i32, y: y as i32 }, cx, cy).0;
            &&& n.sel.width_spec() == s.sel.width_spec()
            &&& n.sel.height_spec() == s.sel.height_spec()
            &&& s.sel.width_spec() <= cx ==> 0 <= n.sel.l && n.sel.r <= cx
            &&& s.sel.height_spec() <= cy ==> 0 <= n.sel.t && n.sel.b <= cy
        }),
{
}

/// The captured region lies inside the frozen frame and inside the selection.
pub proof fn lemma_result_within_frame(s: OverlayState, frame_w: int, frame_h: int, vx: int, vy: int)
    requires
        s.bounded(),
        0 <= frame_w <= u32::MAX,
        0 <= frame_h <= u32::MAX,
    ensures
        s.result_spec(frame_w, frame_h, vx, vy) matches Some(r) ==> {
            &&& r.crop_x + r.crop_w <= frame_w
            &&& r.crop_y + r.crop_h <= frame_h
            &&& r.crop_w <= s.sel.width_spec()
            &&& r.crop_h <= s.sel.height_spec()
            &&& r.crop_w > 0 && r.crop_h > 0
            &&& s.confirmed && s.sel.valid_spec()
        },
{
}

/// What fills the overlay behind the selection.
#[derive(Debug, Clone, Copy, PartialEq, Eq, Structural)]
pub enum Background {
    /// The dimmed frozen frame.
    DimmedFrame,
    /// A flat dark fill, when no frame could be captured.
    Dark,
}

/// How the selection is drawn in one repaint.
pub struct SelectionPaint {
    /// Copy the undimmed frame inside the selection.
    pub bright_inside: bool,
    /// The border rectangle.
    pub border: SelRect,
    /// Centre lines through the selection while the first drag is in progress.
    pub crosshair: Option<(i32, i32)>,
    /// Corner handles once the selection can be adjusted.
    pub handles: Vec<SelRect>,
    /// Toolbar panel, confirm button and cancel button once the selection can be adjusted.
    pub toolbar: Option<(SelRect, SelRect, SelRect)>,
    /// The size label, `"{w} x {h}"`, and where its top-left corner goes.
    pub label: String,
    pub label_x: i32,
    pub label_y: i32,
}

/// Everything one repaint of the overlay draws.
pub struct PaintPlan {
    pub background: Background,
    pub selection: Option<SelectionPaint>,
}

/// Half the side of a square corner handle.
pub const HANDLE_HALF: i32 = 4;

/// The square handle centred on `(x, y)`.
pub open spec fn handle_at(x: int, y: int) -> SelRect {
    SelRect { l: (x - HANDLE_HALF) as i32, t: (y - HANDLE_HALF) as i32, r: (x + HANDLE_HALF) as i32, b: (y + HANDLE_HALF) as i32 }
}

/// Handles on the four corners: top-left, top-right, bottom-left, bottom-right.
pub open spec fn corner_handles(sel: SelRect) -> Seq<SelRect> {
    seq![handle_at(sel.l as int, sel.t as int), handle_at(sel.r as int, sel.t as int), handle_at(sel.l as int, sel.b as int), handle_at(sel.r as int, sel.b as int)]
}

/// The size label's text.
pub open spec fn size_label(sel: SelRect) -> Seq<char> {
    dec_spec(sel.width_spec() as nat) + " x "@ + dec_spec(sel.height_spec() as nat)
}

/// The label sits just above the selection, or just below it when the selection touches the
/// top of the screen.
pub open spec fn label_y_spec(sel: SelRect) -> int {
    if sel.t >= 22 {
        sel.t - 22
    } else {
        sel.b + 4
    }
}

impl SelectionPaint {
    /// This is how `sel` is drawn, given whether a frame was captured and whether the first
    /// drag is still in progress.
    pub open spec fn describes(&self, sel: SelRect, dragging: bool, has_frame: bool, cx: int, cy: int) -> bool {
        &&& self.bright_inside == has_frame
        &&& self.border == sel
        &&& self.crosshair == if dragging {
            Some((trunc_half(sel.l + sel.r) as i32, trunc_half(sel.t + sel.b) as i32))
        } else {
            None
        }
        &&& self.handles@ == if dragging {
            Seq::empty()
        } else {
            corner_handles(sel)
        }
        &&& self.toolbar == if dragging {
            None
        } else {
            Some(toolbar_spec(sel, cx, cy))
        }
        &&& self.label@ == size_label(sel)
        &&& self.label_x == sel.l
        &&& self.label_y == label_y_spec(sel)
    }
}

/// What to draw for the overlay: the background, and for a selection of positive size its
/// bright inside, border, crosshair or handles and toolbar, and its size label.
pub fn paint_plan(sel: SelRect, dragging: bool, has_frame: bool, cx: i32, cy: i32) -> (p: PaintPlan)
    requires
        sel.within(-COORD_LIMIT * 4, COORD_LIMIT * 4),
        screen_ok(cx as int, cy as int),
    ensures
        p.background == if has_frame {
            Background::DimmedFrame
        } else {
            Background::Dark
        },
        p.selection is Some <==> sel.width_spec() > 0 && sel.height_spec() > 0,
        p.selection matches Some(s) ==> s.describes(sel, dragging, has_frame, cx as int, cy as int),
{
    let background = if has_frame {
        Background::DimmedFrame
    } else {
        Background::Dark
    };
    if !(sel.width() > 0 && sel.height() > 0) {
        return PaintPlan { background, selection: None };
    }
    let crosshair = if dragging {
        Some(((sel.l + sel.r) / 2, (sel.t + sel.b) / 2))
    } else {
        None
    };
    let mut handles: Vec<SelRect> = Vec::new();
    let mut toolbar = None;
    if !dragging {
        let corners = [(sel.l, sel.t), (sel.r, sel.t), (sel.l, sel.b), (sel.r, sel.b)];
        let mut i: usize = 0;
        while i < 4
            invariant
                i <= 4,
                sel.within(-COORD_LIMIT * 4, COORD_LIMIT * 4),
                corners@ == seq![(sel.l, sel.t), (sel.r, sel.t), (sel.l, sel.b), (sel.r, sel.b)],
                handles@ == corner_handles(sel).subrange(0, i as int),
            decreases 4 - i,
        {
            let (hx, hy) = corners[i];
            handles.push(SelRect { l: hx - HANDLE_HALF, t: hy - HANDLE_HALF, r: hx + HANDLE_HALF, b: hy + HANDLE_HALF });
            proof {
                assert(corner_handles(sel).subrange(0, i + 1) == corner_handles(sel).subrange(0, i as int).push(
                    handle_at(hx as int, hy as int),
                ));
            }
            i = i + 1;
        }
        proof {
            assert(corner_handles(sel).subrange(0, 4) == corner_handles(sel));
        }
        toolbar = Some(toolbar_rects(sel, cx, cy));
    }
    let mut label: Vec<char> = Vec::new();
    push_decimal(&mut label, sel.width() as u64);
    push_str(&mut label, " x ");
    push_decimal(&mut label, sel.height() as u64);
    let label_y = if sel.t >= 22 {
        sel.t - 22
    } else {
        sel.b + 4
    };
    PaintPlan {
        background,
        selection: Some(
            SelectionPaint {
                bright_inside: has_frame,
                border: sel,
                crosshair,
                handles,
                toolbar,
                label: string_from(&label),
                label_x: sel.l,
                label_y,
            },
        ),
    }
}

/// The zoom lens that follows the cursor while picking a region or a colour.
#[derive(Debug, Clone, Copy)]
pub struct MagnifierState {
    pub x: i32,
    pub y: i32,
    pub pixel_color: [u8; 4],
    pub visible: bool,
}

impl MagnifierState {
    /// A hidden lens at the origin over opaque black.
    pub fn new() -> (m: Self)
        ensures
            m.x == 0,
            m.y == 0,
            m.pixel_color@ == seq![0u8, 0u8, 0u8, 255u8],
            !m.visible,
    {
        MagnifierState { x: 0, y: 0, pixel_color: [0, 0, 0, 255], visible: false }
    }

    /// The colour under the lens as `#RRGGBB`.
    pub fn hex_color(&self) -> (r: String)
        ensures
            r@ == seq!['#'] + hex2_spec(self.pixel_color@[0]) + hex2_spec(self.pixel_color@[1]) + hex2_spec(
                self.pixel_color@[2],
            ),
    {
        let mut out: Vec<char> = Vec::new();
        out.push('#');
        push_hex2(&mut out, self.pixel_color[0]);
        push_hex2(&mut out, self.pixel_color[1]);
        push_hex2(&mut out, self.pixel_color[2]);
        string_from(&out)
    }
}

/// Which corner a press grabs, and what resizing from it moves. On a valid selection a press
/// within `CORNER_HIT` of a horizontal and a vertical edge grabs the corner they meet at (the
/// left and the top edge win a tie), and dragging from that corner moves exactly its two edges:
/// the two opposite edges stay where they were.
pub proof fn lemma_corner_press_resizes_its_corner(sel: SelRect, px: int, py: int, x: int, y: int, cx: int, cy: int)
    requires
        sel.valid_spec(),
    ensures
        ({
            let near_l = abs_diff(px, sel.l as int) <= CORNER_HIT;
            let near_r = abs_diff(px, sel.r as int) <= CORNER_HIT;
            let near_t = abs_diff(py, sel.t as int) <= CORNER_HIT;
            let near_b = abs_diff(py, sel.b as int) <= CORNER_HIT;
            let z = zone_at_spec(sel, px, py);
            let s = resize_spec(sel, z, x, y, cx, cy);
            &&& near_l && near_t ==> z == Zone::Tl && s.r == sel.r && s.b == sel.b && s.l == drag_left(sel, x) as i32
                && s.t == drag_top(sel, y) as i32
            &&& near_r && near_t && !near_l ==> z == Zone::Tr && s.l == sel.l && s.b == sel.b && s.r == drag_right(
                sel,
                x,
                cx,
            ) as i32 && s.t == drag_top(sel, y) as i32
            &&& near_l && near_b && !near_t ==> z == Zone::Bl && s.r == sel.r && s.t == sel.t && s.l == drag_left(
                sel,
                x,
            ) as i32 && s.b == drag_bottom(sel, y, cy) as i32
            &&& near_r && near_b && !near_l && !near_t ==> z == Zone::Br && s.l == sel.l && s.t == sel.t && s.r
                == drag_right(sel, x, cx) as i32 && s.b == drag_bottom(sel, y, cy) as i32
        }),
{
}

/// Which edge a press grabs away from the corners: on a valid selection, a press within
/// `EDGE_HIT` of one edge, between the two edges across it, and not within `CORNER_HIT` of a
/// corner, grabs that edge, and resizing from it moves that edge alone; a press farther than
/// `EDGE_HIT` from every edge is inside when it lies between them, and a press beyond
/// `CORNER_HIT` of the selection is outside.
pub proof fn lemma_edge_press_resizes_its_edge(sel: SelRect, px: int, py: int, x: int, y: int, cx: int, cy: int)
    requires
        sel.valid_spec(),
    ensures
        ({
            let corner = (abs_diff(px, sel.l as int) <= CORNER_HIT || abs_diff(px, sel.r as int) <= CORNER_HIT) && (
            abs_diff(py, sel.t as int) <= CORNER_HIT || abs_diff(py, sel.b as int) <= CORNER_HIT);
            let between_x = sel.l < px < sel.r;
            let between_y = sel.t < py < sel.b;
            let z = zone_at_spec(sel, px, py);
            let s = resize_spec(sel, z, x, y, cx, cy);
            &&& !corner && abs_diff(px, sel.l as int) <= EDGE_HIT && between_y ==> z == Zone::L && s.r == sel.r && s.t
                == sel.t && s.b == sel.b && s.l == drag_left(sel, x) as i32
            &&& !corner && abs_diff(px, sel.r as int) <= EDGE_HIT && between_y && abs_diff(px, sel.l as int) > EDGE_HIT
                ==> z == Zone::R && s.l == sel.l && s.t == sel.t && s.b == sel.b && s.r == drag_right(sel, x, cx) as i32
            &&& !corner && abs_diff(py, sel.t as int) <= EDGE_HIT && between_x && !(abs_diff(px, sel.l as int) <= EDGE_HIT
                && between_y) && !(abs_diff(px, sel.r as int) <= EDGE_HIT && between_y) ==> z == Zone::T && s.l == sel.l
                && s.r == sel.r && s.b == sel.b && s.t == drag_top(sel, y) as i32
            &&& !corner && abs_diff(py, sel.b as int) <= EDGE_HIT && between_x && abs_diff(py, sel.t as int) > EDGE_HIT
                && !(abs_diff(px, sel.l as int) <= EDGE_HIT && between_y) && !(abs_diff(px, sel.r as int) <= EDGE_HIT
                && between_y) ==> z == Zone::B && s.l == sel.l && s.r == sel.r && s.t == sel.t && s.b == drag_bottom(
                sel,
                y,
                cy,
            ) as i32
            &&& !corner && between_x && between_y && abs_diff(px, sel.l as int) > EDGE_HIT && abs_diff(px, sel.r as int)
                > EDGE_HIT && abs_diff(py, sel.t as int) > EDGE_HIT && abs_diff(py, sel.b as int) > EDGE_HIT ==> z
                == Zone::Inside
            &&& !(sel.l - CORNER_HIT <= px <= sel.r + CORNER_HIT && sel.t - CORNER_HIT <= py <= sel.b + CORNER_HIT) ==> z
                == Zone::Outside
        }),
{
}

} // verus!
