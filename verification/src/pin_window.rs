use vstd::prelude::*;

use crate::pixels::PIN_GLOW_MARGIN;

verus! {

/// `WS_EX_TOPMOST` of the Win32 window styles.
pub const WS_EX_TOPMOST: u32 = 0x0000_0008;

/// `WS_EX_TRANSPARENT`: mouse input passes through the window.
pub const WS_EX_TRANSPARENT: u32 = 0x0000_0020;

/// `WS_EX_LAYERED`: the window is drawn from a per-pixel-alpha bitmap.
pub const WS_EX_LAYERED: u32 = 0x0008_0000;

/// The extended style a pinned image is created with: layered and topmost, and click-through
/// when asked.
pub fn pin_ex_style(passthrough: bool) -> (r: u32)
    ensures
        r == if passthrough {
            WS_EX_LAYERED | WS_EX_TOPMOST | WS_EX_TRANSPARENT
        } else {
            WS_EX_LAYERED | WS_EX_TOPMOST
        },
{
    let mut style = WS_EX_LAYERED | WS_EX_TOPMOST;
    if passthrough {
        style = style | WS_EX_TRANSPARENT;
    }
    style
}

/// An extended style with click-through switched on or off and every other flag kept.
pub fn with_passthrough(style: u32, enabled: bool) -> (r: u32)
    ensures
        r & WS_EX_TRANSPARENT == if enabled {
            WS_EX_TRANSPARENT
        } else {
            0
        },
        r & !WS_EX_TRANSPARENT == style & !WS_EX_TRANSPARENT,
{
    if enabled {
        let r = style | WS_EX_TRANSPARENT;
        assert(r & 0x20 == 0x20 && r & !0x20u32 == style & !0x20u32) by (bit_vector)
            requires
                r == style | 0x20,
        ;
        r
    } else {
        let r = style & !WS_EX_TRANSPARENT;
        assert(r & 0x20 == 0 && r & !0x20u32 == style & !0x20u32) by (bit_vector)
            requires
                r == style & !0x20u32,
        ;
        r
    }
}

/// A 16-bit word read as a signed value.
pub open spec fn signed16(v: int) -> int {
    if v >= 0x8000 {
        v - 0x1_0000
    } else {
        v
    }
}

/// The signed 16-bit word at bits 16 to 31 of a message parameter.
pub fn high_word_signed(p: u64) -> (r: i16)
    ensures
        r == signed16(((p / 0x1_0000) % 0x1_0000) as int),
{
    let w: u64 = (p >> 16) & 0xFFFF;
    assert(w == (p / 0x1_0000) % 0x1_0000) by (bit_vector)
        requires
            w == (p >> 16) & 0xFFFF,
    ;
    to_signed16(w as u16)
}

/// The signed 16-bit word at bits 0 to 15 of a message parameter.
pub fn low_word_signed(p: u64) -> (r: i16)
    ensures
        r == signed16((p % 0x1_0000) as int),
{
    let w: u64 = p & 0xFFFF;
    assert(w == p % 0x1_0000) by (bit_vector)
        requires
            w == p & 0xFFFF,
    ;
    to_signed16(w as u16)
}

fn to_signed16(w: u16) -> (r: i16)
    ensures
        r == signed16(w as int),
{
    if w >= 0x8000 {
        (w as i32 - 0x1_0000) as i16
    } else {
        w as i16
    }
}

/// The wheel turn of a mouse-wheel message (its `wparam`) and the cursor position (its
/// `lparam`), as the pinned window reads them: positive turns zoom in.
pub fn wheel_event(wparam: u64, lparam: u64) -> (r: (i16, i16, i16))
    ensures
        r.0 == signed16(((wparam / 0x1_0000) % 0x1_0000) as int),
        r.1 == signed16((lparam % 0x1_0000) as int),
        r.2 == signed16(((lparam / 0x1_0000) % 0x1_0000) as int),
{
    (high_word_signed(wparam), low_word_signed(lparam), high_word_signed(lparam))
}

/// Where the pinned window goes: the requested corner moved out by the frame margin.
pub fn pin_window_origin(x: i32, y: i32) -> (r: (i32, i32))
    requires
        x - PIN_GLOW_MARGIN >= i32::MIN,
        y - PIN_GLOW_MARGIN >= i32::MIN,
    ensures
        r.0 == x - PIN_GLOW_MARGIN,
        r.1 == y - PIN_GLOW_MARGIN,
{
    (x - PIN_GLOW_MARGIN as i32, y - PIN_GLOW_MARGIN as i32)
}

} // verus!
