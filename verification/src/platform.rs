use vstd::prelude::*;

use crate::clipboard::{decode_utf16_lossy, text_before_nul, units_before_nul, utf16_lossy};
use crate::geometry::{fits_i32, trunc_half, Rect, WindowInfo};
use crate::overlay::{coord_ok, OverlayState};
use crate::pixels::{in_image, RgbaImage};
use crate::transform::crop;

verus! {

/// Why screen capture is refused away from Windows.
pub const CAPTURE_UNAVAILABLE: &'static str = "WindowsCaptureBackend is only available on Windows";

/// What every capture, clipboard and pinned-window operation answers away from Windows.
pub const PLATFORM_UNSUPPORTED: &'static str = "Not supported on this platform";

/// What every clipboard operation answers away from Windows.
pub const CLIPBOARD_UNSUPPORTED: &'static str = "Clipboard not supported on this platform";

/// Why the capture overlay is refused away from Windows.
pub const OVERLAY_UNAVAILABLE: &'static str = "Overlay is only available on Windows";

/// Screen capture through the Windows GDI; away from Windows it cannot be made.
pub struct WindowsCaptureBackend;

impl WindowsCaptureBackend {
    pub fn new() -> (r: Result<Self, String>)
        ensures
            r matches Err(e) && e@ == CAPTURE_UNAVAILABLE@,
    {
        Err(String::from_str(CAPTURE_UNAVAILABLE))
    }
}

/// The clipboard of Windows; away from Windows every operation is refused.
pub struct WindowsClipboardBackend;

impl WindowsClipboardBackend {
    pub fn new() -> (r: Self) {
        WindowsClipboardBackend
    }

    /// The answer every clipboard operation gives here.
    pub fn refusal(&self) -> (r: String)
        ensures
            r@ == CLIPBOARD_UNSUPPORTED@,
    {
        String::from_str(CLIPBOARD_UNSUPPORTED)
    }
}

/// How a region-selection session ended.
pub enum OverlayResult {
    /// The selected region in screen coordinates and the pixels under it.
    Selected(Rect, RgbaImage),
    Cancelled,
}

/// The full-screen capture overlay of Windows; away from Windows it refuses to open.
pub struct WindowsOverlay;

impl WindowsOverlay {
    pub fn new() -> (r: Self) {
        WindowsOverlay
    }

    pub fn show_and_select(&mut self) -> (r: Result<OverlayResult, String>)
        ensures
            r matches Err(e) && e@ == OVERLAY_UNAVAILABLE@,
    {
        Err(String::from_str(OVERLAY_UNAVAILABLE))
    }
}

/// What a finished overlay session hands back: the confirmed selection cut out of the frame
/// frozen when the session began (whose top-left corner sits at `(vx, vy)` on the virtual
/// screen), or `Cancelled` when nothing was confirmed or nothing of it lies on the frame.
pub fn finish_selection(state: &OverlayState, frozen: &RgbaImage, vx: i32, vy: i32) -> (r: OverlayResult)
    requires
        state.bounded(),
        frozen.wf(),
        coord_ok(vx as int),
        coord_ok(vy as int),
    ensures
        match state.result_spec(frozen.width_spec() as int, frozen.height_spec() as int, vx as int, vy as int) {
            Some(s) => r matches OverlayResult::Selected(rect, img) && rect == s.rect && img.wf()
                && img.width_spec() == s.crop_w && img.height_spec() == s.crop_h && forall|i: int, j: int|
                in_image(s.crop_w as int, s.crop_h as int, i, j) ==> #[trigger] img.pixel(i, j) == frozen.pixel(
                s.crop_x + i,
                s.crop_y + j,
            ),
            None => r is Cancelled,
        },
{
    let (fw, fh) = frozen.dimensions();
    match state.result(fw, fh, vx, vy) {
        Some(s) => {
            let img = crop(frozen, s.crop_x, s.crop_y, s.crop_w, s.crop_h);
            OverlayResult::Selected(s.rect, img)
        },
        None => OverlayResult::Cancelled,
    }
}

/// A rectangle given by its edges, as Windows reports monitors and windows: the size is the
/// difference of the edges taken as unsigned.
pub fn rect_from_edges(left: i32, top: i32, right: i32, bottom: i32) -> (r: Rect)
    requires
        fits_i32(right - left),
        fits_i32(bottom - top),
    ensures
        r.x == left,
        r.y == top,
        r.width == (right - left) as u32,
        r.height == (bottom - top) as u32,
{
    Rect {
        x: left,
        y: top,
        width: #[verifier::truncate] ((right - left) as u32),
        height: #[verifier::truncate] ((bottom - top) as u32),
    }
}

/// The entry listed for a visible top-level window with title code units `title`, class name
/// code units `class` and frame edges `left`, `top`, `right`, `bottom`; untitled windows are
/// left out.
pub fn window_info_from(
    id: u64,
    title: &[u16],
    class: &[u16],
    left: i32,
    top: i32,
    right: i32,
    bottom: i32,
    minimized: bool,
) -> (r: Option<WindowInfo>)
    requires
        fits_i32(right - left),
        fits_i32(bottom - top),
    ensures
        utf16_lossy(title@).len() == 0 ==> r is None,
        utf16_lossy(title@).len() != 0 ==> (r matches Some(w) && w.id == id && w.title@ == utf16_lossy(title@)
            && w.class_name@ == utf16_lossy(class@) && w.bounds.x == left && w.bounds.y == top && w.bounds.width
            == (right - left) as u32 && w.bounds.height == (bottom - top) as u32 && w.is_visible
            && w.is_minimized == minimized),
{
    let title_text = decode_utf16_lossy(title);
    if title_text.as_str().is_empty() {
        return None;
    }
    let class_name = decode_utf16_lossy(class);
    Some(
        WindowInfo {
            id,
            title: title_text,
            class_name,
            bounds: rect_from_edges(left, top, right, bottom),
            is_visible: true,
            is_minimized: minimized,
        },
    )
}

/// `MONITORINFOF_PRIMARY`: the flag Windows sets on the primary monitor.
pub const MONITORINFOF_PRIMARY: u32 = 1;

/// A monitor as Windows lists it, all but its scale factor: its position in the list, its
/// device name, its bounds and work area, and whether it is the primary one.
pub struct MonitorLayout {
    pub index: usize,
    pub name: String,
    pub bounds: Rect,
    pub work_area: Rect,
    pub is_primary: bool,
}

/// The monitor at `index` in the list, from its NUL-terminated device name, the edges of
/// its bounds and of its work area, and its flags.
pub fn monitor_layout(
    index: usize,
    device: &[u16],
    bounds: (i32, i32, i32, i32),
    work: (i32, i32, i32, i32),
    flags: u32,
) -> (r: MonitorLayout)
    requires
        fits_i32(bounds.2 - bounds.0),
        fits_i32(bounds.3 - bounds.1),
        fits_i32(work.2 - work.0),
        fits_i32(work.3 - work.1),
    ensures
        r.index == index,
        r.name@ == utf16_lossy(device@.take(units_before_nul(device@, device@.len() as int))),
        r.bounds.x == bounds.0 && r.bounds.y == bounds.1,
        r.bounds.width == (bounds.2 - bounds.0) as u32 && r.bounds.height == (bounds.3 - bounds.1) as u32,
        r.work_area.x == work.0 && r.work_area.y == work.1,
        r.work_area.width == (work.2 - work.0) as u32 && r.work_area.height == (work.3 - work.1) as u32,
        r.is_primary == (flags & MONITORINFOF_PRIMARY != 0),
{
    MonitorLayout {
        index,
        name: text_before_nul(device, device.len()),
        bounds: rect_from_edges(bounds.0, bounds.1, bounds.2, bounds.3),
        work_area: rect_from_edges(work.0, work.1, work.2, work.3),
        is_primary: flags & MONITORINFOF_PRIMARY != 0,
    }
}

/// The index of the first `true` in `s`.
pub open spec fn first_true(s: Seq<bool>) -> Option<int>
    decreases s.len(),
{
    if s.len() == 0 {
        None
    } else if s[0] {
        Some(0)
    } else {
        match first_true(s.drop_first()) {
            Some(i) => Some(i + 1),
            None => None,
        }
    }
}

/// Which monitor a capture of `rect` belongs to: the first whose bounds hold the centre of
/// `rect`, else the first primary one, else the first of all; `None` when there is none.
pub open spec fn monitor_choice(rect: Rect, bounds: Seq<Rect>, primary: Seq<bool>) -> Option<int> {
    let cx = rect.x + trunc_half((rect.width as i32) as int);
    let cy = rect.y + trunc_half((rect.height as i32) as int);
    let holds = Seq::new(bounds.len(), |i: int| bounds[i].contains_spec(cx, cy));
    match first_true(holds) {
        Some(i) => Some(i),
        None => match first_true(primary) {
            Some(i) => Some(i),
            None => if bounds.len() > 0 {
                Some(0)
            } else {
                None
            },
        },
    }
}

proof fn lemma_first_true_step(s: Seq<bool>, i: int)
    requires
        0 <= i < s.len(),
        forall|k: int| 0 <= k < i ==> !s[k],
    ensures
        s[i] ==> first_true(s) == Some(i),
    decreases i,
{
    if i > 0 {
        lemma_first_true_step(s.drop_first(), i - 1);
    }
}

/// The index of the first `true` among `flags`.
fn first_set(flags: &Vec<bool>) -> (r: Option<usize>)
    ensures
        match first_true(flags@) {
            Some(i) => r == Some(i as usize),
            None => r is None,
        },
{
    let mut i: usize = 0;
    while i < flags.len()
        invariant
            i <= flags.len(),
            forall|k: int| 0 <= k < i ==> !flags@[k],
        decreases flags.len() - i,
    {
        if flags[i] {
            proof {
                lemma_first_true_step(flags@, i as int);
            }
            return Some(i);
        }
        i = i + 1;
    }
    proof {
        lemma_first_true_none(flags@);
    }
    None
}

proof fn lemma_first_true_none(s: Seq<bool>)
    requires
        forall|k: int| 0 <= k < s.len() ==> !s[k],
    ensures
        first_true(s) is None,
    decreases s.len(),
{
    if s.len() > 0 {
        lemma_first_true_none(s.drop_first());
    }
}

/// Picks the monitor for a capture of `rect` from the monitors' bounds and primary flags.
pub fn select_monitor(rect: &Rect, bounds: &Vec<Rect>, primary: &Vec<bool>) -> (r: Option<usize>)
    requires
        fits_i32(rect.x + trunc_half((rect.width as i32) as int)),
        fits_i32(rect.y + trunc_half((rect.height as i32) as int)),
        forall|i: int| 0 <= i < bounds@.len() ==> (#[trigger] bounds@[i]).edges_fit(),
    ensures
        match monitor_choice(*rect, bounds@, primary@) {
            Some(i) => r == Some(i as usize),
            None => r is None,
        },
{
    let (cx, cy) = rect.center();
    let mut holds: Vec<bool> = Vec::new();
    let mut i: usize = 0;
    while i < bounds.len()
        invariant
            i <= bounds.len(),
            forall|k: int| 0 <= k < bounds@.len() ==> (#[trigger] bounds@[k]).edges_fit(),
            holds@ == Seq::new(i as nat, |k: int| bounds@[k].contains_spec(cx as int, cy as int)),
        decreases bounds.len() - i,
    {
        let h = bounds[i].contains_point(cx, cy);
        holds.push(h);
        proof {
            assert(holds@ =~= Seq::new((i + 1) as nat, |k: int| bounds@[k].contains_spec(cx as int, cy as int)));
        }
        i = i + 1;
    }
    match first_set(&holds) {
        Some(k) => Some(k),
        None => match first_set(primary) {
            Some(k) => Some(k),
            None => if bounds.len() > 0 {
                Some(0)
            } else {
                None
            },
        },
    }
}

} // verus!
