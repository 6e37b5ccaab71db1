use falconshot::clipboard::{clipboard_text, content_kind, wide_text, ClipboardContent};
use falconshot::color::PixelColor;
use falconshot::pin_window::{pin_ex_style, pin_window_origin, wheel_event, with_passthrough, WS_EX_LAYERED, WS_EX_TOPMOST, WS_EX_TRANSPARENT};
use falconshot::pixels::{apply_mosaic, gray_range, GrayImage, RgbaImage};
use falconshot::floating::WindowRegistry;
use falconshot::overlay::{OverlayEvent, OverlayState, VK_ESCAPE, VK_RETURN};
use falconshot::platform::{
    finish_selection, monitor_layout, window_info_from, OverlayResult, WindowsClipboardBackend, MONITORINFOF_PRIMARY,
};
use falconshot::transform::{flip_horizontal, flip_vertical, rotate_90};

fn sample(w: u32, h: u32) -> RgbaImage {
    let mut img = RgbaImage::new(w, h);
    for y in 0..h {
        for x in 0..w {
            img.put_pixel(x, y, PixelColor::new((x * 37 + y * 11) as u8, (x * 5) as u8, (y * 29) as u8, (x + y) as u8));
        }
    }
    img
}

#[test]
fn clipboard_text_round_trip() {
    let units = wide_text("héllo 😀");
    assert_eq!(units.last(), Some(&0));
    assert_eq!(units.len(), "héllo 😀".encode_utf16().count() + 1);
    assert_eq!(clipboard_text(&units, units.len() * 2), "héllo 😀");
    assert_eq!(clipboard_text(&[104, 105, 0, 120], 8), "hi");
    assert_eq!(clipboard_text(&[104, 105, 106], 4), "hi");
    assert_eq!(clipboard_text(&[0xD800, 0x41], 4), "\u{FFFD}A");
}

#[test]
fn clipboard_kinds() {
    assert!(matches!(content_kind(true, true), ClipboardContent::Image));
    assert!(matches!(content_kind(false, true), ClipboardContent::Text));
    assert!(matches!(content_kind(false, false), ClipboardContent::Empty));
    assert_eq!(WindowsClipboardBackend::new().refusal(), "Clipboard not supported on this platform");
}

#[test]
fn pin_window_styles_and_wheel() {
    assert_eq!(pin_ex_style(false), WS_EX_LAYERED | WS_EX_TOPMOST);
    assert_eq!(pin_ex_style(true), WS_EX_LAYERED | WS_EX_TOPMOST | WS_EX_TRANSPARENT);
    assert_eq!(with_passthrough(0x0008_0008, true), 0x0008_0028);
    assert_eq!(with_passthrough(0x0008_0028, false), 0x0008_0008);
    // A wheel turn of -120 at (-5, 300).
    let wparam: u64 = ((-120i16 as u16 as u64) << 16) | 0x0008;
    let lparam: u64 = ((300u16 as u64) << 16) | (-5i16 as u16 as u64);
    assert_eq!(wheel_event(wparam, lparam), (-120, -5, 300));
    assert_eq!(pin_window_origin(100, -20), (90, -30));
}

#[test]
fn gray_levels_range() {
    let g = GrayImage::from_raw(3, 1, vec![40, 7, 200]).unwrap();
    assert_eq!(gray_range(&g), (7, 200));
    let empty = GrayImage::from_raw(0, 0, vec![]).unwrap();
    assert_eq!(gray_range(&empty), (255, 0));
}

#[test]
fn mosaic_twice_equals_once() {
    let mut once = sample(7, 5);
    apply_mosaic(&mut once, 1, 1, 5, 10, 2);
    let mut twice = once.as_raw().clone();
    let mut again = RgbaImage::from_raw(7, 5, std::mem::take(&mut twice)).unwrap();
    apply_mosaic(&mut again, 1, 1, 5, 10, 2);
    assert_eq!(again.as_raw(), once.as_raw());
}

#[test]
fn turning_and_mirroring_undo_themselves() {
    let img = sample(4, 3);
    let four = rotate_90(&rotate_90(&rotate_90(&rotate_90(&img))));
    assert_eq!(four.as_raw(), img.as_raw());
    assert_eq!(flip_horizontal(&flip_horizontal(&img)).as_raw(), img.as_raw());
    assert_eq!(flip_vertical(&flip_vertical(&img)).as_raw(), img.as_raw());
}

#[test]
fn clipboard_gets_dib_and_png() {
    let img = sample(3, 2);
    let p = falconshot::clipboard::image_payloads(&img).unwrap();
    assert_eq!(p.dib, falconshot::pixels::encode_dib24(&img));
    let back = image::load_from_memory(&p.png).unwrap().to_rgba8();
    assert_eq!(back.into_raw(), img.as_raw().clone());
}

#[test]
fn empty_image_has_no_clipboard_payloads() {
    assert!(falconshot::clipboard::image_payloads(&RgbaImage::new(0, 0)).is_none());
    assert!(falconshot::clipboard::image_payloads(&RgbaImage::new(4, 0)).is_none());
    assert!(falconshot::clipboard::image_payloads(&RgbaImage::new(1, 1)).is_some());
}

#[test]
fn finished_session_crops_the_frozen_frame() {
    let mut data = Vec::new();
    for y in 0..6u8 {
        for x in 0..8u8 {
            data.extend_from_slice(&[x, y, 0, 255]);
        }
    }
    let frozen = RgbaImage::from_raw(8, 6, data).unwrap();
    let mut s = OverlayState::new();
    s.handle_event(OverlayEvent::LeftDown { x: 5, y: 2 }, 8, 6);
    s.handle_event(OverlayEvent::MouseMove { x: 12, y: 5 }, 8, 6);
    s.handle_event(OverlayEvent::LeftUp, 8, 6);
    s.handle_event(OverlayEvent::KeyDown { vk: VK_RETURN }, 8, 6);
    match finish_selection(&s, &frozen, -100, 20) {
        OverlayResult::Selected(rect, img) => {
            assert_eq!((rect.x, rect.y, rect.width, rect.height), (-95, 22, 3, 3));
            assert_eq!(img.dimensions(), (3, 3));
            assert_eq!(img.get_pixel(2, 2), PixelColor::new(7, 4, 0, 255));
            assert_eq!(img.get_pixel(0, 0), PixelColor::new(5, 2, 0, 255));
            assert_eq!(img.get_pixel(2, 1), PixelColor::new(7, 3, 0, 255));
        }
        OverlayResult::Cancelled => panic!("a confirmed selection must be captured"),
    }
    let mut c = OverlayState::new();
    c.handle_event(OverlayEvent::LeftDown { x: 1, y: 1 }, 8, 6);
    c.handle_event(OverlayEvent::MouseMove { x: 4, y: 4 }, 8, 6);
    c.handle_event(OverlayEvent::LeftUp, 8, 6);
    c.handle_event(OverlayEvent::KeyDown { vk: VK_ESCAPE }, 8, 6);
    assert!(matches!(finish_selection(&c, &frozen, 0, 0), OverlayResult::Cancelled));
}

#[test]
fn window_registry_keeps_one_window_per_id() {
    let mut r: WindowRegistry<u32> = WindowRegistry::new();
    assert_eq!(r.insert("a", 1), None);
    assert_eq!(r.insert("b", 2), None);
    assert_eq!(r.insert("a", 3), Some(1));
    assert_eq!(r.len(), 2);
    assert_eq!(r.id_at(0), "a");
    assert_eq!(*r.window_at(0), 3);
    assert_eq!(r.get("b"), Some(&2));
    *r.window_at_mut(1) += 10;
    assert_eq!(r.get("b"), Some(&12));
    assert_eq!(r.remove("a"), Some(3));
    assert_eq!(r.get("a"), None);
    assert_eq!(r.len(), 1);
    assert_eq!(r.position("b"), Some(0));
    assert_eq!(r.remove("zz"), None);
    assert_eq!(r.len(), 1);
}

#[test]
fn listed_windows_need_a_title() {
    let title = wide_text("Notepad");
    let class = wide_text("Edit");
    let (title, class) = (&title[..title.len() - 1], &class[..class.len() - 1]);
    let w = window_info_from(42, title, class, -10, 20, 790, 620, true).unwrap();
    assert_eq!(w.id, 42);
    assert_eq!(w.title, "Notepad");
    assert_eq!(w.class_name, "Edit");
    assert_eq!((w.bounds.x, w.bounds.y, w.bounds.width, w.bounds.height), (-10, 20, 800, 600));
    assert!(w.is_visible);
    assert!(w.is_minimized);
    assert!(window_info_from(7, &[], class, 0, 0, 10, 10, false).is_none());
}

#[test]
fn listed_monitor_layout() {
    let mut device = wide_text("\\\\.\\DISPLAY1");
    device.extend_from_slice(&[0, 0, 65, 66]);
    let m = monitor_layout(1, &device, (-1920, 0, 0, 1080), (-1920, 0, 0, 1040), MONITORINFOF_PRIMARY);
    assert_eq!(m.index, 1);
    assert_eq!(m.name, "\\\\.\\DISPLAY1");
    assert_eq!((m.bounds.x, m.bounds.y, m.bounds.width, m.bounds.height), (-1920, 0, 1920, 1080));
    assert_eq!((m.work_area.width, m.work_area.height), (1920, 1040));
    assert!(m.is_primary);
    let other = monitor_layout(0, &[68, 0], (0, 0, 800, 600), (0, 0, 800, 560), 0);
    assert_eq!(other.name, "D");
    assert!(!other.is_primary);
}
