use falconshot::overlay::{
    paint_plan, toolbar_rects, Background, CursorShape, MagnifierState, OverlayEvent, OverlayReaction, OverlayState,
    SelRect, VK_ESCAPE, VK_RETURN,
};

#[test]
fn drag_then_confirm_selects_region() {
    let mut s = OverlayState::new();
    assert_eq!(s.handle_event(OverlayEvent::LeftDown { x: 100, y: 100 }, 1920, 1080), OverlayReaction::Redraw);
    s.handle_event(OverlayEvent::MouseMove { x: 300, y: 250 }, 1920, 1080);
    s.handle_event(OverlayEvent::LeftUp, 1920, 1080);
    assert_eq!(s.sel, SelRect { l: 100, t: 100, r: 300, b: 250 });
    assert_eq!(s.handle_event(OverlayEvent::KeyDown { vk: VK_RETURN }, 1920, 1080), OverlayReaction::Finish);
    let r = s.result(1920, 1080, -1920, 0).unwrap();
    assert_eq!((r.crop_x, r.crop_y, r.crop_w, r.crop_h), (100, 100, 200, 150));
    assert_eq!((r.rect.x, r.rect.y), (-1820, 100));
}

#[test]
fn escape_cancels() {
    let mut s = OverlayState::new();
    s.handle_event(OverlayEvent::LeftDown { x: 10, y: 10 }, 800, 600);
    s.handle_event(OverlayEvent::MouseMove { x: 50, y: 50 }, 800, 600);
    s.handle_event(OverlayEvent::LeftUp, 800, 600);
    assert_eq!(s.handle_event(OverlayEvent::KeyDown { vk: VK_ESCAPE }, 800, 600), OverlayReaction::Finish);
    assert!(s.result(800, 600, 0, 0).is_none());
}

#[test]
fn cursor_follows_zone() {
    let mut s = OverlayState::new();
    assert_eq!(s.cursor(800, 600), CursorShape::Cross);
    s.handle_event(OverlayEvent::LeftDown { x: 100, y: 100 }, 800, 600);
    s.handle_event(OverlayEvent::MouseMove { x: 300, y: 300 }, 800, 600);
    s.handle_event(OverlayEvent::LeftUp, 800, 600);
    s.handle_event(OverlayEvent::MouseMove { x: 200, y: 200 }, 800, 600);
    assert_eq!(s.cursor(800, 600), CursorShape::SizeAll);
}

#[test]
fn paint_plan_while_dragging_and_after() {
    let sel = SelRect { l: 100, t: 10, r: 300, b: 110 };
    let p = paint_plan(sel, true, true, 1920, 1080);
    assert_eq!(p.background, Background::DimmedFrame);
    let s = p.selection.unwrap();
    assert_eq!(s.crosshair, Some((200, 60)));
    assert!(s.handles.is_empty());
    assert!(s.toolbar.is_none());
    assert_eq!(s.label, "200 x 100");
    assert_eq!((s.label_x, s.label_y), (100, 114));

    let p = paint_plan(sel, false, false, 1920, 1080);
    assert_eq!(p.background, Background::Dark);
    let s = p.selection.unwrap();
    assert!(!s.bright_inside);
    assert_eq!(s.handles.len(), 4);
    assert_eq!(s.handles[3], SelRect { l: 296, t: 106, r: 304, b: 114 });
    assert_eq!(s.toolbar, Some(toolbar_rects(sel, 1920, 1080)));

    let empty = paint_plan(SelRect { l: 5, t: 5, r: 5, b: 9 }, false, true, 1920, 1080);
    assert!(empty.selection.is_none());
}

#[test]
fn magnifier_colour() {
    let mut m = MagnifierState::new();
    assert_eq!(m.hex_color(), "#000000");
    m.pixel_color = [0xAB, 0x01, 0xFF, 0];
    assert_eq!(m.hex_color(), "#AB01FF");
}
