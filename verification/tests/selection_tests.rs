use falconshot::geometry::Rect;
use falconshot::selection::{DragHandle, SelectionModel};

fn dragged(x1: i32, y1: i32, x2: i32, y2: i32) -> SelectionModel {
    let mut sel = SelectionModel::new(0, 0);
    sel.start_drag(x1, y1);
    sel.update_drag(x2, y2);
    sel.end_drag();
    sel
}

#[test]
fn test_new_selection() {
    let sel = SelectionModel::new(100, 200);
    assert_eq!(sel.rect, Rect::new(100, 200, 0, 0));
    assert!(!sel.is_valid());
}

#[test]
fn test_drag_creates_rect() {
    let mut sel = SelectionModel::new(100, 100);
    sel.start_drag(100, 100);
    sel.update_drag(200, 150);
    assert_eq!(sel.rect, Rect::new(100, 100, 100, 50));
    assert!(sel.is_valid());
}

#[test]
fn test_drag_negative_direction() {
    let mut sel = SelectionModel::new(200, 200);
    sel.start_drag(200, 200);
    sel.update_drag(100, 150);
    assert_eq!(sel.rect, Rect::new(100, 150, 100, 50));
}

#[test]
fn test_hit_test_corners() {
    let sel = dragged(100, 100, 300, 300);
    assert_eq!(sel.hit_test_handle(100, 100), Some(DragHandle::TopLeft));
    assert_eq!(sel.hit_test_handle(300, 100), Some(DragHandle::TopRight));
    assert_eq!(sel.hit_test_handle(100, 300), Some(DragHandle::BottomLeft));
    assert_eq!(sel.hit_test_handle(300, 300), Some(DragHandle::BottomRight));
}

#[test]
fn test_hit_test_edges() {
    let sel = dragged(100, 100, 300, 300);
    assert_eq!(sel.hit_test_handle(200, 100), Some(DragHandle::Top));
    assert_eq!(sel.hit_test_handle(200, 300), Some(DragHandle::Bottom));
    assert_eq!(sel.hit_test_handle(100, 200), Some(DragHandle::Left));
    assert_eq!(sel.hit_test_handle(300, 200), Some(DragHandle::Right));
}

#[test]
fn test_hit_test_move() {
    let sel = dragged(100, 100, 300, 300);
    assert_eq!(sel.hit_test_handle(200, 200), Some(DragHandle::Move));
    assert_eq!(sel.hit_test_handle(50, 50), None);
}

#[test]
fn test_resize_bottom_right() {
    let mut sel = dragged(100, 100, 300, 300);
    sel.start_resize(DragHandle::BottomRight, 300, 300);
    sel.update_resize(400, 350);
    assert_eq!(sel.rect, Rect::new(100, 100, 300, 250));
}

#[test]
fn test_resize_top_left() {
    let mut sel = dragged(100, 100, 300, 300);
    sel.start_resize(DragHandle::TopLeft, 100, 100);
    sel.update_resize(50, 50);
    assert_eq!(sel.rect, Rect::new(50, 50, 250, 250));
}

#[test]
fn test_move() {
    let mut sel = dragged(100, 100, 200, 200);
    sel.start_resize(DragHandle::Move, 150, 150);
    sel.update_resize(180, 170);
    assert_eq!(sel.rect, Rect::new(130, 120, 100, 100));
}

#[test]
fn test_clamp_to_bounds() {
    let mut sel = dragged(-50, -50, 2000, 2000);
    let bounds = Rect::new(0, 0, 1920, 1080);
    sel.clamp_to_bounds(&bounds);
    assert_eq!(sel.rect, Rect::new(0, 0, 1920, 1080));
}

#[test]
fn clamp_of_inside_selection_changes_nothing() {
    let mut sel = dragged(10, 20, 110, 220);
    let before = sel.rect;
    sel.clamp_to_bounds(&Rect::new(0, 0, 1920, 1080));
    assert_eq!(sel.rect, before);
}

#[test]
fn move_keeps_size_on_example() {
    let mut sel = dragged(100, 100, 250, 180);
    sel.start_resize(DragHandle::Move, 120, 120);
    sel.update_resize(-40, 500);
    assert_eq!((sel.rect.width, sel.rect.height), (150, 80));
}
