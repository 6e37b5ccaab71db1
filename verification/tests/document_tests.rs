use falconshot::annotation::AnnotationDocument;

#[derive(Debug, Clone, PartialEq)]
struct Box2 {
    x: i32,
    y: i32,
    w: i32,
    h: i32,
}

#[derive(Debug, Clone, Default)]
struct Pen {
    _width: u32,
}

fn test_rect() -> Box2 {
    Box2 { x: 10, y: 10, w: 100, h: 50 }
}

fn hits(b: &Box2, px: f32, py: f32, tol: f32) -> bool {
    px >= b.x as f32 - tol && px <= (b.x + b.w) as f32 + tol && py >= b.y as f32 - tol && py <= (b.y + b.h) as f32 + tol
}

#[test]
fn test_add_and_count() {
    let mut doc: AnnotationDocument<Box2, Pen> = AnnotationDocument::new();
    assert_eq!(doc.object_count(), 0);
    doc.add_object(test_rect());
    assert_eq!(doc.object_count(), 1);
}

#[test]
fn test_undo_redo() {
    let mut doc: AnnotationDocument<Box2, Pen> = AnnotationDocument::new();
    doc.add_object(test_rect());
    assert!(doc.can_undo());
    assert!(!doc.can_redo());

    assert!(doc.undo());
    assert_eq!(doc.object_count(), 0);
    assert!(!doc.can_undo());

    assert!(doc.redo());
    assert_eq!(doc.object_count(), 1);
}

#[test]
fn test_undo_empty() {
    let mut doc: AnnotationDocument<Box2, Pen> = AnnotationDocument::new();
    assert!(!doc.undo());
}

#[test]
fn test_remove_object() {
    let mut doc: AnnotationDocument<Box2, Pen> = AnnotationDocument::new();
    doc.add_object(test_rect());
    doc.add_object(test_rect());
    assert_eq!(doc.object_count(), 2);

    let removed = doc.remove_object(0);
    assert!(removed.is_some());
    assert_eq!(doc.object_count(), 1);
}

#[test]
fn test_remove_out_of_bounds() {
    let mut doc: AnnotationDocument<Box2, Pen> = AnnotationDocument::new();
    assert!(doc.remove_object(5).is_none());
}

#[test]
fn document_test_clear() {
    let mut doc: AnnotationDocument<Box2, Pen> = AnnotationDocument::new();
    doc.add_object(test_rect());
    doc.add_object(test_rect());
    doc.clear();
    assert_eq!(doc.object_count(), 0);
    assert!(!doc.can_undo());
    assert!(!doc.can_redo());
}

#[test]
fn test_hit_test() {
    let mut doc: AnnotationDocument<Box2, Pen> = AnnotationDocument::new();
    doc.add_object(test_rect());
    assert_eq!(doc.hit_test_with(|o| hits(o, 50.0, 30.0, 5.0)), Some(0));
    assert_eq!(doc.hit_test_with(|o| hits(o, 200.0, 200.0, 5.0)), None);
}

#[test]
fn undo_then_redo_restores_objects() {
    let mut doc: AnnotationDocument<Box2, Pen> = AnnotationDocument::new();
    doc.add_object(Box2 { x: 1, y: 1, w: 1, h: 1 });
    doc.add_object(Box2 { x: 2, y: 2, w: 2, h: 2 });
    let before = doc.objects.clone();
    assert!(doc.undo());
    assert!(doc.redo());
    assert_eq!(doc.objects, before);
}

#[test]
fn adding_drops_the_redo_stack() {
    let mut doc: AnnotationDocument<Box2, Pen> = AnnotationDocument::new();
    doc.add_object(test_rect());
    doc.undo();
    assert!(doc.can_redo());
    doc.add_object(test_rect());
    assert!(!doc.can_redo());
}

#[test]
fn hit_test_prefers_topmost() {
    let mut doc: AnnotationDocument<Box2, Pen> = AnnotationDocument::new();
    doc.add_object(Box2 { x: 0, y: 0, w: 100, h: 100 });
    doc.add_object(Box2 { x: 10, y: 10, w: 20, h: 20 });
    assert_eq!(doc.hit_test_with(|o| hits(o, 15.0, 15.0, 0.0)), Some(1));
    assert_eq!(doc.hit_test_with(|o| hits(o, 90.0, 90.0, 0.0)), Some(0));
}
