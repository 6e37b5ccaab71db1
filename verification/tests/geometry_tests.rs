use falconshot::geometry::{CaptureOptions, Rect};

#[test]
fn rect_new() {
    let r = Rect::new(10, 20, 100, 200);
    assert_eq!(r.x, 10);
    assert_eq!(r.y, 20);
    assert_eq!(r.width, 100);
    assert_eq!(r.height, 200);
}

#[test]
fn rect_is_empty() {
    assert!(Rect::new(0, 0, 0, 100).is_empty());
    assert!(Rect::new(0, 0, 100, 0).is_empty());
    assert!(!Rect::new(0, 0, 1, 1).is_empty());
}

#[test]
fn rect_right_bottom() {
    let r = Rect::new(-100, -50, 300, 200);
    assert_eq!(r.right(), 200);
    assert_eq!(r.bottom(), 150);
}

#[test]
fn rect_center() {
    let r = Rect::new(0, 0, 100, 200);
    assert_eq!(r.center(), (50, 100));

    let r2 = Rect::new(-100, -100, 200, 200);
    assert_eq!(r2.center(), (0, 0));
}

#[test]
fn rect_contains_point() {
    let r = Rect::new(10, 10, 100, 100);
    assert!(r.contains_point(10, 10));
    assert!(r.contains_point(50, 50));
    assert!(r.contains_point(109, 109));
    assert!(!r.contains_point(110, 110));
    assert!(!r.contains_point(9, 10));
    assert!(!r.contains_point(10, 9));
}

#[test]
fn rect_contains_point_negative_coords() {
    let r = Rect::new(-1920, -1080, 1920, 1080);
    assert!(r.contains_point(-1920, -1080));
    assert!(r.contains_point(-1, -1));
    assert!(!r.contains_point(0, 0));
    assert!(!r.contains_point(-1921, -1080));
}

#[test]
fn rect_intersects() {
    let a = Rect::new(0, 0, 100, 100);
    let b = Rect::new(50, 50, 100, 100);
    assert!(a.intersects(&b));
    assert!(b.intersects(&a));

    let c = Rect::new(200, 200, 50, 50);
    assert!(!a.intersects(&c));

    let d = Rect::new(100, 0, 50, 50);
    assert!(!a.intersects(&d));
}

#[test]
fn rect_intersection() {
    let a = Rect::new(0, 0, 100, 100);
    let b = Rect::new(50, 50, 100, 100);
    let inter = a.intersection(&b).unwrap();
    assert_eq!(inter, Rect::new(50, 50, 50, 50));

    let c = Rect::new(200, 200, 50, 50);
    assert!(a.intersection(&c).is_none());
}

#[test]
fn rect_intersection_negative_coords() {
    let a = Rect::new(-100, -100, 200, 200);
    let b = Rect::new(0, 0, 200, 200);
    let inter = a.intersection(&b).unwrap();
    assert_eq!(inter, Rect::new(0, 0, 100, 100));
}

#[test]
fn capture_options_default() {
    let opts = CaptureOptions::default();
    assert!(opts.region.is_none());
    assert!(opts.monitor_index.is_none());
    assert!(!opts.include_cursor);
    assert!(opts.exclude_self);
}

#[test]
fn intersection_is_symmetric_on_example() {
    let a = Rect::new(-30, 5, 70, 40);
    let b = Rect::new(10, -20, 100, 50);
    assert_eq!(a.intersection(&b), b.intersection(&a));
    assert_eq!(a.intersects(&b), b.intersects(&a));
}
