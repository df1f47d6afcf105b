use dungeon_core::rect::Rect;

#[test]
fn rect_center_rounds_down() {
    let r = Rect::new(2, 3, 6, 7);
    assert_eq!((r.x1, r.y1, r.x2, r.y2), (2, 3, 8, 10));
    assert_eq!(r.center(), (5, 6));
    let s = Rect::new(0, 0, 7, 7);
    assert_eq!(s.center(), (3, 3));
}

#[test]
fn rect_intersection_is_inclusive() {
    let a = Rect::new(0, 0, 4, 4);
    let b = Rect::new(4, 4, 4, 4);
    // They share the corner cell (4, 4).
    assert!(a.intersects_with(&b));
    assert!(b.intersects_with(&a));
    let c = Rect::new(5, 0, 3, 3);
    assert!(!a.intersects_with(&c));
    assert!(!c.intersects_with(&a));
}

#[test]
fn rect_contains_itself() {
    let a = Rect::new(10, 10, 6, 6);
    assert!(a.intersects_with(&a));
}
