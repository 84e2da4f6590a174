use pixels::geo::{Point, Rect};

#[test]
fn rect_intersect() {
    let rect_size = Point::new(10, 10);
    let r1 = Rect::new(rect_size, rect_size.add(rect_size));

    // Test intersection between equal-sized rectangles
    for y in 0..3 {
        for x in 0..3 {
            let x = x * 5 + 5;
            let y = y * 5 + 5;

            let r2 = Rect::new(Point::new(x, y), Point::new(x, y).add(rect_size));

            assert!(r1.intersects(r2), "Should intersect");
            assert!(r2.intersects(r1), "Should intersect");
        }
    }

    // Test non-intersections
    for y in 0..3 {
        for x in 0..3 {
            if x == 1 && y == 1 {
                continue;
            }

            let x = x * 10;
            let y = y * 10;

            let r2 = Rect::new(Point::new(x, y), Point::new(x, y).add(rect_size));

            assert!(!r1.intersects(r2), "Should not intersect");
            assert!(!r2.intersects(r1), "Should not intersect");
        }
    }

    // Test intersection between different-sized rectangles
    let r2 = Rect::new(Point::new(0, 0), Point::new(30, 30));

    assert!(r1.intersects(r2), "Should intersect");
    assert!(r2.intersects(r1), "Should intersect");
}

#[test]
fn point_add_and_mul() {
    let p = Point::new(3, 4).add(Point::new(10, 20));
    assert_eq!(p, Point::new(13, 24));
    let q = Point::new(3, 4).mul(Point::new(16, 16));
    assert_eq!(q, Point::new(48, 64));
}

#[test]
fn rect_bounds_are_css_order() {
    let r = Rect::new(Point::new(1, 2), Point::new(30, 40));
    assert_eq!(r.get_bounds(), (2, 30, 40, 1));
}

#[test]
fn rect_touching_edges_do_not_intersect() {
    let a = Rect::new(Point::new(0, 0), Point::new(10, 10));
    let b = Rect::new(Point::new(10, 0), Point::new(20, 10));
    assert!(!a.intersects(b));
    assert!(!b.intersects(a));
    let c = Rect::new(Point::new(9, 9), Point::new(20, 20));
    assert!(a.intersects(c));
    assert!(c.intersects(a));
}

#[test]
fn rect_intersects_itself() {
    let a = Rect::new(Point::new(5, 6), Point::new(7, 9));
    assert!(a.intersects(a));
    let empty = Rect::new(Point::new(5, 6), Point::new(5, 9));
    assert!(!empty.intersects(empty));
}
