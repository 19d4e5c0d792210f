use ballsim::Bounds;
use ballsim::Point;

#[test]
fn bounds_from_corners() {
    let bounds = Bounds::new(Point::new(5, 5), 10, 10);
    assert_eq!(Bounds::from_corners(Point::new(0, 0), Point::new(10, 10)), bounds);
    assert_eq!(Bounds::from_corners(Point::new(0, 10), Point::new(10, 0)), bounds);
}

#[test]
fn bounds_contains_point() {
    let bounds = Bounds::new(Point::new(0, 0), 4, 4);
    assert!(bounds.contains(Point::new(2, 2)));
    assert!(bounds.contains(Point::new(-2, -2)));
    assert!(!bounds.contains(Point::new(10, 10)));
}

#[test]
fn bounds_contains_is_inclusive_on_all_edges() {
    let bounds = Bounds::from_corners(Point::new(0, 0), Point::new(10, 10));
    assert!(bounds.contains(Point::new(0, 5)));
    assert!(bounds.contains(Point::new(10, 5)));
    assert!(bounds.contains(Point::new(5, 0)));
    assert!(bounds.contains(Point::new(5, 10)));
    assert!(bounds.contains(Point::new(0, 0)));
    assert!(bounds.contains(Point::new(10, 10)));
    assert!(!bounds.contains(Point::new(-1, 5)));
    assert!(!bounds.contains(Point::new(11, 5)));
    assert!(!bounds.contains(Point::new(5, -1)));
    assert!(!bounds.contains(Point::new(5, 11)));
}

#[test]
fn bounds_edges_and_corners() {
    let bounds = Bounds::from_corners(Point::new(-4, -2), Point::new(8, 6));
    assert_eq!(bounds.left(), -4);
    assert_eq!(bounds.right(), 8);
    assert_eq!(bounds.bottom(), -2);
    assert_eq!(bounds.top(), 6);
    assert_eq!(bounds.width(), 12);
    assert_eq!(bounds.height(), 8);
    assert_eq!(bounds.center(), Point::new(2, 2));
    assert_eq!(bounds.min(), Point::new(-4, -2));
    assert_eq!(bounds.max(), Point::new(8, 6));
    assert_eq!(bounds.top_left(), Point::new(-4, 6));
    assert_eq!(bounds.top_right(), Point::new(8, 6));
    assert_eq!(bounds.bottom_left(), Point::new(-4, -2));
    assert_eq!(bounds.bottom_right(), Point::new(8, -2));
}

#[test]
fn bounds_intersects_by_corner_containment() {
    let bounds = Bounds::from_corners(Point::new(0, 0), Point::new(10, 10));
    // a corner of the area lies inside
    assert!(bounds.intersects(Bounds::from_corners(Point::new(5, 5), Point::new(15, 15))));
    // fully inside
    assert!(bounds.intersects(Bounds::from_corners(Point::new(2, 2), Point::new(4, 4))));
    // fully outside
    assert!(!bounds.intersects(Bounds::from_corners(Point::new(20, 20), Point::new(30, 30))));
    // the area covers the bounds entirely: no corner of the area is inside,
    // so the corner-containment approximation reports no intersection
    assert!(!bounds.intersects(Bounds::from_corners(Point::new(-5, -5), Point::new(15, 15))));
}
