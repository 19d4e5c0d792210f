use ballsim::Bounds;
use ballsim::ErrorKind;
use ballsim::Location;
use ballsim::Options;
use ballsim::Point;
use ballsim::QuadTree;
use ballsim::Region;

fn arena() -> Bounds {
    Bounds::from_corners(Point::new(0, 0), Point::new(100, 100))
}

#[test]
fn insert_out_of_bounds_leaves_tree_unmodified() {
    let mut tree = QuadTree::new(arena(), Options::default());
    let probe = Location::new(Point::new(-1, -1), 0, 0);
    let result = tree.insert(probe, 7);
    assert_eq!(result, Err(ErrorKind::OutOfBounds(arena(), probe)));
    assert!(tree.is_empty());
    assert_eq!(tree.count(), 0);

    // the same failed insert on a non-empty tree changes nothing either
    let inside = Location::new(Point::new(10, 10), 0, 0);
    assert_eq!(tree.insert(inside, 1), Ok(()));
    assert_eq!(tree.insert(probe, 7), Err(ErrorKind::OutOfBounds(arena(), probe)));
    assert!(tree.is_leaf());
    assert_eq!(tree.count(), 1);
    assert_eq!(tree.elements().unwrap(), vec![(inside, 1)]);
}

#[test]
fn error_kind_as_str() {
    let err = ErrorKind::OutOfBounds(arena(), Location::Point(Point::new(-1, -1)));
    assert_eq!(err.as_str(), "out of bounds");
}

#[test]
fn region_index_order() {
    assert_eq!(Region::NorthWest.index(), 0);
    assert_eq!(Region::NorthEast.index(), 1);
    assert_eq!(Region::SouthEast.index(), 2);
    assert_eq!(Region::SouthWest.index(), 3);
}

#[test]
fn split_children_tile_the_parent() {
    let mut tree = QuadTree::new(arena(), Options::default());
    // the default capacity is 4: a fifth entry forces a split
    for (i, (x, y)) in [(10, 90), (90, 90), (90, 10), (10, 10), (30, 30)].iter().enumerate() {
        let loc = Location::new(Point::new(*x, *y), 0, 0);
        assert_eq!(tree.insert(loc, i as u64), Ok(()));
    }
    assert!(!tree.is_leaf());
    assert!(!tree.is_empty());
    let nw = tree.region(Region::NorthWest).unwrap().bounds();
    let ne = tree.region(Region::NorthEast).unwrap().bounds();
    let se = tree.region(Region::SouthEast).unwrap().bounds();
    let sw = tree.region(Region::SouthWest).unwrap().bounds();
    assert_eq!(nw, Bounds::from_corners(Point::new(0, 50), Point::new(50, 100)));
    assert_eq!(ne, Bounds::from_corners(Point::new(50, 50), Point::new(100, 100)));
    assert_eq!(se, Bounds::from_corners(Point::new(50, 0), Point::new(100, 50)));
    assert_eq!(sw, Bounds::from_corners(Point::new(0, 0), Point::new(50, 50)));
    // the quadrants cover the parent exactly, overlapping only on the
    // split lines
    assert_eq!((nw.right(), nw.bottom()), (50, 50));
    assert_eq!((sw.left(), sw.bottom()), (0, 0));
    assert_eq!((ne.right(), ne.top()), (100, 100));
    assert_eq!((se.left(), se.top()), (50, 50));
    // every entry is still found: count includes each point exactly once
    // here since none straddles a split line
    assert_eq!(tree.count(), 5);
}

#[test]
fn capacity_is_respected_where_splitting_is_possible() {
    let options = Options { capacity: 1, max_depth: None, min_size: None };
    let mut tree = QuadTree::new(arena(), options);
    for (i, (x, y)) in [(10, 10), (90, 90), (90, 10)].iter().enumerate() {
        let loc = Location::new(Point::new(*x, *y), 0, 0);
        assert_eq!(tree.insert(loc, i as u64), Ok(()));
    }
    for region in tree.regions() {
        let elems = region.elements().unwrap();
        assert!(elems.len() <= 1);
    }
    assert_eq!(tree.count(), 3);
}

#[test]
fn coincident_points_stop_splitting_at_unit_cells() {
    let options = Options { capacity: 1, max_depth: None, min_size: None };
    let small = Bounds::from_corners(Point::new(0, 0), Point::new(4, 4));
    let mut tree = QuadTree::new(small, options);
    let loc = Location::new(Point::new(1, 1), 0, 0);
    assert_eq!(tree.insert(loc, 1), Ok(()));
    assert_eq!(tree.insert(loc, 2), Ok(()));
    // both entries sit at the same point, so no split can separate them;
    // the point lies on a split corner and is duplicated into all four unit
    // cells, each a leaf too small to divide that accepts entries over
    // capacity
    let regions = tree.regions();
    assert_eq!(regions.len(), 4);
    for region in regions {
        assert_eq!(region.elements().unwrap().len(), 2);
    }
}

#[test]
fn max_depth_stops_splitting() {
    let options = Options { capacity: 1, max_depth: Some(0), min_size: None };
    let mut tree = QuadTree::new(arena(), options);
    assert_eq!(tree.insert(Location::new(Point::new(10, 10), 0, 0), 1), Ok(()));
    assert_eq!(tree.insert(Location::new(Point::new(90, 90), 0, 0), 2), Ok(()));
    assert!(tree.is_leaf());
    assert_eq!(tree.count(), 2);
}

#[test]
fn min_size_stops_splitting() {
    let options = Options { capacity: 1, max_depth: None, min_size: Some(Point::new(50, 50)) };
    let mut tree = QuadTree::new(arena(), options);
    assert_eq!(tree.insert(Location::new(Point::new(10, 10), 0, 0), 1), Ok(()));
    assert_eq!(tree.insert(Location::new(Point::new(90, 90), 0, 0), 2), Ok(()));
    // the arena is 100 wide, not above twice the minimum size of 50
    assert!(tree.is_leaf());
}

#[test]
fn straddling_area_is_duplicated_into_overlapping_quadrants() {
    let options = Options { capacity: 1, max_depth: None, min_size: Some(Point::new(25, 25)) };
    let mut tree = QuadTree::new(arena(), options);
    // an area footprint straddling the vertical split line at x = 50
    let straddler = Location::new(Point::new(50, 75), 10, 10);
    assert_eq!(tree.insert(straddler, 1), Ok(()));
    assert_eq!(tree.insert(Location::new(Point::new(10, 10), 0, 0), 2), Ok(()));
    // after the split the straddler lives in both upper quadrants: the
    // count sees it twice
    assert_eq!(tree.count(), 3);
    let mut found: usize = 0;
    for region in tree.regions() {
        for (loc, id) in region.elements().unwrap() {
            if id == 1 {
                assert_eq!(loc, straddler);
                found += 1;
            }
        }
    }
    assert_eq!(found, 2);
}

#[test]
fn options_default_values() {
    let options = Options::default();
    assert_eq!(options.capacity, 4);
    assert_eq!(options.max_depth, None);
    assert_eq!(options.min_size, None);
}

#[test]
fn location_new_and_set_center() {
    let point = Location::new(Point::new(3, 4), 0, 0);
    assert_eq!(point, Location::Point(Point::new(3, 4)));
    let mut area = Location::new(Point::new(10, 10), 8, 6);
    assert_eq!(
        area,
        Location::Area(Bounds::from_corners(Point::new(6, 7), Point::new(14, 13))),
    );
    area.set_center(Point::new(0, 0));
    assert_eq!(
        area,
        Location::Area(Bounds::from_corners(Point::new(-4, -3), Point::new(4, 3))),
    );
    let mut probe = Location::Point(Point::new(1, 1));
    probe.set_center(Point::new(-2, 5));
    assert_eq!(probe, Location::Point(Point::new(-2, 5)));
}

#[test]
fn empty_iff_count_zero() {
    let mut tree = QuadTree::new(arena(), Options::default());
    assert!(tree.is_empty());
    assert_eq!(tree.count(), 0);
    assert_eq!(tree.insert(Location::new(Point::new(5, 5), 0, 0), 9), Ok(()));
    assert!(!tree.is_empty());
    assert!(tree.count() >= 1);
}
