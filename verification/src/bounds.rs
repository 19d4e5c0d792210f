use vstd::prelude::*;

use crate::point::Point;

verus! {

/// Half-width of the coordinate space that bounds may live in.
///
/// Keeping every corner within `[-SPACE_LIMIT, SPACE_LIMIT]` leaves ample
/// headroom in `i64` for the sums and differences that the geometry below
/// computes (widths, centers, mirrored coordinates).
pub const SPACE_LIMIT: i64 = 0x100_0000_0000_0000;

/// An axis-aligned rectangular region, stored by its two extreme corners.
///
/// The region is the inclusive box `[min.x, max.x] x [min.y, max.y]`, with
/// `y` growing upwards: `bottom` is `min.y` and `top` is `max.y`.
///
/// The corners are stored directly (rather than a center and half-extents)
/// so that regions of odd width or height are represented exactly on the
/// integer grid; the center is derived by rounding the midpoint down. This
/// makes the quadrant split below tile a region exactly, with no gap along
/// the split lines.
#[derive(Clone, Copy, Debug, PartialEq, Eq, Structural)]
pub struct Bounds {
    pub min: Point,
    pub max: Point,
}

/// The coordinates of `p` lie within the supported coordinate space.
pub open spec fn in_space(p: Point) -> bool {
    -SPACE_LIMIT <= p.x <= SPACE_LIMIT && -SPACE_LIMIT <= p.y <= SPACE_LIMIT
}

impl Bounds {
    /// A bounds value is well formed when its corners are ordered and within
    /// the supported coordinate space.
    pub open spec fn wf(self) -> bool {
        &&& self.min.x <= self.max.x
        &&& self.min.y <= self.max.y
        &&& in_space(self.min)
        &&& in_space(self.max)
    }

    pub open spec fn spec_left(self) -> i64 {
        self.min.x
    }

    pub open spec fn spec_right(self) -> i64 {
        self.max.x
    }

    pub open spec fn spec_bottom(self) -> i64 {
        self.min.y
    }

    pub open spec fn spec_top(self) -> i64 {
        self.max.y
    }

    pub open spec fn spec_width(self) -> int {
        self.max.x - self.min.x
    }

    pub open spec fn spec_height(self) -> int {
        self.max.y - self.min.y
    }

    /// The midpoint, rounded down (towards `min`) on each axis.
    pub open spec fn center_x(self) -> int {
        self.min.x + (self.max.x - self.min.x) / 2
    }

    pub open spec fn center_y(self) -> int {
        self.min.y + (self.max.y - self.min.y) / 2
    }

    /// Inclusive containment on all four edges.
    pub open spec fn spec_contains(self, point: Point) -> bool {
        &&& self.spec_left() <= point.x <= self.spec_right()
        &&& self.spec_bottom() <= point.y <= self.spec_top()
    }

    /// The corner-containment approximation of rectangle overlap used by the
    /// spatial index: `area` counts as intersecting when one of its four
    /// corners lies inside `self`. This is deliberately not a full
    /// rectangle-overlap test (two rectangles can overlap while neither
    /// holds a corner of the other): the approximation decides which entries
    /// the index duplicates across quadrants, so replacing it would change
    /// which collisions the broad phase finds.
    pub open spec fn spec_intersects(self, area: Bounds) -> bool {
        ||| self.spec_contains(area.spec_top_left())
        ||| self.spec_contains(area.spec_top_right())
        ||| self.spec_contains(area.spec_bottom_left())
        ||| self.spec_contains(area.spec_bottom_right())
    }

    pub open spec fn spec_top_left(self) -> Point {
        Point { x: self.min.x, y: self.max.y }
    }

    pub open spec fn spec_top_right(self) -> Point {
        self.max
    }

    pub open spec fn spec_bottom_left(self) -> Point {
        self.min
    }

    pub open spec fn spec_bottom_right(self) -> Point {
        Point { x: self.max.x, y: self.min.y }
    }

    /// Construct from a center point and full width and height.
    ///
    /// The left and bottom edges sit `width / 2` (rounded down) below the
    /// center, and the region keeps the exact width and height given; for
    /// even width and height the center is preserved exactly.
    pub fn new(center: Point, width: i64, height: i64) -> (r: Bounds)
        requires
            0 <= width,
            0 <= height,
            -SPACE_LIMIT <= center.x - width / 2,
            center.x - width / 2 + width <= SPACE_LIMIT,
            -SPACE_LIMIT <= center.y - height / 2,
            center.y - height / 2 + height <= SPACE_LIMIT,
        ensures
            r.min.x == center.x - width / 2,
            r.min.y == center.y - height / 2,
            r.max.x == r.min.x + width,
            r.max.y == r.min.y + height,
            r.wf(),
    {
        let half_w: i64 = width / 2;
        let half_h: i64 = height / 2;
        let min_x: i64 = center.x - half_w;
        let min_y: i64 = center.y - half_h;
        Bounds {
            min: Point { x: min_x, y: min_y },
            max: Point { x: min_x + width, y: min_y + height },
        }
    }

    /// Construct from two opposite corners. `a` must lie strictly to the
    /// left of `b`; the corners may be given with either vertical
    /// orientation (top-left with bottom-right, or bottom-left with
    /// top-right).
    pub fn from_corners(a: Point, b: Point) -> (r: Bounds)
        requires
            a.x < b.x,
            in_space(a),
            in_space(b),
        ensures
            r.min.x == a.x,
            r.max.x == b.x,
            r.min.y == if a.y <= b.y { a.y } else { b.y },
            r.max.y == if a.y <= b.y { b.y } else { a.y },
            r.wf(),
    {
        if a.y <= b.y {
            Bounds { min: a, max: b }
        } else {
            Bounds { min: Point { x: a.x, y: b.y }, max: Point { x: b.x, y: a.y } }
        }
    }

    pub fn width(&self) -> (r: i64)
        requires
            self.wf(),
        ensures
            r == self.spec_width(),
    {
        self.max.x - self.min.x
    }

    pub fn height(&self) -> (r: i64)
        requires
            self.wf(),
        ensures
            r == self.spec_height(),
    {
        self.max.y - self.min.y
    }

    pub fn top(&self) -> (r: i64)
        ensures
            r == self.spec_top(),
    {
        self.max.y
    }

    pub fn bottom(&self) -> (r: i64)
        ensures
            r == self.spec_bottom(),
    {
        self.min.y
    }

    pub fn left(&self) -> (r: i64)
        ensures
            r == self.spec_left(),
    {
        self.min.x
    }

    pub fn right(&self) -> (r: i64)
        ensures
            r == self.spec_right(),
    {
        self.max.x
    }

    pub fn center(&self) -> (r: Point)
        requires
            self.wf(),
        ensures
            r.x == self.center_x(),
            r.y == self.center_y(),
    {
        let w: i64 = self.max.x - self.min.x;
        let h: i64 = self.max.y - self.min.y;
        Point { x: self.min.x + w / 2, y: self.min.y + h / 2 }
    }

    pub fn min(&self) -> (r: Point)
        ensures
            r == self.spec_bottom_left(),
    {
        self.min
    }

    pub fn max(&self) -> (r: Point)
        ensures
            r == self.spec_top_right(),
    {
        self.max
    }

    pub fn top_left(&self) -> (r: Point)
        ensures
            r == self.spec_top_left(),
    {
        Point { x: self.min.x, y: self.max.y }
    }

    pub fn top_right(&self) -> (r: Point)
        ensures
            r == self.spec_top_right(),
    {
        self.max
    }

    pub fn bottom_left(&self) -> (r: Point)
        ensures
            r == self.spec_bottom_left(),
    {
        self.min
    }

    pub fn bottom_right(&self) -> (r: Point)
        ensures
            r == self.spec_bottom_right(),
    {
        Point { x: self.max.x, y: self.min.y }
    }

    /// Corner-containment overlap test; see `spec_intersects`.
    pub fn intersects(&self, area: Bounds) -> (r: bool)
        ensures
            r == self.spec_intersects(area),
    {
        self.contains(area.top_left()) || self.contains(area.top_right()) || self.contains(
            area.bottom_left(),
        ) || self.contains(area.bottom_right())
    }

    /// A point is contained exactly when it lies between the left and right
    /// edges and between the bottom and top edges, inclusively.
    pub fn contains(&self, point: Point) -> (r: bool)
        ensures
            r == self.spec_contains(point),
            r <==> (self.spec_left() <= point.x <= self.spec_right() && self.spec_bottom()
                <= point.y <= self.spec_top()),
    {
        point.x >= self.min.x && point.x <= self.max.x && point.y <= self.max.y && point.y
            >= self.min.y
    }

    /// The four quadrants that a split divides this region into, in the
    /// fixed index order north-west, north-east, south-east, south-west,
    /// around the rounded-down midpoint.
    pub open spec fn spec_quadrant(self, i: int) -> Bounds {
        let cx = self.center_x() as i64;
        let cy = self.center_y() as i64;
        if i == 0 {
            Bounds { min: Point { x: self.min.x, y: cy }, max: Point { x: cx, y: self.max.y } }
        } else if i == 1 {
            Bounds { min: Point { x: cx, y: cy }, max: self.max }
        } else if i == 2 {
            Bounds { min: Point { x: cx, y: self.min.y }, max: Point { x: self.max.x, y: cy } }
        } else {
            Bounds { min: self.min, max: Point { x: cx, y: cy } }
        }
    }
}

/// A split tiles its region exactly: a point lies in the region if and only
/// if it lies in one of the four quadrants, and two distinct quadrants share
/// a point only on a split line through the midpoint. The quadrants
/// duplicate no area, so only the index may duplicate entries, never the
/// geometry.
pub proof fn lemma_split_tiles(b: Bounds, p: Point)
    requires
        b.wf(),
    ensures
        b.spec_contains(p) <==> (b.spec_quadrant(0).spec_contains(p) || b.spec_quadrant(
            1,
        ).spec_contains(p) || b.spec_quadrant(2).spec_contains(p) || b.spec_quadrant(
            3,
        ).spec_contains(p)),
        forall|i: int, j: int|
            0 <= i < 4 && 0 <= j < 4 && i != j && b.spec_quadrant(i).spec_contains(p)
                && b.spec_quadrant(j).spec_contains(p) ==> p.x == b.center_x() || p.y
                == b.center_y(),
{
}

/// Each quadrant of a well-formed region is itself well formed and lies
/// within its parent; when the region is at least 2 units wide and tall,
/// every quadrant is strictly smaller than the parent on both axes.
pub proof fn lemma_quadrants_wf(b: Bounds)
    requires
        b.wf(),
    ensures
        forall|i: int|
            0 <= i < 4 ==> (#[trigger] b.spec_quadrant(i)).wf() && b.spec_quadrant(i).min.x
                >= b.min.x && b.spec_quadrant(i).max.x <= b.max.x && b.spec_quadrant(i).min.y
                >= b.min.y && b.spec_quadrant(i).max.y <= b.max.y,
        b.spec_width() >= 2 && b.spec_height() >= 2 ==> forall|i: int|
            0 <= i < 4 ==> (#[trigger] b.spec_quadrant(i)).spec_width() < b.spec_width()
                && b.spec_quadrant(i).spec_height() < b.spec_height(),
{
}

} // verus!
