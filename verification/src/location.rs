use vstd::prelude::*;

use crate::bounds::Bounds;
use crate::bounds::in_space;
use crate::bounds::SPACE_LIMIT;
use crate::point::Point;

verus! {

/// What a spatial-index entry occupies: either a zero-size point probe or an
/// axis-aligned area footprint (a body's bounding square).
#[derive(Clone, Copy, Debug, PartialEq, Eq, Structural)]
pub enum Location {
    Point(Point),
    Area(Bounds),
}

impl Location {
    pub open spec fn wf(self) -> bool {
        match self {
            Location::Point(p) => in_space(p),
            Location::Area(b) => b.wf(),
        }
    }

    /// How an entry at this location relates to a region of the index:
    /// point containment for a point, the corner-containment overlap test
    /// for an area.
    pub open spec fn spec_overlaps(self, bounds: Bounds) -> bool {
        match self {
            Location::Point(p) => bounds.spec_contains(p),
            Location::Area(a) => bounds.spec_intersects(a),
        }
    }

    /// A zero-size footprint becomes a point probe; any other size becomes
    /// an area of the given width and height around `center`.
    pub fn new(center: Point, width: i64, height: i64) -> (r: Location)
        requires
            0 <= width,
            0 <= height,
            -SPACE_LIMIT <= center.x - width / 2,
            center.x - width / 2 + width <= SPACE_LIMIT,
            -SPACE_LIMIT <= center.y - height / 2,
            center.y - height / 2 + height <= SPACE_LIMIT,
        ensures
            width == 0 && height == 0 ==> r == Location::Point(center),
            width != 0 || height != 0 ==> r == Location::Area(
                Bounds {
                    min: Point {
                        x: (center.x - width / 2) as i64,
                        y: (center.y - height / 2) as i64,
                    },
                    max: Point {
                        x: (center.x - width / 2 + width) as i64,
                        y: (center.y - height / 2 + height) as i64,
                    },
                },
            ),
            r.wf(),
    {
        if width == 0 && height == 0 {
            Location::Point(center)
        } else {
            Location::Area(Bounds::new(center, width, height))
        }
    }

    /// Move the location to a new center, keeping an area's exact width and
    /// height (the left and bottom edges sit half the size, rounded down,
    /// below the new center).
    pub fn set_center(&mut self, center: Point)
        requires
            old(self).wf(),
            in_space(center),
            ((*old(self)) is Area ==> {
                let w = (*old(self))->Area_0.spec_width();
                let h = (*old(self))->Area_0.spec_height();
                &&& -SPACE_LIMIT <= center.x - w / 2
                &&& center.x - w / 2 + w <= SPACE_LIMIT
                &&& -SPACE_LIMIT <= center.y - h / 2
                &&& center.y - h / 2 + h <= SPACE_LIMIT
            }),
        ensures
            (*old(self)) is Point ==> *final(self) == Location::Point(center),
            (*old(self)) is Area ==> *final(self) == Location::Area(
                Bounds {
                    min: Point {
                        x: (center.x - (*old(self))->Area_0.spec_width() / 2) as i64,
                        y: (center.y - (*old(self))->Area_0.spec_height() / 2) as i64,
                    },
                    max: Point {
                        x: (center.x - (*old(self))->Area_0.spec_width() / 2
                            + (*old(self))->Area_0.spec_width()) as i64,
                        y: (center.y - (*old(self))->Area_0.spec_height() / 2
                            + (*old(self))->Area_0.spec_height()) as i64,
                    },
                },
            ),
            final(self).wf(),
    {
        let loc = *self;
        match loc {
            Location::Point(_) => {
                *self = Location::Point(center);
            },
            Location::Area(bounds) => {
                let w: i64 = bounds.width();
                let h: i64 = bounds.height();
                *self = Location::Area(Bounds::new(center, w, h));
            },
        }
    }
}

impl From<Point> for Location {
    fn from(v: Point) -> (r: Location) {
        Location::Point(v)
    }
}

impl vstd::std_specs::convert::FromSpecImpl<Point> for Location {
    open spec fn obeys_from_spec() -> bool {
        true
    }

    open spec fn from_spec(v: Point) -> Location {
        Location::Point(v)
    }
}

impl From<Bounds> for Location {
    fn from(v: Bounds) -> (r: Location) {
        Location::Area(v)
    }
}

impl vstd::std_specs::convert::FromSpecImpl<Bounds> for Location {
    open spec fn obeys_from_spec() -> bool {
        true
    }

    open spec fn from_spec(v: Bounds) -> Location {
        Location::Area(v)
    }
}

} // verus!
