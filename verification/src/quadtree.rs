use vstd::prelude::*;

use crate::bounds::Bounds;
use crate::bounds::lemma_quadrants_wf;
use crate::bounds::lemma_split_tiles;
use crate::location::Location;
use crate::point::Point;

verus! {

/// Pushing onto a sequence adds exactly one element to the set it denotes.
proof fn lemma_push_to_set<A>(s: Seq<A>, a: A)
    ensures
        s.push(a).to_set() == s.to_set().insert(a),
{
    assert forall|x: A| s.push(a).to_set().contains(x) implies s.to_set().insert(a).contains(
        x,
    ) by {
        let i = choose|i: int| 0 <= i < s.push(a).len() && s.push(a)[i] == x;
        if i < s.len() {
            assert(s[i] == x);
        }
    }
    assert forall|x: A| s.to_set().insert(a).contains(x) implies s.push(a).to_set().contains(
        x,
    ) by {
        if s.contains(x) {
            let i = choose|i: int| 0 <= i < s.len() && s[i] == x;
            assert(s.push(a)[i] == x);
        } else {
            assert(s.push(a)[s.len() as int] == a);
        }
    }
    assert(s.push(a).to_set() =~= s.to_set().insert(a));
}

/// A location that overlaps a region overlaps at least one of its four
/// quadrants, so no insert is ever lost at a split.
proof fn lemma_overlap_some_quadrant(b: Bounds, loc: Location)
    requires
        b.wf(),
        loc.spec_overlaps(b),
    ensures
        exists|i: int| 0 <= i < 4 && loc.spec_overlaps(#[trigger] b.spec_quadrant(i)),
{
    match loc {
        Location::Point(p) => {
            lemma_split_tiles(b, p);
            assert(exists|i: int|
                0 <= i < 4 && (#[trigger] b.spec_quadrant(i)).spec_contains(p));
            let i = choose|i: int| 0 <= i < 4 && (#[trigger] b.spec_quadrant(i)).spec_contains(p);
            assert(loc.spec_overlaps(b.spec_quadrant(i)));
        },
        Location::Area(a) => {
            let c = if b.spec_contains(a.spec_top_left()) {
                a.spec_top_left()
            } else if b.spec_contains(a.spec_top_right()) {
                a.spec_top_right()
            } else if b.spec_contains(a.spec_bottom_left()) {
                a.spec_bottom_left()
            } else {
                a.spec_bottom_right()
            };
            lemma_split_tiles(b, c);
            let i = choose|i: int| 0 <= i < 4 && (#[trigger] b.spec_quadrant(i)).spec_contains(c);
            assert(b.spec_quadrant(i).spec_intersects(a));
            assert(loc.spec_overlaps(b.spec_quadrant(i)));
        },
    }
}

/// The one failure the spatial index reports: the location handed to a
/// top-level insert does not overlap the region the tree covers. It is
/// always recoverable; the caller logs it and goes on without that entry.
#[derive(Clone, Copy, Debug, PartialEq, Eq, Structural)]
pub enum ErrorKind {
    OutOfBounds(Bounds, Location),
}

impl ErrorKind {
    pub fn as_str(&self) -> (r: &'static str)
        ensures
            r@ == "out of bounds"@,
    {
        match *self {
            ErrorKind::OutOfBounds(_, _) => "out of bounds",
        }
    }
}

/// Tuning options for the spatial index.
#[derive(Clone, Copy, Debug, PartialEq, Eq)]
pub struct Options {
    /// Target capacity of a leaf before it is split into quadrants. A leaf
    /// may hold more entries when splitting is prevented (see
    /// `QuadTree::cannot_split`).
    pub capacity: usize,
    /// Hard cap on tree depth; a leaf at this depth never splits. Depths are
    /// capped at 255 in any case.
    pub max_depth: Option<u8>,
    /// Half-extents below which a region refuses to split: a leaf whose
    /// width is at most twice `min_size.x`, or whose height is at most twice
    /// `min_size.y`, stays a leaf.
    pub min_size: Option<Point>,
}

impl Options {
    pub open spec fn wf(self) -> bool {
        &&& self.capacity >= 1
        &&& match self.min_size {
            Option::Some(p) => 0 <= p.x <= crate::bounds::SPACE_LIMIT && 0 <= p.y
                <= crate::bounds::SPACE_LIMIT,
            Option::None => true,
        }
    }

    /// The effective depth cap: the configured one, or 255.
    pub open spec fn depth_limit(self) -> int {
        match self.max_depth {
            Option::Some(d) => d as int,
            Option::None => 255,
        }
    }
}

impl Default for Options {
    fn default() -> (r: Self)
        ensures
            r.capacity == 4,
            r.max_depth is None,
            r.min_size is None,
            r.wf(),
    {
        Options { capacity: 4, max_depth: Option::None, min_size: Option::None }
    }
}

/// The four quadrants of a region, in the fixed index order used throughout
/// the tree.
#[derive(Clone, Copy, Debug, PartialEq, Eq, Structural)]
pub enum Region {
    NorthWest,
    NorthEast,
    SouthEast,
    SouthWest,
}

impl Region {
    pub open spec fn spec_index(self) -> int {
        match self {
            Region::NorthWest => 0,
            Region::NorthEast => 1,
            Region::SouthEast => 2,
            Region::SouthWest => 3,
        }
    }

    pub fn index(&self) -> (r: usize)
        ensures
            r == self.spec_index(),
    {
        match self {
            Region::NorthWest => 0,
            Region::NorthEast => 1,
            Region::SouthEast => 2,
            Region::SouthWest => 3,
        }
    }
}

impl From<Region> for usize {
    fn from(v: Region) -> (r: usize) {
        v.index()
    }
}

impl vstd::std_specs::convert::FromSpecImpl<Region> for usize {
    open spec fn obeys_from_spec() -> bool {
        true
    }

    open spec fn from_spec(v: Region) -> usize {
        v.spec_index() as usize
    }
}

/// The four child trees of an internal node, one per quadrant.
pub struct Children {
    pub nw: QuadTree,
    pub ne: QuadTree,
    pub se: QuadTree,
    pub sw: QuadTree,
}

impl Children {
    pub open spec fn spec_child(self, i: int) -> QuadTree {
        if i == 0 {
            self.nw
        } else if i == 1 {
            self.ne
        } else if i == 2 {
            self.se
        } else {
            self.sw
        }
    }
}

/// What a tree node holds: nothing yet, entries directly, or four quadrant
/// subtrees.
pub enum Body {
    Empty,
    Leaf(Vec<(Location, u64)>),
    Node(Box<Children>),
}

/// A spatial index over a rectangular region: a 4-ary tree whose internal
/// nodes split their region into quadrants around its midpoint, and whose
/// leaves hold (location, id) entries directly.
pub struct QuadTree {
    pub bounds: Bounds,
    pub body: Body,
    pub options: Options,
    pub depth: u8,
}

/// The mathematical model of a tree: the same shape with a leaf's entries as
/// a sequence. Insertion has a constructive definition on this model
/// (`spec_insert_tree`), so contracts can pin the whole tree a sequence of
/// inserts produces, shape, entry order and all.
pub struct TreeModel {
    pub bounds: Bounds,
    pub options: Options,
    pub depth: u8,
    pub body: BodyModel,
}

/// The model of what a node holds.
pub enum BodyModel {
    Empty,
    Leaf(Seq<(Location, u64)>),
    Node(Box<ChildrenModel>),
}

/// The model of the four child trees of an internal node.
pub struct ChildrenModel {
    pub nw: TreeModel,
    pub ne: TreeModel,
    pub se: TreeModel,
    pub sw: TreeModel,
}

impl TreeModel {
    /// Splitting is prevented here; mirrors `QuadTree::cannot_split`.
    pub open spec fn cannot_split(self) -> bool {
        ||| self.depth >= self.options.depth_limit()
        ||| match self.options.min_size {
            Option::Some(p) => self.bounds.spec_width() <= 2 * p.x || self.bounds.spec_height()
                <= 2 * p.y,
            Option::None => false,
        }
        ||| self.bounds.spec_width() < 2
        ||| self.bounds.spec_height() < 2
    }

    /// A fresh, empty child model over the given quadrant of this region.
    pub open spec fn fresh_child(self, i: int) -> TreeModel {
        TreeModel {
            bounds: self.bounds.spec_quadrant(i),
            options: self.options,
            depth: (self.depth + 1) as u8,
            body: BodyModel::Empty,
        }
    }
}

impl ChildrenModel {
    pub open spec fn spec_child(self, i: int) -> TreeModel {
        if i == 0 {
            self.nw
        } else if i == 1 {
            self.ne
        } else if i == 2 {
            self.se
        } else {
            self.sw
        }
    }
}

/// Fuel that always suffices for `spec_insert_fueled` on a well-formed tree
/// over these bounds: each level of the tree strictly shrinks the region's
/// extent, so the extent bounds the depth of any insertion.
pub open spec fn bounds_fuel(b: Bounds) -> nat {
    if b.spec_width() + b.spec_height() + 1 >= 0 {
        (b.spec_width() + b.spec_height() + 1) as nat
    } else {
        0
    }
}

/// The constructive model of insertion, fueled for termination. On a
/// well-formed tree any fuel of at least `bounds_fuel(t.bounds)` gives the
/// same result (`QuadTree::insert` ensures this for every such fuel), so
/// `spec_insert_tree` below is the canonical form.
pub open spec fn spec_insert_fueled(fuel: nat, t: TreeModel, location: Location, value: u64) -> TreeModel
    decreases fuel, 0nat, 0nat,
{
    if !location.spec_overlaps(t.bounds) {
        t
    } else if fuel == 0 {
        t
    } else {
        match t.body {
            BodyModel::Empty => TreeModel {
                bounds: t.bounds,
                options: t.options,
                depth: t.depth,
                body: BodyModel::Leaf(seq![(location, value)]),
            },
            BodyModel::Leaf(elems) => {
                let elems2 = elems.push((location, value));
                if elems2.len() <= t.options.capacity || t.cannot_split() {
                    TreeModel {
                        bounds: t.bounds,
                        options: t.options,
                        depth: t.depth,
                        body: BodyModel::Leaf(elems2),
                    }
                } else {
                    let kids0 = ChildrenModel {
                        nw: t.fresh_child(0),
                        ne: t.fresh_child(1),
                        se: t.fresh_child(2),
                        sw: t.fresh_child(3),
                    };
                    TreeModel {
                        bounds: t.bounds,
                        options: t.options,
                        depth: t.depth,
                        body: BodyModel::Node(
                            Box::new(spec_insert_entries((fuel - 1) as nat, kids0, elems2)),
                        ),
                    }
                }
            },
            BodyModel::Node(children) => TreeModel {
                bounds: t.bounds,
                options: t.options,
                depth: t.depth,
                body: BodyModel::Node(
                    Box::new(spec_insert_kids((fuel - 1) as nat, *children, location, value)),
                ),
            },
        }
    }
}

/// One entry handed to all four children; each keeps it exactly when it
/// overlaps that child's quadrant.
pub open spec fn spec_insert_kids(fuel: nat, kids: ChildrenModel, location: Location, value: u64) -> ChildrenModel
    decreases fuel, 1nat, 0nat,
{
    ChildrenModel {
        nw: spec_insert_fueled(fuel, kids.nw, location, value),
        ne: spec_insert_fueled(fuel, kids.ne, location, value),
        se: spec_insert_fueled(fuel, kids.se, location, value),
        sw: spec_insert_fueled(fuel, kids.sw, location, value),
    }
}

/// A split's redistribution: the entries handed to the four fresh children
/// one after the other, in order.
pub open spec fn spec_insert_entries(fuel: nat, kids: ChildrenModel, elems: Seq<(Location, u64)>) -> ChildrenModel
    decreases fuel, 2nat, elems.len(),
{
    if elems.len() == 0 {
        kids
    } else {
        spec_insert_kids(
            fuel,
            spec_insert_entries(fuel, kids, elems.drop_last()),
            elems.last().0,
            elems.last().1,
        )
    }
}

/// The canonical constructive model of `QuadTree::insert`.
pub open spec fn spec_insert_tree(t: TreeModel, location: Location, value: u64) -> TreeModel {
    spec_insert_fueled(bounds_fuel(t.bounds), t, location, value)
}

impl QuadTree {
    /// The mathematical model of this tree; see `TreeModel`.
    pub open spec fn model(self) -> TreeModel
        decreases self,
    {
        TreeModel {
            bounds: self.bounds,
            options: self.options,
            depth: self.depth,
            body: match self.body {
                Body::Empty => BodyModel::Empty,
                Body::Leaf(elems) => BodyModel::Leaf(elems@),
                Body::Node(children) => BodyModel::Node(
                    Box::new(
                        ChildrenModel {
                            nw: children.nw.model(),
                            ne: children.ne.model(),
                            se: children.se.model(),
                            sw: children.sw.model(),
                        },
                    ),
                ),
            },
        }
    }

    /// Structural well-formedness: the region is well formed, the options
    /// are sane, a leaf holds at least one entry and every entry of it
    /// overlaps the leaf's region, and the children of an internal node
    /// cover exactly the four quadrants of a region that was big enough to
    /// split, one level deeper, holding at least one entry among them. So
    /// only non-empty leaves exist, and a tree is `Empty` exactly when it
    /// stores nothing.
    pub open spec fn wf_tree(self) -> bool
        decreases self,
    {
        &&& self.bounds.wf()
        &&& self.options.wf()
        &&& match self.body {
            Body::Empty => true,
            Body::Leaf(elems) => elems@.len() >= 1 && forall|i: int|
                0 <= i < elems@.len() ==> (#[trigger] elems@[i]).0.spec_overlaps(self.bounds),
            Body::Node(children) => {
                &&& self.bounds.spec_width() >= 2
                &&& self.bounds.spec_height() >= 2
                &&& children.nw.spec_count() + children.ne.spec_count() + children.se.spec_count()
                    + children.sw.spec_count() >= 1
                &&& forall|i: int|
                    0 <= i < 4 ==> (#[trigger] children.spec_child(i)).bounds
                        == self.bounds.spec_quadrant(i)
                &&& forall|i: int|
                    0 <= i < 4 ==> (#[trigger] children.spec_child(i)).options == self.options
                &&& forall|i: int|
                    0 <= i < 4 ==> (#[trigger] children.spec_child(i)).depth == self.depth + 1
                &&& children.nw.wf_tree()
                &&& children.ne.wf_tree()
                &&& children.se.wf_tree()
                &&& children.sw.wf_tree()
            },
        }
    }

    /// Splitting is prevented here: the depth cap is reached, the region is
    /// at or below the configured minimum size, or the region is too small
    /// to divide on the integer grid.
    pub open spec fn cannot_split(self) -> bool {
        ||| self.depth >= self.options.depth_limit()
        ||| match self.options.min_size {
            Option::Some(p) => self.bounds.spec_width() <= 2 * p.x || self.bounds.spec_height()
                <= 2 * p.y,
            Option::None => false,
        }
        ||| self.bounds.spec_width() < 2
        ||| self.bounds.spec_height() < 2
    }

    /// The capacity discipline: every leaf holds at most `capacity` entries
    /// unless splitting was prevented for that leaf.
    pub open spec fn leaves_ok(self) -> bool
        decreases self,
    {
        match self.body {
            Body::Empty => true,
            Body::Leaf(elems) => elems@.len() <= self.options.capacity || self.cannot_split(),
            Body::Node(children) => {
                &&& children.nw.leaves_ok()
                &&& children.ne.leaves_ok()
                &&& children.se.leaves_ok()
                &&& children.sw.leaves_ok()
            },
        }
    }

    /// Broad-phase completeness of the index: below every internal node, an
    /// entry stored anywhere is also stored in every quadrant its location
    /// overlaps. An entry straddling a split line is therefore duplicated
    /// into all the quadrants it touches — deliberately, so that a scan of
    /// any one of them finds it.
    pub open spec fn complete(self) -> bool
        decreases self,
    {
        match self.body {
            Body::Empty => true,
            Body::Leaf(_) => true,
            Body::Node(children) => {
                &&& forall|e: (Location, u64), i: int|
                    self.entry_set().contains(e) && 0 <= i < 4 && e.0.spec_overlaps(
                        children.spec_child(i).bounds,
                    ) ==> #[trigger] children.spec_child(i).entry_set().contains(e)
                &&& children.nw.complete()
                &&& children.ne.complete()
                &&& children.se.complete()
                &&& children.sw.complete()
            },
        }
    }

    /// Every entry stored anywhere below this node.
    pub open spec fn entry_set(self) -> Set<(Location, u64)>
        decreases self,
    {
        match self.body {
            Body::Empty => Set::empty(),
            Body::Leaf(elems) => elems@.to_set(),
            Body::Node(children) => children.nw.entry_set() + children.ne.entry_set()
                + children.se.entry_set() + children.sw.entry_set(),
        }
    }

    pub fn new(bounds: Bounds, options: Options) -> (r: Self)
        requires
            bounds.wf(),
            options.wf(),
        ensures
            r.bounds == bounds,
            r.options == options,
            r.depth == 0,
            r.body is Empty,
            r.wf_tree(),
            r.leaves_ok(),
            r.complete(),
            r.entry_set() == Set::<(Location, u64)>::empty(),
    {
        QuadTree { bounds, options, body: Body::Empty, depth: 0 }
    }

    fn new_region(bounds: Bounds, options: Options, depth: u8) -> (r: Self)
        requires
            bounds.wf(),
            options.wf(),
        ensures
            r == (QuadTree { bounds, options, body: Body::Empty, depth }),
            r.wf_tree(),
            r.leaves_ok(),
            r.complete(),
            r.entry_set() == Set::<(Location, u64)>::empty(),
    {
        QuadTree { bounds, options, body: Body::Empty, depth }
    }

    /// The region this tree indexes.
    pub fn bounds(&self) -> (r: Bounds)
        ensures
            r == self.bounds,
    {
        self.bounds
    }

    pub fn options(&self) -> (r: Options)
        ensures
            r == self.options,
    {
        self.options
    }

    /// Whether no entry was ever inserted below this node.
    pub fn is_empty(&self) -> (r: bool)
        ensures
            r == (self.body is Empty),
    {
        match self.body {
            Body::Empty => true,
            _ => false,
        }
    }

    /// Whether this node holds entries directly.
    pub fn is_leaf(&self) -> (r: bool)
        ensures
            r == (self.body is Leaf),
    {
        match self.body {
            Body::Leaf(_) => true,
            _ => false,
        }
    }

    /// Whether `location` overlaps the region this tree indexes: point
    /// containment for a point, corner-containment overlap for an area.
    pub fn contains(&self, location: Location) -> (r: bool)
        ensures
            r == location.spec_overlaps(self.bounds),
    {
        match location {
            Location::Point(point) => self.bounds.contains(point),
            Location::Area(area) => self.bounds.intersects(area),
        }
    }

    /// Whether this node would refuse to split; see `cannot_split`.
    fn splitting_prevented(&self) -> (r: bool)
        requires
            self.bounds.wf(),
            self.options.wf(),
        ensures
            r == self.cannot_split(),
    {
        let limit: u8 = match self.options.max_depth {
            Option::Some(d) => d,
            Option::None => 255,
        };
        if self.depth >= limit {
            return true;
        }
        let w: i64 = self.bounds.width();
        let h: i64 = self.bounds.height();
        if w < 2 || h < 2 {
            return true;
        }
        match self.options.min_size {
            Option::Some(p) => w <= 2 * p.x || h <= 2 * p.y,
            Option::None => false,
        }
    }

    /// Insert an entry for `value` at `location`.
    ///
    /// Fails exactly when the location does not overlap this tree's region,
    /// leaving the tree unchanged; the error is recoverable and per-entry.
    /// On success the entry joins the indexed set. An entry whose area
    /// straddles a split line is stored in every quadrant it overlaps, on
    /// purpose: broad-phase scans of either quadrant must find it. A leaf
    /// pushed over `capacity` splits into the four quadrants of its region
    /// and redistributes its entries, unless splitting is prevented
    /// (`cannot_split`); a leaf that cannot split accepts entries over
    /// capacity, which keeps `leaves_ok` an invariant.
    pub fn insert(&mut self, location: Location, value: u64) -> (r: Result<(), ErrorKind>)
        requires
            old(self).wf_tree(),
            old(self).leaves_ok(),
            old(self).complete(),
        ensures
            final(self).bounds == old(self).bounds,
            final(self).options == old(self).options,
            final(self).depth == old(self).depth,
            final(self).wf_tree(),
            final(self).leaves_ok(),
            final(self).complete(),
            r is Err <==> !location.spec_overlaps(old(self).bounds),
            !location.spec_overlaps(old(self).bounds) ==> *final(self) == *old(self) && r
                == Result::<(), ErrorKind>::Err(
                ErrorKind::OutOfBounds(old(self).bounds, location),
            ),
            location.spec_overlaps(old(self).bounds) ==> final(self).entry_set() == old(
                self,
            ).entry_set().insert((location, value)),
            location.spec_overlaps(old(self).bounds) ==> final(self).spec_count()
                >= old(self).spec_count() + 1,
            old(self).body is Empty && location.spec_overlaps(old(self).bounds)
                ==> final(self).body is Leaf && final(self).body->Leaf_0@ == seq![
                (location, value),
            ],
            old(self).body is Leaf && location.spec_overlaps(old(self).bounds) && (old(
                self,
            ).body->Leaf_0@.len() + 1 <= old(self).options.capacity || old(self).cannot_split())
                ==> final(self).body is Leaf && final(self).body->Leaf_0@ == old(
                self,
            ).body->Leaf_0@.push((location, value)),
            old(self).body is Leaf && location.spec_overlaps(old(self).bounds) && old(
                self,
            ).body->Leaf_0@.len() + 1 > old(self).options.capacity && !old(self).cannot_split()
                ==> final(self).body is Node,
            old(self).body is Node && location.spec_overlaps(old(self).bounds)
                ==> final(self).body is Node,
            forall|f: nat|
                f >= bounds_fuel(old(self).bounds) ==> final(self).model()
                    == spec_insert_fueled(f, old(self).model(), location, value),
        decreases old(self).bounds.spec_width() + old(self).bounds.spec_height(),
    {
        if !self.contains(location) {
            return Result::Err(ErrorKind::OutOfBounds(self.bounds, location));
        }
        let mut body = Body::Empty;
        core::mem::swap(&mut body, &mut self.body);
        match body {
            // the tree is empty: become a leaf holding the one entry
            Body::Empty => {
                let mut elems: Vec<(Location, u64)> = Vec::with_capacity(self.options.capacity);
                elems.push((location, value));
                proof {
                    lemma_push_to_set(Seq::<(Location, u64)>::empty(), (location, value));
                    assert(Seq::<(Location, u64)>::empty().to_set() =~= Set::<(
                        Location,
                        u64,
                    )>::empty());
                    assert(elems@ =~= seq![(location, value)]);
                }
                self.body = Body::Leaf(elems);
                proof {
                    assert forall|f: nat| f >= bounds_fuel(old(self).bounds) implies self.model()
                        == spec_insert_fueled(f, old(self).model(), location, value) by {
                        assert(bounds_fuel(old(self).bounds) >= 1);
                        assert(old(self).model().body is Empty);
                        assert(self.model().body == BodyModel::Leaf(seq![(location, value)]));
                    }
                }
            },
            // the tree is a leaf: append, and split if now over capacity
            Body::Leaf(mut elems) => {
                let ghost old_elems = elems@;
                elems.push((location, value));
                proof {
                    lemma_push_to_set(old_elems, (location, value));
                }
                if elems.len() <= self.options.capacity || self.splitting_prevented() {
                    // below capacity, or splitting is prevented: accept the
                    // entry in place
                    self.body = Body::Leaf(elems);
                    proof {
                        assert forall|f: nat|
                            f >= bounds_fuel(old(self).bounds) implies self.model()
                            == spec_insert_fueled(f, old(self).model(), location, value) by {
                            assert(bounds_fuel(old(self).bounds) >= 1);
                            assert(old(self).model().body == BodyModel::Leaf(
                                old(self).body->Leaf_0@,
                            ));
                            assert(elems@ == old(self).body->Leaf_0@.push((location, value)));
                            assert(old(self).model().cannot_split() == old(self).cannot_split());
                            assert(self.model().body == BodyModel::Leaf(elems@));
                        }
                    }
                    return Result::Ok(());
                }
                proof {
                    lemma_quadrants_wf(self.bounds);
                }
                let center = self.bounds.center();
                let child_depth: u8 = self.depth + 1;
                let mut children = Box::new(
                    Children {
                        nw: Self::new_region(
                            Bounds::from_corners(self.bounds.top_left(), center),
                            self.options,
                            child_depth,
                        ),
                        ne: Self::new_region(
                            Bounds::from_corners(center, self.bounds.top_right()),
                            self.options,
                            child_depth,
                        ),
                        se: Self::new_region(
                            Bounds::from_corners(center, self.bounds.bottom_right()),
                            self.options,
                            child_depth,
                        ),
                        sw: Self::new_region(
                            Bounds::from_corners(self.bounds.bottom_left(), center),
                            self.options,
                            child_depth,
                        ),
                    },
                );
                proof {
                    assert(children.nw.bounds =~= self.bounds.spec_quadrant(0));
                    assert(children.ne.bounds =~= self.bounds.spec_quadrant(1));
                    assert(children.se.bounds =~= self.bounds.spec_quadrant(2));
                    assert(children.sw.bounds =~= self.bounds.spec_quadrant(3));
                }
                let kids = &mut *children;
                let ghost tm = old(self).model();
                let ghost kids0m = ChildrenModel {
                    nw: tm.fresh_child(0),
                    ne: tm.fresh_child(1),
                    se: tm.fresh_child(2),
                    sw: tm.fresh_child(3),
                };
                proof {
                    assert(kids.nw.model() == tm.fresh_child(0));
                    assert(kids.ne.model() == tm.fresh_child(1));
                    assert(kids.se.model() == tm.fresh_child(2));
                    assert(kids.sw.model() == tm.fresh_child(3));
                }
                let mut i: usize = 0;
                while i < elems.len()
                    invariant
                        i <= elems@.len(),
                        self.bounds == old(self).bounds,
                        self.options == old(self).options,
                        self.depth == old(self).depth,
                        self.bounds.wf(),
                        self.options.wf(),
                        self.bounds.spec_width() >= 2,
                        self.bounds.spec_height() >= 2,
                        forall|j: int|
                            0 <= j < elems@.len() ==> (#[trigger] elems@[j]).0.spec_overlaps(
                                self.bounds,
                            ),
                        kids.nw.bounds == self.bounds.spec_quadrant(0),
                        kids.ne.bounds == self.bounds.spec_quadrant(1),
                        kids.se.bounds == self.bounds.spec_quadrant(2),
                        kids.sw.bounds == self.bounds.spec_quadrant(3),
                        kids.nw.options == self.options && kids.nw.depth == self.depth + 1,
                        kids.ne.options == self.options && kids.ne.depth == self.depth + 1,
                        kids.se.options == self.options && kids.se.depth == self.depth + 1,
                        kids.sw.options == self.options && kids.sw.depth == self.depth + 1,
                        kids.nw.wf_tree() && kids.nw.leaves_ok() && kids.nw.complete(),
                        kids.ne.wf_tree() && kids.ne.leaves_ok() && kids.ne.complete(),
                        kids.se.wf_tree() && kids.se.leaves_ok() && kids.se.complete(),
                        kids.sw.wf_tree() && kids.sw.leaves_ok() && kids.sw.complete(),
                        kids.nw.entry_set() + kids.ne.entry_set() + kids.se.entry_set()
                            + kids.sw.entry_set() == elems@.take(i as int).to_set(),
                        kids.nw.spec_count() + kids.ne.spec_count() + kids.se.spec_count()
                            + kids.sw.spec_count() >= i,
                        forall|e: (Location, u64)|
                            elems@.take(i as int).to_set().contains(e) && e.0.spec_overlaps(
                                self.bounds.spec_quadrant(0),
                            ) ==> #[trigger] kids.nw.entry_set().contains(e),
                        forall|e: (Location, u64)|
                            elems@.take(i as int).to_set().contains(e) && e.0.spec_overlaps(
                                self.bounds.spec_quadrant(1),
                            ) ==> #[trigger] kids.ne.entry_set().contains(e),
                        forall|e: (Location, u64)|
                            elems@.take(i as int).to_set().contains(e) && e.0.spec_overlaps(
                                self.bounds.spec_quadrant(2),
                            ) ==> #[trigger] kids.se.entry_set().contains(e),
                        forall|e: (Location, u64)|
                            elems@.take(i as int).to_set().contains(e) && e.0.spec_overlaps(
                                self.bounds.spec_quadrant(3),
                            ) ==> #[trigger] kids.sw.entry_set().contains(e),
                        forall|f: nat|
                            f + 1 >= bounds_fuel(old(self).bounds) ==> (ChildrenModel {
                                nw: kids.nw.model(),
                                ne: kids.ne.model(),
                                se: kids.se.model(),
                                sw: kids.sw.model(),
                            }) == spec_insert_entries(f, kids0m, elems@.take(i as int)),
                    decreases elems@.len() - i,
                {
                    let (loc, val) = elems[i];
                    let ghost sets_before = (
                        kids.nw.entry_set(),
                        kids.ne.entry_set(),
                        kids.se.entry_set(),
                        kids.sw.entry_set(),
                    );
                    let ghost counts_before = (
                        kids.nw.spec_count(),
                        kids.ne.spec_count(),
                        kids.se.spec_count(),
                        kids.sw.spec_count(),
                    );
                    let ghost models_before = ChildrenModel {
                        nw: kids.nw.model(),
                        ne: kids.ne.model(),
                        se: kids.se.model(),
                        sw: kids.sw.model(),
                    };
                    proof {
                        lemma_quadrants_wf(self.bounds);
                        lemma_overlap_some_quadrant(self.bounds, loc);
                        assert(kids.nw.bounds.spec_width() + kids.nw.bounds.spec_height()
                            < old(self).bounds.spec_width() + old(self).bounds.spec_height());
                        assert(kids.ne.bounds.spec_width() + kids.ne.bounds.spec_height()
                            < old(self).bounds.spec_width() + old(self).bounds.spec_height());
                        assert(kids.se.bounds.spec_width() + kids.se.bounds.spec_height()
                            < old(self).bounds.spec_width() + old(self).bounds.spec_height());
                        assert(kids.sw.bounds.spec_width() + kids.sw.bounds.spec_height()
                            < old(self).bounds.spec_width() + old(self).bounds.spec_height());
                    }
                    let _ = kids.nw.insert(loc, val);
                    let _ = kids.ne.insert(loc, val);
                    let _ = kids.se.insert(loc, val);
                    let _ = kids.sw.insert(loc, val);
                    proof {
                        let e = (loc, val);
                        let union_before = sets_before.0 + sets_before.1 + sets_before.2
                            + sets_before.3;
                        assert(kids.nw.entry_set() + kids.ne.entry_set() + kids.se.entry_set()
                            + kids.sw.entry_set() =~= union_before.insert(e));
                        assert(elems@.take(i + 1 as int) =~= elems@.take(i as int).push(e));
                        lemma_push_to_set(elems@.take(i as int), e);
                        let iw = choose|iw: int|
                            0 <= iw < 4 && loc.spec_overlaps(#[trigger] self.bounds.spec_quadrant(iw));
                        if iw == 0 {
                            assert(kids.nw.spec_count() >= counts_before.0 + 1);
                        } else if iw == 1 {
                            assert(kids.ne.spec_count() >= counts_before.1 + 1);
                        } else if iw == 2 {
                            assert(kids.se.spec_count() >= counts_before.2 + 1);
                        } else {
                            assert(kids.sw.spec_count() >= counts_before.3 + 1);
                        }
                        assert(kids.nw.spec_count() + kids.ne.spec_count() + kids.se.spec_count()
                            + kids.sw.spec_count() >= counts_before.0 + counts_before.1
                            + counts_before.2 + counts_before.3 + 1);
                        assert forall|e2: (Location, u64)|
                            elems@.take(i + 1 as int).to_set().contains(e2) && e2.0.spec_overlaps(
                                self.bounds.spec_quadrant(0),
                            ) implies #[trigger] kids.nw.entry_set().contains(e2) by {
                            if e2 == e {
                                assert(kids.nw.entry_set() == sets_before.0.insert(e));
                            } else {
                                assert(elems@.take(i as int).to_set().contains(e2));
                                assert(sets_before.0.contains(e2));
                            }
                        }
                        assert forall|e2: (Location, u64)|
                            elems@.take(i + 1 as int).to_set().contains(e2) && e2.0.spec_overlaps(
                                self.bounds.spec_quadrant(1),
                            ) implies #[trigger] kids.ne.entry_set().contains(e2) by {
                            if e2 == e {
                                assert(kids.ne.entry_set() == sets_before.1.insert(e));
                            } else {
                                assert(elems@.take(i as int).to_set().contains(e2));
                                assert(sets_before.1.contains(e2));
                            }
                        }
                        assert forall|e2: (Location, u64)|
                            elems@.take(i + 1 as int).to_set().contains(e2) && e2.0.spec_overlaps(
                                self.bounds.spec_quadrant(2),
                            ) implies #[trigger] kids.se.entry_set().contains(e2) by {
                            if e2 == e {
                                assert(kids.se.entry_set() == sets_before.2.insert(e));
                            } else {
                                assert(elems@.take(i as int).to_set().contains(e2));
                                assert(sets_before.2.contains(e2));
                            }
                        }
                        assert forall|e2: (Location, u64)|
                            elems@.take(i + 1 as int).to_set().contains(e2) && e2.0.spec_overlaps(
                                self.bounds.spec_quadrant(3),
                            ) implies #[trigger] kids.sw.entry_set().contains(e2) by {
                            if e2 == e {
                                assert(kids.sw.entry_set() == sets_before.3.insert(e));
                            } else {
                                assert(elems@.take(i as int).to_set().contains(e2));
                                assert(sets_before.3.contains(e2));
                            }
                        }
                        assert(bounds_fuel(self.bounds.spec_quadrant(0)) + 2 <= bounds_fuel(
                            old(self).bounds,
                        ) && bounds_fuel(self.bounds.spec_quadrant(1)) + 2 <= bounds_fuel(
                            old(self).bounds,
                        ) && bounds_fuel(self.bounds.spec_quadrant(2)) + 2 <= bounds_fuel(
                            old(self).bounds,
                        ) && bounds_fuel(self.bounds.spec_quadrant(3)) + 2 <= bounds_fuel(
                            old(self).bounds,
                        ));
                        assert(elems@.take(i + 1 as int).drop_last() == elems@.take(i as int));
                        assert(elems@.take(i + 1 as int).last() == e);
                        assert forall|f: nat|
                            #![trigger spec_insert_entries(f, kids0m, elems@.take(i + 1 as int))]
                            f + 1 >= bounds_fuel(old(self).bounds) implies (ChildrenModel {
                            nw: kids.nw.model(),
                            ne: kids.ne.model(),
                            se: kids.se.model(),
                            sw: kids.sw.model(),
                        }) == spec_insert_entries(f, kids0m, elems@.take(i + 1 as int)) by {
                            assert(spec_insert_entries(f, kids0m, elems@.take(i as int))
                                == models_before);
                            assert(kids.nw.model() == spec_insert_fueled(
                                f,
                                models_before.nw,
                                loc,
                                val,
                            ));
                            assert(kids.ne.model() == spec_insert_fueled(
                                f,
                                models_before.ne,
                                loc,
                                val,
                            ));
                            assert(kids.se.model() == spec_insert_fueled(
                                f,
                                models_before.se,
                                loc,
                                val,
                            ));
                            assert(kids.sw.model() == spec_insert_fueled(
                                f,
                                models_before.sw,
                                loc,
                                val,
                            ));
                            assert(spec_insert_entries(f, kids0m, elems@.take(i + 1 as int))
                                == spec_insert_kids(
                                f,
                                spec_insert_entries(f, kids0m, elems@.take(i as int)),
                                loc,
                                val,
                            ));
                        }
                    }
                    i = i + 1;
                }
                proof {
                    assert(elems@.take(elems@.len() as int) =~= elems@);
                    assert forall|e2: (Location, u64), ci: int|
                        (children.nw.entry_set() + children.ne.entry_set()
                            + children.se.entry_set() + children.sw.entry_set()).contains(e2) && 0
                            <= ci < 4 && e2.0.spec_overlaps(children.spec_child(ci).bounds) implies
                    #[trigger] children.spec_child(ci).entry_set().contains(e2) by {
                        if ci == 0 {
                            assert(children.spec_child(0) == children.nw);
                            assert(children.nw.entry_set().contains(e2));
                        } else if ci == 1 {
                            assert(children.spec_child(1) == children.ne);
                            assert(children.ne.entry_set().contains(e2));
                        } else if ci == 2 {
                            assert(children.spec_child(2) == children.se);
                            assert(children.se.entry_set().contains(e2));
                        } else {
                            assert(children.spec_child(3) == children.sw);
                            assert(children.sw.entry_set().contains(e2));
                        }
                    }
                    assert forall|f: nat|
                        f >= bounds_fuel(old(self).bounds) implies (TreeModel {
                        bounds: old(self).bounds,
                        options: old(self).options,
                        depth: old(self).depth,
                        body: BodyModel::Node(
                            Box::new(
                                ChildrenModel {
                                    nw: children.nw.model(),
                                    ne: children.ne.model(),
                                    se: children.se.model(),
                                    sw: children.sw.model(),
                                },
                            ),
                        ),
                    }) == spec_insert_fueled(f, old(self).model(), location, value) by {
                        assert(bounds_fuel(old(self).bounds) >= 1);
                        assert(old(self).model().body == BodyModel::Leaf(old(self).body->Leaf_0@));
                        assert(elems@ == old(self).body->Leaf_0@.push((location, value)));
                        assert(elems@.len() > old(self).options.capacity);
                        assert(old(self).model().cannot_split() == old(self).cannot_split());
                        let f1 = (f - 1) as nat;
                        assert(f1 + 1 >= bounds_fuel(old(self).bounds));
                        assert((ChildrenModel {
                            nw: children.nw.model(),
                            ne: children.ne.model(),
                            se: children.se.model(),
                            sw: children.sw.model(),
                        }) == spec_insert_entries(f1, kids0m, elems@.take(elems@.len() as int)));
                        assert(elems@.take(elems@.len() as int) == elems@);
                    }
                }
                self.body = Body::Node(children);
            },
            // the tree is already split: hand the entry to every quadrant
            // that overlaps it; the others reject it silently
            Body::Node(mut children) => {
                proof {
                    lemma_quadrants_wf(self.bounds);
                    lemma_overlap_some_quadrant(self.bounds, location);
                    assert(children.spec_child(0) == children.nw);
                    assert(children.spec_child(1) == children.ne);
                    assert(children.spec_child(2) == children.se);
                    assert(children.spec_child(3) == children.sw);
                    assert(children.nw.bounds == self.bounds.spec_quadrant(0));
                    assert(children.ne.bounds == self.bounds.spec_quadrant(1));
                    assert(children.se.bounds == self.bounds.spec_quadrant(2));
                    assert(children.sw.bounds == self.bounds.spec_quadrant(3));
                }
                let kids = &mut *children;
                let ghost sets_before = (
                    kids.nw.entry_set(),
                    kids.ne.entry_set(),
                    kids.se.entry_set(),
                    kids.sw.entry_set(),
                );
                let ghost counts_before = (
                    kids.nw.spec_count(),
                    kids.ne.spec_count(),
                    kids.se.spec_count(),
                    kids.sw.spec_count(),
                );
                let ghost models_before = ChildrenModel {
                    nw: kids.nw.model(),
                    ne: kids.ne.model(),
                    se: kids.se.model(),
                    sw: kids.sw.model(),
                };
                let _ = kids.nw.insert(location, value);
                let _ = kids.ne.insert(location, value);
                let _ = kids.se.insert(location, value);
                let _ = kids.sw.insert(location, value);
                proof {
                    let e = (location, value);
                    let union_before = sets_before.0 + sets_before.1 + sets_before.2
                        + sets_before.3;
                    assert(kids.nw.entry_set() + kids.ne.entry_set() + kids.se.entry_set()
                        + kids.sw.entry_set() =~= union_before.insert(e));
                    let iw = choose|iw: int|
                        0 <= iw < 4 && location.spec_overlaps(
                            #[trigger] self.bounds.spec_quadrant(iw),
                        );
                    if iw == 0 {
                        assert(kids.nw.spec_count() >= counts_before.0 + 1);
                    } else if iw == 1 {
                        assert(kids.ne.spec_count() >= counts_before.1 + 1);
                    } else if iw == 2 {
                        assert(kids.se.spec_count() >= counts_before.2 + 1);
                    } else {
                        assert(kids.sw.spec_count() >= counts_before.3 + 1);
                    }
                    assert(kids.nw.spec_count() + kids.ne.spec_count() + kids.se.spec_count()
                        + kids.sw.spec_count() >= counts_before.0 + counts_before.1
                        + counts_before.2 + counts_before.3 + 1);
                    let oldkids = old(self).body->Node_0;
                    assert forall|e2: (Location, u64), ci: int|
                        (kids.nw.entry_set() + kids.ne.entry_set() + kids.se.entry_set()
                            + kids.sw.entry_set()).contains(e2) && 0 <= ci < 4
                            && e2.0.spec_overlaps((*kids).spec_child(ci).bounds) implies
                    #[trigger] (*kids).spec_child(ci).entry_set().contains(e2) by {
                        if e2 != e {
                            assert((sets_before.0 + sets_before.1 + sets_before.2
                                + sets_before.3).contains(e2));
                            assert(old(self).entry_set().contains(e2));
                            assert(oldkids.spec_child(ci).entry_set().contains(e2));
                        }
                        if ci == 0 {
                            assert(oldkids.spec_child(0) == oldkids.nw);
                            assert((*kids).spec_child(0) == kids.nw);
                            assert(kids.nw.entry_set().contains(e2));
                        } else if ci == 1 {
                            assert(oldkids.spec_child(1) == oldkids.ne);
                            assert((*kids).spec_child(1) == kids.ne);
                            assert(kids.ne.entry_set().contains(e2));
                        } else if ci == 2 {
                            assert(oldkids.spec_child(2) == oldkids.se);
                            assert((*kids).spec_child(2) == kids.se);
                            assert(kids.se.entry_set().contains(e2));
                        } else {
                            assert(oldkids.spec_child(3) == oldkids.sw);
                            assert((*kids).spec_child(3) == kids.sw);
                            assert(kids.sw.entry_set().contains(e2));
                        }
                    }
                    assert(old(self).model().body == BodyModel::Node(Box::new(models_before)));
                    assert(bounds_fuel(self.bounds.spec_quadrant(0)) + 2 <= bounds_fuel(
                        old(self).bounds,
                    ) && bounds_fuel(self.bounds.spec_quadrant(1)) + 2 <= bounds_fuel(
                        old(self).bounds,
                    ) && bounds_fuel(self.bounds.spec_quadrant(2)) + 2 <= bounds_fuel(
                        old(self).bounds,
                    ) && bounds_fuel(self.bounds.spec_quadrant(3)) + 2 <= bounds_fuel(
                        old(self).bounds,
                    ));
                    assert forall|f: nat|
                        f >= bounds_fuel(old(self).bounds) implies (TreeModel {
                        bounds: old(self).bounds,
                        options: old(self).options,
                        depth: old(self).depth,
                        body: BodyModel::Node(
                            Box::new(
                                ChildrenModel {
                                    nw: kids.nw.model(),
                                    ne: kids.ne.model(),
                                    se: kids.se.model(),
                                    sw: kids.sw.model(),
                                },
                            ),
                        ),
                    }) == spec_insert_fueled(f, old(self).model(), location, value) by {
                        assert(bounds_fuel(old(self).bounds) >= 1);
                        let f1 = (f - 1) as nat;
                        assert(kids.nw.model() == spec_insert_fueled(
                            f1,
                            models_before.nw,
                            location,
                            value,
                        ));
                        assert(kids.ne.model() == spec_insert_fueled(
                            f1,
                            models_before.ne,
                            location,
                            value,
                        ));
                        assert(kids.se.model() == spec_insert_fueled(
                            f1,
                            models_before.se,
                            location,
                            value,
                        ));
                        assert(kids.sw.model() == spec_insert_fueled(
                            f1,
                            models_before.sw,
                            location,
                            value,
                        ));
                        assert(spec_insert_kids(f1, models_before, location, value)
                            == (ChildrenModel {
                            nw: kids.nw.model(),
                            ne: kids.ne.model(),
                            se: kids.se.model(),
                            sw: kids.sw.model(),
                        }));
                    }
                }
                self.body = Body::Node(children);
            },
        }
        Result::Ok(())
    }

    /// How many entries the leaves below this node hold, duplicates
    /// included.
    pub open spec fn spec_count(self) -> nat
        decreases self,
    {
        match self.body {
            Body::Empty => 0,
            Body::Leaf(elems) => elems@.len(),
            Body::Node(children) => children.nw.spec_count() + children.ne.spec_count()
                + children.se.spec_count() + children.sw.spec_count(),
        }
    }

    /// Count the entries stored among all leaves, duplicates included; the
    /// count saturates at `usize::MAX`.
    pub fn count(&self) -> (r: usize)
        ensures
            r == if self.spec_count() > usize::MAX {
                usize::MAX as nat
            } else {
                self.spec_count()
            },
        decreases *self,
    {
        match &self.body {
            Body::Empty => 0,
            Body::Leaf(elems) => elems.len(),
            Body::Node(children) => {
                let mut size: usize = children.nw.count();
                size = saturating_add_usize(size, children.ne.count());
                size = saturating_add_usize(size, children.se.count());
                size = saturating_add_usize(size, children.sw.count());
                size
            },
        }
    }

    /// The entries of a leaf node, copied out; `None` for an empty or
    /// internal node.
    pub fn elements(&self) -> (r: Option<Vec<(Location, u64)>>)
        ensures
            r is Some <==> self.body is Leaf,
            self.body is Leaf ==> r is Some && r->Some_0@ == self.body->Leaf_0@,
    {
        match &self.body {
            Body::Leaf(elems) => {
                let mut out: Vec<(Location, u64)> = Vec::with_capacity(elems.len());
                let mut i: usize = 0;
                while i < elems.len()
                    invariant
                        i <= elems@.len(),
                        out@ == elems@.take(i as int),
                    decreases elems@.len() - i,
                {
                    out.push(elems[i]);
                    proof {
                        assert(elems@.take(i + 1 as int) =~= elems@.take(i as int).push(
                            elems@[i as int],
                        ));
                    }
                    i = i + 1;
                }
                proof {
                    assert(elems@.take(elems@.len() as int) =~= elems@);
                }
                Option::Some(out)
            },
            _ => Option::None,
        }
    }

    /// The child tree of an internal node for the given quadrant; `None`
    /// for an empty or leaf node.
    pub fn region(&self, region: Region) -> (r: Option<&QuadTree>)
        ensures
            r is Some <==> self.body is Node,
            self.body is Node ==> r is Some && *r->Some_0 == self.body->Node_0.spec_child(
                region.spec_index(),
            ),
    {
        match &self.body {
            Body::Node(children) => Option::Some(
                match region {
                    Region::NorthWest => &children.nw,
                    Region::NorthEast => &children.ne,
                    Region::SouthEast => &children.se,
                    Region::SouthWest => &children.sw,
                },
            ),
            _ => Option::None,
        }
    }

    /// The leaf nodes below this node, in depth-first quadrant order
    /// (north-west, north-east, south-east, south-west). The order is
    /// deterministic but carries no further meaning.
    pub open spec fn spec_regions(self) -> Seq<QuadTree>
        decreases self,
    {
        match self.body {
            Body::Empty => Seq::empty(),
            Body::Leaf(_) => seq![self],
            Body::Node(children) => children.nw.spec_regions() + children.ne.spec_regions()
                + children.se.spec_regions() + children.sw.spec_regions(),
        }
    }

    /// Collect references to all leaf nodes, in depth-first quadrant order.
    pub fn regions(&self) -> (r: Vec<&QuadTree>)
        ensures
            r@.map_values(|t: &QuadTree| *t) == self.spec_regions(),
    {
        let mut dest: Vec<&QuadTree> = Vec::new();
        get_regions(&mut dest, self);
        proof {
            assert(Seq::<QuadTree>::empty() + self.spec_regions() =~= self.spec_regions());
        }
        dest
    }
}

/// In a well-formed tree the depth-first region list yields exactly the
/// non-empty leaves: each listed node is itself well formed, holds entries
/// directly — at least one of them — and its region lies within the tree's
/// region.
pub proof fn lemma_regions_wf(t: QuadTree)
    requires
        t.wf_tree(),
    ensures
        forall|k: int|
            0 <= k < t.spec_regions().len() ==> {
                let r = #[trigger] t.spec_regions()[k];
                &&& r.wf_tree()
                &&& r.body is Leaf
                &&& r.body->Leaf_0@.len() >= 1
                &&& t.bounds.min.x <= r.bounds.min.x && r.bounds.max.x <= t.bounds.max.x
                &&& t.bounds.min.y <= r.bounds.min.y && r.bounds.max.y <= t.bounds.max.y
            },
    decreases t,
{
    match t.body {
        Body::Empty => {
        },
        Body::Leaf(_) => {
        },
        Body::Node(children) => {
            lemma_quadrants_wf(t.bounds);
            assert(children.spec_child(0) == children.nw);
            assert(children.spec_child(1) == children.ne);
            assert(children.spec_child(2) == children.se);
            assert(children.spec_child(3) == children.sw);
            lemma_regions_wf(children.nw);
            lemma_regions_wf(children.ne);
            lemma_regions_wf(children.se);
            lemma_regions_wf(children.sw);
            let s0 = children.nw.spec_regions();
            let s1 = children.ne.spec_regions();
            let s2 = children.se.spec_regions();
            let s3 = children.sw.spec_regions();
            assert forall|k: int| 0 <= k < t.spec_regions().len() implies {
                let r = #[trigger] t.spec_regions()[k];
                &&& r.wf_tree()
                &&& r.body is Leaf
                &&& r.body->Leaf_0@.len() >= 1
                &&& t.bounds.min.x <= r.bounds.min.x && r.bounds.max.x <= t.bounds.max.x
                &&& t.bounds.min.y <= r.bounds.min.y && r.bounds.max.y <= t.bounds.max.y
            } by {
                if k < s0.len() {
                    assert(t.spec_regions()[k] == s0[k]);
                } else if k < s0.len() + s1.len() {
                    assert(t.spec_regions()[k] == s1[k - s0.len()]);
                } else if k < s0.len() + s1.len() + s2.len() {
                    assert(t.spec_regions()[k] == s2[k - s0.len() - s1.len()]);
                } else {
                    assert(t.spec_regions()[k] == s3[k - s0.len() - s1.len() - s2.len()]);
                }
            }
        },
    }
}

/// The duplication law of the index: an entry of a well-formed, complete
/// tree is stored in every leaf region its location overlaps — intentional
/// broad-phase completeness, so that a scan over any region a body touches
/// finds that body. `insert` establishes and preserves `complete`, so this
/// holds of every tree built from `new` by inserts.
pub proof fn lemma_entry_in_every_overlapping_leaf(t: QuadTree, e: (Location, u64))
    requires
        t.wf_tree(),
        t.complete(),
        t.entry_set().contains(e),
    ensures
        forall|k: int|
            0 <= k < t.spec_regions().len() && e.0.spec_overlaps(
                (#[trigger] t.spec_regions()[k]).bounds,
            ) ==> t.spec_regions()[k].body->Leaf_0@.contains(e),
    decreases t,
{
    match t.body {
        Body::Empty => {
            assert(!Set::<(Location, u64)>::empty().contains(e));
        },
        Body::Leaf(elems) => {
            assert(elems@.contains(e));
        },
        Body::Node(children) => {
            assert(children.spec_child(0) == children.nw);
            assert(children.spec_child(1) == children.ne);
            assert(children.spec_child(2) == children.se);
            assert(children.spec_child(3) == children.sw);
            lemma_regions_wf(children.nw);
            lemma_regions_wf(children.ne);
            lemma_regions_wf(children.se);
            lemma_regions_wf(children.sw);
            let s0 = children.nw.spec_regions();
            let s1 = children.ne.spec_regions();
            let s2 = children.se.spec_regions();
            let s3 = children.sw.spec_regions();
            assert forall|k: int|
                0 <= k < t.spec_regions().len() && e.0.spec_overlaps(
                    (#[trigger] t.spec_regions()[k]).bounds,
                ) implies t.spec_regions()[k].body->Leaf_0@.contains(e) by {
                if k < s0.len() {
                    assert(t.spec_regions()[k] == s0[k]);
                    assert(e.0.spec_overlaps(children.nw.bounds));
                    assert(children.spec_child(0).entry_set().contains(e));
                    lemma_entry_in_every_overlapping_leaf(children.nw, e);
                    assert(s0[k].body->Leaf_0@.contains(e));
                } else if k < s0.len() + s1.len() {
                    assert(t.spec_regions()[k] == s1[k - s0.len()]);
                    assert(e.0.spec_overlaps(children.ne.bounds));
                    assert(children.spec_child(1).entry_set().contains(e));
                    lemma_entry_in_every_overlapping_leaf(children.ne, e);
                    assert(s1[k - s0.len()].body->Leaf_0@.contains(e));
                } else if k < s0.len() + s1.len() + s2.len() {
                    assert(t.spec_regions()[k] == s2[k - s0.len() - s1.len()]);
                    assert(e.0.spec_overlaps(children.se.bounds));
                    assert(children.spec_child(2).entry_set().contains(e));
                    lemma_entry_in_every_overlapping_leaf(children.se, e);
                    assert(s2[k - s0.len() - s1.len()].body->Leaf_0@.contains(e));
                } else {
                    assert(t.spec_regions()[k] == s3[k - s0.len() - s1.len() - s2.len()]);
                    assert(e.0.spec_overlaps(children.sw.bounds));
                    assert(children.spec_child(3).entry_set().contains(e));
                    lemma_entry_in_every_overlapping_leaf(children.sw, e);
                    assert(s3[k - s0.len() - s1.len() - s2.len()].body->Leaf_0@.contains(e));
                }
            }
        },
    }
}

/// The leaf entry sequences of a model tree, in depth-first quadrant order;
/// mirrors `spec_regions` on the model side.
pub open spec fn model_regions(tm: TreeModel) -> Seq<Seq<(Location, u64)>>
    decreases tm,
{
    match tm.body {
        BodyModel::Empty => Seq::empty(),
        BodyModel::Leaf(elems) => seq![elems],
        BodyModel::Node(children) => model_regions(children.nw) + model_regions(children.ne)
            + model_regions(children.se) + model_regions(children.sw),
    }
}

/// Every node a traversal yields holds entries directly, whatever the tree.
pub proof fn lemma_regions_leaf_bodies(t: QuadTree)
    ensures
        forall|k: int|
            0 <= k < t.spec_regions().len() ==> (#[trigger] t.spec_regions()[k]).body is Leaf,
    decreases t,
{
    match t.body {
        Body::Empty => {
        },
        Body::Leaf(_) => {
        },
        Body::Node(children) => {
            lemma_regions_leaf_bodies(children.nw);
            lemma_regions_leaf_bodies(children.ne);
            lemma_regions_leaf_bodies(children.se);
            lemma_regions_leaf_bodies(children.sw);
            let s0 = children.nw.spec_regions();
            let s1 = children.ne.spec_regions();
            let s2 = children.se.spec_regions();
            let s3 = children.sw.spec_regions();
            assert forall|k: int| 0 <= k < t.spec_regions().len() implies (
            #[trigger] t.spec_regions()[k]).body is Leaf by {
                if k < s0.len() {
                    assert(t.spec_regions()[k] == s0[k]);
                } else if k < s0.len() + s1.len() {
                    assert(t.spec_regions()[k] == s1[k - s0.len()]);
                } else if k < s0.len() + s1.len() + s2.len() {
                    assert(t.spec_regions()[k] == s2[k - s0.len() - s1.len()]);
                } else {
                    assert(t.spec_regions()[k] == s3[k - s0.len() - s1.len() - s2.len()]);
                }
            }
        },
    }
}

/// The model's region list matches the tree's: the same leaves, in the same
/// depth-first quadrant order, with the same entries in the same order.
pub proof fn lemma_model_regions(t: QuadTree)
    ensures
        t.spec_regions().map_values(|r: QuadTree| r.body->Leaf_0@) == model_regions(t.model()),
    decreases t,
{
    let f = |r: QuadTree| r.body->Leaf_0@;
    match t.body {
        Body::Empty => {
            assert(t.spec_regions().map_values(f) =~= model_regions(t.model()));
        },
        Body::Leaf(elems) => {
            assert(t.spec_regions().map_values(f) =~= seq![elems@]);
        },
        Body::Node(children) => {
            lemma_model_regions(children.nw);
            lemma_model_regions(children.ne);
            lemma_model_regions(children.se);
            lemma_model_regions(children.sw);
            let s0 = children.nw.spec_regions();
            let s1 = children.ne.spec_regions();
            let s2 = children.se.spec_regions();
            let s3 = children.sw.spec_regions();
            assert forall|k: int| 0 <= k < t.spec_regions().len() implies #[trigger] t.spec_regions().map_values(
                f,
            )[k] == model_regions(t.model())[k] by {
                if k < s0.len() {
                    assert(t.spec_regions()[k] == s0[k]);
                    assert(model_regions(t.model())[k] == model_regions(children.nw.model())[k]);
                } else if k < s0.len() + s1.len() {
                    assert(t.spec_regions()[k] == s1[k - s0.len()]);
                    assert(model_regions(t.model())[k] == model_regions(children.ne.model())[k
                        - s0.len()]);
                } else if k < s0.len() + s1.len() + s2.len() {
                    assert(t.spec_regions()[k] == s2[k - s0.len() - s1.len()]);
                    assert(model_regions(t.model())[k] == model_regions(children.se.model())[k
                        - s0.len() - s1.len()]);
                } else {
                    assert(t.spec_regions()[k] == s3[k - s0.len() - s1.len() - s2.len()]);
                    assert(model_regions(t.model())[k] == model_regions(children.sw.model())[k
                        - s0.len() - s1.len() - s2.len()]);
                }
            }
            assert(t.spec_regions().map_values(f) =~= model_regions(t.model()));
        },
    }
}

/// A well-formed tree is `Empty` exactly when it counts no entries.
pub proof fn lemma_empty_iff_count_zero(t: QuadTree)
    requires
        t.wf_tree(),
    ensures
        (t.body is Empty) <==> t.spec_count() == 0,
{
}

/// Saturating addition on `usize`.
fn saturating_add_usize(a: usize, b: usize) -> (r: usize)
    ensures
        r == if a + b > usize::MAX {
            usize::MAX as int
        } else {
            a + b
        },
{
    if a > usize::MAX - b {
        usize::MAX
    } else {
        a + b
    }
}

/// Depth-first traversal appending every leaf below `tree` to `dest`.
fn get_regions<'a>(dest: &mut Vec<&'a QuadTree>, tree: &'a QuadTree)
    ensures
        final(dest)@.map_values(|t: &QuadTree| *t) == old(dest)@.map_values(|t: &QuadTree| *t)
            + tree.spec_regions(),
    decreases *tree,
{
    match &tree.body {
        Body::Empty => {
            proof {
                assert(dest@.map_values(|t: &QuadTree| *t) + tree.spec_regions() =~= dest@
                    .map_values(|t: &QuadTree| *t));
            }
        },
        Body::Leaf(_) => {
            let ghost before = dest@;
            dest.push(tree);
            proof {
                assert(dest@.map_values(|t: &QuadTree| *t) =~= before.map_values(
                    |t: &QuadTree| *t,
                ) + tree.spec_regions());
            }
        },
        Body::Node(children) => {
            let ghost before = dest@;
            get_regions(dest, &children.nw);
            get_regions(dest, &children.ne);
            get_regions(dest, &children.se);
            get_regions(dest, &children.sw);
            proof {
                assert(dest@.map_values(|t: &QuadTree| *t) =~= before.map_values(
                    |t: &QuadTree| *t,
                ) + tree.spec_regions());
            }
        },
    }
}

} // verus!
