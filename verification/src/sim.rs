use vstd::prelude::*;

use crate::bounds::Bounds;
use crate::collision::Ball;
use crate::collision::BallCollisions;
use crate::collision::bounce_applies;
use crate::collision::EdgeCollider;
use crate::collision::in_pos_guard;
use crate::collision::in_vel_guard;
use crate::collision::spec_colliding;
use crate::collision::spec_correction;
use crate::collision::spec_impulse;
use crate::collision::Velocity;
use crate::collision::VEL_GUARD;
use crate::quadtree::Body;
use crate::quadtree::BodyModel;
use crate::quadtree::bounds_fuel;
use crate::quadtree::lemma_model_regions;
use crate::quadtree::lemma_regions_leaf_bodies;
use crate::quadtree::model_regions;
use crate::quadtree::spec_insert_fueled;
use crate::quadtree::spec_insert_tree;
use crate::quadtree::TreeModel;
use crate::location::Location;
use crate::num::div_trunc;
use crate::num::div_trunc_i128;
use crate::num::lemma_div_trunc_bound;
use crate::point::Point;
use crate::quadtree::ErrorKind;
use crate::quadtree::Options;
use crate::quadtree::QuadTree;

verus! {

/// Half-width of the region an arena may occupy: small enough that a
/// position mirrored at a wall stays far inside every other range the tick
/// works with.
pub const ARENA_LIMIT: i64 = 0x4_0000_0000_0000;

/// Largest timestep ratio the tick accepts: `dt_num / dt_den` of at most
/// this many seconds.
pub const DT_LIMIT: i64 = 0x10_0000;

/// Positions a tick accepts on entry; the phases of the tick then stay
/// within all the defensive guards of the collision arithmetic.
pub const TICK_POS_LIMIT: i64 = 0x10_0000_0000_0000;

/// One simulated body as the per-tick pipeline sees it: a stable id, a
/// mutable position and velocity, and the immutable radius and mass.
#[derive(Clone, Copy, Debug, PartialEq, Eq, Structural)]
pub struct SimBody {
    pub id: u64,
    pub pos: Point,
    pub vel: Velocity,
    pub ball: Ball,
}

/// What the move phase does to one body: the velocity scaled by the
/// timestep ratio (rounded towards zero) is added to the position. A body
/// outside the defensive guards is left in place.
pub open spec fn spec_moved(b: SimBody, num: int, den: int) -> SimBody {
    if in_pos_guard(b.pos) && in_vel_guard(b.vel) {
        SimBody {
            id: b.id,
            pos: Point {
                x: (b.pos.x + div_trunc(b.vel.0.x * num, den)) as i64,
                y: (b.pos.y + div_trunc(b.vel.0.y * num, den)) as i64,
            },
            vel: b.vel,
            ball: b.ball,
        }
    } else {
        b
    }
}

/// Move every body by its velocity times the timestep `dt_num / dt_den`.
pub fn apply_velocity(bodies: &mut Vec<SimBody>, dt_num: i64, dt_den: i64)
    requires
        1 <= dt_den,
        0 <= dt_num <= DT_LIMIT * dt_den,
    ensures
        final(bodies)@.len() == old(bodies)@.len(),
        forall|i: int|
            0 <= i < old(bodies)@.len() ==> final(bodies)@[i] == spec_moved(
                old(bodies)@[i],
                dt_num as int,
                dt_den as int,
            ),
{
    let mut i: usize = 0;
    while i < bodies.len()
        invariant
            i <= bodies@.len(),
            bodies@.len() == old(bodies)@.len(),
            1 <= dt_den,
            0 <= dt_num <= DT_LIMIT * dt_den,
            forall|j: int|
                0 <= j < i ==> bodies@[j] == spec_moved(
                    old(bodies)@[j],
                    dt_num as int,
                    dt_den as int,
                ),
            forall|j: int| i <= j < bodies@.len() ==> bodies@[j] == old(bodies)@[j],
        decreases bodies@.len() - i,
    {
        let b = bodies[i];
        if b.pos.x >= -crate::collision::POS_GUARD && b.pos.x <= crate::collision::POS_GUARD
            && b.pos.y >= -crate::collision::POS_GUARD && b.pos.y <= crate::collision::POS_GUARD
            && b.vel.0.x >= -VEL_GUARD && b.vel.0.x <= VEL_GUARD && b.vel.0.y >= -VEL_GUARD
            && b.vel.0.y <= VEL_GUARD {
            proof {
                assert(-(0x4_0000_0000_0000 * (dt_den as int)) <= (b.vel.0.x as int) * (
                dt_num as int) <= 0x4_0000_0000_0000 * (dt_den as int)) by (nonlinear_arith)
                    requires
                        -VEL_GUARD <= b.vel.0.x <= VEL_GUARD,
                        0 <= dt_num <= DT_LIMIT * dt_den,
                        1 <= dt_den,
                        VEL_GUARD == 0x4000_0000,
                        DT_LIMIT == 0x10_0000,
                ;
                assert(-(0x4_0000_0000_0000 * (dt_den as int)) <= (b.vel.0.y as int) * (
                dt_num as int) <= 0x4_0000_0000_0000 * (dt_den as int)) by (nonlinear_arith)
                    requires
                        -VEL_GUARD <= b.vel.0.y <= VEL_GUARD,
                        0 <= dt_num <= DT_LIMIT * dt_den,
                        1 <= dt_den,
                        VEL_GUARD == 0x4000_0000,
                        DT_LIMIT == 0x10_0000,
                ;
                lemma_div_trunc_bound(
                    (b.vel.0.x as int) * (dt_num as int),
                    dt_den as int,
                    0x4_0000_0000_0000,
                );
                lemma_div_trunc_bound(
                    (b.vel.0.y as int) * (dt_num as int),
                    dt_den as int,
                    0x4_0000_0000_0000,
                );
            }
            let qx: i128 = div_trunc_i128(
                (b.vel.0.x as i128) * (dt_num as i128),
                dt_den as i128,
            );
            let qy: i128 = div_trunc_i128(
                (b.vel.0.y as i128) * (dt_num as i128),
                dt_den as i128,
            );
            let moved = SimBody {
                id: b.id,
                pos: Point { x: b.pos.x + (qx as i64), y: b.pos.y + (qy as i64) },
                vel: b.vel,
                ball: b.ball,
            };
            bodies[i] = moved;
        }
        i = i + 1;
    }
}

/// The coordinates and speeds the wall checks can mirror without overflow.
pub open spec fn wall_ok(b: SimBody) -> bool {
    &&& crate::collision::wall_range(b.pos.x as int)
    &&& crate::collision::wall_range(b.pos.y as int)
    &&& -i64::MAX <= b.vel.0.x
    &&& -i64::MAX <= b.vel.0.y
}

/// What the wall phase does to one body: the left then right wall on the x
/// axis, the top then bottom wall on the y axis, each pair short-circuited —
/// correcting one edge cannot also trigger the opposite edge in the same
/// tick. A body outside the defensive guards is left in place.
pub open spec fn spec_walled(eb: Bounds, b: SimBody) -> SimBody {
    if wall_ok(b) {
        let min_x = eb.spec_left() + b.ball.radius;
        let max_x = eb.spec_right() - b.ball.radius;
        let min_y = eb.spec_bottom() + b.ball.radius;
        let max_y = eb.spec_top() - b.ball.radius;
        let x1 = if b.pos.x <= min_x {
            (2 * min_x - b.pos.x, -b.vel.0.x)
        } else if b.pos.x >= max_x {
            (2 * max_x - b.pos.x, -b.vel.0.x)
        } else {
            (b.pos.x as int, b.vel.0.x as int)
        };
        let y1 = if b.pos.y >= max_y {
            (2 * max_y - b.pos.y, -b.vel.0.y)
        } else if b.pos.y <= min_y {
            (2 * min_y - b.pos.y, -b.vel.0.y)
        } else {
            (b.pos.y as int, b.vel.0.y as int)
        };
        SimBody {
            id: b.id,
            pos: Point { x: x1.0 as i64, y: y1.0 as i64 },
            vel: Velocity(Point { x: x1.1 as i64, y: y1.1 as i64 }),
            ball: b.ball,
        }
    } else {
        b
    }
}

/// Resolve wall collisions for every body against the arena boundary.
pub fn check_walls(edge: &EdgeCollider, bodies: &mut Vec<SimBody>)
    requires
        edge.bounds.wf(),
        forall|i: int| 0 <= i < old(bodies)@.len() ==> (#[trigger] old(bodies)@[i]).ball.wf(),
    ensures
        final(bodies)@.len() == old(bodies)@.len(),
        forall|i: int|
            0 <= i < old(bodies)@.len() ==> final(bodies)@[i] == spec_walled(
                edge.bounds,
                old(bodies)@[i],
            ),
{
    let mut i: usize = 0;
    while i < bodies.len()
        invariant
            i <= bodies@.len(),
            bodies@.len() == old(bodies)@.len(),
            edge.bounds.wf(),
            forall|j: int| 0 <= j < bodies@.len() ==> (#[trigger] old(bodies)@[j]).ball.wf(),
            forall|j: int| 0 <= j < i ==> bodies@[j] == spec_walled(edge.bounds, old(bodies)@[j]),
            forall|j: int| i <= j < bodies@.len() ==> bodies@[j] == old(bodies)@[j],
        decreases bodies@.len() - i,
    {
        let b = bodies[i];
        if b.pos.x >= -0x1000_0000_0000_0000 && b.pos.x <= 0x1000_0000_0000_0000 && b.pos.y
            >= -0x1000_0000_0000_0000 && b.pos.y <= 0x1000_0000_0000_0000 && b.vel.0.x
            > i64::MIN && b.vel.0.y > i64::MIN {
            let mut pos = b.pos;
            let mut vel = b.vel;
            let hit_left = edge.check_left(&b.ball, &mut pos, &mut vel);
            if !hit_left {
                let _ = edge.check_right(&b.ball, &mut pos, &mut vel);
            }
            let hit_top = edge.check_top(&b.ball, &mut pos, &mut vel);
            if !hit_top {
                let _ = edge.check_bottom(&b.ball, &mut pos, &mut vel);
            }
            let walled = SimBody { id: b.id, pos, vel, ball: b.ball };
            bodies[i] = walled;
        }
        i = i + 1;
    }
}

/// The location a body occupies in the spatial index: its bounding square of
/// side twice the radius, or a point probe for a radius of zero.
pub open spec fn spec_body_location(b: SimBody) -> Location {
    if b.ball.radius == 0 {
        Location::Point(b.pos)
    } else {
        Location::Area(
            Bounds {
                min: Point {
                    x: (b.pos.x - b.ball.radius) as i64,
                    y: (b.pos.y - b.ball.radius) as i64,
                },
                max: Point {
                    x: (b.pos.x - b.ball.radius + 2 * b.ball.radius) as i64,
                    y: (b.pos.y - b.ball.radius + 2 * b.ball.radius) as i64,
                },
            },
        )
    }
}

/// The positions the index build accepts: far enough inside the coordinate
/// space that a body's bounding square exists.
pub open spec fn loc_range(b: SimBody) -> bool {
    &&& -(crate::bounds::SPACE_LIMIT - crate::collision::RADIUS_LIMIT) <= b.pos.x
        <= crate::bounds::SPACE_LIMIT - crate::collision::RADIUS_LIMIT
    &&& -(crate::bounds::SPACE_LIMIT - crate::collision::RADIUS_LIMIT) <= b.pos.y
        <= crate::bounds::SPACE_LIMIT - crate::collision::RADIUS_LIMIT
}

/// The diagnostics the index build reports, in body order: one out-of-bounds
/// error for each body whose location does not overlap the arena.
pub open spec fn spec_insert_errors(bodies: Seq<SimBody>, arena: Bounds) -> Seq<ErrorKind>
    decreases bodies.len(),
{
    if bodies.len() == 0 {
        Seq::empty()
    } else {
        let rest = spec_insert_errors(bodies.drop_last(), arena);
        let b = bodies.last();
        if spec_body_location(b).spec_overlaps(arena) {
            rest
        } else {
            rest.push(ErrorKind::OutOfBounds(arena, spec_body_location(b)))
        }
    }
}

/// The entries the index build stores: the location and id of every body
/// whose location overlaps the arena.
pub open spec fn spec_indexed_entries(bodies: Seq<SimBody>, arena: Bounds) -> Set<(Location, u64)>
    decreases bodies.len(),
{
    if bodies.len() == 0 {
        Set::empty()
    } else {
        let rest = spec_indexed_entries(bodies.drop_last(), arena);
        let b = bodies.last();
        if spec_body_location(b).spec_overlaps(arena) {
            rest.insert((spec_body_location(b), b.id))
        } else {
            rest
        }
    }
}

/// The index the tick builds, as a model: an empty tree over the arena,
/// with every body's location inserted in order. `spec_insert_tree` is
/// constructive, so this pins the built tree completely — shape, leaf
/// order, duplicates and all.
pub open spec fn spec_build(bodies: Seq<SimBody>, arena: Bounds, options: Options) -> TreeModel
    decreases bodies.len(),
{
    if bodies.len() == 0 {
        TreeModel { bounds: arena, options, depth: 0, body: BodyModel::Empty }
    } else {
        spec_insert_tree(
            spec_build(bodies.drop_last(), arena, options),
            spec_body_location(bodies.last()),
            bodies.last().id,
        )
    }
}

/// Build a fresh spatial index over the arena and insert every body's
/// location; bodies outside the arena are reported, not indexed, and the
/// tick goes on without them. The result is exactly `spec_build`.
pub fn build_index(bodies: &Vec<SimBody>, arena: Bounds, options: Options) -> (r: (
    QuadTree,
    Vec<ErrorKind>,
))
    requires
        arena.wf(),
        options.wf(),
        forall|i: int|
            0 <= i < bodies@.len() ==> (#[trigger] bodies@[i]).ball.wf() && loc_range(bodies@[i]),
    ensures
        r.0.wf_tree(),
        r.0.leaves_ok(),
        r.0.complete(),
        r.0.bounds == arena,
        r.0.options == options,
        r.0.depth == 0,
        r.0.entry_set() == spec_indexed_entries(bodies@, arena),
        r.0.model() == spec_build(bodies@, arena, options),
        r.1@ == spec_insert_errors(bodies@, arena),
{
    let mut tree = QuadTree::new(arena, options);
    let mut errors: Vec<ErrorKind> = Vec::new();
    let mut i: usize = 0;
    while i < bodies.len()
        invariant
            i <= bodies@.len(),
            arena.wf(),
            options.wf(),
            forall|j: int|
                0 <= j < bodies@.len() ==> (#[trigger] bodies@[j]).ball.wf() && loc_range(
                    bodies@[j],
                ),
            tree.wf_tree(),
            tree.leaves_ok(),
            tree.complete(),
            tree.bounds == arena,
            tree.options == options,
            tree.depth == 0,
            tree.entry_set() == spec_indexed_entries(bodies@.take(i as int), arena),
            tree.model() == spec_build(bodies@.take(i as int), arena, options),
            errors@ == spec_insert_errors(bodies@.take(i as int), arena),
        decreases bodies@.len() - i,
    {
        let b = bodies[i];
        let loc = Location::new(b.pos, 2 * b.ball.radius, 2 * b.ball.radius);
        let ghost model_before = tree.model();
        proof {
            assert(loc == spec_body_location(b));
            assert(bodies@.take(i + 1 as int).drop_last() =~= bodies@.take(i as int));
            assert(bodies@.take(i + 1 as int).last() == bodies@[i as int]);
            assert(model_before.bounds == arena);
        }
        match tree.insert(loc, b.id) {
            Result::Ok(_) => {
            },
            Result::Err(e) => {
                errors.push(e);
            },
        }
        proof {
            assert(tree.model() == spec_insert_fueled(
                bounds_fuel(model_before.bounds),
                model_before,
                loc,
                b.id,
            ));
            assert(tree.model() == spec_insert_tree(model_before, loc, b.id));
        }
        i = i + 1;
    }
    proof {
        assert(bodies@.take(bodies@.len() as int) =~= bodies@);
    }
    (tree, errors)
}

/// The first index at or after `i` holding the given id, if any.
pub open spec fn spec_find_from(bodies: Seq<SimBody>, id: u64, i: int) -> Option<int>
    decreases bodies.len() - i,
{
    if 0 <= i && i < bodies.len() {
        if bodies[i].id == id {
            Option::Some(i)
        } else {
            spec_find_from(bodies, id, i + 1)
        }
    } else {
        Option::None
    }
}

/// The first index holding the given id, if any: how every phase of the
/// tick resolves a body id to the body store.
pub open spec fn spec_find(bodies: Seq<SimBody>, id: u64) -> Option<int> {
    spec_find_from(bodies, id, 0)
}

/// The index of the first body with the given id, if any.
pub fn find_body(bodies: &Vec<SimBody>, id: u64) -> (r: Option<usize>)
    ensures
        r is Some ==> r->Some_0 < bodies@.len() && bodies@[r->Some_0 as int].id == id
            && spec_find(bodies@, id) == Option::Some(r->Some_0 as int),
        r is None ==> spec_find(bodies@, id) is None && forall|i: int|
            0 <= i < bodies@.len() ==> bodies@[i].id != id,
{
    let mut i: usize = 0;
    while i < bodies.len()
        invariant
            i <= bodies@.len(),
            forall|j: int| 0 <= j < i ==> bodies@[j].id != id,
            spec_find(bodies@, id) == spec_find_from(bodies@, id, i as int),
        decreases bodies@.len() - i,
    {
        if bodies[i].id == id {
            return Option::Some(i);
        }
        i = i + 1;
    }
    Option::None
}

/// What one pair test of the broad phase does to the body store and the
/// recorded pairs: resolve both ids to bodies, and if they are two distinct
/// bodies, correct their positions and record the pair exactly when the
/// circles overlap (`spec_checked`); otherwise change nothing.
pub open spec fn spec_checked(a_pos: Point, a_ball: Ball, b_pos: Point, b_ball: Ball) -> (
    Point,
    Point,
    bool,
) {
    let hit = in_pos_guard(a_pos) && in_pos_guard(b_pos) && spec_colliding(
        a_pos,
        b_pos,
        a_ball.radius as int,
        b_ball.radius as int,
    );
    if hit {
        let c = spec_correction(a_pos, b_pos, a_ball.radius + b_ball.radius);
        (
            Point { x: (a_pos.x - c.0) as i64, y: (a_pos.y - c.1) as i64 },
            Point { x: (b_pos.x + c.0) as i64, y: (b_pos.y + c.1) as i64 },
            true,
        )
    } else {
        (a_pos, b_pos, false)
    }
}

/// One pair test of the broad phase over the running (bodies, pairs) state.
pub open spec fn spec_check_pair(st: (Seq<SimBody>, Seq<(u64, u64)>), a: u64, b: u64) -> (
    Seq<SimBody>,
    Seq<(u64, u64)>,
) {
    if a == b {
        st
    } else {
        let fa = spec_find(st.0, a);
        let fb = spec_find(st.0, b);
        if fa is Some && fb is Some && fa->Some_0 != fb->Some_0 {
            let ia = fa->Some_0;
            let ib = fb->Some_0;
            let ba = st.0[ia];
            let bb = st.0[ib];
            let c = spec_checked(ba.pos, ba.ball, bb.pos, bb.ball);
            (
                st.0.update(ia, SimBody { id: ba.id, pos: c.0, vel: ba.vel, ball: ba.ball }).update(
                    ib,
                    SimBody { id: bb.id, pos: c.1, vel: bb.vel, ball: bb.ball },
                ),
                if c.2 {
                    st.1.push((a, b))
                } else {
                    st.1
                },
            )
        } else {
            st
        }
    }
}

/// The tail of one row of a region's pairwise scan: pairs (i, j) for the
/// given i, from the given j upward.
pub open spec fn spec_scan_row(
    st: (Seq<SimBody>, Seq<(u64, u64)>),
    elems: Seq<(Location, u64)>,
    i: int,
    j: int,
) -> (Seq<SimBody>, Seq<(u64, u64)>)
    decreases elems.len() - j,
{
    if 0 <= i && i < elems.len() && 0 <= j && j < elems.len() {
        spec_scan_row(spec_check_pair(st, elems[i].1, elems[j].1), elems, i, j + 1)
    } else {
        st
    }
}

/// The rows of a region's pairwise scan from row i upward: each unordered
/// index pair i < j is tested once.
pub open spec fn spec_scan_rows(
    st: (Seq<SimBody>, Seq<(u64, u64)>),
    elems: Seq<(Location, u64)>,
    i: int,
) -> (Seq<SimBody>, Seq<(u64, u64)>)
    decreases elems.len() - i,
{
    if 0 <= i && i < elems.len() {
        spec_scan_rows(spec_scan_row(st, elems, i, i + 1), elems, i + 1)
    } else {
        st
    }
}

/// The scan of one region: a leaf with at least two entries is scanned
/// pairwise; anything else contributes nothing.
pub open spec fn spec_scan_region(st: (Seq<SimBody>, Seq<(u64, u64)>), region: QuadTree) -> (
    Seq<SimBody>,
    Seq<(u64, u64)>,
) {
    match region.body {
        Body::Leaf(elems) => if elems@.len() >= 2 {
            spec_scan_rows(st, elems@, 0)
        } else {
            st
        },
        _ => st,
    }
}

/// The whole broad phase: the regions of the index, in depth-first quadrant
/// order, scanned one after the other from index r upward, threading the
/// body store and the recorded pairs through.
pub open spec fn spec_broad_phase(
    st: (Seq<SimBody>, Seq<(u64, u64)>),
    regions: Seq<QuadTree>,
    r: int,
) -> (Seq<SimBody>, Seq<(u64, u64)>)
    decreases regions.len() - r,
{
    if 0 <= r && r < regions.len() {
        spec_broad_phase(spec_scan_region(st, regions[r]), regions, r + 1)
    } else {
        st
    }
}

/// The scan of one region's entry list: two or more entries are scanned
/// pairwise; fewer contribute nothing.
pub open spec fn spec_scan_entries(
    st: (Seq<SimBody>, Seq<(u64, u64)>),
    elems: Seq<(Location, u64)>,
) -> (Seq<SimBody>, Seq<(u64, u64)>) {
    if elems.len() >= 2 {
        spec_scan_rows(st, elems, 0)
    } else {
        st
    }
}

/// The broad phase over the regions' entry lists, from index r upward: the
/// same fold as `spec_broad_phase`, phrased over the model's region list so
/// that a tick's contract can use the constructively built index.
pub open spec fn spec_broad_phase_entries(
    st: (Seq<SimBody>, Seq<(u64, u64)>),
    rss: Seq<Seq<(Location, u64)>>,
    r: int,
) -> (Seq<SimBody>, Seq<(u64, u64)>)
    decreases rss.len() - r,
{
    if 0 <= r && r < rss.len() {
        spec_broad_phase_entries(spec_scan_entries(st, rss[r]), rss, r + 1)
    } else {
        st
    }
}

/// The two forms of the broad-phase fold agree: scanning leaf regions is
/// scanning their entry lists.
proof fn lemma_broad_phase_entries(
    st: (Seq<SimBody>, Seq<(u64, u64)>),
    rs: Seq<QuadTree>,
    k: int,
)
    requires
        forall|j: int| 0 <= j < rs.len() ==> (#[trigger] rs[j]).body is Leaf,
    ensures
        spec_broad_phase(st, rs, k) == spec_broad_phase_entries(
            st,
            rs.map_values(|r: QuadTree| r.body->Leaf_0@),
            k,
        ),
    decreases rs.len() - k,
{
    let ms = rs.map_values(|r: QuadTree| r.body->Leaf_0@);
    if 0 <= k && k < rs.len() {
        assert(spec_scan_region(st, rs[k]) == spec_scan_entries(st, ms[k]));
        lemma_broad_phase_entries(spec_scan_region(st, rs[k]), rs, k + 1);
    }
}

/// What the impulse response does to the two bodies of one recorded pair:
/// the mass-weighted elastic velocity updates of
/// `balls_bounce_after_collision`, or no change for a degenerate pair.
pub open spec fn spec_bounced(ba: SimBody, bb: SimBody) -> (Velocity, Velocity) {
    if bounce_applies(ba.pos, ba.vel, ba.ball, bb.pos, bb.vel, bb.ball) {
        let dx = ba.pos.x - bb.pos.x;
        let dy = ba.pos.y - bb.pos.y;
        let kx = ba.vel.0.x - bb.vel.0.x;
        let ky = ba.vel.0.y - bb.vel.0.y;
        let msum = ba.ball.mass + bb.ball.mass;
        let qa = spec_impulse(dx, dy, kx, ky, bb.ball.mass as int, msum);
        let qb = spec_impulse(dx, dy, kx, ky, ba.ball.mass as int, msum);
        (
            Velocity(Point { x: (ba.vel.0.x - qa.0) as i64, y: (ba.vel.0.y - qa.1) as i64 }),
            Velocity(Point { x: (bb.vel.0.x + qb.0) as i64, y: (bb.vel.0.y + qb.1) as i64 }),
        )
    } else {
        (ba.vel, bb.vel)
    }
}

/// One step of the response pass: resolve the recorded pair's ids, and if
/// they are two distinct bodies, apply the elastic impulse to their
/// velocities.
pub open spec fn spec_respond_pair(bodies: Seq<SimBody>, a: u64, b: u64) -> Seq<SimBody> {
    let fa = spec_find(bodies, a);
    let fb = spec_find(bodies, b);
    if fa is Some && fb is Some && fa->Some_0 != fb->Some_0 {
        let ia = fa->Some_0;
        let ib = fb->Some_0;
        let ba = bodies[ia];
        let bb = bodies[ib];
        let v = spec_bounced(ba, bb);
        bodies.update(ia, SimBody { id: ba.id, pos: ba.pos, vel: v.0, ball: ba.ball }).update(
            ib,
            SimBody { id: bb.id, pos: bb.pos, vel: v.1, ball: bb.ball },
        )
    } else {
        bodies
    }
}

/// The whole response pass: the recorded pairs applied in order, from index
/// k upward.
pub open spec fn spec_respond_from(bodies: Seq<SimBody>, pairs: Seq<(u64, u64)>, k: int) -> Seq<
    SimBody,
>
    decreases pairs.len() - k,
{
    if 0 <= k && k < pairs.len() {
        spec_respond_from(spec_respond_pair(bodies, pairs[k].0, pairs[k].1), pairs, k + 1)
    } else {
        bodies
    }
}

/// Only positions may differ between the two body stores: ids, velocities
/// and shapes are untouched, index by index.
pub open spec fn only_positions_changed(a: Seq<SimBody>, b: Seq<SimBody>) -> bool {
    &&& a.len() == b.len()
    &&& forall|i: int|
        0 <= i < a.len() ==> (#[trigger] b[i]).id == a[i].id && b[i].vel == a[i].vel && b[i].ball
            == a[i].ball
}

/// Only velocities may differ between the two body stores: ids, positions
/// and shapes are untouched, index by index.
pub open spec fn only_velocities_changed(a: Seq<SimBody>, b: Seq<SimBody>) -> bool {
    &&& a.len() == b.len()
    &&& forall|i: int|
        0 <= i < a.len() ==> (#[trigger] b[i]).id == a[i].id && b[i].pos == a[i].pos && b[i].ball
            == a[i].ball
}

/// The broad phase: for every leaf region of the index holding at least two
/// entries, test each unordered pair of distinct ids once, correcting
/// overlap in place and recording the collided pairs in the order found.
/// The result is exactly the fold `spec_broad_phase` of the pair-check
/// transition over the index's regions in depth-first quadrant order.
pub fn collide_regions(bodies: &mut Vec<SimBody>, tree: &QuadTree) -> (pairs: Vec<(u64, u64)>)
    requires
        forall|i: int| 0 <= i < old(bodies)@.len() ==> (#[trigger] old(bodies)@[i]).ball.wf(),
    ensures
        only_positions_changed(old(bodies)@, final(bodies)@),
        forall|k: int| 0 <= k < pairs@.len() ==> (#[trigger] pairs@[k]).0 != pairs@[k].1,
        ({
            let st = spec_broad_phase(
                (old(bodies)@, Seq::<(u64, u64)>::empty()),
                tree.spec_regions(),
                0,
            );
            final(bodies)@ == st.0 && pairs@ == st.1
        }),
{
    let ghost rseq = tree.spec_regions();
    let ghost target = spec_broad_phase((old(bodies)@, Seq::<(u64, u64)>::empty()), rseq, 0);
    let regions = tree.regions();
    let mut collisions = BallCollisions::new(Option::None);
    let mut ri: usize = 0;
    while ri < regions.len()
        invariant
            regions@.map_values(|t: &QuadTree| *t) == rseq,
            ri <= regions@.len(),
            forall|n: int| 0 <= n < old(bodies)@.len() ==> (#[trigger] old(bodies)@[n]).ball.wf(),
            only_positions_changed(old(bodies)@, bodies@),
            forall|k: int|
                0 <= k < collisions.store@.len() ==> (#[trigger] collisions.store@[k]).0
                    != collisions.store@[k].1,
            spec_broad_phase((bodies@, collisions.store@), rseq, ri as int) == target,
        decreases regions@.len() - ri,
    {
        let region = regions[ri];
        proof {
            assert(*region == rseq[ri as int]);
        }
        let ghost st_region = (bodies@, collisions.store@);
        let elems_opt = region.elements();
        match elems_opt {
            Option::None => {
            },
            Option::Some(elems) => {
                if elems.len() >= 2 {
                    let mut i: usize = 0;
                    while i < elems.len()
                        invariant
                            i <= elems@.len(),
                            forall|n: int|
                                0 <= n < old(bodies)@.len() ==> (#[trigger] old(
                                    bodies,
                                )@[n]).ball.wf(),
                            only_positions_changed(old(bodies)@, bodies@),
                            forall|k: int|
                                0 <= k < collisions.store@.len()
                                    ==> (#[trigger] collisions.store@[k]).0
                                    != collisions.store@[k].1,
                            spec_scan_rows((bodies@, collisions.store@), elems@, i as int)
                                == spec_scan_rows(st_region, elems@, 0),
                        decreases elems@.len() - i,
                    {
                        let mut j: usize = i + 1;
                        while j < elems.len()
                            invariant
                                i < elems@.len(),
                                i < j <= elems@.len(),
                                forall|n: int|
                                    0 <= n < old(bodies)@.len() ==> (#[trigger] old(
                                        bodies,
                                    )@[n]).ball.wf(),
                                only_positions_changed(old(bodies)@, bodies@),
                                forall|k: int|
                                    0 <= k < collisions.store@.len()
                                        ==> (#[trigger] collisions.store@[k]).0
                                        != collisions.store@[k].1,
                                spec_scan_rows(
                                    spec_scan_row(
                                        (bodies@, collisions.store@),
                                        elems@,
                                        i as int,
                                        j as int,
                                    ),
                                    elems@,
                                    i + 1 as int,
                                ) == spec_scan_rows(st_region, elems@, 0),
                            decreases elems@.len() - j,
                        {
                            let ghost st_pair = (bodies@, collisions.store@);
                            let (_, a) = elems[i];
                            let (_, bb) = elems[j];
                            if a != bb {
                                let fa = find_body(bodies, a);
                                let fb = find_body(bodies, bb);
                                match (fa, fb) {
                                    (Option::Some(ia), Option::Some(ib)) => {
                                        if ia != ib {
                                            let body_a = bodies[ia];
                                            let body_b = bodies[ib];
                                            let mut pa = body_a.pos;
                                            let mut pb = body_b.pos;
                                            let _ = collisions.check(
                                                a,
                                                &body_a.ball,
                                                &mut pa,
                                                bb,
                                                &body_b.ball,
                                                &mut pb,
                                            );
                                            bodies[ia] = SimBody {
                                                id: body_a.id,
                                                pos: pa,
                                                vel: body_a.vel,
                                                ball: body_a.ball,
                                            };
                                            bodies[ib] = SimBody {
                                                id: body_b.id,
                                                pos: pb,
                                                vel: body_b.vel,
                                                ball: body_b.ball,
                                            };
                                        }
                                    },
                                    _ => {
                                    },
                                }
                            }
                            proof {
                                assert((bodies@, collisions.store@) == spec_check_pair(
                                    st_pair,
                                    elems@[i as int].1,
                                    elems@[j as int].1,
                                ));
                            }
                            j = j + 1;
                        }
                        i = i + 1;
                    }
                }
            },
        }
        ri = ri + 1;
    }
    collisions.into_pairs()
}

/// The response pass: apply the elastic impulse to every recorded pair, in
/// the order the pairs were recorded, using the corrected positions for the
/// contact normal (the positional correction keeps the line of centers, so
/// the normal still reflects the geometric contact). The result is exactly
/// the fold `spec_respond_from` of the impulse update over the pairs.
pub fn respond_pairs(bodies: &mut Vec<SimBody>, pairs: &Vec<(u64, u64)>)
    requires
        forall|i: int| 0 <= i < old(bodies)@.len() ==> (#[trigger] old(bodies)@[i]).ball.wf(),
    ensures
        only_velocities_changed(old(bodies)@, final(bodies)@),
        final(bodies)@ == spec_respond_from(old(bodies)@, pairs@, 0),
{
    let mut k: usize = 0;
    while k < pairs.len()
        invariant
            k <= pairs@.len(),
            forall|i: int| 0 <= i < old(bodies)@.len() ==> (#[trigger] old(bodies)@[i]).ball.wf(),
            only_velocities_changed(old(bodies)@, bodies@),
            spec_respond_from(bodies@, pairs@, k as int) == spec_respond_from(
                old(bodies)@,
                pairs@,
                0,
            ),
        decreases pairs@.len() - k,
    {
        let ghost before = bodies@;
        let (a, bb) = pairs[k];
        let fa = find_body(bodies, a);
        let fb = find_body(bodies, bb);
        match (fa, fb) {
            (Option::Some(ia), Option::Some(ib)) => {
                if ia != ib {
                    let body_a = bodies[ia];
                    let body_b = bodies[ib];
                    let mut va = body_a.vel;
                    let mut vb = body_b.vel;
                    crate::collision::balls_bounce_after_collision(
                        &body_a.pos,
                        &mut va,
                        &body_a.ball,
                        &body_b.pos,
                        &mut vb,
                        &body_b.ball,
                    );
                    bodies[ia] = SimBody {
                        id: body_a.id,
                        pos: body_a.pos,
                        vel: va,
                        ball: body_a.ball,
                    };
                    bodies[ib] = SimBody {
                        id: body_b.id,
                        pos: body_b.pos,
                        vel: vb,
                        ball: body_b.ball,
                    };
                }
            },
            _ => {
            },
        }
        proof {
            assert(bodies@ == spec_respond_pair(before, pairs@[k as int].0, pairs@[k as int].1));
        }
        k = k + 1;
    }
}

/// The first two phases of a tick applied to the whole body store: every
/// body moved by its velocity times the timestep, then reflected off the
/// arena walls.
pub open spec fn spec_phase1(bodies: Seq<SimBody>, eb: Bounds, num: int, den: int) -> Seq<
    SimBody,
> {
    bodies.map_values(|b: SimBody| spec_walled(eb, spec_moved(b, num, den)))
}

/// One simulation tick: move every body by its velocity times the timestep,
/// resolve wall collisions, build a fresh spatial index over the arena and
/// insert every body, run the broad phase over each leaf region, and apply
/// the elastic impulse to every recorded pair. Returns the collided pairs
/// and the out-of-bounds diagnostics; both are observations, never fatal.
///
/// The whole pipeline is pinned down: the final bodies and the returned
/// pairs are exactly the broad-phase fold over the regions of the index
/// built this tick, followed by the response fold over the recorded pairs,
/// all starting from the moved-and-wall-checked store (`spec_phase1`).
pub fn tick(
    bodies: &mut Vec<SimBody>,
    edge: &EdgeCollider,
    options: Options,
    dt_num: i64,
    dt_den: i64,
) -> (r: (Vec<(u64, u64)>, Vec<ErrorKind>))
    requires
        edge.bounds.wf(),
        -ARENA_LIMIT <= edge.bounds.min.x,
        edge.bounds.max.x <= ARENA_LIMIT,
        -ARENA_LIMIT <= edge.bounds.min.y,
        edge.bounds.max.y <= ARENA_LIMIT,
        options.wf(),
        1 <= dt_den,
        0 <= dt_num <= DT_LIMIT * dt_den,
        forall|i: int|
            0 <= i < old(bodies)@.len() ==> (#[trigger] old(bodies)@[i]).ball.wf()
                && -TICK_POS_LIMIT <= old(bodies)@[i].pos.x <= TICK_POS_LIMIT && -TICK_POS_LIMIT
                <= old(bodies)@[i].pos.y <= TICK_POS_LIMIT,
    ensures
        final(bodies)@.len() == old(bodies)@.len(),
        forall|i: int|
            0 <= i < old(bodies)@.len() ==> (#[trigger] final(bodies)@[i]).id == old(
                bodies,
            )@[i].id && final(bodies)@[i].ball == old(bodies)@[i].ball,
        r.1@ == spec_insert_errors(
            spec_phase1(old(bodies)@, edge.bounds, dt_num as int, dt_den as int),
            edge.bounds,
        ),
        forall|k: int| 0 <= k < r.0@.len() ==> (#[trigger] r.0@[k]).0 != r.0@[k].1,
        ({
            let walled = spec_phase1(old(bodies)@, edge.bounds, dt_num as int, dt_den as int);
            let tm = spec_build(walled, edge.bounds, options);
            let st = spec_broad_phase_entries(
                (walled, Seq::<(u64, u64)>::empty()),
                model_regions(tm),
                0,
            );
            &&& r.0@ == st.1
            &&& final(bodies)@ == spec_respond_from(st.0, st.1, 0)
        }),
{
    apply_velocity(bodies, dt_num, dt_den);
    check_walls(edge, bodies);
    proof {
        assert(bodies@ =~= spec_phase1(old(bodies)@, edge.bounds, dt_num as int, dt_den as int));
        assert forall|i: int| 0 <= i < bodies@.len() implies (#[trigger] bodies@[i]).ball.wf()
            && loc_range(bodies@[i]) by {
            let b0 = old(bodies)@[i];
            assert(b0.ball.wf() && -TICK_POS_LIMIT <= b0.pos.x <= TICK_POS_LIMIT
                && -TICK_POS_LIMIT <= b0.pos.y <= TICK_POS_LIMIT);
            let m = spec_moved(b0, dt_num as int, dt_den as int);
            if in_pos_guard(b0.pos) && in_vel_guard(b0.vel) {
                assert(-(0x4_0000_0000_0000 * (dt_den as int)) <= (b0.vel.0.x as int) * (
                dt_num as int) <= 0x4_0000_0000_0000 * (dt_den as int)) by (nonlinear_arith)
                    requires
                        -VEL_GUARD <= b0.vel.0.x <= VEL_GUARD,
                        0 <= dt_num <= DT_LIMIT * dt_den,
                        1 <= dt_den,
                        VEL_GUARD == 0x4000_0000,
                        DT_LIMIT == 0x10_0000,
                ;
                assert(-(0x4_0000_0000_0000 * (dt_den as int)) <= (b0.vel.0.y as int) * (
                dt_num as int) <= 0x4_0000_0000_0000 * (dt_den as int)) by (nonlinear_arith)
                    requires
                        -VEL_GUARD <= b0.vel.0.y <= VEL_GUARD,
                        0 <= dt_num <= DT_LIMIT * dt_den,
                        1 <= dt_den,
                        VEL_GUARD == 0x4000_0000,
                        DT_LIMIT == 0x10_0000,
                ;
                lemma_div_trunc_bound(
                    (b0.vel.0.x as int) * (dt_num as int),
                    dt_den as int,
                    0x4_0000_0000_0000,
                );
                lemma_div_trunc_bound(
                    (b0.vel.0.y as int) * (dt_num as int),
                    dt_den as int,
                    0x4_0000_0000_0000,
                );
            }
            assert(-0x14_0000_0000_0000 <= m.pos.x <= 0x14_0000_0000_0000 && -0x14_0000_0000_0000
                <= m.pos.y <= 0x14_0000_0000_0000 && m.ball == b0.ball);
            assert(bodies@[i] == spec_walled(edge.bounds, m));
        }
    }
    let arena = edge.bounds;
    let (tree, errors) = build_index(bodies, arena, options);
    let pairs = collide_regions(bodies, &tree);
    respond_pairs(bodies, &pairs);
    proof {
        let walled = spec_phase1(old(bodies)@, edge.bounds, dt_num as int, dt_den as int);
        let st = spec_broad_phase((walled, Seq::<(u64, u64)>::empty()), tree.spec_regions(), 0);
        assert(pairs@ == st.1);
        assert(bodies@ == spec_respond_from(st.0, st.1, 0));
        assert(tree.model() == spec_build(walled, edge.bounds, options));
        lemma_regions_leaf_bodies(tree);
        lemma_model_regions(tree);
        lemma_broad_phase_entries(
            (walled, Seq::<(u64, u64)>::empty()),
            tree.spec_regions(),
            0,
        );
        assert(st == spec_broad_phase_entries(
            (walled, Seq::<(u64, u64)>::empty()),
            model_regions(spec_build(walled, edge.bounds, options)),
            0,
        ));
    }
    (pairs, errors)
}

} // verus!
