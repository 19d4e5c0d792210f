use vstd::prelude::*;

use crate::bounds::Bounds;
use crate::num::div_trunc;
use crate::num::div_trunc_i64;
use crate::num::isqrt;
use crate::num::lemma_div_trunc_bound;
use crate::num::sqrt_floor;
use crate::point::Point;

verus! {

/// Largest radius a ball may have. Masses derived from such radii, and the
/// collision corrections they cause, then fit comfortably in the integer
/// arithmetic below.
pub const RADIUS_LIMIT: i64 = 0x10_0000;

/// Largest mass a ball may have: the square of the largest radius.
pub const MASS_LIMIT: i64 = 0x100_0000_0000;

/// Positions further than this from the origin are treated as degenerate by
/// the pair-collision check and left untouched. The limit is far beyond any
/// well-formed arena, so the guard only ever fires on runaway values; it
/// keeps the collision arithmetic total and overflow-free no matter how many
/// corrections accumulate in one tick.
pub const POS_GUARD: i64 = 0x20_0000_0000_0000;

/// Center distances whose square exceeds this are treated as degenerate by
/// the impulse response and left untouched. Any genuinely colliding pair is
/// far below it.
pub const DIST2_GUARD: i64 = 0x4_0000_0000_0000;

/// Speeds at or above this are treated as degenerate by the impulse
/// response, which then leaves both bodies untouched.
pub const VEL_GUARD: i64 = 0x4000_0000;

/// A body's velocity vector.
#[derive(Clone, Copy, Debug, PartialEq, Eq, Structural)]
pub struct Velocity(pub Point);

/// The immutable shape data of a circular body: its radius and its mass.
#[derive(Clone, Copy, Debug, PartialEq, Eq, Structural)]
pub struct Ball {
    pub radius: i64,
    pub mass: i64,
}

impl Ball {
    pub open spec fn wf(self) -> bool {
        &&& 0 <= self.radius <= RADIUS_LIMIT
        &&& 0 <= self.mass <= MASS_LIMIT
    }

    /// A ball's mass is the square of its radius: an area-proportional
    /// surrogate, not a density model.
    pub fn new(radius: i64) -> (r: Ball)
        requires
            0 <= radius <= RADIUS_LIMIT,
        ensures
            r.radius == radius,
            r.mass == radius * radius,
            r.wf(),
    {
        proof {
            assert(radius * radius <= MASS_LIMIT) by (nonlinear_arith)
                requires
                    0 <= radius <= RADIUS_LIMIT,
            ;
        }
        Ball { radius, mass: radius * radius }
    }
}

/// Stateless wall-collision checks for a single body against the arena
/// boundary. A body that has crossed a wall has the velocity component
/// perpendicular to that wall reflected and its position mirrored back
/// inside by the exact overshoot, so speed is preserved rather than clamped.
#[derive(Clone, Copy, Debug)]
pub struct EdgeCollider {
    pub bounds: Bounds,
}

/// The coordinates the wall checks accept: wide enough that mirroring a
/// position at a wall of a well-formed arena cannot overflow.
pub open spec fn wall_range(v: int) -> bool {
    -0x1000_0000_0000_0000 <= v <= 0x1000_0000_0000_0000
}

impl EdgeCollider {
    pub fn new(bounds: Bounds) -> (r: Self)
        ensures
            r.bounds == bounds,
    {
        EdgeCollider { bounds }
    }

    /// The inclusive x-range a ball center may start in, `padding` away from
    /// the left wall and twice `padding` away from the right wall.
    pub fn range_x(&self, padding: i64) -> (r: (i64, i64))
        requires
            self.bounds.wf(),
            0 <= padding <= RADIUS_LIMIT,
        ensures
            r.0 == self.bounds.spec_left() + padding,
            r.1 == self.bounds.spec_right() - 2 * padding,
    {
        (self.bounds.left() + padding, self.bounds.right() - padding - padding)
    }

    /// The inclusive y-range a ball center may start in; see `range_x`.
    pub fn range_y(&self, padding: i64) -> (r: (i64, i64))
        requires
            self.bounds.wf(),
            0 <= padding <= RADIUS_LIMIT,
        ensures
            r.0 == self.bounds.spec_bottom() + padding,
            r.1 == self.bounds.spec_top() - 2 * padding,
    {
        (self.bounds.bottom() + padding, self.bounds.top() - padding - padding)
    }

    /// Left wall: if the ball's edge has reached or crossed it, mirror the
    /// position back inside by the exact overshoot and reflect the
    /// horizontal velocity.
    pub fn check_left(&self, ball: &Ball, pos: &mut Point, velocity: &mut Velocity) -> (r: bool)
        requires
            self.bounds.wf(),
            ball.wf(),
            wall_range(old(pos).x as int),
            -i64::MAX <= old(velocity).0.x,
        ensures
            r == (old(pos).x <= self.bounds.spec_left() + ball.radius),
            !r ==> *final(pos) == *old(pos) && *final(velocity) == *old(velocity),
            r ==> final(pos).x == 2 * (self.bounds.spec_left() + ball.radius) - old(pos).x
                && final(pos).y == old(pos).y,
            r ==> final(velocity).0.x == -old(velocity).0.x && final(velocity).0.y == old(
                velocity,
            ).0.y,
    {
        let min_x: i64 = self.bounds.left() + ball.radius;
        if pos.x > min_x {
            return false;
        }
        pos.x = min_x + (min_x - pos.x);
        velocity.0.x = -velocity.0.x;
        true
    }

    /// Right wall; see `check_left`.
    pub fn check_right(&self, ball: &Ball, pos: &mut Point, velocity: &mut Velocity) -> (r: bool)
        requires
            self.bounds.wf(),
            ball.wf(),
            wall_range(old(pos).x as int),
            -i64::MAX <= old(velocity).0.x,
        ensures
            r == (old(pos).x >= self.bounds.spec_right() - ball.radius),
            !r ==> *final(pos) == *old(pos) && *final(velocity) == *old(velocity),
            r ==> final(pos).x == 2 * (self.bounds.spec_right() - ball.radius) - old(pos).x
                && final(pos).y == old(pos).y,
            r ==> final(velocity).0.x == -old(velocity).0.x && final(velocity).0.y == old(
                velocity,
            ).0.y,
    {
        let max_x: i64 = self.bounds.right() - ball.radius;
        if pos.x < max_x {
            return false;
        }
        pos.x = max_x - (pos.x - max_x);
        velocity.0.x = -velocity.0.x;
        true
    }

    /// Top wall; see `check_left`.
    pub fn check_top(&self, ball: &Ball, pos: &mut Point, velocity: &mut Velocity) -> (r: bool)
        requires
            self.bounds.wf(),
            ball.wf(),
            wall_range(old(pos).y as int),
            -i64::MAX <= old(velocity).0.y,
        ensures
            r == (old(pos).y >= self.bounds.spec_top() - ball.radius),
            !r ==> *final(pos) == *old(pos) && *final(velocity) == *old(velocity),
            r ==> final(pos).y == 2 * (self.bounds.spec_top() - ball.radius) - old(pos).y
                && final(pos).x == old(pos).x,
            r ==> final(velocity).0.y == -old(velocity).0.y && final(velocity).0.x == old(
                velocity,
            ).0.x,
    {
        let max_y: i64 = self.bounds.top() - ball.radius;
        if pos.y < max_y {
            return false;
        }
        pos.y = max_y - (pos.y - max_y);
        velocity.0.y = -velocity.0.y;
        true
    }

    /// Bottom wall; see `check_left`.
    pub fn check_bottom(&self, ball: &Ball, pos: &mut Point, velocity: &mut Velocity) -> (r: bool)
        requires
            self.bounds.wf(),
            ball.wf(),
            wall_range(old(pos).y as int),
            -i64::MAX <= old(velocity).0.y,
        ensures
            r == (old(pos).y <= self.bounds.spec_bottom() + ball.radius),
            !r ==> *final(pos) == *old(pos) && *final(velocity) == *old(velocity),
            r ==> final(pos).y == 2 * (self.bounds.spec_bottom() + ball.radius) - old(pos).y
                && final(pos).x == old(pos).x,
            r ==> final(velocity).0.y == -old(velocity).0.y && final(velocity).0.x == old(
                velocity,
            ).0.x,
    {
        let min_y: i64 = self.bounds.bottom() + ball.radius;
        if pos.y > min_y {
            return false;
        }
        pos.y = min_y + (min_y - pos.y);
        velocity.0.y = -velocity.0.y;
        true
    }
}

/// Both coordinates of `p` are within the defensive position guard.
pub open spec fn in_pos_guard(p: Point) -> bool {
    -POS_GUARD <= p.x <= POS_GUARD && -POS_GUARD <= p.y <= POS_GUARD
}

/// The squared distance between two centers.
pub open spec fn spec_dist2(a: Point, b: Point) -> int {
    (a.x - b.x) * (a.x - b.x) + (a.y - b.y) * (a.y - b.y)
}

/// Two circles collide when their center distance is at most the sum of
/// their radii; compared in squares, so the test is exact.
pub open spec fn spec_colliding(a: Point, b: Point, ra: int, rb: int) -> bool {
    spec_dist2(a, b) <= (ra + rb) * (rb + ra)
}

/// The half-penetration vector a colliding pair is corrected by: each body
/// moves by this much along the line of centers, away from the other, so
/// the pair ends up just touching (exactly so when the divisions are exact).
/// For exactly coincident centers — where the line of centers is undefined —
/// the positive x-axis serves as the contact normal.
pub open spec fn spec_correction(a: Point, b: Point, r: int) -> (int, int) {
    let dx = a.x - b.x;
    let dy = a.y - b.y;
    let dist = sqrt_floor(spec_dist2(a, b));
    if dist == 0 {
        (div_trunc(-r, 2), 0)
    } else {
        (div_trunc((dist - r) * dx, 2 * dist), div_trunc((dist - r) * dy, 2 * dist))
    }
}

/// Collects the pairs of bodies found overlapping during one broad-phase
/// pass, correcting their penetration immediately; the recorded pairs then
/// drive the impulse response.
#[derive(Debug)]
pub struct BallCollisions {
    pub store: Vec<(u64, u64)>,
}

impl BallCollisions {
    pub fn new(capacity: Option<usize>) -> (r: Self)
        ensures
            r.store@ == Seq::<(u64, u64)>::empty(),
    {
        BallCollisions {
            store: match capacity {
                Option::Some(c) => Vec::with_capacity(c),
                Option::None => Vec::new(),
            },
        }
    }

    /// Test one unordered pair of bodies. When the circles overlap, push
    /// each body half the penetration depth apart along the line of centers
    /// and record the pair, exactly once per call. Positions outside the
    /// defensive guard are degenerate: the pair is then left untouched and
    /// unrecorded, which keeps the arithmetic exact and total however many
    /// corrections accumulate.
    pub fn check(
        &mut self,
        a: u64,
        a_ball: &Ball,
        a_pos: &mut Point,
        b: u64,
        b_ball: &Ball,
        b_pos: &mut Point,
    ) -> (hit: bool)
        requires
            a_ball.wf(),
            b_ball.wf(),
        ensures
            hit == (in_pos_guard(*old(a_pos)) && in_pos_guard(*old(b_pos)) && spec_colliding(
                *old(a_pos),
                *old(b_pos),
                a_ball.radius as int,
                b_ball.radius as int,
            )),
            !hit ==> *final(a_pos) == *old(a_pos) && *final(b_pos) == *old(b_pos)
                && final(self).store@ == old(self).store@,
            hit ==> ({
                let c = spec_correction(
                    *old(a_pos),
                    *old(b_pos),
                    a_ball.radius + b_ball.radius,
                );
                &&& final(a_pos).x == old(a_pos).x - c.0
                &&& final(a_pos).y == old(a_pos).y - c.1
                &&& final(b_pos).x == old(b_pos).x + c.0
                &&& final(b_pos).y == old(b_pos).y + c.1
                &&& final(self).store@ == old(self).store@.push((a, b))
            }),
    {
        if a_pos.x < -POS_GUARD || a_pos.x > POS_GUARD || a_pos.y < -POS_GUARD || a_pos.y
            > POS_GUARD || b_pos.x < -POS_GUARD || b_pos.x > POS_GUARD || b_pos.y < -POS_GUARD
            || b_pos.y > POS_GUARD {
            return false;
        }
        let dx: i64 = a_pos.x - b_pos.x;
        let dy: i64 = a_pos.y - b_pos.y;
        let r: i64 = a_ball.radius + b_ball.radius;
        proof {
            assert((dx as int) * (dx as int) + (dy as int) * (dy as int)
                <= 0x4000_0000_0000_0000_0000_0000_0000) by (nonlinear_arith)
                requires
                    -2 * POS_GUARD <= dx <= 2 * POS_GUARD,
                    -2 * POS_GUARD <= dy <= 2 * POS_GUARD,
                    POS_GUARD == 0x20_0000_0000_0000,
            ;
            assert((dx as int) * (dx as int) >= 0 && (dy as int) * (dy as int) >= 0)
                by (nonlinear_arith);
            assert((r as int) * (r as int) <= 0x10_0000_0000_0000) by (nonlinear_arith)
                requires
                    0 <= r <= 2 * RADIUS_LIMIT,
                    RADIUS_LIMIT == 0x10_0000,
            ;
        }
        let dist2: i128 = (dx as i128) * (dx as i128) + (dy as i128) * (dy as i128);
        if dist2 > (r as i128) * (r as i128) {
            return false;
        }
        let dist: i64 = isqrt(dist2 as u64) as i64;
        proof {
            assert(dist == sqrt_floor(spec_dist2(*a_pos, *b_pos)));
            assert(dist <= r) by (nonlinear_arith)
                requires
                    0 <= dist,
                    0 <= r,
                    (dist as int) * (dist as int) <= (r as int) * (r as int),
            ;
            assert(-dist <= dx <= dist && -dist <= dy <= dist) by (nonlinear_arith)
                requires
                    (dx as int) * (dx as int) <= spec_dist2(*a_pos, *b_pos),
                    (dy as int) * (dy as int) <= spec_dist2(*a_pos, *b_pos),
                    spec_dist2(*a_pos, *b_pos) < (dist + 1) * (dist + 1),
                    0 <= dist,
            ;
        }
        let cx: i64;
        let cy: i64;
        if dist == 0 {
            cx = div_trunc_i64(-r, 2);
            cy = 0;
            proof {
                lemma_div_trunc_bound(-r as int, 2, r as int);
            }
        } else {
            proof {
                assert(-((r as int) * (2 * (dist as int))) <= (dist - r) * dx && (dist - r) * dx
                    <= (r as int) * (2 * (dist as int)) && -((r as int) * (2 * (dist as int)))
                    <= (dist - r) * dy && (dist - r) * dy <= (r as int) * (2 * (dist as int))
                    && -0x10_0000_0000_0000 <= (dist - r) * dx <= 0x10_0000_0000_0000
                    && -0x10_0000_0000_0000 <= (dist - r) * dy <= 0x10_0000_0000_0000)
                    by (nonlinear_arith)
                    requires
                        1 <= dist <= r,
                        -dist <= dx <= dist,
                        -dist <= dy <= dist,
                        0 <= r <= 2 * RADIUS_LIMIT,
                        RADIUS_LIMIT == 0x10_0000,
                ;
            }
            cx = div_trunc_i64((dist - r) * dx, 2 * dist);
            cy = div_trunc_i64((dist - r) * dy, 2 * dist);
            proof {
                lemma_div_trunc_bound(
                    (dist - r) as int * dx as int,
                    2 * (dist as int),
                    r as int,
                );
                lemma_div_trunc_bound(
                    (dist - r) as int * dy as int,
                    2 * (dist as int),
                    r as int,
                );
            }
        }
        a_pos.x = a_pos.x - cx;
        a_pos.y = a_pos.y - cy;
        b_pos.x = b_pos.x + cx;
        b_pos.y = b_pos.y + cy;
        self.store.push((a, b));
        true
    }

    /// Hand the recorded pairs out for the response pass, consuming the
    /// accumulator: each pair is processed exactly once.
    pub fn into_pairs(self) -> (r: Vec<(u64, u64)>)
        ensures
            r@ == self.store@,
    {
        self.store
    }
}

/// Both velocity components are within the defensive speed guard.
pub open spec fn in_vel_guard(v: Velocity) -> bool {
    -VEL_GUARD <= v.0.x <= VEL_GUARD && -VEL_GUARD <= v.0.y <= VEL_GUARD
}

/// The defensive guards of the impulse response: positions and speeds in
/// range, a positive total mass, and distinct centers not absurdly far
/// apart. A pair outside these (coincident centers, zero masses, runaway
/// values) is a degenerate configuration and is left untouched.
pub open spec fn bounce_applies(
    a_pos: Point,
    a_vel: Velocity,
    a_ball: Ball,
    b_pos: Point,
    b_vel: Velocity,
    b_ball: Ball,
) -> bool {
    &&& in_pos_guard(a_pos) && in_pos_guard(b_pos)
    &&& in_vel_guard(a_vel) && in_vel_guard(b_vel)
    &&& a_ball.mass + b_ball.mass >= 1
    &&& 1 <= spec_dist2(a_pos, b_pos) <= DIST2_GUARD
}

/// The velocity change the impulse response applies to the body whose
/// opposite has mass `m`, for center offset `(dx, dy)` and relative velocity
/// `(kx, ky)`: the mass-weighted elastic impulse along the line of centers,
/// with a single truncating division per component.
pub open spec fn spec_impulse(dx: int, dy: int, kx: int, ky: int, m: int, msum: int) -> (
    int,
    int,
) {
    (
        div_trunc(2 * (dx * kx + dy * ky) * m * dx, msum * (dx * dx + dy * dy)),
        div_trunc(2 * (dx * kx + dy * ky) * m * dy, msum * (dx * dx + dy * dy)),
    )
}

/// Each impulse component is at most four times the bound on the relative
/// velocity components, whatever the geometry and masses: the division by
/// the squared distance absorbs both center-offset factors.
pub proof fn lemma_impulse_bound(dx: int, dy: int, kx: int, ky: int, m: int, msum: int, bk: int)
    requires
        1 <= dx * dx + dy * dy,
        0 <= m <= msum,
        1 <= msum,
        -bk <= kx <= bk,
        -bk <= ky <= bk,
        0 <= bk,
    ensures
        -(4 * bk) <= spec_impulse(dx, dy, kx, ky, m, msum).0 <= 4 * bk,
        -(4 * bk) <= spec_impulse(dx, dy, kx, ky, m, msum).1 <= 4 * bk,
{
    let dist2 = dx * dx + dy * dy;
    let dot = dx * kx + dy * ky;
    let den = msum * dist2;
    assert(0 <= dx * dx && 0 <= dy * dy && -dist2 <= dx * dy && dx * dy <= dist2)
        by (nonlinear_arith)
        requires
            dist2 == dx * dx + dy * dy,
    ;
    assert(-(2 * bk * dist2) <= dot * dx && dot * dx <= 2 * bk * dist2 && -(2 * bk * dist2)
        <= dot * dy && dot * dy <= 2 * bk * dist2) by (nonlinear_arith)
        requires
            dist2 == dx * dx + dy * dy,
            dot == dx * kx + dy * ky,
            0 <= dx * dx <= dist2,
            0 <= dy * dy <= dist2,
            -dist2 <= dx * dy <= dist2,
            -bk <= kx <= bk,
            -bk <= ky <= bk,
            0 <= bk,
    ;
    assert(-((4 * bk) * den) <= 2 * dot * m * dx && 2 * dot * m * dx <= (4 * bk) * den && -((4
        * bk) * den) <= 2 * dot * m * dy && 2 * dot * m * dy <= (4 * bk) * den && 1 <= den)
        by (nonlinear_arith)
        requires
            den == msum * dist2,
            -(2 * bk * dist2) <= dot * dx <= 2 * bk * dist2,
            -(2 * bk * dist2) <= dot * dy <= 2 * bk * dist2,
            0 <= m <= msum,
            1 <= msum,
            1 <= dist2,
            0 <= bk,
    ;
    lemma_div_trunc_bound(2 * dot * m * dx, den, 4 * bk);
    lemma_div_trunc_bound(2 * dot * m * dy, den, 4 * bk);
}

/// Apply the elastic-collision impulse to a recorded pair: each body's
/// velocity changes along the line of centers by the mass-weighted impulse,
/// so that (when the divisions are exact) momentum and kinetic energy are
/// both conserved. Degenerate configurations — see `bounce_applies` — are
/// left untouched.
pub fn balls_bounce_after_collision(
    a_pos: &Point,
    a_vel: &mut Velocity,
    a_ball: &Ball,
    b_pos: &Point,
    b_vel: &mut Velocity,
    b_ball: &Ball,
)
    requires
        a_ball.wf(),
        b_ball.wf(),
    ensures
        !bounce_applies(*a_pos, *old(a_vel), *a_ball, *b_pos, *old(b_vel), *b_ball)
            ==> *final(a_vel) == *old(a_vel) && *final(b_vel) == *old(b_vel),
        bounce_applies(*a_pos, *old(a_vel), *a_ball, *b_pos, *old(b_vel), *b_ball) ==> ({
            let dx = a_pos.x - b_pos.x;
            let dy = a_pos.y - b_pos.y;
            let kx = old(a_vel).0.x - old(b_vel).0.x;
            let ky = old(a_vel).0.y - old(b_vel).0.y;
            let msum = a_ball.mass + b_ball.mass;
            let qa = spec_impulse(dx, dy, kx, ky, b_ball.mass as int, msum);
            let qb = spec_impulse(dx, dy, kx, ky, a_ball.mass as int, msum);
            &&& final(a_vel).0.x == old(a_vel).0.x - qa.0
            &&& final(a_vel).0.y == old(a_vel).0.y - qa.1
            &&& final(b_vel).0.x == old(b_vel).0.x + qb.0
            &&& final(b_vel).0.y == old(b_vel).0.y + qb.1
        }),
{
    if a_pos.x < -POS_GUARD || a_pos.x > POS_GUARD || a_pos.y < -POS_GUARD || a_pos.y > POS_GUARD
        || b_pos.x < -POS_GUARD || b_pos.x > POS_GUARD || b_pos.y < -POS_GUARD || b_pos.y
        > POS_GUARD {
        return ;
    }
    let dx: i64 = a_pos.x - b_pos.x;
    let dy: i64 = a_pos.y - b_pos.y;
    proof {
        assert(0 <= (dx as int) * (dx as int) <= (2 * POS_GUARD) * (2 * POS_GUARD) && 0 <= (
        dy as int) * (dy as int) <= (2 * POS_GUARD) * (2 * POS_GUARD)) by (nonlinear_arith)
            requires
                -2 * POS_GUARD <= dx <= 2 * POS_GUARD,
                -2 * POS_GUARD <= dy <= 2 * POS_GUARD,
        ;
    }
    let dist2: i128 = (dx as i128) * (dx as i128) + (dy as i128) * (dy as i128);
    if dist2 < 1 || dist2 > DIST2_GUARD as i128 {
        return ;
    }
    if a_vel.0.x < -VEL_GUARD || a_vel.0.x > VEL_GUARD || a_vel.0.y < -VEL_GUARD || a_vel.0.y
        > VEL_GUARD || b_vel.0.x < -VEL_GUARD || b_vel.0.x > VEL_GUARD || b_vel.0.y < -VEL_GUARD
        || b_vel.0.y > VEL_GUARD {
        return ;
    }
    let msum: i64 = a_ball.mass + b_ball.mass;
    if msum < 1 {
        return ;
    }
    let kx: i64 = a_vel.0.x - b_vel.0.x;
    let ky: i64 = a_vel.0.y - b_vel.0.y;
    proof {
        assert(-0x200_0000 <= dx <= 0x200_0000 && -0x200_0000 <= dy <= 0x200_0000)
            by (nonlinear_arith)
            requires
                (dx as int) * (dx as int) + (dy as int) * (dy as int) <= DIST2_GUARD,
                DIST2_GUARD == 0x4_0000_0000_0000,
        ;
        assert(-0x100_0000_0000_0000 <= (dx as int) * (kx as int) <= 0x100_0000_0000_0000
            && -0x100_0000_0000_0000 <= (dy as int) * (ky as int) <= 0x100_0000_0000_0000)
            by (nonlinear_arith)
            requires
                -0x200_0000 <= dx <= 0x200_0000,
                -0x200_0000 <= dy <= 0x200_0000,
                -2 * VEL_GUARD <= kx <= 2 * VEL_GUARD,
                -2 * VEL_GUARD <= ky <= 2 * VEL_GUARD,
                VEL_GUARD == 0x4000_0000,
        ;
    }
    let dot: i128 = (dx as i128) * (kx as i128) + (dy as i128) * (ky as i128);
    proof {
        assert(-(2 * 0x200_0000_0000_0000 * MASS_LIMIT) <= 2 * (dot as int) * (a_ball.mass as int)
            <= 2 * 0x200_0000_0000_0000 * MASS_LIMIT && -(2 * 0x200_0000_0000_0000 * MASS_LIMIT)
            <= 2 * (dot as int) * (b_ball.mass as int) <= 2 * 0x200_0000_0000_0000 * MASS_LIMIT)
            by (nonlinear_arith)
            requires
                -0x200_0000_0000_0000 <= dot <= 0x200_0000_0000_0000,
                0 <= a_ball.mass <= MASS_LIMIT,
                0 <= b_ball.mass <= MASS_LIMIT,
        ;
        assert({
            let cap = 2 * 0x200_0000_0000_0000 * MASS_LIMIT;
            let num_a = 2 * (dot as int) * (b_ball.mass as int);
            let num_b = 2 * (dot as int) * (a_ball.mass as int);
            &&& -(cap * 0x200_0000) <= num_a * (dx as int) <= cap * 0x200_0000
            &&& -(cap * 0x200_0000) <= num_a * (dy as int) <= cap * 0x200_0000
            &&& -(cap * 0x200_0000) <= num_b * (dx as int) <= cap * 0x200_0000
            &&& -(cap * 0x200_0000) <= num_b * (dy as int) <= cap * 0x200_0000
        }) by (nonlinear_arith)
            requires
                -(2 * 0x200_0000_0000_0000 * MASS_LIMIT) <= 2 * (dot as int) * (
                a_ball.mass as int) <= 2 * 0x200_0000_0000_0000 * MASS_LIMIT,
                -(2 * 0x200_0000_0000_0000 * MASS_LIMIT) <= 2 * (dot as int) * (
                b_ball.mass as int) <= 2 * 0x200_0000_0000_0000 * MASS_LIMIT,
                -0x200_0000 <= dx <= 0x200_0000,
                -0x200_0000 <= dy <= 0x200_0000,
        ;
        assert(1 <= (msum as int) * (dist2 as int) <= 2 * MASS_LIMIT * DIST2_GUARD)
            by (nonlinear_arith)
            requires
                1 <= msum <= 2 * MASS_LIMIT,
                1 <= dist2 <= DIST2_GUARD,
        ;
    }
    let den: i128 = (msum as i128) * dist2;
    let num_a_x: i128 = 2 * dot * (b_ball.mass as i128) * (dx as i128);
    let num_a_y: i128 = 2 * dot * (b_ball.mass as i128) * (dy as i128);
    let num_b_x: i128 = 2 * dot * (a_ball.mass as i128) * (dx as i128);
    let num_b_y: i128 = 2 * dot * (a_ball.mass as i128) * (dy as i128);
    let qa_x: i128 = crate::num::div_trunc_i128(num_a_x, den);
    let qa_y: i128 = crate::num::div_trunc_i128(num_a_y, den);
    let qb_x: i128 = crate::num::div_trunc_i128(num_b_x, den);
    let qb_y: i128 = crate::num::div_trunc_i128(num_b_y, den);
    proof {
        lemma_impulse_bound(
            dx as int,
            dy as int,
            kx as int,
            ky as int,
            b_ball.mass as int,
            msum as int,
            2 * VEL_GUARD as int,
        );
        lemma_impulse_bound(
            dx as int,
            dy as int,
            kx as int,
            ky as int,
            a_ball.mass as int,
            msum as int,
            2 * VEL_GUARD as int,
        );
    }
    a_vel.0.x = a_vel.0.x - (qa_x as i64);
    a_vel.0.y = a_vel.0.y - (qa_y as i64);
    b_vel.0.x = b_vel.0.x + (qb_x as i64);
    b_vel.0.y = b_vel.0.y + (qb_y as i64);
}

/// The pair check is order-independent: swapping the two bodies (with
/// distinct centers; for coincident centers the contact normal is an
/// arbitrary convention) gives the same collision verdict and the exact
/// mirror-image correction, so each body ends at the same place whichever
/// way the pair was presented.
pub proof fn lemma_check_symmetric(a: Point, b: Point, ra: int, rb: int)
    requires
        1 <= spec_dist2(a, b),
    ensures
        spec_colliding(a, b, ra, rb) == spec_colliding(b, a, rb, ra),
        spec_correction(b, a, rb + ra).0 == -spec_correction(a, b, ra + rb).0,
        spec_correction(b, a, rb + ra).1 == -spec_correction(a, b, ra + rb).1,
{
    let dx = a.x - b.x;
    let dy = a.y - b.y;
    assert((b.x - a.x) * (b.x - a.x) == (a.x - b.x) * (a.x - b.x) && (b.y - a.y) * (b.y - a.y)
        == (a.y - b.y) * (a.y - b.y) && (ra + rb) * (rb + ra) == (rb + ra) * (ra + rb))
        by (nonlinear_arith);
    assert(spec_dist2(b, a) == spec_dist2(a, b));
    let dist = sqrt_floor(spec_dist2(a, b));
    crate::num::lemma_sqrt_floor_exists(spec_dist2(a, b));
    assert(1 <= dist) by (nonlinear_arith)
        requires
            0 <= dist,
            dist * dist <= spec_dist2(a, b),
            spec_dist2(a, b) < (dist + 1) * (dist + 1),
            1 <= spec_dist2(a, b),
    ;
    let r = ra + rb;
    assert((dist - r) * (b.x - a.x) == -((dist - r) * (a.x - b.x)) && (dist - r) * (b.y - a.y)
        == -((dist - r) * (a.y - b.y))) by (nonlinear_arith);
    crate::num::lemma_div_trunc_neg((dist - r) * dx, 2 * dist);
    crate::num::lemma_div_trunc_neg((dist - r) * dy, 2 * dist);
}

/// Penetration is resolved to contact: when the pair's center distance is an
/// exact integer square root and the correction divides exactly, the two
/// corrected centers end exactly the sum of the radii apart (in squares).
pub proof fn lemma_correction_restores_contact(a: Point, b: Point, ra: int, rb: int)
    requires
        spec_colliding(a, b, ra, rb),
        1 <= spec_dist2(a, b),
        sqrt_floor(spec_dist2(a, b)) * sqrt_floor(spec_dist2(a, b)) == spec_dist2(a, b),
        ((sqrt_floor(spec_dist2(a, b)) - (ra + rb)) * (a.x - b.x)) % (2 * sqrt_floor(
            spec_dist2(a, b),
        )) == 0,
        ((sqrt_floor(spec_dist2(a, b)) - (ra + rb)) * (a.y - b.y)) % (2 * sqrt_floor(
            spec_dist2(a, b),
        )) == 0,
    ensures
        ({
            let c = spec_correction(a, b, ra + rb);
            let ndx = (a.x - c.0) - (b.x + c.0);
            let ndy = (a.y - c.1) - (b.y + c.1);
            ndx * ndx + ndy * ndy == (ra + rb) * (ra + rb)
        }),
{
    let dx = a.x - b.x;
    let dy = a.y - b.y;
    let r = ra + rb;
    let dist2 = spec_dist2(a, b);
    let dist = sqrt_floor(dist2);
    crate::num::lemma_sqrt_floor_exists(dist2);
    assert(1 <= dist) by (nonlinear_arith)
        requires
            dist * dist == dist2,
            1 <= dist2,
            0 <= dist,
    ;
    let c = spec_correction(a, b, r);
    crate::num::lemma_div_trunc_divides((dist - r) * dx, 2 * dist);
    crate::num::lemma_div_trunc_divides((dist - r) * dy, 2 * dist);
    let ndx = (a.x - c.0) - (b.x + c.0);
    let ndy = (a.y - c.1) - (b.y + c.1);
    assert(ndx == dx - 2 * c.0 && ndy == dy - 2 * c.1);
    // each corrected offset, scaled by the distance, is the old offset
    // scaled by the radius sum
    assert(ndx * dist == dx * r && ndy * dist == dy * r) by (nonlinear_arith)
        requires
            c.0 * (2 * dist) == (dist - r) * dx,
            c.1 * (2 * dist) == (dist - r) * dy,
            ndx == dx - 2 * c.0,
            ndy == dy - 2 * c.1,
            1 <= dist,
    ;
    assert((ndx * ndx) * (dist * dist) == (r * r) * (dx * dx) && (ndy * ndy) * (dist * dist) == (
    r * r) * (dy * dy)) by (nonlinear_arith)
        requires
            ndx * dist == dx * r,
            ndy * dist == dy * r,
    ;
    assert(ndx * ndx + ndy * ndy == r * r) by (nonlinear_arith)
        requires
            (ndx * ndx) * (dist * dist) == (r * r) * (dx * dx),
            (ndy * ndy) * (dist * dist) == (r * r) * (dy * dy),
            dist * dist == dx * dx + dy * dy,
            1 <= dist * dist,
    ;
}

/// One axis of the scaled energy balance: the mass-weighted sum of the two
/// bodies' scaled energy changes along an axis collapses to a multiple of
/// the shared cross term `w`.
proof fn lemma_energy_component(
    vax: int,
    vbx: int,
    ma: int,
    mb: int,
    den: int,
    kx: int,
    jax: int,
    jbx: int,
    w: int,
    u_ax: int,
    u_bx: int,
    s: int,
)
    requires
        u_ax == -2 * vax * den * jax + jax * jax,
        u_bx == 2 * vbx * den * jbx + jbx * jbx,
        w == ma * jax,
        w == mb * jbx,
        kx == vax - vbx,
        s == jax + jbx,
    ensures
        ma * u_ax + mb * u_bx == w * s - 2 * w * den * kx,
{
    assert(ma * u_ax == -2 * vax * den * w + w * jax) by (nonlinear_arith)
        requires
            u_ax == -2 * vax * den * jax + jax * jax,
            w == ma * jax,
    ;
    assert(mb * u_bx == 2 * vbx * den * w + w * jbx) by (nonlinear_arith)
        requires
            u_bx == 2 * vbx * den * jbx + jbx * jbx,
            w == mb * jbx,
    ;
    assert(ma * u_ax + mb * u_bx == w * s - 2 * w * den * kx) by (nonlinear_arith)
        requires
            ma * u_ax == -2 * vax * den * w + w * jax,
            mb * u_bx == 2 * vbx * den * w + w * jbx,
            s == jax + jbx,
            kx == vax - vbx,
    ;
}

/// The two axes of the scaled energy balance cancel: substituting the
/// definitions of the shared factors turns their sum into
/// `nn · ma · mb · den · (nn - nn)`.
proof fn lemma_energy_total(
    ma: int,
    mb: int,
    den: int,
    nn: int,
    dx: int,
    dy: int,
    kx: int,
    ky: int,
    tx: int,
    ty: int,
)
    requires
        den == (ma + mb) * (dx * dx + dy * dy),
        nn == 2 * (dx * kx + dy * ky),
        tx == (ma * (nn * mb * dx)) * (nn * mb * dx + nn * ma * dx) - 2 * (ma * (nn * mb * dx))
            * den * kx,
        ty == (ma * (nn * mb * dy)) * (nn * mb * dy + nn * ma * dy) - 2 * (ma * (nn * mb * dy))
            * den * ky,
    ensures
        tx + ty == 0,
{
    assert(ma * (nn * mb * dx) == (nn * (ma * mb)) * dx && ma * (nn * mb * dy) == (nn * (ma * mb))
        * dy) by (nonlinear_arith);
    assert(nn * mb * dx + nn * ma * dx == (nn * (ma + mb)) * dx && nn * mb * dy + nn * ma * dy == (
    nn * (ma + mb)) * dy) by (nonlinear_arith);
    assert((nn * (ma + mb)) * (dx * dx + dy * dy) == nn * den) by (nonlinear_arith)
        requires
            den == (ma + mb) * (dx * dx + dy * dy),
    ;
    lemma_energy_assemble(nn * (ma * mb), nn * (ma + mb), den, nn, dx, dy, kx, ky, tx, ty);
}

/// The final regrouping of the scaled energy balance, over opaque shared
/// factors `p` and `q`.
proof fn lemma_energy_assemble(
    p: int,
    q: int,
    den: int,
    nn: int,
    dx: int,
    dy: int,
    kx: int,
    ky: int,
    tx: int,
    ty: int,
)
    requires
        q * (dx * dx + dy * dy) == nn * den,
        nn == 2 * (dx * kx + dy * ky),
        tx == (p * dx) * (q * dx) - 2 * (p * dx) * den * kx,
        ty == (p * dy) * (q * dy) - 2 * (p * dy) * den * ky,
    ensures
        tx + ty == 0,
{
    assert(tx == (p * q) * (dx * dx) - (2 * p) * (den * (dx * kx))) by (nonlinear_arith)
        requires
            tx == (p * dx) * (q * dx) - 2 * (p * dx) * den * kx,
    ;
    assert(ty == (p * q) * (dy * dy) - (2 * p) * (den * (dy * ky))) by (nonlinear_arith)
        requires
            ty == (p * dy) * (q * dy) - 2 * (p * dy) * den * ky,
    ;
    assert(p * (q * (dx * dx + dy * dy)) == (p * q) * (dx * dx) + (p * q) * (dy * dy))
        by (nonlinear_arith);
    assert((2 * p) * (den * (dx * kx + dy * ky)) == (2 * p) * (den * (dx * kx)) + (2 * p) * (den
        * (dy * ky))) by (nonlinear_arith);
    assert(tx + ty == p * (q * (dx * dx + dy * dy)) - (2 * p) * (den * (dx * kx + dy * ky)));
    assert(p * (nn * den) - (2 * p) * (den * (dx * kx + dy * ky)) == 0) by (nonlinear_arith)
        requires
            nn == 2 * (dx * kx + dy * ky),
    ;
}

/// Mass-weighted sums regroup: subtracting the old energies from the new
/// ones body by body is the same as weighting each body's energy change.
proof fn lemma_regroup(ma: int, mb: int, aa: int, bb: int, cc: int, ee: int)
    ensures
        ma * aa + mb * bb - (ma * cc + mb * ee) == ma * (aa - cc) + mb * (bb - ee),
{
    assert(ma * aa + mb * bb - (ma * cc + mb * ee) == ma * (aa - cc) + mb * (bb - ee))
        by (nonlinear_arith);
}

/// Scaling a mass-weighted sum of energy changes multiplies each change.
proof fn lemma_scale_split(
    ma: int,
    mb: int,
    ea: int,
    eay: int,
    ebx: int,
    eby: int,
    dd: int,
    scaled: int,
    u_ax: int,
    u_ay: int,
    u_bx: int,
    u_by: int,
)
    requires
        scaled == ma * (ea + eay) + mb * (ebx + eby),
        u_ax == ea * dd,
        u_ay == eay * dd,
        u_bx == ebx * dd,
        u_by == eby * dd,
    ensures
        scaled * dd == ma * (u_ax + u_ay) + mb * (u_bx + u_by),
{
    assert(scaled * dd == ma * (u_ax + u_ay) + mb * (u_bx + u_by)) by (nonlinear_arith)
        requires
            scaled == ma * (ea + eay) + mb * (ebx + eby),
            u_ax == ea * dd,
            u_ay == eay * dd,
            u_bx == ebx * dd,
            u_by == eby * dd,
    ;
}

/// The general near-contact bound, with no exactness hypotheses: however
/// the integer roundings fall, the corrected centers of a colliding pair
/// with distinct centers end close to exact contact. With `r` the radius
/// sum and `dist` the integer square root of the old squared distance, the
/// new squared distance `nd2` lies in the band
/// `r² - 8r <= nd2` and `nd2·dist <= (r² + 8r + 8)·dist + 2r²`:
/// up to `8r + 8` of rounding from the two truncating divisions, plus
/// `2r²/dist` from the floor of the square root. When root and divisions
/// are exact the band collapses to exact contact
/// (`lemma_correction_restores_contact`).
pub proof fn lemma_correction_near_contact(a: Point, b: Point, ra: int, rb: int)
    requires
        spec_colliding(a, b, ra, rb),
        1 <= spec_dist2(a, b),
        0 <= ra,
        0 <= rb,
    ensures
        ({
            let c = spec_correction(a, b, ra + rb);
            let ndx = (a.x - c.0) - (b.x + c.0);
            let ndy = (a.y - c.1) - (b.y + c.1);
            let r = ra + rb;
            let dist = sqrt_floor(spec_dist2(a, b));
            &&& ndx * ndx + ndy * ndy >= r * r - 8 * r
            &&& (ndx * ndx + ndy * ndy) * dist <= (r * r + 8 * r + 8) * dist + 2 * (r * r)
        }),
{
    let dx = a.x - b.x;
    let dy = a.y - b.y;
    let r = ra + rb;
    let dist2 = spec_dist2(a, b);
    let dist = sqrt_floor(dist2);
    crate::num::lemma_sqrt_floor_exists(dist2);
    assert(1 <= dist) by (nonlinear_arith)
        requires
            0 <= dist,
            dist * dist <= dist2,
            dist2 < (dist + 1) * (dist + 1),
            1 <= dist2,
    ;
    assert(-dist <= dx <= dist && -dist <= dy <= dist) by (nonlinear_arith)
        requires
            dist2 == dx * dx + dy * dy,
            dist2 < (dist + 1) * (dist + 1),
            0 <= dist,
    ;
    let c = spec_correction(a, b, r);
    crate::num::lemma_div_trunc_rem((dist - r) * dx, 2 * dist);
    crate::num::lemma_div_trunc_rem((dist - r) * dy, 2 * dist);
    let ndx = (a.x - c.0) - (b.x + c.0);
    let ndy = (a.y - c.1) - (b.y + c.1);
    assert(ndx == dx - 2 * c.0 && ndy == dy - 2 * c.1);
    let sx = ndx * dist - dx * r;
    let sy = ndy * dist - dy * r;
    // the deviations from an exact correction are the division remainders
    assert(-(2 * dist) < sx < 2 * dist) by (nonlinear_arith)
        requires
            sx == ndx * dist - dx * r,
            ndx == dx - 2 * c.0,
            -(2 * dist) < (dist - r) * dx - c.0 * (2 * dist) < 2 * dist,
    ;
    assert(-(2 * dist) < sy < 2 * dist) by (nonlinear_arith)
        requires
            sy == ndy * dist - dy * r,
            ndy == dy - 2 * c.1,
            -(2 * dist) < (dist - r) * dy - c.1 * (2 * dist) < 2 * dist,
    ;
    // bound each component's scaled square around its exact value
    assert((r * r) * (dx * dx) - 4 * (r * (dist * dist)) <= (dx * r + sx) * (dx * r + sx) <= (r
        * r) * (dx * dx) + 4 * (r * (dist * dist)) + 4 * (dist * dist)) by (nonlinear_arith)
        requires
            -dist <= dx <= dist,
            -(2 * dist) < sx < 2 * dist,
            0 <= r,
            1 <= dist,
    ;
    assert((r * r) * (dy * dy) - 4 * (r * (dist * dist)) <= (dy * r + sy) * (dy * r + sy) <= (r
        * r) * (dy * dy) + 4 * (r * (dist * dist)) + 4 * (dist * dist)) by (nonlinear_arith)
        requires
            -dist <= dy <= dist,
            -(2 * dist) < sy < 2 * dist,
            0 <= r,
            1 <= dist,
    ;
    // assemble the scaled total
    let ee = (ndx * ndx + ndy * ndy) * (dist * dist);
    assert(ee == (dx * r + sx) * (dx * r + sx) + (dy * r + sy) * (dy * r + sy))
        by (nonlinear_arith)
        requires
            ee == (ndx * ndx + ndy * ndy) * (dist * dist),
            ndx * dist == dx * r + sx,
            ndy * dist == dy * r + sy,
    ;
    assert((r * r) * (dx * dx) + (r * r) * (dy * dy) == (r * r) * dist2) by (nonlinear_arith)
        requires
            dist2 == dx * dx + dy * dy,
    ;
    assert((r * r) * (dist * dist) <= (r * r) * dist2 && (r * r) * dist2 <= (r * r) * (dist * dist)
        + (r * r) * (2 * dist)) by (nonlinear_arith)
        requires
            dist * dist <= dist2,
            dist2 < (dist + 1) * (dist + 1),
            0 <= r,
            0 <= dist,
    ;
    // lower: ee >= (r² - 8r)·dist², then cancel dist² >= 1
    assert(ee >= (r * r - 8 * r) * (dist * dist)) by (nonlinear_arith)
        requires
            ee >= (r * r) * dist2 - 8 * (r * (dist * dist)),
            (r * r) * (dist * dist) <= (r * r) * dist2,
    ;
    assert(ndx * ndx + ndy * ndy >= r * r - 8 * r) by (nonlinear_arith)
        requires
            (ndx * ndx + ndy * ndy) * (dist * dist) >= (r * r - 8 * r) * (dist * dist),
            1 <= dist,
    ;
    // upper: ee <= (r² + 8r + 8)·dist² + 2r²·dist, then cancel one dist
    assert(ee <= (r * r + 8 * r + 8) * (dist * dist) + (2 * (r * r)) * dist) by (nonlinear_arith)
        requires
            ee <= (r * r) * dist2 + 8 * (r * (dist * dist)) + 8 * (dist * dist),
            (r * r) * dist2 <= (r * r) * (dist * dist) + (r * r) * (2 * dist),
    ;
    assert((ndx * ndx + ndy * ndy) * dist <= (r * r + 8 * r + 8) * dist + 2 * (r * r))
        by (nonlinear_arith)
        requires
            (ndx * ndx + ndy * ndy) * (dist * dist) <= (r * r + 8 * r + 8) * (dist * dist) + (2 * (
            r * r)) * dist,
            1 <= dist,
    ;
}

/// The general momentum band, with no exactness hypotheses: per axis, the
/// impulse response changes the total momentum `mA·velA + mB·velB` by less
/// than `mA + mB` — the rounding of the two truncating divisions, under one
/// velocity unit per body — and by exactly zero when the divisions are exact
/// (`lemma_bounce_conserves`).
pub proof fn lemma_bounce_momentum_bound(
    vax: int,
    vay: int,
    vbx: int,
    vby: int,
    ma: int,
    mb: int,
    dx: int,
    dy: int,
)
    requires
        1 <= dx * dx + dy * dy,
        0 <= ma,
        0 <= mb,
        1 <= ma + mb,
    ensures
        ({
            let qa = spec_impulse(dx, dy, vax - vbx, vay - vby, mb, ma + mb);
            let qb = spec_impulse(dx, dy, vax - vbx, vay - vby, ma, ma + mb);
            &&& -(ma + mb) < ma * (vax - qa.0) + mb * (vbx + qb.0) - (ma * vax + mb * vbx) < ma
                + mb
            &&& -(ma + mb) < ma * (vay - qa.1) + mb * (vby + qb.1) - (ma * vay + mb * vby) < ma
                + mb
        }),
{
    let kx = vax - vbx;
    let ky = vay - vby;
    let dist2 = dx * dx + dy * dy;
    let den = (ma + mb) * dist2;
    let nn = 2 * (dx * kx + dy * ky);
    assert(1 <= den) by (nonlinear_arith)
        requires
            den == (ma + mb) * (dx * dx + dy * dy),
            1 <= ma + mb,
            1 <= dx * dx + dy * dy,
    ;
    let qa = spec_impulse(dx, dy, kx, ky, mb, ma + mb);
    let qb = spec_impulse(dx, dy, kx, ky, ma, ma + mb);
    crate::num::lemma_div_trunc_rem(nn * mb * dx, den);
    crate::num::lemma_div_trunc_rem(nn * mb * dy, den);
    crate::num::lemma_div_trunc_rem(nn * ma * dx, den);
    crate::num::lemma_div_trunc_rem(nn * ma * dy, den);
    lemma_mass_symmetry(nn, dx, ma, mb);
    lemma_mass_symmetry(nn, dy, ma, mb);
    lemma_momentum_band_core(
        ma,
        mb,
        den,
        nn * mb * dx,
        nn * ma * dx,
        qa.0,
        qb.0,
        nn * mb * dx - qa.0 * den,
        nn * ma * dx - qb.0 * den,
    );
    lemma_momentum_band_core(
        ma,
        mb,
        den,
        nn * mb * dy,
        nn * ma * dy,
        qa.1,
        qb.1,
        nn * mb * dy - qa.1 * den,
        nn * ma * dy - qb.1 * den,
    );
    assert(ma * (vax - qa.0) + mb * (vbx + qb.0) - (ma * vax + mb * vbx) == -(ma * qa.0 - mb
        * qb.0)) by (nonlinear_arith);
    assert(ma * (vay - qa.1) + mb * (vby + qb.1) - (ma * vay + mb * vby) == -(ma * qa.1 - mb
        * qb.1)) by (nonlinear_arith);
}

/// Weighting each body's share of the impulse by the other body's mass gives
/// the same quantity either way around.
proof fn lemma_mass_symmetry(nn: int, d: int, ma: int, mb: int)
    ensures
        ma * (nn * mb * d) == mb * (nn * ma * d),
{
    assert(ma * (nn * mb * d) == mb * (nn * ma * d)) by (nonlinear_arith);
}

/// The core of the momentum band, over opaque quantities: two quotients
/// whose exact values balance can each miss its exact value by less than
/// one, so their mass-weighted difference stays under the total mass.
proof fn lemma_momentum_band_core(
    ma: int,
    mb: int,
    den: int,
    na: int,
    nb: int,
    qa0: int,
    qb0: int,
    sa: int,
    sb: int,
)
    requires
        1 <= den,
        0 <= ma,
        0 <= mb,
        1 <= ma + mb,
        sa == na - qa0 * den,
        sb == nb - qb0 * den,
        -den < sa < den,
        -den < sb < den,
        ma * na == mb * nb,
    ensures
        -(ma + mb) < ma * qa0 - mb * qb0 < ma + mb,
{
    assert((ma * qa0 - mb * qb0) * den == mb * sb - ma * sa) by (nonlinear_arith)
        requires
            sa == na - qa0 * den,
            sb == nb - qb0 * den,
            ma * na == mb * nb,
    ;
    assert(mb * sb - ma * sa <= (ma + mb) * (den - 1) && -((ma + mb) * (den - 1)) <= mb * sb - ma
        * sa) by (nonlinear_arith)
        requires
            -den < sa < den,
            -den < sb < den,
            0 <= ma,
            0 <= mb,
    ;
    assert(-((ma + mb) * den) < mb * sb - ma * sa < (ma + mb) * den) by (nonlinear_arith)
        requires
            mb * sb - ma * sa <= (ma + mb) * (den - 1),
            -((ma + mb) * (den - 1)) <= mb * sb - ma * sa,
            1 <= ma + mb,
            1 <= den,
    ;
    assert(-(ma + mb) < ma * qa0 - mb * qb0 < ma + mb) by (nonlinear_arith)
        requires
            (ma * qa0 - mb * qb0) * den == mb * sb - ma * sa,
            -((ma + mb) * den) < mb * sb - ma * sa < (ma + mb) * den,
            1 <= den,
    ;
}


/// The scaled square of a velocity lowered by an exact quotient, expanded
/// over the quotient's defining product.
proof fn lemma_scaled_square_minus(v: int, den: int, q: int, j: int, u: int)
    requires
        u == ((v - q) * (v - q) - v * v) * (den * den),
        q * den == j,
    ensures
        u == -2 * v * den * j + j * j,
{
    assert(u == -2 * v * den * j + j * j) by (nonlinear_arith)
        requires
            u == ((v - q) * (v - q) - v * v) * (den * den),
            q * den == j,
    ;
}

/// The scaled square of a velocity raised by an exact quotient, expanded
/// over the quotient's defining product.
proof fn lemma_scaled_square_plus(v: int, den: int, q: int, j: int, u: int)
    requires
        u == ((v + q) * (v + q) - v * v) * (den * den),
        q * den == j,
    ensures
        u == 2 * v * den * j + j * j,
{
    assert(u == 2 * v * den * j + j * j) by (nonlinear_arith)
        requires
            u == ((v + q) * (v + q) - v * v) * (den * den),
            q * den == j,
    ;
}

/// The elastic-collision identity over plain integers: if the four impulse
/// components satisfy their defining product equations exactly, the response
/// conserves momentum and kinetic energy. The quantities are passed as
/// variables so the ring reasoning stays small.
proof fn lemma_elastic_identity(
    vax: int,
    vay: int,
    vbx: int,
    vby: int,
    ma: int,
    mb: int,
    dx: int,
    dy: int,
    nn: int,
    den: int,
    qa0: int,
    qa1: int,
    qb0: int,
    qb1: int,
)
    requires
        1 <= den,
        den == (ma + mb) * (dx * dx + dy * dy),
        nn == 2 * (dx * (vax - vbx) + dy * (vay - vby)),
        qa0 * den == nn * mb * dx,
        qa1 * den == nn * mb * dy,
        qb0 * den == nn * ma * dx,
        qb1 * den == nn * ma * dy,
    ensures
        ma * (vax - qa0) + mb * (vbx + qb0) == ma * vax + mb * vbx,
        ma * (vay - qa1) + mb * (vby + qb1) == ma * vay + mb * vby,
        ma * ((vax - qa0) * (vax - qa0) + (vay - qa1) * (vay - qa1)) + mb * ((vbx + qb0) * (vbx
            + qb0) + (vby + qb1) * (vby + qb1)) == ma * (vax * vax + vay * vay) + mb * (vbx * vbx
            + vby * vby),
{
    // momentum: the two impulses scale inversely with the masses
    assert((ma * qa0 - mb * qb0) * den == 0) by (nonlinear_arith)
        requires
            qa0 * den == nn * mb * dx,
            qb0 * den == nn * ma * dx,
    ;
    assert((ma * qa1 - mb * qb1) * den == 0) by (nonlinear_arith)
        requires
            qa1 * den == nn * mb * dy,
            qb1 * den == nn * ma * dy,
    ;
    assert(ma * qa0 == mb * qb0) by (nonlinear_arith)
        requires
            (ma * qa0 - mb * qb0) * den == 0,
            1 <= den,
    ;
    assert(ma * qa1 == mb * qb1) by (nonlinear_arith)
        requires
            (ma * qa1 - mb * qb1) * den == 0,
            1 <= den,
    ;
    assert(ma * (vax - qa0) + mb * (vbx + qb0) == ma * vax + mb * vbx) by (nonlinear_arith)
        requires
            ma * qa0 == mb * qb0,
    ;
    assert(ma * (vay - qa1) + mb * (vby + qb1) == ma * vay + mb * vby) by (nonlinear_arith)
        requires
            ma * qa1 == mb * qb1,
    ;
    // energy: scale the energy difference by den² and reduce it, component
    // by component, to the ring identity nn·ma·mb·den·(nn − 2·dot) == 0
    let u_ax = ((vax - qa0) * (vax - qa0) - vax * vax) * (den * den);
    let u_ay = ((vay - qa1) * (vay - qa1) - vay * vay) * (den * den);
    let u_bx = ((vbx + qb0) * (vbx + qb0) - vbx * vbx) * (den * den);
    let u_by = ((vby + qb1) * (vby + qb1) - vby * vby) * (den * den);
    lemma_scaled_square_minus(vax, den, qa0, nn * mb * dx, u_ax);
    lemma_scaled_square_minus(vay, den, qa1, nn * mb * dy, u_ay);
    lemma_scaled_square_plus(vbx, den, qb0, nn * ma * dx, u_bx);
    lemma_scaled_square_plus(vby, den, qb1, nn * ma * dy, u_by);
    assert(ma * (nn * mb * dx) == mb * (nn * ma * dx) && ma * (nn * mb * dy) == mb * (nn * ma
        * dy)) by (nonlinear_arith);
    lemma_energy_component(
        vax,
        vbx,
        ma,
        mb,
        den,
        vax - vbx,
        nn * mb * dx,
        nn * ma * dx,
        ma * (nn * mb * dx),
        u_ax,
        u_bx,
        nn * mb * dx + nn * ma * dx,
    );
    lemma_energy_component(
        vay,
        vby,
        ma,
        mb,
        den,
        vay - vby,
        nn * mb * dy,
        nn * ma * dy,
        ma * (nn * mb * dy),
        u_ay,
        u_by,
        nn * mb * dy + nn * ma * dy,
    );
    lemma_energy_total(
        ma,
        mb,
        den,
        nn,
        dx,
        dy,
        vax - vbx,
        vay - vby,
        ma * u_ax + mb * u_bx,
        ma * u_ay + mb * u_by,
    );
    assert(ma * (u_ax + u_ay) + mb * (u_bx + u_by) == (ma * u_ax + mb * u_bx) + (ma * u_ay + mb
        * u_by)) by (nonlinear_arith);
    let ea = (vax - qa0) * (vax - qa0) - vax * vax;
    let eay = (vay - qa1) * (vay - qa1) - vay * vay;
    let ebx = (vbx + qb0) * (vbx + qb0) - vbx * vbx;
    let eby = (vby + qb1) * (vby + qb1) - vby * vby;
    let scaled = ma * ((vax - qa0) * (vax - qa0) + (vay - qa1) * (vay - qa1)) + mb * ((vbx + qb0)
        * (vbx + qb0) + (vby + qb1) * (vby + qb1)) - (ma * (vax * vax + vay * vay) + mb * (vbx
        * vbx + vby * vby));
    lemma_regroup(
        ma,
        mb,
        (vax - qa0) * (vax - qa0) + (vay - qa1) * (vay - qa1),
        (vbx + qb0) * (vbx + qb0) + (vby + qb1) * (vby + qb1),
        vax * vax + vay * vay,
        vbx * vbx + vby * vby,
    );
    assert(scaled == ma * (ea + eay) + mb * (ebx + eby));
    lemma_scale_split(ma, mb, ea, eay, ebx, eby, den * den, scaled, u_ax, u_ay, u_bx, u_by);
    assert(scaled == 0) by (nonlinear_arith)
        requires
            scaled * (den * den) == 0,
            1 <= den,
    ;
}

/// The impulse response is a perfectly elastic collision: whenever the
/// divisions are exact, the total momentum `mA·velA + mB·velB` and the total
/// kinetic energy `mA·|velA|² + mB·|velB|²` are both unchanged by it.
pub proof fn lemma_bounce_conserves(
    vax: int,
    vay: int,
    vbx: int,
    vby: int,
    ma: int,
    mb: int,
    dx: int,
    dy: int,
)
    requires
        1 <= dx * dx + dy * dy,
        0 <= ma,
        0 <= mb,
        1 <= ma + mb,
        (2 * (dx * (vax - vbx) + dy * (vay - vby)) * mb * dx) % ((ma + mb) * (dx * dx + dy * dy))
            == 0,
        (2 * (dx * (vax - vbx) + dy * (vay - vby)) * mb * dy) % ((ma + mb) * (dx * dx + dy * dy))
            == 0,
        (2 * (dx * (vax - vbx) + dy * (vay - vby)) * ma * dx) % ((ma + mb) * (dx * dx + dy * dy))
            == 0,
        (2 * (dx * (vax - vbx) + dy * (vay - vby)) * ma * dy) % ((ma + mb) * (dx * dx + dy * dy))
            == 0,
    ensures
        ({
            let qa = spec_impulse(dx, dy, vax - vbx, vay - vby, mb, ma + mb);
            let qb = spec_impulse(dx, dy, vax - vbx, vay - vby, ma, ma + mb);
            &&& ma * (vax - qa.0) + mb * (vbx + qb.0) == ma * vax + mb * vbx
            &&& ma * (vay - qa.1) + mb * (vby + qb.1) == ma * vay + mb * vby
            &&& ma * ((vax - qa.0) * (vax - qa.0) + (vay - qa.1) * (vay - qa.1)) + mb * ((vbx
                + qb.0) * (vbx + qb.0) + (vby + qb.1) * (vby + qb.1)) == ma * (vax * vax + vay
                * vay) + mb * (vbx * vbx + vby * vby)
        }),
{
    let kx = vax - vbx;
    let ky = vay - vby;
    let dist2 = dx * dx + dy * dy;
    let den = (ma + mb) * dist2;
    let nn = 2 * (dx * kx + dy * ky);
    assert(1 <= den) by (nonlinear_arith)
        requires
            den == (ma + mb) * (dx * dx + dy * dy),
            1 <= ma + mb,
            1 <= dx * dx + dy * dy,
    ;
    let qa = spec_impulse(dx, dy, kx, ky, mb, ma + mb);
    let qb = spec_impulse(dx, dy, kx, ky, ma, ma + mb);
    crate::num::lemma_div_trunc_divides(nn * mb * dx, den);
    crate::num::lemma_div_trunc_divides(nn * mb * dy, den);
    crate::num::lemma_div_trunc_divides(nn * ma * dx, den);
    crate::num::lemma_div_trunc_divides(nn * ma * dy, den);
    assert(qa.0 * den == nn * mb * dx && qa.1 * den == nn * mb * dy && qb.0 * den == nn * ma * dx
        && qb.1 * den == nn * ma * dy);
    lemma_elastic_identity(
        vax,
        vay,
        vbx,
        vby,
        ma,
        mb,
        dx,
        dy,
        nn,
        den,
        qa.0,
        qa.1,
        qb.0,
        qb.1,
    );
}

} // verus!
