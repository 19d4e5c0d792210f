use ballsim::balls_bounce_after_collision;
use ballsim::Ball;
use ballsim::BallCollisions;
use ballsim::Bounds;
use ballsim::EdgeCollider;
use ballsim::isqrt;
use ballsim::Point;
use ballsim::Velocity;

fn arena() -> Bounds {
    Bounds::from_corners(Point::new(0, 0), Point::new(100, 100))
}

#[test]
fn ball_mass_is_radius_squared() {
    let ball = Ball::new(5);
    assert_eq!(ball.radius, 5);
    assert_eq!(ball.mass, 25);
    assert_eq!(Ball::new(0).mass, 0);
}

#[test]
fn isqrt_exact_values() {
    assert_eq!(isqrt(0), 0);
    assert_eq!(isqrt(1), 1);
    assert_eq!(isqrt(15), 3);
    assert_eq!(isqrt(16), 4);
    assert_eq!(isqrt(17), 4);
    assert_eq!(isqrt(u64::MAX), 0xffff_ffff);
}

#[test]
fn wall_reflection_left() {
    let edge = EdgeCollider::new(arena());
    let ball = Ball::new(5);
    // one unit past the left contact position, moving further left
    let mut pos = Point::new(4, 50);
    let mut vel = Velocity(Point::new(-3, 2));
    assert!(edge.check_left(&ball, &mut pos, &mut vel));
    assert_eq!(pos, Point::new(6, 50));
    assert_eq!(vel, Velocity(Point::new(3, 2)));
    // away from the wall nothing happens
    let mut pos2 = Point::new(50, 50);
    let mut vel2 = Velocity(Point::new(-3, 2));
    assert!(!edge.check_left(&ball, &mut pos2, &mut vel2));
    assert_eq!(pos2, Point::new(50, 50));
    assert_eq!(vel2, Velocity(Point::new(-3, 2)));
}

#[test]
fn wall_reflection_right_top_bottom() {
    let edge = EdgeCollider::new(arena());
    let ball = Ball::new(5);
    let mut pos = Point::new(97, 50);
    let mut vel = Velocity(Point::new(4, 0));
    assert!(edge.check_right(&ball, &mut pos, &mut vel));
    assert_eq!(pos, Point::new(93, 50));
    assert_eq!(vel, Velocity(Point::new(-4, 0)));

    let mut pos = Point::new(50, 98);
    let mut vel = Velocity(Point::new(0, 7));
    assert!(edge.check_top(&ball, &mut pos, &mut vel));
    assert_eq!(pos, Point::new(50, 92));
    assert_eq!(vel, Velocity(Point::new(0, -7)));

    let mut pos = Point::new(50, 2);
    let mut vel = Velocity(Point::new(0, -7));
    assert!(edge.check_bottom(&ball, &mut pos, &mut vel));
    assert_eq!(pos, Point::new(50, 8));
    assert_eq!(vel, Velocity(Point::new(0, 7)));
}

#[test]
fn edge_ranges() {
    let edge = EdgeCollider::new(arena());
    assert_eq!(edge.range_x(16), (16, 68));
    assert_eq!(edge.range_y(16), (16, 68));
}

#[test]
fn pair_check_corrects_overlap_to_contact() {
    let mut collisions = BallCollisions::new(Some(4));
    let ball = Ball::new(3);
    let mut pa = Point::new(0, 0);
    let mut pb = Point::new(4, 0);
    assert!(collisions.check(1, &ball, &mut pa, 2, &ball, &mut pb));
    // each body moved half the penetration apart along the line of centers
    assert_eq!(pa, Point::new(-1, 0));
    assert_eq!(pb, Point::new(5, 0));
    // penetration resolved to contact: distance equals the radius sum
    assert_eq!(pb.x - pa.x, 6);
    assert_eq!(collisions.into_pairs(), vec![(1, 2)]);
}

#[test]
fn pair_check_is_order_independent() {
    let ball = Ball::new(3);

    let mut one = BallCollisions::new(None);
    let mut pa = Point::new(0, 0);
    let mut pb = Point::new(4, 0);
    assert!(one.check(1, &ball, &mut pa, 2, &ball, &mut pb));

    let mut two = BallCollisions::new(None);
    let mut qb = Point::new(4, 0);
    let mut qa = Point::new(0, 0);
    assert!(two.check(2, &ball, &mut qb, 1, &ball, &mut qa));

    // each body ends at the same place whichever way the pair was presented
    assert_eq!(pa, qa);
    assert_eq!(pb, qb);
    // and exactly one pair is recorded per call
    assert_eq!(one.into_pairs().len(), 1);
    assert_eq!(two.into_pairs().len(), 1);
}

#[test]
fn pair_check_ignores_separated_bodies() {
    let mut collisions = BallCollisions::new(None);
    let ball = Ball::new(3);
    let mut pa = Point::new(0, 0);
    let mut pb = Point::new(7, 0);
    assert!(!collisions.check(1, &ball, &mut pa, 2, &ball, &mut pb));
    assert_eq!(pa, Point::new(0, 0));
    assert_eq!(pb, Point::new(7, 0));
    assert!(collisions.into_pairs().is_empty());
}

#[test]
fn pair_check_separates_coincident_centers() {
    let mut collisions = BallCollisions::new(None);
    let ball = Ball::new(2);
    let mut pa = Point::new(5, 5);
    let mut pb = Point::new(5, 5);
    assert!(collisions.check(1, &ball, &mut pa, 2, &ball, &mut pb));
    // the contact normal is undefined, so the positive x-axis serves
    assert_eq!(pa, Point::new(7, 5));
    assert_eq!(pb, Point::new(3, 5));
    assert_eq!(pb.x - pa.x, -4);
}

#[test]
fn bounce_exchanges_equal_mass_head_on() {
    let ball = Ball::new(5);
    let pa = Point::new(100, 100);
    let pb = Point::new(110, 100);
    let mut va = Velocity(Point::new(5, 0));
    let mut vb = Velocity(Point::new(-5, 0));
    balls_bounce_after_collision(&pa, &mut va, &ball, &pb, &mut vb, &ball);
    assert_eq!(va, Velocity(Point::new(-5, 0)));
    assert_eq!(vb, Velocity(Point::new(5, 0)));
}

#[test]
fn bounce_conserves_momentum_and_energy() {
    let light = Ball::new(2);
    let heavy = Ball::new(4);
    let pa = Point::new(0, 0);
    let pb = Point::new(2, 0);
    let mut va = Velocity(Point::new(10, 0));
    let mut vb = Velocity(Point::new(0, 0));
    let momentum_before = light.mass * va.0.x + heavy.mass * vb.0.x;
    let energy_before = light.mass * va.0.x * va.0.x + heavy.mass * vb.0.x * vb.0.x;
    balls_bounce_after_collision(&pa, &mut va, &light, &pb, &mut vb, &heavy);
    // mass 4 against mass 16 head-on: the exact impulse divides evenly here
    assert_eq!(light.mass * va.0.x + heavy.mass * vb.0.x, momentum_before);
    assert_eq!(
        light.mass * va.0.x * va.0.x + heavy.mass * vb.0.x * vb.0.x,
        energy_before
    );
    assert_eq!(va, Velocity(Point::new(-6, 0)));
    assert_eq!(vb, Velocity(Point::new(4, 0)));
}

#[test]
fn bounce_leaves_degenerate_pairs_untouched() {
    let ball = Ball::new(5);
    // coincident centers: no contact normal exists
    let pa = Point::new(5, 5);
    let mut va = Velocity(Point::new(3, 0));
    let mut vb = Velocity(Point::new(-3, 0));
    balls_bounce_after_collision(&pa, &mut va, &ball, &pa, &mut vb, &ball);
    assert_eq!(va, Velocity(Point::new(3, 0)));
    assert_eq!(vb, Velocity(Point::new(-3, 0)));

    // a zero total mass cannot distribute an impulse
    let weightless = Ball::new(0);
    let pb = Point::new(6, 5);
    balls_bounce_after_collision(&pa, &mut va, &weightless, &pb, &mut vb, &weightless);
    assert_eq!(va, Velocity(Point::new(3, 0)));
    assert_eq!(vb, Velocity(Point::new(-3, 0)));
}
