use ballsim::apply_velocity;
use ballsim::check_walls;
use ballsim::tick;
use ballsim::Ball;
use ballsim::Bounds;
use ballsim::EdgeCollider;
use ballsim::ErrorKind;
use ballsim::Location;
use ballsim::Options;
use ballsim::Point;
use ballsim::SimBody;
use ballsim::Velocity;

fn arena() -> Bounds {
    Bounds::from_corners(Point::new(0, 0), Point::new(1024, 768))
}

fn body(id: u64, x: i64, y: i64, vx: i64, vy: i64, radius: i64) -> SimBody {
    SimBody {
        id,
        pos: Point::new(x, y),
        vel: Velocity(Point::new(vx, vy)),
        ball: Ball::new(radius),
    }
}

#[test]
fn apply_velocity_scales_by_the_timestep() {
    let mut bodies = vec![body(1, 100, 200, 5, 3, 4), body(2, 50, 50, -5, -3, 4)];
    // half a second: the displacement rounds towards zero
    apply_velocity(&mut bodies, 1, 2);
    assert_eq!(bodies[0].pos, Point::new(102, 201));
    assert_eq!(bodies[1].pos, Point::new(48, 49));
    assert_eq!(bodies[0].vel, Velocity(Point::new(5, 3)));
}

#[test]
fn check_walls_reflects_and_mirrors() {
    let edge = EdgeCollider::new(arena());
    let mut bodies = vec![body(1, 4, 50, -3, 2, 5), body(2, 500, 380, 3, 2, 5)];
    check_walls(&edge, &mut bodies);
    assert_eq!(bodies[0].pos, Point::new(6, 50));
    assert_eq!(bodies[0].vel, Velocity(Point::new(3, 2)));
    // a body in the middle of the arena is untouched
    assert_eq!(bodies[1].pos, Point::new(500, 380));
    assert_eq!(bodies[1].vel, Velocity(Point::new(3, 2)));
}

#[test]
fn equal_mass_head_on_tick() {
    // two bodies of radius 5 overlapping by 2 units, closing head-on: one
    // tick pushes them apart to exact contact and exchanges their velocities
    let edge = EdgeCollider::new(arena());
    let mut bodies = vec![body(1, 100, 100, 5, 0, 5), body(2, 108, 100, -5, 0, 5)];
    assert_eq!(bodies[0].ball.mass, 25);
    let (pairs, errors) = tick(&mut bodies, &edge, Options::default(), 0, 1);
    assert!(errors.is_empty());
    assert_eq!(pairs, vec![(1, 2)]);
    assert_eq!(bodies[0].pos, Point::new(99, 100));
    assert_eq!(bodies[1].pos, Point::new(109, 100));
    assert_eq!(bodies[1].pos.x - bodies[0].pos.x, 10);
    assert_eq!(bodies[0].vel, Velocity(Point::new(-5, 0)));
    assert_eq!(bodies[1].vel, Velocity(Point::new(5, 0)));
}

#[test]
fn separated_bodies_pass_a_tick_unchanged() {
    let edge = EdgeCollider::new(arena());
    let mut bodies = vec![body(1, 100, 100, 0, 0, 5), body(2, 300, 300, 0, 0, 5)];
    let (pairs, errors) = tick(&mut bodies, &edge, Options::default(), 0, 1);
    assert!(pairs.is_empty());
    assert!(errors.is_empty());
    assert_eq!(bodies[0].pos, Point::new(100, 100));
    assert_eq!(bodies[1].pos, Point::new(300, 300));
}

#[test]
fn out_of_bounds_body_is_reported_and_skipped() {
    let edge = EdgeCollider::new(arena());
    // so far to the right that the wall mirror throws it past the left wall:
    // it stays outside the arena and cannot be indexed this tick
    let mut bodies = vec![body(1, 3000, 400, 0, 0, 5), body(2, 300, 300, 0, 0, 5)];
    let (pairs, errors) = tick(&mut bodies, &edge, Options::default(), 0, 1);
    assert!(pairs.is_empty());
    let expected_location = Location::new(Point::new(-962, 400), 10, 10);
    assert_eq!(errors, vec![ErrorKind::OutOfBounds(arena(), expected_location)]);
    // the stray body still got wall handling; it just took no part in the
    // broad phase
    assert_eq!(bodies[0].pos, Point::new(-962, 400));
    assert_eq!(bodies[1].pos, Point::new(300, 300));
}

#[test]
fn tick_moves_then_bounces_off_walls() {
    let edge = EdgeCollider::new(arena());
    // moving left at 10 units per second from x = 10: after one second the
    // move puts the center at 0, five units past the contact at 5
    let mut bodies = vec![body(1, 10, 400, -10, 0, 5)];
    let (pairs, errors) = tick(&mut bodies, &edge, Options::default(), 1, 1);
    assert!(pairs.is_empty());
    assert!(errors.is_empty());
    assert_eq!(bodies[0].pos, Point::new(10, 400));
    assert_eq!(bodies[0].vel, Velocity(Point::new(10, 0)));
}
