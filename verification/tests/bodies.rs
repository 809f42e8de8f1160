use motion::collision::shape::Shape;
use motion::collision::Collision2d;
use motion::forces::force::Force;
use motion::forces::gravity::{gravity, Gravity, EARTH_GRAVITY};
use motion::forces::move_2d::{move2d, Direction2d, Move2d};
use motion::obj::obj_2d::{obj2d, Object2d, Object2dBuilder};
use motion::scalar::Scalar;
use motion::vec::vec_2d::Vec2d;

fn s(x: f32) -> Scalar {
    Scalar::from_bits(x.to_bits())
}

fn f(x: Scalar) -> f32 {
    f32::from_bits(x.to_bits())
}

fn v(x: f32, y: f32) -> Vec2d {
    Vec2d::new(s(x), s(y))
}

fn circle(x: f32, y: f32, radius: f32) -> Object2d {
    Object2dBuilder::new().position(v(x, y)).radius(s(radius)).shape(Shape::Circle).build()
}

fn aabb(min: (f32, f32), max: (f32, f32)) -> Object2d {
    Object2dBuilder::new().shape(Shape::AABB(v(min.0, min.1), v(max.0, max.1))).build()
}

#[test]
fn circles_that_touch_collide() {
    // the centres are 4 apart, and the root of 16 is exact
    assert!(Collision2d::new(circle(0.0, 0.0, 1.5), circle(4.0, 0.0, 2.5)).collider());
    assert!(Collision2d::new(circle(0.0, 0.0, 3.0), circle(0.0, 4.0, 3.0)).collider());
}

#[test]
fn circles_just_apart_do_not_collide() {
    assert!(!Collision2d::new(circle(0.0, 0.0, 1.5), circle(4.0, 0.0, 2.4999998)).collider());
    assert!(!Collision2d::new(circle(0.0, 0.0, 1.0), circle(4.0, 0.0, 1.0)).collider());
}

#[test]
fn boxes_that_overlap_collide() {
    assert!(Collision2d::new(aabb((0.0, 0.0), (2.0, 2.0)), aabb((1.0, 1.0), (3.0, 3.0))).collider());
}

#[test]
fn boxes_that_share_an_edge_do_not_collide() {
    assert!(!Collision2d::new(aabb((0.0, 0.0), (1.0, 1.0)), aabb((1.0, 0.0), (2.0, 1.0))).collider());
    assert!(!Collision2d::new(aabb((1.0, 0.0), (2.0, 1.0)), aabb((0.0, 0.0), (1.0, 1.0))).collider());
    assert!(!Collision2d::new(aabb((0.0, 0.0), (1.0, 1.0)), aabb((0.0, 1.0), (1.0, 2.0))).collider());
    assert!(!Collision2d::new(aabb((0.0, 0.0), (1.0, 1.0)), aabb((5.0, 5.0), (6.0, 6.0))).collider());
}

#[test]
fn mismatched_shapes_do_not_collide() {
    let c = circle(0.0, 0.0, 10.0);
    let b = aabb((-1.0, -1.0), (1.0, 1.0));
    let n = Object2dBuilder::new().radius(s(10.0)).build();
    assert!(!Collision2d::new(c, b).collider());
    assert!(!Collision2d::new(b, c).collider());
    assert!(!Collision2d::new(n, c).collider());
    assert!(!Collision2d::new(c, n).collider());
    assert!(!Collision2d::new(n, n).collider());
    assert!(!Collision2d::new(n, b).collider());
}

#[test]
fn collision_does_not_depend_on_the_order() {
    let bodies = [
        circle(0.0, 0.0, 1.0),
        circle(1.5, 0.5, 0.75),
        circle(10.0, -3.0, 2.0),
        aabb((0.0, 0.0), (2.0, 2.0)),
        aabb((1.0, 1.0), (3.0, 3.0)),
        aabb((2.0, 0.0), (4.0, 1.0)),
    ];
    for a in bodies.iter() {
        for b in bodies.iter() {
            assert_eq!(Collision2d::new(*a, *b).collider(), Collision2d::new(*b, *a).collider());
        }
    }
}

#[test]
fn corners_of_a_box() {
    let shape = Shape::AABB(v(0.0, 0.0), v(1.0, 1.0));
    let (v1, v2) = shape.get_aabb();
    assert_eq!(v1, v(0.0, 0.0));
    assert_eq!(v2, v(1.0, 1.0));
}

#[test]
fn shapes_compare_by_kind_and_corners() {
    assert!(Shape::Circle == Shape::Circle);
    assert!(Shape::Empty == Shape::Empty);
    assert!(Shape::Circle != Shape::Empty);
    assert!(Shape::AABB(v(0.0, 0.0), v(1.0, 1.0)) == Shape::AABB(v(-0.0, 0.0), v(1.0, 1.0)));
    assert!(Shape::AABB(v(0.0, 0.0), v(1.0, 1.0)) != Shape::AABB(v(0.0, 0.0), v(1.0, 2.0)));
    assert!(Shape::AABB(v(0.0, 0.0), v(1.0, 1.0)) != Shape::Circle);
}

#[test]
fn builder_sets_each_field() {
    let blank = Object2dBuilder::new().build();
    assert_eq!(blank.vec, v(0.0, 0.0));
    assert_eq!(f(blank.mass), 0.0);
    assert!(blank.shape == Shape::Empty);
    let body = Object2dBuilder::default()
        .position(v(1.0, 2.0))
        .density(s(3.0))
        .mass(s(4.0))
        .velocity(v(5.0, 6.0))
        .acceleration(v(7.0, 8.0))
        .radius(s(9.0))
        .shape(Shape::Circle)
        .build();
    let same = Object2d::new(v(1.0, 2.0), s(3.0), s(4.0), v(5.0, 6.0), v(7.0, 8.0), s(9.0), Shape::Circle);
    let also = obj2d(v(1.0, 2.0), s(3.0), s(4.0), v(5.0, 6.0), v(7.0, 8.0), s(9.0), Shape::Circle);
    for b in [body, same, also].iter() {
        assert_eq!(b.vec, v(1.0, 2.0));
        assert_eq!(f(b.density), 3.0);
        assert_eq!(f(b.mass), 4.0);
        assert_eq!(b.velocity, v(5.0, 6.0));
        assert_eq!(b.acceleration, v(7.0, 8.0));
        assert_eq!(f(b.radius), 9.0);
        assert!(b.shape == Shape::Circle);
    }
}

#[test]
fn gravity_moves_and_slows_along_y() {
    let (y, vy, g, dt) = (200.0f32, 231.0f32, 9.807f32, 0.016f32);
    let mut body = Object2dBuilder::new()
        .position(v(75.0, y))
        .velocity(v(2.0, vy))
        .acceleration(v(1.0, 1.0))
        .mass(s(2.0))
        .build();
    let force: Gravity = gravity(Scalar::from_bits(EARTH_GRAVITY), s(1.0), s(dt));
    assert_eq!(f(force.force), g);
    body.apply(&force);
    let want_y = y + (vy * dt - 0.5 * g * (dt * dt));
    let want_vy = vy - g * dt;
    assert_eq!(body.vec.y.to_bits(), want_y.to_bits());
    assert_eq!(body.velocity.y.to_bits(), want_vy.to_bits());
    assert_eq!(body.vec.x, s(75.0));
    assert_eq!(body.velocity.x, s(2.0));
    assert_eq!(body.acceleration, v(1.0, 1.0));
    assert_eq!(f(body.mass), 2.0);
    assert!(want_vy < vy);
}

#[test]
fn gravity_on_a_body_at_rest() {
    let mut body = Object2dBuilder::new().build();
    gravity(s(10.0), s(0.0), s(1.0)).apply_2d(&mut body);
    assert_eq!(f(body.vec.y), -5.0);
    assert_eq!(f(body.velocity.y), -10.0);
    assert_eq!(f(body.vec.x), 0.0);
}

#[test]
fn movement_along_one_axis() {
    let (x, y, vx, vy, ax, ay, dt, fps) = (75.0f32, 200.0f32, 2.0f32, 231.0f32, 2.0f32, -240.0f32, 1.0f32 / 60.0, 60.0f32);
    let start = Object2dBuilder::new()
        .position(v(x, y))
        .velocity(v(vx, vy))
        .acceleration(v(ax, ay))
        .build();
    let time = fps * dt;

    let mut along_x = start;
    along_x.apply(&move2d(Direction2d::X, s(dt), s(fps)));
    let want_x = x + vx * time + 0.5 * ax * (time * time);
    assert_eq!(along_x.vec.x.to_bits(), want_x.to_bits());
    assert_eq!(along_x.vec.y, s(y));
    assert_eq!(along_x.velocity, v(vx, vy));
    assert_eq!(along_x.acceleration, v(ax, ay));

    let mut along_y = start;
    let force = Move2d { direction: Direction2d::Y, delta_time: s(dt), fps: s(fps) };
    force.apply_2d(&mut along_y);
    let want_y = y + vy * time + 0.5 * ay * (time * time);
    assert_eq!(along_y.vec.y.to_bits(), want_y.to_bits());
    assert_eq!(along_y.vec.x, s(x));
}

#[test]
fn movement_by_exact_numbers() {
    let mut body = Object2dBuilder::new()
        .position(v(1.0, 1.0))
        .velocity(v(2.0, 0.0))
        .acceleration(v(4.0, 0.0))
        .build();
    body.apply(&move2d(Direction2d::X, s(0.5), s(4.0)));
    // 1 + 2 * 2 + 1/2 * 4 * 2^2
    assert_eq!(f(body.vec.x), 13.0);
    assert_eq!(f(body.vec.y), 1.0);
    assert!(Direction2d::X != Direction2d::Y);
}
