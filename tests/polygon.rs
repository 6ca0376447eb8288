use arkanoid::collision::Ball;
use arkanoid::geometry::Vec2;

fn v(x: i64, y: i64) -> Vec2 {
    Vec2 { x, y }
}

fn ball(x: i64, y: i64, radius: i64) -> Ball {
    Ball { pos: v(x, y), radius, speed: v(0, 0) }
}

fn square() -> Vec<Vec2> {
    vec![v(100, 100), v(200, 100), v(200, 150), v(100, 150)]
}

#[test]
fn polygon_top_edge_contact() {
    assert_eq!(ball(150, 95, 10).collides_polygon(&square()), Some((0, v(0, -50000))));
}

#[test]
fn polygon_touching_at_radius_is_no_contact() {
    assert_eq!(ball(150, 90, 10).collides_polygon(&square()), None);
    assert_eq!(ball(210, 125, 10).collides_polygon(&square()), None);
    assert_eq!(ball(209, 125, 10).collides_polygon(&square()), Some((1, v(9 * 2500, 0))));
}

#[test]
fn polygon_corner_tie_goes_to_first_edge() {
    assert_eq!(ball(95, 95, 10).collides_polygon(&square()), Some((0, v(-5, -5))));
}

#[test]
fn two_point_polygon_acts_as_segment() {
    let seg = vec![v(0, 0), v(100, 0)];
    assert_eq!(ball(50, 5, 10).collides_polygon(&seg), Some((0, v(0, 50000))));
    assert_eq!(ball(50, -5, 10).collides_polygon(&seg), Some((0, v(0, -50000))));
    assert_eq!(ball(50, 0, 10).collides_polygon(&seg), Some((0, v(1, 0))));
    assert_eq!(ball(50, 10, 10).collides_polygon(&seg), None);
    assert_eq!(ball(-6, 8, 10).collides_polygon(&seg), None);
    assert_eq!(ball(-3, 4, 10).collides_polygon(&seg), Some((0, v(-3, 4))));
}

#[test]
fn zero_length_edge_uses_its_point() {
    let dot = vec![v(10, 10), v(10, 10)];
    assert_eq!(ball(13, 14, 10).collides_polygon(&dot), Some((0, v(3, 4))));
    assert_eq!(ball(16, 18, 10).collides_polygon(&dot), None);
}

#[test]
fn fewer_than_two_vertices_never_touch() {
    assert_eq!(ball(10, 10, 10).collides_polygon(&vec![v(10, 10)]), None);
    assert_eq!(ball(10, 10, 10).collides_polygon(&vec![]), None);
}
