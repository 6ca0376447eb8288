use arkanoid::collision::{Ball, Rect};
use arkanoid::game::{Game, Pad};
use arkanoid::geometry::{clamp, reflect, Vec2};
use arkanoid::obstacle::{grid, Shard};

fn v(x: i64, y: i64) -> Vec2 {
    Vec2 { x, y }
}

fn rect(left: i64, top: i64, right: i64, bottom: i64) -> Rect {
    Rect { left, top, right, bottom }
}

fn ball(x: i64, y: i64, radius: i64) -> Ball {
    Ball { pos: v(x, y), radius, speed: v(0, 0) }
}

#[test]
fn paddle_top_contact_flips_vertical_speed() {
    let b = Ball { pos: v(512, 758), radius: 10, speed: v(8, -5) };
    let pad = rect(482, 758, 542, 768);
    assert_eq!(b.closest_point(&pad), v(512, 758));
    let n = b.collides(&pad).unwrap();
    assert_eq!(n, v(0, -1));
    assert_eq!(reflect(b.speed, n), v(8, 5));
}

#[test]
fn reflect_keeps_speed_and_undoes_itself() {
    for n in [v(1, 0), v(-1, 0), v(0, 1), v(0, -1)] {
        for s in [v(3, -7), v(0, 0), v(-12, 5), v(9, 9)] {
            let r = reflect(s, n);
            assert_eq!(r.x * r.x + r.y * r.y, s.x * s.x + s.y * s.y);
            assert_eq!(reflect(r, n), s);
        }
    }
    assert_eq!(reflect(v(3, -7), v(1, 0)), v(-3, -7));
    assert_eq!(reflect(v(3, -7), v(0, 1)), v(3, 7));
}

#[test]
fn rectangle_edge_at_radius_is_no_contact() {
    let r = rect(100, 100, 200, 150);
    assert_eq!(ball(90, 120, 10).collides(&r), None);
    assert_eq!(ball(91, 120, 10).collides(&r), Some(v(-1, 0)));
    assert_eq!(ball(210, 120, 10).collides(&r), None);
    assert_eq!(ball(209, 120, 10).collides(&r), Some(v(1, 0)));
    assert_eq!(ball(150, 90, 10).collides(&r), None);
    assert_eq!(ball(150, 91, 10).collides(&r), Some(v(0, -1)));
    assert_eq!(ball(150, 160, 10).collides(&r), None);
    assert_eq!(ball(150, 159, 10).collides(&r), Some(v(0, 1)));
}

#[test]
fn corner_and_inside_normals() {
    let r = rect(100, 100, 200, 150);
    // 5 left of and 3 above the top-left corner: the horizontal gap is larger
    assert_eq!(ball(95, 97, 10).collides(&r), Some(v(-1, 0)));
    assert_eq!(ball(97, 95, 10).collides(&r), Some(v(0, -1)));
    // 8 and 8 away from the corner: outside the radius
    assert_eq!(ball(92, 92, 10).collides(&r), None);
    // inside: nearest side wins
    assert_eq!(ball(103, 125, 10).collides(&r), Some(v(-1, 0)));
    assert_eq!(ball(150, 148, 10).collides(&r), Some(v(0, 1)));
    assert_eq!(ball(198, 125, 10).collides(&r), Some(v(1, 0)));
    assert_eq!(ball(150, 125, 10).collides(&r), Some(v(0, -1)));
}

#[test]
fn clamp_limits_value() {
    assert_eq!(clamp(-5, 0, 10), 0);
    assert_eq!(clamp(15, 0, 10), 10);
    assert_eq!(clamp(7, 0, 10), 7);
}

#[test]
fn last_hit_point_makes_shard_inert() {
    let mut s = Shard { rect: rect(100, 100, 200, 150), hp: 1, id: 0 };
    let mut b = Ball { pos: v(150, 95), radius: 10, speed: v(2, 4) };
    assert!(s.hit(&mut b));
    assert_eq!(s.hp, 0);
    assert_eq!(b.speed, v(2, -4));
    assert!(!s.hit(&mut b));
    assert_eq!(s.hp, 0);
    assert_eq!(b.speed, v(2, -4));
}

#[test]
fn shard_missed_keeps_hit_points() {
    let mut s = Shard { rect: rect(100, 100, 200, 150), hp: 3, id: 4 };
    let mut b = Ball { pos: v(150, 80), radius: 10, speed: v(2, 4) };
    assert!(!s.hit(&mut b));
    assert_eq!(s.hp, 3);
    assert_eq!(b.speed, v(2, 4));
}

#[test]
fn paddle_stays_on_field_for_any_delta() {
    let mut p = Pad { rect: rect(482, 758, 542, 768) };
    p.translate(i64::MAX, 1024);
    assert_eq!(p.rect, rect(964, 758, 1024, 768));
    p.translate(i64::MIN, 1024);
    assert_eq!(p.rect, rect(0, 758, 60, 768));
    p.translate(-1, 1024);
    assert_eq!(p.rect, rect(0, 758, 60, 768));
    p.translate(25, 1024);
    assert_eq!(p.rect, rect(25, 758, 85, 768));
}

#[test]
fn grid_lays_out_rows() {
    let shards = grid(3, 2, 10, 5, &vec![1, 2, 3, 4, 1, 2]).unwrap();
    assert_eq!(shards.len(), 6);
    assert_eq!(shards[0], Shard { rect: rect(0, 0, 10, 5), hp: 1, id: 0 });
    assert_eq!(shards[2], Shard { rect: rect(20, 0, 30, 5), hp: 3, id: 2 });
    assert_eq!(shards[4], Shard { rect: rect(10, 5, 20, 10), hp: 1, id: 4 });
    assert_eq!(grid(0, 0, 10, 5, &vec![]), Some(vec![]));
}

#[test]
fn grid_rejects_bad_setup() {
    assert_eq!(grid(3, 2, 10, 5, &vec![1, 2, 3]), None);
    assert_eq!(grid(2, 1, 10, 5, &vec![1, 0]), None);
    assert_eq!(grid(2, 1, 0, 5, &vec![1, 1]), None);
    assert_eq!(grid(2, 1, 10, -5, &vec![1, 1]), None);
    assert_eq!(grid(2, 1, 0x4000_0000, 5, &vec![1, 1]), None);
    assert_eq!(grid(0x4000_0001, 0, 1, 1, &vec![]), None);
}

fn sample_game(ball: Ball, shards: Vec<Shard>) -> Game {
    let pad = Pad { rect: rect(482, 758, 542, 768) };
    Game::new(1024, 768, pad, ball, shards).unwrap()
}

#[test]
fn new_rejects_bad_parts() {
    let pad = Pad { rect: rect(482, 758, 542, 768) };
    let b = Ball { pos: v(512, 400), radius: 10, speed: v(3, 3) };
    assert!(Game::new(0, 768, pad, b, vec![]).is_none());
    assert!(Game::new(1024, 768, Pad { rect: rect(1000, 758, 1060, 768) }, b, vec![]).is_none());
    assert!(Game::new(1024, 768, pad, Ball { radius: 0, ..b }, vec![]).is_none());
    let bad = Shard { rect: rect(10, 10, 5, 20), hp: 1, id: 0 };
    assert!(Game::new(1024, 768, pad, b, vec![bad]).is_none());
    assert!(Game::new(1024, 768, pad, b, vec![]).is_some());
}

#[test]
fn update_bounces_off_right_wall() {
    let mut g = sample_game(Ball { pos: v(1010, 400), radius: 10, speed: v(8, 3) }, vec![]);
    assert!(g.can_update());
    g.update(0);
    assert_eq!(g.ball.pos, v(1018, 403));
    assert_eq!(g.ball.speed, v(-8, 3));
}

#[test]
fn update_hits_paddle() {
    let pad = Pad { rect: rect(482, 758, 542, 768) };
    let b = Ball { pos: v(504, 763), radius: 10, speed: v(8, -5) };
    let mut g = Game::new(1024, 1000, pad, b, vec![]).unwrap();
    g.update(0);
    assert_eq!(g.ball.pos, v(512, 758));
    assert_eq!(g.ball.speed, v(8, 5));
}

#[test]
fn floor_bounce_comes_before_paddle_bounce() {
    let mut g = sample_game(Ball { pos: v(504, 763), radius: 10, speed: v(8, -5) }, vec![]);
    g.update(0);
    assert_eq!(g.ball.pos, v(512, 758));
    assert_eq!(g.ball.speed, v(8, -5));
}

#[test]
fn update_moves_paddle_and_damages_struck_shards_only() {
    let shards = vec![
        Shard { rect: rect(100, 100, 200, 150), hp: 2, id: 0 },
        Shard { rect: rect(300, 100, 400, 150), hp: 1, id: 1 },
        Shard { rect: rect(100, 145, 200, 160), hp: 0, id: 2 },
    ];
    let mut g = sample_game(Ball { pos: v(150, 163), radius: 10, speed: v(1, -5) }, shards);
    g.update(-100);
    assert_eq!(g.pad.rect, rect(382, 758, 442, 768));
    assert_eq!(g.ball.pos, v(151, 158));
    assert_eq!(g.shards[0].hp, 1);
    assert_eq!(g.shards[1].hp, 1);
    assert_eq!(g.shards[2].hp, 0);
    assert_eq!(g.ball.speed, v(1, 5));
}

#[test]
fn two_contacts_in_one_frame_reflect_twice() {
    let shards = vec![
        Shard { rect: rect(100, 100, 200, 150), hp: 2, id: 0 },
        Shard { rect: rect(100, 155, 200, 170), hp: 2, id: 1 },
    ];
    let mut g = sample_game(Ball { pos: v(150, 157), radius: 10, speed: v(1, -5) }, shards);
    g.update(0);
    assert_eq!(g.ball.pos, v(151, 152));
    assert_eq!(g.shards[0].hp, 1);
    assert_eq!(g.shards[1].hp, 1);
    assert_eq!(g.ball.speed, v(1, -5));
}

#[test]
fn update_refused_when_ball_would_leave_range() {
    let limit: i64 = 0x1000_0000_0000;
    let mut g = sample_game(Ball { pos: v(512, 400), radius: 10, speed: v(3, 3) }, vec![]);
    assert!(g.can_update());
    g.ball.pos = v(limit - 1, 400);
    assert!(!g.can_update());
    g.ball.pos = v(512, -limit + 2);
    assert!(g.can_update());
    g.ball.speed = v(3, -3);
    assert!(!g.can_update());
}
