use pong::collision::{apply_collision_response, check_intersects, update_collision, Ball, Paddle};
use pong::config::Config;
use pong::geometry::{isqrt, mul_div, rescaled, Point};
use pong::world::{GameState, Mode};

fn cfg() -> Config {
    Config {
        screen_width: 1280,
        screen_height: 720,
        paddle_width: 20,
        paddle_height: 100,
        ball_width: 16,
        ball_height: 16,
        padding: 32,
        paddle_speed: 14,
        ball_speed: 7,
        paddle_spin: 3,
        ball_acc: 1,
        ai_enabled: true,
        ai_wait_for_player_hit: true,
        ai_max_iters: 400,
        epsilon: 1,
    }
}

fn ball_with_point(x: i64, y: i64) -> Ball {
    let c = cfg();
    Ball { position: Point::new(x - c.ball_width, y - c.ball_height), velocity: Point::new(5, 0) }
}

#[test]
fn config_validity() {
    assert!(cfg().is_valid());
    let mut bad = cfg();
    bad.paddle_height = 0;
    assert!(!bad.is_valid());
    let mut neg = cfg();
    neg.ball_speed = -1;
    assert!(!neg.is_valid());
}

#[test]
fn intersects_bottom_right_corner_is_inclusive() {
    let paddle = Paddle { position: Point::new(10, 100) };
    assert!(check_intersects(&ball_with_point(30, 200), &paddle, &cfg()));
}

#[test]
fn intersects_edges_and_outside() {
    let c = cfg();
    let paddle = Paddle { position: Point::new(10, 100) };
    assert!(check_intersects(&ball_with_point(10, 100), &paddle, &c));
    assert!(check_intersects(&ball_with_point(20, 150), &paddle, &c));
    assert!(!check_intersects(&ball_with_point(31, 200), &paddle, &c));
    assert!(!check_intersects(&ball_with_point(30, 201), &paddle, &c));
    assert!(!check_intersects(&ball_with_point(9, 150), &paddle, &c));
    assert!(!check_intersects(&ball_with_point(20, 99), &paddle, &c));
}

#[test]
fn response_reflects_and_accelerates() {
    let c = cfg();
    let paddle = Paddle { position: Point::new(1228, 100) };
    let mut ball = Ball { position: Point::new(1220, 150), velocity: Point::new(7, 2) };
    apply_collision_response(&mut ball, &paddle, &c);
    assert_eq!(ball.velocity.x, -8);
    // spin: 3 * (150 - 100) / 100 = 1
    assert_eq!(ball.velocity.y, 3);
    assert_eq!(ball.position, Point::new(1220, 150));

    let mut back = Ball { position: Point::new(40, 50), velocity: Point::new(-8, 0) };
    apply_collision_response(&mut back, &paddle, &c);
    assert_eq!(back.velocity.x, 9);
    // 3 * (50 - 100) / 100 = -1.5, rounded toward zero
    assert_eq!(back.velocity.y, -1);
}

#[test]
fn response_on_resting_ball_moves_it_left() {
    let paddle = Paddle { position: Point::new(0, 0) };
    let mut ball = Ball { position: Point::new(0, 0), velocity: Point::new(0, 0) };
    apply_collision_response(&mut ball, &paddle, &cfg());
    assert_eq!(ball.velocity.x, -1);
}

#[test]
fn update_collision_only_on_contact() {
    let c = cfg();
    let paddle = Paddle { position: Point::new(10, 100) };
    let mut hit = ball_with_point(30, 200);
    update_collision(&mut hit, &paddle, &c);
    assert_eq!(hit.velocity.x, -6);
    let mut miss = ball_with_point(31, 200);
    update_collision(&mut miss, &paddle, &c);
    assert_eq!(miss.velocity.x, 5);
}

#[test]
fn integer_square_root() {
    assert_eq!(isqrt(0), 0);
    assert_eq!(isqrt(15), 3);
    assert_eq!(isqrt(16), 4);
    assert_eq!(isqrt(1_000_000_000_000), 1_000_000);
    assert_eq!(isqrt(1u128 << 114), 1u128 << 57);
}

#[test]
fn rescaling_keeps_direction() {
    assert_eq!(rescaled(Point::new(3, 4), 10), Point::new(6, 8));
    assert_eq!(rescaled(Point::new(-30, 40), 5), Point::new(-3, 4));
    assert_eq!(rescaled(Point::new(0, 0), 5), Point::new(0, 0));
    assert_eq!(rescaled(Point::new(1 << 20, 1 << 20), 7000), Point::new(4949, 4949));
    assert_eq!(rescaled(Point::new(-1, 1), 7), Point::new(-4, 4));
    assert_eq!(rescaled(Point::new(-8, 1), 7), Point::new(-6, 0));
    assert_eq!(rescaled(Point::new(1, 0), 7), Point::new(7, 0));
    assert_eq!(rescaled(Point::new(0, -3), 7), Point::new(0, -7));
    assert_eq!(rescaled(Point::new(1 << 56, -(1 << 56)), 1 << 20), Point::new(741455, -741455));
}

#[test]
fn multiply_then_divide_rounds_down() {
    assert_eq!(mul_div(0, 5, 3), 0);
    assert_eq!(mul_div(2, 5, 3), 3);
    assert_eq!(mul_div(3, 7, 3), 7);
    assert_eq!(mul_div(64 * 1, 49, 65), 48);
    let big: u128 = 1u128 << 113;
    assert_eq!(mul_div(big, 1u128 << 40, big), 1u128 << 40);
    assert_eq!(mul_div(big - 1, 1u128 << 40, big), (1u128 << 40) - 1);
}

#[test]
fn new_game_layout() {
    let c = cfg();
    let g = GameState::new(&c);
    assert_eq!(g.ball.position, Point::new(632, 352));
    assert_eq!(g.ball.velocity, Point::new(4, 4));
    assert_eq!(g.player_paddle.position, Point::new(1228, 310));
    assert_eq!(g.enemy_paddle.position, Point::new(32, 310));
    assert_eq!(g.player_score, 0);
    assert_eq!(g.enemy_score, 0);
    assert_eq!(g.mode, Mode::Live);
    assert!(g.is_in_range());
}

#[test]
fn reset_centers_and_keeps_velocity() {
    let mut ball = Ball { position: Point::new(3, 9), velocity: Point::new(-2, 5) };
    ball.reset(&cfg());
    assert_eq!(ball.position, Point::new(632, 352));
    assert_eq!(ball.velocity, Point::new(-2, 5));
}
