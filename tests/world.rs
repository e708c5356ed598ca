use pong::collision::Ball;
use pong::config::Config;
use pong::geometry::Point;
use pong::world::{GameState, Input, Mode};

fn cfg() -> Config {
    Config {
        screen_width: 1280,
        screen_height: 720,
        paddle_width: 20,
        paddle_height: 100,
        ball_width: 16,
        ball_height: 16,
        padding: 32,
        paddle_speed: 14,
        ball_speed: 7,
        paddle_spin: 3,
        ball_acc: 1,
        ai_enabled: true,
        ai_wait_for_player_hit: true,
        ai_max_iters: 400,
        epsilon: 1,
    }
}

fn game_with_ball(x: i64, y: i64, vx: i64, vy: i64) -> GameState {
    let mut g = GameState::new(&cfg());
    g.ball = Ball { position: Point::new(x, y), velocity: Point::new(vx, vy) };
    g
}

#[test]
fn step_once_moves_without_scoring() {
    let c = cfg();
    let mut g = game_with_ball(0, 360, 7, 0);
    g.enemy_paddle.position.y = -1000;
    g.advance(&c);
    assert_eq!(g.ball.position, Point::new(7, 360));
    assert_eq!(g.ball.velocity, Point::new(7, 0));
    assert_eq!(g.player_score, 0);
    assert_eq!(g.enemy_score, 0);
}

#[test]
fn returned_ball_scores_for_player_and_recenters() {
    let c = cfg();
    let mut g = game_with_ball(0, 360, 7, 0);
    g.enemy_paddle.position.y = -1000;
    g.advance(&c);
    let mut ticks: u32 = 0;
    while g.player_score == 0 && ticks < 2000 {
        g.advance(&c);
        ticks += 1;
    }
    assert_eq!(g.player_score, 1);
    assert_eq!(g.enemy_score, 0);
    assert_eq!(g.ball.position, Point::new(632, 352));
    // returned at (-8, 1), served again at speed 7 in that direction:
    // 8 * 7 / sqrt(65) = 6.9 and 1 * 7 / sqrt(65) = 0.9, rounded toward zero
    assert_eq!(g.ball.velocity, Point::new(-6, 0));
}

#[test]
fn right_wall_scores_for_enemy_and_serves_diagonally() {
    let c = cfg();
    let mut g = game_with_ball(1260, 100, 10, -3);
    g.player_paddle.position.y = 1000;
    g.advance(&c);
    assert_eq!(g.enemy_score, 1);
    assert_eq!(g.player_score, 0);
    assert_eq!(g.ball.position, Point::new(632, 352));
    assert_eq!(g.ball.velocity, Point::new(4, 4));
}

#[test]
fn top_wall_reflects_vertical_velocity() {
    let c = cfg();
    let mut g = game_with_ball(600, 3, 2, -5);
    g.advance(&c);
    assert_eq!(g.ball.position, Point::new(602, -2));
    assert_eq!(g.ball.velocity, Point::new(2, 5));
    let mut low = game_with_ball(600, 700, 2, 5);
    low.advance(&c);
    assert_eq!(low.ball.velocity, Point::new(2, -5));
}

#[test]
fn live_tick_hits_near_paddle() {
    let c = cfg();
    let mut g = game_with_ball(1211, 350, 7, 0);
    g.advance(&c);
    assert_eq!(g.ball.position, Point::new(1218, 350));
    // spin: 3 * (350 - 310) / 100 = 1
    assert_eq!(g.ball.velocity, Point::new(-8, 1));
}

#[test]
fn total_score_grows_by_one_per_crossing() {
    let c = cfg();
    let mut g = GameState::new(&c);
    g.player_paddle.position.y = 5000;
    g.enemy_paddle.position.y = 5000;
    let mut crossings: u64 = 0;
    let mut t: u32 = 0;
    while t < 3000 {
        let before = g.player_score + g.enemy_score;
        g.advance(&c);
        let after = g.player_score + g.enemy_score;
        assert!(after == before || after == before + 1);
        if after == before + 1 {
            crossings += 1;
            assert_eq!(g.ball.position, Point::new(632, 352));
        }
        t += 1;
    }
    assert!(crossings > 0);
    assert_eq!(g.player_score + g.enemy_score, crossings);
}

#[test]
fn simulated_tick_stops_at_far_side() {
    let c = cfg();
    let mut g = game_with_ball(60, 700, -10, 0);
    g.mode = Mode::Simulated { enemy_hit: false };
    g.advance(&c);
    assert_eq!(g.mode, Mode::Simulated { enemy_hit: true });
    assert!(g.enemy_hit());
    // walls were skipped: the vertical velocity is not reflected
    assert_eq!(g.ball.velocity, Point::new(-10, 0));
}

#[test]
fn simulated_tick_reflects_off_near_side_by_x_alone() {
    let c = cfg();
    let mut g = game_with_ball(1215, 20, 5, 0);
    g.player_paddle.position.y = 600;
    g.mode = Mode::Simulated { enemy_hit: false };
    g.advance(&c);
    assert_eq!(g.ball.velocity.x, -6);
    assert!(!g.enemy_hit());
}

#[test]
fn inputs_move_paddles() {
    let c = cfg();
    let mut g = GameState::new(&c);
    let keys = Input { player_up: true, player_down: false, enemy_up: true, enemy_down: false };
    g.handle_inputs(&c, &keys);
    assert_eq!(g.player_paddle.position.y, 296);
    // the controller drives the far paddle
    assert_eq!(g.enemy_paddle.position.y, 310);

    let mut manual = c;
    manual.ai_enabled = false;
    let both = Input { player_up: true, player_down: true, enemy_up: false, enemy_down: true };
    g.handle_inputs(&manual, &both);
    assert_eq!(g.player_paddle.position.y, 296);
    assert_eq!(g.enemy_paddle.position.y, 324);
}

#[test]
fn short_direction_is_served_at_base_speed() {
    let c = cfg();
    let mut g = game_with_ball(0, 360, -1, 1);
    g.enemy_paddle.position.y = -1000;
    g.advance(&c);
    assert_eq!(g.player_score, 1);
    assert_eq!(g.ball.position, Point::new(632, 352));
    // 7 / sqrt(2) = 4.95 in each component, rounded toward zero
    assert_eq!(g.ball.velocity, Point::new(-4, 4));
}
