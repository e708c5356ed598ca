use pong::collision::Ball;
use pong::config::Config;
use pong::controller::approach;
use pong::geometry::Point;
use pong::world::{GameState, Input, Mode};

fn cfg() -> Config {
    Config {
        screen_width: 1280,
        screen_height: 720,
        paddle_width: 20,
        paddle_height: 100,
        ball_width: 16,
        ball_height: 16,
        padding: 32,
        paddle_speed: 14,
        ball_speed: 7,
        paddle_spin: 3,
        ball_acc: 1,
        ai_enabled: true,
        ai_wait_for_player_hit: true,
        ai_max_iters: 400,
        epsilon: 1,
    }
}

fn returning_game() -> GameState {
    let mut g = GameState::new(&cfg());
    g.ball = Ball { position: Point::new(200, 300), velocity: Point::new(-10, 0) };
    g
}

#[test]
fn approach_is_rate_limited() {
    assert_eq!(approach(310, 258, 14, 1), 296);
    assert_eq!(approach(100, 200, 14, 1), 114);
    assert_eq!(approach(100, 105, 14, 1), 105);
    assert_eq!(approach(100, 101, 14, 1), 101);
    assert_eq!(approach(100, 99, 14, 1), 99);
    assert_eq!(approach(100, 100, 14, 1), 100);
    assert_eq!(approach(100, 90, 14, 20), 90);
}

#[test]
fn forecast_finds_far_side_before_the_bound() {
    let c = cfg();
    let g = returning_game();
    let f = g.forecast(&c);
    // 200 - 10 * 15 = 50 <= 32 + 20
    assert_eq!(f.steps, 15);
    assert_eq!(f.target, Some(300 + 8 - 50));
    // the real state is untouched
    assert_eq!(g.ball.position, Point::new(200, 300));
    assert_eq!(g.mode, Mode::Live);
}

#[test]
fn forecast_runs_out_of_rounds() {
    let mut c = cfg();
    c.ai_max_iters = 10;
    let f = returning_game().forecast(&c);
    assert_eq!(f.steps, 10);
    assert_eq!(f.target, None);
}

#[test]
fn forecast_reached_on_last_tick_has_target() {
    let mut c = cfg();
    c.ai_max_iters = 15;
    let f = returning_game().forecast(&c);
    assert_eq!(f.steps, 15);
    assert_eq!(f.target, Some(258));
    c.ai_max_iters = 14;
    let short = returning_game().forecast(&c);
    assert_eq!(short.steps, 14);
    assert_eq!(short.target, None);
}

#[test]
fn controller_moves_when_far_side_is_reached_on_last_tick() {
    let mut c = cfg();
    c.ai_max_iters = 15;
    let mut g = returning_game();
    g.update_ai(&c);
    assert_eq!(g.enemy_paddle.position.y, 296);
}

#[test]
fn controller_moves_far_paddle_one_step() {
    let c = cfg();
    let mut g = returning_game();
    g.update_ai(&c);
    assert_eq!(g.enemy_paddle.position.y, 296);
    assert_eq!(g.ball.position, Point::new(200, 300));
}

#[test]
fn controller_snaps_when_close() {
    let c = cfg();
    let mut g = returning_game();
    g.enemy_paddle.position.y = 259;
    g.update_ai(&c);
    assert_eq!(g.enemy_paddle.position.y, 258);
}

#[test]
fn controller_waits_for_return() {
    let c = cfg();
    let mut g = returning_game();
    g.ball.velocity = Point::new(10, 0);
    g.update_ai(&c);
    assert_eq!(g.enemy_paddle.position.y, 310);

    let mut eager = c;
    eager.ai_wait_for_player_hit = false;
    g.update_ai(&eager);
    assert_ne!(g.enemy_paddle.position.y, 310);
}

#[test]
fn controller_off_or_simulated_does_nothing() {
    let mut off = cfg();
    off.ai_enabled = false;
    let mut g = returning_game();
    g.update_ai(&off);
    assert_eq!(g.enemy_paddle.position.y, 310);

    let mut s = returning_game();
    s.mode = Mode::Simulated { enemy_hit: false };
    s.update_ai(&cfg());
    assert_eq!(s.enemy_paddle.position.y, 310);
}

#[test]
fn full_frame_runs_inputs_controller_and_tick() {
    let c = cfg();
    let mut g = returning_game();
    let keys = Input { player_up: false, player_down: true, enemy_up: false, enemy_down: false };
    g.update(&c, &keys);
    assert_eq!(g.player_paddle.position.y, 324);
    assert_eq!(g.enemy_paddle.position.y, 296);
    assert_eq!(g.ball.position, Point::new(190, 300));
}

#[test]
fn snapshot_is_a_separate_forecast_copy() {
    let g = returning_game();
    let mut s = g.snapshot();
    assert_eq!(s.mode, Mode::Simulated { enemy_hit: false });
    s.ball.position = Point::new(0, 0);
    assert_eq!(g.ball.position, Point::new(200, 300));
}

#[test]
fn total_score_over_frames_grows_by_one_per_crossing() {
    let c = cfg();
    let mut g = GameState::new(&c);
    g.player_paddle.position.y = 5000;
    let keys = Input { player_up: false, player_down: false, enemy_up: false, enemy_down: false };
    let mut crossings: u64 = 0;
    let mut t: u32 = 0;
    while t < 3000 {
        let before = g.player_score + g.enemy_score;
        g.update(&c, &keys);
        let after = g.player_score + g.enemy_score;
        assert!(after == before || after == before + 1);
        if after == before + 1 {
            crossings += 1;
            assert_eq!(g.ball.position, Point::new(632, 352));
        }
        t += 1;
    }
    assert!(crossings > 0);
    assert_eq!(g.player_score + g.enemy_score, crossings);
}
