use vstd::prelude::*;
use crate::geometry::{Point, PointM, pt, translate, abs, rescale, rescaled};
use crate::config::Config;
use crate::collision::{
    Ball, BallM, Paddle, collide, respond, update_collision, apply_collision_response,
};

verus! {

/// Bound on positions, velocities and scores of a state that may be advanced.
pub const LIMIT: i64 = 0x4000_0000;

/// Each component of the serve direction that a right-side crossing sets.
pub const DIAGONAL: i64 = 0x10_0000;

/// Whether a state is the real game or the controller's private forecast.
#[derive(Clone, Copy, Debug, PartialEq, Eq, Structural)]
pub enum Mode {
    Live,
    /// `enemy_hit` is set once the forecast ball reaches the far paddle.
    Simulated { enemy_hit: bool },
}

/// Keys held during one frame.
#[derive(Clone, Copy, Debug, PartialEq, Eq, Structural)]
pub struct Input {
    pub player_up: bool,
    pub player_down: bool,
    pub enemy_up: bool,
    pub enemy_down: bool,
}

/// The whole world: ball, the near (player) and far (enemy) paddles, scores, mode.
#[derive(Clone, Copy, Debug, PartialEq, Eq, Structural)]
pub struct GameState {
    pub ball: Ball,
    pub player_paddle: Paddle,
    pub player_score: u64,
    pub enemy_paddle: Paddle,
    pub enemy_score: u64,
    pub mode: Mode,
}

pub struct StateM {
    pub ball: BallM,
    pub player: PointM,
    pub enemy: PointM,
    pub player_score: int,
    pub enemy_score: int,
    pub mode: Mode,
}

impl View for GameState {
    type V = StateM;

    open spec fn view(&self) -> StateM {
        StateM {
            ball: self.ball@,
            player: self.player_paddle.position@,
            enemy: self.enemy_paddle.position@,
            player_score: self.player_score as int,
            enemy_score: self.enemy_score as int,
            mode: self.mode,
        }
    }
}

/// Every coordinate, velocity and score of `w` is at most `bound` in magnitude.
pub open spec fn within(w: StateM, bound: int) -> bool {
    &&& abs(w.ball.position.x) <= bound
    &&& abs(w.ball.position.y) <= bound
    &&& abs(w.ball.velocity.x) <= bound
    &&& abs(w.ball.velocity.y) <= bound
    &&& abs(w.player.x) <= bound
    &&& abs(w.player.y) <= bound
    &&& abs(w.enemy.x) <= bound
    &&& abs(w.enemy.y) <= bound
    &&& 0 <= w.player_score <= bound
    &&& 0 <= w.enemy_score <= bound
}

pub open spec fn in_range(w: StateM) -> bool {
    within(w, LIMIT as int)
}

pub open spec fn total_score(w: StateM) -> int {
    w.player_score + w.enemy_score
}

/// Where the ball is served from: the screen's center, adjusted for its size.
pub open spec fn center(cfg: Config) -> PointM {
    pt(cfg.screen_width / 2 - cfg.ball_width / 2, cfg.screen_height / 2 - cfg.ball_height / 2)
}

pub open spec fn diagonal() -> PointM {
    pt(DIAGONAL as int, DIAGONAL as int)
}

pub open spec fn integrate(b: BallM) -> BallM {
    BallM { position: translate(b.position, b.velocity), velocity: b.velocity }
}

pub open spec fn with_ball(w: StateM, b: BallM) -> StateM {
    StateM { ball: b, ..w }
}

/// The forecast's simplified test: the ball's center has reached the near paddle's x.
pub open spec fn passes_player(b: BallM, player: PointM, cfg: Config) -> bool {
    2 * b.position.x + cfg.ball_width >= 2 * player.x
}

/// The ball's leading edge has reached the far paddle's trailing edge.
pub open spec fn reaches_far_side(b: BallM, enemy: PointM, cfg: Config) -> bool {
    b.position.x <= enemy.x + cfg.paddle_width
}

/// The ball after one tick's movement and paddle collisions.
pub open spec fn ball_before_walls(cfg: Config, w: StateM) -> BallM {
    let moved = integrate(w.ball);
    match w.mode {
        Mode::Live => collide(collide(moved, w.player, cfg), w.enemy, cfg),
        Mode::Simulated { .. } => if passes_player(moved, w.player, cfg) {
            respond(moved, w.player, cfg)
        } else {
            moved
        },
    }
}

/// The forecast stops this tick, before walls and scoring.
pub open spec fn stops_early(cfg: Config, w: StateM) -> bool {
    &&& w.mode is Simulated
    &&& reaches_far_side(ball_before_walls(cfg, w), w.enemy, cfg)
}

pub open spec fn hits_top_or_bottom(b: BallM, cfg: Config) -> bool {
    b.position.y + cfg.ball_height >= cfg.screen_height || b.position.y <= 0
}

pub open spec fn hits_side(b: BallM, cfg: Config) -> bool {
    b.position.x + cfg.ball_width >= cfg.screen_width || b.position.x <= 0
}

/// Walls and scoring, on a state whose ball has moved and collided.
pub open spec fn walls(cfg: Config, w: StateM) -> StateM {
    let b = w.ball;
    let vy = if hits_top_or_bottom(b, cfg) { -b.velocity.y } else { b.velocity.y };
    if hits_side(b, cfg) {
        let left = b.position.x <= 0;
        let dir = if left { pt(b.velocity.x, vy) } else { diagonal() };
        StateM {
            ball: BallM { position: center(cfg), velocity: rescale(dir, cfg.ball_speed as int) },
            player_score: if left { w.player_score + 1 } else { w.player_score },
            enemy_score: if left { w.enemy_score } else { w.enemy_score + 1 },
            ..w
        }
    } else {
        with_ball(w, BallM { position: b.position, velocity: pt(b.velocity.x, vy) })
    }
}

/// One tick of the world.
pub open spec fn advance(cfg: Config, w: StateM) -> StateM {
    let b = ball_before_walls(cfg, w);
    if stops_early(cfg, w) {
        StateM { ball: b, mode: Mode::Simulated { enemy_hit: true }, ..w }
    } else {
        walls(cfg, with_ball(w, b))
    }
}

/// A forecast state whose ball has reached the far paddle.
pub open spec fn reached(w: StateM) -> bool {
    w.mode == (Mode::Simulated { enemy_hit: true })
}

/// The tick crosses a side wall (and so scores).
pub open spec fn side_crossing(cfg: Config, w: StateM) -> bool {
    !stops_early(cfg, w) && hits_side(ball_before_walls(cfg, w), cfg)
}

impl Ball {
    /// Puts the ball at the serve position; its velocity is kept.
    pub fn reset(&mut self, cfg: &Config)
        requires
            cfg.wf(),
        ensures
            final(self).position@ == center(*cfg),
            final(self).velocity == old(self).velocity,
    {
        self.position = Point::new(
            cfg.screen_width / 2 - cfg.ball_width / 2,
            cfg.screen_height / 2 - cfg.ball_height / 2,
        );
    }
}

/// Paddle heights after one frame's keys; the far paddle follows its keys
/// only while the controller is off.
pub open spec fn after_inputs(cfg: Config, w: StateM, input: Input) -> StateM {
    let speed = cfg.paddle_speed as int;
    let py = w.player.y - (if input.player_up { speed } else { 0 }) + (if input.player_down { speed } else { 0 });
    let manual = !cfg.ai_enabled;
    let ey = w.enemy.y - (if input.enemy_up && manual { speed } else { 0 })
        + (if input.enemy_down && manual { speed } else { 0 });
    StateM { player: pt(w.player.x, py), enemy: pt(w.enemy.x, ey), ..w }
}

/// Bounds under which walls and scoring cannot overflow.
pub open spec fn walls_ok(w: StateM) -> bool {
    &&& abs(w.ball.position.x) <= 0x1_0000_0000
    &&& abs(w.ball.position.y) <= 0x1_0000_0000
    &&& abs(w.ball.velocity.x) <= 0x100_0000_0000
    &&& abs(w.ball.velocity.y) <= 0x100_0000_0000_0000
    &&& 0 <= w.player_score <= 0x1_0000_0000
    &&& 0 <= w.enemy_score <= 0x1_0000_0000
}

impl GameState {
    /// The opening state: ball served diagonally from the center, paddles
    /// centered vertically, `padding` from their sides, scores zero.
    pub fn new(cfg: &Config) -> (r: GameState)
        requires
            cfg.wf(),
        ensures
            r.ball.position@ == center(*cfg),
            r.ball.velocity@ == rescale(diagonal(), cfg.ball_speed as int),
            r.player_paddle.position@ == pt(
                cfg.screen_width - cfg.padding - cfg.paddle_width,
                cfg.screen_height / 2 - cfg.paddle_height / 2,
            ),
            r.enemy_paddle.position@ == pt(
                cfg.padding as int,
                cfg.screen_height / 2 - cfg.paddle_height / 2,
            ),
            r.player_score == 0,
            r.enemy_score == 0,
            r.mode == Mode::Live,
            in_range(r@),
    {
        let mut ball = Ball { position: Point::new(0, 0), velocity: Point::new(DIAGONAL, DIAGONAL) };
        ball.reset(cfg);
        ball.velocity = rescaled(ball.velocity, cfg.ball_speed);
        let paddle_initial_y = cfg.screen_height / 2 - cfg.paddle_height / 2;
        GameState {
            ball,
            player_paddle: Paddle {
                position: Point::new(
                    cfg.screen_width - cfg.padding - cfg.paddle_width,
                    paddle_initial_y,
                ),
            },
            player_score: 0,
            enemy_paddle: Paddle { position: Point::new(cfg.padding, paddle_initial_y) },
            enemy_score: 0,
            mode: Mode::Live,
        }
    }

    /// Whether this state is a forecast whose ball has reached the far paddle.
    pub fn enemy_hit(&self) -> (r: bool)
        ensures
            r == reached(self@),
    {
        match self.mode {
            Mode::Simulated { enemy_hit } => enemy_hit,
            Mode::Live => false,
        }
    }

    /// Whether every coordinate, velocity and score is within `LIMIT`.
    pub fn is_in_range(&self) -> (r: bool)
        ensures
            r == in_range(self@),
    {
        let b = self.ball;
        -LIMIT <= b.position.x && b.position.x <= LIMIT
            && -LIMIT <= b.position.y && b.position.y <= LIMIT
            && -LIMIT <= b.velocity.x && b.velocity.x <= LIMIT
            && -LIMIT <= b.velocity.y && b.velocity.y <= LIMIT
            && -LIMIT <= self.player_paddle.position.x && self.player_paddle.position.x <= LIMIT
            && -LIMIT <= self.player_paddle.position.y && self.player_paddle.position.y <= LIMIT
            && -LIMIT <= self.enemy_paddle.position.x && self.enemy_paddle.position.x <= LIMIT
            && -LIMIT <= self.enemy_paddle.position.y && self.enemy_paddle.position.y <= LIMIT
            && self.player_score <= LIMIT as u64 && self.enemy_score <= LIMIT as u64
    }

    /// Moves the near paddle by the held keys; the far paddle too, unless the
    /// controller drives it.
    pub fn handle_inputs(&mut self, cfg: &Config, input: &Input)
        requires
            cfg.wf(),
            abs(old(self).player_paddle.position.y as int) <= 0x1_0000_0000,
            abs(old(self).enemy_paddle.position.y as int) <= 0x1_0000_0000,
        ensures
            final(self)@ == after_inputs(*cfg, old(self)@, *input),
    {
        if input.player_up {
            self.player_paddle.position.y = self.player_paddle.position.y - cfg.paddle_speed;
        }
        if input.player_down {
            self.player_paddle.position.y = self.player_paddle.position.y + cfg.paddle_speed;
        }
        if !cfg.ai_enabled {
            if input.enemy_up {
                self.enemy_paddle.position.y = self.enemy_paddle.position.y - cfg.paddle_speed;
            }
            if input.enemy_down {
                self.enemy_paddle.position.y = self.enemy_paddle.position.y + cfg.paddle_speed;
            }
        }
    }

    /// Reflects off the top and bottom walls; on a side wall, scores and
    /// serves again from the center at `ball_speed`.
    pub fn update_walls(&mut self, cfg: &Config)
        requires
            cfg.wf(),
            walls_ok(old(self)@),
        ensures
            final(self)@ == walls(*cfg, old(self)@),
    {
        let b = self.ball;
        if b.position.y + cfg.ball_height >= cfg.screen_height || b.position.y <= 0 {
            self.ball.velocity.y = -self.ball.velocity.y;
        }
        if b.position.x + cfg.ball_width >= cfg.screen_width || b.position.x <= 0 {
            if b.position.x <= 0 {
                self.player_score = self.player_score + 1;
            } else {
                self.enemy_score = self.enemy_score + 1;
                self.ball.velocity = Point::new(DIAGONAL, DIAGONAL);
            }
            self.ball.reset(cfg);
            self.ball.velocity = rescaled(self.ball.velocity, cfg.ball_speed);
        }
    }

    /// One tick: the ball moves by its velocity, collides with the paddles
    /// (a live state with both; a forecast with the near paddle only, by the
    /// simplified test, stopping once the far side is reached), then meets
    /// the walls.
    pub fn advance(&mut self, cfg: &Config)
        requires
            cfg.wf(),
            within(old(self)@, 2 * LIMIT),
        ensures
            final(self)@ == advance(*cfg, old(self)@),
    {
        self.ball.position = Point::new(
            self.ball.position.x + self.ball.velocity.x,
            self.ball.position.y + self.ball.velocity.y,
        );
        let player = self.player_paddle;
        let enemy = self.enemy_paddle;
        match self.mode {
            Mode::Live => {
                update_collision(&mut self.ball, &player, cfg);
                update_collision(&mut self.ball, &enemy, cfg);
            },
            Mode::Simulated { .. } => {
                if 2 * self.ball.position.x + cfg.ball_width >= 2 * player.position.x {
                    apply_collision_response(&mut self.ball, &player, cfg);
                }
                if self.ball.position.x <= enemy.position.x + cfg.paddle_width {
                    self.mode = Mode::Simulated { enemy_hit: true };
                    return;
                }
            },
        }
        self.update_walls(cfg);
    }
}

/// The direction that a side crossing in this tick serves the ball in.
pub open spec fn serve_direction(cfg: Config, w: StateM) -> PointM {
    let b = ball_before_walls(cfg, w);
    if b.position.x <= 0 {
        pt(b.velocity.x, if hits_top_or_bottom(b, cfg) { -b.velocity.y } else { b.velocity.y })
    } else {
        diagonal()
    }
}

/// The world after `n` ticks.
pub open spec fn run(cfg: Config, w: StateM, n: nat) -> StateM
    decreases n,
{
    if n == 0 { w } else { run(cfg, advance(cfg, w), (n - 1) as nat) }
}

/// The number of side crossings in the first `n` ticks.
pub open spec fn crossings(cfg: Config, w: StateM, n: nat) -> int
    decreases n,
{
    if n == 0 {
        0
    } else {
        (if side_crossing(cfg, w) { 1int } else { 0int }) + crossings(cfg, advance(cfg, w), (n - 1) as nat)
    }
}

/// After a side crossing the ball stands at the serve position and moves in
/// the serve direction (its own after the left wall, the diagonal after the
/// right one) scaled to `ball_speed`, each component rounded toward zero
/// with its sign kept: so its speed is at most `ball_speed`, and its
/// components rounded up by one reach past it.
pub proof fn lemma_side_crossing_serves(cfg: Config, w: StateM)
    requires
        cfg.wf(),
        side_crossing(cfg, w),
    ensures
        advance(cfg, w).ball.position == center(cfg),
        advance(cfg, w).ball.velocity == rescale(serve_direction(cfg, w), cfg.ball_speed as int),
        abs(advance(cfg, w).ball.velocity.x) <= cfg.ball_speed,
        abs(advance(cfg, w).ball.velocity.y) <= cfg.ball_speed,
        ({
            let d = serve_direction(cfg, w);
            let v = advance(cfg, w).ball.velocity;
            let sp2 = cfg.ball_speed * cfg.ball_speed;
            let s = d.x * d.x + d.y * d.y;
            d != pt(0, 0) ==> {
                &&& v.x * v.x * s <= d.x * d.x * sp2 < (abs(v.x) + 1) * (abs(v.x) + 1) * s
                &&& v.y * v.y * s <= d.y * d.y * sp2 < (abs(v.y) + 1) * (abs(v.y) + 1) * s
                &&& d.x >= 0 ==> v.x >= 0
                &&& d.x <= 0 ==> v.x <= 0
                &&& d.y >= 0 ==> v.y >= 0
                &&& d.y <= 0 ==> v.y <= 0
                &&& v.x * v.x + v.y * v.y <= sp2
                &&& (abs(v.x) + 1) * (abs(v.x) + 1) + (abs(v.y) + 1) * (abs(v.y) + 1) > sp2
            }
        }),
{
    let d = serve_direction(cfg, w);
    crate::geometry::lemma_rescale_bounded(d, cfg.ball_speed as int);
    if d != pt(0, 0) {
        assert(d.x * d.x + d.y * d.y > 0) by (nonlinear_arith)
            requires d.x != 0 || d.y != 0;
        crate::geometry::lemma_rescale_length(d, cfg.ball_speed as int);
    }
}

/// Each tick adds one to the total score when it crosses a side wall, and
/// nothing otherwise.
pub proof fn lemma_tick_score(cfg: Config, w: StateM)
    ensures
        total_score(advance(cfg, w)) == total_score(w) + if side_crossing(cfg, w) { 1int } else { 0int },
{
}

/// Over `n` ticks the total score grows by exactly the number of side
/// crossings, and so never decreases.
pub proof fn lemma_score_counts_crossings(cfg: Config, w: StateM, n: nat)
    ensures
        total_score(run(cfg, w, n)) == total_score(w) + crossings(cfg, w, n),
        0 <= crossings(cfg, w, n) <= n,
        total_score(w) <= total_score(run(cfg, w, n)),
    decreases n,
{
    if n > 0 {
        lemma_tick_score(cfg, w);
        lemma_score_counts_crossings(cfg, advance(cfg, w), (n - 1) as nat);
    }
}

} // verus!
