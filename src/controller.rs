use vstd::prelude::*;
use crate::geometry::{abs, pt};
use crate::config::{Config, SIZE_LIMIT};
use crate::world::{
    GameState, Input, Mode, StateM, LIMIT, advance, after_inputs, in_range, within, run,
    side_crossing, total_score, lemma_tick_score, center, lemma_side_crossing_serves, reached,
};

verus! {

/// The paddle height that centers the far paddle on the forecast ball.
pub open spec fn target_of(cfg: Config, sim: StateM) -> int {
    sim.ball.position.y + cfg.ball_height / 2 - cfg.paddle_height / 2
}

/// A private forecast copy of `w`, not yet at the far side.
pub open spec fn snapshot(w: StateM) -> StateM {
    StateM { mode: Mode::Simulated { enemy_hit: false }, ..w }
}

/// The target that a forecast from `sim` finds with `fuel` ticks left: a
/// state that has reached the far side yields its target, any other advances
/// one tick; no target when the ticks run out first or the state leaves the
/// range in which a tick is computed exactly.
pub open spec fn forecast_target(cfg: Config, sim: StateM, fuel: nat) -> Option<int>
    decreases fuel,
{
    if reached(sim) {
        Some(target_of(cfg, sim))
    } else if fuel == 0 || !in_range(sim) {
        None
    } else {
        forecast_target(cfg, advance(cfg, sim), (fuel - 1) as nat)
    }
}

/// The number of ticks that the same forecast simulates.
pub open spec fn forecast_steps(cfg: Config, sim: StateM, fuel: nat) -> nat
    decreases fuel,
{
    if reached(sim) || fuel == 0 || !in_range(sim) {
        0
    } else {
        1 + forecast_steps(cfg, advance(cfg, sim), (fuel - 1) as nat)
    }
}

pub open spec fn min(a: int, b: int) -> int {
    if a <= b { a } else { b }
}

/// One rate-limited move from `y` toward `target`: at most `max_step`, unless
/// within `eps`, where it lands on the target.
pub open spec fn approach_spec(y: int, target: int, max_step: int, eps: int) -> int {
    let delta = target - y;
    if abs(delta) > eps {
        if delta > 0 { y + min(delta, max_step) } else { y - min(-delta, max_step) }
    } else {
        target
    }
}

/// The controller's move of the far paddle in one frame.
pub open spec fn ai_step(cfg: Config, w: StateM) -> StateM {
    if w.mode != Mode::Live || !cfg.ai_enabled || (cfg.ai_wait_for_player_hit && w.ball.velocity.x >= 0) {
        w
    } else {
        match forecast_target(cfg, snapshot(w), cfg.ai_max_iters as nat) {
            Some(t) => StateM {
                enemy: pt(w.enemy.x, approach_spec(w.enemy.y, t, cfg.paddle_speed as int, cfg.epsilon as int)),
                ..w
            },
            None => w,
        }
    }
}

/// One frame of the game: keys, the controller's move, one tick.
pub open spec fn frame(cfg: Config, w: StateM, input: Input) -> StateM {
    advance(cfg, ai_step(cfg, after_inputs(cfg, w, input)))
}

/// The frame's tick crosses a side wall.
pub open spec fn frame_crossing(cfg: Config, w: StateM, input: Input) -> bool {
    side_crossing(cfg, ai_step(cfg, after_inputs(cfg, w, input)))
}

/// The world after one frame for each of `inputs`, in order.
pub open spec fn run_frames(cfg: Config, w: StateM, inputs: Seq<Input>) -> StateM
    decreases inputs.len(),
{
    if inputs.len() == 0 {
        w
    } else {
        run_frames(cfg, frame(cfg, w, inputs[0]), inputs.drop_first())
    }
}

/// The number of those frames whose tick crosses a side wall.
pub open spec fn frame_crossings(cfg: Config, w: StateM, inputs: Seq<Input>) -> int
    decreases inputs.len(),
{
    if inputs.len() == 0 {
        0
    } else {
        (if frame_crossing(cfg, w, inputs[0]) { 1int } else { 0int })
            + frame_crossings(cfg, frame(cfg, w, inputs[0]), inputs.drop_first())
    }
}

/// What a forecast found: the far paddle's target, if any, and how many ticks
/// it simulated.
#[derive(Clone, Copy, Debug, PartialEq, Eq, Structural)]
pub struct Forecast {
    pub target: Option<i64>,
    pub steps: u32,
}

pub open spec fn opt_int(o: Option<i64>) -> Option<int> {
    match o {
        Some(v) => Some(v as int),
        None => None,
    }
}

/// Moves `y` toward `target` by at most `max_step`, or onto it when the
/// distance is at most `eps`.
pub fn approach(y: i64, target: i64, max_step: i64, eps: i64) -> (r: i64)
    requires
        abs(y as int) <= 0x100_0000_0000,
        abs(target as int) <= 0x100_0000_0000,
        0 <= max_step <= SIZE_LIMIT,
        0 <= eps,
    ensures
        r == approach_spec(y as int, target as int, max_step as int, eps as int),
        abs(target - y) > eps ==> abs(r - y) == min(abs(target - y), max_step as int),
        abs(target - y) > eps && target > y ==> y < r <= target || max_step == 0,
        abs(target - y) > eps && target < y ==> target <= r < y || max_step == 0,
        abs(target - y) <= eps ==> r == target,
{
    let delta = target - y;
    if delta > eps || -delta > eps {
        if delta > 0 {
            let step = if delta <= max_step { delta } else { max_step };
            y + step
        } else {
            let step = if -delta <= max_step { -delta } else { max_step };
            y - step
        }
    } else {
        target
    }
}

impl GameState {
    /// A copy of this state in forecast mode; the copy shares nothing with it.
    pub fn snapshot(&self) -> (r: GameState)
        ensures
            r@ == snapshot(self@),
    {
        GameState {
            ball: self.ball,
            player_paddle: self.player_paddle,
            player_score: self.player_score,
            enemy_paddle: self.enemy_paddle,
            enemy_score: self.enemy_score,
            mode: Mode::Simulated { enemy_hit: false },
        }
    }

    /// Runs a forecast on a private copy of this state for at most
    /// `ai_max_iters` loop rounds and reports where the far paddle should go.
    pub fn forecast(&self, cfg: &Config) -> (r: Forecast)
        requires
            cfg.wf(),
        ensures
            opt_int(r.target) == forecast_target(*cfg, snapshot(self@), cfg.ai_max_iters as nat),
            r.steps == forecast_steps(*cfg, snapshot(self@), cfg.ai_max_iters as nat),
            r.steps <= cfg.ai_max_iters,
    {
        let mut sim = self.snapshot();
        let max = cfg.ai_max_iters;
        let mut i: u32 = 0;
        while i < max
            invariant
                cfg.wf(),
                max == cfg.ai_max_iters,
                i <= max,
                forecast_target(*cfg, snapshot(self@), max as nat)
                    == forecast_target(*cfg, sim@, (max - i) as nat),
                forecast_steps(*cfg, snapshot(self@), max as nat)
                    == i + forecast_steps(*cfg, sim@, (max - i) as nat),
                reached(sim@) ==> abs(sim.ball.position.y as int) <= 2 * LIMIT,
            decreases max - i,
        {
            if sim.enemy_hit() {
                let t = sim.ball.position.y + cfg.ball_height / 2 - cfg.paddle_height / 2;
                return Forecast { target: Some(t), steps: i };
            }
            if !sim.is_in_range() {
                return Forecast { target: None, steps: i };
            }
            sim.advance(cfg);
            i = i + 1;
        }
        if sim.enemy_hit() {
            let t = sim.ball.position.y + cfg.ball_height / 2 - cfg.paddle_height / 2;
            return Forecast { target: Some(t), steps: i };
        }
        Forecast { target: None, steps: i }
    }

    /// The controller's turn: unless it is off, the state is a forecast, or it
    /// waits for the near paddle's return, it forecasts the ball and moves the
    /// far paddle one rate-limited step toward the target found.
    pub fn update_ai(&mut self, cfg: &Config)
        requires
            cfg.wf(),
            within(old(self)@, 2 * LIMIT),
        ensures
            final(self)@ == ai_step(*cfg, old(self)@),
            abs(final(self).enemy_paddle.position.y - old(self).enemy_paddle.position.y) <= SIZE_LIMIT,
    {
        if self.mode != Mode::Live || !cfg.ai_enabled {
            return;
        }
        if cfg.ai_wait_for_player_hit && self.ball.velocity.x >= 0 {
            return;
        }
        let found = self.forecast(cfg);
        match found.target {
            Some(t) => {
                proof {
                    lemma_target_bounded(*cfg, snapshot(self@), cfg.ai_max_iters as nat);
                }
                self.enemy_paddle.position.y = approach(
                    self.enemy_paddle.position.y,
                    t,
                    cfg.paddle_speed,
                    cfg.epsilon,
                );
            },
            None => {},
        }
    }

    /// The controller's turn, then one tick of the world.
    pub fn update_ball(&mut self, cfg: &Config)
        requires
            cfg.wf(),
            within(old(self)@, LIMIT + SIZE_LIMIT),
        ensures
            final(self)@ == advance(*cfg, ai_step(*cfg, old(self)@)),
    {
        self.update_ai(cfg);
        self.advance(cfg);
    }

    /// One frame: keys, then the controller, then one tick.
    pub fn update(&mut self, cfg: &Config, input: &Input)
        requires
            cfg.wf(),
            in_range(old(self)@),
        ensures
            final(self)@ == frame(*cfg, old(self)@, *input),
    {
        self.handle_inputs(cfg, input);
        self.update_ball(cfg);
    }
}

/// A target found by a forecast lies close to the range of a valid state.
proof fn lemma_target_bounded(cfg: Config, sim: StateM, fuel: nat)
    requires
        cfg.wf(),
        !reached(sim) || abs(sim.ball.position.y) <= 2 * LIMIT,
    ensures
        forecast_target(cfg, sim, fuel) matches Some(t) ==> abs(t) <= 2 * LIMIT + SIZE_LIMIT,
    decreases fuel,
{
    if !reached(sim) && fuel > 0 && in_range(sim) {
        lemma_target_bounded(cfg, advance(cfg, sim), (fuel - 1) as nat);
    }
}

/// A forecast whose ball reaches the far side after `k` ticks, with `k`
/// within the bound and every earlier state in range, stops there: it
/// simulates `k` ticks and yields that tick's target.
pub proof fn lemma_forecast_stops_at_far_side(cfg: Config, sim: StateM, fuel: nat, k: nat)
    requires
        k <= fuel,
        reached(run(cfg, sim, k)),
        forall|j: nat| j < k ==> !reached(#[trigger] run(cfg, sim, j)) && in_range(run(cfg, sim, j)),
    ensures
        forecast_target(cfg, sim, fuel) == Some(target_of(cfg, run(cfg, sim, k))),
        forecast_steps(cfg, sim, fuel) == k,
    decreases k,
{
    if k > 0 {
        assert(!reached(run(cfg, sim, 0)) && in_range(run(cfg, sim, 0)));
        let next = advance(cfg, sim);
        assert forall|j: nat| j < (k - 1) as nat implies !reached(#[trigger] run(cfg, next, j))
            && in_range(run(cfg, next, j)) by {
            assert(run(cfg, sim, j + 1) == run(cfg, next, j));
            assert(!reached(run(cfg, sim, j + 1)) && in_range(run(cfg, sim, j + 1)));
        }
        assert(run(cfg, sim, k) == run(cfg, next, (k - 1) as nat));
        lemma_forecast_stops_at_far_side(cfg, next, (fuel - 1) as nat, (k - 1) as nat);
    }
}

/// A forecast whose ball does not reach the far side within the bound
/// yields no target; with every state in range it simulates exactly as many
/// ticks as the bound allows.
pub proof fn lemma_forecast_exhausts(cfg: Config, sim: StateM, fuel: nat)
    requires
        forall|j: nat| j <= fuel ==> !reached(#[trigger] run(cfg, sim, j)),
    ensures
        forecast_target(cfg, sim, fuel) == None::<int>,
        (forall|j: nat| j < fuel ==> in_range(#[trigger] run(cfg, sim, j)))
            ==> forecast_steps(cfg, sim, fuel) == fuel,
    decreases fuel,
{
    if fuel > 0 {
        assert(!reached(run(cfg, sim, 0)));
        let next = advance(cfg, sim);
        assert forall|j: nat| j <= (fuel - 1) as nat implies !reached(#[trigger] run(cfg, next, j)) by {
            assert(run(cfg, sim, j + 1) == run(cfg, next, j));
            assert(!reached(run(cfg, sim, j + 1)));
        }
        lemma_forecast_exhausts(cfg, next, (fuel - 1) as nat);
        if forall|j: nat| j < fuel ==> in_range(#[trigger] run(cfg, sim, j)) {
            assert(in_range(run(cfg, sim, 0)));
            assert forall|j: nat| j < (fuel - 1) as nat implies in_range(#[trigger] run(cfg, next, j)) by {
                assert(run(cfg, sim, j + 1) == run(cfg, next, j));
                assert(in_range(run(cfg, sim, j + 1)));
            }
        }
    }
}

/// In one frame the controller moves the far paddle by at most
/// `paddle_speed`, unless it lands on a target within `epsilon`.
pub proof fn lemma_ai_rate_limited(cfg: Config, w: StateM)
    requires
        cfg.wf(),
    ensures
        ai_step(cfg, w).enemy.x == w.enemy.x,
        abs(ai_step(cfg, w).enemy.y - w.enemy.y) <= cfg.paddle_speed || ({
            let t = forecast_target(cfg, snapshot(w), cfg.ai_max_iters as nat);
            &&& t is Some
            &&& ai_step(cfg, w).enemy.y == t->0
            &&& abs(t->0 - w.enemy.y) <= cfg.epsilon
        }),
{
}

/// A frame adds one to the total score when its tick crosses a side wall,
/// and nothing otherwise.
pub proof fn lemma_frame_score(cfg: Config, w: StateM, input: Input)
    ensures
        total_score(frame(cfg, w, input))
            == total_score(w) + if frame_crossing(cfg, w, input) { 1int } else { 0int },
{
    lemma_tick_score(cfg, ai_step(cfg, after_inputs(cfg, w, input)));
}

/// Over any sequence of frames the total score grows by exactly the number
/// of frames whose tick crosses a side wall, and so never decreases.
pub proof fn lemma_frames_score(cfg: Config, w: StateM, inputs: Seq<Input>)
    ensures
        total_score(run_frames(cfg, w, inputs)) == total_score(w) + frame_crossings(cfg, w, inputs),
        0 <= frame_crossings(cfg, w, inputs) <= inputs.len(),
        total_score(w) <= total_score(run_frames(cfg, w, inputs)),
    decreases inputs.len(),
{
    if inputs.len() > 0 {
        lemma_frame_score(cfg, w, inputs[0]);
        lemma_frames_score(cfg, frame(cfg, w, inputs[0]), inputs.drop_first());
    }
}

/// A frame whose tick crosses a side wall leaves the ball at the serve
/// position with each velocity component at most `ball_speed`; unless the
/// ball was served from rest, its speed is at most `ball_speed` and its
/// components rounded up by one reach past it.
pub proof fn lemma_frame_crossing_serves(cfg: Config, w: StateM, input: Input)
    requires
        cfg.wf(),
        frame_crossing(cfg, w, input),
    ensures
        frame(cfg, w, input).ball.position == center(cfg),
        abs(frame(cfg, w, input).ball.velocity.x) <= cfg.ball_speed,
        abs(frame(cfg, w, input).ball.velocity.y) <= cfg.ball_speed,
        crate::world::serve_direction(cfg, ai_step(cfg, after_inputs(cfg, w, input))) != pt(0, 0)
            ==> ({
            let v = frame(cfg, w, input).ball.velocity;
            &&& v.x * v.x + v.y * v.y <= cfg.ball_speed * cfg.ball_speed
            &&& (abs(v.x) + 1) * (abs(v.x) + 1) + (abs(v.y) + 1) * (abs(v.y) + 1)
                > cfg.ball_speed * cfg.ball_speed
        }),
{
    lemma_side_crossing_serves(cfg, ai_step(cfg, after_inputs(cfg, w, input)));
}

} // verus!
