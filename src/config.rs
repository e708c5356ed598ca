use vstd::prelude::*;

verus! {

/// Largest magnitude of a size, speed or tunable in a valid configuration.
pub const SIZE_LIMIT: i64 = 0x10_0000;

/// The tunables of the game: screen extent, entity sizes, speeds and the
/// policy of the predictive controller.
#[derive(Clone, Copy, Debug, PartialEq, Eq, Structural)]
pub struct Config {
    pub screen_width: i64,
    pub screen_height: i64,
    pub paddle_width: i64,
    pub paddle_height: i64,
    pub ball_width: i64,
    pub ball_height: i64,
    /// Distance of each paddle from its side of the screen: the far paddle's
    /// left edge from the left side, the near paddle's right edge from the right.
    pub padding: i64,
    /// Largest vertical move of a paddle in one tick.
    pub paddle_speed: i64,
    /// Speed of the ball after each serve.
    pub ball_speed: i64,
    /// Vertical velocity added per paddle height of contact offset.
    pub paddle_spin: i64,
    /// Growth of the horizontal speed on each paddle hit.
    pub ball_acc: i64,
    pub ai_enabled: bool,
    /// Plan only once the ball has been returned by the near paddle.
    pub ai_wait_for_player_hit: bool,
    /// Largest number of simulated ticks of one forecast.
    pub ai_max_iters: u32,
    /// Distance below which the controller snaps onto its target.
    pub epsilon: i64,
}

pub open spec fn size_ok(v: int) -> bool {
    0 < v <= SIZE_LIMIT
}

pub open spec fn tunable_ok(v: int) -> bool {
    0 <= v <= SIZE_LIMIT
}

impl Config {
    /// Sizes are positive, speeds and factors non-negative, all bounded.
    pub open spec fn wf(&self) -> bool {
        &&& size_ok(self.screen_width as int)
        &&& size_ok(self.screen_height as int)
        &&& size_ok(self.paddle_width as int)
        &&& size_ok(self.paddle_height as int)
        &&& size_ok(self.ball_width as int)
        &&& size_ok(self.ball_height as int)
        &&& tunable_ok(self.padding as int)
        &&& tunable_ok(self.paddle_speed as int)
        &&& tunable_ok(self.ball_speed as int)
        &&& tunable_ok(self.paddle_spin as int)
        &&& tunable_ok(self.ball_acc as int)
        &&& tunable_ok(self.epsilon as int)
    }

    pub fn is_valid(&self) -> (r: bool)
        ensures
            r == self.wf(),
    {
        0 < self.screen_width && self.screen_width <= SIZE_LIMIT
            && 0 < self.screen_height && self.screen_height <= SIZE_LIMIT
            && 0 < self.paddle_width && self.paddle_width <= SIZE_LIMIT
            && 0 < self.paddle_height && self.paddle_height <= SIZE_LIMIT
            && 0 < self.ball_width && self.ball_width <= SIZE_LIMIT
            && 0 < self.ball_height && self.ball_height <= SIZE_LIMIT
            && 0 <= self.padding && self.padding <= SIZE_LIMIT
            && 0 <= self.paddle_speed && self.paddle_speed <= SIZE_LIMIT
            && 0 <= self.ball_speed && self.ball_speed <= SIZE_LIMIT
            && 0 <= self.paddle_spin && self.paddle_spin <= SIZE_LIMIT
            && 0 <= self.ball_acc && self.ball_acc <= SIZE_LIMIT
            && 0 <= self.epsilon && self.epsilon <= SIZE_LIMIT
    }
}

} // verus!
