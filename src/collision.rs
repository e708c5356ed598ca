use vstd::prelude::*;
use crate::geometry::{Point, PointM, pt, abs, trunc_div};
use crate::config::Config;

verus! {

/// The ball: top-left position and velocity per tick.
#[derive(Clone, Copy, Debug, PartialEq, Eq, Structural)]
pub struct Ball {
    pub position: Point,
    pub velocity: Point,
}

pub struct BallM {
    pub position: PointM,
    pub velocity: PointM,
}

impl View for Ball {
    type V = BallM;

    open spec fn view(&self) -> BallM {
        BallM { position: self.position@, velocity: self.velocity@ }
    }
}

/// A paddle, given by its top-left corner; its size is in the configuration.
#[derive(Clone, Copy, Debug, PartialEq, Eq, Structural)]
pub struct Paddle {
    pub position: Point,
}

/// The point of the ball that is tested against paddles: its far corner.
pub open spec fn ball_point(b: BallM, cfg: Config) -> PointM {
    pt(b.position.x + cfg.ball_width, b.position.y + cfg.ball_height)
}

/// Projection of the vector from the paddle's corner to `m` on the paddle's width axis.
pub open spec fn width_projection(p: PointM, m: PointM, cfg: Config) -> int {
    cfg.paddle_width * (m.x - p.x)
}

/// Projection of the vector from the paddle's top-right corner to `m` on its height axis.
pub open spec fn height_projection(p: PointM, m: PointM, cfg: Config) -> int {
    cfg.paddle_height * (m.y - p.y)
}

/// The ball's point lies in the paddle's rectangle, edges included.
pub open spec fn intersects(b: BallM, p: PointM, cfg: Config) -> bool {
    let m = ball_point(b, cfg);
    &&& 0 <= width_projection(p, m, cfg) <= cfg.paddle_width * cfg.paddle_width
    &&& 0 <= height_projection(p, m, cfg) <= cfg.paddle_height * cfg.paddle_height
}

/// Horizontal velocity after a hit: reflected and grown by `ball_acc`.
pub open spec fn reflected_vx(vx: int, cfg: Config) -> int {
    if vx >= 0 { -(vx + cfg.ball_acc) } else { -(vx - cfg.ball_acc) }
}

/// Vertical velocity added by a hit, from the contact offset on the paddle.
pub open spec fn spin(b: BallM, p: PointM, cfg: Config) -> int {
    trunc_div(cfg.paddle_spin * (b.position.y - p.y), cfg.paddle_height as int)
}

pub open spec fn respond(b: BallM, p: PointM, cfg: Config) -> BallM {
    BallM {
        position: b.position,
        velocity: pt(reflected_vx(b.velocity.x, cfg), b.velocity.y + spin(b, p, cfg)),
    }
}

pub open spec fn collide(b: BallM, p: PointM, cfg: Config) -> BallM {
    if intersects(b, p, cfg) { respond(b, p, cfg) } else { b }
}

/// Bounds under which a collision step cannot overflow.
pub open spec fn collision_ok(b: BallM, p: PointM) -> bool {
    &&& abs(b.position.x) <= 0x1_0000_0000
    &&& abs(b.position.y) <= 0x1_0000_0000
    &&& abs(p.x) <= 0x1_0000_0000
    &&& abs(p.y) <= 0x1_0000_0000
    &&& abs(b.velocity.x) <= 0x100_0000_0000
    &&& abs(b.velocity.y) <= 0x80_0000_0000_0000
}

/// The point test is the same as a closed box test on the paddle's rectangle.
pub proof fn lemma_intersects_iff_in_box(b: BallM, p: PointM, cfg: Config)
    requires
        cfg.wf(),
    ensures
        intersects(b, p, cfg) <==> {
            let m = ball_point(b, cfg);
            &&& p.x <= m.x <= p.x + cfg.paddle_width
            &&& p.y <= m.y <= p.y + cfg.paddle_height
        },
{
    let m = ball_point(b, cfg);
    let w = cfg.paddle_width as int;
    let h = cfg.paddle_height as int;
    assert(0 <= w * (m.x - p.x) <==> 0 <= m.x - p.x) by (nonlinear_arith)
        requires w > 0;
    assert(w * (m.x - p.x) <= w * w <==> m.x - p.x <= w) by (nonlinear_arith)
        requires w > 0;
    assert(0 <= h * (m.y - p.y) <==> 0 <= m.y - p.y) by (nonlinear_arith)
        requires h > 0;
    assert(h * (m.y - p.y) <= h * h <==> m.y - p.y <= h) by (nonlinear_arith)
        requires h > 0;
}

/// Whether the ball's far corner lies on or inside the paddle's rectangle.
pub fn check_intersects(ball: &Ball, paddle: &Paddle, cfg: &Config) -> (r: bool)
    requires
        cfg.wf(),
        collision_ok(ball@, paddle.position@),
    ensures
        r == intersects(ball@, paddle.position@, *cfg),
{
    let mx = ball.position.x + cfg.ball_width;
    let my = ball.position.y + cfg.ball_height;
    let w = cfg.paddle_width;
    let h = cfg.paddle_height;
    let dx = mx - paddle.position.x;
    let dy = my - paddle.position.y;
    assert(-0x100_0000_0000_0000 <= w * dx <= 0x100_0000_0000_0000) by (nonlinear_arith)
        requires 0 < w <= 0x10_0000, -0x3_0000_0000 <= dx <= 0x3_0000_0000;
    assert(-0x100_0000_0000_0000 <= h * dy <= 0x100_0000_0000_0000) by (nonlinear_arith)
        requires 0 < h <= 0x10_0000, -0x3_0000_0000 <= dy <= 0x3_0000_0000;
    assert(w * w <= 0x100_0000_0000) by (nonlinear_arith)
        requires 0 < w <= 0x10_0000;
    assert(h * h <= 0x100_0000_0000) by (nonlinear_arith)
        requires 0 < h <= 0x10_0000;
    let ab_dot_am = w * dx;
    let bc_dot_bm = h * dy;
    0 <= ab_dot_am && ab_dot_am <= w * w && 0 <= bc_dot_bm && bc_dot_bm <= h * h
}

/// Reflects the ball off `paddle`: the horizontal velocity flips and grows by
/// `ball_acc`, the vertical one takes spin from where the ball met the paddle.
pub fn apply_collision_response(ball: &mut Ball, paddle: &Paddle, cfg: &Config)
    requires
        cfg.wf(),
        collision_ok(old(ball)@, paddle.position@),
    ensures
        final(ball)@ == respond(old(ball)@, paddle.position@, *cfg),
        old(ball).velocity.x != 0 ==> (final(ball).velocity.x > 0 <==> old(ball).velocity.x < 0),
        abs(final(ball).velocity.x as int) == abs(old(ball).velocity.x as int) + cfg.ball_acc,
        abs(final(ball).velocity.y - old(ball).velocity.y) <= 0x20_0000_0000_0000,
{
    let vx = ball.velocity.x;
    ball.velocity.x = if vx >= 0 { -(vx + cfg.ball_acc) } else { -(vx - cfg.ball_acc) };
    let d = ball.position.y - paddle.position.y;
    let s = cfg.paddle_spin;
    assert(-0x20_0000_0000_0000 <= s * d <= 0x20_0000_0000_0000) by (nonlinear_arith)
        requires 0 <= s <= 0x10_0000, -0x2_0000_0000 <= d <= 0x2_0000_0000;
    let n = s * d;
    let h = cfg.paddle_height;
    let q: i64 = if n >= 0 { n / h } else { -((-n) / h) };
    assert(abs(q as int) <= abs(n as int)) by {
        if n >= 0 {
            assert((n as int) / (h as int) <= n as int) by (nonlinear_arith)
                requires n >= 0, h > 0;
        } else {
            let m: int = -(n as int);
            assert(m / (h as int) <= m) by (nonlinear_arith)
                requires m >= 0, h > 0;
        }
    }
    ball.velocity.y = ball.velocity.y + q;
}

/// Applies the collision response when the ball meets `paddle`.
pub fn update_collision(ball: &mut Ball, paddle: &Paddle, cfg: &Config)
    requires
        cfg.wf(),
        collision_ok(old(ball)@, paddle.position@),
    ensures
        final(ball)@ == collide(old(ball)@, paddle.position@, *cfg),
        abs(final(ball).velocity.x as int) <= abs(old(ball).velocity.x as int) + cfg.ball_acc,
        abs(final(ball).velocity.y - old(ball).velocity.y) <= 0x20_0000_0000_0000,
{
    if check_intersects(ball, paddle, cfg) {
        apply_collision_response(ball, paddle, cfg);
    }
}

/// A hit reverses the horizontal direction and grows the horizontal speed
/// by exactly `ball_acc`.
pub proof fn lemma_hit_reflects(b: BallM, p: PointM, cfg: Config)
    requires
        cfg.wf(),
        intersects(b, p, cfg),
    ensures
        b.velocity.x > 0 ==> collide(b, p, cfg).velocity.x < 0,
        b.velocity.x < 0 ==> collide(b, p, cfg).velocity.x > 0,
        abs(collide(b, p, cfg).velocity.x) == abs(b.velocity.x) + cfg.ball_acc,
{
}

} // verus!
