//! The per-tick motion-and-collision engine.
//!
//! One tick integrates the ball's position, resolves at most one brick
//! collision, clamps against the walls, handles a bottom exit (life loss
//! and respawn), bounces off the bar, and finally jitters the velocity a
//! little after any collision.  The random draws a tick may consume are
//! injected through [`TickRandom`], so every outcome is a mathematical
//! function of the previous state and the draws; [`Game::tick`] supplies
//! real draws from the random number generator.

use crate::entities::Ball;
use crate::entities::Bar;
use crate::entities::Brick;
use crate::entities::Direction;
use crate::entities::GameState;
use crate::entities::WinDimensions;
use crate::entities::BAR_SPEED;
use crate::entities::BAR_WIDTH;
use crate::entities::BRICK_HEIGHT;
use crate::entities::BRICK_WIDTH;
use crate::entities::POINTS;
use crate::entities::ROW_COUNT;
use crate::fixed::abs_i;
use crate::fixed::div_to_zero;
use crate::fixed::lemma_band_bounds;
use crate::fixed::lemma_jitter_mag;
use crate::fixed::lemma_mag_after_add;
use crate::fixed::lemma_mag_flip;
use crate::fixed::lemma_norm_band;
use crate::fixed::lemma_sin_milli_bounds;
use crate::fixed::mag_sq;
use crate::fixed::mul_div_to_zero;
use crate::fixed::norm_x;
use crate::fixed::norm_y;
use crate::fixed::sin_milli;
use crate::fixed::sin_milli_fp;
use crate::fixed::vel_band;
use crate::fixed::VEL_SCALE;
use crate::geometry::rects_overlap;
use crate::geometry::Rect;
use crate::random::random_coin;
use crate::random::random_in_range;
use vstd::arithmetic::div_mod::lemma_div_is_ordered;
use vstd::arithmetic::div_mod::lemma_fundamental_div_mod_converse;
use vstd::pervasive::VecAdditionalExecFns;
use vstd::prelude::*;

verus! {

/// The random draws one tick may consume, injected so that collision
/// outcomes are reproducible under test.
#[derive(Clone, Copy, PartialEq, Eq, Structural, Debug)]
pub struct TickRandom {
    /// Perturbation of the non-collision axis after a brick bounce,
    /// in milli-units.
    pub brick_perturb: i32,
    /// The horizontal direction the first boundary bounce picks.
    pub first_dir_right: bool,
    /// Jitter added to the horizontal velocity after any collision.
    pub jitter_x: i32,
    /// Jitter added to the vertical velocity after any collision.
    pub jitter_y: i32,
    /// Horizontal offset of a respawned ball above the bar.
    pub spawn_offset: i32,
}

impl TickRandom {
    /// The ranges the real generator draws from.
    pub open spec fn valid(self) -> bool {
        &&& -100 <= self.brick_perturb <= 90
        &&& -50 <= self.jitter_x <= 40
        &&& -50 <= self.jitter_y <= 40
        &&& 0 <= self.spawn_offset < 100
    }
}

/// How far one tick moves a coordinate: the velocity component times the
/// ball speed, scaled down from milli-units, rounding toward zero.
pub open spec fn step_len(v: int) -> int {
    div_to_zero(v * 7, 1000)  // ball speed over the milli-unit scale
}

/// Phase one: the ball with its position advanced by its velocity.
pub open spec fn ball_moved(b: Ball) -> Ball {
    Ball {
        rect: Rect {
            x: (b.rect.x + step_len(b.velocity_x as int)) as i32,
            y: (b.rect.y + step_len(b.velocity_y as int)) as i32,
            ..b.rect
        },
        ..b
    }
}

/// A live brick the ball currently overlaps.
pub open spec fn brick_hit(k: Brick, ball: Rect) -> bool {
    !k.destroyed && rects_overlap(ball, k.rect)
}

/// The index of the first live brick overlapping the ball, searching from
/// position `i` on; `-1` when there is none.  The brick pass resolves
/// exactly the first such brick.
pub open spec fn first_hit_from(bricks: Seq<Brick>, ball: Rect, i: int) -> int
    decreases bricks.len() - i,
{
    if i < 0 || i >= bricks.len() {
        -1
    } else if brick_hit(bricks[i], ball) {
        i
    } else {
        first_hit_from(bricks, ball, i + 1)
    }
}

/// What `first_hit_from` finds: the first hit at or past `i`, if any.
pub proof fn lemma_first_hit(bricks: Seq<Brick>, ball: Rect, i: int)
    requires
        0 <= i,
    ensures
        first_hit_from(bricks, ball, i) == -1 ==> (forall|j: int|
            i <= j < bricks.len() ==> !brick_hit(bricks[j], ball)),
        first_hit_from(bricks, ball, i) >= 0 ==> {
            let h = first_hit_from(bricks, ball, i);
            &&& i <= h < bricks.len()
            &&& brick_hit(bricks[h], ball)
            &&& forall|j: int| i <= j < h ==> !brick_hit(bricks[j], ball)
        },
    decreases bricks.len() - i,
{
    if i < bricks.len() && !brick_hit(bricks[i], ball) {
        lemma_first_hit(bricks, ball, i + 1);
    }
}

/// Phase two's velocity change: off brick `k`, the axis with the smaller
/// penetration is inverted, the other axis perturbed, and the result
/// re-normalized.  A tie in penetration goes to the vertical bounce.
pub open spec fn brick_bounce(b: Ball, k: Brick, perturb: int) -> (int, int) {
    let dx: int = (b.rect.x + b.rect.width / 2) - (k.rect.x + k.rect.width / 2);
    let dy: int = (b.rect.y + b.rect.height / 2) - (k.rect.y + k.rect.height / 2);
    let wx: int = b.rect.width / 2 + k.rect.width / 2 - abs_i(dx);
    let wy: int = b.rect.height / 2 + k.rect.height / 2 - abs_i(dy);
    let vx: int = b.velocity_x as int;
    let vy: int = b.velocity_y as int;
    if wx < wy {
        (norm_x(-vx, vy + perturb), norm_y(-vx, vy + perturb))
    } else {
        (norm_x(vx + perturb, -vy), norm_y(vx + perturb, -vy))
    }
}

/// The very first boundary contact ends the ball's first flight: the
/// horizontal direction is freshly randomized to a full unit and the flag
/// clears.  A ball past its first flight is left unchanged.
pub open spec fn end_first_flight(b: Ball, dir_right: bool) -> Ball {
    if b.first_bounce {
        Ball {
            velocity_x: if dir_right {
                VEL_SCALE
            } else {
                (-VEL_SCALE) as i32
            },
            first_bounce: false,
            ..b
        }
    } else {
        b
    }
}

/// Phase three, horizontal: clamp to the side walls and reflect the
/// horizontal velocity away from the wall; a first boundary contact ends
/// the first flight.  True when a wall was touched.
pub open spec fn wall_clamp_x(b: Ball, w: int, dir_right: bool) -> (Ball, bool) {
    if b.rect.x <= 0 {
        (
            end_first_flight(
                Ball {
                    rect: Rect { x: 0, ..b.rect },
                    velocity_x: abs_i(b.velocity_x as int) as i32,
                    ..b
                },
                dir_right,
            ),
            true,
        )
    } else if b.rect.x + b.rect.width >= w {
        (
            end_first_flight(
                Ball {
                    rect: Rect { x: (w - b.rect.width) as i32, ..b.rect },
                    velocity_x: (-abs_i(b.velocity_x as int)) as i32,
                    ..b
                },
                dir_right,
            ),
            true,
        )
    } else {
        (b, false)
    }
}

/// Phase three, ceiling: clamp to the top edge and reflect downward; a
/// first boundary contact here ends the first flight just as at the side
/// walls.  True when the ceiling was touched.
pub open spec fn wall_clamp_top(b: Ball, dir_right: bool) -> (Ball, bool) {
    if b.rect.y <= 0 {
        (
            end_first_flight(
                Ball {
                    rect: Rect { y: 0, ..b.rect },
                    velocity_y: abs_i(b.velocity_y as int) as i32,
                    ..b
                },
                dir_right,
            ),
            true,
        )
    } else {
        (b, false)
    }
}

/// Phase four's trigger: the ball's bottom edge reaches the field's
/// bottom (and it is not pinned to the ceiling).
pub open spec fn bottom_exit(b: Ball, h: int) -> bool {
    b.rect.y > 0 && b.rect.y + b.rect.height >= h
}

/// Phase five's trigger: ball moving downward, its bottom now at or below
/// the bar's top having been above it on the previous frame, with
/// horizontal overlap of the bar's span.
pub open spec fn paddle_hit(b: Ball, prev_y: int, bar: Bar) -> bool {
    &&& b.velocity_y > 0
    &&& b.rect.y + b.rect.height >= bar.rect.y
    &&& prev_y + b.rect.height <= bar.rect.y
    &&& b.rect.x + b.rect.width >= bar.rect.x
    &&& b.rect.x <= bar.rect.x + bar.rect.width
}

/// Where on the bar the ball landed, in thousandths of the bar's width,
/// clamped to `[0, 1000]`.
pub open spec fn paddle_hit_pos(b: Ball, bar: Bar) -> int {
    let raw: int = div_to_zero(
        (b.rect.x + b.rect.width / 2 - bar.rect.x) * 1000,
        bar.rect.width as int,
    );
    if raw < 0 {
        0
    } else if raw > 1000 {
        1000
    } else {
        raw
    }
}

/// The bounce angle in milliradians: sixty degrees to either side across
/// the bar's width (2094 milliradians are pi over one and a half).
pub open spec fn paddle_angle(pos: int) -> int {
    div_to_zero((pos - 500) * 2094, 1000)
}

/// The velocity leaving the bar: horizontal from the bounce angle's sine
/// plus a fraction of the bar's own motion, a fixed upward component of
/// eight tenths, re-normalized.
pub open spec fn paddle_bounce_vel(b: Ball, bar: Bar) -> (int, int) {
    let angled: int = sin_milli(paddle_angle(paddle_hit_pos(b, bar)));
    let vx: int = if bar.velocity_x != 0 {
        angled + div_to_zero(bar.velocity_x * 150, 1000)
    } else {
        angled
    };
    (norm_x(vx, -800), norm_y(vx, -800))
}

/// Phase five: the ball after a bar bounce, snapped on top of the bar so
/// it cannot sink in, its first flight over.
pub open spec fn paddle_bounce(b: Ball, bar: Bar) -> Ball {
    let v = paddle_bounce_vel(b, bar);
    Ball {
        rect: Rect { y: (bar.rect.y - b.rect.height) as i32, ..b.rect },
        velocity_x: v.0 as i32,
        velocity_y: v.1 as i32,
        first_bounce: false,
    }
}

/// Phase six: the post-collision jitter, re-normalized.
pub open spec fn jitter_vel(b: Ball, jx: int, jy: int) -> Ball {
    let vx: int = b.velocity_x + jx;
    let vy: int = b.velocity_y + jy;
    Ball { velocity_x: norm_x(vx, vy) as i32, velocity_y: norm_y(vx, vy) as i32, ..b }
}

/// Every brick is gone (vacuously true of an empty collection).
pub open spec fn all_destroyed(bricks: Seq<Brick>) -> bool {
    forall|j: int| 0 <= j < bricks.len() ==> bricks[j].destroyed
}

/// How many bricks are destroyed.
pub open spec fn count_destroyed(bricks: Seq<Brick>) -> int
    decreases bricks.len(),
{
    if bricks.len() == 0 {
        0
    } else {
        count_destroyed(bricks.drop_last()) + if bricks.last().destroyed {
            1int
        } else {
            0int
        }
    }
}

pub proof fn lemma_count_destroyed_le_len(bricks: Seq<Brick>)
    ensures
        0 <= count_destroyed(bricks) <= bricks.len(),
    decreases bricks.len(),
{
    if bricks.len() > 0 {
        lemma_count_destroyed_le_len(bricks.drop_last());
    }
}

/// Destroying one live brick raises the destroyed count by exactly one.
pub proof fn lemma_count_destroyed_update(bricks: Seq<Brick>, i: int)
    requires
        0 <= i < bricks.len(),
        !bricks[i].destroyed,
    ensures
        count_destroyed(bricks.update(i, Brick { destroyed: true, ..bricks[i] }))
            == count_destroyed(bricks) + 1,
    decreases bricks.len(),
{
    let b2 = bricks.update(i, Brick { destroyed: true, ..bricks[i] });
    if i == bricks.len() - 1 {
        assert(b2.drop_last() =~= bricks.drop_last());
    } else {
        assert(b2.drop_last() =~= bricks.drop_last().update(
            i,
            Brick { destroyed: true, ..bricks[i] },
        ));
        assert(bricks.drop_last()[i] == bricks[i]);
        lemma_count_destroyed_update(bricks.drop_last(), i);
        assert(b2.last() == bricks.last());
    }
}

/// A collection of untouched bricks has a destroyed count of zero.
pub proof fn lemma_count_destroyed_none(bricks: Seq<Brick>)
    requires
        forall|j: int| 0 <= j < bricks.len() ==> !bricks[j].destroyed,
    ensures
        count_destroyed(bricks) == 0,
    decreases bricks.len(),
{
    if bricks.len() > 0 {
        assert(forall|j: int|
            0 <= j < bricks.drop_last().len() ==> bricks.drop_last()[j] == bricks[j]);
        lemma_count_destroyed_none(bricks.drop_last());
    }
}

pub proof fn lemma_count_destroyed_append(s: Seq<Brick>, t: Seq<Brick>)
    ensures
        count_destroyed(s + t) == count_destroyed(s) + count_destroyed(t),
    decreases t.len(),
{
    if t.len() == 0 {
        assert(s + t =~= s);
    } else {
        lemma_count_destroyed_append(s, t.drop_last());
        assert((s + t).drop_last() =~= s + t.drop_last());
        assert((s + t).last() == t.last());
    }
}

/// The ball's rectangle lies inside the field.
pub open spec fn ball_in_field(b: Ball, dims: WinDimensions) -> bool {
    &&& 0 <= b.rect.x
    &&& b.rect.x + b.rect.width <= dims.width
    &&& 0 <= b.rect.y
    &&& b.rect.y + b.rect.height <= dims.height
}

/// One whole tick as a function of the previous state and the random
/// draws: the new ball, the new bricks, and the new score, lives and
/// terminal flag, in the engine's fixed phase order.
pub open spec fn tick_spec(
    ball0: Ball,
    bar: Bar,
    bricks0: Seq<Brick>,
    dims: WinDimensions,
    st0: GameState,
    rnd: TickRandom,
) -> (Ball, Seq<Brick>, GameState) {
    let prev_y: int = ball0.rect.y as int;
    let b1 = ball_moved(ball0);
    let hit: int = first_hit_from(bricks0, b1.rect, 0);
    let bricks1 = if hit >= 0 {
        bricks0.update(hit, Brick { destroyed: true, ..bricks0[hit] })
    } else {
        bricks0
    };
    let b2 = if hit >= 0 {
        let v = brick_bounce(b1, bricks0[hit], rnd.brick_perturb as int);
        Ball { velocity_x: v.0 as i32, velocity_y: v.1 as i32, ..b1 }
    } else {
        b1
    };
    let st1 = GameState {
        score: if hit >= 0 {
            (st0.score + POINTS) as u32
        } else {
            st0.score
        },
        ..st0
    };
    let st2 = GameState { game_over: st1.game_over || all_destroyed(bricks1), ..st1 };
    let cx = wall_clamp_x(b2, dims.width as int, rnd.first_dir_right);
    let b3 = cx.0;
    let ct = wall_clamp_top(b3, rnd.first_dir_right);
    let b4 = ct.0;
    if bottom_exit(b3, dims.height as int) {
        let lives2: u8 = (st2.lives - 1) as u8;
        let st3 = GameState { lives: lives2, game_over: st2.game_over || lives2 == 0, ..st2 };
        let b5 = if lives2 == 0 {
            b4
        } else {
            Ball::spawned(bar, rnd.spawn_offset as int)
        };
        (b5, bricks1, st3)
    } else {
        let pc: bool = paddle_hit(b4, prev_y, bar);
        let b5 = if pc {
            paddle_bounce(b4, bar)
        } else {
            b4
        };
        let collided: bool = hit >= 0 || cx.1 || ct.1 || pc;
        let b6 = if collided {
            jitter_vel(b5, rnd.jitter_x as int, rnd.jitter_y as int)
        } else {
            b5
        };
        (b6, bricks1, st2)
    }
}

/// What every tick guarantees whatever the random draws were: the field
/// and bar stand still; a destroyed brick stays destroyed; the score grows
/// by exactly one brick's points exactly when the moved ball overlaps a
/// live brick; the velocity leaves in the unit band; the terminal flag
/// tracks its two causes; a life is lost exactly on a bottom exit, and
/// otherwise the ball ends inside the field; the first-flight flag is
/// never raised except by a respawn.
pub open spec fn tick_evolution(pre: Game, post: Game) -> bool {
    let b1 = ball_moved(pre.ball);
    let hit: int = first_hit_from(pre.bricks@, b1.rect, 0);
    let exit: bool = bottom_exit(b1, pre.dimensions.height as int);
    let respawned: bool = exit && post.state.lives > 0;
    &&& post.bar == pre.bar
    &&& post.dimensions == pre.dimensions
    &&& post.bricks@.len() == pre.bricks@.len()
    &&& (forall|j: int|
        0 <= j < pre.bricks@.len() && pre.bricks@[j].destroyed ==> post.bricks@[j].destroyed)
    &&& (forall|j: int|
        0 <= j < pre.bricks@.len() && j != hit ==> post.bricks@[j] == pre.bricks@[j])
    &&& post.state.score == pre.state.score + if hit >= 0 {
        POINTS as int
    } else {
        0int
    }
    &&& (!post.state.game_over ==> vel_band(
        post.ball.velocity_x as int,
        post.ball.velocity_y as int,
    ))
    &&& post.state.game_over == (post.state.lives == 0 || all_destroyed(post.bricks@))
    &&& post.state.lives == if exit {
        pre.state.lives - 1
    } else {
        pre.state.lives as int
    }
    &&& (!exit ==> ball_in_field(post.ball, pre.dimensions))
    &&& (respawned ==> post.ball == Ball::spawned(
        pre.bar,
        post.ball.rect.x - pre.bar.rect.x - (BAR_WIDTH / 2) as int,
    ))
    &&& (!pre.ball.first_bounce && !respawned ==> !post.ball.first_bounce)
    &&& (post.ball.first_bounce ==> pre.ball.first_bounce || respawned)
}

/// The per-tick guarantees compose: across any two consecutive ticks the
/// score never decreases, a destroyed brick never returns, and the field
/// and bar stand still.  By induction the same holds across any run of
/// ticks.
pub proof fn lemma_evolution_composes(a: Game, b: Game, c: Game)
    requires
        tick_evolution(a, b),
        tick_evolution(b, c),
    ensures
        c.state.score >= a.state.score,
        forall|j: int|
            0 <= j < a.bricks@.len() && a.bricks@[j].destroyed ==> c.bricks@[j].destroyed,
        c.bar == a.bar,
        c.dimensions == a.dimensions,
        c.bricks@.len() == a.bricks@.len(),
{
    assert forall|j: int|
        0 <= j < a.bricks@.len() && a.bricks@[j].destroyed implies c.bricks@[j].destroyed by {
        assert(b.bricks@[j].destroyed);
    }
}

/// The whole game: its state, entities, and field, as the engine mutates
/// them tick by tick.
pub struct Game {
    pub state: GameState,
    pub bar: Bar,
    pub ball: Ball,
    pub bricks: Vec<Brick>,
    pub dimensions: WinDimensions,
}

impl Game {
    /// The ball's position lies within a step of the field: every state a
    /// running game ticks from satisfies this, and every tick leaves it
    /// satisfied except when it ends the game on a bottom exit.
    pub open spec fn ball_pos_ok(self) -> bool {
        &&& -1000 <= self.ball.rect.x <= self.dimensions.width + 1000
        &&& -1000 <= self.ball.rect.y <= self.dimensions.height + 1000
    }

    /// Structural well-formedness: a playable field, the bar well formed
    /// within it, and the score exactly one brick's points per destroyed
    /// brick.  The ball's own well-formedness (`Ball::wf`) rides beside
    /// this in the tick contract: the ball a game-ending bottom exit
    /// discards is exempt from it.
    pub open spec fn wf(self) -> bool {
        &&& self.dimensions.wf()
        &&& self.bar.wf(self.dimensions)
        &&& self.state.score == 10 * count_destroyed(self.bricks@)
        &&& self.bricks@.len() <= 100_000_000
    }

    /// A state the running game can be in: well formed, with the terminal
    /// flag holding exactly when a cause for it holds — no lives left, or
    /// no brick left to destroy.
    pub open spec fn playable(self) -> bool {
        &&& self.wf()
        &&& self.state.game_over == (self.state.lives == 0 || all_destroyed(self.bricks@))
    }

    /// A fresh game: full lives, no score, the bar centered, the ball
    /// somewhere above the bar's right half, and no bricks yet — they are
    /// laid out by `get_bricks`.
    pub fn new(dimensions: WinDimensions) -> (g: Game)
        requires
            dimensions.wf(),
        ensures
            g.wf(),
            g.ball_pos_ok(),
            g.dimensions == dimensions,
            g.state == (GameState { score: 0, lives: 3, game_over: false }),
            g.bricks@.len() == 0,
            g.bar == (Bar {
                rect: Rect {
                    x: ((dimensions.width - BAR_WIDTH) / 2) as i32,
                    y: (dimensions.height - dimensions.height / 10) as i32,
                    width: BAR_WIDTH,
                    height: 30,
                },
                velocity_x: VEL_SCALE,
            }),
            g.ball.wf(),
            g.ball.first_bounce,
            g.ball.velocity_x == 0,
            g.ball.velocity_y == -1000,
            g.ball.rect.y == g.bar.rect.y - 30,
            g.bar.rect.x + 100 <= g.ball.rect.x < g.bar.rect.x + 200,
    {
        let bar = Bar::new(&dimensions);
        let ball = Ball::new(&bar);
        let g = Game {
            state: GameState::new(),
            bar,
            ball,
            bricks: Vec::new(),
            dimensions,
        };
        proof {
            lemma_count_destroyed_none(g.bricks@);
        }
        g
    }

    /// Whether no brick is left to destroy.
    pub fn all_bricks_destroyed(&self) -> (r: bool)
        ensures
            r == all_destroyed(self.bricks@),
    {
        let n: usize = self.bricks.len();
        let mut i: usize = 0;
        while i < n
            invariant
                0 <= i <= n,
                n == self.bricks@.len(),
                forall|j: int| 0 <= j < i ==> self.bricks@[j].destroyed,
            decreases n - i,
        {
            if !self.bricks[i].destroyed {
                return false;
            }
            i = i + 1;
        }
        true
    }
}

/// The bar after one push: it takes on unit velocity in the pushed
/// direction, advances one bar-step, and is clamped to the field with its
/// velocity turned away from the wall it touched.
pub open spec fn bar_after_move(bar: Bar, dir: Direction, w: int) -> Bar {
    let stp: int = if dir == Direction::Right {
        BAR_SPEED as int
    } else {
        -(BAR_SPEED as int)
    };
    let x1: int = bar.rect.x + stp;
    if x1 <= 0 {
        Bar { rect: Rect { x: 0, ..bar.rect }, velocity_x: VEL_SCALE }
    } else if x1 + bar.rect.width >= w {
        Bar {
            rect: Rect { x: (w - bar.rect.width) as i32, ..bar.rect },
            velocity_x: (-VEL_SCALE) as i32,
        }
    } else {
        Bar {
            rect: Rect { x: x1 as i32, ..bar.rect },
            velocity_x: if dir == Direction::Right {
                VEL_SCALE
            } else {
                (-VEL_SCALE) as i32
            },
        }
    }
}

impl Game {
    /// Push the bar one step left or right, clamped to the field.
    pub fn update_bar_position(&mut self, dir: Direction)
        requires
            old(self).dimensions.wf(),
            old(self).bar.wf(old(self).dimensions),
        ensures
            final(self).bar == bar_after_move(old(self).bar, dir, old(self).dimensions.width as int),
            final(self).bar.wf(final(self).dimensions),
            final(self).ball == old(self).ball,
            final(self).bricks@ == old(self).bricks@,
            final(self).state == old(self).state,
            final(self).dimensions == old(self).dimensions,
    {
        let stp: i32 = match dir {
            Direction::Right => BAR_SPEED,
            Direction::Left => -BAR_SPEED,
        };
        self.bar.velocity_x = match dir {
            Direction::Right => VEL_SCALE,
            Direction::Left => -VEL_SCALE,
        };
        self.bar.rect.x = self.bar.rect.x + stp;
        if self.bar.rect.x <= 0 {
            self.bar.rect.x = 0;
            self.bar.velocity_x = VEL_SCALE;
        } else if (self.bar.rect.x as i64) + (self.bar.rect.width as i64)
            >= (self.dimensions.width as i64) {
            self.bar.rect.x = (self.dimensions.width - self.bar.rect.width) as i32;
            self.bar.velocity_x = -VEL_SCALE;
        }
    }
}

/// How many brick columns the field's width allows.
pub open spec fn grid_cols(w: int) -> int {
    w / 70 - 5  // brick width plus padding
}

/// The brick the grid places in `row`, `col`: the grid is horizontally
/// centered, starts fifty pixels from the top, and spaces bricks by their
/// size plus the padding.
pub open spec fn grid_brick(w: int, row: int, col: int) -> Brick {
    let cc: int = grid_cols(w);
    let total: int = 60 * cc + 10 * (cc - 1);
    let sx: int = (w - total) / 2;
    Brick {
        rect: Rect {
            x: (sx + col * 70) as i32,
            y: (50 + row * 30) as i32,
            width: BRICK_WIDTH,
            height: BRICK_HEIGHT,
        },
        destroyed: false,
    }
}

/// The full grid in allocation order: row-major, `ROW_COUNT` rows of
/// `grid_cols` bricks.
pub open spec fn brick_grid(w: int) -> Seq<Brick>
    recommends
        grid_cols(w) >= 1,
{
    Seq::new(
        (ROW_COUNT * grid_cols(w)) as nat,
        |k: int| grid_brick(w, k / grid_cols(w), k % grid_cols(w)),
    )
}

impl Game {
    /// Lay out the brick grid for a new round, appending to the brick
    /// collection (which a fresh game has empty).
    pub fn get_bricks(&mut self)
        requires
            old(self).wf(),
            !old(self).state.game_over,
            old(self).state.lives >= 1,
            old(self).bricks@.len() + 8000 <= 100_000_000,
        ensures
            final(self).wf(),
            final(self).playable(),
            final(self).bricks@ == old(self).bricks@ + brick_grid(
                old(self).dimensions.width as int,
            ),
            final(self).ball == old(self).ball,
            final(self).bar == old(self).bar,
            final(self).state == old(self).state,
            final(self).dimensions == old(self).dimensions,
    {
        let w: u32 = self.dimensions.width;
        let cc: u32 = w / 70 - 5;
        let total: u32 = 60 * cc + 10 * (cc - 1);
        let start_x: u32 = (w - total) / 2;
        let ghost bricks0 = self.bricks@;
        let ghost grid = brick_grid(w as int);
        proof {
            assert(1 <= cc <= 1424);
            assert(grid.len() == 5 * cc);
            assert(bricks0 + grid.take(0) =~= bricks0);
        }
        let mut row: u32 = 0;
        while row < ROW_COUNT
            invariant
                self.dimensions.width == w,
                420 <= w <= 100_000,
                cc == grid_cols(w as int),
                1 <= cc <= 1424,
                total == 60 * cc + 10 * (cc - 1),
                total <= w,
                start_x == (w - total) / 2,
                grid == brick_grid(w as int),
                grid.len() == 5 * cc,
                0 <= row <= 5,
                self.bricks@ == bricks0 + grid.take(row as int * cc as int),
                self.ball == old(self).ball,
                self.bar == old(self).bar,
                self.state == old(self).state,
                self.dimensions == old(self).dimensions,
                bricks0.len() + 8000 <= 100_000_000,
            decreases 5 - row,
        {
            let mut col: u32 = 0;
            while col < cc
                invariant
                    self.dimensions.width == w,
                    420 <= w <= 100_000,
                    cc == grid_cols(w as int),
                    1 <= cc <= 1424,
                    total == 60 * cc + 10 * (cc - 1),
                    total <= w,
                    start_x == (w - total) / 2,
                    grid == brick_grid(w as int),
                    grid.len() == 5 * cc,
                    0 <= row < 5,
                    0 <= col <= cc,
                    self.bricks@ == bricks0 + grid.take(row as int * cc as int + col as int),
                    self.ball == old(self).ball,
                    self.bar == old(self).bar,
                    self.state == old(self).state,
                    self.dimensions == old(self).dimensions,
                    bricks0.len() + 8000 <= 100_000_000,
                decreases cc - col,
            {
                let bx: i32 = (start_x + col * 70) as i32;
                let by: i32 = 50 + (row as i32) * 30;
                proof {
                    let k: int = row as int * cc as int + col as int;
                    assert(0 <= k && k + 1 <= 5 * cc) by (nonlinear_arith)
                        requires
                            0 <= row <= 4,
                            0 <= col < cc,
                            k == row as int * cc as int + col as int,
                    ;
                    lemma_fundamental_div_mod_converse(k, cc as int, row as int, col as int);
                    assert(grid[k] == grid_brick(w as int, row as int, col as int));
                    assert(grid.take(k + 1) =~= grid.take(k).push(grid[k]));
                }
                self.bricks.push(Brick::new(bx, by));
                col = col + 1;
            }
            proof {
                assert(row as int * cc as int + cc as int == (row as int + 1) * cc as int)
                    by (nonlinear_arith);
            }
            row = row + 1;
        }
        proof {
            assert(5int * cc as int == grid.len());
            assert(grid.take(grid.len() as int) =~= grid);
            assert(forall|j: int| 0 <= j < grid.len() ==> !grid[j].destroyed);
            lemma_count_destroyed_append(bricks0, grid);
            lemma_count_destroyed_none(grid);
            // at least one live brick now exists, so the game is not over
            assert(!self.bricks@[bricks0.len() as int].destroyed);
        }
    }
}

/// A velocity the jitter may safely be applied to: roughly unit magnitude
/// with both components bounded.
pub open spec fn jitter_ready(vx: int, vy: int) -> bool {
    &&& mag_sq(vx, vy) >= 990_000
    &&& -1100 <= vx <= 1100
    &&& -1100 <= vy <= 1100
}

/// One tick's movement along one axis, in pixels.
fn vel_step(v: i32) -> (r: i32)
    requires
        -2000 <= v <= 2000,
    ensures
        r == step_len(v as int),
        -14 <= r <= 14,
{
    proof {
        assert(-14_000 <= v * 7 <= 14_000) by (nonlinear_arith)
            requires
                -2000 <= v <= 2000,
        ;
        if v >= 0 {
            lemma_div_is_ordered(v * 7, 14_000, 1000);
            lemma_div_is_ordered(0, v * 7, 1000);
        } else {
            lemma_div_is_ordered(-(v * 7), 14_000, 1000);
            lemma_div_is_ordered(0, -(v * 7), 1000);
        }
    }
    let d: i64 = mul_div_to_zero(v as i64, 7, 1000);
    d as i32
}

impl Game {
    /// Phase two: destroy the first live brick the ball overlaps, score
    /// it, and bounce off the axis of smaller penetration.
    fn brick_pass(&mut self, perturb: i32) -> (hit: bool)
        requires
            -100 <= perturb <= 90,
            old(self).ball.wf(),
            old(self).state.score == 10 * count_destroyed(old(self).bricks@),
            old(self).bricks@.len() <= 100_000_000,
        ensures
            ({
                let hidx = first_hit_from(old(self).bricks@, old(self).ball.rect, 0);
                &&& hit == (hidx >= 0)
                &&& final(self).bricks@ == (if hidx >= 0 {
                    old(self).bricks@.update(
                        hidx,
                        Brick { destroyed: true, ..old(self).bricks@[hidx] },
                    )
                } else {
                    old(self).bricks@
                })
                &&& final(self).ball == (if hidx >= 0 {
                    let v = brick_bounce(old(self).ball, old(self).bricks@[hidx], perturb as int);
                    Ball { velocity_x: v.0 as i32, velocity_y: v.1 as i32, ..old(self).ball }
                } else {
                    old(self).ball
                })
                &&& final(self).state.score == (if hidx >= 0 {
                    (old(self).state.score + POINTS) as u32
                } else {
                    old(self).state.score
                })
                &&& final(self).state.lives == old(self).state.lives
                &&& final(self).state.game_over == old(self).state.game_over
                &&& final(self).bar == old(self).bar
                &&& final(self).dimensions == old(self).dimensions
                &&& final(self).state.score == 10 * count_destroyed(final(self).bricks@)
                &&& final(self).ball.wf()
            }),
    {
        let ghost bricks0 = self.bricks@;
        let ghost ball0 = self.ball;
        let ghost st0 = self.state;
        let ghost hidx: int = first_hit_from(bricks0, ball0.rect, 0);
        let n: usize = self.bricks.len();
        let mut i: usize = 0;
        let mut hit: bool = false;
        while i < n && !hit
            invariant
                n == self.bricks@.len(),
                0 <= i <= n,
                -100 <= perturb <= 90,
                ball0.wf(),
                hidx == first_hit_from(bricks0, ball0.rect, 0),
                st0.score == 10 * count_destroyed(bricks0),
                bricks0.len() <= 100_000_000,
                self.bar == old(self).bar,
                self.dimensions == old(self).dimensions,
                self.state.lives == st0.lives,
                self.state.game_over == st0.game_over,
                old(self).bricks@ == bricks0,
                old(self).ball == ball0,
                old(self).state == st0,
                !hit ==> self.bricks@ == bricks0 && self.ball == ball0 && self.state == st0
                    && hidx == first_hit_from(bricks0, ball0.rect, i as int),
                hit ==> ({
                    &&& hidx >= 0
                    &&& self.bricks@ == bricks0.update(
                        hidx,
                        Brick { destroyed: true, ..bricks0[hidx] },
                    )
                    &&& self.ball == ({
                        let v = brick_bounce(ball0, bricks0[hidx], perturb as int);
                        Ball { velocity_x: v.0 as i32, velocity_y: v.1 as i32, ..ball0 }
                    })
                    &&& self.state.score == (st0.score + POINTS) as u32
                    &&& self.state.score == 10 * count_destroyed(self.bricks@)
                    &&& self.ball.wf()
                }),
            decreases n - i + (if hit { 0int } else { 1int }),
        {
            let k: Brick = self.bricks[i];
            if !k.destroyed && self.ball.rect.overlaps(&k.rect) {
                proof {
                    assert(brick_hit(bricks0[i as int], ball0.rect));
                    assert(first_hit_from(bricks0, ball0.rect, i as int) == i);
                    assert(hidx == i);
                    lemma_count_destroyed_update(bricks0, i as int);
                    lemma_count_destroyed_le_len(
                        bricks0.update(i as int, Brick { destroyed: true, ..bricks0[i as int] }),
                    );
                    lemma_band_bounds(ball0.velocity_x as int, ball0.velocity_y as int);
                    lemma_mag_flip(ball0.velocity_x as int, ball0.velocity_y as int);
                    lemma_mag_flip(-(ball0.velocity_x as int), ball0.velocity_y as int);
                }
                self.bricks.set(i, Brick { destroyed: true, ..k });
                self.state.score = self.state.score + POINTS;
                let bcx: i64 = (self.ball.rect.x as i64) + ((self.ball.rect.width / 2) as i64);
                let bcy: i64 = (self.ball.rect.y as i64) + ((self.ball.rect.height / 2) as i64);
                let kcx: i64 = (k.rect.x as i64) + ((k.rect.width / 2) as i64);
                let kcy: i64 = (k.rect.y as i64) + ((k.rect.height / 2) as i64);
                let dx: i64 = bcx - kcx;
                let dy: i64 = bcy - kcy;
                let adx: i64 = if dx >= 0 {
                    dx
                } else {
                    -dx
                };
                let ady: i64 = if dy >= 0 {
                    dy
                } else {
                    -dy
                };
                let wx: i64 = ((self.ball.rect.width / 2) as i64) + ((k.rect.width / 2) as i64)
                    - adx;
                let wy: i64 = ((self.ball.rect.height / 2) as i64) + ((k.rect.height / 2) as i64)
                    - ady;
                let ghost vx0: int = ball0.velocity_x as int;
                let ghost vy0: int = ball0.velocity_y as int;
                if wx < wy {
                    self.ball.velocity_x = -self.ball.velocity_x;
                    self.ball.velocity_y = self.ball.velocity_y + perturb;
                    proof {
                        lemma_mag_after_add(-vx0, vy0, perturb as int);
                        lemma_norm_band(-vx0, vy0 + perturb);
                    }
                } else {
                    self.ball.velocity_y = -self.ball.velocity_y;
                    self.ball.velocity_x = self.ball.velocity_x + perturb;
                    proof {
                        lemma_mag_flip(vx0 + perturb, vy0);
                        lemma_mag_after_add(vx0, vy0, perturb as int);
                        lemma_mag_flip(vx0 + perturb, -vy0);
                        assert(mag_sq(vx0 + perturb, -vy0) == mag_sq(vx0 + perturb, vy0));
                        lemma_norm_band(vx0 + perturb, -vy0);
                    }
                }
                self.ball.normalize_velocity();
                hit = true;
            } else {
                proof {
                    assert(first_hit_from(bricks0, ball0.rect, i as int) == first_hit_from(
                        bricks0,
                        ball0.rect,
                        i as int + 1,
                    ));
                }
                i = i + 1;
            }
        }
        proof {
            if !hit {
                assert(hidx == first_hit_from(bricks0, ball0.rect, n as int));
            }
        }
        hit
    }

    /// Phase five: bounce the ball off the bar when the trigger holds.
    fn paddle_pass(&mut self, old_y: i32) -> (pc: bool)
        requires
            old(self).dimensions.wf(),
            old(self).bar.wf(old(self).dimensions),
            old(self).ball.rect.height <= 1000,
        ensures
            pc == paddle_hit(old(self).ball, old_y as int, old(self).bar),
            final(self).ball == (if pc {
                paddle_bounce(old(self).ball, old(self).bar)
            } else {
                old(self).ball
            }),
            final(self).state == old(self).state,
            final(self).bricks@ == old(self).bricks@,
            final(self).bar == old(self).bar,
            final(self).dimensions == old(self).dimensions,
            pc ==> vel_band(final(self).ball.velocity_x as int, final(self).ball.velocity_y as int),
    {
        let ghost b4g: Ball = self.ball;
        let pc: bool = self.ball.velocity_y > 0 && (self.ball.rect.y as i64)
            + (self.ball.rect.height as i64) >= (self.bar.rect.y as i64) && (old_y as i64)
            + (self.ball.rect.height as i64) <= (self.bar.rect.y as i64) && (self.ball.rect.x
            as i64) + (self.ball.rect.width as i64) >= (self.bar.rect.x as i64) && (self.ball.rect.x
            as i64) <= (self.bar.rect.x as i64) + (self.bar.rect.width as i64);
        proof {
            assert(pc == paddle_hit(b4g, old_y as int, old(self).bar));
        }
        if pc {
            let a0: i64 = (self.ball.rect.x as i64) + ((self.ball.rect.width / 2) as i64) - (
            self.bar.rect.x as i64);
            let raw: i64 = mul_div_to_zero(a0, 1000, self.bar.rect.width as i64);
            let hit_pos: i64 = if raw < 0 {
                0
            } else if raw > 1000 {
                1000
            } else {
                raw
            };
            proof {
                assert(hit_pos == paddle_hit_pos(b4g, old(self).bar));
            }
            let angle: i64 = mul_div_to_zero(hit_pos - 500, 2094, 1000);
            proof {
                if hit_pos >= 500 {
                    lemma_div_is_ordered((hit_pos - 500) * 2094, 1_047_000, 1000);
                    lemma_div_is_ordered(0, (hit_pos - 500) * 2094, 1000);
                } else {
                    lemma_div_is_ordered(-((hit_pos - 500) * 2094), 1_047_000, 1000);
                    lemma_div_is_ordered(0, -((hit_pos - 500) * 2094), 1000);
                }
                assert(-1047 <= angle <= 1047);
                assert(angle == paddle_angle(hit_pos as int));
                lemma_sin_milli_bounds(angle as int);
            }
            let svx: i32 = sin_milli_fp(angle as i32);
            let mut nvx: i32 = svx;
            if self.bar.velocity_x != 0 {
                let eng: i64 = mul_div_to_zero(self.bar.velocity_x as i64, 150, 1000);
                proof {
                    assert(-150 <= eng <= 150);
                }
                nvx = nvx + (eng as i32);
            }
            self.ball.velocity_x = nvx;
            self.ball.velocity_y = -800;
            proof {
                assert(250_000 <= mag_sq(nvx as int, -800) <= 8_000_000) by (nonlinear_arith)
                    requires
                        -1150 <= nvx <= 1150,
                ;
                lemma_norm_band(nvx as int, -800);
            }
            self.ball.normalize_velocity();
            self.ball.rect.y = self.bar.rect.y - (self.ball.rect.height as i32);
            if self.ball.first_bounce {
                self.ball.first_bounce = false;
            }
            proof {
                assert(self.ball == paddle_bounce(b4g, old(self).bar));
            }
        }
        pc
    }

    /// One tick of the physics engine with the random draws injected:
    /// integrate, resolve at most one brick, clamp to the walls, handle a
    /// bottom exit, bounce off the bar, jitter.  The final state is
    /// exactly `tick_spec` of the previous state and the draws, and every
    /// clause of `tick_evolution` holds of the step.
    #[verifier::rlimit(100)]
    pub fn update_ball_position(&mut self, rnd: TickRandom)
        requires
            old(self).playable(),
            old(self).ball.wf(),
            old(self).ball_pos_ok(),
            !old(self).state.game_over,
            rnd.valid(),
        ensures
            final(self).playable(),
            final(self).state.game_over || (final(self).ball.wf() && final(self).ball_pos_ok()),
            (final(self).ball, final(self).bricks@, final(self).state) == tick_spec(
                old(self).ball,
                old(self).bar,
                old(self).bricks@,
                old(self).dimensions,
                old(self).state,
                rnd,
            ),
            tick_evolution(*old(self), *final(self)),
    {
        let ghost g0 = *old(self);
        proof {
            lemma_band_bounds(g0.ball.velocity_x as int, g0.ball.velocity_y as int);
            lemma_count_destroyed_le_len(g0.bricks@);
        }
        let old_y: i32 = self.ball.rect.y;

        // phase one: integrate the position
        let sx: i32 = vel_step(self.ball.velocity_x);
        let sy: i32 = vel_step(self.ball.velocity_y);
        self.ball.rect.x = self.ball.rect.x + sx;
        self.ball.rect.y = self.ball.rect.y + sy;
        let ghost b1g: Ball = ball_moved(g0.ball);
        proof {
            assert(self.ball == b1g);
        }

        // phase two: first overlapped live brick
        let ghost hidx: int = first_hit_from(g0.bricks@, b1g.rect, 0);
        let hit: bool = self.brick_pass(rnd.brick_perturb);
        let ghost bricks1: Seq<Brick> = if hidx >= 0 {
            g0.bricks@.update(hidx, Brick { destroyed: true, ..g0.bricks@[hidx] })
        } else {
            g0.bricks@
        };
        let ghost b2g: Ball = if hidx >= 0 {
            let v = brick_bounce(b1g, g0.bricks@[hidx], rnd.brick_perturb as int);
            Ball { velocity_x: v.0 as i32, velocity_y: v.1 as i32, ..b1g }
        } else {
            b1g
        };
        proof {
            assert(self.bricks@ == bricks1);
            assert(self.ball == b2g);
            lemma_first_hit(g0.bricks@, b1g.rect, 0);
            lemma_band_bounds(b2g.velocity_x as int, b2g.velocity_y as int);
        }

        // no brick left standing ends the game
        if self.all_bricks_destroyed() {
            self.state.game_over = true;
        }
        proof {
            assert(self.state.game_over == (g0.state.game_over || all_destroyed(bricks1)));
        }

        // phase three: side walls
        let mut collided: bool = hit;
        if self.ball.rect.x <= 0 {
            self.ball.rect.x = 0;
            if self.ball.velocity_x < 0 {
                self.ball.velocity_x = -self.ball.velocity_x;
            }
            collided = true;
            if self.ball.first_bounce {
                self.ball.first_bounce = false;
                self.ball.velocity_x = if rnd.first_dir_right {
                    VEL_SCALE
                } else {
                    -VEL_SCALE
                };
            }
        } else if (self.ball.rect.x as i64) + (self.ball.rect.width as i64) >= (
        self.dimensions.width as i64) {
            self.ball.rect.x = (self.dimensions.width - self.ball.rect.width) as i32;
            if self.ball.velocity_x > 0 {
                self.ball.velocity_x = -self.ball.velocity_x;
            }
            collided = true;
            if self.ball.first_bounce {
                self.ball.first_bounce = false;
                self.ball.velocity_x = if rnd.first_dir_right {
                    VEL_SCALE
                } else {
                    -VEL_SCALE
                };
            }
        }
        let ghost cxp: (Ball, bool) = wall_clamp_x(
            b2g,
            g0.dimensions.width as int,
            rnd.first_dir_right,
        );
        let ghost b3g: Ball = cxp.0;
        proof {
            lemma_mag_flip(b2g.velocity_x as int, b2g.velocity_y as int);
            lemma_mag_flip(abs_i(b2g.velocity_x as int), b2g.velocity_y as int);
            assert(self.ball == b3g);
            assert(collided == (hidx >= 0 || cxp.1));
            assert(b3g.velocity_y == b2g.velocity_y);
            // either still in the band, or the first flight just ended here
            assert(vel_band(b3g.velocity_x as int, b3g.velocity_y as int) || ((b3g.velocity_x
                == VEL_SCALE || b3g.velocity_x == -VEL_SCALE) && !b3g.first_bounce));
        }

        // phase three: ceiling — or phase four: bottom exit
        if self.ball.rect.y <= 0 {
            self.ball.rect.y = 0;
            if self.ball.velocity_y < 0 {
                self.ball.velocity_y = -self.ball.velocity_y;
            }
            collided = true;
            if self.ball.first_bounce {
                self.ball.first_bounce = false;
                self.ball.velocity_x = if rnd.first_dir_right {
                    VEL_SCALE
                } else {
                    -VEL_SCALE
                };
            }
        } else if (self.ball.rect.y as i64) + (self.ball.rect.height as i64) >= (
        self.dimensions.height as i64) {
            proof {
                assert(self.state.lives >= 1);
            }
            self.state.lives = self.state.lives - 1;
            if self.state.lives == 0 {
                self.state.game_over = true;
            } else {
                self.ball = Ball::spawn(&self.bar, rnd.spawn_offset);
            }
            proof {
                assert(bottom_exit(b3g, g0.dimensions.height as int));
                assert(bottom_exit(b1g, g0.dimensions.height as int));
                assert(wall_clamp_top(b3g, rnd.first_dir_right).0 == b3g);
                assert((self.ball, self.bricks@, self.state) == tick_spec(
                    g0.ball,
                    g0.bar,
                    g0.bricks@,
                    g0.dimensions,
                    g0.state,
                    rnd,
                ));
                assert forall|j: int|
                    0 <= j < g0.bricks@.len() && g0.bricks@[j].destroyed
                        implies self.bricks@[j].destroyed by {}
                assert forall|j: int| 0 <= j < g0.bricks@.len() && j != hidx
                    implies self.bricks@[j] == g0.bricks@[j] by {}
                assert(self.bar == g0.bar && self.dimensions == g0.dimensions);
                assert(self.bricks@.len() == g0.bricks@.len());
                assert(self.state.score == g0.state.score + if hidx >= 0 {
                    POINTS as int
                } else {
                    0int
                });
                assert(!self.state.game_over ==> vel_band(
                    self.ball.velocity_x as int,
                    self.ball.velocity_y as int,
                ));
                assert(self.state.game_over == (self.state.lives == 0 || all_destroyed(
                    self.bricks@,
                )));
                assert(self.state.lives == g0.state.lives - 1);
                if self.state.lives > 0 {
                    assert(self.ball == Ball::spawned(
                        g0.bar,
                        self.ball.rect.x - g0.bar.rect.x - (BAR_WIDTH / 2) as int,
                    ));
                    assert(self.ball_pos_ok());
                }
                assert(tick_evolution(g0, *self));
            }
            return;
        }
        let ghost ctp: (Ball, bool) = wall_clamp_top(b3g, rnd.first_dir_right);
        let ghost b4g: Ball = ctp.0;
        proof {
            lemma_mag_flip(b3g.velocity_x as int, b3g.velocity_y as int);
            assert(self.ball == b4g);
            assert(collided == (hidx >= 0 || cxp.1 || ctp.1));
            assert(!bottom_exit(b3g, g0.dimensions.height as int));
            assert(vel_band(b4g.velocity_x as int, b4g.velocity_y as int) || ((b4g.velocity_x
                == VEL_SCALE || b4g.velocity_x == -VEL_SCALE) && -1004 <= b4g.velocity_y <= 1004));
        }

        // phase five: the bar
        let pc: bool = self.paddle_pass(old_y);
        if pc {
            collided = true;
        }
        let ghost b5g: Ball = if pc {
            paddle_bounce(b4g, g0.bar)
        } else {
            b4g
        };
        proof {
            assert(self.ball == b5g);
        }

        // phase six: post-collision jitter
        if collided {
            proof {
                if vel_band(b5g.velocity_x as int, b5g.velocity_y as int) {
                    lemma_band_bounds(b5g.velocity_x as int, b5g.velocity_y as int);
                } else {
                    // only the bounce that ends the first flight leaves the
                    // band: one component was freshly set to a full unit
                    assert(b5g.velocity_x == VEL_SCALE || b5g.velocity_x == -VEL_SCALE);
                    assert(-1004 <= b5g.velocity_y <= 1004);
                    assert(jitter_ready(b5g.velocity_x as int, b5g.velocity_y as int))
                        by (nonlinear_arith)
                        requires
                            b5g.velocity_x == 1000 || b5g.velocity_x == -1000,
                            -1004 <= b5g.velocity_y <= 1004,
                    ;
                }
                assert(jitter_ready(b5g.velocity_x as int, b5g.velocity_y as int));
                lemma_jitter_mag(
                    b5g.velocity_x as int,
                    b5g.velocity_y as int,
                    rnd.jitter_x as int,
                    rnd.jitter_y as int,
                );
                lemma_norm_band(
                    b5g.velocity_x + rnd.jitter_x,
                    b5g.velocity_y + rnd.jitter_y,
                );
            }
            self.ball.velocity_x = self.ball.velocity_x + rnd.jitter_x;
            self.ball.velocity_y = self.ball.velocity_y + rnd.jitter_y;
            self.ball.normalize_velocity();
            proof {
                assert(self.ball == jitter_vel(b5g, rnd.jitter_x as int, rnd.jitter_y as int));
            }
        }
        proof {
            assert((self.ball, self.bricks@, self.state) == tick_spec(
                g0.ball,
                g0.bar,
                g0.bricks@,
                g0.dimensions,
                g0.state,
                rnd,
            ));
            assert forall|j: int|
                0 <= j < g0.bricks@.len() && g0.bricks@[j].destroyed
                    implies self.bricks@[j].destroyed by {}
            assert forall|j: int| 0 <= j < g0.bricks@.len() && j != hidx
                implies self.bricks@[j] == g0.bricks@[j] by {}
            assert(!bottom_exit(b1g, g0.dimensions.height as int));
            assert(self.bar == g0.bar && self.dimensions == g0.dimensions);
            assert(self.bricks@.len() == g0.bricks@.len());
            assert(self.state.score == g0.state.score + if hidx >= 0 {
                POINTS as int
            } else {
                0int
            });
            assert(vel_band(self.ball.velocity_x as int, self.ball.velocity_y as int));
            assert(self.ball.rect.width == g0.ball.rect.width && self.ball.rect.height
                == g0.ball.rect.height);
            assert(self.ball.wf());
            assert(self.state.game_over == (self.state.lives == 0 || all_destroyed(self.bricks@)));
            assert(self.state.lives == g0.state.lives);
            assert(ball_in_field(self.ball, g0.dimensions));
            assert(!self.ball.first_bounce || g0.ball.first_bounce);
            assert(!g0.ball.first_bounce ==> !self.ball.first_bounce);
            assert(tick_evolution(g0, *self));
        }
    }

    /// One tick with the random draws taken from the real generator: the
    /// exact outcome depends on the draws, but every clause of
    /// `tick_evolution` holds whatever they were.
    pub fn tick(&mut self)
        requires
            old(self).playable(),
            old(self).ball.wf(),
            old(self).ball_pos_ok(),
            !old(self).state.game_over,
        ensures
            final(self).playable(),
            final(self).state.game_over || (final(self).ball.wf() && final(self).ball_pos_ok()),
            tick_evolution(*old(self), *final(self)),
            exists|r: TickRandom|
                r.valid() && (final(self).ball, final(self).bricks@, final(self).state)
                    == tick_spec(
                    old(self).ball,
                    old(self).bar,
                    old(self).bricks@,
                    old(self).dimensions,
                    old(self).state,
                    r,
                ),
    {
        let rnd = TickRandom {
            brick_perturb: random_in_range(-10, 10) * 10,
            first_dir_right: random_coin(),
            jitter_x: random_in_range(-5, 5) * 10,
            jitter_y: random_in_range(-5, 5) * 10,
            spawn_offset: random_in_range(0, 100),
        };
        self.update_ball_position(rnd);
        proof {
            // the drawn values witness the existential
            assert(rnd.valid() && (self.ball, self.bricks@, self.state) == tick_spec(
                old(self).ball,
                old(self).bar,
                old(self).bricks@,
                old(self).dimensions,
                old(self).state,
                rnd,
            ));
        }
    }
}

} // verus!
