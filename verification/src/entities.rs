//! The game's entities — ball, paddle (the bar), bricks, the window, and
//! the running score — with their well-formedness conditions.

use crate::fixed::mag_sq;
use crate::fixed::norm_x;
use crate::fixed::norm_y;
use crate::fixed::normalize_milli;
use crate::fixed::vel_band;
use crate::fixed::VEL_SCALE;
use crate::geometry::Rect;
use crate::random::random_in_range;
use vstd::prelude::*;

verus! {

/// Pixels the ball advances per tick, per unit of velocity.
pub const BALL_SPEED: i32 = 7;

/// Pixels the bar advances per tick of held input.
pub const BAR_SPEED: i32 = 20;

pub const BALL_WIDTH: u32 = 30;

pub const BALL_HEIGHT: u32 = 30;

pub const BAR_WIDTH: u32 = 200;

pub const BAR_HEIGHT: u32 = 30;

pub const BRICK_WIDTH: u32 = 60;

pub const BRICK_HEIGHT: u32 = 20;

/// Rows in the brick grid.
pub const ROW_COUNT: u32 = 5;

/// Gap between neighbouring bricks, horizontally and vertically.
pub const BRICK_PADDING: u32 = 10;

/// Points one destroyed brick is worth.
pub const POINTS: u32 = 10;

/// The window the game is played in, in pixels.
#[derive(Clone, Copy, PartialEq, Eq, Structural, Debug)]
pub struct WinDimensions {
    pub width: u32,
    pub height: u32,
}

impl WinDimensions {
    /// A playable field: wide enough for the bar and at least one brick
    /// column, tall enough for the brick area above the bar, and small
    /// enough that position arithmetic stays far from overflow.
    pub open spec fn wf(self) -> bool {
        &&& 420 <= self.width <= 100_000
        &&& 300 <= self.height <= 100_000
    }
}

/// The two directions the player can push the bar.
#[derive(Clone, Copy, PartialEq, Eq, Structural, Debug)]
pub enum Direction {
    Left,
    Right,
}

/// A destructible brick; `destroyed` flips to true at most once, on first
/// overlap with the ball, and never back.
#[derive(Clone, Copy, PartialEq, Eq, Structural, Debug)]
pub struct Brick {
    pub rect: Rect,
    pub destroyed: bool,
}

impl Brick {
    pub fn new(x: i32, y: i32) -> (b: Brick)
        ensures
            b == (Brick {
                rect: Rect { x, y, width: BRICK_WIDTH, height: BRICK_HEIGHT },
                destroyed: false,
            }),
    {
        Brick { rect: Rect { x, y, width: BRICK_WIDTH, height: BRICK_HEIGHT }, destroyed: false }
    }
}

/// The player's paddle.  `velocity_x` is its horizontal direction in
/// milli-units; it feeds a little of the bar's motion into the ball on a
/// bounce.
#[derive(Clone, Copy, PartialEq, Eq, Structural, Debug)]
pub struct Bar {
    pub rect: Rect,
    pub velocity_x: i32,
}

impl Bar {
    /// The bar spans its fixed size, sits on its fixed line near the
    /// bottom, lies within the field horizontally, and moves at unit
    /// velocity or rests.
    pub open spec fn wf(self, dims: WinDimensions) -> bool {
        &&& self.rect.width == BAR_WIDTH
        &&& self.rect.height == BAR_HEIGHT
        &&& 0 <= self.rect.x
        &&& self.rect.x + BAR_WIDTH <= dims.width
        &&& self.rect.y == dims.height - dims.height / 10
        &&& (self.velocity_x == -VEL_SCALE || self.velocity_x == 0 || self.velocity_x
            == VEL_SCALE)
    }

    /// A new bar: horizontally centered, a tenth of the field's height
    /// above its bottom edge.
    pub fn new(dims: &WinDimensions) -> (b: Bar)
        requires
            dims.wf(),
        ensures
            b == (Bar {
                rect: Rect {
                    x: ((dims.width - BAR_WIDTH) / 2) as i32,
                    y: (dims.height - dims.height / 10) as i32,
                    width: BAR_WIDTH,
                    height: BAR_HEIGHT,
                },
                velocity_x: VEL_SCALE,
            }),
            b.wf(*dims),
    {
        let x: u32 = (dims.width - BAR_WIDTH) / 2;
        let y: u32 = dims.height - dims.height / 10;
        Bar {
            rect: Rect { x: x as i32, y: y as i32, width: BAR_WIDTH, height: BAR_HEIGHT },
            velocity_x: VEL_SCALE,
        }
    }
}

/// The moving ball: fixed size, a unit velocity vector in milli-units, and
/// the flag that marks its first flight (cleared at its first ceiling or
/// bar contact).
#[derive(Clone, Copy, PartialEq, Eq, Structural, Debug)]
pub struct Ball {
    pub rect: Rect,
    pub velocity_x: i32,
    pub velocity_y: i32,
    pub first_bounce: bool,
}

impl Ball {
    /// The ball keeps its fixed size and a velocity in the unit band.
    pub open spec fn wf(self) -> bool {
        &&& self.rect.width == BALL_WIDTH
        &&& self.rect.height == BALL_HEIGHT
        &&& vel_band(self.velocity_x as int, self.velocity_y as int)
    }

    /// The ball a fresh spawn produces: just above the bar, `offset`
    /// pixels right of the bar's midpoint, flying straight up, with its
    /// first flight ahead of it.
    pub open spec fn spawned(bar: Bar, offset: int) -> Ball {
        Ball {
            rect: Rect {
                x: (bar.rect.x + BAR_WIDTH / 2 + offset) as i32,
                y: (bar.rect.y - BAR_HEIGHT) as i32,
                width: BALL_WIDTH,
                height: BALL_HEIGHT,
            },
            velocity_x: 0,
            velocity_y: (-VEL_SCALE) as i32,
            first_bounce: true,
        }
    }

    /// Place a ball above the bar at the given offset.
    pub fn spawn(bar: &Bar, offset: i32) -> (b: Ball)
        requires
            0 <= offset < 100,
            0 <= bar.rect.x <= 100_000,
            30 <= bar.rect.y <= 100_000,
        ensures
            b == Ball::spawned(*bar, offset as int),
            b.wf(),
    {
        Ball {
            rect: Rect {
                x: bar.rect.x + (BAR_WIDTH / 2) as i32 + offset,
                y: bar.rect.y - BAR_HEIGHT as i32,
                width: BALL_WIDTH,
                height: BALL_HEIGHT,
            },
            velocity_x: 0,
            velocity_y: -VEL_SCALE,
            first_bounce: true,
        }
    }

    /// Spawn above the bar at a random offset within the bar's right half.
    pub fn new(bar: &Bar) -> (b: Ball)
        requires
            0 <= bar.rect.x <= 100_000,
            30 <= bar.rect.y <= 100_000,
        ensures
            b.wf(),
            bar.rect.x + 100 <= b.rect.x < bar.rect.x + 200,
            b.rect.y == bar.rect.y - 30,
            b.velocity_x == 0,
            b.velocity_y == -VEL_SCALE,
            b.first_bounce,
            b == Ball::spawned(*bar, b.rect.x - bar.rect.x - 100),
    {
        let offset: i32 = random_in_range(0, 100);
        Ball::spawn(bar, offset)
    }

    /// Re-normalize the velocity to unit magnitude: every nonzero
    /// admitted velocity comes out in the unit band, so a repeated call
    /// stays there; an exactly zero velocity is kept as it is.
    pub fn normalize_velocity(&mut self)
        requires
            -7000 <= old(self).velocity_x <= 7000,
            -7000 <= old(self).velocity_y <= 7000,
        ensures
            final(self).velocity_x == norm_x(
                old(self).velocity_x as int,
                old(self).velocity_y as int,
            ),
            final(self).velocity_y == norm_y(
                old(self).velocity_x as int,
                old(self).velocity_y as int,
            ),
            mag_sq(old(self).velocity_x as int, old(self).velocity_y as int) != 0 ==> vel_band(
                final(self).velocity_x as int,
                final(self).velocity_y as int,
            ),
            final(self).rect == old(self).rect,
            final(self).first_bounce == old(self).first_bounce,
    {
        let v: (i32, i32) = normalize_milli(self.velocity_x, self.velocity_y);
        self.velocity_x = v.0;
        self.velocity_y = v.1;
    }
}

/// Score, remaining lives, and the terminal flag.
#[derive(Clone, Copy, PartialEq, Eq, Structural, Debug)]
pub struct GameState {
    pub score: u32,
    pub lives: u8,
    pub game_over: bool,
}

impl GameState {
    pub fn new() -> (s: GameState)
        ensures
            s == (GameState { score: 0, lives: 3, game_over: false }),
    {
        GameState { score: 0, lives: 3, game_over: false }
    }
}

} // verus!
