//! The paddle, the blocks and the balls, each with its own update rule.

use vstd::prelude::*;
use crate::geometry::{confine, confined, magnitude, sign, signed, Rect, Vec2, UNIT, WORLD_LIMIT};

verus! {

/// Width and height of a block, in nano-pixels.
pub const BLOCK_WIDTH: i64 = 100_000_000_000;

pub const BLOCK_HEIGHT: i64 = 40_000_000_000;

/// Width and height of the paddle, in nano-pixels.
pub const PLAYER_WIDTH: i64 = 150_000_000_000;

pub const PLAYER_HEIGHT: i64 = 40_000_000_000;

/// How far above the bottom of the playfield the paddle's top edge stands.
pub const PLAYER_RAISE: i64 = 100_000_000_000;

/// Paddle speed in pixels per second.
pub const PLAYER_SPEED: i64 = 700;

/// Side of a ball, in nano-pixels.
pub const BALL_SIZE: i64 = 50_000_000_000;

/// Ball speed in pixels per second, for a direction of length one.
pub const BALL_SPEED: i64 = 400;

/// Hit points of a fresh block.
pub const BLOCK_LIVES: i32 = 2;

/// The visible play area, in nano-pixels.
#[derive(Clone, Copy, Debug, PartialEq, Eq, Structural)]
pub struct Playfield {
    pub width: i64,
    pub height: i64,
}

impl Playfield {
    pub open spec fn wf(self) -> bool {
        0 <= self.width <= WORLD_LIMIT && 0 <= self.height <= WORLD_LIMIT
    }

    pub fn new(width: i64, height: i64) -> (field: Playfield)
        ensures
            field.width == width,
            field.height == height,
    {
        Playfield { width, height }
    }

    /// The point at which a ball enters play: the middle of the field.
    pub open spec fn spec_center(&self) -> Vec2 {
        Vec2 { x: (self.width / 2) as i64, y: (self.height / 2) as i64 }
    }

    /// Top-left corner at which something of the given size stands centred
    /// in the field.
    pub open spec fn spec_centered(&self, w: i64, h: i64) -> Vec2 {
        Vec2 { x: (self.width / 2 - w / 2) as i64, y: (self.height / 2 - h / 2) as i64 }
    }

    /// Where to put a title of the given size so that it stands centred.
    #[verifier::when_used_as_spec(spec_centered)]
    pub fn centered(&self, w: i64, h: i64) -> (corner: Vec2)
        requires
            self.wf(),
            0 <= w <= WORLD_LIMIT,
            0 <= h <= WORLD_LIMIT,
        ensures
            corner == self.spec_centered(w, h),
    {
        Vec2 { x: self.width / 2 - w / 2, y: self.height / 2 - h / 2 }
    }

    #[verifier::when_used_as_spec(spec_center)]
    pub fn center(&self) -> (c: Vec2)
        requires
            self.wf(),
        ensures
            c == self.spec_center(),
    {
        Vec2 { x: self.width / 2, y: self.height / 2 }
    }
}

/// Nano-pixels travelled in `dt` microseconds at `speed` pixels per second
/// along a direction component of `v` thousandths.
pub open spec fn displacement(v: int, dt: int, speed: int) -> int {
    v * dt * speed
}

/// Computes `displacement` for a direction component, in a width that holds
/// the product for every time step.
fn travel(v: i64, dt: u32, speed: i64) -> (d: i128)
    requires
        -UNIT <= v <= UNIT,
        0 <= speed <= 1000,
    ensures
        d == displacement(v as int, dt as int, speed as int),
        -0x1_0000_0000 * 1_000_000 <= d <= 0x1_0000_0000 * 1_000_000,
{
    assert(-1000 * 0x1_0000_0000 <= v * dt <= 1000 * 0x1_0000_0000) by (nonlinear_arith)
        requires
            -1000 <= v <= 1000,
            0 <= dt < 0x1_0000_0000,
    ;
    let step: i128 = v as i128 * dt as i128;
    assert(-1000 * 0x1_0000_0000 * 1000 <= step * speed <= 1000 * 0x1_0000_0000 * 1000)
        by (nonlinear_arith)
        requires
            -1000 * 0x1_0000_0000 <= step <= 1000 * 0x1_0000_0000,
            0 <= speed <= 1000,
    ;
    step * speed as i128
}

/// The paddle.
#[derive(Clone, Copy, Debug, PartialEq, Eq, Structural)]
pub struct Player {
    pub rect: Rect,
}

/// Where the pointer asks the paddle to go: -1 where it is left of the
/// paddle's centre, 1 where it is right of it, 0 where it is on it.
pub open spec fn intent(rect: Rect, pointer_x: int) -> int {
    if 2 * pointer_x < 2 * rect.x + rect.w {
        -1
    } else if 2 * pointer_x > 2 * rect.x + rect.w {
        1
    } else {
        0
    }
}

/// `x` held to the paddle's range in a field of the given width: first not
/// below zero, then not beyond `width - w`.
pub open spec fn held_in_field(x: int, w: int, width: int) -> int {
    let floor = if x < 0 {
        0
    } else {
        x
    };
    if floor > width - w {
        width - w
    } else {
        floor
    }
}

/// The paddle's horizontal position after one frame.
pub open spec fn paddle_x_after(rect: Rect, dt: int, pointer_x: int, field: Playfield) -> int {
    held_in_field(
        rect.x + displacement(intent(rect, pointer_x) * UNIT, dt, PLAYER_SPEED as int),
        rect.w as int,
        field.width as int,
    )
}

/// The paddle after one frame.
pub open spec fn paddle_after(p: Player, dt: int, pointer_x: int, field: Playfield) -> Player {
    Player { rect: Rect { x: paddle_x_after(p.rect, dt, pointer_x, field) as i64, ..p.rect } }
}

/// The paddle as a session starts: centred horizontally, near the bottom.
pub open spec fn paddle_at_start(field: Playfield) -> Player {
    Player {
        rect: Rect {
            x: (field.width / 2 - PLAYER_WIDTH / 2) as i64,
            y: (field.height - PLAYER_RAISE) as i64,
            w: PLAYER_WIDTH,
            h: PLAYER_HEIGHT,
        },
    }
}

impl Player {
    /// The paddle centred horizontally, near the bottom of the field.
    pub fn new(field: Playfield) -> (p: Player)
        requires
            field.wf(),
        ensures
            p == paddle_at_start(field),
            p.rect.x == field.width / 2 - PLAYER_WIDTH / 2,
            p.rect.y == field.height - PLAYER_RAISE,
            p.rect.wf(),
    {
        Player {
            rect: Rect {
                x: field.width / 2 - PLAYER_WIDTH / 2,
                y: field.height - PLAYER_RAISE,
                w: PLAYER_WIDTH,
                h: PLAYER_HEIGHT,
            },
        }
    }

    /// Moves the paddle toward the pointer for `dt` microseconds and holds it
    /// to the field. It never moves vertically.
    pub fn update(&mut self, dt: u32, pointer_x: i64, field: Playfield)
        requires
            old(self).rect.wf(),
            field.wf(),
        ensures
            *final(self) == paddle_after(*old(self), dt as int, pointer_x as int, field),
            final(self).rect.wf(),
            old(self).rect.w <= field.width ==> 0 <= final(self).rect.x <= field.width
                - final(self).rect.w,
    {
        let centre: i128 = 2 * self.rect.x as i128 + self.rect.w as i128;
        let pointer: i128 = 2 * pointer_x as i128;
        let mut x_move: i64 = 0;
        if pointer < centre {
            x_move = x_move - 1;
        }
        if pointer > centre {
            x_move = x_move + 1;
        }
        let moved: i128 = self.rect.x as i128 + travel(x_move * UNIT, dt, PLAYER_SPEED);
        let mut x: i128 = moved;
        if x < 0 {
            x = 0;
        }
        if x > (field.width - self.rect.w) as i128 {
            x = (field.width - self.rect.w) as i128;
        }
        self.rect.x = x as i64;
    }
}

/// After an update the paddle lies within the field, wherever the field is at
/// least as wide as the paddle.
pub proof fn lemma_paddle_stays_in_field(p: Player, dt: int, pointer_x: int, field: Playfield)
    requires
        p.rect.wf(),
        field.wf(),
        p.rect.w <= field.width,
    ensures
        0 <= paddle_after(p, dt, pointer_x, field).rect.x <= field.width - p.rect.w,
        paddle_after(p, dt, pointer_x, field).rect.w == p.rect.w,
        paddle_after(p, dt, pointer_x, field).rect.y == p.rect.y,
{
}

/// How a block is shown: untouched, or damaged.
#[derive(Clone, Copy, Debug, PartialEq, Eq, Structural)]
pub enum BlockTier {
    Full,
    Damaged,
}

/// A block of the grid: a fixed rectangle and its remaining hit points.
#[derive(Clone, Copy, Debug, PartialEq, Eq, Structural)]
pub struct Block {
    pub rect: Rect,
    pub lives: i32,
}

impl Block {
    /// A fresh block with its top-left corner at `pos`.
    pub fn new(pos: Vec2) -> (b: Block)
        ensures
            b.rect == (Rect { x: pos.x, y: pos.y, w: BLOCK_WIDTH, h: BLOCK_HEIGHT }),
            b.lives == BLOCK_LIVES,
    {
        Block { rect: Rect { x: pos.x, y: pos.y, w: BLOCK_WIDTH, h: BLOCK_HEIGHT }, lives: 2 }
    }

    /// A block is alive while it has hit points left.
    pub open spec fn alive(self) -> bool {
        self.lives > 0
    }

    /// The block after one hit: one hit point fewer.
    pub open spec fn damaged(self) -> Block {
        Block { lives: (self.lives - 1) as i32, ..self }
    }

    pub open spec fn spec_tier(&self) -> BlockTier {
        if self.lives == BLOCK_LIVES {
            BlockTier::Full
        } else {
            BlockTier::Damaged
        }
    }

    /// How the block is shown, which depends on its hit points alone.
    #[verifier::when_used_as_spec(spec_tier)]
    pub fn tier(&self) -> (t: BlockTier)
        ensures
            t == self.spec_tier(),
    {
        if self.lives == 2 {
            BlockTier::Full
        } else {
            BlockTier::Damaged
        }
    }
}

/// A ball: its rectangle and its direction of travel.
#[derive(Clone, Copy, Debug, PartialEq, Eq, Structural)]
pub struct Ball {
    pub rect: Rect,
    pub vel: Vec2,
}

/// Whether `s` is the whole part of the square root of `n`.
pub open spec fn is_root(n: int, s: int) -> bool {
    0 <= s && s * s <= n < (s + 1) * (s + 1)
}

/// The whole part of the square root of `n`.
pub open spec fn root(n: int) -> int {
    choose|s: int| is_root(n, s)
}

/// A number has at most one whole root.
pub proof fn lemma_root_unique(n: int, s: int, t: int)
    requires
        is_root(n, s),
        is_root(n, t),
    ensures
        s == t,
{
    if s < t {
        assert((s + 1) * (s + 1) <= t * t) by (nonlinear_arith)
            requires
                0 <= s,
                s + 1 <= t,
        ;
    }
    if t < s {
        assert((t + 1) * (t + 1) <= s * s) by (nonlinear_arith)
            requires
                0 <= t,
                t + 1 <= s,
        ;
    }
}

/// Length, in thousandths, of the vector `(r, UNIT)`, rounded down.
pub open spec fn launch_length(r: int) -> int {
    root(r * r + UNIT * UNIT)
}

/// The direction of a ball that enters play with the horizontal draw `r`:
/// the vector `(r, UNIT)` scaled to length one, each component rounded
/// toward zero. The vertical component is positive.
pub open spec fn launch_velocity(r: int) -> Vec2 {
    Vec2 {
        x: signed(sign(r), magnitude(r) * UNIT / launch_length(r)) as i64,
        y: (UNIT * UNIT / launch_length(r)) as i64,
    }
}

/// The ball that enters play at `pos` with the horizontal draw `r`.
pub open spec fn launched(pos: Vec2, r: int) -> Ball {
    Ball {
        rect: Rect { x: pos.x, y: pos.y, w: BALL_SIZE, h: BALL_SIZE },
        vel: launch_velocity(r),
    }
}

/// The ball after `dt` microseconds of travel and the bounce off the left,
/// right and top walls. The position is not corrected at a wall, and nothing
/// happens at the bottom.
pub open spec fn ball_after(b: Ball, dt: int, field: Playfield) -> Ball {
    let x = confine(b.rect.x + displacement(b.vel.x as int, dt, BALL_SPEED as int));
    let y = confine(b.rect.y + displacement(b.vel.y as int, dt, BALL_SPEED as int));
    let vx: i64 = if x > field.width - b.rect.w {
        (-UNIT) as i64
    } else if x < 0 {
        UNIT
    } else {
        b.vel.x
    };
    let vy: i64 = if y < 0 {
        UNIT
    } else {
        b.vel.y
    };
    Ball { rect: Rect { x: x as i64, y: y as i64, ..b.rect }, vel: Vec2 { x: vx, y: vy } }
}

/// The whole root of a number between one and two million, found by
/// counting up from a thousand.
fn whole_root(n: u64) -> (s: u64)
    requires
        1_000_000 <= n <= 2_000_000,
    ensures
        s == root(n as int),
        1000 <= s <= 1414,
{
    let mut s: u64 = 1000;
    loop
        invariant
            1000 <= s <= 1414,
            s * s <= n,
            1_000_000 <= n <= 2_000_000,
        ensures
            n < (s + 1) * (s + 1),
        decreases 1500 - s,
    {
        assert((s + 1) * (s + 1) <= 1415 * 1415) by (nonlinear_arith)
            requires
                0 <= s <= 1414,
        ;
        if (s + 1) * (s + 1) > n {
            break ;
        }
        assert(s + 1 <= 1414) by (nonlinear_arith)
            requires
                (s + 1) * (s + 1) <= n,
                n <= 2_000_000,
                s >= 0,
        ;
        s = s + 1;
    }
    proof {
        assert(is_root(n as int, s as int));
        lemma_root_unique(n as int, s as int, root(n as int));
    }
    s
}

/// A draw from the generator behind `macroquad::rand::gen_range`. For whole
/// numbers that function scales a fraction in `[0, 1)` to the span and drops
/// what follows the point, so the draw lies between the two bounds; nothing
/// else is claimed of it.
#[verifier::external_body]
fn random_between(low: i64, high: i64) -> (r: i64)
    requires
        -1_000_000 <= low <= high <= 1_000_000,
    ensures
        low <= r <= high,
{
    macroquad::rand::gen_range(low, high)
}

impl Ball {
    /// The rectangle lies in the world and the velocity is a direction.
    pub open spec fn wf(self) -> bool {
        self.rect.wf() && self.vel.is_direction()
    }

    /// A ball at `pos` whose horizontal direction is drawn at random between
    /// minus one and one, with the vertical direction fixed at one before the
    /// two are scaled to unit length.
    pub fn new(pos: Vec2) -> (b: Ball)
        ensures
            exists|r: int| -UNIT <= r <= UNIT && b == launched(pos, r),
            b.rect == (Rect { x: pos.x, y: pos.y, w: BALL_SIZE, h: BALL_SIZE }),
            b.vel.is_direction(),
            b.vel.y > 0,
    {
        let r: i64 = random_between(-UNIT, UNIT);
        Ball::with_direction(pos, r)
    }

    /// A ball at `pos` whose direction is `(r, UNIT)` scaled to unit length.
    pub fn with_direction(pos: Vec2, r: i64) -> (b: Ball)
        requires
            -UNIT <= r <= UNIT,
        ensures
            b == launched(pos, r as int),
            b.vel.is_direction(),
            b.vel.y > 0,
    {
        let m: u64 = if r < 0 { (-r) as u64 } else { r as u64 };
        assert(m * m <= 1_000_000) by (nonlinear_arith)
            requires
                0 <= m <= 1000,
        ;
        assert(r * r == m * m) by (nonlinear_arith)
            requires
                m == r || m == -r,
        ;
        let n: u64 = whole_root(m * m + 1_000_000);
        let across: u64 = m * 1000 / n;
        let down: u64 = 1_000_000 / n;
        assert(across <= 1000 && 0 < down <= 1000) by (nonlinear_arith)
            requires
                across == (m * 1000) / (n as int),
                down == 1_000_000int / (n as int),
                0 <= m <= 1000,
                1000 <= n <= 1414,
        ;
        let vx: i64 = if r < 0 { -(across as i64) } else { across as i64 };
        Ball {
            rect: Rect { x: pos.x, y: pos.y, w: BALL_SIZE, h: BALL_SIZE },
            vel: Vec2 { x: vx, y: down as i64 },
        }
    }

    /// Moves the ball for `dt` microseconds and turns it back at the left,
    /// right and top walls.
    pub fn update(&mut self, dt: u32, field: Playfield)
        requires
            old(self).wf(),
            field.wf(),
        ensures
            *final(self) == ball_after(*old(self), dt as int, field),
            final(self).wf(),
    {
        self.rect.x = confined(self.rect.x as i128 + travel(self.vel.x, dt, BALL_SPEED));
        self.rect.y = confined(self.rect.y as i128 + travel(self.vel.y, dt, BALL_SPEED));
        if self.rect.x < 0 {
            self.vel.x = UNIT;
        }
        if self.rect.x > field.width - self.rect.w {
            self.vel.x = -UNIT;
        }
        if self.rect.y < 0 {
            self.vel.y = UNIT;
        }
    }
}

} // verus!
