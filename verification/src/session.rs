//! The session: score, lives, the entities in play and the state machine,
//! advanced one frame at a time.

use vstd::prelude::*;
use crate::entities::{
    ball_after, launched, paddle_after, paddle_at_start, Ball, Block, Playfield, Player, BALL_SIZE,
    BLOCK_LIVES,
};
use crate::geometry::{overlaps, resolve_collision, resolved_rect, resolved_vel, Rect, UNIT};
use crate::level::{grid, init_blocks, lemma_grid_is_sound, GRID_BLOCKS};

verus! {

/// Lives at the start of a session.
pub const START_LIVES: i32 = 3;

/// Points for a block at the moment it is destroyed.
pub const BLOCK_SCORE: u32 = 10;

/// The most balls that a session holds at once.
pub const MAX_BALLS: usize = 1_000_000_000;

/// The fewest hit points that a block may enter a frame with, so that a hit
/// by every ball still leaves a number that the counter holds.
pub const LEAST_LIVES: i32 = -1_000_000_000;

/// Where the game stands.
#[derive(Clone, Copy, Debug, PartialEq, Eq, Structural)]
pub enum GameState {
    Menu,
    Game,
    LevelCompleted,
    Dead,
}

/// What one frame brings from outside: the pointer's horizontal position in
/// nano-pixels, whether confirm was pressed in this frame, and the
/// microseconds since the last frame.
#[derive(Clone, Copy, Debug, PartialEq, Eq, Structural)]
pub struct Input {
    pub pointer_x: i64,
    pub confirm: bool,
    pub dt: u32,
}

/// All that a game in progress holds.
pub struct Session {
    pub state: GameState,
    pub score: u32,
    pub player_lives: i32,
    pub awaiting_ball: bool,
    pub player: Player,
    pub blocks: Vec<Block>,
    pub balls: Vec<Ball>,
}

/// A session as contracts see it.
pub struct SessionView {
    pub state: GameState,
    pub score: int,
    pub player_lives: int,
    pub awaiting_ball: bool,
    pub player: Player,
    pub blocks: Seq<Block>,
    pub balls: Seq<Ball>,
}

impl View for Session {
    type V = SessionView;

    open spec fn view(&self) -> SessionView {
        SessionView {
            state: self.state,
            score: self.score as int,
            player_lives: self.player_lives as int,
            awaiting_ball: self.awaiting_ball,
            player: self.player,
            blocks: self.blocks@,
            balls: self.balls@,
        }
    }
}

impl SessionView {
    /// Every rectangle lies in the world, every ball travels along a
    /// direction, there is room for one more ball where one is awaited, no
    /// block is further below zero than `LEAST_LIVES`, the score has room for
    /// the blocks that are left, and a session that is in play or about to be
    /// has a life to lose.
    pub open spec fn wf(self) -> bool {
        &&& self.player.rect.wf()
        &&& forall|k: int| 0 <= k < self.balls.len() ==> self.balls[k].wf()
        &&& self.balls.len() + (if self.awaiting_ball {
            1int
        } else {
            0int
        }) <= MAX_BALLS
        &&& forall|k: int| 0 <= k < self.blocks.len() ==> self.blocks[k].rect.wf()
        &&& forall|k: int| 0 <= k < self.blocks.len() ==> self.blocks[k].lives >= LEAST_LIVES
        &&& 0 <= self.score
        &&& self.score + BLOCK_SCORE * self.blocks.len() <= u32::MAX
        &&& (self.state == GameState::Menu || self.state == GameState::Game)
            ==> self.player_lives >= 1
        &&& i32::MIN <= self.player_lives <= i32::MAX
    }
}

/// A ball and the blocks after the ball has met some of them, with the
/// points that this earned.
pub struct Sweep {
    pub ball: Ball,
    pub blocks: Seq<Block>,
    pub gain: int,
}

/// The balls and the blocks after some of the balls have met the paddle and
/// the blocks, with the points that this earned.
pub struct Volley {
    pub balls: Seq<Ball>,
    pub blocks: Seq<Block>,
    pub gain: int,
}

/// The blocks that are alive.
pub open spec fn alive_count(blocks: Seq<Block>) -> int
    decreases blocks.len(),
{
    if blocks.len() == 0 {
        0
    } else {
        alive_count(blocks.drop_last()) + if blocks.last().alive() {
            1int
        } else {
            0int
        }
    }
}

/// The test that a block passes to stay in play.
pub open spec fn is_alive() -> spec_fn(Block) -> bool {
    |b: Block| b.alive()
}

/// The test that a ball passes to stay in play: it has not fallen past the
/// bottom of the field.
pub open spec fn in_field(field: Playfield) -> spec_fn(Ball) -> bool {
    |b: Ball| b.rect.y < field.height
}

/// The ball after its overlap with an obstacle, if any, is resolved.
pub open spec fn bounced(ball: Ball, obstacle: Rect) -> Ball {
    Ball {
        rect: resolved_rect(ball.rect, obstacle),
        vel: resolved_vel(ball.rect, ball.vel, obstacle),
    }
}

/// One ball against the first `n` blocks, in order. A block that the ball
/// overlaps is hit once, and earns its points in the hit that takes its last
/// hit point.
pub open spec fn sweep(ball: Ball, blocks: Seq<Block>, n: int) -> Sweep
    decreases n,
{
    if n <= 0 {
        Sweep { ball, blocks, gain: 0 }
    } else {
        let before = sweep(ball, blocks, n - 1);
        let block = before.blocks[n - 1];
        if overlaps(before.ball.rect, block.rect) {
            Sweep {
                ball: bounced(before.ball, block.rect),
                blocks: before.blocks.update(n - 1, block.damaged()),
                gain: before.gain + if block.lives == 1 {
                    BLOCK_SCORE as int
                } else {
                    0int
                },
            }
        } else {
            before
        }
    }
}

/// The first `n` balls, in order, each against the paddle and then against
/// every block.
pub open spec fn volley(balls: Seq<Ball>, paddle: Rect, blocks: Seq<Block>, n: int) -> Volley
    decreases n,
{
    if n <= 0 {
        Volley { balls, blocks, gain: 0 }
    } else {
        let before = volley(balls, paddle, blocks, n - 1);
        let swept = sweep(
            bounced(before.balls[n - 1], paddle),
            before.blocks,
            before.blocks.len() as int,
        );
        Volley {
            balls: before.balls.update(n - 1, swept.ball),
            blocks: swept.blocks,
            gain: before.gain + swept.gain,
        }
    }
}

/// Every ball after `dt` microseconds of travel.
pub open spec fn moved(balls: Seq<Ball>, dt: int, field: Playfield) -> Seq<Ball> {
    Seq::new(balls.len(), |i: int| ball_after(balls[i], dt, field))
}

/// A session in play after one frame of simulation: the paddle and the balls
/// move, overlaps are resolved and scored, balls below the field and blocks
/// without hit points leave, and the loss of the only ball costs a life.
pub open spec fn played(s: SessionView, input: Input, field: Playfield) -> SessionView {
    let player = paddle_after(s.player, input.dt as int, input.pointer_x as int, field);
    let flown = moved(s.balls, input.dt as int, field);
    let met = volley(flown, player.rect, s.blocks, flown.len() as int);
    let balls = met.balls.filter(in_field(field));
    let lost_last = met.balls.len() == 1 && balls.len() == 0;
    let lives = if lost_last {
        s.player_lives - 1
    } else {
        s.player_lives
    };
    let blocks = met.blocks.filter(is_alive());
    SessionView {
        state: if blocks.len() == 0 {
            GameState::LevelCompleted
        } else if lost_last && lives <= 0 {
            GameState::Dead
        } else {
            s.state
        },
        score: s.score + met.gain,
        player_lives: lives,
        awaiting_ball: s.awaiting_ball || (lost_last && lives > 0),
        player,
        blocks,
        balls,
    }
}

/// A session as it starts, with the horizontal draw `r` for its ball.
pub open spec fn fresh(field: Playfield, r: int) -> SessionView {
    SessionView {
        state: GameState::Menu,
        score: 0,
        player_lives: START_LIVES as int,
        awaiting_ball: false,
        player: paddle_at_start(field),
        blocks: grid(field),
        balls: seq![launched(field.spec_center(), r)],
    }
}

/// A session after one frame, whatever its state. `r` is the horizontal draw
/// for a ball that enters play in this frame, if one does.
pub open spec fn frame_result(s: SessionView, input: Input, field: Playfield, r: int)
    -> SessionView {
    match s.state {
        GameState::Menu => if input.confirm {
            SessionView { state: GameState::Game, ..s }
        } else {
            s
        },
        GameState::Game => if !s.awaiting_ball {
            played(s, input, field)
        } else if input.confirm {
            played(
                SessionView {
                    balls: s.balls.push(launched(field.spec_center(), r)),
                    awaiting_ball: false,
                    ..s
                },
                input,
                field,
            )
        } else {
            s
        },
        _ => if input.confirm {
            fresh(field, r)
        } else {
            s
        },
    }
}

/// Between none and all of the blocks are alive.
pub proof fn lemma_alive_count_bounds(blocks: Seq<Block>)
    ensures
        0 <= alive_count(blocks) <= blocks.len(),
    decreases blocks.len(),
{
    if blocks.len() > 0 {
        lemma_alive_count_bounds(blocks.drop_last());
    }
}

/// Replacing one block changes the count by what that block contributes.
pub proof fn lemma_alive_count_update(blocks: Seq<Block>, j: int, b: Block)
    requires
        0 <= j < blocks.len(),
    ensures
        alive_count(blocks.update(j, b)) == alive_count(blocks) - (if blocks[j].alive() {
            1int
        } else {
            0int
        }) + (if b.alive() {
            1int
        } else {
            0int
        }),
    decreases blocks.len(),
{
    let after = blocks.update(j, b);
    if j == blocks.len() - 1 {
        assert(after.drop_last() =~= blocks.drop_last());
    } else {
        lemma_alive_count_update(blocks.drop_last(), j, b);
        assert(after.drop_last() =~= blocks.drop_last().update(j, b));
    }
}

/// The blocks that stay in play are as many as were alive.
pub proof fn lemma_alive_count_kept(blocks: Seq<Block>)
    ensures
        blocks.filter(is_alive()).len() == alive_count(blocks),
    decreases blocks.len(),
{
    reveal(Seq::filter);
    if blocks.len() > 0 {
        lemma_alive_count_kept(blocks.drop_last());
    }
}

/// What one ball does to the blocks: none is added, removed or moved, those
/// not yet met are untouched, and the points earned are ten for each block
/// that was alive and no longer is.
pub proof fn lemma_sweep(ball: Ball, blocks: Seq<Block>, n: int)
    requires
        0 <= n <= blocks.len(),
        forall|k: int| 0 <= k < blocks.len() ==> blocks[k].lives > i32::MIN,
    ensures
        forall|k: int|
            0 <= k < blocks.len() ==> blocks[k].lives - 1 <= (#[trigger] sweep(
                ball,
                blocks,
                n,
            ).blocks[k]).lives <= blocks[k].lives,
        sweep(ball, blocks, n).blocks.len() == blocks.len(),
        sweep(ball, blocks, n).gain >= 0,
        sweep(ball, blocks, n).gain + BLOCK_SCORE * alive_count(sweep(ball, blocks, n).blocks)
            == BLOCK_SCORE * alive_count(blocks),
        forall|k: int|
            0 <= k < blocks.len() ==> (#[trigger] sweep(ball, blocks, n).blocks[k]).rect
                == blocks[k].rect,
        forall|k: int| n <= k < blocks.len() ==> #[trigger] sweep(ball, blocks, n).blocks[k] == blocks[k],
    decreases n,
{
    if n > 0 {
        lemma_sweep(ball, blocks, n - 1);
        let before = sweep(ball, blocks, n - 1);
        let block = before.blocks[n - 1];
        lemma_alive_count_update(before.blocks, n - 1, block.damaged());
    }
}

/// What a round of all balls does: no ball or block is added, removed or
/// moved out of its place, balls not yet played are untouched, and the points
/// earned are ten for each block that was alive and no longer is.
pub proof fn lemma_volley(balls: Seq<Ball>, paddle: Rect, blocks: Seq<Block>, n: int)
    requires
        0 <= n <= balls.len(),
        forall|k: int| 0 <= k < blocks.len() ==> blocks[k].lives - n >= i32::MIN,
    ensures
        forall|k: int|
            0 <= k < blocks.len() ==> blocks[k].lives - n <= (#[trigger] volley(
                balls,
                paddle,
                blocks,
                n,
            ).blocks[k]).lives <= blocks[k].lives,
        volley(balls, paddle, blocks, n).balls.len() == balls.len(),
        volley(balls, paddle, blocks, n).blocks.len() == blocks.len(),
        volley(balls, paddle, blocks, n).gain >= 0,
        volley(balls, paddle, blocks, n).gain + BLOCK_SCORE * alive_count(
            volley(balls, paddle, blocks, n).blocks,
        ) == BLOCK_SCORE * alive_count(blocks),
        forall|k: int|
            0 <= k < blocks.len() ==> (#[trigger] volley(balls, paddle, blocks, n).blocks[k]).rect
                == blocks[k].rect,
        forall|k: int|
            n <= k < balls.len() ==> #[trigger] volley(balls, paddle, blocks, n).balls[k]
                == balls[k],
    decreases n,
{
    if n > 0 {
        lemma_volley(balls, paddle, blocks, n - 1);
        let before = volley(balls, paddle, blocks, n - 1);
        lemma_sweep(bounced(before.balls[n - 1], paddle), before.blocks, before.blocks.len() as int);
    }
}

/// Moves every ball for `dt` microseconds.
fn move_balls(balls: &mut Vec<Ball>, dt: u32, field: Playfield)
    requires
        forall|k: int| 0 <= k < old(balls)@.len() ==> old(balls)@[k].wf(),
        field.wf(),
    ensures
        final(balls)@ == moved(old(balls)@, dt as int, field),
        forall|k: int| 0 <= k < final(balls)@.len() ==> final(balls)@[k].wf(),
{
    let mut i: usize = 0;
    while i < balls.len()
        invariant
            i <= balls@.len(),
            balls@.len() == old(balls)@.len(),
            field.wf(),
            forall|k: int| 0 <= k < i ==> balls@[k] == ball_after(old(balls)@[k], dt as int, field),
            forall|k: int| i <= k < balls@.len() ==> balls@[k] == old(balls)@[k],
            forall|k: int| 0 <= k < balls@.len() ==> balls@[k].wf(),
        decreases balls@.len() - i,
    {
        let mut ball = balls[i];
        ball.update(dt, field);
        balls.set(i, ball);
        i = i + 1;
    }
    assert(balls@ =~= moved(old(balls)@, dt as int, field));
}

/// Resolves one ball against every block in order, and returns the points
/// that this earns.
fn sweep_blocks(ball: &mut Ball, blocks: &mut Vec<Block>) -> (gain: u32)
    requires
        old(ball).wf(),
        forall|k: int| 0 <= k < old(blocks)@.len() ==> old(blocks)@[k].rect.wf(),
        forall|k: int| 0 <= k < old(blocks)@.len() ==> old(blocks)@[k].lives > i32::MIN,
        BLOCK_SCORE * alive_count(old(blocks)@) <= u32::MAX,
    ensures
        (Sweep { ball: *final(ball), blocks: final(blocks)@, gain: gain as int }) == sweep(
            *old(ball),
            old(blocks)@,
            old(blocks)@.len() as int,
        ),
        final(ball).wf(),
{
    let mut gain: u32 = 0;
    let mut j: usize = 0;
    while j < blocks.len()
        invariant
            j <= blocks@.len(),
            blocks@.len() == old(blocks)@.len(),
            (Sweep { ball: *ball, blocks: blocks@, gain: gain as int }) == sweep(
                *old(ball),
                old(blocks)@,
                j as int,
            ),
            ball.wf(),
            forall|k: int| 0 <= k < old(blocks)@.len() ==> old(blocks)@[k].rect.wf(),
            forall|k: int| 0 <= k < old(blocks)@.len() ==> old(blocks)@[k].lives > i32::MIN,
            BLOCK_SCORE * alive_count(old(blocks)@) <= u32::MAX,
        decreases blocks@.len() - j,
    {
        proof {
            lemma_sweep(*old(ball), old(blocks)@, j as int);
            lemma_sweep(*old(ball), old(blocks)@, j + 1);
            lemma_alive_count_bounds(sweep(*old(ball), old(blocks)@, j + 1).blocks);
        }
        let mut block = blocks[j];
        let mut rect = ball.rect;
        let mut vel = ball.vel;
        if resolve_collision(&mut rect, &mut vel, &block.rect) {
            ball.rect = rect;
            ball.vel = vel;
            if block.lives == 1 {
                gain = gain + BLOCK_SCORE;
            }
            block.lives = block.lives - 1;
            blocks.set(j, block);
        }
        j = j + 1;
    }
    gain
}

/// Resolves every ball against the paddle and then against every block, and
/// returns the points that this earns.
fn meet_all(balls: &mut Vec<Ball>, paddle: Rect, blocks: &mut Vec<Block>) -> (gain: u32)
    requires
        forall|k: int| 0 <= k < old(balls)@.len() ==> old(balls)@[k].wf(),
        forall|k: int| 0 <= k < old(blocks)@.len() ==> old(blocks)@[k].rect.wf(),
        paddle.wf(),
        forall|k: int|
            0 <= k < old(blocks)@.len() ==> old(blocks)@[k].lives - old(balls)@.len() >= i32::MIN,
        BLOCK_SCORE * alive_count(old(blocks)@) <= u32::MAX,
    ensures
        (Volley { balls: final(balls)@, blocks: final(blocks)@, gain: gain as int }) == volley(
            old(balls)@,
            paddle,
            old(blocks)@,
            old(balls)@.len() as int,
        ),
        forall|k: int| 0 <= k < final(balls)@.len() ==> final(balls)@[k].wf(),
        forall|k: int| 0 <= k < final(blocks)@.len() ==> final(blocks)@[k].rect.wf(),
{
    let mut gain: u32 = 0;
    let mut i: usize = 0;
    proof {
        lemma_volley(old(balls)@, paddle, old(blocks)@, 0);
    }
    while i < balls.len()
        invariant
            i <= balls@.len(),
            balls@.len() == old(balls)@.len(),
            blocks@.len() == old(blocks)@.len(),
            (Volley { balls: balls@, blocks: blocks@, gain: gain as int }) == volley(
                old(balls)@,
                paddle,
                old(blocks)@,
                i as int,
            ),
            forall|k: int| 0 <= k < balls@.len() ==> balls@[k].wf(),
            forall|k: int| 0 <= k < old(blocks)@.len() ==> old(blocks)@[k].rect.wf(),
            forall|k: int|
                0 <= k < old(blocks)@.len() ==> old(blocks)@[k].lives - old(balls)@.len()
                    >= i32::MIN,
            paddle.wf(),
            BLOCK_SCORE * alive_count(old(blocks)@) <= u32::MAX,
        decreases balls@.len() - i,
    {
        proof {
            lemma_volley(old(balls)@, paddle, old(blocks)@, i as int);
            lemma_volley(old(balls)@, paddle, old(blocks)@, i + 1);
            lemma_alive_count_bounds(blocks@);
            lemma_alive_count_bounds(volley(old(balls)@, paddle, old(blocks)@, i + 1).blocks);
            assert forall|k: int| 0 <= k < blocks@.len() implies blocks@[k].rect.wf()
                && blocks@[k].lives > i32::MIN by {
                assert(volley(old(balls)@, paddle, old(blocks)@, i as int).blocks[k].rect == old(
                    blocks,
                )@[k].rect);
            }
        }
        let mut ball = balls[i];
        let mut rect = ball.rect;
        let mut vel = ball.vel;
        resolve_collision(&mut rect, &mut vel, &paddle);
        ball.rect = rect;
        ball.vel = vel;
        let earned: u32 = sweep_blocks(&mut ball, blocks);
        gain = gain + earned;
        balls.set(i, ball);
        i = i + 1;
    }
    proof {
        lemma_volley(old(balls)@, paddle, old(blocks)@, i as int);
        assert forall|k: int| 0 <= k < blocks@.len() implies blocks@[k].rect.wf() by {
            assert(volley(old(balls)@, paddle, old(blocks)@, i as int).blocks[k].rect == old(
                blocks,
            )@[k].rect);
        }
    }
    gain
}

/// The balls that have not fallen past the bottom of the field, in order.
fn keep_in_field(balls: &Vec<Ball>, field: Playfield) -> (kept: Vec<Ball>)
    ensures
        kept@ == balls@.filter(in_field(field)),
        kept@.len() <= balls@.len(),
        (forall|k: int| 0 <= k < balls@.len() ==> balls@[k].wf()) ==> (forall|k: int|
            0 <= k < kept@.len() ==> kept@[k].wf()),
{
    let mut kept: Vec<Ball> = Vec::new();
    let mut i: usize = 0;
    proof {
        reveal(Seq::filter);
        assert(balls@.take(0) =~= Seq::<Ball>::empty());
    }
    while i < balls.len()
        invariant
            i <= balls@.len(),
            kept@ == balls@.take(i as int).filter(in_field(field)),
            kept@.len() <= i,
            (forall|k: int| 0 <= k < balls@.len() ==> balls@[k].wf()) ==> (forall|k: int|
                0 <= k < kept@.len() ==> kept@[k].wf()),
        decreases balls@.len() - i,
    {
        proof {
            reveal(Seq::filter);
            assert(balls@.take(i + 1).drop_last() =~= balls@.take(i as int));
        }
        let ball = balls[i];
        if ball.rect.y < field.height {
            kept.push(ball);
        }
        i = i + 1;
    }
    assert(balls@.take(balls@.len() as int) =~= balls@);
    kept
}

/// The blocks that have hit points left, in order.
fn keep_alive(blocks: &Vec<Block>) -> (kept: Vec<Block>)
    ensures
        kept@ == blocks@.filter(is_alive()),
        (forall|k: int| 0 <= k < blocks@.len() ==> blocks@[k].rect.wf()) ==> (forall|k: int|
            0 <= k < kept@.len() ==> kept@[k].rect.wf()),
        forall|k: int| 0 <= k < kept@.len() ==> kept@[k].alive(),
{
    let mut kept: Vec<Block> = Vec::new();
    let mut i: usize = 0;
    proof {
        reveal(Seq::filter);
        assert(blocks@.take(0) =~= Seq::<Block>::empty());
    }
    while i < blocks.len()
        invariant
            i <= blocks@.len(),
            kept@ == blocks@.take(i as int).filter(is_alive()),
            (forall|k: int| 0 <= k < blocks@.len() ==> blocks@[k].rect.wf()) ==> (forall|k: int|
                0 <= k < kept@.len() ==> kept@[k].rect.wf()),
            forall|k: int| 0 <= k < kept@.len() ==> kept@[k].alive(),
        decreases blocks@.len() - i,
    {
        proof {
            reveal(Seq::filter);
            assert(blocks@.take(i + 1).drop_last() =~= blocks@.take(i as int));
        }
        let block = blocks[i];
        if block.lives > 0 {
            kept.push(block);
        }
        i = i + 1;
    }
    assert(blocks@.take(blocks@.len() as int) =~= blocks@);
    kept
}

/// Puts the parts of a session back to their start: no points, three lives,
/// the paddle in its place, the full grid, one ball at the centre of the
/// field and no wait for a ball.
pub fn reset_game(
    score: &mut u32,
    player_lives: &mut i32,
    blocks: &mut Vec<Block>,
    balls: &mut Vec<Ball>,
    player: &mut Player,
    awaiting_ball: &mut bool,
    field: Playfield,
)
    requires
        field.wf(),
    ensures
        *final(score) == 0,
        *final(player_lives) == START_LIVES,
        final(blocks)@ == grid(field),
        exists|r: int|
            -UNIT <= r <= UNIT && final(balls)@ == seq![launched(field.spec_center(), r)],
        final(balls)@.len() == 1,
        final(balls)@[0].wf(),
        *final(player) == paddle_at_start(field),
        final(player).rect.wf(),
        !*final(awaiting_ball),
{
    *player = Player::new(field);
    *score = 0;
    *player_lives = START_LIVES;
    balls.clear();
    blocks.clear();
    init_blocks(blocks, field);
    *awaiting_ball = false;
    let ball = Ball::new(field.center());
    balls.push(ball);
    proof {
        let r = choose|r: int| -UNIT <= r <= UNIT && ball == launched(field.spec_center(), r);
        assert(balls@ =~= seq![launched(field.spec_center(), r)]);
        assert(blocks@ =~= grid(field));
    }
}

impl Session {
    /// The session is sound, as its view says.
    pub open spec fn wf(&self) -> bool {
        self@.wf()
    }

    /// A session at its start, in the menu.
    pub fn new(field: Playfield) -> (s: Session)
        requires
            field.wf(),
        ensures
            exists|r: int| -UNIT <= r <= UNIT && s@ == fresh(field, r),
            s.wf(),
    {
        let mut score: u32 = 0;
        let mut player_lives: i32 = START_LIVES;
        let mut blocks: Vec<Block> = Vec::new();
        let mut balls: Vec<Ball> = Vec::new();
        let mut player = Player::new(field);
        let mut awaiting_ball = false;
        reset_game(
            &mut score,
            &mut player_lives,
            &mut blocks,
            &mut balls,
            &mut player,
            &mut awaiting_ball,
            field,
        );
        let s = Session {
            state: GameState::Menu,
            score,
            player_lives,
            awaiting_ball,
            player,
            blocks,
            balls,
        };
        proof {
            let r = choose|r: int|
                -UNIT <= r <= UNIT && balls@ == seq![launched(field.spec_center(), r)];
            assert(s@ == fresh(field, r));
            assert forall|k: int| 0 <= k < s.blocks@.len() implies s.blocks@[k].rect.wf() by {
                lemma_grid_is_sound(field, k);
            }
        }
        s
    }

    /// One frame of simulation for a session in play.
    pub fn play(&mut self, input: Input, field: Playfield)
        requires
            old(self).wf(),
            field.wf(),
            old(self).state == GameState::Game,
        ensures
            final(self)@ == played(old(self)@, input, field),
            final(self).wf(),
    {
        self.player.update(input.dt, input.pointer_x, field);
        move_balls(&mut self.balls, input.dt, field);
        let ghost flown = self.balls@;
        proof {
            lemma_alive_count_bounds(self.blocks@);
            lemma_volley(flown, self.player.rect, self.blocks@, flown.len() as int);
        }
        let gain: u32 = meet_all(&mut self.balls, self.player.rect, &mut self.blocks);
        proof {
            lemma_alive_count_bounds(self.blocks@);
            lemma_alive_count_kept(self.blocks@);
        }
        self.score = self.score + gain;
        let balls_len: usize = self.balls.len();
        let kept = keep_in_field(&self.balls, field);
        let lost_last: bool = balls_len == 1 && kept.len() == 0;
        self.balls = kept;
        if lost_last {
            self.player_lives = self.player_lives - 1;
            if self.player_lives <= 0 {
                self.state = GameState::Dead;
            } else {
                self.awaiting_ball = true;
            }
        }
        let alive = keep_alive(&self.blocks);
        self.blocks = alive;
        if self.blocks.len() == 0 {
            self.state = GameState::LevelCompleted;
        }
    }

    /// One frame of the whole game. In the menu a confirm starts play. In
    /// play the simulation runs, unless the session waits for a ball: then
    /// nothing moves until a confirm puts a new ball at the centre of the
    /// field, and play goes on in that same frame. Once the level is
    /// completed or the last life lost, a confirm leads back to the menu
    /// with everything reset.
    pub fn frame(&mut self, input: Input, field: Playfield)
        requires
            old(self).wf(),
            field.wf(),
        ensures
            exists|r: int|
                -UNIT <= r <= UNIT && final(self)@ == frame_result(old(self)@, input, field, r),
            final(self).wf(),
    {
        match self.state {
            GameState::Menu => {
                if input.confirm {
                    self.state = GameState::Game;
                }
                assert(self@ == frame_result(old(self)@, input, field, 0));
            },
            GameState::Game => {
                if !self.awaiting_ball {
                    self.play(input, field);
                    assert(self@ == frame_result(old(self)@, input, field, 0));
                } else if input.confirm {
                    let ball = Ball::new(field.center());
                    let ghost r = choose|r: int|
                        -UNIT <= r <= UNIT && ball == launched(field.spec_center(), r);
                    self.balls.push(ball);
                    self.awaiting_ball = false;
                    self.play(input, field);
                    assert(self@ == frame_result(old(self)@, input, field, r));
                } else {
                    assert(self@ == frame_result(old(self)@, input, field, 0));
                }
            },
            _ => {
                if input.confirm {
                    self.state = GameState::Menu;
                    reset_game(
                        &mut self.score,
                        &mut self.player_lives,
                        &mut self.blocks,
                        &mut self.balls,
                        &mut self.player,
                        &mut self.awaiting_ball,
                        field,
                    );
                    proof {
                        let r = choose|r: int|
                            -UNIT <= r <= UNIT && self.balls@ == seq![
                                launched(field.spec_center(), r),
                            ];
                        assert(self@ == frame_result(old(self)@, input, field, r));
                        assert forall|k: int| 0 <= k < self.blocks@.len() implies self.blocks@[k].rect.wf() by {
                            lemma_grid_is_sound(field, k);
                        }
                    }
                } else {
                    assert(self@ == frame_result(old(self)@, input, field, 0));
                }
            },
        }
    }
}

/// In one frame of play the score grows by ten for each block that was alive
/// and has left, and by nothing else; every block that stays is alive.
pub proof fn lemma_score_counts_destroyed_blocks(s: SessionView, input: Input, field: Playfield)
    requires
        s.wf(),
    ensures
        played(s, input, field).score == s.score + BLOCK_SCORE * (alive_count(s.blocks) - played(
            s,
            input,
            field,
        ).blocks.len()),
        played(s, input, field).blocks.len() <= alive_count(s.blocks) <= s.blocks.len(),
        played(s, input, field).score >= s.score,
        forall|k: int|
            0 <= k < played(s, input, field).blocks.len() ==> (#[trigger] played(
                s,
                input,
                field,
            ).blocks[k]).alive(),
{
    let player = paddle_after(s.player, input.dt as int, input.pointer_x as int, field);
    let flown = moved(s.balls, input.dt as int, field);
    let met = volley(flown, player.rect, s.blocks, flown.len() as int);
    lemma_volley(flown, player.rect, s.blocks, flown.len() as int);
    lemma_alive_count_kept(met.blocks);
    lemma_alive_count_bounds(met.blocks);
    lemma_alive_count_bounds(s.blocks);
    assert forall|k: int| 0 <= k < played(s, input, field).blocks.len() implies (#[trigger] played(
        s,
        input,
        field,
    ).blocks[k]).alive() by {
        met.blocks.lemma_filter_pred(is_alive(), k);
    }
}

/// A life is lost in a frame of play exactly where the session had one ball
/// and that ball left the field. With two balls, the loss of one costs
/// nothing.
pub proof fn lemma_last_ball_rule(s: SessionView, input: Input, field: Playfield)
    requires
        s.wf(),
    ensures
        played(s, input, field).balls.len() <= s.balls.len(),
        s.balls.len() == 1 && played(s, input, field).balls.len() == 0 ==> played(
            s,
            input,
            field,
        ).player_lives == s.player_lives - 1,
        !(s.balls.len() == 1 && played(s, input, field).balls.len() == 0) ==> played(
            s,
            input,
            field,
        ).player_lives == s.player_lives,
{
    let player = paddle_after(s.player, input.dt as int, input.pointer_x as int, field);
    let flown = moved(s.balls, input.dt as int, field);
    let met = volley(flown, player.rect, s.blocks, flown.len() as int);
    lemma_volley(flown, player.rect, s.blocks, flown.len() as int);
    met.balls.lemma_filter_len(in_field(field));
}

/// The level is completed in the very frame that leaves no block in play.
pub proof fn lemma_level_completes_at_once(s: SessionView, input: Input, field: Playfield)
    requires
        s.state == GameState::Game,
    ensures
        played(s, input, field).blocks.len() == 0 <==> played(s, input, field).state
            == GameState::LevelCompleted,
{
}

/// A confirm after the level is completed or the last life is lost resets
/// everything: the menu, no points, three lives, one ball at the centre of
/// the field, the full grid of fresh blocks, and no wait for a ball.
pub proof fn lemma_reset_is_complete(s: SessionView, input: Input, field: Playfield, r: int)
    requires
        s.state == GameState::LevelCompleted || s.state == GameState::Dead,
        input.confirm,
    ensures
        frame_result(s, input, field, r) == fresh(field, r),
        fresh(field, r).state == GameState::Menu,
        fresh(field, r).score == 0,
        fresh(field, r).player_lives == 3,
        !fresh(field, r).awaiting_ball,
        fresh(field, r).balls.len() == 1,
        fresh(field, r).balls[0].rect == (Rect {
            x: field.spec_center().x,
            y: field.spec_center().y,
            w: BALL_SIZE,
            h: BALL_SIZE,
        }),
        fresh(field, r).blocks.len() == GRID_BLOCKS,
        forall|k: int|
            0 <= k < GRID_BLOCKS ==> (#[trigger] fresh(field, r).blocks[k]).lives == BLOCK_LIVES,
{
}

} // verus!
