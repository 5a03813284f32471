use breakout::entities::{Ball, Block, Playfield, Player};
use breakout::geometry::{Rect, Vec2, PIXEL};
use breakout::session::{reset_game, GameState, Input, Session};

fn px(v: i64) -> i64 {
    v * PIXEL
}

fn field() -> Playfield {
    Playfield::new(px(800), px(600))
}

fn still() -> Input {
    Input { pointer_x: px(400), confirm: false, dt: 0 }
}

fn confirm() -> Input {
    Input { pointer_x: px(400), confirm: true, dt: 0 }
}

fn ball(x: i64, y: i64, vx: i64, vy: i64) -> Ball {
    Ball { rect: Rect::new(px(x), px(y), px(50), px(50)), vel: Vec2::new(vx, vy) }
}

fn block(x: i64, y: i64, lives: i32) -> Block {
    Block { rect: Rect::new(px(x), px(y), px(100), px(40)), lives }
}

fn playing(blocks: Vec<Block>, balls: Vec<Ball>) -> Session {
    Session {
        state: GameState::Game,
        score: 0,
        player_lives: 3,
        awaiting_ball: false,
        player: Player::new(field()),
        blocks,
        balls,
    }
}

#[test]
fn session_starts_in_the_menu() {
    let s = Session::new(field());
    assert_eq!(s.state, GameState::Menu);
    assert_eq!(s.score, 0);
    assert_eq!(s.player_lives, 3);
    assert!(!s.awaiting_ball);
    assert_eq!(s.player, Player::new(field()));
    assert_eq!(s.blocks.len(), 36);
    assert_eq!(s.balls.len(), 1);
    assert_eq!(s.balls[0].rect, Rect::new(px(400), px(300), px(50), px(50)));
}

#[test]
fn menu_waits_for_confirm() {
    let mut s = Session::new(field());
    s.frame(Input { pointer_x: 0, confirm: false, dt: 16_000 }, field());
    assert_eq!(s.state, GameState::Menu);
    assert_eq!(s.player, Player::new(field()));
    assert_eq!(s.balls[0].rect, Rect::new(px(400), px(300), px(50), px(50)));
    s.frame(Input { pointer_x: 0, confirm: true, dt: 16_000 }, field());
    assert_eq!(s.state, GameState::Game);
    assert_eq!(s.player, Player::new(field()));
    assert_eq!(s.balls[0].rect, Rect::new(px(400), px(300), px(50), px(50)));
    s.frame(Input { pointer_x: 0, confirm: false, dt: 10_000 }, field());
    assert_eq!(s.player.rect.x, px(318));
    assert!(s.balls[0].rect.y > px(300));
}

#[test]
fn block_takes_two_hits_and_scores_once() {
    let mut s = playing(vec![block(0, 0, 2), block(600, 0, 2)], vec![ball(0, 30, 0, -1000)]);
    s.play(still(), field());
    assert_eq!(s.blocks.len(), 2);
    assert_eq!(s.blocks[0].lives, 1);
    assert_eq!(s.blocks[1].lives, 2);
    assert_eq!(s.score, 0);
    assert_eq!(s.balls[0], ball(0, 40, 0, 1000));
    assert_eq!(s.state, GameState::Game);

    s.play(still(), field());
    assert_eq!(s.score, 10);
    assert_eq!(s.blocks, vec![block(600, 0, 2)]);
    assert_eq!(s.state, GameState::Game);

    s.play(still(), field());
    assert_eq!(s.score, 10);
    assert_eq!(s.blocks, vec![block(600, 0, 2)]);
}

#[test]
fn two_balls_on_one_block_score_it_once() {
    let mut s = playing(
        vec![block(0, 0, 1), block(600, 0, 2)],
        vec![ball(0, 30, 0, -1000), ball(40, 30, 0, -1000)],
    );
    s.play(still(), field());
    assert_eq!(s.score, 10);
    assert_eq!(s.blocks, vec![block(600, 0, 2)]);
    assert_eq!(s.balls, vec![ball(0, 40, 0, 1000), ball(40, 40, 0, 1000)]);
}

#[test]
fn ball_bounces_off_the_paddle_without_score() {
    let mut s = playing(vec![block(0, 0, 2)], vec![ball(350, 455, 600, 800)]);
    s.play(still(), field());
    assert_eq!(s.balls, vec![ball(350, 450, 600, -800)]);
    assert_eq!(s.score, 0);
    assert_eq!(s.player_lives, 3);
    assert_eq!(s.blocks, vec![block(0, 0, 2)]);
}

#[test]
fn losing_one_of_two_balls_costs_nothing() {
    let mut s = playing(vec![block(0, 0, 2)], vec![ball(100, 700, 0, 1000), ball(100, 100, 0, 1000)]);
    s.play(still(), field());
    assert_eq!(s.balls, vec![ball(100, 100, 0, 1000)]);
    assert_eq!(s.player_lives, 3);
    assert!(!s.awaiting_ball);
    assert_eq!(s.state, GameState::Game);
}

#[test]
fn losing_the_last_ball_costs_a_life() {
    let mut s = playing(vec![block(0, 0, 2)], vec![ball(100, 700, 0, 1000)]);
    s.play(still(), field());
    assert!(s.balls.is_empty());
    assert_eq!(s.player_lives, 2);
    assert!(s.awaiting_ball);
    assert_eq!(s.state, GameState::Game);
}

#[test]
fn ball_at_the_bottom_edge_is_lost() {
    let mut s = playing(vec![block(0, 0, 2)], vec![ball(100, 600, 0, 1000)]);
    s.play(still(), field());
    assert!(s.balls.is_empty());
    let mut s = playing(vec![block(0, 0, 2)], vec![ball(100, 599, 0, 1000)]);
    s.play(still(), field());
    assert_eq!(s.balls.len(), 1);
}

#[test]
fn losing_both_of_two_balls_costs_nothing() {
    let mut s = playing(vec![block(0, 0, 2)], vec![ball(100, 700, 0, 1000), ball(200, 700, 0, 1000)]);
    s.play(still(), field());
    assert!(s.balls.is_empty());
    assert_eq!(s.player_lives, 3);
    assert!(!s.awaiting_ball);
}

#[test]
fn waiting_for_a_ball_pauses_play() {
    let mut s = playing(vec![block(0, 0, 2)], vec![]);
    s.awaiting_ball = true;
    s.player_lives = 2;
    s.frame(Input { pointer_x: 0, confirm: false, dt: 100_000 }, field());
    assert_eq!(s.player, Player::new(field()));
    assert!(s.balls.is_empty());
    assert!(s.awaiting_ball);
    assert_eq!(s.state, GameState::Game);

    s.frame(confirm(), field());
    assert!(!s.awaiting_ball);
    assert_eq!(s.balls.len(), 1);
    assert_eq!(s.balls[0].rect, Rect::new(px(400), px(300), px(50), px(50)));
    assert_eq!(s.player_lives, 2);
}

#[test]
fn last_life_lost_ends_the_game() {
    let mut s = playing(vec![block(0, 0, 2)], vec![ball(100, 700, 0, 1000)]);
    s.player_lives = 1;
    s.frame(still(), field());
    assert_eq!(s.player_lives, 0);
    assert_eq!(s.state, GameState::Dead);
    assert!(!s.awaiting_ball);

    s.frame(Input { pointer_x: 0, confirm: false, dt: 100_000 }, field());
    assert_eq!(s.state, GameState::Dead);
    assert_eq!(s.player, Player::new(field()));
}

#[test]
fn last_block_cleared_completes_the_level_at_once() {
    let mut s = playing(vec![block(0, 0, 1)], vec![ball(0, 30, 0, -1000)]);
    s.frame(still(), field());
    assert!(s.blocks.is_empty());
    assert_eq!(s.score, 10);
    assert_eq!(s.state, GameState::LevelCompleted);
}

#[test]
fn level_completion_outranks_death() {
    let mut s = playing(vec![block(0, 0, 0)], vec![ball(100, 700, 0, 1000)]);
    s.player_lives = 1;
    s.frame(still(), field());
    assert_eq!(s.player_lives, 0);
    assert_eq!(s.state, GameState::LevelCompleted);
    assert_eq!(s.score, 0);
}

#[test]
fn confirm_after_the_end_resets_everything() {
    let mut s = playing(vec![block(0, 0, 1)], vec![ball(100, 100, 0, 1000), ball(1, 1, 0, 1000)]);
    s.state = GameState::Dead;
    s.score = 120;
    s.player_lives = 0;
    s.awaiting_ball = true;
    s.player.rect.x = 0;
    s.frame(confirm(), field());
    assert_eq!(s.state, GameState::Menu);
    assert_eq!(s.score, 0);
    assert_eq!(s.player_lives, 3);
    assert!(!s.awaiting_ball);
    assert_eq!(s.player, Player::new(field()));
    assert_eq!(s.blocks.len(), 36);
    assert!(s.blocks.iter().all(|b| b.lives == 2));
    assert_eq!(s.balls.len(), 1);
    assert_eq!(s.balls[0].rect, Rect::new(px(400), px(300), px(50), px(50)));

    let mut won = playing(vec![], vec![]);
    won.state = GameState::LevelCompleted;
    won.score = 360;
    won.frame(confirm(), field());
    assert_eq!(won.state, GameState::Menu);
    assert_eq!(won.score, 0);
    assert_eq!(won.blocks.len(), 36);
    assert_eq!(won.balls.len(), 1);
}

#[test]
fn reset_game_restores_each_part() {
    let mut score: u32 = 50;
    let mut lives: i32 = 1;
    let mut blocks = vec![block(0, 0, 1)];
    let mut balls = vec![ball(1, 1, 0, 1000), ball(2, 2, 0, 1000)];
    let mut player = Player { rect: Rect::new(0, 0, px(150), px(40)) };
    let mut awaiting = true;
    reset_game(&mut score, &mut lives, &mut blocks, &mut balls, &mut player, &mut awaiting, field());
    assert_eq!(score, 0);
    assert_eq!(lives, 3);
    assert_eq!(blocks.len(), 36);
    assert_eq!(blocks[0], Block::new(Vec2::new(px(85), px(50))));
    assert_eq!(balls.len(), 1);
    assert_eq!(balls[0].rect, Rect::new(px(400), px(300), px(50), px(50)));
    assert!(balls[0].vel.y > 0);
    assert_eq!(player, Player::new(field()));
    assert!(!awaiting);
}

#[test]
fn whole_level_scores_ten_per_block() {
    let mut s = Session::new(field());
    s.balls = vec![];
    s.state = GameState::Game;
    let mut frames = 0;
    while s.state == GameState::Game && frames < 200 {
        let target = s.blocks[0].rect;
        s.balls = vec![Ball { rect: Rect::new(target.x, target.y + px(30), px(50), px(50)), vel: Vec2::new(0, -1000) }];
        let before = s.score;
        let alive = s.blocks.len() as u32;
        s.play(still(), field());
        assert_eq!(s.score, before + 10 * (alive - s.blocks.len() as u32));
        frames += 1;
    }
    assert_eq!(s.state, GameState::LevelCompleted);
    assert_eq!(s.score, 360);
    assert!(s.blocks.is_empty());
}
