use breakout::entities::{Ball, Block, BlockTier, Playfield, Player, BALL_SIZE};
use breakout::geometry::{Rect, Vec2, PIXEL};
use breakout::level::init_blocks;

fn px(v: i64) -> i64 {
    v * PIXEL
}

fn field() -> Playfield {
    Playfield::new(px(800), px(600))
}

#[test]
fn paddle_starts_centred_near_the_bottom() {
    let p = Player::new(field());
    assert_eq!(p.rect, Rect::new(px(325), px(500), px(150), px(40)));
}

#[test]
fn paddle_moves_toward_the_pointer() {
    let mut p = Player::new(field());
    p.update(10_000, px(700), field());
    assert_eq!(p.rect, Rect::new(px(332), px(500), px(150), px(40)));
    p.update(20_000, px(0), field());
    assert_eq!(p.rect.x, px(318));
}

#[test]
fn paddle_rests_under_a_centred_pointer() {
    let mut p = Player::new(field());
    p.update(1_000_000, px(400), field());
    assert_eq!(p.rect.x, px(325));
}

#[test]
fn paddle_is_held_to_the_field() {
    let mut p = Player::new(field());
    p.update(10_000_000, px(799), field());
    assert_eq!(p.rect.x, px(650));
    p.update(u32::MAX, i64::MIN, field());
    assert_eq!(p.rect.x, 0);
    p.update(u32::MAX, i64::MAX, field());
    assert_eq!(p.rect.x, px(650));
    assert_eq!(p.rect.y, px(500));
}

#[test]
fn paddle_wider_than_the_field_ends_left_of_it() {
    let narrow = Playfield::new(px(100), px(600));
    let mut p = Player { rect: Rect::new(0, px(500), px(150), px(40)) };
    p.update(10_000, px(500), narrow);
    assert_eq!(p.rect.x, px(-50));
}

#[test]
fn block_starts_with_two_lives() {
    let b = Block::new(Vec2::new(px(85), px(50)));
    assert_eq!(b.rect, Rect::new(px(85), px(50), px(100), px(40)));
    assert_eq!(b.lives, 2);
}

#[test]
fn block_tier_follows_lives() {
    let mut b = Block::new(Vec2::new(0, 0));
    assert_eq!(b.tier(), BlockTier::Full);
    b.lives = 1;
    assert_eq!(b.tier(), BlockTier::Damaged);
    b.lives = 0;
    assert_eq!(b.tier(), BlockTier::Damaged);
}

#[test]
fn launch_direction_is_scaled_to_unit_length() {
    let pos = Vec2::new(px(400), px(300));
    assert_eq!(Ball::with_direction(pos, 0).vel, Vec2::new(0, 1000));
    assert_eq!(Ball::with_direction(pos, 750).vel, Vec2::new(600, 800));
    assert_eq!(Ball::with_direction(pos, -750).vel, Vec2::new(-600, 800));
    assert_eq!(Ball::with_direction(pos, 1000).vel, Vec2::new(707, 707));
    assert_eq!(Ball::with_direction(pos, -1000).vel, Vec2::new(-707, 707));
    assert_eq!(Ball::with_direction(pos, 1).vel, Vec2::new(1, 1000));
    assert_eq!(
        Ball::with_direction(pos, 500).rect,
        Rect::new(px(400), px(300), BALL_SIZE, BALL_SIZE)
    );
}

#[test]
fn new_ball_draws_its_direction() {
    let pos = Vec2::new(px(400), px(300));
    let mut seen: Vec<i64> = Vec::new();
    for _ in 0..50 {
        let b = Ball::new(pos);
        assert_eq!(b.rect, Rect::new(px(400), px(300), px(50), px(50)));
        assert!(b.vel.y > 0 && b.vel.y <= 1000);
        assert!(-1000 <= b.vel.x && b.vel.x <= 1000);
        let length = b.vel.x * b.vel.x + b.vel.y * b.vel.y;
        assert!(990_000 <= length && length <= 1_002_000);
        if !seen.contains(&b.vel.x) {
            seen.push(b.vel.x);
        }
    }
    assert!(seen.len() > 1);
    assert!(seen.iter().any(|x| *x != -1000 && *x != 1000));
}

#[test]
fn ball_travels_by_direction_time_and_speed() {
    let mut b = Ball { rect: Rect::new(px(100), px(100), px(50), px(50)), vel: Vec2::new(600, 800) };
    b.update(16_000, field());
    assert_eq!(b.rect, Rect::new(103_840_000_000, 105_120_000_000, px(50), px(50)));
    assert_eq!(b.vel, Vec2::new(600, 800));
    b.update(0, field());
    assert_eq!(b.rect, Rect::new(103_840_000_000, 105_120_000_000, px(50), px(50)));
}

#[test]
fn ball_turns_back_at_three_walls() {
    let mut left = Ball { rect: Rect::new(px(1), px(100), px(50), px(50)), vel: Vec2::new(-1000, 0) };
    left.update(10_000, field());
    assert_eq!(left.rect.x, px(-3));
    assert_eq!(left.vel, Vec2::new(1000, 0));

    let mut right = Ball { rect: Rect::new(px(749), px(100), px(50), px(50)), vel: Vec2::new(600, 0) };
    right.update(10_000, field());
    assert_eq!(right.rect.x, 751_400_000_000);
    assert_eq!(right.vel, Vec2::new(-1000, 0));

    let mut top = Ball { rect: Rect::new(px(100), px(1), px(50), px(50)), vel: Vec2::new(0, -800) };
    top.update(10_000, field());
    assert_eq!(top.rect.y, -2_200_000_000);
    assert_eq!(top.vel, Vec2::new(0, 1000));
}

#[test]
fn ball_falls_through_the_bottom() {
    let mut b = Ball { rect: Rect::new(px(100), px(599), px(50), px(50)), vel: Vec2::new(0, 1000) };
    b.update(10_000, field());
    assert_eq!(b.rect.y, px(603));
    assert_eq!(b.vel, Vec2::new(0, 1000));
}

#[test]
fn grid_has_six_rows_of_six() {
    let mut blocks: Vec<Block> = Vec::new();
    init_blocks(&mut blocks, field());
    assert_eq!(blocks.len(), 36);
    assert_eq!(blocks[0].rect, Rect::new(px(85), px(50), px(100), px(40)));
    assert_eq!(blocks[1].rect, Rect::new(px(190), px(50), px(100), px(40)));
    assert_eq!(blocks[5].rect, Rect::new(px(610), px(50), px(100), px(40)));
    assert_eq!(blocks[6].rect, Rect::new(px(85), px(95), px(100), px(40)));
    assert_eq!(blocks[35].rect, Rect::new(px(610), px(275), px(100), px(40)));
    assert!(blocks.iter().all(|b| b.lives == 2));
}

#[test]
fn grid_is_appended_to_what_is_there() {
    let mut blocks: Vec<Block> = vec![Block::new(Vec2::new(1, 2))];
    init_blocks(&mut blocks, field());
    assert_eq!(blocks.len(), 37);
    assert_eq!(blocks[0], Block::new(Vec2::new(1, 2)));
    assert_eq!(blocks[1].rect, Rect::new(px(85), px(50), px(100), px(40)));
}

#[test]
fn title_stands_centred() {
    assert_eq!(field().centered(px(200), px(50)), Vec2::new(px(300), px(275)));
    assert_eq!(field().center(), Vec2::new(px(400), px(300)));
}
