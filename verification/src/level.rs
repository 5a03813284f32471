//! The block grid of the one level.

use vstd::prelude::*;
use crate::entities::{Block, Playfield, BLOCK_HEIGHT, BLOCK_LIVES, BLOCK_WIDTH};
use crate::geometry::{Rect, Vec2};

verus! {

/// Blocks in one row of the grid, and rows in the grid.
pub const GRID_COLUMNS: usize = 6;

pub const GRID_ROWS: usize = 6;

/// Blocks in the whole grid.
pub const GRID_BLOCKS: usize = 36;

/// Gap between neighbouring blocks, in nano-pixels.
pub const BLOCK_PADDING: i64 = 5_000_000_000;

/// Distance of the first row from the top of the field, in nano-pixels.
pub const BOARD_TOP: i64 = 50_000_000_000;

/// Half the width of the grid, each column counted with its gap.
pub const BOARD_HALF_WIDTH: i64 = 315_000_000_000;

/// Left edge of the grid: the grid is centred in the field.
pub open spec fn board_left(field: Playfield) -> int {
    field.width / 2 - BOARD_HALF_WIDTH
}

/// The block that stands at place `i` of the grid, counted row by row.
pub open spec fn grid_block(i: int, field: Playfield) -> Block {
    Block {
        rect: Rect {
            x: (board_left(field) + (i % 6) * (BLOCK_WIDTH + BLOCK_PADDING)) as i64,
            y: (BOARD_TOP + (i / 6) * (BLOCK_HEIGHT + BLOCK_PADDING)) as i64,
            w: BLOCK_WIDTH,
            h: BLOCK_HEIGHT,
        },
        lives: BLOCK_LIVES,
    }
}

/// The whole grid, row by row.
pub open spec fn grid(field: Playfield) -> Seq<Block> {
    Seq::new(GRID_BLOCKS as nat, |i: int| grid_block(i, field))
}

/// Every block of the grid lies in the world and is alive.
pub proof fn lemma_grid_is_sound(field: Playfield, i: int)
    requires
        field.wf(),
        0 <= i < GRID_BLOCKS,
    ensures
        grid_block(i, field).rect.wf(),
        grid_block(i, field).alive(),
        grid_block(i, field).rect.x == board_left(field) + (i % 6) * 105_000_000_000,
        grid_block(i, field).rect.y == BOARD_TOP + (i / 6) * 45_000_000_000,
{
}

/// Appends the grid of six rows of six blocks to `blocks`, centred in the
/// field and starting below its top.
pub fn init_blocks(blocks: &mut Vec<Block>, field: Playfield)
    requires
        field.wf(),
    ensures
        final(blocks)@ == old(blocks)@ + grid(field),
{
    let left: i64 = field.width / 2 - BOARD_HALF_WIDTH;
    let mut i: usize = 0;
    while i < GRID_ROWS * GRID_COLUMNS
        invariant
            0 <= i <= GRID_BLOCKS,
            field.wf(),
            left == board_left(field),
            blocks@.len() == old(blocks)@.len() + i,
            forall|k: int| 0 <= k < old(blocks)@.len() ==> blocks@[k] == old(blocks)@[k],
            forall|k: int| 0 <= k < i ==> blocks@[old(blocks)@.len() + k] == grid_block(k, field),
        decreases GRID_BLOCKS - i,
    {
        let column: i64 = (i % GRID_COLUMNS) as i64;
        let row: i64 = (i / GRID_COLUMNS) as i64;
        let block_x: i64 = column * (BLOCK_WIDTH + BLOCK_PADDING);
        let block_y: i64 = row * (BLOCK_HEIGHT + BLOCK_PADDING);
        blocks.push(Block::new(Vec2 { x: left + block_x, y: BOARD_TOP + block_y }));
        i = i + 1;
    }
    assert(blocks@ =~= old(blocks)@ + grid(field));
}

} // verus!
