use vstd::prelude::*;

use rand::Rng;

use crate::blocks::cargo::Cargo;
use crate::constants::GAME_ARENA_COLUMNS;
use crate::constants::GAME_ARENA_ROWS;

pub mod cargo;
pub mod matches;
pub mod pile;
pub mod search;

verus! {

/// One of the six block hues, identified by a single-character code.
/// The code is what matching and snapshot serialization compare; the actual
/// RGB value belongs to the renderer.
#[derive(Clone, Copy, Debug, PartialEq, Eq, Structural)]
pub enum BlockColor {
    Red,
    Green,
    Blue,
    Cyan,
    Magenta,
    Yellow,
}

pub const NUM_BLOCK_COLORS: usize = 6;

/// Snapshot code bytes of the six colors, in palette order: the ASCII
/// characters 'R', 'G', 'B', 'C', 'M' and 'Y'.
pub const BLOCK_CODE_RED: u8 = 82;

pub const BLOCK_CODE_GREEN: u8 = 71;

pub const BLOCK_CODE_BLUE: u8 = 66;

pub const BLOCK_CODE_CYAN: u8 = 67;

pub const BLOCK_CODE_MAGENTA: u8 = 77;

pub const BLOCK_CODE_YELLOW: u8 = 89;

impl BlockColor {
    /// The single-byte code identifying this color in snapshots.
    pub open spec fn code_spec(self) -> u8 {
        match self {
            BlockColor::Red => BLOCK_CODE_RED,
            BlockColor::Green => BLOCK_CODE_GREEN,
            BlockColor::Blue => BLOCK_CODE_BLUE,
            BlockColor::Cyan => BLOCK_CODE_CYAN,
            BlockColor::Magenta => BLOCK_CODE_MAGENTA,
            BlockColor::Yellow => BLOCK_CODE_YELLOW,
        }
    }

    pub fn code(self) -> (r: u8)
        ensures
            r == self.code_spec(),
    {
        match self {
            BlockColor::Red => BLOCK_CODE_RED,
            BlockColor::Green => BLOCK_CODE_GREEN,
            BlockColor::Blue => BLOCK_CODE_BLUE,
            BlockColor::Cyan => BLOCK_CODE_CYAN,
            BlockColor::Magenta => BLOCK_CODE_MAGENTA,
            BlockColor::Yellow => BLOCK_CODE_YELLOW,
        }
    }

    /// The color with the given index in the fixed palette order.
    pub open spec fn from_index_spec(i: int) -> BlockColor {
        if i == 0 {
            BlockColor::Red
        } else if i == 1 {
            BlockColor::Green
        } else if i == 2 {
            BlockColor::Blue
        } else if i == 3 {
            BlockColor::Cyan
        } else if i == 4 {
            BlockColor::Magenta
        } else {
            BlockColor::Yellow
        }
    }

    pub fn from_index(i: usize) -> (r: BlockColor)
        requires
            i < NUM_BLOCK_COLORS,
        ensures
            r == BlockColor::from_index_spec(i as int),
    {
        if i == 0 {
            BlockColor::Red
        } else if i == 1 {
            BlockColor::Green
        } else if i == 2 {
            BlockColor::Blue
        } else if i == 3 {
            BlockColor::Cyan
        } else if i == 4 {
            BlockColor::Magenta
        } else {
            BlockColor::Yellow
        }
    }

    /// The color whose code is the given byte, if any.
    pub open spec fn from_code_spec(code: u8) -> Option<BlockColor> {
        if code == BLOCK_CODE_RED {
            Some(BlockColor::Red)
        } else if code == BLOCK_CODE_GREEN {
            Some(BlockColor::Green)
        } else if code == BLOCK_CODE_BLUE {
            Some(BlockColor::Blue)
        } else if code == BLOCK_CODE_CYAN {
            Some(BlockColor::Cyan)
        } else if code == BLOCK_CODE_MAGENTA {
            Some(BlockColor::Magenta)
        } else if code == BLOCK_CODE_YELLOW {
            Some(BlockColor::Yellow)
        } else {
            None
        }
    }

    pub fn from_code(code: u8) -> (r: Option<BlockColor>)
        ensures
            r == BlockColor::from_code_spec(code),
    {
        if code == BLOCK_CODE_RED {
            Some(BlockColor::Red)
        } else if code == BLOCK_CODE_GREEN {
            Some(BlockColor::Green)
        } else if code == BLOCK_CODE_BLUE {
            Some(BlockColor::Blue)
        } else if code == BLOCK_CODE_CYAN {
            Some(BlockColor::Cyan)
        } else if code == BLOCK_CODE_MAGENTA {
            Some(BlockColor::Magenta)
        } else if code == BLOCK_CODE_YELLOW {
            Some(BlockColor::Yellow)
        } else {
            None
        }
    }
}

/// A colored unit square on (or just above) the grid.
///
/// Coordinates are grid indexes: column 0 is the leftmost arena column and
/// row 0 is the floor. The next-piece preview sits left of the arena, so a
/// block's column may be negative; rows at or above `GAME_ARENA_ROWS` are
/// above the visible ceiling.
#[derive(Clone, Copy, Debug, PartialEq, Eq, Structural)]
pub struct Block {
    pub color: BlockColor,
    pub col: i32,
    pub row: i32,
}

impl Block {
    pub fn new(color: BlockColor, col: i32, row: i32) -> (r: Block)
        ensures
            r == (Block { color, col, row }),
    {
        Block { color, col, row }
    }
}

/// Relies on `rand::rngs::ThreadRng`, the thread-local random number
/// generator handle of the rand crate; the library only carries it and
/// draws bounded indexes from it.
#[verifier::external_type_specification]
#[verifier::external_body]
pub struct ExThreadRng(rand::rngs::ThreadRng);

/// Relies on rand::thread_rng: returns a handle to the thread-local
/// generator.
#[verifier::external_body]
fn new_thread_rng() -> rand::rngs::ThreadRng {
    rand::thread_rng()
}

/// Relies on rand::Rng::gen_range over `0..n`: it panics only on an empty
/// range and returns a value of the range.
#[verifier::external_body]
fn gen_index(rng: &mut rand::rngs::ThreadRng, n: usize) -> (r: usize)
    requires
        1 <= n,
    ensures
        r < n,
{
    rng.gen_range(0..n)
}

/// The `i`-th color of the palette with `excluded` taken out: used to
/// recolor a block to a random color different from its current one.
fn palette_excluding(excluded: BlockColor, i: usize) -> (r: BlockColor)
    requires
        i < NUM_BLOCK_COLORS - 1,
    ensures
        r != excluded,
{
    let excluded_idx: usize = match excluded {
        BlockColor::Red => 0,
        BlockColor::Green => 1,
        BlockColor::Blue => 2,
        BlockColor::Cyan => 3,
        BlockColor::Magenta => 4,
        BlockColor::Yellow => 5,
    };
    let idx = if i < excluded_idx {
        i
    } else {
        i + 1
    };
    BlockColor::from_index(idx)
}

/// Creates the pieces of the game, each block with a randomly chosen
/// color, and recolors blocks for the pause-screen shuffle. Owns the
/// random number generator.
pub struct Factory {
    rng: rand::rngs::ThreadRng,
}

impl Factory {
    pub fn new() -> Factory {
        Factory { rng: new_thread_rng() }
    }

    /// The color of the palette identified by the given code byte. Callers
    /// must only pass codes of the palette.
    pub fn get_block_color_by_code(code: u8) -> (r: BlockColor)
        requires
            BlockColor::from_code_spec(code) is Some,
        ensures
            Some(r) == BlockColor::from_code_spec(code),
    {
        match BlockColor::from_code(code) {
            Some(color) => color,
            None => {
                proof {
                    assert(false);
                }
                BlockColor::Red
            },
        }
    }

    /// A new piece at the preview position, its three colors drawn at
    /// random.
    pub fn create_next_cargo(&mut self) -> (c: Cargo)
        ensures
            !c.in_arena(),
            c.wf(),
    {
        let color0 = BlockColor::from_index(gen_index(&mut self.rng, NUM_BLOCK_COLORS));
        let color1 = BlockColor::from_index(gen_index(&mut self.rng, NUM_BLOCK_COLORS));
        let color2 = BlockColor::from_index(gen_index(&mut self.rng, NUM_BLOCK_COLORS));
        Cargo::new(color0, color1, color2)
    }

    /// Move a piece from the preview into a random arena column, wholly
    /// above the ceiling, ready to descend.
    pub fn put_cargo_in_arena(&mut self, cargo: Cargo) -> (c: Cargo)
        ensures
            c.in_arena(),
            c.wf(),
            c.column_idx < GAME_ARENA_COLUMNS,
            c.bottom_row == GAME_ARENA_ROWS,
            c.block0 == cargo.block0,
            c.block1 == cargo.block1,
            c.block2 == cargo.block2,
    {
        let column = gen_index(&mut self.rng, GAME_ARENA_COLUMNS);
        let mut placed = cargo;
        placed.place_in_column(column);
        placed
    }

    /// Recolor a block to a random color different from its current one:
    /// the pause screen's scramble effect.
    pub fn change_block_color_randomly(&mut self, block: &mut Block)
        ensures
            final(block).color != old(block).color,
            final(block).col == old(block).col,
            final(block).row == old(block).row,
    {
        let i = gen_index(&mut self.rng, NUM_BLOCK_COLORS - 1);
        let new_color = palette_excluding(block.color, i);
        block.color = new_color;
    }
}

} // verus!