use vstd::prelude::*;

use crate::blocks::Block;
use crate::blocks::BlockColor;
use crate::blocks::pile::Pile;
use crate::constants::GAME_ARENA_COLUMNS;
use crate::constants::GAME_ARENA_ROWS;
use crate::input::Event;

verus! {

/// Nominal column at which the next-piece preview is drawn, left of the
/// arena (arena columns start at 0).
pub const PREVIEW_COLUMN: i32 = -3;

/// The falling piece: three colored blocks stacked vertically.
///
/// `block0` is the topmost block and `block2` the bottom one. Until the
/// piece is placed into the arena, `column_idx` holds the `usize::MAX`
/// sentinel and the piece stands at the preview position left of the arena.
/// `bottom_row` is the grid row of the bottom block; a freshly placed piece
/// starts at `GAME_ARENA_ROWS`, wholly above the visible ceiling, and
/// descends one row at a time.
#[derive(Clone, Copy, Debug)]
pub struct Cargo {
    pub block0: BlockColor,
    pub block1: BlockColor,
    pub block2: BlockColor,
    pub column_idx: usize,
    pub bottom_row: usize,
}

/// `move_to_right` as a function of the piece and the pile.
pub open spec fn moved_right(c: Cargo, p: Pile) -> Cargo {
    if c.column_idx + 1 < GAME_ARENA_COLUMNS && c.bottom_row as int > p.top(c.column_idx + 1) {
        (Cargo { column_idx: (c.column_idx + 1) as usize, ..c })
    } else {
        c
    }
}

/// `move_to_left` as a function of the piece and the pile.
pub open spec fn moved_left(c: Cargo, p: Pile) -> Cargo {
    if c.column_idx > 0 && c.bottom_row as int > p.top(c.column_idx - 1) {
        (Cargo { column_idx: (c.column_idx - 1) as usize, ..c })
    } else {
        c
    }
}

/// `drop` as a function of the piece and the pile.
pub open spec fn dropped(c: Cargo, p: Pile) -> Cargo {
    (Cargo { bottom_row: (p.top(c.column_idx as int) + 1) as usize, ..c })
}

/// `descend_one_step` as a function of the piece and the pile.
pub open spec fn descended(c: Cargo, p: Pile) -> Cargo {
    if c.at_bottom(p) {
        c
    } else {
        (Cargo { bottom_row: (c.bottom_row - 1) as usize, ..c })
    }
}

/// What one buffered input does to the descending piece: the §4.2
/// operation the event selects, or nothing.
pub open spec fn cargo_after_input(c: Cargo, p: Pile, ev: Event) -> Cargo {
    match ev {
        Event::Right => moved_right(c, p),
        Event::Left => moved_left(c, p),
        Event::Up => (Cargo { block0: c.block2, block1: c.block0, block2: c.block1, ..c }),
        Event::Down => (Cargo { block0: c.block1, block1: c.block2, block2: c.block0, ..c }),
        Event::Drop => dropped(c, p),
        _ => c,
    }
}

impl Cargo {
    /// The piece has been placed into an arena column.
    pub open spec fn in_arena(self) -> bool {
        self.column_idx != usize::MAX
    }

    pub open spec fn wf(self) -> bool {
        &&& self.in_arena() ==> self.column_idx < GAME_ARENA_COLUMNS
        &&& self.bottom_row <= GAME_ARENA_ROWS
    }

    /// The piece's bottom sits above the pile top of its column, so it does
    /// not overlap any settled block.
    pub open spec fn clear_of(self, pile: Pile) -> bool {
        self.bottom_row as int > pile.top(self.column_idx as int)
    }

    /// The piece's bottom rests exactly on the pile top of its column.
    pub open spec fn at_bottom(self, pile: Pile) -> bool {
        self.bottom_row as int == pile.top(self.column_idx as int) + 1
    }

    /// The color of the block at position `i` in the stack (0 = top).
    pub open spec fn color_at(self, i: int) -> BlockColor {
        if i == 0 {
            self.block0
        } else if i == 1 {
            self.block1
        } else {
            self.block2
        }
    }

    /// The grid row occupied by the block at stack position `i`.
    pub open spec fn row_at(self, i: int) -> int {
        self.bottom_row + 2 - i
    }

    /// The column shown for this piece: its arena column once placed, the
    /// preview position before.
    pub open spec fn shown_col(self) -> int {
        if self.in_arena() {
            self.column_idx as int
        } else {
            PREVIEW_COLUMN as int
        }
    }

    /// How many of the three blocks are below the arena ceiling.
    pub open spec fn visible_count(self) -> int {
        if !self.in_arena() {
            3
        } else if GAME_ARENA_ROWS - self.bottom_row >= 3 {
            3
        } else {
            GAME_ARENA_ROWS - self.bottom_row
        }
    }

    /// A new piece at the preview position, not yet in the arena.
    pub fn new(block0: BlockColor, block1: BlockColor, block2: BlockColor) -> (r: Cargo)
        ensures
            r.block0 == block0,
            r.block1 == block1,
            r.block2 == block2,
            !r.in_arena(),
            r.bottom_row == GAME_ARENA_ROWS - 3,
            r.wf(),
    {
        Cargo {
            block0,
            block1,
            block2,
            column_idx: usize::MAX,
            bottom_row: GAME_ARENA_ROWS - 3,
        }
    }

    /// Put the piece at the top of the given arena column, wholly above the
    /// ceiling, ready to descend.
    pub fn place_in_column(&mut self, col: usize)
        requires
            col < GAME_ARENA_COLUMNS,
        ensures
            final(self).block0 == old(self).block0,
            final(self).block1 == old(self).block1,
            final(self).block2 == old(self).block2,
            final(self).column_idx == col,
            final(self).bottom_row == GAME_ARENA_ROWS,
            final(self).in_arena(),
            final(self).wf(),
    {
        self.column_idx = col;
        self.bottom_row = GAME_ARENA_ROWS;
    }

    /// Move one column to the right, unless the piece is at the right wall
    /// or the pile in the destination column is too high.
    pub fn move_to_right(&mut self, pile: &Pile)
        requires
            pile.inv(),
            old(self).wf(),
            old(self).in_arena(),
        ensures
            final(self).block0 == old(self).block0,
            final(self).block1 == old(self).block1,
            final(self).block2 == old(self).block2,
            final(self).bottom_row == old(self).bottom_row,
            ({
                let c = old(self).column_idx as int;
                if c + 1 < GAME_ARENA_COLUMNS && old(self).bottom_row as int > pile.top(c + 1) {
                    final(self).column_idx == c + 1
                } else {
                    final(self).column_idx == old(self).column_idx
                }
            }),
            final(self).wf(),
            final(self).in_arena(),
            old(self).clear_of(*pile) ==> final(self).clear_of(*pile),
    {
        if self.column_idx + 1 < GAME_ARENA_COLUMNS {
            let next_top: i32 = pile.column_tops[self.column_idx + 1];
            if self.bottom_row as i32 > next_top {
                self.column_idx = self.column_idx + 1;
            }
        }
    }

    /// Move one column to the left, unless the piece is at the left wall or
    /// the pile in the destination column is too high.
    pub fn move_to_left(&mut self, pile: &Pile)
        requires
            pile.inv(),
            old(self).wf(),
            old(self).in_arena(),
        ensures
            final(self).block0 == old(self).block0,
            final(self).block1 == old(self).block1,
            final(self).block2 == old(self).block2,
            final(self).bottom_row == old(self).bottom_row,
            ({
                let c = old(self).column_idx as int;
                if c > 0 && old(self).bottom_row as int > pile.top(c - 1) {
                    final(self).column_idx == c - 1
                } else {
                    final(self).column_idx == old(self).column_idx
                }
            }),
            final(self).wf(),
            final(self).in_arena(),
            old(self).clear_of(*pile) ==> final(self).clear_of(*pile),
    {
        if self.column_idx > 0 {
            let previous_top: i32 = pile.column_tops[self.column_idx - 1];
            if self.bottom_row as i32 > previous_top {
                self.column_idx = self.column_idx - 1;
            }
        }
    }

    /// Rotate the three blocks' colors upward: the top block's color moves
    /// to the middle block, the middle to the bottom, and the bottom color
    /// wraps back to the top. Positions are untouched.
    pub fn rearrange_up(&mut self)
        ensures
            final(self).block1 == old(self).block0,
            final(self).block2 == old(self).block1,
            final(self).block0 == old(self).block2,
            final(self).column_idx == old(self).column_idx,
            final(self).bottom_row == old(self).bottom_row,
    {
        let color2 = self.block2;
        self.block2 = self.block1;
        self.block1 = self.block0;
        self.block0 = color2;
    }

    /// Rotate the three blocks' colors downward: the inverse of
    /// `rearrange_up`.
    pub fn rearrange_down(&mut self)
        ensures
            final(self).block0 == old(self).block1,
            final(self).block1 == old(self).block2,
            final(self).block2 == old(self).block0,
            final(self).column_idx == old(self).column_idx,
            final(self).bottom_row == old(self).bottom_row,
    {
        let color0 = self.block0;
        self.block0 = self.block1;
        self.block1 = self.block2;
        self.block2 = color0;
    }

    /// Snap the piece's bottom onto the pile top of its column.
    pub fn drop(&mut self, pile: &Pile)
        requires
            pile.inv(),
            old(self).wf(),
            old(self).in_arena(),
        ensures
            final(self).block0 == old(self).block0,
            final(self).block1 == old(self).block1,
            final(self).block2 == old(self).block2,
            final(self).column_idx == old(self).column_idx,
            final(self).bottom_row as int == pile.top(old(self).column_idx as int) + 1,
            final(self).at_bottom(*pile),
            final(self).wf(),
            final(self).in_arena(),
    {
        let top: i32 = pile.column_tops[self.column_idx];
        proof {
            assert(-1 <= pile.top(self.column_idx as int) < GAME_ARENA_ROWS);
        }
        self.bottom_row = (top + 1) as usize;
    }

    /// Descend by one row unless already resting on the pile; returns
    /// whether the piece now rests on the pile.
    pub fn descend_one_step(&mut self, pile: &Pile) -> (r: bool)
        requires
            pile.inv(),
            old(self).wf(),
            old(self).in_arena(),
            old(self).clear_of(*pile),
        ensures
            final(self).block0 == old(self).block0,
            final(self).block1 == old(self).block1,
            final(self).block2 == old(self).block2,
            final(self).column_idx == old(self).column_idx,
            if old(self).at_bottom(*pile) {
                final(self).bottom_row == old(self).bottom_row
            } else {
                final(self).bottom_row == old(self).bottom_row - 1
            },
            r == final(self).at_bottom(*pile),
            final(self).wf(),
            final(self).in_arena(),
            final(self).clear_of(*pile),
    {
        let top: i32 = pile.column_tops[self.column_idx];
        let is_descending_over = self.bottom_row as i32 == top + 1;
        if !is_descending_over {
            self.bottom_row = self.bottom_row - 1;
        }
        self.bottom_row as i32 == top + 1
    }

    /// Whether the piece rests on the pile top of its column.
    pub fn is_at_bottom(&self, pile: &Pile) -> (r: bool)
        requires
            pile.inv(),
            self.wf(),
            self.in_arena(),
        ensures
            r == self.at_bottom(*pile),
    {
        proof {
            assert(-1 <= pile.top(self.column_idx as int) < GAME_ARENA_ROWS);
        }
        self.bottom_row as i32 == pile.column_tops[self.column_idx] + 1
    }

    /// The blocks of this piece that the renderer should show: all three
    /// while the piece is the off-arena preview, otherwise only those whose
    /// row lies below the arena ceiling.
    pub fn get_visible_blocks(&self) -> (r: Vec<Block>)
        requires
            self.wf(),
        ensures
            r@.len() == self.visible_count(),
            forall|j: int|
                0 <= j < r@.len() ==> #[trigger] r@[j] == (Block {
                    color: self.color_at(3 - self.visible_count() + j),
                    col: self.shown_col() as i32,
                    row: self.row_at(3 - self.visible_count() + j) as i32,
                }),
    {
        let mut blocks: Vec<Block> = Vec::new();
        let col: i32 = if self.column_idx == usize::MAX {
            PREVIEW_COLUMN
        } else {
            self.column_idx as i32
        };
        if self.column_idx == usize::MAX || self.bottom_row + 2 < GAME_ARENA_ROWS {
            blocks.push(Block { color: self.block0, col, row: (self.bottom_row + 2) as i32 });
        }
        if self.column_idx == usize::MAX || self.bottom_row + 1 < GAME_ARENA_ROWS {
            blocks.push(Block { color: self.block1, col, row: (self.bottom_row + 1) as i32 });
        }
        if self.column_idx == usize::MAX || self.bottom_row < GAME_ARENA_ROWS {
            blocks.push(Block { color: self.block2, col, row: self.bottom_row as i32 });
        }
        blocks
    }
}

/// Law: a piece that is clear of the pile overlaps no settled block; with
/// the movement contracts this says sideways movement never moves a piece
/// onto an occupied cell, and never outside the arena's columns.
pub proof fn lemma_clear_cargo_overlaps_nothing(cargo: Cargo, pile: Pile)
    requires
        pile.inv(),
        cargo.wf(),
        cargo.in_arena(),
        cargo.clear_of(pile),
    ensures
        forall|i: int|
            0 <= i < 3 && #[trigger] cargo.row_at(i) < GAME_ARENA_ROWS ==> pile.cell(
                cargo.column_idx as int,
                cargo.row_at(i),
            ) is None,
{
    assert forall|i: int|
        0 <= i < 3 && #[trigger] cargo.row_at(i) < GAME_ARENA_ROWS implies pile.cell(
        cargo.column_idx as int,
        cargo.row_at(i),
    ) is None by {
        assert(pile.col_contiguous(cargo.column_idx as int));
        assert(cargo.row_at(i) > pile.top(cargo.column_idx as int));
    }
}

} // verus!