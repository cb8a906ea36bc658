use vstd::prelude::*;

use crate::blocks::Block;
use crate::blocks::BlockColor;
use crate::blocks::cargo::Cargo;
use crate::constants::GAME_ARENA_COLUMNS;
use crate::constants::GAME_ARENA_ROWS;

verus! {

/// Whether the coordinate list contains the cell (`c`, `r`).
pub open spec fn coords_contain(s: Seq<(usize, usize)>, c: int, r: int) -> bool {
    exists|k: int| 0 <= k < s.len() && s[k].0 == c && s[k].1 == r
}

/// `Seq::filter` of a sequence extended by one element.
proof fn lemma_filter_push<A>(s: Seq<A>, pred: spec_fn(A) -> bool, x: A)
    ensures
        (s.push(x)).filter(pred) == if pred(x) {
            s.filter(pred).push(x)
        } else {
            s.filter(pred)
        },
{
    reveal(Seq::filter);
    assert(s.push(x).drop_last() =~= s);
}

/// The settled grid of landed blocks.
///
/// `matrix[c][r]` is the cell in column `c` (0 = leftmost) and row `r`
/// (0 = floor). `column_tops[c]` caches the highest occupied row index of
/// column `c`, or -1 when the column is empty. Outside the brief window
/// between extracting matched blocks and removing the matches, every column
/// is contiguously occupied from the floor up to its cached top.
pub struct Pile {
    pub matrix: Vec<Vec<Option<BlockColor>>>,
    pub column_tops: Vec<i32>,
}

/// Some listed block stands for the occupied cell (`c`, `rr`).
pub open spec fn pile_block_covered(blocks: Seq<Block>, p: Pile, c: int, rr: int) -> bool {
    exists|k: int|
        0 <= k < blocks.len() && (#[trigger] blocks[k]) == (Block {
            color: p.cell(c, rr)->Some_0,
            col: c as i32,
            row: rr as i32,
        })
}

/// The relation `take_cargo` establishes between the grid before and
/// after a piece lands: the committed cells, the new top, the clipping,
/// and the returned capacity signal.
pub open spec fn pile_took_cargo(pre: Pile, cargo: Cargo, post: Pile, remaining: int) -> bool {
    let c = cargo.column_idx as int;
    let t = pre.top(c);
    let spaces = GAME_ARENA_ROWS - 1 - t;
    let inc = if spaces >= 3 {
        3int
    } else {
        spaces
    };
    &&& cargo.wf()
    &&& cargo.in_arena()
    &&& post.inv()
    &&& remaining == spaces - 3
    &&& post.top(c) == t + inc
    &&& forall|c2: int|
        0 <= c2 < GAME_ARENA_COLUMNS && c2 != c ==> #[trigger] post.top(c2) == pre.top(c2)
    &&& forall|c2: int, r2: int|
        0 <= c2 < GAME_ARENA_COLUMNS && c2 != c && 0 <= r2 < GAME_ARENA_ROWS
            ==> #[trigger] post.cell(c2, r2) == pre.cell(c2, r2)
    &&& forall|r2: int| 0 <= r2 <= t ==> #[trigger] post.cell(c, r2) == pre.cell(c, r2)
    &&& (inc >= 1 ==> post.cell(c, t + 1) == Some(cargo.block2))
    &&& (inc >= 2 ==> post.cell(c, t + 2) == Some(cargo.block1))
    &&& (inc >= 3 ==> post.cell(c, t + 3) == Some(cargo.block0))
}

/// The relation `remove_matches` establishes: every column compacted to
/// its survivors, and the fullness signal.
pub open spec fn pile_compacted(pre: Pile, post: Pile, full: bool) -> bool {
    &&& post.inv()
    &&& forall|c: int|
        0 <= c < GAME_ARENA_COLUMNS ==> #[trigger] post.top(c) == pre.column_survivors(c).len() - 1
    &&& forall|c: int, r: int|
        0 <= c < GAME_ARENA_COLUMNS && 0 <= r < GAME_ARENA_ROWS ==> #[trigger] post.cell(c, r)
            == if r < pre.column_survivors(c).len() {
            pre.column_survivors(c)[r]
        } else {
            Option::<BlockColor>::None
        }
    &&& full == exists|c: int|
        0 <= c < GAME_ARENA_COLUMNS && #[trigger] post.top(c) == GAME_ARENA_ROWS - 1
}

impl Pile {
    /// The content of the cell in column `c`, row `r`.
    pub open spec fn cell(self, c: int, r: int) -> Option<BlockColor> {
        self.matrix@[c]@[r]
    }

    /// The cached top row index of column `c` (-1 when empty).
    pub open spec fn top(self, c: int) -> int {
        self.column_tops@[c] as int
    }

    /// The grid has its fixed dimensions and every cached top is in range.
    pub open spec fn shape_wf(self) -> bool {
        &&& self.matrix@.len() == GAME_ARENA_COLUMNS
        &&& forall|c: int|
            0 <= c < GAME_ARENA_COLUMNS ==> (#[trigger] self.matrix@[c])@.len()
                == GAME_ARENA_ROWS
        &&& self.column_tops@.len() == GAME_ARENA_COLUMNS
        &&& forall|c: int| 0 <= c < GAME_ARENA_COLUMNS ==> -1 <= #[trigger] self.top(c)
            < GAME_ARENA_ROWS
    }

    /// Column `c` is occupied exactly from the floor up to its cached top.
    pub open spec fn col_contiguous(self, c: int) -> bool {
        forall|r: int|
            0 <= r < GAME_ARENA_ROWS ==> ((#[trigger] self.cell(c, r)) is Some <==> r <= self.top(
                c,
            ))
    }

    /// The gravity invariant: well-shaped, and no column has a gap below its
    /// top nor a block above it.
    pub open spec fn inv(self) -> bool {
        &&& self.shape_wf()
        &&& forall|c: int| 0 <= c < GAME_ARENA_COLUMNS ==> #[trigger] self.col_contiguous(c)
    }

    pub fn new() -> (r: Pile)
        ensures
            r.inv(),
            forall|c: int| 0 <= c < GAME_ARENA_COLUMNS ==> #[trigger] r.top(c) == -1,
    {
        let mut matrix: Vec<Vec<Option<BlockColor>>> = Vec::new();
        let mut column_tops: Vec<i32> = Vec::new();
        let mut c: usize = 0;
        while c < GAME_ARENA_COLUMNS
            invariant
                c <= GAME_ARENA_COLUMNS,
                matrix@.len() == c,
                column_tops@.len() == c,
                forall|i: int|
                    0 <= i < c ==> (#[trigger] matrix@[i])@.len() == GAME_ARENA_ROWS,
                forall|i: int| 0 <= i < c ==> matrix@[i]@ =~= Seq::new(
                    GAME_ARENA_ROWS as nat,
                    |r: int| Option::<BlockColor>::None,
                ),
                forall|i: int| 0 <= i < c ==> #[trigger] column_tops@[i] == -1i32,
            decreases GAME_ARENA_COLUMNS - c,
        {
            let mut column: Vec<Option<BlockColor>> = Vec::new();
            let mut r: usize = 0;
            while r < GAME_ARENA_ROWS
                invariant
                    r <= GAME_ARENA_ROWS,
                    column@.len() == r,
                    forall|j: int| 0 <= j < r ==> #[trigger] column@[j] is None,
                decreases GAME_ARENA_ROWS - r,
            {
                column.push(None);
                r += 1;
            }
            assert(column@ =~= Seq::new(GAME_ARENA_ROWS as nat, |r: int| Option::<
                BlockColor,
            >::None));
            matrix.push(column);
            column_tops.push(-1);
            c += 1;
        }
        Pile { matrix, column_tops }
    }

    /// Commit a landed piece's blocks into its column, from the bottom block
    /// upward, clipping any block for which no grid space is left.
    ///
    /// Returns the column's free space before the commit minus 3: a negative
    /// result means the piece did not fit entirely, which the caller treats
    /// as the game-over signal.
    pub fn take_cargo(&mut self, cargo: &Cargo) -> (r: i32)
        requires
            old(self).inv(),
            cargo.wf(),
            cargo.in_arena(),
        ensures
            final(self).inv(),
            ({
                let c = cargo.column_idx as int;
                let t = old(self).top(c);
                let spaces = GAME_ARENA_ROWS - 1 - t;
                let inc = if spaces >= 3 {
                    3int
                } else {
                    spaces
                };
                &&& r == spaces - 3
                &&& final(self).top(c) == t + inc
                &&& forall|c2: int|
                    0 <= c2 < GAME_ARENA_COLUMNS && c2 != c ==> #[trigger] final(self).top(c2)
                        == old(self).top(c2)
                &&& forall|c2: int, r2: int|
                    0 <= c2 < GAME_ARENA_COLUMNS && c2 != c && 0 <= r2 < GAME_ARENA_ROWS
                        ==> #[trigger] final(self).cell(c2, r2) == old(self).cell(c2, r2)
                &&& forall|r2: int|
                    0 <= r2 <= t ==> #[trigger] final(self).cell(c, r2) == old(self).cell(c, r2)
                &&& inc >= 1 ==> final(self).cell(c, t + 1) == Some(cargo.block2)
                &&& inc >= 2 ==> final(self).cell(c, t + 2) == Some(cargo.block1)
                &&& inc >= 3 ==> final(self).cell(c, t + 3) == Some(cargo.block0)
            }),
    {
        let col = cargo.column_idx;
        let t: i32 = self.column_tops[col];
        proof {
            assert(-1 <= self.top(col as int) < GAME_ARENA_ROWS);
        }
        let spaces: i32 = GAME_ARENA_ROWS as i32 - 1 - t;
        let inc: i32 = if spaces >= 3 {
            3
        } else {
            spaces
        };
        if inc >= 1 {
            self.matrix[col][(t + 1) as usize] = Some(cargo.block2);
        }
        if inc >= 2 {
            self.matrix[col][(t + 2) as usize] = Some(cargo.block1);
        }
        if inc >= 3 {
            self.matrix[col][(t + 3) as usize] = Some(cargo.block0);
        }
        self.column_tops[col] = t + inc;
        proof {
            let c = col as int;
            assert forall|c2: int| 0 <= c2 < GAME_ARENA_COLUMNS implies -1 <= #[trigger] self.top(
                c2,
            ) < GAME_ARENA_ROWS by {
                assert(-1 <= old(self).top(c2) < GAME_ARENA_ROWS);
            }
            assert forall|c2: int| 0 <= c2 < GAME_ARENA_COLUMNS implies self.col_contiguous(
                c2,
            ) by {
                assert(old(self).col_contiguous(c2));
                if c2 == c {
                    assert forall|r2: int|
                        0 <= r2 < GAME_ARENA_ROWS implies ((#[trigger] self.cell(c2, r2)) is Some
                        <==> r2 <= self.top(c2)) by {
                        if r2 <= t {
                            assert(self.cell(c2, r2) == old(self).cell(c2, r2));
                        } else if r2 > t + inc {
                            assert(self.cell(c2, r2) == old(self).cell(c2, r2));
                        }
                    }
                } else {
                    assert forall|r2: int|
                        0 <= r2 < GAME_ARENA_ROWS implies ((#[trigger] self.cell(c2, r2)) is Some
                        <==> r2 <= self.top(c2)) by {
                        assert(self.cell(c2, r2) == old(self).cell(c2, r2));
                    }
                }
            }
        }
        spaces - 3
    }

    /// The occupied cells of column `c` up to its cached top, bottom-up,
    /// with empty slots squeezed out: what gravity compaction leaves.
    pub open spec fn column_survivors(self, c: int) -> Seq<Option<BlockColor>> {
        self.matrix@[c]@.take(self.top(c) + 1).filter(|x: Option<BlockColor>| x is Some)
    }

    /// Take the blocks at the given (distinct, occupied) coordinates out of
    /// the grid, leaving their slots empty, and return them in the same
    /// order. The column-top cache is deliberately not updated here; only
    /// `remove_matches` restores it.
    #[verifier::loop_isolation(false)]
    pub fn extract_matching_blocks(&mut self, unique_match_positions: &Vec<(usize, usize)>) -> (r:
        Vec<Block>)
        requires
            old(self).inv(),
            forall|k: int|
                0 <= k < unique_match_positions@.len() ==> (#[trigger] unique_match_positions@[k]).0
                    < GAME_ARENA_COLUMNS && unique_match_positions@[k].1 < GAME_ARENA_ROWS
                    && old(self).cell(
                    unique_match_positions@[k].0 as int,
                    unique_match_positions@[k].1 as int,
                ) is Some,
            forall|k1: int, k2: int|
                0 <= k1 < k2 < unique_match_positions@.len() ==> unique_match_positions@[k1]
                    != unique_match_positions@[k2],
        ensures
            final(self).shape_wf(),
            final(self).column_tops@ == old(self).column_tops@,
            forall|c: int, r2: int|
                0 <= c < GAME_ARENA_COLUMNS && 0 <= r2 < GAME_ARENA_ROWS
                    ==> #[trigger] final(self).cell(c, r2) == if coords_contain(
                    unique_match_positions@,
                    c,
                    r2,
                ) {
                    Option::<BlockColor>::None
                } else {
                    old(self).cell(c, r2)
                },
            r@.len() == unique_match_positions@.len(),
            forall|k: int|
                0 <= k < r@.len() ==> #[trigger] r@[k] == (Block {
                    color: old(self).cell(
                        unique_match_positions@[k].0 as int,
                        unique_match_positions@[k].1 as int,
                    )->Some_0,
                    col: unique_match_positions@[k].0 as i32,
                    row: unique_match_positions@[k].1 as i32,
                }),
    {
        let ghost positions = unique_match_positions@;
        let mut matched_blocks: Vec<Block> = Vec::new();
        let mut i: usize = 0;
        while i < unique_match_positions.len()
            invariant
                i <= positions.len(),
                unique_match_positions@ == positions,
                forall|k: int|
                    0 <= k < positions.len() ==> (#[trigger] positions[k]).0 < GAME_ARENA_COLUMNS
                        && positions[k].1 < GAME_ARENA_ROWS && old(self).cell(
                        positions[k].0 as int,
                        positions[k].1 as int,
                    ) is Some,
                forall|k1: int, k2: int|
                    0 <= k1 < k2 < positions.len() ==> positions[k1] != positions[k2],
                self.shape_wf(),
                self.column_tops@ == old(self).column_tops@,
                forall|c: int, r2: int|
                    0 <= c < GAME_ARENA_COLUMNS && 0 <= r2 < GAME_ARENA_ROWS
                        ==> #[trigger] self.cell(c, r2) == if coords_contain(
                        positions.take(i as int),
                        c,
                        r2,
                    ) {
                        Option::<BlockColor>::None
                    } else {
                        old(self).cell(c, r2)
                    },
                matched_blocks@.len() == i,
                forall|k: int|
                    0 <= k < i ==> #[trigger] matched_blocks@[k] == (Block {
                        color: old(self).cell(
                            positions[k].0 as int,
                            positions[k].1 as int,
                        )->Some_0,
                        col: positions[k].0 as i32,
                        row: positions[k].1 as i32,
                    }),
            decreases unique_match_positions@.len() - i,
        {
            let ghost before = *self;
            proof {
                assert forall|c: int, r2: int|
                    0 <= c < GAME_ARENA_COLUMNS && 0 <= r2 < GAME_ARENA_ROWS
                    implies #[trigger] before.cell(c, r2) == if coords_contain(
                    positions.take(i as int),
                    c,
                    r2,
                ) {
                    Option::<BlockColor>::None
                } else {
                    old(self).cell(c, r2)
                } by {
                    assert(before.cell(c, r2) == self.cell(c, r2));
                }
            }
            let position = unique_match_positions[i];
            let col = position.0;
            let row = position.1;
            proof {
                assert forall|k: int| 0 <= k < i implies !((#[trigger] positions[k]).0 == col
                    && positions[k].1 == row) by {
                    assert(positions[k] != positions[i as int]);
                }
                assert(!coords_contain(positions.take(i as int), col as int, row as int));
                assert(self.cell(col as int, row as int) == old(self).cell(
                    col as int,
                    row as int,
                ));
                assert(old(self).cell(col as int, row as int) is Some);
            }
            let cell = self.matrix[col][row];
            self.matrix[col][row] = None;
            match cell {
                Some(color) => {
                    matched_blocks.push(Block { color, col: col as i32, row: row as i32 });
                },
                None => {
                    proof {
                        assert(false);
                    }
                },
            }
            i += 1;
            proof {
                assert(positions.take(i as int) =~= positions.take(i as int - 1).push(
                    positions[i as int - 1],
                ));
                assert forall|c2: int|
                    0 <= c2 < GAME_ARENA_COLUMNS implies (#[trigger] self.matrix@[c2])@.len()
                    == GAME_ARENA_ROWS by {
                    if c2 != col {
                        assert(self.matrix@[c2] == before.matrix@[c2]);
                    }
                }
                assert forall|c2: int| 0 <= c2 < GAME_ARENA_COLUMNS implies -1
                    <= #[trigger] self.top(c2) < GAME_ARENA_ROWS by {
                    assert(self.top(c2) == old(self).top(c2));
                    assert(-1 <= old(self).top(c2) < GAME_ARENA_ROWS);
                }
                assert forall|c: int, r2: int|
                    0 <= c < GAME_ARENA_COLUMNS && 0 <= r2 < GAME_ARENA_ROWS implies #[trigger] self
                    .cell(c, r2) == if coords_contain(positions.take(i as int), c, r2) {
                    Option::<BlockColor>::None
                } else {
                    old(self).cell(c, r2)
                } by {
                    if c == col && r2 == row {
                        assert(self.cell(c, r2) is None);
                        assert(positions.take(i as int)[i - 1] == positions[i as int - 1]);
                        assert(coords_contain(positions.take(i as int), c, r2));
                    } else {
                        if c == col {
                            assert(self.cell(c, r2) == before.cell(c, r2));
                        } else {
                            assert((self.matrix@[c])@ == before.matrix@[c]@);
                            assert(self.cell(c, r2) == before.cell(c, r2));
                        }
                        assert(before.cell(c, r2) == if coords_contain(
                            positions.take(i as int - 1),
                            c,
                            r2,
                        ) {
                            Option::<BlockColor>::None
                        } else {
                            old(self).cell(c, r2)
                        });
                        if coords_contain(positions.take(i as int), c, r2) {
                            let k = choose|k: int|
                                0 <= k < i && positions.take(i as int)[k].0 == c && positions.take(
                                    i as int,
                                )[k].1 == r2;
                            assert(positions[k].0 == c && positions[k].1 == r2);
                            assert(k != i - 1);
                            assert(coords_contain(positions.take(i as int - 1), c, r2));
                        } else {
                            assert(!coords_contain(positions.take(i as int - 1), c, r2));
                        }
                    }
                }
            }
        }
        proof {
            assert(positions.take(positions.len() as int) =~= positions);
        }
        matched_blocks
    }

    /// Let every column's blocks fall into the slots freed by extraction and
    /// shrink the column tops accordingly, restoring the gravity invariant.
    ///
    /// Returns whether the pile is full afterwards: some column top has
    /// reached the highest row.
    ///
    /// Must be called on the state `extract_matching_blocks` left behind:
    /// below each cached top, exactly the extracted coordinates are empty.
    #[verifier::loop_isolation(false)]
    pub fn remove_matches(&mut self, matches: &Vec<(usize, usize)>) -> (full: bool)
        requires
            old(self).shape_wf(),
            forall|c: int, r2: int|
                0 <= c < GAME_ARENA_COLUMNS && 0 <= r2 < GAME_ARENA_ROWS
                    ==> ((#[trigger] old(self).cell(c, r2)) is Some <==> (r2 <= old(self).top(c)
                    && !coords_contain(matches@, c, r2))),
        ensures
            final(self).inv(),
            forall|c: int|
                0 <= c < GAME_ARENA_COLUMNS ==> #[trigger] final(self).top(c) == old(
                    self,
                ).column_survivors(c).len() - 1,
            forall|c: int, r2: int|
                0 <= c < GAME_ARENA_COLUMNS && 0 <= r2 < GAME_ARENA_ROWS
                    ==> #[trigger] final(self).cell(c, r2) == if r2 < old(self).column_survivors(
                    c,
                ).len() {
                    old(self).column_survivors(c)[r2]
                } else {
                    Option::<BlockColor>::None
                },
            full == exists|c: int|
                0 <= c < GAME_ARENA_COLUMNS && #[trigger] final(self).top(c) == GAME_ARENA_ROWS
                    - 1,
    {
        let mut full = false;
        let mut c: usize = 0;
        while c < GAME_ARENA_COLUMNS
            invariant
                c <= GAME_ARENA_COLUMNS,
                self.matrix@.len() == GAME_ARENA_COLUMNS,
                self.column_tops@.len() == GAME_ARENA_COLUMNS,
                forall|c2: int|
                    0 <= c2 < GAME_ARENA_COLUMNS ==> (#[trigger] self.matrix@[c2])@.len()
                        == GAME_ARENA_ROWS,
                forall|c2: int|
                    c <= c2 < GAME_ARENA_COLUMNS ==> (#[trigger] self.matrix@[c2])@ == old(
                        self,
                    ).matrix@[c2]@,
                forall|c2: int|
                    c <= c2 < GAME_ARENA_COLUMNS ==> #[trigger] self.top(c2) == old(self).top(c2),
                forall|c2: int|
                    0 <= c2 < c ==> #[trigger] self.top(c2) == old(self).column_survivors(
                        c2,
                    ).len() - 1,
                forall|c2: int|
                    0 <= c2 < c ==> -1 <= #[trigger] self.top(c2) < GAME_ARENA_ROWS,
                forall|c2: int, r2: int|
                    0 <= c2 < c && 0 <= r2 < GAME_ARENA_ROWS ==> #[trigger] self.cell(c2, r2)
                        == if r2 < old(self).column_survivors(c2).len() {
                        old(self).column_survivors(c2)[r2]
                    } else {
                        Option::<BlockColor>::None
                    },
                full == exists|c2: int|
                    0 <= c2 < c && #[trigger] self.top(c2) == GAME_ARENA_ROWS - 1,
            decreases GAME_ARENA_COLUMNS - c,
        {
            let ghost snap = *self;
            let ghost old_col = old(self).matrix@[c as int]@;
            let ghost survivors = old(self).column_survivors(c as int);
            let t: i32 = self.column_tops[c];
            proof {
                assert((self.matrix@[c as int])@ == old(self).matrix@[c as int]@);
                assert(self.top(c as int) == old(self).top(c as int));
                assert(-1 <= old(self).top(c as int) < GAME_ARENA_ROWS);
                assert(old_col.len() == GAME_ARENA_ROWS);
            }
            let bound: usize = (t + 1) as usize;
            let mut w: usize = 0;
            let mut r: usize = 0;
            while r < bound
                invariant
                    w <= r <= bound,
                    self.matrix@.len() == GAME_ARENA_COLUMNS,
                    self.column_tops@ == snap.column_tops@,
                    (self.matrix@[c as int])@.len() == GAME_ARENA_ROWS,
                    forall|c2: int|
                        0 <= c2 < GAME_ARENA_COLUMNS && c2 != c ==> (#[trigger] self.matrix@[c2])@
                            == snap.matrix@[c2]@,
                    forall|j: int|
                        r <= j < GAME_ARENA_ROWS ==> #[trigger] self.matrix@[c as int]@[j]
                            == old_col[j],
                    self.matrix@[c as int]@.take(w as int) =~= old_col.take(r as int).filter(
                        |x: Option<BlockColor>| x is Some,
                    ),
                decreases bound - r,
            {
                let cell = self.matrix[c][r];
                proof {
                    assert(old_col.take(r as int + 1) =~= old_col.take(r as int).push(
                        old_col[r as int],
                    ));
                    lemma_filter_push(
                        old_col.take(r as int),
                        |x: Option<BlockColor>| x is Some,
                        old_col[r as int],
                    );
                }
                let ghost pre = *self;
                if cell.is_some() {
                    self.matrix[c][w] = cell;
                    proof {
                        assert(self.matrix@[c as int]@.take(w as int) =~= pre.matrix@[c
                            as int]@.take(w as int));
                        assert(self.matrix@[c as int]@.take(w as int + 1) =~= self.matrix@[c
                            as int]@.take(w as int).push(self.matrix@[c as int]@[w as int]));
                        assert forall|j: int|
                            r + 1 <= j < GAME_ARENA_ROWS implies #[trigger] self.matrix@[c
                            as int]@[j] == old_col[j] by {
                            assert(self.matrix@[c as int]@[j] == pre.matrix@[c as int]@[j]);
                        }
                    }
                    w += 1;
                }
                r += 1;
            }
            let ghost mid = *self;
            let mut r2: usize = w;
            while r2 < bound
                invariant
                    w <= r2 <= bound,
                    self.matrix@.len() == GAME_ARENA_COLUMNS,
                    self.column_tops@ == mid.column_tops@,
                    (self.matrix@[c as int])@.len() == GAME_ARENA_ROWS,
                    forall|c2: int|
                        0 <= c2 < GAME_ARENA_COLUMNS && c2 != c ==> (#[trigger] self.matrix@[c2])@
                            == mid.matrix@[c2]@,
                    self.matrix@[c as int]@.take(w as int) =~= mid.matrix@[c as int]@.take(
                        w as int,
                    ),
                    forall|j: int|
                        w <= j < r2 ==> #[trigger] self.matrix@[c as int]@[j] is None,
                    forall|j: int|
                        r2 <= j < GAME_ARENA_ROWS ==> #[trigger] self.matrix@[c as int]@[j]
                            == mid.matrix@[c as int]@[j],
                decreases bound - r2,
            {
                let ghost pre = *self;
                self.matrix[c][r2] = None;
                proof {
                    assert(self.matrix@[c as int]@.take(w as int) =~= pre.matrix@[c as int]@.take(
                        w as int,
                    ));
                }
                r2 += 1;
            }
            self.column_tops[c] = w as i32 - 1;
            proof {
                broadcast use vstd::seq_lib::group_filter_ensures;

                assert(survivors =~= old_col.take(bound as int).filter(
                    |x: Option<BlockColor>| x is Some,
                ));
                assert(mid.matrix@[c as int]@.take(w as int) =~= old_col.take(bound as int).filter(
                    |x: Option<BlockColor>| x is Some,
                ));
                assert(survivors.len() == w);
                assert(self.top(c as int) == w - 1);
                assert forall|r3: int| 0 <= r3 < GAME_ARENA_ROWS implies #[trigger] self.cell(
                    c as int,
                    r3,
                ) == if r3 < survivors.len() {
                    survivors[r3]
                } else {
                    Option::<BlockColor>::None
                } by {
                    if r3 < w {
                        assert(self.matrix@[c as int]@.take(w as int)[r3] == self.matrix@[c
                            as int]@[r3]);
                        assert(mid.matrix@[c as int]@.take(w as int)[r3] == survivors[r3]);
                    } else if r3 < bound {
                        assert(self.matrix@[c as int]@[r3] is None);
                    } else {
                        assert(self.matrix@[c as int]@[r3] == mid.matrix@[c as int]@[r3]);
                        assert(mid.matrix@[c as int]@[r3] == old_col[r3]);
                        assert(!(old(self).cell(c as int, r3) is Some));
                    }
                }
            }
            if w == GAME_ARENA_ROWS {
                full = true;
            }
            proof {
                assert forall|c2: int|
                    0 <= c2 < GAME_ARENA_COLUMNS && c2 != c implies #[trigger] self.top(c2)
                    == snap.top(c2) by {}
                if full {
                    if exists|c2: int|
                        0 <= c2 < c && #[trigger] snap.top(c2) == GAME_ARENA_ROWS - 1 {
                        let cw = choose|c2: int|
                            0 <= c2 < c && #[trigger] snap.top(c2) == GAME_ARENA_ROWS - 1;
                        assert(self.top(cw) == GAME_ARENA_ROWS - 1);
                    } else {
                        assert(w == GAME_ARENA_ROWS);
                        assert(self.top(c as int) == GAME_ARENA_ROWS - 1);
                    }
                } else {
                    assert(w < GAME_ARENA_ROWS);
                    assert(self.top(c as int) < GAME_ARENA_ROWS - 1);
                }
                assert forall|c2: int|
                    0 <= c2 < c + 1 implies -1 <= #[trigger] self.top(c2) < GAME_ARENA_ROWS by {
                    if c2 != c {
                        assert(self.top(c2) == snap.top(c2));
                    }
                }
                assert forall|c2: int|
                    c + 1 <= c2 < GAME_ARENA_COLUMNS implies #[trigger] self.top(c2) == old(
                    self,
                ).top(c2) by {
                    assert(self.top(c2) == snap.top(c2));
                }
                assert forall|c2: int, r3: int|
                    0 <= c2 < c + 1 && 0 <= r3 < GAME_ARENA_ROWS implies #[trigger] self.cell(
                    c2,
                    r3,
                ) == if r3 < old(self).column_survivors(c2).len() {
                    old(self).column_survivors(c2)[r3]
                } else {
                    Option::<BlockColor>::None
                } by {
                    if c2 != c {
                        assert((self.matrix@[c2])@ == mid.matrix@[c2]@);
                        assert(mid.matrix@[c2]@ == snap.matrix@[c2]@);
                        assert(self.cell(c2, r3) == snap.cell(c2, r3));
                    }
                }
            }
            c += 1;
        }
        proof {
            assert forall|c2: int| 0 <= c2 < GAME_ARENA_COLUMNS implies #[trigger] self
                .col_contiguous(c2) by {
                broadcast use vstd::seq_lib::group_filter_ensures;

                let survivors = old(self).column_survivors(c2);
                assert forall|r3: int|
                    0 <= r3 < GAME_ARENA_ROWS implies ((#[trigger] self.cell(c2, r3)) is Some
                    <==> r3 <= self.top(c2)) by {
                    if r3 < survivors.len() {
                        assert(self.cell(c2, r3) == survivors[r3]);
                        assert(survivors[r3] is Some);
                    }
                }
            }
        }
        full
    }

    /// All blocks of the settled grid, each cell below its column's cached
    /// top that holds a block, with its coordinates.
    #[verifier::loop_isolation(false)]
    pub fn get_blocks(&self) -> (r: Vec<Block>)
        requires
            self.shape_wf(),
        ensures
            forall|k: int|
                0 <= k < r@.len() ==> (0 <= (#[trigger] r@[k]).col < GAME_ARENA_COLUMNS && 0
                    <= r@[k].row < GAME_ARENA_ROWS && self.cell(r@[k].col as int, r@[k].row as int)
                    == Some(r@[k].color) && r@[k].row <= self.top(r@[k].col as int)),
            forall|c: int, rr: int|
                0 <= c < GAME_ARENA_COLUMNS && 0 <= rr < GAME_ARENA_ROWS && rr <= self.top(c)
                    && (#[trigger] self.cell(c, rr)) is Some ==> pile_block_covered(
                    r@,
                    *self,
                    c,
                    rr,
                ),
            forall|k1: int, k2: int|
                0 <= k1 < k2 < r@.len() ==> ((#[trigger] r@[k1]).col < (#[trigger] r@[k2]).col || (
                r@[k1].col == r@[k2].col && r@[k1].row < r@[k2].row)),
    {
        let mut blocks: Vec<Block> = Vec::new();
        let mut c: usize = 0;
        while c < GAME_ARENA_COLUMNS
            invariant
                c <= GAME_ARENA_COLUMNS,
                forall|k: int|
                    0 <= k < blocks@.len() ==> (0 <= (#[trigger] blocks@[k]).col
                        < GAME_ARENA_COLUMNS && 0 <= blocks@[k].row < GAME_ARENA_ROWS && self.cell(
                        blocks@[k].col as int,
                        blocks@[k].row as int,
                    ) == Some(blocks@[k].color) && blocks@[k].row <= self.top(
                        blocks@[k].col as int,
                    )),
                forall|c2: int, rr2: int|
                    0 <= c2 < c && 0 <= rr2 < GAME_ARENA_ROWS && rr2 <= self.top(c2)
                        && (#[trigger] self.cell(c2, rr2)) is Some ==> pile_block_covered(
                        blocks@,
                        *self,
                        c2,
                        rr2,
                    ),
                forall|k1: int, k2: int|
                    0 <= k1 < k2 < blocks@.len() ==> ((#[trigger] blocks@[k1]).col < (
                    #[trigger] blocks@[k2]).col || (blocks@[k1].col == blocks@[k2].col
                        && blocks@[k1].row < blocks@[k2].row)),
                forall|k: int| 0 <= k < blocks@.len() ==> (#[trigger] blocks@[k]).col < c,
            decreases GAME_ARENA_COLUMNS - c,
        {
            let column_top: i32 = self.column_tops[c];
            proof {
                assert(-1 <= self.top(c as int) < GAME_ARENA_ROWS);
            }
            let mut rr: usize = 0;
            while rr < GAME_ARENA_ROWS && rr as i32 <= column_top
                invariant
                    rr <= GAME_ARENA_ROWS,
                    column_top == self.top(c as int),
                    c < GAME_ARENA_COLUMNS,
                    forall|k: int|
                        0 <= k < blocks@.len() ==> (0 <= (#[trigger] blocks@[k]).col
                            < GAME_ARENA_COLUMNS && 0 <= blocks@[k].row < GAME_ARENA_ROWS
                            && self.cell(blocks@[k].col as int, blocks@[k].row as int) == Some(
                            blocks@[k].color,
                        ) && blocks@[k].row <= self.top(blocks@[k].col as int)),
                    forall|c2: int, rr2: int|
                        0 <= c2 < GAME_ARENA_COLUMNS && 0 <= rr2 < GAME_ARENA_ROWS && rr2
                            <= self.top(c2) && (#[trigger] self.cell(c2, rr2)) is Some && (c2 < c
                            || (c2 == c && rr2 < rr)) ==> pile_block_covered(
                            blocks@,
                            *self,
                            c2,
                            rr2,
                        ),
                    forall|k1: int, k2: int|
                        0 <= k1 < k2 < blocks@.len() ==> ((#[trigger] blocks@[k1]).col < (
                        #[trigger] blocks@[k2]).col || (blocks@[k1].col == blocks@[k2].col
                            && blocks@[k1].row < blocks@[k2].row)),
                    forall|k: int|
                        0 <= k < blocks@.len() ==> ((#[trigger] blocks@[k]).col < c || (
                        blocks@[k].col == c && blocks@[k].row < rr)),
                decreases GAME_ARENA_ROWS - rr,
            {
                let ghost pre = blocks@;
                let mut pushed = false;
                match self.matrix[c][rr] {
                    Some(color) => {
                        let b = Block { color, col: c as i32, row: rr as i32 };
                        blocks.push(b);
                        pushed = true;
                    },
                    None => {
                    },
                }
                proof {
                    assert forall|c2: int, rr2: int|
                        0 <= c2 < GAME_ARENA_COLUMNS && 0 <= rr2 < GAME_ARENA_ROWS && rr2
                            <= self.top(c2) && (#[trigger] self.cell(c2, rr2)) is Some && (c2 < c
                            || (c2 == c && rr2 < rr + 1)) implies pile_block_covered(
                        blocks@,
                        *self,
                        c2,
                        rr2,
                    ) by {
                        if c2 == c && rr2 == rr {
                            assert(blocks@[blocks@.len() - 1] == (Block {
                                color: self.cell(c2, rr2)->Some_0,
                                col: c2 as i32,
                                row: rr2 as i32,
                            }));
                        } else {
                            assert(pile_block_covered(pre, *self, c2, rr2));
                            if pushed {
                                lemma_pile_block_covered_push(
                                    pre,
                                    blocks@[blocks@.len() - 1],
                                    *self,
                                    c2,
                                    rr2,
                                );
                                assert(blocks@ =~= pre.push(blocks@[blocks@.len() - 1]));
                            } else {
                                assert(blocks@ =~= pre);
                            }
                        }
                    }
                }
                rr += 1;
            }
            proof {
                assert forall|rr2: int|
                    0 <= rr2 < GAME_ARENA_ROWS && rr2 <= self.top(c as int) && (
                #[trigger] self.cell(c as int, rr2)) is Some implies rr2 < rr by {}
            }
            c += 1;
        }
        blocks
    }
}

/// Law: the gravity invariant. After compaction the pile satisfies `inv`,
/// so every column's occupied cells form one contiguous block from the
/// floor up to its cached top, with no gap below the top and no block
/// above it.
pub proof fn lemma_gravity_invariant(p: Pile)
    requires
        p.inv(),
    ensures
        forall|c: int| 0 <= c < GAME_ARENA_COLUMNS ==> #[trigger] p.col_contiguous(c),
        forall|c: int, r: int|
            0 <= c < GAME_ARENA_COLUMNS && 0 <= r < GAME_ARENA_ROWS ==> ((#[trigger] p.cell(c, r))
                is Some <==> r <= p.top(c)),
{
    assert forall|c: int, r: int|
        0 <= c < GAME_ARENA_COLUMNS && 0 <= r < GAME_ARENA_ROWS implies ((#[trigger] p.cell(c, r))
        is Some <==> r <= p.top(c)) by {
        assert(p.col_contiguous(c));
    }
}

/// A covered cell stays covered when another block is appended to the
/// listing.
proof fn lemma_pile_block_covered_push(blocks: Seq<Block>, b: Block, p: Pile, c: int, rr: int)
    requires
        pile_block_covered(blocks, p, c, rr),
    ensures
        pile_block_covered(blocks.push(b), p, c, rr),
{
    let k = choose|k: int|
        0 <= k < blocks.len() && (#[trigger] blocks[k]) == (Block {
            color: p.cell(c, rr)->Some_0,
            col: c as i32,
            row: rr as i32,
        });
    assert(blocks.push(b)[k] == blocks[k]);
}

} // verus!