use vstd::prelude::*;

use crate::blocks::BlockColor;
use crate::blocks::pile::Pile;
use crate::constants::GAME_ARENA_COLUMNS;
use crate::constants::GAME_ARENA_ROWS;
use crate::constants::NO_BLOCK_CODE;

verus! {

/// Why a textual grid snapshot was rejected.
#[derive(Clone, Copy, Debug, PartialEq, Eq, Structural)]
pub enum SnapshotError {
    /// The snapshot does not have exactly `GAME_ARENA_ROWS` rows of
    /// `GAME_ARENA_COLUMNS` cells each.
    WrongDimensions,
    /// A cell code is neither the empty-cell code nor a palette color code.
    UnknownColorCode,
    /// A column has a hole below an occupied cell, which the settled pile
    /// never has.
    FloatingBlock,
}

/// The byte is a blank separating snapshot cells: space, tab or carriage
/// return.
pub open spec fn is_blank(b: u8) -> bool {
    b == 32 || b == 9 || b == 13
}

/// The snapshot line separator.
pub open spec fn is_newline(b: u8) -> bool {
    b == 10
}

/// The snapshot has exactly the arena's dimensions.
pub open spec fn snapshot_dims_ok(rows: Seq<Vec<u8>>) -> bool {
    &&& rows.len() == GAME_ARENA_ROWS
    &&& forall|i: int| 0 <= i < rows.len() ==> (#[trigger] rows[i])@.len() == GAME_ARENA_COLUMNS
}

/// Every cell code is the empty-cell code or a palette color code.
pub open spec fn snapshot_codes_ok(rows: Seq<Vec<u8>>) -> bool {
    forall|i: int, j: int|
        0 <= i < rows.len() && 0 <= j < rows[i]@.len() ==> ((#[trigger] rows[i]@[j])
            == NO_BLOCK_CODE || BlockColor::from_code_spec(rows[i]@[j]) is Some)
}

/// The grid cell in column `c`, row `r` (row 0 = floor) that the snapshot
/// describes; snapshot rows run top to bottom.
pub open spec fn snapshot_cell(rows: Seq<Vec<u8>>, c: int, r: int) -> Option<BlockColor> {
    BlockColor::from_code_spec(rows[GAME_ARENA_ROWS - 1 - r]@[c])
}

/// No column of the snapshot has an empty cell below an occupied one.
pub open spec fn snapshot_contiguous(rows: Seq<Vec<u8>>) -> bool {
    forall|c: int, r: int|
        0 <= c < GAME_ARENA_COLUMNS && 0 <= r < GAME_ARENA_ROWS - 1 ==> ((#[trigger] snapshot_cell(
            rows,
            c,
            r + 1,
        )) is Some ==> snapshot_cell(rows, c, r) is Some)
}

/// The byte can stand in a snapshot row: it occurs in the text and is
/// neither a blank nor a line separator.
pub open spec fn snapshot_code_from(text: Seq<u8>, b: u8) -> bool {
    !is_blank(b) && !is_newline(b) && text.contains(b)
}

/// The split of the text's first `k` bytes: the completed rows, the codes
/// of the still-open line, and whether the last byte sat inside a token.
/// A newline completes a row, a blank ends a token, and any other byte
/// opens a token whose first byte becomes the cell code.
pub open spec fn rows_state(text: Seq<u8>, k: int) -> (Seq<Seq<u8>>, Seq<u8>, bool)
    decreases k,
{
    if k <= 0 {
        (Seq::<Seq<u8>>::empty(), Seq::<u8>::empty(), false)
    } else {
        let (rows, cur, in_tok) = rows_state(text, k - 1);
        let b = text[k - 1];
        if is_newline(b) {
            (rows.push(cur), Seq::<u8>::empty(), false)
        } else if is_blank(b) {
            (rows, cur, false)
        } else if !in_tok {
            (rows, cur.push(b), true)
        } else {
            (rows, cur, true)
        }
    }
}

/// The rows a textual snapshot splits into: one row per line, one code per
/// blank-separated token (the token's first byte), with an unterminated
/// final line kept when it holds any code.
pub open spec fn snapshot_rows_spec(text: Seq<u8>) -> Seq<Seq<u8>> {
    let (rows, cur, in_tok) = rows_state(text, text.len() as int);
    if cur.len() > 0 {
        rows.push(cur)
    } else {
        rows
    }
}

/// Split a textual snapshot into rows of cell codes: exactly
/// `snapshot_rows_spec` of the text. The grid built from the rows is
/// validated by `Pile::from_snapshot`.
#[verifier::loop_isolation(false)]
pub fn snapshot_rows(text: &Vec<u8>) -> (rows: Vec<Vec<u8>>)
    ensures
        rows@.map_values(|v: Vec<u8>| v@) == snapshot_rows_spec(text@),
        forall|i: int, j: int|
            0 <= i < rows@.len() && 0 <= j < rows@[i]@.len() ==> snapshot_code_from(
                text@,
                #[trigger] rows@[i]@[j],
            ),
{
    let mut rows: Vec<Vec<u8>> = Vec::new();
    let mut current: Vec<u8> = Vec::new();
    let mut in_token = false;
    let mut k: usize = 0;
    while k < text.len()
        invariant
            k <= text@.len(),
            (rows@.map_values(|v: Vec<u8>| v@), current@, in_token) == rows_state(
                text@,
                k as int,
            ),
            forall|i: int, j: int|
                0 <= i < rows@.len() && 0 <= j < rows@[i]@.len() ==> snapshot_code_from(
                    text@,
                    #[trigger] rows@[i]@[j],
                ),
            forall|j: int|
                0 <= j < current@.len() ==> snapshot_code_from(text@, #[trigger] current@[j]),
        decreases text@.len() - k,
    {
        let b = text[k];
        let ghost pre_rows = rows@;
        let ghost line = current@;
        if b == 10 {
            rows.push(current);
            current = Vec::new();
            in_token = false;
            proof {
                assert(rows@.map_values(|v: Vec<u8>| v@) =~= pre_rows.map_values(
                    |v: Vec<u8>| v@,
                ).push(line));
                assert forall|i: int, j: int|
                    0 <= i < rows@.len() && 0 <= j < rows@[i]@.len() implies snapshot_code_from(
                    text@,
                    #[trigger] rows@[i]@[j],
                ) by {
                    if i < rows@.len() - 1 {
                        assert(rows@[i] == pre_rows[i]);
                    } else {
                        assert(rows@[i]@ == line);
                    }
                }
            }
        } else if b == 32 || b == 9 || b == 13 {
            in_token = false;
        } else {
            if !in_token {
                proof {
                    assert(text@[k as int] == b);
                    assert(text@.contains(b));
                }
                current.push(b);
            }
            in_token = true;
        }
        proof {
            assert(rows_state(text@, k + 1) == (rows@.map_values(|v: Vec<u8>| v@), current@, in_token));
        }
        k += 1;
    }
    let ghost pre_rows = rows@;
    let ghost line = current@;
    if current.len() > 0 {
        rows.push(current);
        proof {
            assert(rows@.map_values(|v: Vec<u8>| v@) =~= pre_rows.map_values(
                |v: Vec<u8>| v@,
            ).push(line));
            assert forall|i: int, j: int|
                0 <= i < rows@.len() && 0 <= j < rows@[i]@.len() implies snapshot_code_from(
                text@,
                #[trigger] rows@[i]@[j],
            ) by {
                if i < rows@.len() - 1 {
                    assert(rows@[i] == pre_rows[i]);
                } else {
                    assert(rows@[i]@ == line);
                }
            }
        }
    }
    rows
}

impl Pile {
    /// Build a pile from a snapshot's rows of cell codes, rejecting a
    /// snapshot whose dimensions or codes do not match the arena and the
    /// palette, or whose columns have holes.
    #[verifier::loop_isolation(false)]
    pub fn from_snapshot(rows: &Vec<Vec<u8>>) -> (r: Result<Pile, SnapshotError>)
        ensures
            !snapshot_dims_ok(rows@) <==> r == Err::<Pile, SnapshotError>(
                SnapshotError::WrongDimensions,
            ),
            snapshot_dims_ok(rows@) && !snapshot_codes_ok(rows@) <==> r == Err::<
                Pile,
                SnapshotError,
            >(SnapshotError::UnknownColorCode),
            snapshot_dims_ok(rows@) && snapshot_codes_ok(rows@) && !snapshot_contiguous(rows@)
                <==> r == Err::<Pile, SnapshotError>(SnapshotError::FloatingBlock),
            r is Ok ==> ({
                let p = r->Ok_0;
                &&& p.inv()
                &&& forall|c: int, rr: int|
                    0 <= c < GAME_ARENA_COLUMNS && 0 <= rr < GAME_ARENA_ROWS
                        ==> #[trigger] p.cell(c, rr) == snapshot_cell(rows@, c, rr)
            }),
    {
        if rows.len() != GAME_ARENA_ROWS {
            return Err(SnapshotError::WrongDimensions);
        }
        let mut i: usize = 0;
        while i < GAME_ARENA_ROWS
            invariant
                i <= GAME_ARENA_ROWS,
                forall|i2: int| 0 <= i2 < i ==> (#[trigger] rows@[i2])@.len() == GAME_ARENA_COLUMNS,
            decreases GAME_ARENA_ROWS - i,
        {
            if rows[i].len() != GAME_ARENA_COLUMNS {
                return Err(SnapshotError::WrongDimensions);
            }
            i += 1;
        }
        let mut i: usize = 0;
        while i < GAME_ARENA_ROWS
            invariant
                i <= GAME_ARENA_ROWS,
                snapshot_dims_ok(rows@),
                forall|i2: int, j2: int|
                    0 <= i2 < i && 0 <= j2 < rows@[i2]@.len() ==> ((#[trigger] rows@[i2]@[j2])
                        == NO_BLOCK_CODE || BlockColor::from_code_spec(rows@[i2]@[j2]) is Some),
            decreases GAME_ARENA_ROWS - i,
        {
            let mut j: usize = 0;
            while j < GAME_ARENA_COLUMNS
                invariant
                    j <= GAME_ARENA_COLUMNS,
                    i < GAME_ARENA_ROWS,
                    snapshot_dims_ok(rows@),
                    forall|j2: int|
                        0 <= j2 < j ==> ((#[trigger] rows@[i as int]@[j2]) == NO_BLOCK_CODE
                            || BlockColor::from_code_spec(rows@[i as int]@[j2]) is Some),
                decreases GAME_ARENA_COLUMNS - j,
            {
                let code = rows[i][j];
                if code != NO_BLOCK_CODE && BlockColor::from_code(code).is_none() {
                    proof {
                        assert(rows@[i as int]@[j as int] != NO_BLOCK_CODE
                            && !(BlockColor::from_code_spec(rows@[i as int]@[j as int]) is Some));
                        assert(!snapshot_codes_ok(rows@));
                    }
                    return Err(SnapshotError::UnknownColorCode);
                }
                j += 1;
            }
            i += 1;
        }
        let mut matrix: Vec<Vec<Option<BlockColor>>> = Vec::new();
        let mut column_tops: Vec<i32> = Vec::new();
        let mut c: usize = 0;
        while c < GAME_ARENA_COLUMNS
            invariant
                c <= GAME_ARENA_COLUMNS,
                snapshot_dims_ok(rows@),
                snapshot_codes_ok(rows@),
                matrix@.len() == c,
                column_tops@.len() == c,
                forall|c2: int|
                    0 <= c2 < c ==> (#[trigger] matrix@[c2])@.len() == GAME_ARENA_ROWS,
                forall|c2: int, rr: int|
                    0 <= c2 < c && 0 <= rr < GAME_ARENA_ROWS ==> #[trigger] matrix@[c2]@[rr]
                        == snapshot_cell(rows@, c2, rr),
                forall|c2: int|
                    0 <= c2 < c ==> -1 <= #[trigger] column_tops@[c2] < GAME_ARENA_ROWS,
                forall|c2: int, rr: int|
                    0 <= c2 < c && 0 <= rr < GAME_ARENA_ROWS ==> ((#[trigger] matrix@[c2]@[rr])
                        is Some <==> rr <= column_tops@[c2]),
            decreases GAME_ARENA_COLUMNS - c,
        {
            let mut column: Vec<Option<BlockColor>> = Vec::new();
            let mut rr: usize = 0;
            while rr < GAME_ARENA_ROWS
                invariant
                    rr <= GAME_ARENA_ROWS,
                    c < GAME_ARENA_COLUMNS,
                    snapshot_dims_ok(rows@),
                    snapshot_codes_ok(rows@),
                    column@.len() == rr,
                    forall|rr2: int|
                        0 <= rr2 < rr ==> #[trigger] column@[rr2] == snapshot_cell(rows@, c as int, rr2),
                decreases GAME_ARENA_ROWS - rr,
            {
                let code = rows[GAME_ARENA_ROWS - 1 - rr][c];
                column.push(BlockColor::from_code(code));
                rr += 1;
            }
            let mut top: i32 = -1;
            let mut rr: usize = 0;
            while rr < GAME_ARENA_ROWS
                invariant
                    rr <= GAME_ARENA_ROWS,
                    c < GAME_ARENA_COLUMNS,
                    column@.len() == GAME_ARENA_ROWS,
                    forall|rr2: int|
                        0 <= rr2 < GAME_ARENA_ROWS ==> #[trigger] column@[rr2] == snapshot_cell(
                            rows@,
                            c as int,
                            rr2,
                        ),
                    -1 <= top < GAME_ARENA_ROWS,
                    top < rr,
                    forall|rr2: int|
                        0 <= rr2 < rr ==> ((#[trigger] column@[rr2]) is Some <==> rr2 <= top),
                decreases GAME_ARENA_ROWS - rr,
            {
                match column[rr] {
                    Some(_) => {
                        if rr as i32 != top + 1 {
                            proof {
                                assert(column@[rr - 1] is None);
                                assert(snapshot_cell(rows@, c as int, (rr - 1) + 1) is Some);
                                assert(!(snapshot_cell(rows@, c as int, rr - 1) is Some));
                                assert(!snapshot_contiguous(rows@));
                            }
                            return Err(SnapshotError::FloatingBlock);
                        }
                        top = rr as i32;
                    },
                    None => {
                    },
                }
                rr += 1;
            }
            matrix.push(column);
            column_tops.push(top);
            c += 1;
        }
        let pile = Pile { matrix, column_tops };
        proof {
            assert forall|c2: int, rr2: int|
                0 <= c2 < GAME_ARENA_COLUMNS && 0 <= rr2 < GAME_ARENA_ROWS - 1 implies ((
            #[trigger] snapshot_cell(rows@, c2, rr2 + 1)) is Some ==> snapshot_cell(
                rows@,
                c2,
                rr2,
            ) is Some) by {
                if snapshot_cell(rows@, c2, rr2 + 1) is Some {
                    assert(pile.matrix@[c2]@[rr2 + 1] == snapshot_cell(rows@, c2, rr2 + 1));
                    assert(rr2 + 1 <= pile.column_tops@[c2]);
                    assert(pile.matrix@[c2]@[rr2] is Some);
                }
            }
            assert(snapshot_contiguous(rows@));
            assert forall|c2: int| 0 <= c2 < GAME_ARENA_COLUMNS implies #[trigger] pile
                .col_contiguous(c2) by {}
            assert(pile.inv());
        }
        Ok(pile)
    }
}

} // verus!
