use vstd::prelude::*;

use crate::blocks::BlockColor;
use crate::blocks::pile::Pile;
use crate::constants::GAME_ARENA_COLUMNS;
use crate::constants::GAME_ARENA_ROWS;

verus! {

/// One of the four directions along which runs of equal colors match.
#[derive(Clone, Copy, Debug, PartialEq, Eq, Structural)]
pub enum Direction {
    Vertical,
    Horizontal,
    DiagonalSlash,
    DiagonalBackslash,
}

/// The column offset from one cell of a run to the next, in scan order.
/// Vertical runs are scanned top to bottom, horizontal runs left to right,
/// "/" diagonals up-right, "\" diagonals down-left (row always ascending for
/// the diagonals).
pub open spec fn step_col(d: Direction) -> int {
    match d {
        Direction::Vertical => 0,
        Direction::Horizontal => 1,
        Direction::DiagonalSlash => 1,
        Direction::DiagonalBackslash => -1,
    }
}

/// The row offset companion of `step_col`.
pub open spec fn step_row(d: Direction) -> int {
    match d {
        Direction::Vertical => -1,
        Direction::Horizontal => 0,
        Direction::DiagonalSlash => 1,
        Direction::DiagonalBackslash => 1,
    }
}

/// The coordinate is on the grid.
pub open spec fn in_bounds(c: int, r: int) -> bool {
    0 <= c < GAME_ARENA_COLUMNS && 0 <= r < GAME_ARENA_ROWS
}

/// One maximal run of three or more same-colored cells along a direction,
/// as the ordered list of its coordinates.
pub struct MatchRun {
    pub direction: Direction,
    pub cells: Vec<(usize, usize)>,
}

/// `cells` is a valid match run of direction `d` on pile `p`: at least 3
/// occupied, equal-colored, consecutive cells along `d`, and not extendable
/// at either end.
pub open spec fn run_valid(p: Pile, d: Direction, cells: Seq<(usize, usize)>) -> bool {
    &&& cells.len() >= 3
    &&& forall|i: int|
        0 <= i < cells.len() ==> in_bounds((#[trigger] cells[i]).0 as int, cells[i].1 as int)
    &&& forall|i: int|
        0 <= i < cells.len() ==> (#[trigger] p.cell(cells[i].0 as int, cells[i].1 as int))
            == p.cell(cells[0].0 as int, cells[0].1 as int)
    &&& p.cell(cells[0].0 as int, cells[0].1 as int) is Some
    &&& forall|i: int|
        0 <= i < cells.len() - 1 ==> ((#[trigger] cells[i + 1]).0 == cells[i].0 + step_col(d)
            && cells[i + 1].1 == cells[i].1 + step_row(d))
    &&& !(in_bounds(cells[0].0 - step_col(d), cells[0].1 - step_row(d)) && p.cell(
        cells[0].0 - step_col(d),
        cells[0].1 - step_row(d),
    ) == p.cell(cells[0].0 as int, cells[0].1 as int))
    &&& !(in_bounds(
        cells[cells.len() - 1].0 + step_col(d),
        cells[cells.len() - 1].1 + step_row(d),
    ) && p.cell(cells[cells.len() - 1].0 + step_col(d), cells[cells.len() - 1].1 + step_row(d))
        == p.cell(cells[0].0 as int, cells[0].1 as int))
}

/// Three consecutive same-colored occupied cells of direction `d` start at
/// (`sc`, `sr`).
pub open spec fn triple_at(p: Pile, d: Direction, sc: int, sr: int) -> bool {
    &&& in_bounds(sc, sr)
    &&& in_bounds(sc + 2 * step_col(d), sr + 2 * step_row(d))
    &&& p.cell(sc, sr) is Some
    &&& p.cell(sc + step_col(d), sr + step_row(d)) == p.cell(sc, sr)
    &&& p.cell(sc + 2 * step_col(d), sr + 2 * step_row(d)) == p.cell(sc, sr)
}

/// The cell (`c`, `r`) belongs to some aligned triple of equal colors in
/// direction `d`: it must then be part of a reported match run.
pub open spec fn in_triple(p: Pile, d: Direction, c: int, r: int) -> bool {
    exists|sc: int, sr: int|
        #[trigger] triple_at(p, d, sc, sr) && ((c == sc && r == sr) || (c == sc + step_col(d) && r
            == sr + step_row(d)) || (c == sc + 2 * step_col(d) && r == sr + 2 * step_row(d)))
}

/// The cell appears in some run of direction `d` in the list.
pub open spec fn cell_covered(runs: Seq<MatchRun>, d: Direction, cell: (usize, usize)) -> bool {
    exists|k: int, m: int|
        0 <= k < runs.len() && runs[k].direction == d && 0 <= m < runs[k].cells@.len()
            && #[trigger] runs[k].cells@[m] == cell
}

/// The whole contract of `search_for_matches` as one predicate over a
/// result list: soundness (every run valid and maximal), completeness
/// (every triple-covered cell reported in its direction), and uniqueness
/// (within one direction no cell is reported twice).
pub open spec fn search_result_ok(p: Pile, runs: Seq<MatchRun>) -> bool {
    &&& forall|k: int|
        0 <= k < runs.len() ==> run_valid(p, (#[trigger] runs[k]).direction, runs[k].cells@)
    &&& forall|c: int, r: int, d: Direction|
        #[trigger] in_triple(p, d, c, r) ==> cell_covered(runs, d, ((c as usize, r as usize)))
    &&& forall|k1: int, q1: int, k2: int, q2: int|
        0 <= k1 < runs.len() && 0 <= k2 < runs.len() && 0 <= q1 < runs[k1].cells@.len() && 0 <= q2
            < runs[k2].cells@.len() && (k1 != k2 || q1 != q2) && runs[k1].direction
            == runs[k2].direction ==> #[trigger] runs[k1].cells@[q1]
            != #[trigger] runs[k2].cells@[q2]
}

/// The pile holds at least one aligned triple of equal colors: exactly
/// when a search returns a non-empty result.
pub open spec fn has_match(p: Pile) -> bool {
    exists|c: int, r: int, d: Direction| in_triple(p, d, c, r)
}

/// Law: a search result is empty exactly when the pile holds no aligned
/// triple at all.
pub proof fn lemma_search_result_empty(p: Pile, runs: Seq<MatchRun>)
    requires
        search_result_ok(p, runs),
    ensures
        runs.len() == 0 <==> !has_match(p),
{
    if runs.len() > 0 {
        let cells = runs[0].cells@;
        let d = runs[0].direction;
        assert(run_valid(p, d, cells));
        assert(cells[0int + 1].0 == cells[0].0 + step_col(d) && cells[0int + 1].1 == cells[0].1
            + step_row(d));
        assert(cells[1int + 1].0 == cells[1].0 + step_col(d) && cells[1int + 1].1 == cells[1].1
            + step_row(d));
        let sc = cells[0].0 as int;
        let sr = cells[0].1 as int;
        assert(p.cell(cells[1].0 as int, cells[1].1 as int) == p.cell(sc, sr));
        assert(p.cell(cells[2].0 as int, cells[2].1 as int) == p.cell(sc, sr));
        assert(in_bounds(cells[2].0 as int, cells[2].1 as int));
        assert(triple_at(p, d, sc, sr));
        assert(in_triple(p, d, sc, sr));
        assert(has_match(p));
    }
    if has_match(p) {
        let (c, r, d) = choose|c: int, r: int, d: Direction| in_triple(p, d, c, r);
        assert(cell_covered(runs, d, ((c as usize, r as usize))));
        assert(runs.len() > 0);
    }
}

/// The scan line's cells are all on the grid.
pub open spec fn line_in_bounds(line: Seq<(usize, usize)>) -> bool {
    forall|j: int| 0 <= j < line.len() ==> in_bounds((#[trigger] line[j]).0 as int, line[j].1 as int)
}

/// Consecutive line cells follow each other along direction `d`.
pub open spec fn line_consecutive(d: Direction, line: Seq<(usize, usize)>) -> bool {
    forall|j: int|
        0 <= j < line.len() - 1 ==> ((#[trigger] line[j + 1]).0 == line[j].0 + step_col(d) && line[j
            + 1].1 == line[j].1 + step_row(d))
}

/// The line cannot be extended by an occupied cell at either end: the cell
/// before its head and the cell after its tail are off the grid or empty.
pub open spec fn line_open(p: Pile, d: Direction, line: Seq<(usize, usize)>) -> bool {
    &&& line.len() > 0 ==> !(in_bounds(line[0].0 - step_col(d), line[0].1 - step_row(d)) && p.cell(
        line[0].0 - step_col(d),
        line[0].1 - step_row(d),
    ) is Some)
    &&& line.len() > 0 ==> !(in_bounds(
        line[line.len() - 1].0 + step_col(d),
        line[line.len() - 1].1 + step_row(d),
    ) && p.cell(line[line.len() - 1].0 + step_col(d), line[line.len() - 1].1 + step_row(d)) is Some)
}

/// A triple of equal colors sits at line positions `j0`, `j0 + 1`, `j0 + 2`.
pub open spec fn line_triple(p: Pile, line: Seq<(usize, usize)>, j0: int) -> bool {
    &&& 0 <= j0
    &&& j0 + 2 < line.len()
    &&& p.cell(line[j0].0 as int, line[j0].1 as int) is Some
    &&& p.cell(line[j0 + 1].0 as int, line[j0 + 1].1 as int) == p.cell(
        line[j0].0 as int,
        line[j0].1 as int,
    )
    &&& p.cell(line[j0 + 2].0 as int, line[j0 + 2].1 as int) == p.cell(
        line[j0].0 as int,
        line[j0].1 as int,
    )
}

/// A cell covered by some run stays covered when another run is appended.
proof fn lemma_cell_covered_push(runs: Seq<MatchRun>, run: MatchRun, d: Direction, cell: (usize, usize))
    requires
        cell_covered(runs, d, cell),
    ensures
        cell_covered(runs.push(run), d, cell),
{
    let (k, m) = choose|k: int, m: int|
        0 <= k < runs.len() && runs[k].direction == d && 0 <= m < runs[k].cells@.len()
            && #[trigger] runs[k].cells@[m] == cell;
    assert(runs.push(run)[k] == runs[k]);
}

/// A cell covered by some run stays covered in any extension of the list.
proof fn lemma_cell_covered_extend(
    pre: Seq<MatchRun>,
    post: Seq<MatchRun>,
    d: Direction,
    cell: (usize, usize),
)
    requires
        cell_covered(pre, d, cell),
        post.len() >= pre.len(),
        forall|k: int| 0 <= k < pre.len() ==> #[trigger] post[k] == pre[k],
    ensures
        cell_covered(post, d, cell),
{
    let (k, m) = choose|k: int, m: int|
        0 <= k < pre.len() && pre[k].direction == d && 0 <= m < pre[k].cells@.len()
            && #[trigger] pre[k].cells@[m] == cell;
    assert(post[k] == pre[k]);
    assert(post[k].cells@[m] == cell);
}

/// Each run cell sits `i` steps along the run direction from the first.
proof fn lemma_run_cells_linear(d: Direction, cells: Seq<(usize, usize)>, i: int)
    requires
        forall|j: int|
            0 <= j < cells.len() - 1 ==> ((#[trigger] cells[j + 1]).0 == cells[j].0 + step_col(d)
                && cells[j + 1].1 == cells[j].1 + step_row(d)),
        0 <= i < cells.len(),
    ensures
        cells[i].0 == cells[0].0 + i * step_col(d),
        cells[i].1 == cells[0].1 + i * step_row(d),
    decreases i,
{
    if i > 0 {
        lemma_run_cells_linear(d, cells, i - 1);
        assert(cells[i - 1 + 1] == cells[i]);
        assert((i - 1) * step_col(d) + step_col(d) == i * step_col(d)) by (nonlinear_arith);
        assert((i - 1) * step_row(d) + step_row(d) == i * step_row(d)) by (nonlinear_arith);
    } else {
        assert(0 * step_col(d) == 0) by (nonlinear_arith);
        assert(0 * step_row(d) == 0) by (nonlinear_arith);
    }
}

/// The cell sits at a line position below `bound`.
pub open spec fn cell_on_line_below(line: Seq<(usize, usize)>, bound: int, cell: (usize, usize)) -> bool {
    exists|p: int| 0 <= p < bound && p < line.len() && #[trigger] line[p] == cell
}

/// Distinct positions of a scan line hold distinct cells: along every
/// direction at least one coordinate moves strictly.
proof fn lemma_line_injective(d: Direction, line: Seq<(usize, usize)>, p1: int, p2: int)
    requires
        line_consecutive(d, line),
        0 <= p1 < line.len(),
        0 <= p2 < line.len(),
        p1 != p2,
    ensures
        line[p1] != line[p2],
{
    lemma_run_cells_linear(d, line, p1);
    lemma_run_cells_linear(d, line, p2);
    match d {
        Direction::Horizontal => {
            assert(p1 * step_col(d) != p2 * step_col(d)) by (nonlinear_arith)
                requires
                    step_col(d) == 1 && p1 != p2,
            ;
        },
        _ => {
            assert(p1 * step_row(d) != p2 * step_row(d)) by (nonlinear_arith)
                requires
                    (step_row(d) == 1 || step_row(d) == -1) && p1 != p2,
            ;
        },
    }
}

/// Law: a match run never has fewer than three cells, and it fits on the
/// grid, whose longer side has `GAME_ARENA_ROWS` cells.
pub proof fn lemma_run_valid_len_bound(p: Pile, d: Direction, cells: Seq<(usize, usize)>)
    requires
        run_valid(p, d, cells),
    ensures
        3 <= cells.len() <= GAME_ARENA_ROWS,
{
    let n = cells.len() as int;
    lemma_run_cells_linear(d, cells, n - 1);
    match d {
        Direction::Vertical => {
            assert((n - 1) * step_row(d) == -(n - 1)) by (nonlinear_arith)
                requires
                    step_row(d) == -1,
            ;
            assert(cells[n - 1].1 == cells[0].1 - (n - 1));
            assert(in_bounds(cells[0].0 as int, cells[0].1 as int));
        },
        Direction::Horizontal => {
            assert((n - 1) * step_col(d) == n - 1) by (nonlinear_arith)
                requires
                    step_col(d) == 1,
            ;
            assert(cells[n - 1].0 == cells[0].0 + (n - 1));
            assert(in_bounds(cells[n - 1].0 as int, cells[n - 1].1 as int));
        },
        Direction::DiagonalSlash => {
            assert((n - 1) * step_row(d) == n - 1) by (nonlinear_arith)
                requires
                    step_row(d) == 1,
            ;
            assert(cells[n - 1].1 == cells[0].1 + (n - 1));
            assert(in_bounds(cells[n - 1].0 as int, cells[n - 1].1 as int));
        },
        Direction::DiagonalBackslash => {
            assert((n - 1) * step_row(d) == n - 1) by (nonlinear_arith)
                requires
                    step_row(d) == 1,
            ;
            assert(cells[n - 1].1 == cells[0].1 + (n - 1));
            assert(in_bounds(cells[n - 1].0 as int, cells[n - 1].1 as int));
        },
    }
}

/// Law: `search_for_matches` never returns a run shorter than 3; the bound
/// is part of what `run_valid` states of every returned run.
pub proof fn lemma_match_run_min_length(p: Pile, d: Direction, cells: Seq<(usize, usize)>)
    requires
        run_valid(p, d, cells),
    ensures
        cells.len() >= 3,
{
}

impl Pile {
    /// Walk one maximal scan line and append every maximal run of three or
    /// more equal-colored cells on it to `matches`. A run breaks on an empty
    /// cell or on a color change.
    #[verifier::loop_isolation(false)]
    #[verifier::rlimit(60)]
    fn search_sequence_for_matches(
        &self,
        direction: Direction,
        line: &Vec<(usize, usize)>,
        matches: &mut Vec<MatchRun>,
    )
        requires
            self.shape_wf(),
            line_in_bounds(line@),
            line_consecutive(direction, line@),
            line_open(*self, direction, line@),
        ensures
            final(matches)@.len() >= old(matches)@.len(),
            forall|k: int|
                0 <= k < old(matches)@.len() ==> #[trigger] final(matches)@[k] == old(matches)@[k],
            forall|k: int|
                old(matches)@.len() <= k < final(matches)@.len() ==> (#[trigger] final(matches)@[k]).direction == direction && run_valid(
                    *self,
                    direction,
                    final(matches)@[k].cells@,
                ),
            forall|j0: int|
                #[trigger] line_triple(*self, line@, j0) ==> cell_covered(
                    final(matches)@,
                    direction,
                    line@[j0],
                ) && cell_covered(final(matches)@, direction, line@[j0 + 1]) && cell_covered(
                    final(matches)@,
                    direction,
                    line@[j0 + 2],
                ),
            forall|k: int, m: int|
                old(matches)@.len() <= k < final(matches)@.len() && 0 <= m < final(matches)@[k].cells@.len() ==> cell_on_line_below(
                    line@,
                    line@.len() as int,
                    #[trigger] final(matches)@[k].cells@[m],
                ),
            forall|k1: int, m1: int, k2: int, m2: int|
                old(matches)@.len() <= k1 < final(matches)@.len() && old(matches)@.len() <= k2
                    < final(matches)@.len() && 0 <= m1 < final(matches)@[k1].cells@.len() && 0 <= m2
                    < final(matches)@[k2].cells@.len() && (k1 != k2 || m1 != m2) ==> #[trigger] final(matches)@[k1].cells@[m1] != #[trigger] final(matches)@[k2].cells@[m2],
    {
        let ghost old_len = matches@.len() as int;
        let mut collector: Vec<(usize, usize)> = Vec::new();
        let mut j: usize = 0;
        while j < line.len()
            invariant
                j <= line@.len(),
                collector@.len() <= j,
                collector@ =~= line@.subrange(j - collector@.len(), j as int),
                forall|m: int|
                    j - collector@.len() <= m < j ==> (#[trigger] self.cell(
                        line@[m].0 as int,
                        line@[m].1 as int,
                    )) == self.cell(
                        line@[j - collector@.len()].0 as int,
                        line@[j - collector@.len()].1 as int,
                    ),
                collector@.len() > 0 ==> self.cell(
                    line@[j - collector@.len()].0 as int,
                    line@[j - collector@.len()].1 as int,
                ) is Some,
                collector@.len() > 0 && j - collector@.len() > 0 ==> self.cell(
                    line@[j - collector@.len() - 1].0 as int,
                    line@[j - collector@.len() - 1].1 as int,
                ) != self.cell(
                    line@[j - collector@.len()].0 as int,
                    line@[j - collector@.len()].1 as int,
                ),
                collector@.len() == 0 && j > 0 ==> self.cell(
                    line@[j - 1].0 as int,
                    line@[j - 1].1 as int,
                ) is None,
                matches@.len() >= old_len,
                forall|k: int| 0 <= k < old_len ==> #[trigger] matches@[k] == old(matches)@[k],
                forall|k: int|
                    old_len <= k < matches@.len() ==> (#[trigger] matches@[k]).direction
                        == direction && run_valid(*self, direction, matches@[k].cells@),
                forall|j0: int|
                    #[trigger] line_triple(*self, line@, j0) && j0 + 2 < j - collector@.len()
                        ==> cell_covered(matches@, direction, line@[j0]) && cell_covered(
                        matches@,
                        direction,
                        line@[j0 + 1],
                    ) && cell_covered(matches@, direction, line@[j0 + 2]),
                forall|k: int, m: int|
                    old_len <= k < matches@.len() && 0 <= m < matches@[k].cells@.len()
                        ==> cell_on_line_below(
                        line@,
                        j - collector@.len(),
                        #[trigger] matches@[k].cells@[m],
                    ),
                forall|k1: int, m1: int, k2: int, m2: int|
                    old_len <= k1 < matches@.len() && old_len <= k2 < matches@.len() && 0 <= m1
                        < matches@[k1].cells@.len() && 0 <= m2 < matches@[k2].cells@.len() && (k1
                        != k2 || m1 != m2) ==> #[trigger] matches@[k1].cells@[m1]
                        != #[trigger] matches@[k2].cells@[m2],
            decreases line@.len() - j,
        {
            let ghost start = j - collector@.len();
            let cell_pos = line[j];
            let current = self.matrix[cell_pos.0][cell_pos.1];
            let flush: bool;
            match current {
                None => {
                    flush = true;
                },
                Some(color) => {
                    let mut break_run = false;
                    if collector.len() > 0 {
                        let prev_pos = collector[collector.len() - 1];
                        proof {
                            assert(collector@[collector@.len() - 1] == line@[j - 1]);
                        }
                        let prev = self.matrix[prev_pos.0][prev_pos.1];
                        match prev {
                            Some(prev_color) => {
                                if prev_color != color {
                                    break_run = true;
                                }
                            },
                            None => {
                                proof {
                                    assert(self.cell(line@[j - 1].0 as int, line@[j - 1].1 as int)
                                        == self.cell(
                                        line@[start].0 as int,
                                        line@[start].1 as int,
                                    ));
                                    assert(false);
                                }
                            },
                        }
                    }
                    flush = break_run;
                },
            }
            if flush {
                let run_cells = collector;
                collector = Vec::new();
                let ghost seg = run_cells@;
                proof {
                    if seg.len() >= 3 {
                        assert forall|i: int| 0 <= i < seg.len() implies #[trigger] seg[i]
                            == line@[start + i] by {
                            assert(seg[i] == line@.subrange(start, j as int)[i]);
                        }
                        assert(run_valid(*self, direction, seg)) by {
                            assert(seg[0] == line@[start]);
                            assert forall|i: int|
                                0 <= i < seg.len() implies in_bounds(
                                (#[trigger] seg[i]).0 as int,
                                seg[i].1 as int,
                            ) by {
                                assert(seg[i] == line@[start + i]);
                            }
                            assert forall|i: int|
                                0 <= i < seg.len() implies (#[trigger] self.cell(
                                seg[i].0 as int,
                                seg[i].1 as int,
                            )) == self.cell(seg[0].0 as int, seg[0].1 as int) by {
                                assert(seg[i] == line@[start + i]);
                                assert(self.cell(line@[start + i].0 as int, line@[start + i].1 as int)
                                    == self.cell(line@[start].0 as int, line@[start].1 as int));
                            }
                            assert forall|i: int|
                                0 <= i < seg.len() - 1 implies ((#[trigger] seg[i + 1]).0 == seg[i].0
                                + step_col(direction) && seg[i + 1].1 == seg[i].1 + step_row(
                                direction,
                            )) by {
                                assert(seg[i] == line@[start + i]);
                                assert(seg[i + 1] == line@[start + i + 1]);
                            }
                            if start > 0 {
                                assert(line@[start - 1 + 1].0 == line@[start - 1].0 + step_col(
                                    direction,
                                ));
                                assert(line@[start - 1 + 1].1 == line@[start - 1].1 + step_row(
                                    direction,
                                ));
                                assert(line@[start] == line@[start - 1 + 1]);
                                assert(seg[0].0 - step_col(direction) == line@[start - 1].0);
                                assert(seg[0].1 - step_row(direction) == line@[start - 1].1);
                            }
                            assert(seg[seg.len() - 1] == line@[j - 1]);
                            assert(line@[(j - 1) + 1].0 == line@[j - 1].0 + step_col(direction));
                            assert(line@[(j - 1) + 1].1 == line@[j - 1].1 + step_row(direction));
                            assert(line@[j as int] == line@[(j - 1) + 1]);
                            assert(seg[seg.len() - 1].0 + step_col(direction) == line@[j as int].0);
                            assert(seg[seg.len() - 1].1 + step_row(direction) == line@[j as int].1);
                            assert(self.cell(line@[j as int].0 as int, line@[j as int].1 as int)
                                != self.cell(seg[0].0 as int, seg[0].1 as int));
                        }
                    }
                }
                let ghost pre = matches@;
                if run_cells.len() >= 3 {
                    matches.push(MatchRun { direction, cells: run_cells });
                }
                proof {
                    assert forall|j0: int|
                        #[trigger] line_triple(*self, line@, j0) && j0 + 2 < j + 1
                            - collector@.len() implies cell_covered(matches@, direction, line@[j0])
                        && cell_covered(matches@, direction, line@[j0 + 1]) && cell_covered(
                        matches@,
                        direction,
                        line@[j0 + 2],
                    ) by {
                        if j0 + 2 < start {
                            if pre.len() < matches@.len() {
                                lemma_cell_covered_push(
                                    pre,
                                    matches@[matches@.len() - 1],
                                    direction,
                                    line@[j0],
                                );
                                lemma_cell_covered_push(
                                    pre,
                                    matches@[matches@.len() - 1],
                                    direction,
                                    line@[j0 + 1],
                                );
                                lemma_cell_covered_push(
                                    pre,
                                    matches@[matches@.len() - 1],
                                    direction,
                                    line@[j0 + 2],
                                );
                                assert(matches@ =~= pre.push(matches@[matches@.len() - 1]));
                            }
                        } else {
                            assert(j0 >= start || j0 + 2 >= start);
                            assert(self.cell(line@[j0].0 as int, line@[j0].1 as int) is Some);
                            if j0 < start {
                                assert(start > 0);
                                assert(start <= j0 + 2);
                                assert(self.cell(line@[start].0 as int, line@[start].1 as int)
                                    == self.cell(line@[j0].0 as int, line@[j0].1 as int));
                                assert(self.cell(line@[start - 1].0 as int, line@[start - 1].1 as int)
                                    == self.cell(line@[j0].0 as int, line@[j0].1 as int));
                                assert(false);
                            }
                            assert(j0 + 2 < j);
                            assert(seg.len() == j - start);
                            assert(seg.len() >= 3);
                            let k = matches@.len() - 1;
                            assert(matches@[k].cells@ == seg);
                            assert(seg[j0 - start] == line@[j0]);
                            assert(seg[j0 + 1 - start] == line@[j0 + 1]);
                            assert(seg[j0 + 2 - start] == line@[j0 + 2]);
                            assert(cell_covered(matches@, direction, line@[j0]));
                            assert(cell_covered(matches@, direction, line@[j0 + 1]));
                            assert(cell_covered(matches@, direction, line@[j0 + 2]));
                        }
                    }
                    assert forall|k: int, m: int|
                        old_len <= k < matches@.len() && 0 <= m < matches@[k].cells@.len() implies cell_on_line_below(
                        line@,
                        j as int,
                        #[trigger] matches@[k].cells@[m],
                    ) by {
                        if k < pre.len() {
                            assert(matches@[k] == pre[k]);
                            let p = choose|p: int|
                                0 <= p < start && p < line@.len() && #[trigger] line@[p]
                                    == matches@[k].cells@[m];
                            assert(0 <= p < j as int);
                        } else {
                            assert(matches@[k].cells@ == seg);
                            assert(matches@[k].cells@[m] == line@[start + m]);
                            assert(0 <= start + m < j as int);
                        }
                    }
                    assert forall|k1: int, m1: int, k2: int, m2: int|
                        old_len <= k1 < matches@.len() && old_len <= k2 < matches@.len() && 0 <= m1
                            < matches@[k1].cells@.len() && 0 <= m2 < matches@[k2].cells@.len() && (k1
                            != k2 || m1 != m2) implies matches@[k1].cells@[m1]
                        != matches@[k2].cells@[m2] by {
                        if k1 < pre.len() && k2 < pre.len() {
                            assert(matches@[k1] == pre[k1]);
                            assert(matches@[k2] == pre[k2]);
                        } else if k1 >= pre.len() && k2 >= pre.len() {
                            assert(matches@[k1].cells@ == seg);
                            assert(matches@[k2].cells@ == seg);
                            assert(matches@[k1].cells@[m1] == line@[start + m1]);
                            assert(matches@[k2].cells@[m2] == line@[start + m2]);
                            lemma_line_injective(direction, line@, start + m1, start + m2);
                        } else if k1 < pre.len() {
                            assert(matches@[k1] == pre[k1]);
                            let p = choose|p: int|
                                0 <= p < start && p < line@.len() && #[trigger] line@[p]
                                    == matches@[k1].cells@[m1];
                            assert(matches@[k2].cells@ == seg);
                            assert(matches@[k2].cells@[m2] == line@[start + m2]);
                            lemma_line_injective(direction, line@, p, start + m2);
                        } else {
                            assert(matches@[k2] == pre[k2]);
                            let p = choose|p: int|
                                0 <= p < start && p < line@.len() && #[trigger] line@[p]
                                    == matches@[k2].cells@[m2];
                            assert(matches@[k1].cells@ == seg);
                            assert(matches@[k1].cells@[m1] == line@[start + m1]);
                            lemma_line_injective(direction, line@, p, start + m1);
                        }
                    }
                }
            }
            match current {
                None => {
                },
                Some(color) => {
                    collector.push(cell_pos);
                },
            }
            j += 1;
        }
        let ghost start = line@.len() - collector@.len();
        proof {
            assert(j == line@.len());
            assert forall|k: int, m: int|
                old_len <= k < matches@.len() && 0 <= m < matches@[k].cells@.len() implies cell_on_line_below(
                line@,
                start,
                #[trigger] matches@[k].cells@[m],
            ) by {
                assert(cell_on_line_below(
                    line@,
                    j - collector@.len(),
                    matches@[k].cells@[m],
                ));
            }
        }
        let run_cells = collector;
        let ghost seg = run_cells@;
        proof {
            if seg.len() >= 3 {
                assert forall|i: int| 0 <= i < seg.len() implies #[trigger] seg[i] == line@[start
                    + i] by {
                    assert(seg[i] == line@.subrange(start, line@.len() as int)[i]);
                }
                assert(run_valid(*self, direction, seg)) by {
                    assert(seg[0] == line@[start]);
                    assert forall|i: int|
                        0 <= i < seg.len() implies in_bounds(
                        (#[trigger] seg[i]).0 as int,
                        seg[i].1 as int,
                    ) by {
                        assert(seg[i] == line@[start + i]);
                    }
                    assert forall|i: int|
                        0 <= i < seg.len() implies (#[trigger] self.cell(
                        seg[i].0 as int,
                        seg[i].1 as int,
                    )) == self.cell(seg[0].0 as int, seg[0].1 as int) by {
                        assert(seg[i] == line@[start + i]);
                        assert(self.cell(line@[start + i].0 as int, line@[start + i].1 as int)
                            == self.cell(line@[start].0 as int, line@[start].1 as int));
                    }
                    assert forall|i: int|
                        0 <= i < seg.len() - 1 implies ((#[trigger] seg[i + 1]).0 == seg[i].0
                        + step_col(direction) && seg[i + 1].1 == seg[i].1 + step_row(
                        direction,
                    )) by {
                        assert(seg[i] == line@[start + i]);
                        assert(seg[i + 1] == line@[start + i + 1]);
                    }
                    if start > 0 {
                        assert(line@[start - 1 + 1].0 == line@[start - 1].0 + step_col(direction));
                        assert(line@[start - 1 + 1].1 == line@[start - 1].1 + step_row(direction));
                        assert(line@[start] == line@[start - 1 + 1]);
                    }
                    assert(seg[seg.len() - 1] == line@[line@.len() - 1]);
                }
            }
        }
        let ghost pre = matches@;
        if run_cells.len() >= 3 {
            matches.push(MatchRun { direction, cells: run_cells });
        }
        proof {
            assert forall|j0: int| #[trigger] line_triple(*self, line@, j0) implies cell_covered(
                matches@,
                direction,
                line@[j0],
            ) && cell_covered(matches@, direction, line@[j0 + 1]) && cell_covered(
                matches@,
                direction,
                line@[j0 + 2],
            ) by {
                if j0 + 2 < start {
                    if pre.len() < matches@.len() {
                        lemma_cell_covered_push(
                            pre,
                            matches@[matches@.len() - 1],
                            direction,
                            line@[j0],
                        );
                        lemma_cell_covered_push(
                            pre,
                            matches@[matches@.len() - 1],
                            direction,
                            line@[j0 + 1],
                        );
                        lemma_cell_covered_push(
                            pre,
                            matches@[matches@.len() - 1],
                            direction,
                            line@[j0 + 2],
                        );
                        assert(matches@ =~= pre.push(matches@[matches@.len() - 1]));
                    }
                } else {
                    assert(self.cell(line@[j0].0 as int, line@[j0].1 as int) is Some);
                    if j0 < start {
                        assert(start > 0);
                        assert(start <= j0 + 2);
                        assert(self.cell(line@[start].0 as int, line@[start].1 as int)
                            == self.cell(line@[j0].0 as int, line@[j0].1 as int));
                        assert(self.cell(line@[start - 1].0 as int, line@[start - 1].1 as int)
                            == self.cell(line@[j0].0 as int, line@[j0].1 as int));
                        assert(false);
                    }
                    assert(seg.len() >= 3);
                    let k = matches@.len() - 1;
                    assert(matches@[k].cells@ == seg);
                    assert(seg[j0 - start] == line@[j0]);
                    assert(seg[j0 + 1 - start] == line@[j0 + 1]);
                    assert(seg[j0 + 2 - start] == line@[j0 + 2]);
                    assert(cell_covered(matches@, direction, line@[j0]));
                    assert(cell_covered(matches@, direction, line@[j0 + 1]));
                    assert(cell_covered(matches@, direction, line@[j0 + 2]));
                }
            }
            assert(j == line@.len());
            assert forall|k: int, m: int|
                old_len <= k < matches@.len() && 0 <= m < matches@[k].cells@.len() implies cell_on_line_below(
                line@,
                line@.len() as int,
                #[trigger] matches@[k].cells@[m],
            ) by {
                if k < pre.len() {
                    assert(matches@[k] == pre[k]);
                    assert(cell_on_line_below(line@, start, pre[k].cells@[m]));
                    let p = choose|p: int|
                        0 <= p < start && p < line@.len() && #[trigger] line@[p]
                            == pre[k].cells@[m];
                    assert(line@[p] == matches@[k].cells@[m]);
                    assert(0 <= p < line@.len() as int);
                } else {
                    assert(matches@[k].cells@ == seg);
                    assert(matches@[k].cells@[m] == line@[start + m]);
                    assert(0 <= start + m < line@.len() as int);
                }
            }
            assert forall|k1: int, m1: int, k2: int, m2: int|
                old_len <= k1 < matches@.len() && old_len <= k2 < matches@.len() && 0 <= m1
                    < matches@[k1].cells@.len() && 0 <= m2 < matches@[k2].cells@.len() && (k1
                    != k2 || m1 != m2) implies matches@[k1].cells@[m1]
                != matches@[k2].cells@[m2] by {
                if k1 < pre.len() && k2 < pre.len() {
                    assert(matches@[k1] == pre[k1]);
                    assert(matches@[k2] == pre[k2]);
                } else if k1 >= pre.len() && k2 >= pre.len() {
                    assert(matches@[k1].cells@ == seg);
                    assert(matches@[k2].cells@ == seg);
                    assert(matches@[k1].cells@[m1] == line@[start + m1]);
                    assert(matches@[k2].cells@[m2] == line@[start + m2]);
                    lemma_line_injective(direction, line@, start + m1, start + m2);
                } else if k1 < pre.len() {
                    assert(matches@[k1] == pre[k1]);
                    assert(cell_on_line_below(line@, start, pre[k1].cells@[m1]));
                    let p = choose|p: int|
                        0 <= p < start && p < line@.len() && #[trigger] line@[p]
                            == pre[k1].cells@[m1];
                    assert(line@[p] == matches@[k1].cells@[m1]);
                    assert(matches@[k2].cells@ == seg);
                    assert(matches@[k2].cells@[m2] == line@[start + m2]);
                    lemma_line_injective(direction, line@, p, start + m2);
                } else {
                    assert(matches@[k2] == pre[k2]);
                    assert(cell_on_line_below(line@, start, pre[k2].cells@[m2]));
                    let p = choose|p: int|
                        0 <= p < start && p < line@.len() && #[trigger] line@[p]
                            == pre[k2].cells@[m2];
                    assert(line@[p] == matches@[k2].cells@[m2]);
                    assert(matches@[k1].cells@ == seg);
                    assert(matches@[k1].cells@[m1] == line@[start + m1]);
                    lemma_line_injective(direction, line@, p, start + m1);
                }
            }
        }
    }

    /// Scan every column with at least three blocks from its top down to the
    /// floor, collecting vertical runs.
    #[verifier::loop_isolation(false)]
    fn collect_vertical_matches(&self, matches: &mut Vec<MatchRun>)
        requires
            self.inv(),
        ensures
            final(matches)@.len() >= old(matches)@.len(),
            forall|k: int|
                0 <= k < old(matches)@.len() ==> #[trigger] final(matches)@[k] == old(matches)@[k],
            forall|k: int|
                old(matches)@.len() <= k < final(matches)@.len() ==> (#[trigger] final(matches)@[k]).direction == Direction::Vertical && run_valid(
                    *self,
                    Direction::Vertical,
                    final(matches)@[k].cells@,
                ),
            forall|c: int, r: int|
                #[trigger] in_triple(*self, Direction::Vertical, c, r) ==> cell_covered(
                    final(matches)@,
                    Direction::Vertical,
                    ((c as usize, r as usize)),
                ),
            forall|k1: int, q1: int, k2: int, q2: int|
                old(matches)@.len() <= k1 < final(matches)@.len() && old(matches)@.len() <= k2
                    < final(matches)@.len() && 0 <= q1 < final(matches)@[k1].cells@.len() && 0 <= q2
                    < final(matches)@[k2].cells@.len() && (k1 != k2 || q1 != q2)
                    ==> #[trigger] final(matches)@[k1].cells@[q1] != #[trigger] final(matches)@[k2].cells@[q2],
    {
        let ghost old_len = matches@.len() as int;
        let mut col: usize = 0;
        while col < GAME_ARENA_COLUMNS
            invariant
                col <= GAME_ARENA_COLUMNS,
                matches@.len() >= old_len,
                forall|k: int| 0 <= k < old_len ==> #[trigger] matches@[k] == old(matches)@[k],
                forall|k: int|
                    old_len <= k < matches@.len() ==> (#[trigger] matches@[k]).direction
                        == Direction::Vertical && run_valid(
                        *self,
                        Direction::Vertical,
                        matches@[k].cells@,
                    ),
                forall|c: int, r: int|
                    0 <= c < col && #[trigger] in_triple(*self, Direction::Vertical, c, r)
                        ==> cell_covered(matches@, Direction::Vertical, ((c as usize, r as usize))),
                forall|k: int, m: int|
                    old_len <= k < matches@.len() && 0 <= m < matches@[k].cells@.len()
                        ==> (#[trigger] matches@[k].cells@[m]).0 < col,
                forall|k1: int, q1: int, k2: int, q2: int|
                    old_len <= k1 < matches@.len() && old_len <= k2 < matches@.len() && 0 <= q1
                        < matches@[k1].cells@.len() && 0 <= q2 < matches@[k2].cells@.len() && (k1
                        != k2 || q1 != q2) ==> #[trigger] matches@[k1].cells@[q1]
                        != #[trigger] matches@[k2].cells@[q2],
            decreases GAME_ARENA_COLUMNS - col,
        {
            let ghost pre_col = matches@;
            let t: i32 = self.column_tops[col];
            proof {
                assert(-1 <= self.top(col as int) < GAME_ARENA_ROWS);
                assert(self.col_contiguous(col as int));
            }
            if t >= 2 {
                let mut line: Vec<(usize, usize)> = Vec::new();
                let mut rr: i32 = t;
                while rr >= 0
                    invariant
                        -1 <= rr <= t,
                        line@.len() == t - rr,
                        forall|j: int|
                            0 <= j < line@.len() ==> #[trigger] line@[j] == ((
                                col,
                                (t - j) as usize,
                            )),
                    decreases rr + 1,
                {
                    line.push((col, rr as usize));
                    rr -= 1;
                }
                proof {
                    assert(line@.len() == t + 1);
                    assert(line_in_bounds(line@));
                    assert(line_consecutive(Direction::Vertical, line@));
                    assert(line@[0] == ((col, t as usize)));
                    if t + 1 < GAME_ARENA_ROWS {
                        assert(!(self.cell(col as int, t + 1) is Some));
                    }
                    assert(line@[line@.len() - 1] == ((col, 0usize)));
                    assert(line_open(*self, Direction::Vertical, line@));
                }
                self.search_sequence_for_matches(Direction::Vertical, &line, matches);
                proof {
                    assert forall|c: int, r: int|
                        0 <= c < col + 1 && #[trigger] in_triple(
                        *self,
                        Direction::Vertical,
                        c,
                        r,
                    ) implies cell_covered(
                        matches@,
                        Direction::Vertical,
                        ((c as usize, r as usize)),
                    ) by {
                        if c < col {
                            lemma_cell_covered_extend(
                                pre_col,
                                matches@,
                                Direction::Vertical,
                                ((c as usize, r as usize)),
                            );
                        } else {
                            let (sc, sr) = choose|sc: int, sr: int|
                                #[trigger] triple_at(*self, Direction::Vertical, sc, sr) && ((c
                                    == sc && r == sr) || (c == sc + step_col(Direction::Vertical)
                                    && r == sr + step_row(Direction::Vertical)) || (c == sc + 2
                                    * step_col(Direction::Vertical) && r == sr + 2 * step_row(
                                    Direction::Vertical,
                                )));
                            assert(sc == c);
                            assert(self.cell(sc, sr) is Some);
                            assert(sr <= self.top(col as int));
                            assert(0 <= sr - 2);
                            assert(line@[t - sr] == ((col, sr as usize)));
                            assert(line@[t - sr + 1] == ((col, (sr - 1) as usize)));
                            assert(line@[t - sr + 2] == ((col, (sr - 2) as usize)));
                            assert(line_triple(*self, line@, t - sr));
                        }
                    }
                assert forall|k: int, m: int|
                    old_len <= k < matches@.len() && 0 <= m < matches@[k].cells@.len() implies (#[trigger] matches@[k].cells@[m]).0 < col + 1 by {
                    if k < pre_col.len() {
                        assert(matches@[k] == pre_col[k]);
                    } else {
                        let cell = matches@[k].cells@[m];
                        assert(cell_on_line_below(line@, line@.len() as int, cell));
                        let p = choose|p: int|
                            0 <= p < line@.len() as int && p < line@.len() && #[trigger] line@[p]
                                == cell;
                        assert(line@[p] == ((col, (t - p) as usize)));
                        assert(cell.0 < col + 1);
                    }
                }
                assert forall|k1: int, q1: int, k2: int, q2: int|
                    old_len <= k1 < matches@.len() && old_len <= k2 < matches@.len() && 0 <= q1
                        < matches@[k1].cells@.len() && 0 <= q2 < matches@[k2].cells@.len() && (k1
                        != k2 || q1 != q2) implies matches@[k1].cells@[q1]
                    != matches@[k2].cells@[q2] by {
                    if k1 < pre_col.len() && k2 < pre_col.len() {
                        assert(matches@[k1] == pre_col[k1]);
                        assert(matches@[k2] == pre_col[k2]);
                    } else if k1 >= pre_col.len() && k2 >= pre_col.len() {
                    } else if k1 < pre_col.len() {
                        assert(matches@[k1] == pre_col[k1]);
                        assert((matches@[k1].cells@[q1]).0 < col);
                        let cell = matches@[k2].cells@[q2];
                        assert(cell_on_line_below(line@, line@.len() as int, cell));
                        let p = choose|p: int|
                            0 <= p < line@.len() as int && p < line@.len() && #[trigger] line@[p]
                                == cell;
                        assert(line@[p] == ((col, (t - p) as usize)));
                    } else {
                        assert(matches@[k2] == pre_col[k2]);
                        assert((matches@[k2].cells@[q2]).0 < col);
                        let cell = matches@[k1].cells@[q1];
                        assert(cell_on_line_below(line@, line@.len() as int, cell));
                        let p = choose|p: int|
                            0 <= p < line@.len() as int && p < line@.len() && #[trigger] line@[p]
                                == cell;
                        assert(line@[p] == ((col, (t - p) as usize)));
                    }
                }
                }
            } else {
                proof {
                    assert forall|c: int, r: int|
                        0 <= c < col + 1 && #[trigger] in_triple(
                        *self,
                        Direction::Vertical,
                        c,
                        r,
                    ) implies cell_covered(
                        matches@,
                        Direction::Vertical,
                        ((c as usize, r as usize)),
                    ) by {
                        if c == col {
                            let (sc, sr) = choose|sc: int, sr: int|
                                #[trigger] triple_at(*self, Direction::Vertical, sc, sr) && ((c
                                    == sc && r == sr) || (c == sc + step_col(Direction::Vertical)
                                    && r == sr + step_row(Direction::Vertical)) || (c == sc + 2
                                    * step_col(Direction::Vertical) && r == sr + 2 * step_row(
                                    Direction::Vertical,
                                )));
                            assert(sc == c);
                            assert(self.cell(sc, sr) is Some);
                            assert(sr <= self.top(col as int));
                            assert(0 <= sr - 2);
                            assert(false);
                        }
                    }
                }
            }
            col += 1;
        }
    }

    /// Scan every row left to right, collecting horizontal runs; a run
    /// breaks on an empty cell or a color change.
    #[verifier::loop_isolation(false)]
    fn collect_horizontal_matches(&self, matches: &mut Vec<MatchRun>)
        requires
            self.inv(),
        ensures
            final(matches)@.len() >= old(matches)@.len(),
            forall|k: int|
                0 <= k < old(matches)@.len() ==> #[trigger] final(matches)@[k] == old(matches)@[k],
            forall|k: int|
                old(matches)@.len() <= k < final(matches)@.len() ==> (#[trigger] final(matches)@[k]).direction == Direction::Horizontal && run_valid(
                    *self,
                    Direction::Horizontal,
                    final(matches)@[k].cells@,
                ),
            forall|c: int, r: int|
                #[trigger] in_triple(*self, Direction::Horizontal, c, r) ==> cell_covered(
                    final(matches)@,
                    Direction::Horizontal,
                    ((c as usize, r as usize)),
                ),
            forall|k1: int, q1: int, k2: int, q2: int|
                old(matches)@.len() <= k1 < final(matches)@.len() && old(matches)@.len() <= k2
                    < final(matches)@.len() && 0 <= q1 < final(matches)@[k1].cells@.len() && 0 <= q2
                    < final(matches)@[k2].cells@.len() && (k1 != k2 || q1 != q2)
                    ==> #[trigger] final(matches)@[k1].cells@[q1] != #[trigger] final(matches)@[k2].cells@[q2],
    {
        let ghost old_len = matches@.len() as int;
        let mut row: usize = 0;
        while row < GAME_ARENA_ROWS
            invariant
                row <= GAME_ARENA_ROWS,
                matches@.len() >= old_len,
                forall|k: int| 0 <= k < old_len ==> #[trigger] matches@[k] == old(matches)@[k],
                forall|k: int|
                    old_len <= k < matches@.len() ==> (#[trigger] matches@[k]).direction
                        == Direction::Horizontal && run_valid(
                        *self,
                        Direction::Horizontal,
                        matches@[k].cells@,
                    ),
                forall|c: int, r: int|
                    0 <= r < row && #[trigger] in_triple(*self, Direction::Horizontal, c, r)
                        ==> cell_covered(
                        matches@,
                        Direction::Horizontal,
                        ((c as usize, r as usize)),
                    ),
                forall|k: int, m: int|
                    old_len <= k < matches@.len() && 0 <= m < matches@[k].cells@.len()
                        ==> (#[trigger] matches@[k].cells@[m]).1 < row,
                forall|k1: int, q1: int, k2: int, q2: int|
                    old_len <= k1 < matches@.len() && old_len <= k2 < matches@.len() && 0 <= q1
                        < matches@[k1].cells@.len() && 0 <= q2 < matches@[k2].cells@.len() && (k1
                        != k2 || q1 != q2) ==> #[trigger] matches@[k1].cells@[q1]
                        != #[trigger] matches@[k2].cells@[q2],
            decreases GAME_ARENA_ROWS - row,
        {
            let ghost pre_row = matches@;
            let mut line: Vec<(usize, usize)> = Vec::new();
            let mut cc: usize = 0;
            while cc < GAME_ARENA_COLUMNS
                invariant
                    cc <= GAME_ARENA_COLUMNS,
                    line@.len() == cc,
                    forall|j: int| 0 <= j < line@.len() ==> #[trigger] line@[j] == ((j as usize, row)),
                decreases GAME_ARENA_COLUMNS - cc,
            {
                line.push((cc, row));
                cc += 1;
            }
            proof {
                assert(line_in_bounds(line@));
                assert(line_consecutive(Direction::Horizontal, line@));
                assert(line_open(*self, Direction::Horizontal, line@));
            }
            self.search_sequence_for_matches(Direction::Horizontal, &line, matches);
            proof {
                assert forall|c: int, r: int|
                    0 <= r < row + 1 && #[trigger] in_triple(
                    *self,
                    Direction::Horizontal,
                    c,
                    r,
                ) implies cell_covered(
                    matches@,
                    Direction::Horizontal,
                    ((c as usize, r as usize)),
                ) by {
                    if r < row {
                        lemma_cell_covered_extend(
                            pre_row,
                            matches@,
                            Direction::Horizontal,
                            ((c as usize, r as usize)),
                        );
                    } else {
                        let (sc, sr) = choose|sc: int, sr: int|
                            #[trigger] triple_at(*self, Direction::Horizontal, sc, sr) && ((c == sc
                                && r == sr) || (c == sc + step_col(Direction::Horizontal) && r == sr
                                + step_row(Direction::Horizontal)) || (c == sc + 2 * step_col(
                                Direction::Horizontal,
                            ) && r == sr + 2 * step_row(Direction::Horizontal)));
                        assert(sr == r);
                        assert(line@[sc] == ((sc as usize, row)));
                        assert(line@[sc + 1] == (((sc + 1) as usize, row)));
                        assert(line@[sc + 2] == (((sc + 2) as usize, row)));
                        assert(line_triple(*self, line@, sc));
                    }
                }
                assert forall|k: int, m: int|
                    old_len <= k < matches@.len() && 0 <= m < matches@[k].cells@.len() implies (#[trigger] matches@[k].cells@[m]).1 < row + 1 by {
                    if k < pre_row.len() {
                        assert(matches@[k] == pre_row[k]);
                    } else {
                        let cell = matches@[k].cells@[m];
                        assert(cell_on_line_below(line@, line@.len() as int, cell));
                        let p = choose|p: int|
                            0 <= p < line@.len() as int && p < line@.len() && #[trigger] line@[p]
                                == cell;
                        assert(line@[p] == ((p as usize, row)));
                        assert(cell.1 < row + 1);
                    }
                }
                assert forall|k1: int, q1: int, k2: int, q2: int|
                    old_len <= k1 < matches@.len() && old_len <= k2 < matches@.len() && 0 <= q1
                        < matches@[k1].cells@.len() && 0 <= q2 < matches@[k2].cells@.len() && (k1
                        != k2 || q1 != q2) implies matches@[k1].cells@[q1]
                    != matches@[k2].cells@[q2] by {
                    if k1 < pre_row.len() && k2 < pre_row.len() {
                        assert(matches@[k1] == pre_row[k1]);
                        assert(matches@[k2] == pre_row[k2]);
                    } else if k1 >= pre_row.len() && k2 >= pre_row.len() {
                    } else if k1 < pre_row.len() {
                        assert(matches@[k1] == pre_row[k1]);
                        assert((matches@[k1].cells@[q1]).1 < row);
                        let cell = matches@[k2].cells@[q2];
                        assert(cell_on_line_below(line@, line@.len() as int, cell));
                        let p = choose|p: int|
                            0 <= p < line@.len() as int && p < line@.len() && #[trigger] line@[p]
                                == cell;
                        assert(line@[p] == ((p as usize, row)));
                    } else {
                        assert(matches@[k2] == pre_row[k2]);
                        assert((matches@[k2].cells@[q2]).1 < row);
                        let cell = matches@[k1].cells@[q1];
                        assert(cell_on_line_below(line@, line@.len() as int, cell));
                        let p = choose|p: int|
                            0 <= p < line@.len() as int && p < line@.len() && #[trigger] line@[p]
                                == cell;
                        assert(line@[p] == ((p as usize, row)));
                    }
                }
            }
            row += 1;
        }
    }

    /// Scan every "/" diagonal of the grid (up-right), collecting diagonal
    /// runs. One family of lines starts on the left edge, the other on the
    /// floor.
    #[verifier::loop_isolation(false)]
    fn collect_diagonal_slash_matches(&self, matches: &mut Vec<MatchRun>)
        requires
            self.inv(),
        ensures
            final(matches)@.len() >= old(matches)@.len(),
            forall|k: int|
                0 <= k < old(matches)@.len() ==> #[trigger] final(matches)@[k] == old(matches)@[k],
            forall|k: int|
                old(matches)@.len() <= k < final(matches)@.len() ==> (#[trigger] final(matches)@[k]).direction == Direction::DiagonalSlash && run_valid(
                    *self,
                    Direction::DiagonalSlash,
                    final(matches)@[k].cells@,
                ),
            forall|c: int, r: int|
                #[trigger] in_triple(*self, Direction::DiagonalSlash, c, r) ==> cell_covered(
                    final(matches)@,
                    Direction::DiagonalSlash,
                    ((c as usize, r as usize)),
                ),
            forall|k1: int, q1: int, k2: int, q2: int|
                old(matches)@.len() <= k1 < final(matches)@.len() && old(matches)@.len() <= k2
                    < final(matches)@.len() && 0 <= q1 < final(matches)@[k1].cells@.len() && 0 <= q2
                    < final(matches)@[k2].cells@.len() && (k1 != k2 || q1 != q2)
                    ==> #[trigger] final(matches)@[k1].cells@[q1] != #[trigger] final(matches)@[k2].cells@[q2],
    {
        let ghost old_len = matches@.len() as int;
        let mut row_start: usize = 0;
        while row_start < GAME_ARENA_ROWS
            invariant
                row_start <= GAME_ARENA_ROWS,
                matches@.len() >= old_len,
                forall|k: int| 0 <= k < old_len ==> #[trigger] matches@[k] == old(matches)@[k],
                forall|k: int|
                    old_len <= k < matches@.len() ==> (#[trigger] matches@[k]).direction
                        == Direction::DiagonalSlash && run_valid(
                        *self,
                        Direction::DiagonalSlash,
                        matches@[k].cells@,
                    ),
                forall|c: int, r: int|
                    0 <= r - c < row_start && #[trigger] in_triple(
                        *self,
                        Direction::DiagonalSlash,
                        c,
                        r,
                    ) ==> cell_covered(
                        matches@,
                        Direction::DiagonalSlash,
                        ((c as usize, r as usize)),
                    ),
                forall|k: int, m: int|
                    old_len <= k < matches@.len() && 0 <= m < matches@[k].cells@.len()
                        ==> ((#[trigger] matches@[k].cells@[m]).0 <= matches@[k].cells@[m].1 && matches@[k].cells@[m].1 - matches@[k].cells@[m].0 < row_start),
                forall|k1: int, q1: int, k2: int, q2: int|
                    old_len <= k1 < matches@.len() && old_len <= k2 < matches@.len() && 0 <= q1
                        < matches@[k1].cells@.len() && 0 <= q2 < matches@[k2].cells@.len() && (k1
                        != k2 || q1 != q2) ==> #[trigger] matches@[k1].cells@[q1]
                        != #[trigger] matches@[k2].cells@[q2],
            decreases GAME_ARENA_ROWS - row_start,
        {
            let ghost pre_line = matches@;
            let mut line: Vec<(usize, usize)> = Vec::new();
            let mut cc: usize = 0;
            let mut rr: usize = row_start;
            while cc < GAME_ARENA_COLUMNS && rr < GAME_ARENA_ROWS
                invariant
                    cc <= GAME_ARENA_COLUMNS,
                    rr == row_start + cc,
                    rr <= GAME_ARENA_ROWS,
                    line@.len() == cc,
                    forall|j: int|
                        0 <= j < line@.len() ==> #[trigger] line@[j] == ((
                            j as usize,
                            (row_start + j) as usize,
                        )),
                decreases GAME_ARENA_COLUMNS - cc,
            {
                line.push((cc, rr));
                cc += 1;
                rr += 1;
            }
            proof {
                assert(line_in_bounds(line@));
                assert(line_consecutive(Direction::DiagonalSlash, line@));
                assert(line_open(*self, Direction::DiagonalSlash, line@));
            }
            self.search_sequence_for_matches(Direction::DiagonalSlash, &line, matches);
            proof {
                assert forall|c: int, r: int|
                    0 <= r - c < row_start + 1 && #[trigger] in_triple(
                    *self,
                    Direction::DiagonalSlash,
                    c,
                    r,
                ) implies cell_covered(
                    matches@,
                    Direction::DiagonalSlash,
                    ((c as usize, r as usize)),
                ) by {
                    if r - c < row_start {
                        lemma_cell_covered_extend(
                            pre_line,
                            matches@,
                            Direction::DiagonalSlash,
                            ((c as usize, r as usize)),
                        );
                    } else {
                        let (sc, sr) = choose|sc: int, sr: int|
                            #[trigger] triple_at(*self, Direction::DiagonalSlash, sc, sr) && ((c
                                == sc && r == sr) || (c == sc + step_col(Direction::DiagonalSlash)
                                && r == sr + step_row(Direction::DiagonalSlash)) || (c == sc + 2
                                * step_col(Direction::DiagonalSlash) && r == sr + 2 * step_row(
                                Direction::DiagonalSlash,
                            )));
                        assert(sr - sc == row_start);
                        assert(line@[sc] == ((sc as usize, sr as usize)));
                        assert(line@[sc + 1] == (((sc + 1) as usize, (sr + 1) as usize)));
                        assert(line@[sc + 2] == (((sc + 2) as usize, (sr + 2) as usize)));
                        assert(line_triple(*self, line@, sc));
                    }
                }
                assert forall|k: int, m: int|
                    old_len <= k < matches@.len() && 0 <= m < matches@[k].cells@.len() implies ((#[trigger] matches@[k].cells@[m]).0 <= matches@[k].cells@[m].1 && matches@[k].cells@[m].1 - matches@[k].cells@[m].0 < row_start + 1) by {
                    if k < pre_line.len() {
                        assert(matches@[k] == pre_line[k]);
                    } else {
                        let cell = matches@[k].cells@[m];
                        assert(cell_on_line_below(line@, line@.len() as int, cell));
                        let p = choose|p: int|
                            0 <= p < line@.len() as int && p < line@.len() && #[trigger] line@[p]
                                == cell;
                        assert(line@[p] == ((p as usize, (row_start + p) as usize)));
                        assert(cell.0 <= cell.1 && cell.1 - cell.0 == row_start);
                    }
                }
                assert forall|k1: int, q1: int, k2: int, q2: int|
                    old_len <= k1 < matches@.len() && old_len <= k2 < matches@.len() && 0 <= q1
                        < matches@[k1].cells@.len() && 0 <= q2 < matches@[k2].cells@.len() && (k1
                        != k2 || q1 != q2) implies matches@[k1].cells@[q1]
                    != matches@[k2].cells@[q2] by {
                    if k1 < pre_line.len() && k2 < pre_line.len() {
                        assert(matches@[k1] == pre_line[k1]);
                        assert(matches@[k2] == pre_line[k2]);
                    } else if k1 >= pre_line.len() && k2 >= pre_line.len() {
                    } else if k1 < pre_line.len() {
                        assert(matches@[k1] == pre_line[k1]);
                        assert((matches@[k1].cells@[q1]).0 <= (matches@[k1].cells@[q1]).1 && (matches@[k1].cells@[q1]).1 - (matches@[k1].cells@[q1]).0 < row_start);
                        let cell = matches@[k2].cells@[q2];
                        assert(cell_on_line_below(line@, line@.len() as int, cell));
                        let p = choose|p: int|
                            0 <= p < line@.len() as int && p < line@.len() && #[trigger] line@[p]
                                == cell;
                        assert(line@[p] == ((p as usize, (row_start + p) as usize)));
                        assert(cell.0 <= cell.1 && cell.1 - cell.0 == row_start);
                    } else {
                        assert(matches@[k2] == pre_line[k2]);
                        assert((matches@[k2].cells@[q2]).0 <= (matches@[k2].cells@[q2]).1 && (matches@[k2].cells@[q2]).1 - (matches@[k2].cells@[q2]).0 < row_start);
                        let cell = matches@[k1].cells@[q1];
                        assert(cell_on_line_below(line@, line@.len() as int, cell));
                        let p = choose|p: int|
                            0 <= p < line@.len() as int && p < line@.len() && #[trigger] line@[p]
                                == cell;
                        assert(line@[p] == ((p as usize, (row_start + p) as usize)));
                        assert(cell.0 <= cell.1 && cell.1 - cell.0 == row_start);
                    }
                }
            }
            row_start += 1;
        }
        let mut col_start: usize = 1;
        while col_start < GAME_ARENA_COLUMNS
            invariant
                1 <= col_start <= GAME_ARENA_COLUMNS,
                matches@.len() >= old_len,
                forall|k: int| 0 <= k < old_len ==> #[trigger] matches@[k] == old(matches)@[k],
                forall|k: int|
                    old_len <= k < matches@.len() ==> (#[trigger] matches@[k]).direction
                        == Direction::DiagonalSlash && run_valid(
                        *self,
                        Direction::DiagonalSlash,
                        matches@[k].cells@,
                    ),
                forall|c: int, r: int|
                    c - r < col_start && #[trigger] in_triple(
                        *self,
                        Direction::DiagonalSlash,
                        c,
                        r,
                    ) ==> cell_covered(
                        matches@,
                        Direction::DiagonalSlash,
                        ((c as usize, r as usize)),
                    ),
                forall|k: int, m: int|
                    old_len <= k < matches@.len() && 0 <= m < matches@[k].cells@.len()
                        ==> (#[trigger] matches@[k].cells@[m]).0 - matches@[k].cells@[m].1 < col_start,
                forall|k1: int, q1: int, k2: int, q2: int|
                    old_len <= k1 < matches@.len() && old_len <= k2 < matches@.len() && 0 <= q1
                        < matches@[k1].cells@.len() && 0 <= q2 < matches@[k2].cells@.len() && (k1
                        != k2 || q1 != q2) ==> #[trigger] matches@[k1].cells@[q1]
                        != #[trigger] matches@[k2].cells@[q2],
            decreases GAME_ARENA_COLUMNS - col_start,
        {
            let ghost pre_line = matches@;
            let mut line: Vec<(usize, usize)> = Vec::new();
            let mut cc: usize = col_start;
            let mut rr: usize = 0;
            while cc < GAME_ARENA_COLUMNS && rr < GAME_ARENA_ROWS
                invariant
                    cc <= GAME_ARENA_COLUMNS,
                    cc == col_start + rr,
                    rr <= GAME_ARENA_ROWS,
                    line@.len() == rr,
                    forall|j: int|
                        0 <= j < line@.len() ==> #[trigger] line@[j] == ((
                            (col_start + j) as usize,
                            j as usize,
                        )),
                decreases GAME_ARENA_COLUMNS - cc,
            {
                line.push((cc, rr));
                cc += 1;
                rr += 1;
            }
            proof {
                assert(line_in_bounds(line@));
                assert(line_consecutive(Direction::DiagonalSlash, line@));
                assert(line_open(*self, Direction::DiagonalSlash, line@));
            }
            self.search_sequence_for_matches(Direction::DiagonalSlash, &line, matches);
            proof {
                assert forall|c: int, r: int|
                    c - r < col_start + 1 && #[trigger] in_triple(
                    *self,
                    Direction::DiagonalSlash,
                    c,
                    r,
                ) implies cell_covered(
                    matches@,
                    Direction::DiagonalSlash,
                    ((c as usize, r as usize)),
                ) by {
                    if c - r < col_start {
                        lemma_cell_covered_extend(
                            pre_line,
                            matches@,
                            Direction::DiagonalSlash,
                            ((c as usize, r as usize)),
                        );
                    } else {
                        let (sc, sr) = choose|sc: int, sr: int|
                            #[trigger] triple_at(*self, Direction::DiagonalSlash, sc, sr) && ((c
                                == sc && r == sr) || (c == sc + step_col(Direction::DiagonalSlash)
                                && r == sr + step_row(Direction::DiagonalSlash)) || (c == sc + 2
                                * step_col(Direction::DiagonalSlash) && r == sr + 2 * step_row(
                                Direction::DiagonalSlash,
                            )));
                        assert(sc - sr == col_start);
                        assert(line@[sr] == ((sc as usize, sr as usize)));
                        assert(line@[sr + 1] == (((sc + 1) as usize, (sr + 1) as usize)));
                        assert(line@[sr + 2] == (((sc + 2) as usize, (sr + 2) as usize)));
                        assert(line_triple(*self, line@, sr));
                    }
                }
                assert forall|k: int, m: int|
                    old_len <= k < matches@.len() && 0 <= m < matches@[k].cells@.len() implies (#[trigger] matches@[k].cells@[m]).0 - matches@[k].cells@[m].1 < col_start + 1 by {
                    if k < pre_line.len() {
                        assert(matches@[k] == pre_line[k]);
                    } else {
                        let cell = matches@[k].cells@[m];
                        assert(cell_on_line_below(line@, line@.len() as int, cell));
                        let p = choose|p: int|
                            0 <= p < line@.len() as int && p < line@.len() && #[trigger] line@[p]
                                == cell;
                        assert(line@[p] == (((col_start + p) as usize, p as usize)));
                        assert(cell.0 - cell.1 == col_start);
                    }
                }
                assert forall|k1: int, q1: int, k2: int, q2: int|
                    old_len <= k1 < matches@.len() && old_len <= k2 < matches@.len() && 0 <= q1
                        < matches@[k1].cells@.len() && 0 <= q2 < matches@[k2].cells@.len() && (k1
                        != k2 || q1 != q2) implies matches@[k1].cells@[q1]
                    != matches@[k2].cells@[q2] by {
                    if k1 < pre_line.len() && k2 < pre_line.len() {
                        assert(matches@[k1] == pre_line[k1]);
                        assert(matches@[k2] == pre_line[k2]);
                    } else if k1 >= pre_line.len() && k2 >= pre_line.len() {
                    } else if k1 < pre_line.len() {
                        assert(matches@[k1] == pre_line[k1]);
                        assert((matches@[k1].cells@[q1]).0 - (matches@[k1].cells@[q1]).1 < col_start);
                        let cell = matches@[k2].cells@[q2];
                        assert(cell_on_line_below(line@, line@.len() as int, cell));
                        let p = choose|p: int|
                            0 <= p < line@.len() as int && p < line@.len() && #[trigger] line@[p]
                                == cell;
                        assert(line@[p] == (((col_start + p) as usize, p as usize)));
                        assert(cell.0 - cell.1 == col_start);
                    } else {
                        assert(matches@[k2] == pre_line[k2]);
                        assert((matches@[k2].cells@[q2]).0 - (matches@[k2].cells@[q2]).1 < col_start);
                        let cell = matches@[k1].cells@[q1];
                        assert(cell_on_line_below(line@, line@.len() as int, cell));
                        let p = choose|p: int|
                            0 <= p < line@.len() as int && p < line@.len() && #[trigger] line@[p]
                                == cell;
                        assert(line@[p] == (((col_start + p) as usize, p as usize)));
                        assert(cell.0 - cell.1 == col_start);
                    }
                }
            }
            col_start += 1;
        }
    }

    /// Scan every "\" diagonal of the grid (down-left in scan order: the
    /// column falls as the row rises), collecting diagonal runs. One family
    /// of lines starts on the floor, the other on the right edge.
    #[verifier::loop_isolation(false)]
    fn collect_diagonal_backslash_matches(&self, matches: &mut Vec<MatchRun>)
        requires
            self.inv(),
        ensures
            final(matches)@.len() >= old(matches)@.len(),
            forall|k: int|
                0 <= k < old(matches)@.len() ==> #[trigger] final(matches)@[k] == old(matches)@[k],
            forall|k: int|
                old(matches)@.len() <= k < final(matches)@.len() ==> (#[trigger] final(matches)@[k]).direction == Direction::DiagonalBackslash && run_valid(
                    *self,
                    Direction::DiagonalBackslash,
                    final(matches)@[k].cells@,
                ),
            forall|c: int, r: int|
                #[trigger] in_triple(*self, Direction::DiagonalBackslash, c, r) ==> cell_covered(
                    final(matches)@,
                    Direction::DiagonalBackslash,
                    ((c as usize, r as usize)),
                ),
            forall|k1: int, q1: int, k2: int, q2: int|
                old(matches)@.len() <= k1 < final(matches)@.len() && old(matches)@.len() <= k2
                    < final(matches)@.len() && 0 <= q1 < final(matches)@[k1].cells@.len() && 0 <= q2
                    < final(matches)@[k2].cells@.len() && (k1 != k2 || q1 != q2)
                    ==> #[trigger] final(matches)@[k1].cells@[q1] != #[trigger] final(matches)@[k2].cells@[q2],
    {
        let ghost old_len = matches@.len() as int;
        let mut col_start: usize = 0;
        while col_start < GAME_ARENA_COLUMNS
            invariant
                col_start <= GAME_ARENA_COLUMNS,
                matches@.len() >= old_len,
                forall|k: int| 0 <= k < old_len ==> #[trigger] matches@[k] == old(matches)@[k],
                forall|k: int|
                    old_len <= k < matches@.len() ==> (#[trigger] matches@[k]).direction
                        == Direction::DiagonalBackslash && run_valid(
                        *self,
                        Direction::DiagonalBackslash,
                        matches@[k].cells@,
                    ),
                forall|c: int, r: int|
                    c + r < col_start && #[trigger] in_triple(
                        *self,
                        Direction::DiagonalBackslash,
                        c,
                        r,
                    ) ==> cell_covered(
                        matches@,
                        Direction::DiagonalBackslash,
                        ((c as usize, r as usize)),
                    ),
                forall|k: int, m: int|
                    old_len <= k < matches@.len() && 0 <= m < matches@[k].cells@.len()
                        ==> (#[trigger] matches@[k].cells@[m]).0 + matches@[k].cells@[m].1 < col_start,
                forall|k1: int, q1: int, k2: int, q2: int|
                    old_len <= k1 < matches@.len() && old_len <= k2 < matches@.len() && 0 <= q1
                        < matches@[k1].cells@.len() && 0 <= q2 < matches@[k2].cells@.len() && (k1
                        != k2 || q1 != q2) ==> #[trigger] matches@[k1].cells@[q1]
                        != #[trigger] matches@[k2].cells@[q2],
            decreases GAME_ARENA_COLUMNS - col_start,
        {
            let ghost pre_line = matches@;
            let mut line: Vec<(usize, usize)> = Vec::new();
            let mut cc: i32 = col_start as i32;
            let mut rr: usize = 0;
            while cc >= 0
                invariant
                    -1 <= cc <= col_start,
                    rr == col_start - cc,
                    line@.len() == rr,
                    forall|j: int|
                        0 <= j < line@.len() ==> #[trigger] line@[j] == ((
                            (col_start - j) as usize,
                            j as usize,
                        )),
                decreases cc + 1,
            {
                line.push((cc as usize, rr));
                cc -= 1;
                rr += 1;
            }
            proof {
                assert(line@.len() == col_start + 1);
                assert(line_in_bounds(line@));
                assert(line_consecutive(Direction::DiagonalBackslash, line@));
                assert(line@[0] == ((col_start, 0usize)));
                assert(line@[line@.len() - 1] == ((0usize, col_start)));
                assert(line_open(*self, Direction::DiagonalBackslash, line@));
            }
            self.search_sequence_for_matches(Direction::DiagonalBackslash, &line, matches);
            proof {
                assert forall|c: int, r: int|
                    c + r < col_start + 1 && #[trigger] in_triple(
                    *self,
                    Direction::DiagonalBackslash,
                    c,
                    r,
                ) implies cell_covered(
                    matches@,
                    Direction::DiagonalBackslash,
                    ((c as usize, r as usize)),
                ) by {
                    if c + r < col_start {
                        lemma_cell_covered_extend(
                            pre_line,
                            matches@,
                            Direction::DiagonalBackslash,
                            ((c as usize, r as usize)),
                        );
                    } else {
                        let (sc, sr) = choose|sc: int, sr: int|
                            #[trigger] triple_at(*self, Direction::DiagonalBackslash, sc, sr) && ((c
                                == sc && r == sr) || (c == sc + step_col(
                                Direction::DiagonalBackslash,
                            ) && r == sr + step_row(Direction::DiagonalBackslash)) || (c == sc + 2
                                * step_col(Direction::DiagonalBackslash) && r == sr + 2 * step_row(
                                Direction::DiagonalBackslash,
                            )));
                        assert(sc + sr == col_start);
                        assert(0 <= sc - 2);
                        assert(line@[sr] == ((sc as usize, sr as usize)));
                        assert(line@[sr + 1] == (((sc - 1) as usize, (sr + 1) as usize)));
                        assert(line@[sr + 2] == (((sc - 2) as usize, (sr + 2) as usize)));
                        assert(line_triple(*self, line@, sr));
                    }
                }
                assert forall|k: int, m: int|
                    old_len <= k < matches@.len() && 0 <= m < matches@[k].cells@.len() implies (#[trigger] matches@[k].cells@[m]).0 + matches@[k].cells@[m].1 < col_start + 1 by {
                    if k < pre_line.len() {
                        assert(matches@[k] == pre_line[k]);
                    } else {
                        let cell = matches@[k].cells@[m];
                        assert(cell_on_line_below(line@, line@.len() as int, cell));
                        let p = choose|p: int|
                            0 <= p < line@.len() as int && p < line@.len() && #[trigger] line@[p]
                                == cell;
                        assert(line@[p] == (((col_start - p) as usize, p as usize)));
                        assert(cell.0 + cell.1 == col_start);
                    }
                }
                assert forall|k1: int, q1: int, k2: int, q2: int|
                    old_len <= k1 < matches@.len() && old_len <= k2 < matches@.len() && 0 <= q1
                        < matches@[k1].cells@.len() && 0 <= q2 < matches@[k2].cells@.len() && (k1
                        != k2 || q1 != q2) implies matches@[k1].cells@[q1]
                    != matches@[k2].cells@[q2] by {
                    if k1 < pre_line.len() && k2 < pre_line.len() {
                        assert(matches@[k1] == pre_line[k1]);
                        assert(matches@[k2] == pre_line[k2]);
                    } else if k1 >= pre_line.len() && k2 >= pre_line.len() {
                    } else if k1 < pre_line.len() {
                        assert(matches@[k1] == pre_line[k1]);
                        assert((matches@[k1].cells@[q1]).0 + (matches@[k1].cells@[q1]).1 < col_start);
                        let cell = matches@[k2].cells@[q2];
                        assert(cell_on_line_below(line@, line@.len() as int, cell));
                        let p = choose|p: int|
                            0 <= p < line@.len() as int && p < line@.len() && #[trigger] line@[p]
                                == cell;
                        assert(line@[p] == (((col_start - p) as usize, p as usize)));
                        assert(cell.0 + cell.1 == col_start);
                    } else {
                        assert(matches@[k2] == pre_line[k2]);
                        assert((matches@[k2].cells@[q2]).0 + (matches@[k2].cells@[q2]).1 < col_start);
                        let cell = matches@[k1].cells@[q1];
                        assert(cell_on_line_below(line@, line@.len() as int, cell));
                        let p = choose|p: int|
                            0 <= p < line@.len() as int && p < line@.len() && #[trigger] line@[p]
                                == cell;
                        assert(line@[p] == (((col_start - p) as usize, p as usize)));
                        assert(cell.0 + cell.1 == col_start);
                    }
                }
            }
            col_start += 1;
        }
        let mut row_start: usize = 1;
        while row_start < GAME_ARENA_ROWS
            invariant
                1 <= row_start <= GAME_ARENA_ROWS,
                matches@.len() >= old_len,
                forall|k: int| 0 <= k < old_len ==> #[trigger] matches@[k] == old(matches)@[k],
                forall|k: int|
                    old_len <= k < matches@.len() ==> (#[trigger] matches@[k]).direction
                        == Direction::DiagonalBackslash && run_valid(
                        *self,
                        Direction::DiagonalBackslash,
                        matches@[k].cells@,
                    ),
                forall|c: int, r: int|
                    c + r < GAME_ARENA_COLUMNS - 1 + row_start && #[trigger] in_triple(
                        *self,
                        Direction::DiagonalBackslash,
                        c,
                        r,
                    ) ==> cell_covered(
                        matches@,
                        Direction::DiagonalBackslash,
                        ((c as usize, r as usize)),
                    ),
                forall|k: int, m: int|
                    old_len <= k < matches@.len() && 0 <= m < matches@[k].cells@.len()
                        ==> (#[trigger] matches@[k].cells@[m]).0 + matches@[k].cells@[m].1 < GAME_ARENA_COLUMNS - 1 + row_start,
                forall|k1: int, q1: int, k2: int, q2: int|
                    old_len <= k1 < matches@.len() && old_len <= k2 < matches@.len() && 0 <= q1
                        < matches@[k1].cells@.len() && 0 <= q2 < matches@[k2].cells@.len() && (k1
                        != k2 || q1 != q2) ==> #[trigger] matches@[k1].cells@[q1]
                        != #[trigger] matches@[k2].cells@[q2],
            decreases GAME_ARENA_ROWS - row_start,
        {
            let ghost pre_line = matches@;
            let mut line: Vec<(usize, usize)> = Vec::new();
            let mut cc: i32 = GAME_ARENA_COLUMNS as i32 - 1;
            let mut rr: usize = row_start;
            while cc >= 0 && rr < GAME_ARENA_ROWS
                invariant
                    -1 <= cc <= GAME_ARENA_COLUMNS - 1,
                    rr == row_start + (GAME_ARENA_COLUMNS - 1 - cc),
                    rr <= GAME_ARENA_ROWS,
                    line@.len() == GAME_ARENA_COLUMNS - 1 - cc,
                    forall|j: int|
                        0 <= j < line@.len() ==> #[trigger] line@[j] == ((
                            (GAME_ARENA_COLUMNS - 1 - j) as usize,
                            (row_start + j) as usize,
                        )),
                decreases cc + 1,
            {
                line.push((cc as usize, rr));
                cc -= 1;
                rr += 1;
            }
            proof {
                assert(line_in_bounds(line@));
                assert(line_consecutive(Direction::DiagonalBackslash, line@));
                assert(line_open(*self, Direction::DiagonalBackslash, line@));
            }
            self.search_sequence_for_matches(Direction::DiagonalBackslash, &line, matches);
            proof {
                assert forall|c: int, r: int|
                    c + r < GAME_ARENA_COLUMNS + row_start && #[trigger] in_triple(
                    *self,
                    Direction::DiagonalBackslash,
                    c,
                    r,
                ) implies cell_covered(
                    matches@,
                    Direction::DiagonalBackslash,
                    ((c as usize, r as usize)),
                ) by {
                    if c + r < GAME_ARENA_COLUMNS - 1 + row_start {
                        lemma_cell_covered_extend(
                            pre_line,
                            matches@,
                            Direction::DiagonalBackslash,
                            ((c as usize, r as usize)),
                        );
                    } else {
                        let (sc, sr) = choose|sc: int, sr: int|
                            #[trigger] triple_at(*self, Direction::DiagonalBackslash, sc, sr) && ((c
                                == sc && r == sr) || (c == sc + step_col(
                                Direction::DiagonalBackslash,
                            ) && r == sr + step_row(Direction::DiagonalBackslash)) || (c == sc + 2
                                * step_col(Direction::DiagonalBackslash) && r == sr + 2 * step_row(
                                Direction::DiagonalBackslash,
                            )));
                        assert(sc + sr == GAME_ARENA_COLUMNS - 1 + row_start);
                        assert(0 <= sc - 2);
                        assert(sr + 2 < GAME_ARENA_ROWS);
                        assert(line@[GAME_ARENA_COLUMNS - 1 - sc] == ((sc as usize, sr as usize)));
                        assert(line@[GAME_ARENA_COLUMNS - 1 - sc + 1] == (((sc - 1) as usize, (sr
                            + 1) as usize)));
                        assert(line@[GAME_ARENA_COLUMNS - 1 - sc + 2] == (((sc - 2) as usize, (sr
                            + 2) as usize)));
                        assert(line_triple(*self, line@, GAME_ARENA_COLUMNS - 1 - sc));
                    }
                }
                assert forall|k: int, m: int|
                    old_len <= k < matches@.len() && 0 <= m < matches@[k].cells@.len() implies (#[trigger] matches@[k].cells@[m]).0 + matches@[k].cells@[m].1 < GAME_ARENA_COLUMNS - 1 + row_start + 1 by {
                    if k < pre_line.len() {
                        assert(matches@[k] == pre_line[k]);
                    } else {
                        let cell = matches@[k].cells@[m];
                        assert(cell_on_line_below(line@, line@.len() as int, cell));
                        let p = choose|p: int|
                            0 <= p < line@.len() as int && p < line@.len() && #[trigger] line@[p]
                                == cell;
                        assert(line@[p] == (((GAME_ARENA_COLUMNS - 1 - p) as usize, (row_start + p) as usize)));
                        assert(cell.0 + cell.1 == GAME_ARENA_COLUMNS - 1 + row_start);
                    }
                }
                assert forall|k1: int, q1: int, k2: int, q2: int|
                    old_len <= k1 < matches@.len() && old_len <= k2 < matches@.len() && 0 <= q1
                        < matches@[k1].cells@.len() && 0 <= q2 < matches@[k2].cells@.len() && (k1
                        != k2 || q1 != q2) implies matches@[k1].cells@[q1]
                    != matches@[k2].cells@[q2] by {
                    if k1 < pre_line.len() && k2 < pre_line.len() {
                        assert(matches@[k1] == pre_line[k1]);
                        assert(matches@[k2] == pre_line[k2]);
                    } else if k1 >= pre_line.len() && k2 >= pre_line.len() {
                    } else if k1 < pre_line.len() {
                        assert(matches@[k1] == pre_line[k1]);
                        assert((matches@[k1].cells@[q1]).0 + (matches@[k1].cells@[q1]).1 < GAME_ARENA_COLUMNS - 1 + row_start);
                        let cell = matches@[k2].cells@[q2];
                        assert(cell_on_line_below(line@, line@.len() as int, cell));
                        let p = choose|p: int|
                            0 <= p < line@.len() as int && p < line@.len() && #[trigger] line@[p]
                                == cell;
                        assert(line@[p] == (((GAME_ARENA_COLUMNS - 1 - p) as usize, (row_start + p) as usize)));
                        assert(cell.0 + cell.1 == GAME_ARENA_COLUMNS - 1 + row_start);
                    } else {
                        assert(matches@[k2] == pre_line[k2]);
                        assert((matches@[k2].cells@[q2]).0 + (matches@[k2].cells@[q2]).1 < GAME_ARENA_COLUMNS - 1 + row_start);
                        let cell = matches@[k1].cells@[q1];
                        assert(cell_on_line_below(line@, line@.len() as int, cell));
                        let p = choose|p: int|
                            0 <= p < line@.len() as int && p < line@.len() && #[trigger] line@[p]
                                == cell;
                        assert(line@[p] == (((GAME_ARENA_COLUMNS - 1 - p) as usize, (row_start + p) as usize)));
                        assert(cell.0 + cell.1 == GAME_ARENA_COLUMNS - 1 + row_start);
                    }
                }
            }
            row_start += 1;
        }
    }

    /// Search the whole grid for match runs in all four directions.
    ///
    /// Every returned run is a maximal run of at least three equal-colored
    /// cells along its direction; every cell that belongs to any aligned
    /// triple of equal colors appears in some returned run of that
    /// direction, and within one direction no cell is reported twice. In
    /// particular an empty result means the pile holds no match at all.
    pub fn search_for_matches(&self) -> (matches: Vec<MatchRun>)
        requires
            self.inv(),
        ensures
            forall|k: int|
                0 <= k < matches@.len() ==> run_valid(
                    *self,
                    (#[trigger] matches@[k]).direction,
                    matches@[k].cells@,
                ),
            forall|c: int, r: int, d: Direction|
                #[trigger] in_triple(*self, d, c, r) ==> cell_covered(
                    matches@,
                    d,
                    ((c as usize, r as usize)),
                ),
            forall|k1: int, q1: int, k2: int, q2: int|
                0 <= k1 < matches@.len() && 0 <= k2 < matches@.len() && 0 <= q1
                    < matches@[k1].cells@.len() && 0 <= q2 < matches@[k2].cells@.len() && (k1 != k2
                    || q1 != q2) && matches@[k1].direction == matches@[k2].direction
                    ==> #[trigger] matches@[k1].cells@[q1] != #[trigger] matches@[k2].cells@[q2],
            search_result_ok(*self, matches@),
    {
        let mut matches: Vec<MatchRun> = Vec::new();
        self.collect_vertical_matches(&mut matches);
        let ghost after_vertical = matches@;
        self.collect_horizontal_matches(&mut matches);
        let ghost after_horizontal = matches@;
        self.collect_diagonal_slash_matches(&mut matches);
        let ghost after_slash = matches@;
        self.collect_diagonal_backslash_matches(&mut matches);
        proof {
            assert forall|c: int, r: int, d: Direction|
                #[trigger] in_triple(*self, d, c, r) implies cell_covered(
                matches@,
                d,
                ((c as usize, r as usize)),
            ) by {
                let cell = ((c as usize, r as usize));
                match d {
                    Direction::Vertical => {
                        assert(cell_covered(after_vertical, d, cell));
                        lemma_cell_covered_extend(after_vertical, after_horizontal, d, cell);
                        lemma_cell_covered_extend(after_horizontal, after_slash, d, cell);
                        lemma_cell_covered_extend(after_slash, matches@, d, cell);
                    },
                    Direction::Horizontal => {
                        assert(cell_covered(after_horizontal, d, cell));
                        lemma_cell_covered_extend(after_horizontal, after_slash, d, cell);
                        lemma_cell_covered_extend(after_slash, matches@, d, cell);
                    },
                    Direction::DiagonalSlash => {
                        assert(cell_covered(after_slash, d, cell));
                        lemma_cell_covered_extend(after_slash, matches@, d, cell);
                    },
                    Direction::DiagonalBackslash => {
                        assert(cell_covered(matches@, d, cell));
                    },
                }
            }
            assert forall|k: int|
                0 <= k < matches@.len() implies #[trigger] matches@[k] == if k
                < after_vertical.len() {
                after_vertical[k]
            } else if k < after_horizontal.len() {
                after_horizontal[k]
            } else if k < after_slash.len() {
                after_slash[k]
            } else {
                matches@[k]
            } by {
                if k < after_vertical.len() {
                    assert(after_horizontal[k] == after_vertical[k]);
                    assert(after_slash[k] == after_horizontal[k]);
                    assert(matches@[k] == after_slash[k]);
                } else if k < after_horizontal.len() {
                    assert(after_slash[k] == after_horizontal[k]);
                    assert(matches@[k] == after_slash[k]);
                } else if k < after_slash.len() {
                    assert(matches@[k] == after_slash[k]);
                }
            }
            assert forall|k1: int, q1: int, k2: int, q2: int|
                0 <= k1 < matches@.len() && 0 <= k2 < matches@.len() && 0 <= q1
                    < matches@[k1].cells@.len() && 0 <= q2 < matches@[k2].cells@.len() && (k1 != k2
                    || q1 != q2) && matches@[k1].direction
                    == matches@[k2].direction implies matches@[k1].cells@[q1]
                != matches@[k2].cells@[q2] by {
                let d = matches@[k1].direction;
                if k1 < after_vertical.len() {
                    assert(matches@[k1] == after_vertical[k1]);
                    assert(d == Direction::Vertical);
                } else if k1 < after_horizontal.len() {
                    assert(matches@[k1] == after_horizontal[k1]);
                    assert(d == Direction::Horizontal);
                } else if k1 < after_slash.len() {
                    assert(matches@[k1] == after_slash[k1]);
                    assert(d == Direction::DiagonalSlash);
                } else {
                    assert(d == Direction::DiagonalBackslash);
                }
                if k2 < after_vertical.len() {
                    assert(matches@[k2] == after_vertical[k2]);
                    assert(matches@[k2].direction == Direction::Vertical);
                } else if k2 < after_horizontal.len() {
                    assert(matches@[k2] == after_horizontal[k2]);
                    assert(matches@[k2].direction == Direction::Horizontal);
                } else if k2 < after_slash.len() {
                    assert(matches@[k2] == after_slash[k2]);
                    assert(matches@[k2].direction == Direction::DiagonalSlash);
                } else {
                    assert(matches@[k2].direction == Direction::DiagonalBackslash);
                }
            }
        }
        matches
    }
}

} // verus!
