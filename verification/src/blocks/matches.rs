use vstd::prelude::*;

use crate::blocks::Block;
use crate::blocks::BlockColor;
use crate::blocks::pile::Pile;
use crate::blocks::pile::coords_contain;
use crate::blocks::search::MatchRun;
use crate::blocks::search::lemma_run_valid_len_bound;
use crate::blocks::search::run_valid;
use crate::constants::GAME_ARENA_COLUMNS;
use crate::constants::GAME_ARENA_ROWS;
use crate::constants::NUM_TICKS_MATCHES_REMOVAL_STAGE_0;
use crate::constants::NUM_TICKS_MATCHES_REMOVAL_STAGE_1;
use crate::constants::NUM_TICKS_MATCHES_REMOVAL_STAGE_2;
use crate::constants::NUM_TICKS_MATCHES_REMOVAL_STAGE_3;

verus! {

/// Some run in the list passes through the cell (`c`, `r`).
pub open spec fn runs_contain(runs: Seq<MatchRun>, c: int, r: int) -> bool {
    exists|k: int, m: int|
        0 <= k < runs.len() && 0 <= m < runs[k].cells@.len() && (#[trigger] runs[k].cells@[m]).0
            == c && runs[k].cells@[m].1 == r
}

/// A cell of one of the first `k` runs, or of the first `m` cells of run
/// `k`, is (`c`, `r`): the portion a deduplication walk has already seen.
pub open spec fn runs_contain_prefix(
    runs: Seq<MatchRun>,
    k: int,
    m: int,
    c: int,
    r: int,
) -> bool {
    ||| exists|k2: int, m2: int|
        0 <= k2 < k && 0 <= m2 < runs[k2].cells@.len() && (#[trigger] runs[k2].cells@[m2]).0 == c
            && runs[k2].cells@[m2].1 == r
    ||| exists|m2: int|
        0 <= m2 < m && m2 < runs[k].cells@.len() && (#[trigger] runs[k].cells@[m2]).0 == c
            && runs[k].cells@[m2].1 == r
}

/// The total number of cells of the first `k` runs, duplicates counted.
pub open spec fn total_run_len_prefix(runs: Seq<MatchRun>, k: int) -> int
    decreases k,
{
    if k <= 0 {
        0
    } else {
        total_run_len_prefix(runs, k - 1) + runs[k - 1].cells@.len()
    }
}

/// How many ticks the given blinking stage lasts.
pub open spec fn stage_threshold(stage: int) -> int {
    if stage == 0 {
        NUM_TICKS_MATCHES_REMOVAL_STAGE_0 as int
    } else if stage == 1 {
        NUM_TICKS_MATCHES_REMOVAL_STAGE_1 as int
    } else if stage == 2 {
        NUM_TICKS_MATCHES_REMOVAL_STAGE_2 as int
    } else {
        NUM_TICKS_MATCHES_REMOVAL_STAGE_3 as int
    }
}

/// One tick of the blinking animation as a function of the matching: the
/// stage advances when its tick budget is spent, and a finished schedule
/// stays finished.
pub open spec fn blink_advanced(m: Matching) -> Matching {
    let stage = m.blinking_animation_stage as int;
    let ticks = m.ticks_in_stage as int;
    if stage > 3 {
        m
    } else if ticks + 1 == stage_threshold(stage) {
        (Matching { blinking_animation_stage: (stage + 1) as usize, ticks_in_stage: 0, ..m })
    } else {
        (Matching { ticks_in_stage: (ticks + 1) as usize, ..m })
    }
}

/// One matching event, possibly extended by chained matches.
///
/// Holds the deduplicated coordinates of all matched cells, the length of
/// each run (for scoring), the runs' endpoints and colors (for the
/// direction-indicator lines), the extracted blocks (for the removal
/// animation), the chain depth, and the blinking-animation stage.
pub struct Matching {
    pub num_of_sequential_matchings: usize,
    pub num_of_matching_blocks: Vec<usize>,
    pub match_direction_indicators: Vec<(BlockColor, (usize, usize), (usize, usize))>,
    pub unique_matching_blocks_indexes: Vec<(usize, usize)>,
    pub blocks: Vec<Block>,
    pub blinking_animation_stage: usize,
    pub ticks_in_stage: usize,
}

impl Matching {
    /// Basic well-formedness: chain depth at least 1, every recorded run
    /// length between 3 and the grid's longer side, no duplicate matched
    /// coordinate, one extracted block per matched coordinate, and the
    /// animation counters within their schedule.
    pub open spec fn wf(self) -> bool {
        &&& self.num_of_sequential_matchings >= 1
        &&& forall|k: int|
            0 <= k < self.num_of_matching_blocks@.len() ==> 3 <= #[trigger] self
                .num_of_matching_blocks@[k] <= GAME_ARENA_ROWS
        &&& forall|i: int, j: int|
            0 <= i < j < self.unique_matching_blocks_indexes@.len()
                ==> self.unique_matching_blocks_indexes@[i]
                != self.unique_matching_blocks_indexes@[j]
        &&& self.blocks@.len() == self.unique_matching_blocks_indexes@.len()
        &&& self.blinking_animation_stage <= 4
        &&& self.blinking_animation_stage <= 3 ==> self.ticks_in_stage < stage_threshold(
            self.blinking_animation_stage as int,
        )
    }

    /// The pile is in the state extraction leaves behind: below each cached
    /// top exactly the matched coordinates are empty. This is what
    /// `Pile::remove_matches` expects.
    pub open spec fn holds_extracted(self, p: Pile) -> bool {
        &&& p.shape_wf()
        &&& forall|c: int, r: int|
            0 <= c < GAME_ARENA_COLUMNS && 0 <= r < GAME_ARENA_ROWS ==> ((#[trigger] p.cell(c, r))
                is Some <==> (r <= p.top(c) && !coords_contain(
                self.unique_matching_blocks_indexes@,
                c,
                r,
            )))
    }

    /// The match data agrees with the runs it was built from and with the
    /// pile as it was before extraction: one recorded length and one
    /// indicator per run, and the deduplicated coordinate set holds exactly
    /// the runs' cells, each once, so its cardinality is at most the sum of
    /// the run lengths.
    pub open spec fn data_ok(self, runs: Seq<MatchRun>, p0: Pile) -> bool {
        &&& self.num_of_matching_blocks@.len() == runs.len()
        &&& forall|k: int|
            0 <= k < runs.len() ==> #[trigger] self.num_of_matching_blocks@[k]
                == runs[k].cells@.len()
        &&& self.match_direction_indicators@.len() == runs.len()
        &&& forall|k: int|
            0 <= k < runs.len() ==> #[trigger] self.match_direction_indicators@[k] == (
                (
                p0.cell(
                    runs[k].cells@[0].0 as int,
                    runs[k].cells@[0].1 as int,
                )->Some_0,
                runs[k].cells@[0],
                runs[k].cells@[runs[k].cells@.len() - 1],
            ))
        &&& forall|c: int, r: int|
            coords_contain(self.unique_matching_blocks_indexes@, c, r) <==> runs_contain(runs, c, r)
        &&& self.unique_matching_blocks_indexes@.len() <= total_run_len_prefix(
            runs,
            runs.len() as int,
        )
        &&& forall|k: int|
            0 <= k < self.blocks@.len() ==> #[trigger] self.blocks@[k] == (Block {
                color: p0.cell(
                    self.unique_matching_blocks_indexes@[k].0 as int,
                    self.unique_matching_blocks_indexes@[k].1 as int,
                )->Some_0,
                col: self.unique_matching_blocks_indexes@[k].0 as i32,
                row: self.unique_matching_blocks_indexes@[k].1 as i32,
            })
    }

    /// Build a matching from a fresh search result: record the runs'
    /// lengths, endpoints and deduplicated coordinates, and pull the matched
    /// blocks out of the pile. The chain depth starts at 1.
    pub fn new(matches: &Vec<MatchRun>, pile: &mut Pile) -> (m: Matching)
        requires
            old(pile).inv(),
            forall|k: int|
                0 <= k < matches@.len() ==> run_valid(
                    *old(pile),
                    (#[trigger] matches@[k]).direction,
                    matches@[k].cells@,
                ),
        ensures
            m.num_of_sequential_matchings == 1,
            m.blinking_animation_stage == 0,
            m.ticks_in_stage == 0,
            m.wf(),
            m.data_ok(matches@, *old(pile)),
            m.holds_extracted(*final(pile)),
            final(pile).column_tops@ == old(pile).column_tops@,
            forall|c: int, r: int|
                0 <= c < GAME_ARENA_COLUMNS && 0 <= r < GAME_ARENA_ROWS ==> #[trigger] final(pile).cell(c, r) == if coords_contain(m.unique_matching_blocks_indexes@, c, r) {
                    Option::<BlockColor>::None
                } else {
                    old(pile).cell(c, r)
                },
    {
        let (num_of_matching_blocks, match_direction_indicators, unique_match_indexes, blocks) =
            Self::extract_matching_data_from_matches(matches, pile);
        Matching {
            num_of_sequential_matchings: 1,
            num_of_matching_blocks,
            match_direction_indicators,
            unique_matching_blocks_indexes: unique_match_indexes,
            blocks,
            blinking_animation_stage: 0,
            ticks_in_stage: 0,
        }
    }

    /// Extend this matching with the next link of a chain reaction: replace
    /// every piece of match data from the fresh search result, bump the
    /// chain depth and restart the blinking animation.
    pub fn new_chained_match(&mut self, matches: &Vec<MatchRun>, pile: &mut Pile)
        requires
            old(pile).inv(),
            forall|k: int|
                0 <= k < matches@.len() ==> run_valid(
                    *old(pile),
                    (#[trigger] matches@[k]).direction,
                    matches@[k].cells@,
                ),
        ensures
            final(self).num_of_sequential_matchings == if old(self).num_of_sequential_matchings
                == usize::MAX {
                usize::MAX as int
            } else {
                old(self).num_of_sequential_matchings + 1
            },
            final(self).blinking_animation_stage == 0,
            final(self).ticks_in_stage == 0,
            final(self).wf(),
            final(self).data_ok(matches@, *old(pile)),
            final(self).holds_extracted(*final(pile)),
            final(pile).column_tops@ == old(pile).column_tops@,
            forall|c: int, r: int|
                0 <= c < GAME_ARENA_COLUMNS && 0 <= r < GAME_ARENA_ROWS ==> #[trigger] final(pile).cell(c, r) == if coords_contain(
                    final(self).unique_matching_blocks_indexes@,
                    c,
                    r,
                ) {
                    Option::<BlockColor>::None
                } else {
                    old(pile).cell(c, r)
                },
    {
        self.num_of_sequential_matchings = self.num_of_sequential_matchings.saturating_add(1);
        let (num_of_matching_blocks, match_direction_indicators, unique_match_indexes, blocks) =
            Self::extract_matching_data_from_matches(matches, pile);
        self.num_of_matching_blocks = num_of_matching_blocks;
        self.match_direction_indicators = match_direction_indicators;
        self.unique_matching_blocks_indexes = unique_match_indexes;
        self.blocks = blocks;
        self.blinking_animation_stage = 0;
        self.ticks_in_stage = 0;
    }

    /// The run lengths and the chain depth, as the scoring rules consume
    /// them.
    pub fn get_scoring_data(&self) -> (r: (Vec<usize>, usize))
        ensures
            r.0@ == self.num_of_matching_blocks@,
            r.1 == self.num_of_sequential_matchings,
    {
        (self.num_of_matching_blocks.clone(), self.num_of_sequential_matchings)
    }

    /// The deduplicated coordinates of all matched cells.
    pub fn get_unique_matching_blocks_indexes(&self) -> (r: Vec<(usize, usize)>)
        ensures
            r@ == self.unique_matching_blocks_indexes@,
    {
        let mut r: Vec<(usize, usize)> = Vec::new();
        let mut i: usize = 0;
        while i < self.unique_matching_blocks_indexes.len()
            invariant
                i <= self.unique_matching_blocks_indexes@.len(),
                r@ =~= self.unique_matching_blocks_indexes@.take(i as int),
            decreases self.unique_matching_blocks_indexes@.len() - i,
        {
            r.push(self.unique_matching_blocks_indexes[i]);
            i += 1;
        }
        proof {
            assert(r@ =~= self.unique_matching_blocks_indexes@);
        }
        r
    }

    /// The blocks extracted from the pile, for the removal animation.
    pub fn get_blocks(&self) -> (r: Vec<Block>)
        ensures
            r@ == self.blocks@,
    {
        self.blocks.clone()
    }

    /// The color and the two endpoint cells of each run, for the
    /// direction-indicator lines shown while the matched blocks blink.
    pub fn get_match_direction_indicators(&self) -> (r: Vec<
        (BlockColor, (usize, usize), (usize, usize)),
    >)
        ensures
            r@ == self.match_direction_indicators@,
    {
        let mut r: Vec<(BlockColor, (usize, usize), (usize, usize))> = Vec::new();
        let mut i: usize = 0;
        while i < self.match_direction_indicators.len()
            invariant
                i <= self.match_direction_indicators@.len(),
                r@ =~= self.match_direction_indicators@.take(i as int),
            decreases self.match_direction_indicators@.len() - i,
        {
            r.push(self.match_direction_indicators[i]);
            i += 1;
        }
        proof {
            assert(r@ =~= self.match_direction_indicators@);
        }
        r
    }

    /// Advance the blinking animation by one tick. The animation runs
    /// through four stages of fixed lengths; the result says whether the
    /// schedule has completed, so the matched cells are ready to be removed.
    pub fn blinking_animation(&mut self) -> (over: bool)
        requires
            old(self).wf(),
        ensures
            *final(self) == blink_advanced(*old(self)),
            final(self).wf(),
            over == (final(self).blinking_animation_stage > 3),
    {
        if self.blinking_animation_stage > 3 {
            return true;
        }
        let threshold: usize = if self.blinking_animation_stage == 0 {
            NUM_TICKS_MATCHES_REMOVAL_STAGE_0
        } else if self.blinking_animation_stage == 1 {
            NUM_TICKS_MATCHES_REMOVAL_STAGE_1
        } else if self.blinking_animation_stage == 2 {
            NUM_TICKS_MATCHES_REMOVAL_STAGE_2
        } else {
            NUM_TICKS_MATCHES_REMOVAL_STAGE_3
        };
        self.ticks_in_stage = self.ticks_in_stage + 1;
        if self.ticks_in_stage == threshold {
            self.blinking_animation_stage = self.blinking_animation_stage + 1;
            self.ticks_in_stage = 0;
        }
        self.blinking_animation_stage > 3
    }

    /// Collect from the runs their lengths, their endpoints with their
    /// colors, and the deduplicated set of matched coordinates, then pull
    /// the matched blocks out of the pile.
    #[verifier::loop_isolation(false)]
    fn extract_matching_data_from_matches(matches: &Vec<MatchRun>, pile: &mut Pile) -> (r: (
        Vec<usize>,
        Vec<(BlockColor, (usize, usize), (usize, usize))>,
        Vec<(usize, usize)>,
        Vec<Block>,
    ))
        requires
            old(pile).inv(),
            forall|k: int|
                0 <= k < matches@.len() ==> run_valid(
                    *old(pile),
                    (#[trigger] matches@[k]).direction,
                    matches@[k].cells@,
                ),
        ensures
            r.0@.len() == matches@.len(),
            forall|k: int|
                0 <= k < matches@.len() ==> #[trigger] r.0@[k] == matches@[k].cells@.len(),
            forall|k: int| 0 <= k < matches@.len() ==> 3 <= #[trigger] r.0@[k] <= GAME_ARENA_ROWS,
            r.1@.len() == matches@.len(),
            forall|k: int|
                0 <= k < matches@.len() ==> #[trigger] r.1@[k] == ((
                    old(pile).cell(
                        matches@[k].cells@[0].0 as int,
                        matches@[k].cells@[0].1 as int,
                    )->Some_0,
                    matches@[k].cells@[0],
                    matches@[k].cells@[matches@[k].cells@.len() - 1],
                )),
            forall|i: int, j: int| 0 <= i < j < r.2@.len() ==> r.2@[i] != r.2@[j],
            forall|c: int, r2: int|
                coords_contain(r.2@, c, r2) <==> runs_contain(matches@, c, r2),
            r.2@.len() <= total_run_len_prefix(matches@, matches@.len() as int),
            r.3@.len() == r.2@.len(),
            forall|k: int|
                0 <= k < r.3@.len() ==> #[trigger] r.3@[k] == (Block {
                    color: old(pile).cell(r.2@[k].0 as int, r.2@[k].1 as int)->Some_0,
                    col: r.2@[k].0 as i32,
                    row: r.2@[k].1 as i32,
                }),
            final(pile).shape_wf(),
            final(pile).column_tops@ == old(pile).column_tops@,
            forall|c: int, r2: int|
                0 <= c < GAME_ARENA_COLUMNS && 0 <= r2 < GAME_ARENA_ROWS ==> #[trigger] final(pile).cell(c, r2) == if coords_contain(r.2@, c, r2) {
                    Option::<BlockColor>::None
                } else {
                    old(pile).cell(c, r2)
                },
            forall|c: int, r2: int|
                0 <= c < GAME_ARENA_COLUMNS && 0 <= r2 < GAME_ARENA_ROWS ==> ((#[trigger] final(pile).cell(c, r2)) is Some <==> (r2 <= final(pile).top(c) && !coords_contain(
                    r.2@,
                    c,
                    r2,
                ))),
    {
        let mut num_of_matching_blocks: Vec<usize> = Vec::new();
        let mut match_direction_indicators: Vec<(BlockColor, (usize, usize), (usize, usize))> =
            Vec::new();
        let mut unique_match_indexes: Vec<(usize, usize)> = Vec::new();
        let mut k: usize = 0;
        while k < matches.len()
            invariant
                k <= matches@.len(),
                num_of_matching_blocks@.len() == k,
                forall|k2: int|
                    0 <= k2 < k ==> #[trigger] num_of_matching_blocks@[k2]
                        == matches@[k2].cells@.len(),
                forall|k2: int|
                    0 <= k2 < k ==> 3 <= #[trigger] num_of_matching_blocks@[k2]
                        <= GAME_ARENA_ROWS,
                match_direction_indicators@.len() == k,
                forall|k2: int|
                    0 <= k2 < k ==> #[trigger] match_direction_indicators@[k2] == ((
                        pile.cell(
                            matches@[k2].cells@[0].0 as int,
                            matches@[k2].cells@[0].1 as int,
                        )->Some_0,
                        matches@[k2].cells@[0],
                        matches@[k2].cells@[matches@[k2].cells@.len() - 1],
                    )),
                forall|i: int, j: int|
                    0 <= i < j < unique_match_indexes@.len() ==> unique_match_indexes@[i]
                        != unique_match_indexes@[j],
                forall|c: int, r2: int|
                    coords_contain(unique_match_indexes@, c, r2) <==> runs_contain_prefix(
                        matches@,
                        k as int,
                        0,
                        c,
                        r2,
                    ),
                unique_match_indexes@.len() <= total_run_len_prefix(matches@, k as int),
            decreases matches@.len() - k,
        {
            let run = &matches[k];
            proof {
                lemma_run_valid_len_bound(*pile, run.direction, run.cells@);
            }
            num_of_matching_blocks.push(run.cells.len());
            let first = run.cells[0];
            let last = run.cells[run.cells.len() - 1];
            let first_cell = pile.matrix[first.0][first.1];
            let first_color: BlockColor;
            match first_cell {
                Some(color) => {
                    first_color = color;
                },
                None => {
                    proof {
                        assert(false);
                    }
                    first_color = BlockColor::Red;
                },
            }
            match_direction_indicators.push((first_color, first, last));
            let mut m: usize = 0;
            while m < run.cells.len()
                invariant
                    m <= run.cells@.len(),
                    forall|i: int, j: int|
                        0 <= i < j < unique_match_indexes@.len() ==> unique_match_indexes@[i]
                            != unique_match_indexes@[j],
                    forall|c: int, r2: int|
                        coords_contain(unique_match_indexes@, c, r2) <==> runs_contain_prefix(
                            matches@,
                            k as int,
                            m as int,
                            c,
                            r2,
                        ),
                    unique_match_indexes@.len() <= total_run_len_prefix(matches@, k as int) + m,
                decreases run.cells@.len() - m,
            {
                let cell = run.cells[m];
                let found = Self::coords_list_contains(&unique_match_indexes, cell);
                let ghost pre_unique = unique_match_indexes@;
                if !found {
                    unique_match_indexes.push(cell);
                }
                proof {
                    assert forall|c: int, r2: int|
                        coords_contain(unique_match_indexes@, c, r2) <==> runs_contain_prefix(
                        matches@,
                        k as int,
                        m + 1,
                        c,
                        r2,
                    ) by {
                        if coords_contain(unique_match_indexes@, c, r2) {
                            let k3 = choose|k3: int|
                                0 <= k3 < unique_match_indexes@.len() && (
                                #[trigger] unique_match_indexes@[k3]).0 == c
                                    && unique_match_indexes@[k3].1 == r2;
                            if k3 < pre_unique.len() {
                                assert(coords_contain(pre_unique, c, r2));
                            } else {
                                assert(unique_match_indexes@[k3] == cell);
                                assert(run.cells@[m as int] == cell);
                            }
                        }
                        if runs_contain_prefix(matches@, k as int, m + 1, c, r2) {
                            if runs_contain_prefix(matches@, k as int, m as int, c, r2) {
                                assert(coords_contain(pre_unique, c, r2));
                                if !found {
                                    assert forall|k4: int|
                                        0 <= k4 < pre_unique.len() implies unique_match_indexes@[k4]
                                        == pre_unique[k4] by {}
                                }
                                assert(coords_contain(unique_match_indexes@, c, r2));
                            } else {
                                assert(run.cells@[m as int].0 == c && run.cells@[m as int].1 == r2);
                                if found {
                                    assert(coords_contain(pre_unique, c, r2));
                                    assert(coords_contain(unique_match_indexes@, c, r2));
                                } else {
                                    assert(unique_match_indexes@[pre_unique.len() as int] == cell);
                                    assert(coords_contain(unique_match_indexes@, c, r2));
                                }
                            }
                        }
                    }
                }
                m += 1;
            }
            k += 1;
            proof {
                assert forall|c: int, r2: int|
                    runs_contain_prefix(matches@, k as int, 0, c, r2) <==> runs_contain_prefix(
                    matches@,
                    k - 1,
                    matches@[k - 1].cells@.len() as int,
                    c,
                    r2,
                ) by {
                    if runs_contain_prefix(matches@, k as int, 0, c, r2) {
                        let (k2, m2) = choose|k2: int, m2: int|
                            0 <= k2 < k && 0 <= m2 < matches@[k2].cells@.len() && (
                            #[trigger] matches@[k2].cells@[m2]).0 == c && matches@[k2].cells@[m2].1
                                == r2;
                        if k2 < k - 1 {
                            assert(runs_contain_prefix(
                                matches@,
                                k - 1,
                                matches@[k - 1].cells@.len() as int,
                                c,
                                r2,
                            ));
                        }
                    }
                }
            }
        }
        proof {
            assert forall|c: int, r2: int|
                runs_contain_prefix(matches@, matches@.len() as int, 0, c, r2) <==> runs_contain(
                matches@,
                c,
                r2,
            ) by {}
            assert forall|k2: int|
                0 <= k2 < unique_match_indexes@.len() implies (
            #[trigger] unique_match_indexes@[k2]).0 < GAME_ARENA_COLUMNS
                && unique_match_indexes@[k2].1 < GAME_ARENA_ROWS && pile.cell(
                unique_match_indexes@[k2].0 as int,
                unique_match_indexes@[k2].1 as int,
            ) is Some by {
                let cell = unique_match_indexes@[k2];
                assert(coords_contain(unique_match_indexes@, cell.0 as int, cell.1 as int));
                let (k3, m3) = choose|k3: int, m3: int|
                    0 <= k3 < matches@.len() && 0 <= m3 < matches@[k3].cells@.len() && (
                    #[trigger] matches@[k3].cells@[m3]).0 == cell.0 as int
                        && matches@[k3].cells@[m3].1 == cell.1 as int;
                assert(run_valid(*pile, matches@[k3].direction, matches@[k3].cells@));
                assert(matches@[k3].cells@[m3] == cell);
                assert(pile.cell(cell.0 as int, cell.1 as int) == pile.cell(
                    matches@[k3].cells@[0].0 as int,
                    matches@[k3].cells@[0].1 as int,
                ));
            }
        }
        let ghost pile0 = *pile;
        let blocks = pile.extract_matching_blocks(&unique_match_indexes);
        proof {
            assert forall|c: int, r2: int|
                0 <= c < GAME_ARENA_COLUMNS && 0 <= r2 < GAME_ARENA_ROWS implies ((#[trigger] pile
                .cell(c, r2)) is Some <==> (r2 <= pile.top(c) && !coords_contain(
                unique_match_indexes@,
                c,
                r2,
            ))) by {
                assert(pile0.col_contiguous(c));
                assert(pile.top(c) == pile0.top(c));
            }
        }
        (num_of_matching_blocks, match_direction_indicators, unique_match_indexes, blocks)
    }

    /// Whether the coordinate list already holds the given cell.
    #[verifier::loop_isolation(false)]
    fn coords_list_contains(list: &Vec<(usize, usize)>, cell: (usize, usize)) -> (found: bool)
        ensures
            found == coords_contain(list@, cell.0 as int, cell.1 as int),
    {
        let mut i: usize = 0;
        while i < list.len()
            invariant
                i <= list@.len(),
                forall|k: int|
                    0 <= k < i ==> !((#[trigger] list@[k]).0 == cell.0 && list@[k].1 == cell.1),
            decreases list@.len() - i,
        {
            let entry = list[i];
            if entry.0 == cell.0 && entry.1 == cell.1 {
                return true;
            }
            i += 1;
        }
        false
    }
}

} // verus!
