use vstd::prelude::*;

use crate::constants::GAME_ARENA_ROWS;

verus! {

/// Addition on the `usize` range that tops out at `usize::MAX` instead of
/// overflowing.
pub open spec fn sat_add(a: int, b: int) -> int {
    if a + b > usize::MAX {
        usize::MAX as int
    } else {
        a + b
    }
}

/// Multiplication on the `usize` range that tops out at `usize::MAX`
/// instead of overflowing.
pub open spec fn sat_mul(a: int, b: int) -> int {
    if a * b > usize::MAX {
        usize::MAX as int
    } else {
        a * b
    }
}

/// The length bonus of one run: the sum 2 + 3 + ... + (b + 1), growing with
/// every cell beyond the minimum run length of 3.
pub open spec fn bonus_points_spec(b: int) -> int
    decreases b,
{
    if b <= 0 {
        0
    } else {
        bonus_points_spec(b - 1) + (b + 1)
    }
}

/// The points one run of the given length is worth: 3 base points plus the
/// length bonus.
pub open spec fn run_points(len: int) -> int {
    3 + bonus_points_spec(len - 3)
}

/// The summed points of all runs of one matching event, in list order,
/// each addition saturating.
pub open spec fn combo_base(lengths: Seq<usize>) -> int
    decreases lengths.len(),
{
    if lengths.len() == 0 {
        0
    } else {
        sat_add(combo_base(lengths.drop_last()), run_points(lengths.last() as int))
    }
}

/// The combo value of one matching event: the summed run points, multiplied
/// by the number of simultaneous runs and by the chain depth.
pub open spec fn event_combo(lengths: Seq<usize>, chain: int) -> int {
    sat_mul(sat_mul(combo_base(lengths), lengths.len() as int), chain)
}

/// Score bookkeeping for one game: cumulative score, the running combo
/// accumulator with its maximum, the session high score, and the one-shot
/// flags the HUD consumes.
pub struct Scoring {
    pub score: usize,
    pub maxcombo: usize,
    pub is_new_maxcombo: bool,
    pub maxcombo_accumulator: usize,
    pub highscore: usize,
    pub is_new_highscore: bool,
    pub is_new_highscore_already_reached: bool,
}

/// What one call of `update_from_matches` does to a `Scoring` value: add
/// the event combo to the score, reset or extend the combo accumulator
/// (a chain depth of 1 starts a new cascade), raise the maximum combo and
/// flag it when the accumulator exceeds it, and fire the new-high-score
/// flag at most once per game, guarded by its latch.
pub open spec fn scoring_step(s: Scoring, lengths: Seq<usize>, chain: int) -> Scoring {
    let combo = event_combo(lengths, chain);
    let score = sat_add(s.score as int, combo);
    let acc0: int = if chain == 1 {
        0
    } else {
        s.maxcombo_accumulator as int
    };
    let acc = sat_add(acc0, combo);
    let new_max = acc > s.maxcombo;
    let fires = score > s.highscore && !s.is_new_highscore_already_reached;
    Scoring {
        score: score as usize,
        maxcombo: if new_max {
            acc as usize
        } else {
            s.maxcombo
        },
        is_new_maxcombo: new_max,
        maxcombo_accumulator: acc as usize,
        highscore: s.highscore,
        is_new_highscore: fires,
        is_new_highscore_already_reached: s.is_new_highscore_already_reached || fires,
    }
}

impl Scoring {
    /// A fresh game's scoring, with the high score loaded at session level.
    pub fn new(highscore: usize) -> (s: Scoring)
        ensures
            s.score == 0,
            s.maxcombo == 0,
            !s.is_new_maxcombo,
            s.maxcombo_accumulator == 0,
            s.highscore == highscore,
            !s.is_new_highscore,
            !s.is_new_highscore_already_reached,
    {
        Scoring {
            score: 0,
            maxcombo: 0,
            is_new_maxcombo: false,
            maxcombo_accumulator: 0,
            highscore,
            is_new_highscore: false,
            is_new_highscore_already_reached: false,
        }
    }

    /// Apply one matching event, given the run lengths and the chain depth
    /// as `Matching::get_scoring_data` hands them out.
    pub fn update_from_matches(&mut self, data: (Vec<usize>, usize))
        requires
            forall|k: int| 0 <= k < data.0@.len() ==> 3 <= #[trigger] data.0@[k] <= GAME_ARENA_ROWS,
        ensures
            *final(self) == scoring_step(*old(self), data.0@, data.1 as int),
    {
        let (num_of_matching_blocks, num_of_sequential_matchings) = data;
        let mut combo: usize = 0;
        let mut i: usize = 0;
        while i < num_of_matching_blocks.len()
            invariant
                i <= num_of_matching_blocks@.len(),
                forall|k: int|
                    0 <= k < num_of_matching_blocks@.len() ==> 3 <= #[trigger] num_of_matching_blocks@[k] <= GAME_ARENA_ROWS,
                combo == combo_base(num_of_matching_blocks@.take(i as int)),
            decreases num_of_matching_blocks@.len() - i,
        {
            let num_matches = num_of_matching_blocks[i];
            let bonus_length = num_matches - 3;
            let mut bonus_points: usize = 0;
            if bonus_length > 0 {
                let mut bonus_point: usize = 2;
                while bonus_point < bonus_length + 2
                    invariant
                        2 <= bonus_point <= bonus_length + 2,
                        bonus_length <= GAME_ARENA_ROWS,
                        bonus_points == bonus_points_spec(bonus_point - 2),
                        bonus_points <= 20 * (bonus_point - 2),
                    decreases bonus_length + 2 - bonus_point,
                {
                    bonus_points = bonus_points + bonus_point;
                    bonus_point += 1;
                }
            }
            let points_per_match = 3 + bonus_points;
            proof {
                assert(points_per_match == run_points(num_matches as int));
            }
            combo = combo.saturating_add(points_per_match);
            i += 1;
            proof {
                assert(num_of_matching_blocks@.take(i as int).drop_last()
                    =~= num_of_matching_blocks@.take(i - 1));
                assert(num_of_matching_blocks@.take(i as int).last()
                    == num_of_matching_blocks@[i - 1]);
            }
        }
        proof {
            assert(num_of_matching_blocks@.take(num_of_matching_blocks@.len() as int)
                =~= num_of_matching_blocks@);
        }
        let scaled = match combo.checked_mul(num_of_matching_blocks.len()) {
            Some(v) => v,
            None => usize::MAX,
        };
        let final_combo = match scaled.checked_mul(num_of_sequential_matchings) {
            Some(v) => v,
            None => usize::MAX,
        };
        // SCORE
        self.score = self.score.saturating_add(final_combo);
        // MAX COMBO
        if num_of_sequential_matchings == 1 {
            self.maxcombo_accumulator = 0;
        }
        self.maxcombo_accumulator = self.maxcombo_accumulator.saturating_add(final_combo);
        self.is_new_maxcombo = false;
        if self.maxcombo_accumulator > self.maxcombo {
            self.maxcombo = self.maxcombo_accumulator;
            self.is_new_maxcombo = true;
        }
        // HIGHSCORE
        self.is_new_highscore = false;
        if self.score > self.highscore && !self.is_new_highscore_already_reached {
            self.is_new_highscore = true;
            self.is_new_highscore_already_reached = true;
        }
    }
}

/// The points of one run are positive, so the combo sum never shrinks as
/// runs are added.
proof fn lemma_run_points_nonneg(len: int)
    ensures
        run_points(len) >= 3,
    decreases len,
{
    if len - 3 > 0 {
        lemma_run_points_nonneg(len - 1);
    }
}

/// The summed run points of an event are never negative.
proof fn lemma_combo_base_nonneg(lengths: Seq<usize>)
    ensures
        combo_base(lengths) >= 0,
    decreases lengths.len(),
{
    if lengths.len() > 0 {
        lemma_combo_base_nonneg(lengths.drop_last());
        lemma_run_points_nonneg(lengths.last() as int);
    }
}

/// The combo of one event is never negative.
proof fn lemma_event_combo_nonneg(lengths: Seq<usize>, chain: int)
    requires
        chain >= 0,
    ensures
        event_combo(lengths, chain) >= 0,
{
    lemma_combo_base_nonneg(lengths);
    let base = combo_base(lengths);
    let n = lengths.len() as int;
    assert(base * n >= 0) by (nonlinear_arith)
        requires
            base >= 0 && n >= 0,
    ;
    let scaled = sat_mul(base, n);
    assert(scaled * chain >= 0) by (nonlinear_arith)
        requires
            scaled >= 0 && chain >= 0,
    ;
}

/// Law: one scoring update never decreases the score.
pub proof fn lemma_score_monotonic(s: Scoring, lengths: Seq<usize>, chain: int)
    requires
        chain >= 0,
    ensures
        scoring_step(s, lengths, chain).score >= s.score,
{
    lemma_event_combo_nonneg(lengths, chain);
}

/// Law: below the saturation cap (a machine limit), the combo of one
/// event scales linearly with the chain depth: a chained match is worth
/// exactly its depth times the equivalent unchained event.
pub proof fn lemma_chain_multiplies(lengths: Seq<usize>, chain: int)
    requires
        chain >= 1,
        combo_base(lengths) * lengths.len() * chain <= usize::MAX,
    ensures
        event_combo(lengths, chain) == chain * event_combo(lengths, 1),
{
    lemma_combo_base_nonneg(lengths);
    let base = combo_base(lengths);
    let n = lengths.len() as int;
    assert(base * n >= 0) by (nonlinear_arith)
        requires
            base >= 0 && n >= 0,
    ;
    assert(base * n <= base * n * chain) by (nonlinear_arith)
        requires
            base * n >= 0 && chain >= 1,
    ;
    assert(sat_mul(base, n) == base * n);
    assert(base * n * 1 == base * n) by (nonlinear_arith);
    assert(sat_mul(sat_mul(base, n), 1) == base * n);
    assert(sat_mul(sat_mul(base, n), chain) == base * n * chain) by (nonlinear_arith)
        requires
            sat_mul(base, n) == base * n && base * n * chain <= usize::MAX && base * n >= 0
                && chain >= 1,
    ;
    assert(base * n * chain == chain * (base * n)) by (nonlinear_arith);
}

/// Law: the new-max-combo flag fires exactly when the combo accumulated
/// over the current cascade strictly exceeds the previous maximum.
pub proof fn lemma_new_maxcombo_iff(s: Scoring, lengths: Seq<usize>, chain: int)
    requires
        chain >= 0,
    ensures
        scoring_step(s, lengths, chain).is_new_maxcombo <==> scoring_step(
            s,
            lengths,
            chain,
        ).maxcombo_accumulator > s.maxcombo,
{
    lemma_event_combo_nonneg(lengths, chain);
}

/// Law: the new-high-score flag fires at most once per game: once it has
/// fired, its latch stays set and no later scoring update of the same game
/// fires it again.
pub proof fn lemma_new_highscore_at_most_once(
    s: Scoring,
    lengths1: Seq<usize>,
    chain1: int,
    lengths2: Seq<usize>,
    chain2: int,
)
    ensures
        scoring_step(s, lengths1, chain1).is_new_highscore ==> !scoring_step(
            scoring_step(s, lengths1, chain1),
            lengths2,
            chain2,
        ).is_new_highscore,
        scoring_step(s, lengths1, chain1).is_new_highscore ==> scoring_step(
            s,
            lengths1,
            chain1,
        ).is_new_highscore_already_reached,
        s.is_new_highscore_already_reached ==> scoring_step(
            s,
            lengths1,
            chain1,
        ).is_new_highscore_already_reached,
{
}

} // verus!
