use vstd::prelude::*;

use crate::blocks::Block;
use crate::blocks::Factory;
use crate::blocks::cargo::Cargo;
use crate::blocks::cargo::cargo_after_input;
use crate::blocks::cargo::descended;
use crate::blocks::matches::Matching;
use crate::blocks::matches::blink_advanced;
use crate::blocks::pile::Pile;
use crate::blocks::pile::coords_contain;
use crate::blocks::pile::pile_compacted;
use crate::blocks::pile::pile_took_cargo;
use crate::blocks::search::MatchRun;
use crate::blocks::search::has_match;
use crate::blocks::search::lemma_search_result_empty;
use crate::blocks::search::search_result_ok;
use crate::constants::GAME_ARENA_COLUMNS;
use crate::constants::GAME_ARENA_ROWS;
use crate::blocks::BlockColor;
use crate::constants::NUM_DESCENDED_CARGOES_GAMEPLAY_ACCELERATION;
use crate::constants::NUM_TICKS_FOR_PAUSED_BLOCKS_SHUFFLE;
use crate::constants::NUM_TICKS_GAMEPLAY_ACCELERATION_LIMIT;
use crate::constants::STARTING_NUM_TICKS_FOR_CARGO_DESCENT;
use crate::input::Event;
use crate::stages::Stage;
use crate::stages::playing::hud::GameInfoType;
use crate::stages::playing::scoring::Scoring;
use crate::stages::playing::scoring::lemma_score_monotonic;
use crate::stages::playing::scoring::scoring_step;

pub mod hud;
pub mod scoring;

verus! {

/// The state of the game's central state machine. `Uninitialized` stands
/// for "needs a fresh game": the first tick after it sets a new game up.
#[derive(Clone, Copy, Debug, PartialEq, Eq, Structural)]
pub enum PlayingState {
    Uninitialized,
    Ready,
    DescendingCargo,
    HandlingMatches,
    Pause,
    GameOver,
    QuittingToMainMenu,
}

/// The edges of the game's state machine: which states one tick may move
/// between, and on which input. Pausing is possible only on Escape or a
/// lost window focus; within a landing tick, pausing can still be overtaken
/// by the landing's own transition, so a paused tick may also end in the
/// landing's successor states.
pub open spec fn transition_allowed(pre: PlayingState, post: PlayingState, ev: Event) -> bool {
    match pre {
        PlayingState::Uninitialized => post == PlayingState::Ready,
        PlayingState::Ready => post == PlayingState::Ready || (post == PlayingState::DescendingCargo
            && ev == Event::Enter) || (post == PlayingState::QuittingToMainMenu && ev
            == Event::Escape),
        PlayingState::DescendingCargo => post == PlayingState::DescendingCargo || post
            == PlayingState::HandlingMatches || post == PlayingState::GameOver || (post
            == PlayingState::Pause && (ev == Event::Escape || ev == Event::LostFocus)),
        PlayingState::HandlingMatches => post == PlayingState::HandlingMatches || post
            == PlayingState::DescendingCargo || post == PlayingState::GameOver || (post
            == PlayingState::Pause && (ev == Event::Escape || ev == Event::LostFocus)),
        PlayingState::Pause => post == PlayingState::Pause || (ev == Event::Enter && (post
            == PlayingState::DescendingCargo || post == PlayingState::HandlingMatches || post
            == PlayingState::Uninitialized)) || (post == PlayingState::QuittingToMainMenu && ev
            == Event::Escape),
        PlayingState::GameOver => post == PlayingState::GameOver || (post
            == PlayingState::Uninitialized && ev == Event::Enter) || (post
            == PlayingState::QuittingToMainMenu && ev == Event::Escape),
        PlayingState::QuittingToMainMenu => post == PlayingState::Uninitialized,
    }
}

/// The playing screen's game core: the state machine of one session, with
/// the pile, the active and the preview piece, the current matching event,
/// the scoring, and the pause snapshot. Everything the renderer shows is
/// exposed as plain data.
pub struct Playing {
    pub game_info: GameInfoType,
    pub playing_state: PlayingState,
    pub num_frames: usize,
    pub blocks_factory: Factory,
    pub next_cargo: Option<Cargo>,
    pub descending_cargo: Option<Cargo>,
    pub num_ticks_for_cargo_descent: usize,
    pub is_cargo_at_bottom: bool,
    pub is_descending_over: bool,
    pub num_descended_cargoes: usize,
    pub pile: Pile,
    pub matching: Option<Matching>,
    pub scoring: Scoring,
    pub paused_blocks: Option<Vec<Block>>,
    pub playing_state_when_paused: Option<PlayingState>,
    pub game_info_when_paused: Option<GameInfoType>,
    pub num_frames_pause: usize,
    pub stored_highscore: usize,
    pub maxspeed_reached: bool,
}

/// The block belongs to what the playing screen currently shows: a visible
/// block of the preview or the descending piece, a settled block of the
/// pile, or a matched block in its removal animation.
pub open spec fn snapshot_block_ok(p: Playing, b: Block) -> bool {
    ||| match p.next_cargo {
        Option::Some(c) => exists|i: int|
            0 <= i < 3 && b == (Block {
                color: c.color_at(i),
                col: c.shown_col() as i32,
                row: #[trigger] c.row_at(i) as i32,
            }),
        Option::None => false,
    }
    ||| match p.descending_cargo {
        Option::Some(c) => exists|i: int|
            0 <= i < 3 && b == (Block {
                color: c.color_at(i),
                col: c.shown_col() as i32,
                row: #[trigger] c.row_at(i) as i32,
            }),
        Option::None => false,
    }
    ||| (0 <= b.col < GAME_ARENA_COLUMNS && 0 <= b.row < GAME_ARENA_ROWS && p.pile.cell(
        b.col as int,
        b.row as int,
    ) == Some(b.color))
    ||| match p.matching {
        Option::Some(m) => m.blocks@.contains(b),
        Option::None => false,
    }
}

/// One step of the wrapping tick counters.
pub open spec fn wrap_inc(n: usize) -> usize {
    if n == usize::MAX {
        0
    } else {
        (n + 1) as usize
    }
}

/// An empty, gravity-consistent board.
pub open spec fn pile_cleared(p: Pile) -> bool {
    &&& p.inv()
    &&& forall|c: int| 0 <= c < GAME_ARENA_COLUMNS ==> #[trigger] p.top(c) == -1
}

/// A well-formed preview piece exists.
pub open spec fn preview_ok(c: Option<Cargo>) -> bool {
    match c {
        Option::Some(c) => c.wf() && !c.in_arena(),
        Option::None => false,
    }
}

/// The pause scramble: same blocks at the same places, every color changed.
pub open spec fn scrambled(pre: Option<Vec<Block>>, post: Option<Vec<Block>>) -> bool {
    match (pre, post) {
        (Option::Some(a), Option::Some(b)) => b@.len() == a@.len() && forall|k: int|
            0 <= k < a@.len() ==> ((#[trigger] b@[k]).col == a@[k].col && b@[k].row == a@[k].row
                && b@[k].color != a@[k].color),
        (Option::None, Option::None) => true,
        _ => false,
    }
}

/// Leaving for the menu: the transitional marker state, the board and all
/// in-flight piece and match data discarded; everything else keeps.
pub open spec fn quit_step(pre: Playing, post: Playing) -> bool {
    &&& post == (Playing {
        playing_state: PlayingState::QuittingToMainMenu,
        descending_cargo: None,
        pile: post.pile,
        paused_blocks: None,
        matching: None,
        ..pre
    })
    &&& pile_cleared(post.pile)
}

/// What setting up a fresh game does: everything reset, the high score
/// seeded from the stored value, a new preview piece (its colors random).
pub open spec fn fresh_game_step(pre: Playing, post: Playing) -> bool {
    &&& post.playing_state == PlayingState::Ready
    &&& post.game_info == GameInfoType::Ready
    &&& post.scoring == (Scoring {
        score: 0,
        maxcombo: 0,
        is_new_maxcombo: false,
        maxcombo_accumulator: 0,
        highscore: pre.stored_highscore,
        is_new_highscore: false,
        is_new_highscore_already_reached: false,
    })
    &&& post.num_frames == 0
    &&& post.num_descended_cargoes == 0
    &&& post.num_ticks_for_cargo_descent == STARTING_NUM_TICKS_FOR_CARGO_DESCENT
    &&& !post.is_cargo_at_bottom
    &&& !post.is_descending_over
    &&& post.num_frames_pause == 0
    &&& !post.maxspeed_reached
    &&& preview_ok(post.next_cargo)
    &&& post.descending_cargo is None
    &&& post.matching is None
    &&& post.paused_blocks is None
    &&& post.playing_state_when_paused is None
    &&& post.game_info_when_paused is None
    &&& pile_cleared(post.pile)
    &&& post.stored_highscore == pre.stored_highscore
}

/// One ready-state tick: the banner and a preview are put in place; Enter
/// starts the descent with the Go banner, Escape leaves for the menu,
/// anything else changes nothing more.
pub open spec fn ready_step(pre: Playing, post: Playing, ev: Event) -> bool {
    let banner = if pre.game_info == GameInfoType::NoInfo {
        GameInfoType::Ready
    } else {
        pre.game_info
    };
    &&& (pre.next_cargo is Some ==> post.next_cargo == pre.next_cargo)
    &&& preview_ok(post.next_cargo)
    &&& match ev {
        Event::Enter => post == (Playing {
            game_info: GameInfoType::Go,
            playing_state: PlayingState::DescendingCargo,
            next_cargo: post.next_cargo,
            blocks_factory: post.blocks_factory,
            ..pre
        }),
        Event::Escape => {
            &&& post == (Playing {
                game_info: banner,
                playing_state: PlayingState::QuittingToMainMenu,
                next_cargo: post.next_cargo,
                blocks_factory: post.blocks_factory,
                descending_cargo: None,
                pile: post.pile,
                paused_blocks: None,
                matching: None,
                ..pre
            })
            &&& pile_cleared(post.pile)
        },
        _ => post == (Playing {
            game_info: banner,
            next_cargo: post.next_cargo,
            blocks_factory: post.blocks_factory,
            ..pre
        }),
    }
}

/// One game-over tick: Enter leads to a fresh game through the
/// uninitialized state, Escape leaves for the menu, anything else changes
/// nothing.
pub open spec fn game_over_step(pre: Playing, post: Playing, ev: Event) -> bool {
    match ev {
        Event::Enter => post == (Playing {
            playing_state: PlayingState::Uninitialized,
            game_info: GameInfoType::NoInfo,
            ..pre
        }),
        Event::Escape => quit_step(pre, post),
        _ => post == pre,
    }
}

/// One pause tick: every eighth tick rescrambles the snapshot's colors;
/// Enter resumes the remembered state and banner, Escape leaves for the
/// menu.
pub open spec fn pause_tick_step(pre: Playing, post: Playing, ev: Event) -> bool {
    let frames = wrap_inc(pre.num_frames_pause);
    let scramble = frames % NUM_TICKS_FOR_PAUSED_BLOCKS_SHUFFLE == 0;
    match ev {
        Event::Enter => {
            &&& post == (Playing {
                playing_state: post.playing_state,
                game_info: post.game_info,
                paused_blocks: None,
                playing_state_when_paused: None,
                game_info_when_paused: None,
                num_frames_pause: frames,
                blocks_factory: post.blocks_factory,
                ..pre
            })
            &&& post.playing_state == (match pre.playing_state_when_paused {
                Option::Some(s) => s,
                Option::None => PlayingState::Uninitialized,
            })
            &&& post.game_info == (match pre.game_info_when_paused {
                Option::Some(g) => g,
                Option::None => GameInfoType::NoInfo,
            })
        },
        Event::Escape => {
            &&& post == (Playing {
                playing_state: PlayingState::QuittingToMainMenu,
                descending_cargo: None,
                pile: post.pile,
                paused_blocks: None,
                matching: None,
                num_frames_pause: frames,
                blocks_factory: post.blocks_factory,
                ..pre
            })
            &&& pile_cleared(post.pile)
        },
        _ => {
            &&& post == (Playing {
                paused_blocks: post.paused_blocks,
                num_frames_pause: frames,
                blocks_factory: post.blocks_factory,
                ..pre
            })
            &&& if scramble {
                scrambled(pre.paused_blocks, post.paused_blocks)
            } else {
                post.paused_blocks == pre.paused_blocks
            }
        },
    }
}

/// What the high-score persistence decides at a game's end or a forced
/// quit: the score is handed out, and remembered as stored, exactly when
/// it beats the session's high score.
pub open spec fn saved_on_game_over(
    pre_scoring: Scoring,
    pre_stored: usize,
    post_stored: usize,
    saved: Option<usize>,
) -> bool {
    if pre_scoring.score > pre_scoring.highscore {
        saved == Some(pre_scoring.score) && post_stored == pre_scoring.score
    } else {
        saved is None && post_stored == pre_stored
    }
}

/// Whether the descent tick ends with the piece's descent over (it lands
/// this very tick): carried over from a previous landing flag, reached the
/// pile bottom on a descent boundary, or dropped by the player.
pub open spec fn descent_tick_over(
    c: Cargo,
    p: Pile,
    ev: Event,
    boundary: bool,
    pre_over: bool,
) -> bool {
    pre_over || (boundary && c.at_bottom(p)) || ev == Event::Drop
}

/// The piece at the end of one descent tick: the buffered input is applied
/// unless the descent is already over, then the piece steps down one row on
/// a descent boundary.
pub open spec fn descent_tick_cargo(
    c: Cargo,
    p: Pile,
    ev: Event,
    boundary: bool,
    pre_over: bool,
) -> Cargo {
    let at0 = c.at_bottom(p);
    let over1 = pre_over || (boundary && at0);
    let c1 = if !over1 {
        cargo_after_input(c, p, ev)
    } else {
        c
    };
    let over2 = over1 || ev == Event::Drop;
    if boundary && (!over2 || at0) {
        descended(c1, p)
    } else {
        c1
    }
}

/// One descent tick. Outside a landing, the piece (when its motion is not
/// tied to a fresh random spawn) evolves exactly by `descent_tick_cargo`.
/// When the descent completes, the pile becomes `take_cargo` of the old
/// pile, and the successor state is fixed by the returned capacity and the
/// fresh search: negative capacity or a full matchless pile end the game
/// (handing out the high score), a match hands over to match handling with
/// a fresh chain, and otherwise the descent continues. A spawn applies the
/// difficulty ramp: every ninth landed piece shortens the descent interval
/// by one tick down to its floor, raising the max-speed flag on arrival.
pub open spec fn descending_step(pre: Playing, post: Playing, ev: Event, saved: Option<usize>) -> bool {
    let paused = (ev == Event::Escape || ev == Event::LostFocus);
    let frames = wrap_inc(pre.num_frames);
    let boundary = frames % pre.num_ticks_for_cargo_descent == 0;
    let spawning = (pre.is_cargo_at_bottom && pre.is_descending_over) || (boundary
        && pre.descending_cargo is None);
    let deterministic = !spawning && pre.descending_cargo is Some;
    let accel = pre.num_ticks_for_cargo_descent > NUM_TICKS_GAMEPLAY_ACCELERATION_LIMIT
        && pre.num_descended_cargoes > 0 && pre.num_descended_cargoes
        % NUM_DESCENDED_CARGOES_GAMEPLAY_ACCELERATION == 0;
    &&& post.scoring == pre.scoring
    &&& post.num_ticks_for_cargo_descent == if spawning && accel {
        pre.num_ticks_for_cargo_descent - 1
    } else {
        pre.num_ticks_for_cargo_descent as int
    }
    &&& post.maxspeed_reached == (pre.maxspeed_reached || (spawning && accel
        && pre.num_ticks_for_cargo_descent - 1 == NUM_TICKS_GAMEPLAY_ACCELERATION_LIMIT))
    &&& (spawning ==> preview_ok(post.next_cargo))
    &&& (!spawning ==> post.next_cargo == pre.next_cargo)
    &&& (paused ==> post.playing_state_when_paused == Some(PlayingState::DescendingCargo)
        && post.paused_blocks is Some)
    &&& (!paused ==> post.playing_state_when_paused == pre.playing_state_when_paused
        && post.paused_blocks == pre.paused_blocks && post.game_info_when_paused
        == pre.game_info_when_paused && post.num_frames_pause == pre.num_frames_pause)
    &&& ({
        ||| descending_no_landing(pre, post, ev, saved)
        ||| (exists|landed: Cargo, mid: Pile, remaining: int|
            (deterministic ==> descent_tick_over(
                pre.descending_cargo->Some_0,
                pre.pile,
                ev,
                boundary,
                pre.is_descending_over,
            ) && landed == descent_tick_cargo(
                pre.descending_cargo->Some_0,
                pre.pile,
                ev,
                boundary,
                pre.is_descending_over,
            )) && #[trigger] landing_effects(pre, post, ev, saved, landed, mid, remaining))
    })
}

/// The descent tick's no-landing outcome: the board is untouched and (when
/// the piece's motion is not tied to a random spawn) the piece evolves
/// exactly by `descent_tick_cargo`.
pub open spec fn descending_no_landing(
    pre: Playing,
    post: Playing,
    ev: Event,
    saved: Option<usize>,
) -> bool {
    let paused = (ev == Event::Escape || ev == Event::LostFocus);
    let frames = wrap_inc(pre.num_frames);
    let boundary = frames % pre.num_ticks_for_cargo_descent == 0;
    let spawning = (pre.is_cargo_at_bottom && pre.is_descending_over) || (boundary
        && pre.descending_cargo is None);
    let deterministic = !spawning && pre.descending_cargo is Some;
    &&& post.pile == pre.pile
    &&& post.matching is None
    &&& saved is None
    &&& post.stored_highscore == pre.stored_highscore
    &&& post.playing_state == (if paused {
        PlayingState::Pause
    } else {
        PlayingState::DescendingCargo
    })
    &&& post.num_frames == frames
    &&& post.num_descended_cargoes == pre.num_descended_cargoes
    &&& (deterministic ==> ({
        let c0 = pre.descending_cargo->Some_0;
        &&& !descent_tick_over(c0, pre.pile, ev, boundary, pre.is_descending_over)
        &&& post.descending_cargo == Some(
            descent_tick_cargo(c0, pre.pile, ev, boundary, pre.is_descending_over),
        )
        &&& !post.is_descending_over
    }))
    &&& (spawning ==> post.descending_cargo is Some)
}

/// The descent tick's landing outcome: the landed piece commits to the
/// pile and the successor state follows the remaining capacity and the
/// fresh search.
pub open spec fn landing_effects(
    pre: Playing,
    post: Playing,
    ev: Event,
    saved: Option<usize>,
    landed: Cargo,
    mid: Pile,
    remaining: int,
) -> bool {
    let paused = (ev == Event::Escape || ev == Event::LostFocus);
    let frames = wrap_inc(pre.num_frames);
    &&& pile_took_cargo(pre.pile, landed, mid, remaining)
    &&& post.descending_cargo is None
    &&& post.num_descended_cargoes == wrap_inc(pre.num_descended_cargoes)
    &&& if remaining < 0 {
        &&& post.pile == mid
        &&& post.matching is None
        &&& post.playing_state == PlayingState::GameOver
        &&& saved_on_game_over(pre.scoring, pre.stored_highscore, post.stored_highscore, saved)
    } else if !has_match(mid) {
        &&& post.pile == mid
        &&& post.matching is None
        &&& if remaining == 0 {
            &&& post.playing_state == PlayingState::GameOver
            &&& saved_on_game_over(pre.scoring, pre.stored_highscore, post.stored_highscore, saved)
        } else {
            &&& post.playing_state == (if paused {
                PlayingState::Pause
            } else {
                PlayingState::DescendingCargo
            })
            &&& saved is None
            &&& post.stored_highscore == pre.stored_highscore
            &&& post.num_frames == frames
        }
    } else {
        &&& post.playing_state == PlayingState::HandlingMatches
        &&& post.num_frames == 0
        &&& saved is None
        &&& post.stored_highscore == pre.stored_highscore
        &&& match post.matching {
            Option::Some(m) => {
                &&& m.num_of_sequential_matchings == 1
                &&& m.blinking_animation_stage == 0
                &&& (exists|runs: Seq<MatchRun>|
                    search_result_ok(mid, runs) && #[trigger] m.data_ok(runs, mid))
                &&& forall|c: int, r: int|
                    0 <= c < GAME_ARENA_COLUMNS && 0 <= r < GAME_ARENA_ROWS
                        ==> #[trigger] post.pile.cell(c, r) == (if coords_contain(
                        m.unique_matching_blocks_indexes@,
                        c,
                        r,
                    ) {
                        Option::<BlockColor>::None
                    } else {
                        mid.cell(c, r)
                    })
            },
            Option::None => false,
        }
    }
}

/// One match-handling tick. While the blink schedule runs, only the
/// animation advances (and a pause may begin). When it completes, the
/// matched cells are removed (the pile compacts), the score takes one
/// `scoring_step` with the matching's own run lengths and chain depth, and
/// the successor follows the re-search: a new match extends the chain, no
/// match hands back to the descent or, on a full pile, ends the game with
/// the high-score handover.
pub open spec fn handling_step(pre: Playing, post: Playing, ev: Event, saved: Option<usize>) -> bool {
    let paused = (ev == Event::Escape || ev == Event::LostFocus);
    let frames = wrap_inc(pre.num_frames);
    &&& post == (Playing {
        playing_state: post.playing_state,
        game_info: post.game_info,
        num_frames: post.num_frames,
        blocks_factory: post.blocks_factory,
        pile: post.pile,
        matching: post.matching,
        scoring: post.scoring,
        paused_blocks: post.paused_blocks,
        playing_state_when_paused: post.playing_state_when_paused,
        game_info_when_paused: post.game_info_when_paused,
        num_frames_pause: post.num_frames_pause,
        stored_highscore: post.stored_highscore,
        ..pre
    })
    &&& (paused ==> post.playing_state_when_paused == Some(PlayingState::HandlingMatches)
        && post.paused_blocks is Some)
    &&& (!paused ==> post.playing_state_when_paused == pre.playing_state_when_paused
        && post.paused_blocks == pre.paused_blocks && post.game_info_when_paused
        == pre.game_info_when_paused && post.num_frames_pause == pre.num_frames_pause)
    &&& match pre.matching {
        Option::None => {
            &&& post.playing_state == PlayingState::DescendingCargo
            &&& post.num_frames == 0
            &&& post.pile == pre.pile
            &&& post.matching is None
            &&& post.scoring == pre.scoring
            &&& post.stored_highscore == pre.stored_highscore
            &&& saved is None
        },
        Option::Some(m) => {
            let m1 = blink_advanced(m);
            if m1.blinking_animation_stage <= 3 {
                &&& post.matching == Some(m1)
                &&& post.pile == pre.pile
                &&& post.scoring == pre.scoring
                &&& post.stored_highscore == pre.stored_highscore
                &&& saved is None
                &&& post.num_frames == frames
                &&& post.playing_state == (if paused {
                    PlayingState::Pause
                } else {
                    PlayingState::HandlingMatches
                })
            } else {
                exists|mid: Pile, full: bool|
                    #[trigger] handling_completion(pre, post, ev, saved, m, mid, full)
            }
        },
    }
}

/// What completing the blink schedule does: removal with compaction, one
/// scoring step with the matching's own data, and the successor fixed by
/// the re-search and the fullness signal.
pub open spec fn handling_completion(
    pre: Playing,
    post: Playing,
    ev: Event,
    saved: Option<usize>,
    m: Matching,
    mid: Pile,
    full: bool,
) -> bool {
    let paused = (ev == Event::Escape || ev == Event::LostFocus);
    &&& pile_compacted(pre.pile, mid, full)
    &&& post.scoring == scoring_step(
        pre.scoring,
        m.num_of_matching_blocks@,
        m.num_of_sequential_matchings as int,
    )
    &&& if !has_match(mid) {
        &&& post.pile == mid
        &&& post.matching is None
        &&& if full {
            &&& post.playing_state == PlayingState::GameOver
            &&& saved_on_game_over(
                post.scoring,
                pre.stored_highscore,
                post.stored_highscore,
                saved,
            )
        } else {
            &&& post.playing_state == PlayingState::DescendingCargo
            &&& post.num_frames == 0
            &&& saved is None
            &&& post.stored_highscore == pre.stored_highscore
        }
    } else {
        &&& post.num_frames == 0
        &&& saved is None
        &&& post.stored_highscore == pre.stored_highscore
        &&& post.playing_state == (if paused {
            PlayingState::Pause
        } else {
            PlayingState::HandlingMatches
        })
        &&& match post.matching {
            Option::Some(m2) => {
                &&& m2.num_of_sequential_matchings == if m.num_of_sequential_matchings
                    == usize::MAX {
                    usize::MAX as int
                } else {
                    m.num_of_sequential_matchings + 1
                }
                &&& m2.blinking_animation_stage == 0
                &&& (exists|runs: Seq<MatchRun>|
                    search_result_ok(mid, runs) && #[trigger] m2.data_ok(runs, mid))
                &&& forall|c: int, r: int|
                    0 <= c < GAME_ARENA_COLUMNS && 0 <= r < GAME_ARENA_ROWS
                        ==> #[trigger] post.pile.cell(c, r) == (if coords_contain(
                        m2.unique_matching_blocks_indexes@,
                        c,
                        r,
                    ) {
                        Option::<BlockColor>::None
                    } else {
                        mid.cell(c, r)
                    })
            },
            Option::None => false,
        }
    }
}

/// The forced save when the application quits mid-game: nothing changes
/// but the stored high score, per the usual save decision, and the caller
/// reads the `None` stage as permission to shut down.
pub open spec fn save_on_quit_step(pre: Playing, post: Playing, r: (Option<Stage>, Option<usize>)) -> bool {
    &&& post == (Playing { stored_highscore: post.stored_highscore, ..pre })
    &&& r.0 is None
    &&& saved_on_game_over(pre.scoring, pre.stored_highscore, post.stored_highscore, r.1)
}

/// An element of either part is an element of the concatenation.
proof fn lemma_concat_contains_left(a: Seq<Block>, b: Seq<Block>, x: Block)
    requires
        a.contains(x),
    ensures
        (a + b).contains(x),
{
    let i = choose|i: int| 0 <= i < a.len() && a[i] == x;
    assert((a + b)[i] == x);
}

/// An element of the second part is an element of the concatenation.
proof fn lemma_concat_contains_right(a: Seq<Block>, b: Seq<Block>, x: Block)
    requires
        b.contains(x),
    ensures
        (a + b).contains(x),
{
    let i = choose|i: int| 0 <= i < b.len() && b[i] == x;
    assert((a + b)[a.len() + i] == x);
}

impl Playing {
    /// The session invariant: counters within their bounds, the pile either
    /// gravity-consistent or holding exactly the holes of the current
    /// matching, the pieces well-formed, and the paused-state bookkeeping
    /// consistent.
    pub open spec fn inv(self) -> bool {
        &&& NUM_TICKS_GAMEPLAY_ACCELERATION_LIMIT <= self.num_ticks_for_cargo_descent
            <= STARTING_NUM_TICKS_FOR_CARGO_DESCENT
        &&& match self.matching {
            Option::Some(m) => m.wf() && m.holds_extracted(self.pile) && self.descending_cargo
                is None,
            Option::None => self.pile.inv(),
        }
        &&& match self.descending_cargo {
            Option::Some(c) => c.wf() && c.in_arena() && c.clear_of(self.pile),
            Option::None => true,
        }
        &&& match self.next_cargo {
            Option::Some(c) => c.wf() && !c.in_arena(),
            Option::None => true,
        }
        &&& (self.playing_state == PlayingState::DescendingCargo || self.playing_state
            == PlayingState::HandlingMatches || self.playing_state == PlayingState::Pause)
            ==> self.next_cargo is Some
        &&& match self.playing_state_when_paused {
            Option::Some(s) => s == PlayingState::DescendingCargo || s
                == PlayingState::HandlingMatches,
            Option::None => true,
        }
        &&& (self.playing_state == PlayingState::Ready || self.playing_state
            == PlayingState::DescendingCargo) ==> self.matching is None
        &&& (self.playing_state == PlayingState::Pause && self.playing_state_when_paused == Some(
            PlayingState::DescendingCargo,
        )) ==> self.matching is None
        &&& self.scoring.highscore <= self.stored_highscore
    }

    /// A fresh playing screen. `stored_highscore` is the persisted high
    /// score the host loaded at startup; the core keeps it as its mirror of
    /// the stored value.
    pub fn new(stored_highscore: usize) -> (p: Playing)
        ensures
            p.inv(),
            p.playing_state == PlayingState::Uninitialized,
            p.stored_highscore == stored_highscore,
    {
        Playing {
            game_info: GameInfoType::NoInfo,
            playing_state: PlayingState::Uninitialized,
            num_frames: 0,
            blocks_factory: Factory::new(),
            next_cargo: None,
            descending_cargo: None,
            num_ticks_for_cargo_descent: STARTING_NUM_TICKS_FOR_CARGO_DESCENT,
            is_cargo_at_bottom: false,
            is_descending_over: false,
            num_descended_cargoes: 0,
            pile: Pile::new(),
            matching: None,
            scoring: Scoring::new(0),
            paused_blocks: None,
            playing_state_when_paused: None,
            game_info_when_paused: None,
            num_frames_pause: 0,
            stored_highscore,
            maxspeed_reached: false,
        }
    }

    /// Seed the playing screen from a pre-built pile instead of an empty
    /// board, as the replay diagnostic does: search it for matches and, if
    /// any exist, start right in the match-handling state.
    pub fn start_replay(&mut self, pile: Pile)
        requires
            old(self).inv(),
            pile.inv(),
        ensures
            final(self).inv(),
            final(self).playing_state == PlayingState::HandlingMatches,
            preview_ok(final(self).next_cargo),
            final(self).descending_cargo is None,
            final(self).num_frames == 0,
            final(self).scoring == old(self).scoring,
            final(self).stored_highscore == old(self).stored_highscore,
            if has_match(pile) {
                match final(self).matching {
                    Option::Some(m) => {
                        &&& m.num_of_sequential_matchings == 1
                        &&& m.blinking_animation_stage == 0
                        &&& (exists|runs: Seq<MatchRun>|
                            search_result_ok(pile, runs) && #[trigger] m.data_ok(runs, pile))
                        &&& forall|c: int, r: int|
                            0 <= c < GAME_ARENA_COLUMNS && 0 <= r < GAME_ARENA_ROWS
                                ==> #[trigger] final(self).pile.cell(c, r) == (if coords_contain(
                                m.unique_matching_blocks_indexes@,
                                c,
                                r,
                            ) {
                                Option::<BlockColor>::None
                            } else {
                                pile.cell(c, r)
                            })
                    },
                    Option::None => false,
                }
            } else {
                final(self).matching is None && final(self).pile == pile
            },
    {
        self.playing_state = PlayingState::HandlingMatches;
        let fresh = self.blocks_factory.create_next_cargo();
        self.next_cargo = Some(fresh);
        self.descending_cargo = None;
        self.pile = pile;
        self.matching = None;
        let matches = self.pile.search_for_matches();
        proof {
            lemma_search_result_empty(pile, matches@);
        }
        if matches.len() > 0 {
            let matching = Matching::new(&matches, &mut self.pile);
            proof {
                assert(search_result_ok(pile, matches@));
                assert(matching.data_ok(matches@, pile));
            }
            self.matching = Some(matching);
        }
        self.num_frames = 0;
    }

    /// Set up a fresh game: new scoring seeded with the stored high score,
    /// an empty pile, a new preview piece, and the starting descent speed.
    fn new_game(&mut self)
        requires
            old(self).inv(),
        ensures
            final(self).inv(),
            fresh_game_step(*old(self), *final(self)),
    {
        self.scoring = Scoring::new(self.stored_highscore);
        self.game_info = GameInfoType::Ready;
        self.playing_state = PlayingState::Ready;
        self.num_frames = 0;
        let fresh = self.blocks_factory.create_next_cargo();
        self.next_cargo = Some(fresh);
        self.descending_cargo = None;
        self.num_ticks_for_cargo_descent = STARTING_NUM_TICKS_FOR_CARGO_DESCENT;
        self.is_cargo_at_bottom = false;
        self.is_descending_over = false;
        self.num_descended_cargoes = 0;
        self.pile = Pile::new();
        self.matching = None;
        self.paused_blocks = None;
        self.playing_state_when_paused = None;
        self.game_info_when_paused = None;
        self.num_frames_pause = 0;
        self.maxspeed_reached = false;
    }

    /// Move the preview piece into a random arena column as the new
    /// descending piece, create the next preview, and apply the difficulty
    /// ramp: every ninth landed piece the descent interval shrinks by one
    /// tick, down to its floor.
    fn begin_next_cargo_descent(&mut self)
        requires
            old(self).inv(),
            old(self).next_cargo is Some,
            old(self).matching is None,
        ensures
            final(self).inv(),
            *final(self) == (Playing {
                blocks_factory: final(self).blocks_factory,
                next_cargo: final(self).next_cargo,
                descending_cargo: final(self).descending_cargo,
                num_ticks_for_cargo_descent: final(self).num_ticks_for_cargo_descent,
                maxspeed_reached: final(self).maxspeed_reached,
                game_info: final(self).game_info,
                ..*old(self)
            }),
            preview_ok(final(self).next_cargo),
            match (old(self).next_cargo, final(self).descending_cargo) {
                (Option::Some(n), Option::Some(d)) => d.block0 == n.block0 && d.block1 == n.block1
                    && d.block2 == n.block2 && d.column_idx < GAME_ARENA_COLUMNS && d.bottom_row
                    == GAME_ARENA_ROWS,
                _ => false,
            },
            ({
                let accel = old(self).num_ticks_for_cargo_descent
                    > NUM_TICKS_GAMEPLAY_ACCELERATION_LIMIT && old(self).num_descended_cargoes > 0
                    && old(self).num_descended_cargoes % NUM_DESCENDED_CARGOES_GAMEPLAY_ACCELERATION
                    == 0;
                &&& final(self).num_ticks_for_cargo_descent == if accel {
                    old(self).num_ticks_for_cargo_descent - 1
                } else {
                    old(self).num_ticks_for_cargo_descent as int
                }
                &&& final(self).maxspeed_reached == (old(self).maxspeed_reached || (accel && old(
                    self,
                ).num_ticks_for_cargo_descent - 1 == NUM_TICKS_GAMEPLAY_ACCELERATION_LIMIT))
                &&& final(self).game_info == if accel {
                    GameInfoType::Speedup
                } else {
                    old(self).game_info
                }
            }),
    {
        let next = match self.next_cargo {
            Some(c) => c,
            None => {
                proof {
                    assert(false);
                }
                Cargo::new(
                    crate::blocks::BlockColor::Red,
                    crate::blocks::BlockColor::Red,
                    crate::blocks::BlockColor::Red,
                )
            },
        };
        let placed = self.blocks_factory.put_cargo_in_arena(next);
        proof {
            assert(placed.bottom_row as int > self.pile.top(placed.column_idx as int));
        }
        self.descending_cargo = Some(placed);
        let fresh = self.blocks_factory.create_next_cargo();
        self.next_cargo = Some(fresh);
        if self.num_ticks_for_cargo_descent > NUM_TICKS_GAMEPLAY_ACCELERATION_LIMIT
            && self.num_descended_cargoes > 0 && self.num_descended_cargoes
            % NUM_DESCENDED_CARGOES_GAMEPLAY_ACCELERATION == 0 {
            self.num_ticks_for_cargo_descent = self.num_ticks_for_cargo_descent - 1;
            if self.num_ticks_for_cargo_descent == NUM_TICKS_GAMEPLAY_ACCELERATION_LIMIT {
                self.maxspeed_reached = true;
            }
            self.game_info = GameInfoType::Speedup;
        }
    }

    /// Everything the screen currently shows as blocks: the preview piece,
    /// the descending piece, the settled pile, and any matched blocks in
    /// their removal animation.
    pub fn get_all_visible_blocks(&self) -> (r: Vec<Block>)
        requires
            self.inv(),
            self.next_cargo is Some,
        ensures
            forall|k: int| 0 <= k < r@.len() ==> snapshot_block_ok(*self, #[trigger] r@[k]),
            match self.next_cargo {
                Option::Some(c) => forall|j: int|
                    0 <= j < c.visible_count() ==> #[trigger] r@.contains(
                        (Block {
                            color: c.color_at(3 - c.visible_count() + j),
                            col: c.shown_col() as i32,
                            row: c.row_at(3 - c.visible_count() + j) as i32,
                        }),
                    ),
                Option::None => true,
            },
            match self.descending_cargo {
                Option::Some(c) => forall|j: int|
                    0 <= j < c.visible_count() ==> #[trigger] r@.contains(
                        (Block {
                            color: c.color_at(3 - c.visible_count() + j),
                            col: c.shown_col() as i32,
                            row: c.row_at(3 - c.visible_count() + j) as i32,
                        }),
                    ),
                Option::None => true,
            },
            forall|c2: int, rr: int|
                0 <= c2 < GAME_ARENA_COLUMNS && 0 <= rr < GAME_ARENA_ROWS && rr <= self.pile.top(
                    c2,
                ) && (#[trigger] self.pile.cell(c2, rr)) is Some ==> crate::blocks::pile::pile_block_covered(
                    r@,
                    self.pile,
                    c2,
                    rr,
                ),
            match self.matching {
                Option::Some(m) => forall|k: int|
                    0 <= k < m.blocks@.len() ==> r@.contains(#[trigger] m.blocks@[k]),
                Option::None => true,
            },
    {
        let mut visible_blocks: Vec<Block> = Vec::new();
        match self.next_cargo {
            Some(c) => {
                let mut next_blocks = c.get_visible_blocks();
                let ghost part = next_blocks@;
                let ghost before = visible_blocks@;
                proof {
                    assert forall|k: int|
                        0 <= k < part.len() implies snapshot_block_ok(
                        *self,
                        #[trigger] part[k],
                    ) by {
                        let i = 3 - c.visible_count() + k;
                        assert(part[k] == (Block {
                            color: c.color_at(i),
                            col: c.shown_col() as i32,
                            row: c.row_at(i) as i32,
                        }));
                    }
                }
                visible_blocks.append(&mut next_blocks);
                proof {
                    assert forall|j: int|
                        0 <= j < c.visible_count() implies #[trigger] visible_blocks@.contains(
                        (Block {
                            color: c.color_at(3 - c.visible_count() + j),
                            col: c.shown_col() as i32,
                            row: c.row_at(3 - c.visible_count() + j) as i32,
                        }),
                    ) by {
                        assert(visible_blocks@[before.len() + j] == part[j]);
                    }
                }
            },
            None => {
            },
        }
        let ghost c_next = self.next_cargo->Some_0;
        let ghost next_claim = |r: Seq<Block>|
            forall|j: int|
                0 <= j < c_next.visible_count() ==> #[trigger] r.contains(
                    (Block {
                        color: c_next.color_at(3 - c_next.visible_count() + j),
                        col: c_next.shown_col() as i32,
                        row: c_next.row_at(3 - c_next.visible_count() + j) as i32,
                    }),
                );
        match self.descending_cargo {
            Some(c) => {
                let mut cargo_blocks = c.get_visible_blocks();
                let ghost part = cargo_blocks@;
                let ghost before = visible_blocks@;
                proof {
                    assert forall|k: int|
                        0 <= k < part.len() implies snapshot_block_ok(
                        *self,
                        #[trigger] part[k],
                    ) by {
                        let i = 3 - c.visible_count() + k;
                        assert(part[k] == (Block {
                            color: c.color_at(i),
                            col: c.shown_col() as i32,
                            row: c.row_at(i) as i32,
                        }));
                    }
                }
                visible_blocks.append(&mut cargo_blocks);
                proof {
                    assert forall|j: int|
                        0 <= j < c.visible_count() implies #[trigger] visible_blocks@.contains(
                        (Block {
                            color: c.color_at(3 - c.visible_count() + j),
                            col: c.shown_col() as i32,
                            row: c.row_at(3 - c.visible_count() + j) as i32,
                        }),
                    ) by {
                        assert(visible_blocks@[before.len() + j] == part[j]);
                    }
                    if next_claim(before) {
                        assert forall|j: int|
                            0 <= j < c_next.visible_count() implies #[trigger] visible_blocks@.contains(
                            (Block {
                                color: c_next.color_at(3 - c_next.visible_count() + j),
                                col: c_next.shown_col() as i32,
                                row: c_next.row_at(3 - c_next.visible_count() + j) as i32,
                            }),
                        ) by {
                            lemma_concat_contains_left(
                                before,
                                part,
                                (Block {
                                    color: c_next.color_at(3 - c_next.visible_count() + j),
                                    col: c_next.shown_col() as i32,
                                    row: c_next.row_at(3 - c_next.visible_count() + j) as i32,
                                }),
                            );
                        }
                    }
                }
            },
            None => {
            },
        }
        let mut pile_blocks = self.pile.get_blocks();
        let ghost pile_part = pile_blocks@;
        let ghost before_pile = visible_blocks@;
        visible_blocks.append(&mut pile_blocks);
        proof {
            assert forall|c2: int, rr: int|
                0 <= c2 < GAME_ARENA_COLUMNS && 0 <= rr < GAME_ARENA_ROWS && rr <= self.pile.top(
                c2,
            ) && (#[trigger] self.pile.cell(c2, rr)) is Some implies crate::blocks::pile::pile_block_covered(
                visible_blocks@,
                self.pile,
                c2,
                rr,
            ) by {
                let k = choose|k: int|
                    0 <= k < pile_part.len() && (#[trigger] pile_part[k]) == (Block {
                        color: self.pile.cell(c2, rr)->Some_0,
                        col: c2 as i32,
                        row: rr as i32,
                    });
                assert(visible_blocks@[before_pile.len() + k] == pile_part[k]);
            }
            assert forall|j: int|
                0 <= j < before_pile.len() implies #[trigger] visible_blocks@[j]
                == before_pile[j] by {}
            if next_claim(before_pile) {
                assert forall|j: int|
                    0 <= j < c_next.visible_count() implies #[trigger] visible_blocks@.contains(
                    (Block {
                        color: c_next.color_at(3 - c_next.visible_count() + j),
                        col: c_next.shown_col() as i32,
                        row: c_next.row_at(3 - c_next.visible_count() + j) as i32,
                    }),
                ) by {
                    lemma_concat_contains_left(
                        before_pile,
                        pile_part,
                        (Block {
                            color: c_next.color_at(3 - c_next.visible_count() + j),
                            col: c_next.shown_col() as i32,
                            row: c_next.row_at(3 - c_next.visible_count() + j) as i32,
                        }),
                    );
                }
            }
            match self.descending_cargo {
                Option::Some(c) => {
                    assert forall|j: int|
                        0 <= j < c.visible_count() implies #[trigger] visible_blocks@.contains(
                        (Block {
                            color: c.color_at(3 - c.visible_count() + j),
                            col: c.shown_col() as i32,
                            row: c.row_at(3 - c.visible_count() + j) as i32,
                        }),
                    ) by {
                        lemma_concat_contains_left(
                            before_pile,
                            pile_part,
                            (Block {
                                color: c.color_at(3 - c.visible_count() + j),
                                col: c.shown_col() as i32,
                                row: c.row_at(3 - c.visible_count() + j) as i32,
                            }),
                        );
                    }
                },
                Option::None => {
                },
            }
        }
        match &self.matching {
            Some(m) => {
                let mut matching_blocks = m.get_blocks();
                let ghost part = matching_blocks@;
                let ghost before = visible_blocks@;
                proof {
                    assert forall|k: int|
                        0 <= k < part.len() implies snapshot_block_ok(
                        *self,
                        #[trigger] part[k],
                    ) by {
                        assert(m.blocks@.contains(part[k]));
                    }
                }
                visible_blocks.append(&mut matching_blocks);
                proof {
                    assert forall|k: int|
                        0 <= k < m.blocks@.len() implies visible_blocks@.contains(
                        #[trigger] m.blocks@[k],
                    ) by {
                        assert(visible_blocks@[before.len() + k] == part[k]);
                    }
                    assert forall|c2: int, rr: int|
                        0 <= c2 < GAME_ARENA_COLUMNS && 0 <= rr < GAME_ARENA_ROWS && rr
                            <= self.pile.top(c2) && (#[trigger] self.pile.cell(c2, rr))
                        is Some implies crate::blocks::pile::pile_block_covered(
                        visible_blocks@,
                        self.pile,
                        c2,
                        rr,
                    ) by {
                        let k = choose|k: int|
                            0 <= k < before.len() && (#[trigger] before[k]) == (Block {
                                color: self.pile.cell(c2, rr)->Some_0,
                                col: c2 as i32,
                                row: rr as i32,
                            });
                        assert(visible_blocks@[k] == before[k]);
                    }
                    if next_claim(before) {
                        assert forall|j: int|
                            0 <= j < c_next.visible_count() implies #[trigger] visible_blocks@.contains(
                            (Block {
                                color: c_next.color_at(3 - c_next.visible_count() + j),
                                col: c_next.shown_col() as i32,
                                row: c_next.row_at(3 - c_next.visible_count() + j) as i32,
                            }),
                        ) by {
                            lemma_concat_contains_left(
                                before,
                                part,
                                (Block {
                                    color: c_next.color_at(3 - c_next.visible_count() + j),
                                    col: c_next.shown_col() as i32,
                                    row: c_next.row_at(3 - c_next.visible_count() + j) as i32,
                                }),
                            );
                        }
                    }
                    match self.descending_cargo {
                        Option::Some(c) => {
                            assert forall|j: int|
                                0 <= j < c.visible_count() implies #[trigger] visible_blocks@.contains(
                                (Block {
                                    color: c.color_at(3 - c.visible_count() + j),
                                    col: c.shown_col() as i32,
                                    row: c.row_at(3 - c.visible_count() + j) as i32,
                                }),
                            ) by {
                                lemma_concat_contains_left(
                                    before,
                                    part,
                                    (Block {
                                        color: c.color_at(3 - c.visible_count() + j),
                                        col: c.shown_col() as i32,
                                        row: c.row_at(3 - c.visible_count() + j) as i32,
                                    }),
                                );
                            }
                        },
                        Option::None => {
                        },
                    }
                }
            },
            None => {
            },
        }
        visible_blocks
    }

    /// Recolor every block of the pause snapshot to a random other color:
    /// the pause screen's scramble effect.
    #[verifier::loop_isolation(false)]
    fn shuffle_block_colors(&mut self)
        requires
            old(self).inv(),
        ensures
            final(self).inv(),
            *final(self) == (Playing {
                blocks_factory: final(self).blocks_factory,
                paused_blocks: final(self).paused_blocks,
                ..*old(self)
            }),
            scrambled(old(self).paused_blocks, final(self).paused_blocks),
    {
        let ghost mid = *self;
        let blocks_opt = self.paused_blocks.take();
        match blocks_opt {
            Some(mut blocks) => {
                let ghost orig = blocks@;
                let mut i: usize = 0;
                while i < blocks.len()
                    invariant
                        i <= blocks@.len(),
                        blocks@.len() == orig.len(),
                        forall|k: int|
                            0 <= k < i ==> ((#[trigger] blocks@[k]).col == orig[k].col
                                && blocks@[k].row == orig[k].row && blocks@[k].color
                                != orig[k].color),
                        forall|k: int| i <= k < blocks@.len() ==> #[trigger] blocks@[k] == orig[k],
                        *self == (Playing {
                            blocks_factory: self.blocks_factory,
                            paused_blocks: self.paused_blocks,
                            ..mid
                        }),
                        self.paused_blocks is None,
                    decreases blocks@.len() - i,
                {
                    let mut b = blocks[i];
                    self.blocks_factory.change_block_color_randomly(&mut b);
                    blocks[i] = b;
                    i += 1;
                }
                self.paused_blocks = Some(blocks);
            },
            None => {
                self.paused_blocks = None;
            },
        }
    }

    /// Enter the pause state: snapshot the visible blocks for the scramble
    /// effect and remember which state and banner to resume to.
    fn pause(&mut self)
        requires
            old(self).inv(),
            old(self).next_cargo is Some,
            old(self).playing_state == PlayingState::DescendingCargo || old(self).playing_state
                == PlayingState::HandlingMatches,
        ensures
            final(self).inv(),
            final(self).playing_state == PlayingState::Pause,
            final(self).playing_state_when_paused == Some(old(self).playing_state),
            final(self).game_info_when_paused == Some(old(self).game_info),
            final(self).game_info == GameInfoType::Pause,
            final(self).num_frames_pause == 0,
            final(self).paused_blocks is Some,
            final(self).num_frames == old(self).num_frames,
            final(self).num_ticks_for_cargo_descent == old(self).num_ticks_for_cargo_descent,
            final(self).num_descended_cargoes == old(self).num_descended_cargoes,
            final(self).is_cargo_at_bottom == old(self).is_cargo_at_bottom,
            final(self).is_descending_over == old(self).is_descending_over,
            final(self).maxspeed_reached == old(self).maxspeed_reached,
            final(self).scoring == old(self).scoring,
            final(self).stored_highscore == old(self).stored_highscore,
            final(self).pile == old(self).pile,
            final(self).matching == old(self).matching,
            final(self).descending_cargo == old(self).descending_cargo,
            final(self).next_cargo == old(self).next_cargo,
    {
        let visible = self.get_all_visible_blocks();
        self.paused_blocks = Some(visible);
        self.shuffle_block_colors();
        self.playing_state_when_paused = Some(self.playing_state);
        self.playing_state = PlayingState::Pause;
        self.game_info_when_paused = Some(self.game_info);
        self.game_info = GameInfoType::Pause;
        self.num_frames_pause = 0;
    }

    /// Hand the host the high score to persist, if the current score beats
    /// it, and remember the new stored value; otherwise nothing is written.
    fn save_highscore(&mut self) -> (saved: Option<usize>)
        ensures
            *final(self) == (Playing { stored_highscore: final(self).stored_highscore, ..*old(self) }),
            if old(self).scoring.score > old(self).scoring.highscore {
                saved == Some(old(self).scoring.score) && final(self).stored_highscore == old(self).scoring.score
            } else {
                saved is None && final(self).stored_highscore == old(self).stored_highscore
            },
    {
        if self.scoring.score > self.scoring.highscore {
            self.stored_highscore = self.scoring.score;
            Some(self.scoring.score)
        } else {
            None
        }
    }

    /// Enter the game-over state, persisting the high score first.
    fn game_over(&mut self) -> (saved: Option<usize>)
        requires
            old(self).inv(),
        ensures
            final(self).inv(),
            final(self).playing_state == PlayingState::GameOver,
            final(self).scoring == old(self).scoring,
            *final(self) == (Playing {
                game_info: final(self).game_info,
                playing_state: final(self).playing_state,
                stored_highscore: final(self).stored_highscore,
                ..*old(self)
            }),
            if old(self).scoring.score > old(self).scoring.highscore {
                saved == Some(old(self).scoring.score) && final(self).stored_highscore == old(self).scoring.score
            } else {
                saved is None && final(self).stored_highscore == old(self).stored_highscore
            },
    {
        let saved = self.save_highscore();
        self.game_info = GameInfoType::GameOver;
        self.playing_state = PlayingState::GameOver;
        saved
    }

    /// Leave the playing screen for the main menu, discarding the board.
    fn quit_to_main_menu(&mut self)
        requires
            old(self).inv(),
        ensures
            final(self).inv(),
            quit_step(*old(self), *final(self)),
    {
        self.playing_state = PlayingState::QuittingToMainMenu;
        self.descending_cargo = None;
        self.pile = Pile::new();
        self.paused_blocks = None;
        self.matching = None;
    }

    /// One tick of the ready state: make sure a banner and a preview piece
    /// exist; Enter starts the descent, Escape leaves for the menu.
    fn update_state_ready(&mut self, input_event: Event)
        requires
            old(self).inv(),
            old(self).playing_state == PlayingState::Ready,
        ensures
            final(self).inv(),
            transition_allowed(PlayingState::Ready, final(self).playing_state, input_event),
            ready_step(*old(self), *final(self), input_event),
    {
        if self.game_info == GameInfoType::NoInfo {
            self.game_info = GameInfoType::Ready;
        }
        if self.next_cargo.is_none() {
            let fresh = self.blocks_factory.create_next_cargo();
            self.next_cargo = Some(fresh);
        }
        match input_event {
            Event::Enter => {
                self.game_info = GameInfoType::Go;
                self.playing_state = PlayingState::DescendingCargo;
            },
            Event::Escape => {
                self.quit_to_main_menu();
            },
            _ => {
            },
        }
    }

    /// One tick of the descent state: advance the frame counter, pause on
    /// Escape or focus loss, spawn the next piece when due, apply the one
    /// buffered input to the descending piece, step it down on descent
    /// ticks, and commit it to the pile when its descent is over — which
    /// ends the game if the piece did not fit or the pile is full, or hands
    /// over to match handling if the landing made runs.
    #[verifier::rlimit(100)]
    #[verifier::spinoff_prover]
    fn update_state_descending_cargo(&mut self, input_event: Event) -> (saved: Option<usize>)
        requires
            old(self).inv(),
            old(self).playing_state == PlayingState::DescendingCargo,
        ensures
            final(self).inv(),
            transition_allowed(
                PlayingState::DescendingCargo,
                final(self).playing_state,
                input_event,
            ),
            final(self).scoring == old(self).scoring,
            if final(self).playing_state == PlayingState::GameOver {
                if old(self).scoring.score > old(self).scoring.highscore {
                    saved == Some(old(self).scoring.score) && final(self).stored_highscore == old(self).scoring.score
                } else {
                    saved is None && final(self).stored_highscore == old(self).stored_highscore
                }
            } else {
                saved is None && final(self).stored_highscore == old(self).stored_highscore
            },
            descending_step(*old(self), *final(self), input_event, saved),
    {
        let mut saved: Option<usize> = None;
        let ghost frames = wrap_inc(old(self).num_frames);
        let ghost boundary = frames % old(self).num_ticks_for_cargo_descent == 0;
        let ghost spawning = (old(self).is_cargo_at_bottom && old(self).is_descending_over) || (
        boundary && old(self).descending_cargo is None);
        let ghost deterministic = !spawning && old(self).descending_cargo is Some;
        self.num_frames = self.num_frames.wrapping_add(1);
        proof {
            assert(self.num_frames == frames);
        }
        match input_event {
            Event::Escape | Event::LostFocus => {
                self.pause();
            },
            _ => {
            },
        }
        if self.is_cargo_at_bottom && self.is_descending_over {
            self.begin_next_cargo_descent();
            let mut cargo = match self.descending_cargo {
                Some(c) => c,
                None => {
                    proof {
                        assert(false);
                    }
                    Cargo::new(
                        crate::blocks::BlockColor::Red,
                        crate::blocks::BlockColor::Red,
                        crate::blocks::BlockColor::Red,
                    )
                },
            };
            self.is_cargo_at_bottom = cargo.descend_one_step(&self.pile);
            self.descending_cargo = Some(cargo);
            self.is_descending_over = false;
        }
        if self.num_frames % self.num_ticks_for_cargo_descent == 0 && self.descending_cargo.is_none() {
            self.begin_next_cargo_descent();
            self.is_descending_over = false;
        }
        match self.descending_cargo {
            Some(cargo0) => {
                let ghost c0 = cargo0;
                let ghost pre_over = self.is_descending_over;
                proof {
                    if deterministic {
                        assert(c0 == old(self).descending_cargo->Some_0);
                        assert(pre_over == old(self).is_descending_over);
                        assert(self.pile == old(self).pile);
                        assert(self.num_ticks_for_cargo_descent == old(
                            self,
                        ).num_ticks_for_cargo_descent);
                    }
                }
                let mut cargo = cargo0;
                self.is_cargo_at_bottom = cargo.is_at_bottom(&self.pile);
                let ghost at0 = c0.at_bottom(self.pile);
                if self.num_frames % self.num_ticks_for_cargo_descent == 0
                    && self.is_cargo_at_bottom {
                    self.is_descending_over = true;
                }
                let ghost over1 = self.is_descending_over;
                if !self.is_descending_over {
                    match input_event {
                        Event::Right => {
                            cargo.move_to_right(&self.pile);
                        },
                        Event::Left => {
                            cargo.move_to_left(&self.pile);
                        },
                        Event::Up => {
                            cargo.rearrange_up();
                        },
                        Event::Down => {
                            cargo.rearrange_down();
                        },
                        Event::Drop => {
                            cargo.drop(&self.pile);
                            self.is_descending_over = true;
                        },
                        _ => {
                        },
                    }
                    proof {
                        assert(cargo == cargo_after_input(c0, self.pile, input_event));
                    }
                }
                let ghost c1 = cargo;
                if self.num_frames % self.num_ticks_for_cargo_descent == 0 && (!self
                    .is_descending_over || self.is_cargo_at_bottom) {
                    self.is_cargo_at_bottom = cargo.descend_one_step(&self.pile);
                    proof {
                        assert(cargo == descended(c1, self.pile));
                    }
                }
                proof {
                    if deterministic {
                        assert(over1 == (pre_over || (boundary && at0)));
                        assert(self.is_descending_over == descent_tick_over(
                            c0,
                            self.pile,
                            input_event,
                            boundary,
                            pre_over,
                        ));
                        assert(cargo == descent_tick_cargo(
                            c0,
                            self.pile,
                            input_event,
                            boundary,
                            pre_over,
                        ));
                    }
                }
                self.descending_cargo = Some(cargo);
                if self.is_descending_over {
                    self.descending_cargo = None;
                    saved = self.land_cargo(cargo, Ghost(*old(self)), input_event);
                }
            },
            None => {
            },
        }
        saved
    }

    /// Commit a landed piece and enter its successor state: game over on a
    /// negative capacity or a full matchless pile (handing out the high
    /// score), match handling on a fresh match, else back to the descent.
    #[verifier::rlimit(100)]
    #[verifier::spinoff_prover]
    fn land_cargo(&mut self, cargo: Cargo, Ghost(pre_tick): Ghost<Playing>, input_event: Event) -> (saved: Option<
        usize,
    >)
        requires
            old(self).inv(),
            old(self).matching is None,
            old(self).descending_cargo is None,
            cargo.wf(),
            cargo.in_arena(),
            old(self).pile == pre_tick.pile,
            old(self).scoring == pre_tick.scoring,
            old(self).stored_highscore == pre_tick.stored_highscore,
            old(self).num_descended_cargoes == pre_tick.num_descended_cargoes,
            old(self).num_frames == wrap_inc(pre_tick.num_frames),
            old(self).playing_state == (if input_event == Event::Escape || input_event
                == Event::LostFocus {
                PlayingState::Pause
            } else {
                PlayingState::DescendingCargo
            }),
        ensures
            final(self).inv(),
            *final(self) == (Playing {
                playing_state: final(self).playing_state,
                game_info: final(self).game_info,
                num_frames: final(self).num_frames,
                pile: final(self).pile,
                matching: final(self).matching,
                stored_highscore: final(self).stored_highscore,
                num_descended_cargoes: final(self).num_descended_cargoes,
                ..*old(self)
            }),
            final(self).playing_state == PlayingState::GameOver || final(self).playing_state
                == old(self).playing_state || final(self).playing_state
                == PlayingState::HandlingMatches,
            exists|mid: Pile, remaining: int|
                #[trigger] landing_effects(
                    pre_tick,
                    *final(self),
                    input_event,
                    saved,
                    cargo,
                    mid,
                    remaining,
                ),
    {
        let mut saved: Option<usize> = None;
        self.num_descended_cargoes = self.num_descended_cargoes.wrapping_add(1);
        proof {
            assert(self.num_descended_cargoes == wrap_inc(pre_tick.num_descended_cargoes));
        }
        let ghost pre_pile = self.pile;
        let num_of_remaining_places_in_column = self.pile.take_cargo(&cargo);
        let ghost mid = self.pile;
        proof {
            assert(pile_took_cargo(
                pre_pile,
                cargo,
                mid,
                num_of_remaining_places_in_column as int,
            ));
            assert(pre_pile == pre_tick.pile);
        }
        if num_of_remaining_places_in_column < 0 {
            saved = self.game_over();
        } else {
            let matches = self.pile.search_for_matches();
            proof {
                lemma_search_result_empty(mid, matches@);
            }
            if matches.is_empty() {
                if num_of_remaining_places_in_column == 0 {
                    saved = self.game_over();
                }
            } else {
                let matching = Matching::new(&matches, &mut self.pile);
                proof {
                    assert(search_result_ok(mid, matches@));
                    assert(matching.data_ok(matches@, mid));
                }
                self.matching = Some(matching);
                self.playing_state = PlayingState::HandlingMatches;
                self.num_frames = 0;
            }
        }
        proof {
            assert(landing_effects(
                pre_tick,
                *self,
                input_event,
                saved,
                cargo,
                mid,
                num_of_remaining_places_in_column as int,
            ));
        }
        saved
    }

    /// One tick of the match-handling state: advance the blinking
    /// animation; when its schedule completes, remove the matched cells
    /// (letting the pile compact), update the score, and search again — a
    /// new match extends the chain, no match hands back to the descent or,
    /// on a full pile, ends the game.
    #[verifier::rlimit(100)]
    #[verifier::spinoff_prover]
    fn update_state_handling_matches(&mut self, input_event: Event) -> (saved: Option<usize>)
        requires
            old(self).inv(),
            old(self).playing_state == PlayingState::HandlingMatches,
        ensures
            final(self).inv(),
            transition_allowed(
                PlayingState::HandlingMatches,
                final(self).playing_state,
                input_event,
            ),
            final(self).scoring.score >= old(self).scoring.score,
            final(self).scoring.highscore == old(self).scoring.highscore,
            final(self).scoring == old(self).scoring || exists|lengths: Seq<usize>, chain: int|
                chain >= 1 && final(self).scoring == scoring_step(
                    old(self).scoring,
                    lengths,
                    chain,
                ),
            if final(self).playing_state == PlayingState::GameOver {
                if final(self).scoring.score > old(self).scoring.highscore {
                    saved == Some(final(self).scoring.score) && final(self).stored_highscore
                        == final(self).scoring.score
                } else {
                    saved is None && final(self).stored_highscore == old(self).stored_highscore
                }
            } else {
                saved is None && final(self).stored_highscore == old(self).stored_highscore
            },
            handling_step(*old(self), *final(self), input_event, saved),
    {
        let mut saved: Option<usize> = None;
        self.num_frames = self.num_frames.wrapping_add(1);
        match input_event {
            Event::Escape | Event::LostFocus => {
                self.pause();
            },
            _ => {
            },
        }
        let matching_opt = self.matching.take();
        match matching_opt {
            Some(mut matching) => {
                let ghost m0 = matching;
                let is_animation_over = matching.blinking_animation();
                if is_animation_over {
                    let unique = matching.get_unique_matching_blocks_indexes();
                    let ghost pre_pile = self.pile;
                    let is_pile_full = self.pile.remove_matches(&unique);
                    let ghost mid = self.pile;
                    proof {
                        assert(pile_compacted(pre_pile, mid, is_pile_full));
                        assert(pre_pile == old(self).pile);
                    }
                    let ghost scoring_before = self.scoring;
                    let scoring_data = matching.get_scoring_data();
                    let ghost lengths = scoring_data.0@;
                    let ghost chain = scoring_data.1 as int;
                    self.scoring.update_from_matches(scoring_data);
                    proof {
                        lemma_score_monotonic(scoring_before, lengths, chain);
                    }
                    let next_matches = self.pile.search_for_matches();
                    proof {
                        lemma_search_result_empty(mid, next_matches@);
                    }
                    if next_matches.is_empty() {
                        if is_pile_full {
                            saved = self.game_over();
                        } else {
                            self.playing_state = PlayingState::DescendingCargo;
                            self.num_frames = 0;
                        }
                        self.matching = None;
                        proof {
                            assert(handling_completion(
                                *old(self),
                                *self,
                                input_event,
                                saved,
                                m0,
                                mid,
                                is_pile_full,
                            ));
                            assert(handling_step(*old(self), *self, input_event, saved));
                        }
                    } else {
                        matching.new_chained_match(&next_matches, &mut self.pile);
                        proof {
                            assert(search_result_ok(mid, next_matches@));
                            assert(matching.data_ok(next_matches@, mid));
                        }
                        self.matching = Some(matching);
                        self.num_frames = 0;
                        proof {
                            assert(handling_completion(
                                *old(self),
                                *self,
                                input_event,
                                saved,
                                m0,
                                mid,
                                is_pile_full,
                            ));
                            assert(handling_step(*old(self), *self, input_event, saved));
                        }
                    }
                } else {
                    self.matching = Some(matching);
                    proof {
                        assert(handling_step(*old(self), *self, input_event, saved));
                    }
                }
            },
            None => {
                self.playing_state = PlayingState::DescendingCargo;
                self.num_frames = 0;
                proof {
                    assert(handling_step(*old(self), *self, input_event, saved));
                }
            },
        }
        saved
    }

    /// One tick of the pause state: re-scramble the snapshot's colors on a
    /// fixed cadence; Enter resumes the remembered state and banner, Escape
    /// leaves for the menu.
    fn update_state_pause(&mut self, input_event: Event)
        requires
            old(self).inv(),
            old(self).playing_state == PlayingState::Pause,
        ensures
            final(self).inv(),
            transition_allowed(PlayingState::Pause, final(self).playing_state, input_event),
            pause_tick_step(*old(self), *final(self), input_event),
    {
        self.num_frames_pause = self.num_frames_pause.wrapping_add(1);
        if self.num_frames_pause % NUM_TICKS_FOR_PAUSED_BLOCKS_SHUFFLE == 0 {
            self.shuffle_block_colors();
        }
        match input_event {
            Event::Enter => {
                self.paused_blocks = None;
                let resumed = self.playing_state_when_paused.take();
                self.playing_state = match resumed {
                    Some(s) => s,
                    None => PlayingState::Uninitialized,
                };
                let resumed_info = self.game_info_when_paused.take();
                self.game_info = match resumed_info {
                    Some(g) => g,
                    None => GameInfoType::NoInfo,
                };
            },
            Event::Escape => {
                self.quit_to_main_menu();
            },
            _ => {
            },
        }
    }

    /// One tick of the game-over state: Enter starts a fresh game (through
    /// the uninitialized state), Escape leaves for the menu.
    fn update_state_game_over(&mut self, input_event: Event)
        requires
            old(self).inv(),
            old(self).playing_state == PlayingState::GameOver,
        ensures
            final(self).inv(),
            transition_allowed(PlayingState::GameOver, final(self).playing_state, input_event),
            game_over_step(*old(self), *final(self), input_event),
    {
        match input_event {
            Event::Enter => {
                self.playing_state = PlayingState::Uninitialized;
                self.game_info = GameInfoType::NoInfo;
            },
            Event::Escape => {
                self.quit_to_main_menu();
            },
            _ => {
            },
        }
    }

    /// One simulation tick of the playing screen.
    ///
    /// The first result is the stage the application should show next:
    /// `Some(Playing)` to stay, `Some(MainMenu)` after quitting to the
    /// menu, and `None` to let an application shutdown proceed (only on the
    /// save-on-quit event). The second result is a high score value the
    /// host must persist now, if any: it is emitted exactly when the game
    /// ends or the application quits mid-game with a score above the stored
    /// high score.
    pub fn update(&mut self, input_event: Event) -> (r: (Option<Stage>, Option<usize>))
        requires
            old(self).inv(),
        ensures
            final(self).inv(),
            transition_allowed(
                old(self).playing_state,
                final(self).playing_state,
                input_event,
            ) || final(self).playing_state == old(self).playing_state,
            r.1 is Some ==> r.1 == Some(final(self).scoring.score) && final(self).scoring.score
                > final(self).scoring.highscore && final(self).stored_highscore == final(self).scoring.score,
            r.1 is None ==> final(self).stored_highscore == old(self).stored_highscore,
            input_event == Event::SaveScoreOnQuit && (old(self).playing_state
                == PlayingState::DescendingCargo || old(self).playing_state
                == PlayingState::HandlingMatches || old(self).playing_state
                == PlayingState::Pause) && old(self).scoring.score > old(self).scoring.highscore
                ==> r.1 == Some(old(self).scoring.score),
            old(self).playing_state != PlayingState::GameOver && final(self).playing_state
                == PlayingState::GameOver && final(self).scoring.score > final(self).scoring.highscore ==> r.1 == Some(final(self).scoring.score),
            r.0 is None <==> (input_event == Event::SaveScoreOnQuit && (old(self).playing_state
                == PlayingState::DescendingCargo || old(self).playing_state
                == PlayingState::HandlingMatches || old(self).playing_state
                == PlayingState::Pause)),
            r.0 == Some(Stage::MainMenu) ==> old(self).playing_state
                == PlayingState::QuittingToMainMenu,
            old(self).playing_state != PlayingState::Uninitialized ==> final(self).scoring.score
                >= old(self).scoring.score,
            ({
                let quitting = input_event == Event::SaveScoreOnQuit;
                match old(self).playing_state {
                    PlayingState::Uninitialized => fresh_game_step(*old(self), *final(self)) && r.0
                        == Some(Stage::Playing) && r.1 is None,
                    PlayingState::Ready => ready_step(*old(self), *final(self), input_event) && r.0
                        == Some(Stage::Playing) && r.1 is None,
                    PlayingState::DescendingCargo => if quitting {
                        save_on_quit_step(*old(self), *final(self), r)
                    } else {
                        descending_step(*old(self), *final(self), input_event, r.1) && r.0 == Some(
                            Stage::Playing,
                        )
                    },
                    PlayingState::HandlingMatches => if quitting {
                        save_on_quit_step(*old(self), *final(self), r)
                    } else {
                        handling_step(*old(self), *final(self), input_event, r.1) && r.0 == Some(
                            Stage::Playing,
                        )
                    },
                    PlayingState::Pause => if quitting {
                        save_on_quit_step(*old(self), *final(self), r)
                    } else {
                        pause_tick_step(*old(self), *final(self), input_event) && r.0 == Some(
                            Stage::Playing,
                        ) && r.1 is None
                    },
                    PlayingState::GameOver => game_over_step(*old(self), *final(self), input_event)
                        && r.0 == Some(Stage::Playing) && r.1 is None,
                    PlayingState::QuittingToMainMenu => *final(self) == (Playing {
                        playing_state: PlayingState::Uninitialized,
                        ..*old(self)
                    }) && r.0 == Some(Stage::MainMenu) && r.1 is None,
                }
            }),
    {
        match input_event {
            Event::SaveScoreOnQuit => {
                match self.playing_state {
                    PlayingState::DescendingCargo
                    | PlayingState::HandlingMatches
                    | PlayingState::Pause => {
                        let saved = self.save_highscore();
                        return (None, saved);
                    },
                    _ => {
                    },
                }
            },
            _ => {
            },
        }
        let mut saved: Option<usize> = None;
        match self.playing_state {
            PlayingState::Uninitialized => {
                self.new_game();
            },
            PlayingState::Ready => {
                self.update_state_ready(input_event);
            },
            PlayingState::DescendingCargo => {
                saved = self.update_state_descending_cargo(input_event);
            },
            PlayingState::HandlingMatches => {
                saved = self.update_state_handling_matches(input_event);
            },
            PlayingState::Pause => {
                self.update_state_pause(input_event);
            },
            PlayingState::GameOver => {
                self.update_state_game_over(input_event);
            },
            PlayingState::QuittingToMainMenu => {
                self.playing_state = PlayingState::Uninitialized;
                return (Some(Stage::MainMenu), None);
            },
        }
        (Some(Stage::Playing), saved)
    }
}

} // verus!
