use color_columns::blocks::BlockColor;
use color_columns::blocks::cargo::Cargo;
use color_columns::blocks::pile::Pile;
use color_columns::constants::GAME_ARENA_COLUMNS;
use color_columns::constants::GAME_ARENA_ROWS;
use color_columns::input::Event;
use color_columns::stages::Stage;
use color_columns::stages::main_menu::MainMenu;
use color_columns::stages::playing::Playing;
use color_columns::stages::playing::PlayingState;

/// A full pile with no match anywhere: cell (c, r) gets the palette color
/// (2 * r + c) mod 5, so neighbors along every direction differ.
fn full_matchless_pile() -> Pile {
    let palette = [
        BlockColor::Red,
        BlockColor::Green,
        BlockColor::Blue,
        BlockColor::Cyan,
        BlockColor::Magenta,
    ];
    let mut rows: Vec<Vec<u8>> = Vec::new();
    for i in 0..GAME_ARENA_ROWS {
        let r = GAME_ARENA_ROWS - 1 - i;
        let mut row = Vec::new();
        for c in 0..GAME_ARENA_COLUMNS {
            let color = palette[(2 * r + c) % 5];
            row.push(color.code());
        }
        rows.push(row);
    }
    let pile = Pile::from_snapshot(&rows).unwrap();
    assert!(pile.search_for_matches().is_empty());
    pile
}

#[test]
fn first_tick_initializes_a_fresh_game() {
    let mut playing = Playing::new(7);
    assert_eq!(playing.playing_state, PlayingState::Uninitialized);
    let (stage, saved) = playing.update(Event::NoEvent);
    assert_eq!(stage, Some(Stage::Playing));
    assert_eq!(saved, None);
    assert_eq!(playing.playing_state, PlayingState::Ready);
    assert_eq!(playing.scoring.highscore, 7);
    assert!(playing.next_cargo.is_some());
}

#[test]
fn enter_starts_the_descent_and_escape_pauses() {
    let mut playing = Playing::new(0);
    playing.update(Event::NoEvent);
    playing.update(Event::Enter);
    assert_eq!(playing.playing_state, PlayingState::DescendingCargo);
    playing.update(Event::Escape);
    assert_eq!(playing.playing_state, PlayingState::Pause);
    assert!(playing.paused_blocks.is_some());
    // Enter resumes the interrupted state.
    playing.update(Event::Enter);
    assert_eq!(playing.playing_state, PlayingState::DescendingCargo);
    assert!(playing.paused_blocks.is_none());
}

#[test]
fn escape_from_pause_quits_to_the_menu() {
    let mut playing = Playing::new(0);
    playing.update(Event::NoEvent);
    playing.update(Event::Enter);
    playing.update(Event::LostFocus);
    assert_eq!(playing.playing_state, PlayingState::Pause);
    playing.update(Event::Escape);
    assert_eq!(playing.playing_state, PlayingState::QuittingToMainMenu);
    let (stage, saved) = playing.update(Event::NoEvent);
    assert_eq!(stage, Some(Stage::MainMenu));
    assert_eq!(saved, None);
    assert_eq!(playing.playing_state, PlayingState::Uninitialized);
}

#[test]
fn full_pile_without_matches_ends_the_game_and_saves_once() {
    // A landing on a full pile signals game over; the session's score beats
    // the stored high score, so it is handed out for persisting exactly
    // once.
    let mut playing = Playing::new(0);
    playing.update(Event::NoEvent);
    playing.update(Event::Enter);
    assert_eq!(playing.playing_state, PlayingState::DescendingCargo);
    playing.pile = full_matchless_pile();
    playing.scoring.score = 42;
    let mut cargo = Cargo::new(BlockColor::Red, BlockColor::Green, BlockColor::Blue);
    cargo.place_in_column(0);
    playing.descending_cargo = Some(cargo);
    playing.is_cargo_at_bottom = false;
    playing.is_descending_over = false;
    // Drop lands the piece this very tick; the full column clips all three
    // blocks and reports negative capacity.
    let (stage, saved) = playing.update(Event::Drop);
    assert_eq!(stage, Some(Stage::Playing));
    assert_eq!(playing.playing_state, PlayingState::GameOver);
    assert_eq!(saved, Some(42));
    assert_eq!(playing.stored_highscore, 42);
    // Staying in the game-over state does not save again.
    let (_, saved_again) = playing.update(Event::NoEvent);
    assert_eq!(saved_again, None);
    // Enter leads to a fresh game seeded with the new stored high score.
    playing.update(Event::Enter);
    assert_eq!(playing.playing_state, PlayingState::Uninitialized);
    playing.update(Event::NoEvent);
    assert_eq!(playing.playing_state, PlayingState::Ready);
    assert_eq!(playing.scoring.highscore, 42);
    assert_eq!(playing.scoring.score, 0);
}

#[test]
fn save_score_on_quit_saves_mid_game() {
    let mut playing = Playing::new(5);
    playing.update(Event::NoEvent);
    playing.update(Event::Enter);
    playing.scoring.score = 30;
    let (stage, saved) = playing.update(Event::SaveScoreOnQuit);
    assert_eq!(stage, None);
    assert_eq!(saved, Some(30));
    assert_eq!(playing.stored_highscore, 30);
}

#[test]
fn save_score_on_quit_keeps_lower_scores_out_of_storage() {
    let mut playing = Playing::new(50);
    playing.update(Event::NoEvent);
    playing.update(Event::Enter);
    playing.scoring.score = 30;
    let (stage, saved) = playing.update(Event::SaveScoreOnQuit);
    assert_eq!(stage, None);
    assert_eq!(saved, None);
    assert_eq!(playing.stored_highscore, 50);
}

#[test]
fn descending_piece_reacts_to_movement_input() {
    let mut playing = Playing::new(0);
    playing.update(Event::NoEvent);
    playing.update(Event::Enter);
    let mut cargo = Cargo::new(BlockColor::Red, BlockColor::Green, BlockColor::Blue);
    cargo.place_in_column(4);
    playing.descending_cargo = Some(cargo);
    playing.is_cargo_at_bottom = false;
    playing.is_descending_over = false;
    playing.update(Event::Right);
    assert_eq!(playing.descending_cargo.as_ref().unwrap().column_idx, 5);
    playing.update(Event::Left);
    assert_eq!(playing.descending_cargo.as_ref().unwrap().column_idx, 4);
    playing.update(Event::Up);
    let rotated = playing.descending_cargo.as_ref().unwrap();
    assert_eq!(rotated.block0, BlockColor::Blue);
    assert_eq!(rotated.block1, BlockColor::Red);
    assert_eq!(rotated.block2, BlockColor::Green);
}

#[test]
fn replay_seeds_the_match_handling_state() {
    let mut playing = Playing::new(0);
    let mut rows: Vec<Vec<u8>> = Vec::new();
    for i in 0..GAME_ARENA_ROWS {
        let mut row = vec![b'.'; GAME_ARENA_COLUMNS];
        if i == GAME_ARENA_ROWS - 1 {
            row[3] = b'Y';
            row[4] = b'Y';
            row[5] = b'Y';
        }
        rows.push(row);
    }
    let pile = Pile::from_snapshot(&rows).unwrap();
    playing.start_replay(pile);
    assert_eq!(playing.playing_state, PlayingState::HandlingMatches);
    assert!(playing.matching.is_some());
}

#[test]
fn main_menu_selection_cycles_and_opens_stages() {
    let mut menu = MainMenu::new();
    assert_eq!(menu.selected_item_idx, 0);
    menu.update(Event::Down);
    assert_eq!(menu.selected_item_idx, 1);
    menu.update(Event::Down);
    menu.update(Event::Down);
    assert_eq!(menu.selected_item_idx, 0);
    menu.update(Event::Up);
    assert_eq!(menu.selected_item_idx, 2);
    assert_eq!(menu.update(Event::Enter), Some(Stage::About));
    menu.update(Event::Up);
    menu.update(Event::Up);
    assert_eq!(menu.selected_item_idx, 0);
    assert_eq!(menu.update(Event::Enter), Some(Stage::Playing));
    assert_eq!(menu.update(Event::Escape), None);
}

#[test]
fn default_event_is_no_event() {
    assert_eq!(Event::default(), Event::NoEvent);
}

#[test]
fn every_ninth_landed_piece_speeds_up_the_descent() {
    let mut playing = Playing::new(0);
    playing.update(Event::NoEvent);
    playing.update(Event::Enter);
    assert_eq!(playing.num_ticks_for_cargo_descent, 45);
    playing.num_descended_cargoes = 9;
    // The next spawn tick falls on a descent boundary, so a new piece
    // enters and the difficulty ramp fires.
    playing.num_frames = 44;
    playing.update(Event::NoEvent);
    assert!(playing.descending_cargo.is_some());
    assert_eq!(playing.num_ticks_for_cargo_descent, 44);
}

#[test]
fn pause_scrambles_the_snapshot_every_eighth_tick() {
    let mut playing = Playing::new(0);
    playing.update(Event::NoEvent);
    playing.update(Event::Enter);
    playing.update(Event::Escape);
    assert_eq!(playing.playing_state, PlayingState::Pause);
    let before = playing.paused_blocks.clone().unwrap();
    for _ in 0..7 {
        playing.update(Event::NoEvent);
        assert_eq!(playing.paused_blocks.clone().unwrap(), before);
    }
    playing.update(Event::NoEvent);
    let after = playing.paused_blocks.clone().unwrap();
    assert_eq!(after.len(), before.len());
    for (a, b) in after.iter().zip(before.iter()) {
        assert_eq!(a.col, b.col);
        assert_eq!(a.row, b.row);
        assert_ne!(a.color, b.color);
    }
}
