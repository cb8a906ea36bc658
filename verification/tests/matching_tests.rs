use color_columns::blocks::BlockColor;
use color_columns::blocks::matches::Matching;
use color_columns::blocks::pile::Pile;
use color_columns::blocks::search::Direction;
use color_columns::constants::GAME_ARENA_COLUMNS;
use color_columns::constants::GAME_ARENA_ROWS;
use color_columns::stages::playing::scoring::Scoring;

fn rows_from(lines: [&str; 18]) -> Vec<Vec<u8>> {
    let mut rows = Vec::new();
    for line in lines.iter() {
        let row: Vec<u8> = line.bytes().filter(|b| *b != b' ').collect();
        assert_eq!(row.len(), GAME_ARENA_COLUMNS);
        rows.push(row);
    }
    assert_eq!(rows.len(), GAME_ARENA_ROWS);
    rows
}

fn empty_line() -> &'static str {
    ". . . . . . . . ."
}

#[test]
fn crossing_runs_deduplicate_shared_cell() {
    // A vertical and a horizontal Red run share the cell (1, 1): 6 cells in
    // runs, 5 unique coordinates; both run lengths still count for scoring.
    let mut lines = [empty_line(); 18];
    lines[17] = "G R B . . . . . .";
    lines[16] = "R R R . . . . . .";
    lines[15] = ". R . . . . . . .";
    let rows = rows_from(lines);
    let mut pile = Pile::from_snapshot(&rows).unwrap();
    let matches = pile.search_for_matches();
    assert_eq!(matches.len(), 2);
    let matching = Matching::new(&matches, &mut pile);
    let unique = matching.get_unique_matching_blocks_indexes();
    assert_eq!(unique.len(), 5);
    for (i, a) in unique.iter().enumerate() {
        for b in unique.iter().skip(i + 1) {
            assert_ne!(a, b);
        }
    }
    assert!(unique.contains(&(1, 1)));
    let (lengths, chain) = matching.get_scoring_data();
    assert_eq!(lengths, vec![3, 3]);
    assert_eq!(chain, 1);
    // The matched blocks were pulled out of the grid.
    for (c, r) in unique.iter() {
        assert_eq!(pile.matrix[*c][*r], None);
    }
    // Extraction leaves the column tops untouched until removal.
    assert_eq!(pile.column_tops[1], 2);
}

#[test]
fn extracted_blocks_keep_color_and_position() {
    let mut lines = [empty_line(); 18];
    lines[17] = ". . R R R R . . .";
    let rows = rows_from(lines);
    let mut pile = Pile::from_snapshot(&rows).unwrap();
    let matches = pile.search_for_matches();
    let matching = Matching::new(&matches, &mut pile);
    let blocks = matching.get_blocks();
    assert_eq!(blocks.len(), 4);
    for block in &blocks {
        assert_eq!(block.color, BlockColor::Red);
        assert_eq!(block.row, 0);
        assert!(2 <= block.col && block.col <= 5);
    }
    let indicators = matching.get_match_direction_indicators();
    assert_eq!(indicators.len(), 1);
    assert_eq!(indicators[0], (BlockColor::Red, (2, 0), (5, 0)));
}

#[test]
fn blinking_schedule_completes_after_58_ticks() {
    // Four stages of 12, 11, 11 and 24 ticks.
    let mut lines = [empty_line(); 18];
    lines[17] = ". . R R R R . . .";
    let rows = rows_from(lines);
    let mut pile = Pile::from_snapshot(&rows).unwrap();
    let matches = pile.search_for_matches();
    let mut matching = Matching::new(&matches, &mut pile);
    assert_eq!(matching.blinking_animation_stage, 0);
    let mut ticks = 0;
    loop {
        let over = matching.blinking_animation();
        ticks += 1;
        if over {
            break;
        }
        assert!(ticks < 100);
    }
    assert_eq!(ticks, 58);
    assert_eq!(matching.blinking_animation_stage, 4);
}

#[test]
fn chain_reaction_increments_depth_and_doubles_score() {
    // Removing the vertical Green run drops two Red blocks onto the floor
    // next to two settled Reds, forming a new horizontal run: a chain.
    let mut lines = [empty_line(); 18];
    lines[17] = "G R R . . . . . .";
    lines[16] = "G . . . . . . . .";
    lines[15] = "G . . . . . . . .";
    lines[14] = "R . . . . . . . .";
    lines[13] = "R . . . . . . . .";
    let rows = rows_from(lines);
    let mut pile = Pile::from_snapshot(&rows).unwrap();
    let first_matches = pile.search_for_matches();
    assert_eq!(first_matches.len(), 1);
    assert_eq!(first_matches[0].direction, Direction::Vertical);
    let mut matching = Matching::new(&first_matches, &mut pile);
    let unique = matching.get_unique_matching_blocks_indexes();
    let full = pile.remove_matches(&unique);
    assert!(!full);
    let mut scoring = Scoring::new(0);
    scoring.update_from_matches(matching.get_scoring_data());
    assert_eq!(scoring.score, 3);
    let next_matches = pile.search_for_matches();
    assert_eq!(next_matches.len(), 1);
    assert_eq!(next_matches[0].direction, Direction::Horizontal);
    matching.new_chained_match(&next_matches, &mut pile);
    let (lengths, chain) = matching.get_scoring_data();
    assert_eq!(lengths, vec![3]);
    assert_eq!(chain, 2);
    // The chained event is worth twice the equivalent unchained one.
    scoring.update_from_matches((lengths, chain));
    assert_eq!(scoring.score, 3 + 6);
}
