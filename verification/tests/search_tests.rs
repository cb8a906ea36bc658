use color_columns::blocks::BlockColor;
use color_columns::blocks::cargo::Cargo;
use color_columns::blocks::pile::Pile;
use color_columns::blocks::search::Direction;
use color_columns::blocks::search::MatchRun;
use color_columns::constants::GAME_ARENA_COLUMNS;
use color_columns::constants::GAME_ARENA_ROWS;

/// Rows of cell codes, top to bottom, from 18 string rows of 9 cells.
fn rows_from(lines: [&str; 18]) -> Vec<Vec<u8>> {
    let mut rows = Vec::new();
    for line in lines.iter() {
        let row: Vec<u8> = line.bytes().filter(|b| *b != b' ').collect();
        assert_eq!(row.len(), GAME_ARENA_COLUMNS);
        rows.push(row);
    }
    assert_eq!(rows.len(), GAME_ARENA_ROWS);
    rows
}

fn empty_line() -> &'static str {
    ". . . . . . . . ."
}

#[test]
fn empty_pile_has_no_matches() {
    let pile = Pile::new();
    let matches = pile.search_for_matches();
    assert!(matches.is_empty());
}

#[test]
fn monochrome_cargo_makes_one_vertical_run() {
    // A 3-block single-color piece landing in an empty column makes exactly
    // one vertical run of length 3.
    let mut pile = Pile::new();
    let mut cargo = Cargo::new(BlockColor::Green, BlockColor::Green, BlockColor::Green);
    cargo.place_in_column(0);
    pile.take_cargo(&cargo);
    let matches = pile.search_for_matches();
    assert_eq!(matches.len(), 1);
    let run: &MatchRun = &matches[0];
    assert_eq!(run.direction, Direction::Vertical);
    // Vertical runs are listed top to bottom.
    assert_eq!(run.cells, vec![(0, 2), (0, 1), (0, 0)]);
}

#[test]
fn three_monochrome_cargoes_fill_column_to_row_eight() {
    let mut pile = Pile::new();
    for _ in 0..3 {
        let mut cargo = Cargo::new(BlockColor::Green, BlockColor::Green, BlockColor::Green);
        cargo.place_in_column(0);
        pile.take_cargo(&cargo);
    }
    assert_eq!(pile.column_tops[0], 8);
    // The nine stacked equal blocks form one maximal vertical run.
    let matches = pile.search_for_matches();
    assert_eq!(matches.len(), 1);
    assert_eq!(matches[0].direction, Direction::Vertical);
    assert_eq!(matches[0].cells.len(), 9);
}

#[test]
fn horizontal_run_of_four_found_exactly() {
    // A horizontal run of 4 equal blocks in row 0, columns 2-5.
    let mut lines = [empty_line(); 18];
    lines[17] = ". . R R R R . . .";
    let rows = rows_from(lines);
    let pile = Pile::from_snapshot(&rows).unwrap();
    let matches = pile.search_for_matches();
    assert_eq!(matches.len(), 1);
    assert_eq!(matches[0].direction, Direction::Horizontal);
    assert_eq!(matches[0].cells, vec![(2, 0), (3, 0), (4, 0), (5, 0)]);
}

#[test]
fn horizontal_run_breaks_on_empty_cell() {
    let mut lines = [empty_line(); 18];
    lines[17] = "R R . R R R R . .";
    let rows = rows_from(lines);
    let pile = Pile::from_snapshot(&rows).unwrap();
    let matches = pile.search_for_matches();
    assert_eq!(matches.len(), 1);
    assert_eq!(matches[0].cells, vec![(3, 0), (4, 0), (5, 0), (6, 0)]);
}

#[test]
fn horizontal_run_breaks_on_color_change() {
    let mut lines = [empty_line(); 18];
    lines[17] = "B B G G G B B B B";
    let rows = rows_from(lines);
    let pile = Pile::from_snapshot(&rows).unwrap();
    let matches = pile.search_for_matches();
    assert_eq!(matches.len(), 2);
    assert_eq!(matches[0].cells, vec![(2, 0), (3, 0), (4, 0)]);
    assert_eq!(matches[1].cells, vec![(5, 0), (6, 0), (7, 0), (8, 0)]);
}

#[test]
fn runs_of_two_are_not_matches() {
    let mut lines = [empty_line(); 18];
    lines[17] = "R R . G G . B B .";
    lines[16] = "Y Y . M M . C C .";
    let rows = rows_from(lines);
    let pile = Pile::from_snapshot(&rows).unwrap();
    assert!(pile.search_for_matches().is_empty());
}

#[test]
fn diagonal_slash_run_found() {
    // An up-right diagonal of three Yellow blocks starting at (2, 0),
    // supported so every column is contiguous.
    let mut lines = [empty_line(); 18];
    lines[17] = ". . Y G B . . . .";
    lines[16] = ". . . Y G . . . .";
    lines[15] = ". . . . Y . . . .";
    let rows = rows_from(lines);
    let pile = Pile::from_snapshot(&rows).unwrap();
    let matches = pile.search_for_matches();
    assert_eq!(matches.len(), 1);
    assert_eq!(matches[0].direction, Direction::DiagonalSlash);
    assert_eq!(matches[0].cells, vec![(2, 0), (3, 1), (4, 2)]);
}

#[test]
fn diagonal_backslash_run_found() {
    // A diagonal of three Magenta blocks falling left to right: (4, 2),
    // (5, 1), (6, 0).
    let mut lines = [empty_line(); 18];
    lines[17] = ". . . . G B M . .";
    lines[16] = ". . . . B M . . .";
    lines[15] = ". . . . M . . . .";
    let rows = rows_from(lines);
    let pile = Pile::from_snapshot(&rows).unwrap();
    let matches = pile.search_for_matches();
    assert_eq!(matches.len(), 1);
    assert_eq!(matches[0].direction, Direction::DiagonalBackslash);
    // Backslash runs are scanned with the row ascending, the column falling.
    assert_eq!(matches[0].cells, vec![(6, 0), (5, 1), (4, 2)]);
}

#[test]
fn crossing_runs_are_reported_per_direction() {
    // A vertical and a horizontal run of Red sharing the cell (1, 1).
    let mut lines = [empty_line(); 18];
    lines[17] = "G R B . . . . . .";
    lines[16] = "R R R . . . . . .";
    lines[15] = ". R . . . . . . .";
    let rows = rows_from(lines);
    let pile = Pile::from_snapshot(&rows).unwrap();
    let matches = pile.search_for_matches();
    assert_eq!(matches.len(), 2);
    let vertical = matches.iter().find(|r| r.direction == Direction::Vertical).unwrap();
    let horizontal = matches.iter().find(|r| r.direction == Direction::Horizontal).unwrap();
    assert_eq!(vertical.cells, vec![(1, 2), (1, 1), (1, 0)]);
    assert_eq!(horizontal.cells, vec![(0, 1), (1, 1), (2, 1)]);
}

#[test]
fn every_run_has_at_least_three_cells() {
    let mut lines = [empty_line(); 18];
    lines[17] = "R R R R R G G G B";
    lines[16] = "R . G . B . C . Y";
    let rows = rows_from(lines);
    let pile = Pile::from_snapshot(&rows).unwrap();
    for run in pile.search_for_matches() {
        assert!(run.cells.len() >= 3);
    }
}
