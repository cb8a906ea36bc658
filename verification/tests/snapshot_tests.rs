use color_columns::blocks::BlockColor;
use color_columns::blocks::pile::Pile;
use color_columns::blocks::search::Direction;
use color_columns::constants::GAME_ARENA_COLUMNS;
use color_columns::constants::GAME_ARENA_ROWS;
use color_columns::snapshot::SnapshotError;
use color_columns::snapshot::snapshot_rows;

fn empty_grid_text() -> String {
    let mut text = String::new();
    for _ in 0..GAME_ARENA_ROWS {
        text.push_str(". . . . . . . . .\n");
    }
    text
}

#[test]
fn snapshot_rows_split_lines_and_tokens() {
    let text: Vec<u8> = b"R . G\n. B .\n".to_vec();
    let rows = snapshot_rows(&text);
    assert_eq!(rows.len(), 2);
    assert_eq!(rows[0], vec![b'R', b'.', b'G']);
    assert_eq!(rows[1], vec![b'.', b'B', b'.']);
}

#[test]
fn snapshot_rows_take_the_first_byte_of_each_token() {
    let text: Vec<u8> = b"RX  .. \tG\n".to_vec();
    let rows = snapshot_rows(&text);
    assert_eq!(rows, vec![vec![b'R', b'.', b'G']]);
}

#[test]
fn snapshot_round_trip_reproduces_expected_runs() {
    // A hand-built grid with one horizontal and one vertical run; loading
    // it and searching must reproduce exactly those runs.
    let mut lines: Vec<String> = empty_grid_text().lines().map(|l| l.to_string()).collect();
    lines[17] = "M M M . . . B . .".to_string();
    lines[16] = ". . . . . . B . .".to_string();
    lines[15] = ". . . . . . B . .".to_string();
    let text = lines.join("\n") + "\n";
    let rows = snapshot_rows(&text.into_bytes());
    let pile = Pile::from_snapshot(&rows).unwrap();
    let matches = pile.search_for_matches();
    assert_eq!(matches.len(), 2);
    let vertical = matches.iter().find(|r| r.direction == Direction::Vertical).unwrap();
    let horizontal = matches.iter().find(|r| r.direction == Direction::Horizontal).unwrap();
    assert_eq!(vertical.cells, vec![(6, 2), (6, 1), (6, 0)]);
    assert_eq!(horizontal.cells, vec![(0, 0), (1, 0), (2, 0)]);
}

#[test]
fn snapshot_cells_map_to_grid_coordinates() {
    let mut lines: Vec<String> = empty_grid_text().lines().map(|l| l.to_string()).collect();
    lines[17] = "R . . . . . . . Y".to_string();
    let text = lines.join("\n") + "\n";
    let rows = snapshot_rows(&text.into_bytes());
    let pile = Pile::from_snapshot(&rows).unwrap();
    assert_eq!(pile.matrix[0][0], Some(BlockColor::Red));
    assert_eq!(pile.matrix[8][0], Some(BlockColor::Yellow));
    assert_eq!(pile.matrix[4][0], None);
    assert_eq!(pile.column_tops[0], 0);
    assert_eq!(pile.column_tops[8], 0);
    assert_eq!(pile.column_tops[4], -1);
}

#[test]
fn snapshot_with_wrong_row_count_is_rejected() {
    let text: Vec<u8> = b". . . . . . . . .\n. . . . . . . . .\n".to_vec();
    let rows = snapshot_rows(&text);
    assert!(matches!(Pile::from_snapshot(&rows), Err(SnapshotError::WrongDimensions)));
}

#[test]
fn snapshot_with_short_row_is_rejected() {
    let mut lines: Vec<String> = empty_grid_text().lines().map(|l| l.to_string()).collect();
    lines[5] = ". . . .".to_string();
    let text = lines.join("\n") + "\n";
    let rows = snapshot_rows(&text.into_bytes());
    assert!(matches!(Pile::from_snapshot(&rows), Err(SnapshotError::WrongDimensions)));
}

#[test]
fn snapshot_with_unknown_code_is_rejected() {
    let mut lines: Vec<String> = empty_grid_text().lines().map(|l| l.to_string()).collect();
    lines[17] = "Q . . . . . . . .".to_string();
    let text = lines.join("\n") + "\n";
    let rows = snapshot_rows(&text.into_bytes());
    assert!(matches!(Pile::from_snapshot(&rows), Err(SnapshotError::UnknownColorCode)));
}

#[test]
fn snapshot_with_floating_block_is_rejected() {
    let mut lines: Vec<String> = empty_grid_text().lines().map(|l| l.to_string()).collect();
    // A block in row 1 with nothing below it in row 0.
    lines[16] = "G . . . . . . . .".to_string();
    let text = lines.join("\n") + "\n";
    let rows = snapshot_rows(&text.into_bytes());
    assert!(matches!(Pile::from_snapshot(&rows), Err(SnapshotError::FloatingBlock)));
}

#[test]
fn snapshot_rows_keep_empty_lines_as_empty_rows() {
    let text: Vec<u8> = b"R\n\nG\n".to_vec();
    let rows = snapshot_rows(&text);
    assert_eq!(rows, vec![vec![b'R'], vec![], vec![b'G']]);
}

#[test]
fn snapshot_rows_keep_an_unterminated_final_line() {
    let text: Vec<u8> = b"R .\n. G".to_vec();
    let rows = snapshot_rows(&text);
    assert_eq!(rows, vec![vec![b'R', b'.'], vec![b'.', b'G']]);
}
