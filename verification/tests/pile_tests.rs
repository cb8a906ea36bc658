use color_columns::blocks::BlockColor;
use color_columns::blocks::cargo::Cargo;
use color_columns::blocks::pile::Pile;
use color_columns::constants::GAME_ARENA_COLUMNS;
use color_columns::constants::GAME_ARENA_ROWS;

fn monochrome_cargo(color: BlockColor, column: usize) -> Cargo {
    let mut cargo = Cargo::new(color, color, color);
    cargo.place_in_column(column);
    cargo
}

#[test]
fn new_pile_is_empty() {
    let pile = Pile::new();
    assert_eq!(pile.get_blocks().len(), 0);
    for c in 0..GAME_ARENA_COLUMNS {
        assert_eq!(pile.column_tops[c], -1);
    }
}

#[test]
fn take_cargo_fills_column_bottom_up() {
    let mut pile = Pile::new();
    let mut cargo = Cargo::new(BlockColor::Red, BlockColor::Green, BlockColor::Blue);
    cargo.place_in_column(4);
    let remaining = pile.take_cargo(&cargo);
    // 18 free cells before the commit, minus the piece's 3 blocks.
    assert_eq!(remaining, 15);
    assert_eq!(pile.column_tops[4], 2);
    // The bottom block of the piece (block2) lands lowest.
    assert_eq!(pile.matrix[4][0], Some(BlockColor::Blue));
    assert_eq!(pile.matrix[4][1], Some(BlockColor::Green));
    assert_eq!(pile.matrix[4][2], Some(BlockColor::Red));
    assert_eq!(pile.matrix[4][3], None);
}

#[test]
fn take_cargo_on_full_column_signals_game_over() {
    let mut pile = Pile::new();
    // Fill column 0 completely: six 3-block pieces.
    for i in 0..6 {
        let color = if i % 2 == 0 { BlockColor::Red } else { BlockColor::Green };
        let cargo = monochrome_cargo(color, 0);
        pile.take_cargo(&cargo);
    }
    assert_eq!(pile.column_tops[0], (GAME_ARENA_ROWS - 1) as i32);
    let cargo = monochrome_cargo(BlockColor::Yellow, 0);
    let remaining = pile.take_cargo(&cargo);
    assert!(remaining < 0);
    assert_eq!(remaining, -3);
}

#[test]
fn take_cargo_clips_overflowing_blocks() {
    let mut pile = Pile::new();
    // 17 of 18 cells filled: only the piece's bottom block fits.
    for _ in 0..5 {
        let cargo = monochrome_cargo(BlockColor::Red, 2);
        pile.take_cargo(&cargo);
    }
    let cargo = monochrome_cargo(BlockColor::Green, 2);
    pile.take_cargo(&cargo);
    assert_eq!(pile.column_tops[2], 17);
    let cargo = monochrome_cargo(BlockColor::Blue, 2);
    let remaining = pile.take_cargo(&cargo);
    assert_eq!(remaining, -3);
    assert_eq!(pile.column_tops[2], 17);
}

#[test]
fn extract_and_remove_compacts_column() {
    let mut pile = Pile::new();
    // Column 7: Blue, Blue, Blue, Red, Yellow from the floor up.
    let lower = monochrome_cargo(BlockColor::Blue, 7);
    pile.take_cargo(&lower);
    let mut upper = Cargo::new(BlockColor::Magenta, BlockColor::Yellow, BlockColor::Red);
    upper.place_in_column(7);
    pile.take_cargo(&upper);
    assert_eq!(pile.column_tops[7], 5);
    let coords = vec![(7usize, 0usize), (7usize, 1usize), (7usize, 2usize)];
    let extracted = pile.extract_matching_blocks(&coords);
    assert_eq!(extracted.len(), 3);
    for block in &extracted {
        assert_eq!(block.color, BlockColor::Blue);
        assert_eq!(block.col, 7);
    }
    // Tops are deliberately stale between extraction and removal.
    assert_eq!(pile.column_tops[7], 5);
    let full = pile.remove_matches(&coords);
    assert!(!full);
    assert_eq!(pile.column_tops[7], 2);
    assert_eq!(pile.matrix[7][0], Some(BlockColor::Red));
    assert_eq!(pile.matrix[7][1], Some(BlockColor::Yellow));
    assert_eq!(pile.matrix[7][2], Some(BlockColor::Magenta));
    assert_eq!(pile.matrix[7][3], None);
}

#[test]
fn remove_matches_compacts_split_groups_in_one_column() {
    let mut pile = Pile::new();
    // Column 3, floor up: R G R G R (two separated match groups will be the
    // G cells at rows 1 and 3).
    let mut first = Cargo::new(BlockColor::Red, BlockColor::Green, BlockColor::Red);
    first.place_in_column(3);
    pile.take_cargo(&first);
    let mut second = Cargo::new(BlockColor::Yellow, BlockColor::Red, BlockColor::Green);
    second.place_in_column(3);
    pile.take_cargo(&second);
    // rows: 0=R 1=G 2=R 3=G 4=R 5=Y
    let coords = vec![(3usize, 1usize), (3usize, 3usize)];
    pile.extract_matching_blocks(&coords);
    let full = pile.remove_matches(&coords);
    assert!(!full);
    assert_eq!(pile.column_tops[3], 3);
    assert_eq!(pile.matrix[3][0], Some(BlockColor::Red));
    assert_eq!(pile.matrix[3][1], Some(BlockColor::Red));
    assert_eq!(pile.matrix[3][2], Some(BlockColor::Red));
    assert_eq!(pile.matrix[3][3], Some(BlockColor::Yellow));
    assert_eq!(pile.matrix[3][4], None);
}

#[test]
fn get_blocks_lists_every_settled_block() {
    let mut pile = Pile::new();
    let cargo = monochrome_cargo(BlockColor::Cyan, 1);
    pile.take_cargo(&cargo);
    let cargo = monochrome_cargo(BlockColor::Magenta, 8);
    pile.take_cargo(&cargo);
    let blocks = pile.get_blocks();
    assert_eq!(blocks.len(), 6);
    let cyan = blocks.iter().filter(|b| b.color == BlockColor::Cyan).count();
    let magenta = blocks.iter().filter(|b| b.color == BlockColor::Magenta).count();
    assert_eq!(cyan, 3);
    assert_eq!(magenta, 3);
}
