use color_columns::blocks::Block;
use color_columns::blocks::BlockColor;
use color_columns::blocks::Factory;
use color_columns::blocks::cargo::Cargo;
use color_columns::blocks::cargo::PREVIEW_COLUMN;
use color_columns::blocks::pile::Pile;
use color_columns::constants::GAME_ARENA_COLUMNS;
use color_columns::constants::GAME_ARENA_ROWS;

#[test]
fn movement_stays_inside_the_arena() {
    let pile = Pile::new();
    let mut cargo = Cargo::new(BlockColor::Red, BlockColor::Green, BlockColor::Blue);
    cargo.place_in_column(0);
    cargo.move_to_left(&pile);
    assert_eq!(cargo.column_idx, 0);
    cargo.place_in_column(GAME_ARENA_COLUMNS - 1);
    cargo.move_to_right(&pile);
    assert_eq!(cargo.column_idx, GAME_ARENA_COLUMNS - 1);
    cargo.move_to_left(&pile);
    assert_eq!(cargo.column_idx, GAME_ARENA_COLUMNS - 2);
}

#[test]
fn movement_is_blocked_by_a_higher_pile() {
    let mut pile = Pile::new();
    // Stack 6 blocks into column 3.
    for _ in 0..2 {
        let mut filler = Cargo::new(BlockColor::Red, BlockColor::Green, BlockColor::Blue);
        filler.place_in_column(3);
        pile.take_cargo(&filler);
    }
    assert_eq!(pile.column_tops[3], 5);
    // A piece low in column 2 cannot slide into column 3...
    let mut cargo = Cargo::new(BlockColor::Yellow, BlockColor::Yellow, BlockColor::Cyan);
    cargo.place_in_column(2);
    cargo.drop(&pile);
    assert_eq!(cargo.bottom_row, 0);
    cargo.move_to_right(&pile);
    assert_eq!(cargo.column_idx, 2);
    // ...but one above the stack can.
    let mut high = Cargo::new(BlockColor::Yellow, BlockColor::Yellow, BlockColor::Cyan);
    high.place_in_column(2);
    high.move_to_right(&pile);
    assert_eq!(high.column_idx, 3);
}

#[test]
fn rearrange_up_and_down_are_inverse_cycles() {
    let mut cargo = Cargo::new(BlockColor::Red, BlockColor::Green, BlockColor::Blue);
    cargo.rearrange_up();
    assert_eq!(
        (cargo.block0, cargo.block1, cargo.block2),
        (BlockColor::Blue, BlockColor::Red, BlockColor::Green),
    );
    cargo.rearrange_down();
    assert_eq!(
        (cargo.block0, cargo.block1, cargo.block2),
        (BlockColor::Red, BlockColor::Green, BlockColor::Blue),
    );
    cargo.rearrange_up();
    cargo.rearrange_up();
    cargo.rearrange_up();
    assert_eq!(
        (cargo.block0, cargo.block1, cargo.block2),
        (BlockColor::Red, BlockColor::Green, BlockColor::Blue),
    );
}

#[test]
fn descend_steps_down_to_the_pile_top() {
    let pile = Pile::new();
    let mut cargo = Cargo::new(BlockColor::Red, BlockColor::Red, BlockColor::Red);
    cargo.place_in_column(5);
    assert_eq!(cargo.bottom_row, GAME_ARENA_ROWS);
    assert!(!cargo.is_at_bottom(&pile));
    let mut steps = 0;
    while !cargo.descend_one_step(&pile) {
        steps += 1;
        assert!(steps < 50);
    }
    // The empty column's floor: bottom row 0, reached after 18 steps.
    assert_eq!(cargo.bottom_row, 0);
    assert!(cargo.is_at_bottom(&pile));
}

#[test]
fn drop_snaps_onto_the_pile() {
    let mut pile = Pile::new();
    let mut filler = Cargo::new(BlockColor::Green, BlockColor::Green, BlockColor::Blue);
    filler.place_in_column(6);
    pile.take_cargo(&filler);
    let mut cargo = Cargo::new(BlockColor::Red, BlockColor::Red, BlockColor::Red);
    cargo.place_in_column(6);
    cargo.drop(&pile);
    assert_eq!(cargo.bottom_row, 3);
    assert!(cargo.is_at_bottom(&pile));
}

#[test]
fn preview_cargo_shows_all_three_blocks() {
    let cargo = Cargo::new(BlockColor::Red, BlockColor::Green, BlockColor::Blue);
    let blocks = cargo.get_visible_blocks();
    assert_eq!(blocks.len(), 3);
    for block in &blocks {
        assert_eq!(block.col, PREVIEW_COLUMN);
    }
    assert_eq!(blocks[0].color, BlockColor::Red);
    assert_eq!(blocks[2].color, BlockColor::Blue);
}

#[test]
fn blocks_above_the_ceiling_are_clipped() {
    let mut cargo = Cargo::new(BlockColor::Red, BlockColor::Green, BlockColor::Blue);
    cargo.place_in_column(0);
    // Wholly above the ceiling: nothing visible.
    assert_eq!(cargo.get_visible_blocks().len(), 0);
    let pile = Pile::new();
    cargo.descend_one_step(&pile);
    let blocks = cargo.get_visible_blocks();
    assert_eq!(blocks.len(), 1);
    assert_eq!(blocks[0], Block { color: BlockColor::Blue, col: 0, row: 17 });
    cargo.descend_one_step(&pile);
    cargo.descend_one_step(&pile);
    assert_eq!(cargo.get_visible_blocks().len(), 3);
}

#[test]
fn factory_places_pieces_inside_the_arena() {
    let mut factory = Factory::new();
    for _ in 0..20 {
        let cargo = factory.create_next_cargo();
        assert_eq!(cargo.column_idx, usize::MAX);
        let placed = factory.put_cargo_in_arena(cargo);
        assert!(placed.column_idx < GAME_ARENA_COLUMNS);
        assert_eq!(placed.bottom_row, GAME_ARENA_ROWS);
    }
}

#[test]
fn random_recoloring_always_changes_the_color() {
    let mut factory = Factory::new();
    let mut block = Block { color: BlockColor::Red, col: 1, row: 1 };
    for _ in 0..50 {
        let before = block.color;
        factory.change_block_color_randomly(&mut block);
        assert_ne!(block.color, before);
        assert_eq!(block.col, 1);
        assert_eq!(block.row, 1);
    }
}

#[test]
fn color_codes_round_trip() {
    let colors = [
        BlockColor::Red,
        BlockColor::Green,
        BlockColor::Blue,
        BlockColor::Cyan,
        BlockColor::Magenta,
        BlockColor::Yellow,
    ];
    for color in colors.iter() {
        assert_eq!(Factory::get_block_color_by_code(color.code()), *color);
        assert_eq!(BlockColor::from_code(color.code()), Some(*color));
    }
    assert_eq!(BlockColor::from_code(b'Z'), None);
}
