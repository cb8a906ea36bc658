use vstd::prelude::*;

verus! {

// GAME ARENA
pub const GAME_ARENA_COLUMNS: usize = 9;
pub const GAME_ARENA_ROWS: usize = 18;

// BLOCKS
pub const NO_BLOCK_CODE: u8 = 46;

// GAMEPLAY
pub const STARTING_NUM_TICKS_FOR_CARGO_DESCENT: usize = 45;
pub const NUM_DESCENDED_CARGOES_GAMEPLAY_ACCELERATION: usize = 9;
pub const NUM_TICKS_GAMEPLAY_ACCELERATION_LIMIT: usize = 18;
pub const NUM_TICKS_FOR_PAUSED_BLOCKS_SHUFFLE: usize = 8;

// The blinking animation that precedes match removal runs through four
// stages; each entry is the number of ticks the corresponding stage lasts.
pub const NUM_TICKS_MATCHES_REMOVAL_STAGE_0: usize = 12;
pub const NUM_TICKS_MATCHES_REMOVAL_STAGE_1: usize = 11;
pub const NUM_TICKS_MATCHES_REMOVAL_STAGE_2: usize = 11;
pub const NUM_TICKS_MATCHES_REMOVAL_STAGE_3: usize = 24;

} // verus!
