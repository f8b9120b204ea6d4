//! A two-player dominoes engine: tiles, the snake (layout), hands, the
//! boneyard (stock), pluggable strategies, and the turn-based game state
//! machine, together with a match runner that aggregates outcomes over
//! repeated games.

pub mod tile;
pub mod tile_play;
pub mod snake;
pub mod hand;
pub mod boneyard;
pub mod players;
pub mod game;
pub mod debug_utils;
pub mod possible_hand;
pub mod match_results;
pub mod match_players;
pub mod print_utils;
