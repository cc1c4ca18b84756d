pub mod helpers;
pub mod player_assets;
pub mod player_npcs;
pub mod types;
