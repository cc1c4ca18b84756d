pub mod factions;
pub mod localization;
pub mod sectors;
pub mod ships;
pub mod wares;
