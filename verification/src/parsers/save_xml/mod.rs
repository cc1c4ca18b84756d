pub mod helpers;
pub mod sectors;
pub mod station_positions;
pub mod stations;
pub mod trades;
