pub mod assets;
pub mod cat_dat;
pub mod game_xml;
pub mod pilot_xml;
pub mod save_xml;
pub mod sector_map;
