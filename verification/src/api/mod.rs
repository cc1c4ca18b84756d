pub mod handlers;
pub mod sector_detail;
