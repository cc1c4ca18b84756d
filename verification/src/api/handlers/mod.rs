pub mod common;
pub mod dashboard;
pub mod init;
pub mod init_utils;
pub mod misc;
pub mod pilot;
pub mod sectors;
pub mod wares;
