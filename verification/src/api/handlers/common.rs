use vstd::prelude::*;
use crate::models::pilot::PilotInfo;
use crate::models::Sector;

verus! {

/// What is kept of a loaded save: its sectors, its path and the player's details.
pub struct SaveData {
    pub sectors: Vec<Sector>,
    pub save_path: String,
    pub pilot: Option<PilotInfo>,
}

} // verus!
