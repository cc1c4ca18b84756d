use vstd::prelude::*;
use crate::models::opt_view;

verus! {

/// The player as the dashboard shows them.
pub struct DashboardPlayer {
    pub name: String,
    pub money: i64,
    pub location: Option<String>,
    pub game_time: i64,
}

/// Counts shown on the dashboard.
pub struct DashboardStats {
    pub sectors: usize,
    pub stations: usize,
    pub ships: usize,
    pub npcs: usize,
}

/// A sector in the dashboard's summary.
pub struct DashboardSector {
    pub code: String,
    pub name: String,
    pub owner: Option<String>,
    pub owner_name: Option<String>,
    pub station_count: usize,
    pub player_stations: usize,
}

pub struct DashboardSectorView {
    pub code: Seq<char>,
    pub name: Seq<char>,
    pub owner: Option<Seq<char>>,
    pub owner_name: Option<Seq<char>>,
    pub station_count: usize,
    pub player_stations: usize,
}

impl View for DashboardSector {
    type V = DashboardSectorView;

    open spec fn view(&self) -> DashboardSectorView {
        DashboardSectorView {
            code: self.code@,
            name: self.name@,
            owner: opt_view(self.owner),
            owner_name: opt_view(self.owner_name),
            station_count: self.station_count,
            player_stations: self.player_stations,
        }
    }
}

} // verus!
