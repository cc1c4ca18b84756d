use vstd::prelude::*;
use crate::models::opt_view;

verus! {

/// A sector in the sectors list, with its counts.
pub struct SectorListItem {
    pub code: String,
    pub name: String,
    pub macro_name: String,
    pub owner: Option<String>,
    pub owner_name: Option<String>,
    pub contested: bool,
    pub station_count: usize,
    pub player_stations: usize,
    pub buy_offers: usize,
    pub sell_offers: usize,
    pub total_trades: usize,
    pub resource_types: Vec<String>,
    pub discovered: bool,
}

pub struct SectorListItemView {
    pub code: Seq<char>,
    pub name: Seq<char>,
    pub macro_name: Seq<char>,
    pub owner: Option<Seq<char>>,
    pub owner_name: Option<Seq<char>>,
    pub contested: bool,
    pub station_count: usize,
    pub player_stations: usize,
    pub buy_offers: usize,
    pub sell_offers: usize,
    pub total_trades: usize,
    pub resource_types: Seq<Seq<char>>,
    pub discovered: bool,
}

impl View for SectorListItem {
    type V = SectorListItemView;

    open spec fn view(&self) -> SectorListItemView {
        SectorListItemView {
            code: self.code@,
            name: self.name@,
            macro_name: self.macro_name@,
            owner: opt_view(self.owner),
            owner_name: opt_view(self.owner_name),
            contested: self.contested,
            station_count: self.station_count,
            player_stations: self.player_stations,
            buy_offers: self.buy_offers,
            sell_offers: self.sell_offers,
            total_trades: self.total_trades,
            resource_types: self.resource_types@.map_values(|s: String| s@),
            discovered: self.discovered,
        }
    }
}

/// Totals over all sectors.
pub struct SectorStats {
    pub total_sectors: usize,
    pub player_owned: usize,
    pub discovered: usize,
    pub total_stations: usize,
}

/// The sectors list and its totals.
pub struct SectorsListResponse {
    pub sectors: Vec<SectorListItem>,
    pub stats: SectorStats,
}

} // verus!
