use vstd::prelude::*;

pub mod assets;
pub mod dashboard;
pub mod pilot;
pub mod sector;
pub mod sector_detail;
pub mod sector_list;
pub mod sector_map;
pub mod ship;
pub mod station;
pub mod ware;

pub use self::sector::{Sector, SectorView};
pub use self::ship::{ShipMeta, ShipMetaView};
pub use self::station::{StationSummary, StationSummaryView, StationWare, StationWareView, StationWares, TradeType};
pub use self::ware::{TransportType, WareMeta, WareMetaView};

verus! {

/// The view of an optional string.
pub open spec fn opt_view(o: Option<String>) -> Option<Seq<char>> {
    match o {
        Some(s) => Some(s@),
        None => None,
    }
}

impl View for Sector {
    type V = SectorView;

    open spec fn view(&self) -> SectorView {
        SectorView {
            code: self.code@,
            macro_name: self.macro_name@,
            name: self.name@,
            owner: opt_view(self.owner),
        }
    }
}

/// A copy of an optional string.
pub fn copy_opt(o: &Option<String>) -> (r: Option<String>)
    ensures
        opt_view(r) == opt_view(*o),
{
    match o {
        Some(s) => Some(s.clone()),
        None => None,
    }
}

} // verus!
