use vstd::prelude::*;
use crate::models::opt_view;

verus! {

/// A station of a sector.
pub struct Station {
    pub code: String,
    pub name: String,
    pub macro_name: String,
    pub sector_code: String,
}

/// A station found in a save, with the sector it stands in and its owner.
pub struct StationSummary {
    pub code: String,
    pub name: String,
    pub macro_name: String,
    pub sector_code: String,
    pub owner: Option<String>,
    pub owner_name: Option<String>,
}

pub struct StationSummaryView {
    pub code: Seq<char>,
    pub name: Seq<char>,
    pub macro_name: Seq<char>,
    pub sector_code: Seq<char>,
    pub owner: Option<Seq<char>>,
    pub owner_name: Option<Seq<char>>,
}

impl View for StationSummary {
    type V = StationSummaryView;

    open spec fn view(&self) -> StationSummaryView {
        StationSummaryView {
            code: self.code@,
            name: self.name@,
            macro_name: self.macro_name@,
            sector_code: self.sector_code@,
            owner: opt_view(self.owner),
            owner_name: opt_view(self.owner_name),
        }
    }
}

/// Whether a station buys or sells a ware.
#[derive(Clone, Copy, Debug, PartialEq, Eq, Structural)]
pub enum TradeType {
    Buy,
    Sell,
}

/// A trade offer of a station. `price_cents` is the price as the save writes it, in
/// hundredths of a credit.
pub struct StationWare {
    pub ware: String,
    pub price_cents: i32,
    pub amount: i32,
    pub trade_type: TradeType,
    pub station_name: String,
    pub station_code: String,
    pub sector_code: String,
    pub sector_name: String,
    pub sector_owner: Option<String>,
}

pub struct StationWareView {
    pub ware: Seq<char>,
    pub price_cents: int,
    pub amount: int,
    pub trade_type: TradeType,
    pub station_name: Seq<char>,
    pub station_code: Seq<char>,
    pub sector_code: Seq<char>,
    pub sector_name: Seq<char>,
    pub sector_owner: Option<Seq<char>>,
}

impl View for StationWare {
    type V = StationWareView;

    open spec fn view(&self) -> StationWareView {
        StationWareView {
            ware: self.ware@,
            price_cents: self.price_cents as int,
            amount: self.amount as int,
            trade_type: self.trade_type,
            station_name: self.station_name@,
            station_code: self.station_code@,
            sector_code: self.sector_code@,
            sector_name: self.sector_name@,
            sector_owner: opt_view(self.sector_owner),
        }
    }
}

/// The trade offers of one sector, in the order they were found.
pub struct StationWares {
    pub items: Vec<StationWare>,
}

impl View for StationWares {
    type V = Seq<StationWareView>;

    open spec fn view(&self) -> Seq<StationWareView> {
        self.items@.map_values(|w: StationWare| w@)
    }
}

} // verus!
