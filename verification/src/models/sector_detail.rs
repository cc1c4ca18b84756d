use vstd::prelude::*;
use crate::models::opt_view;

verus! {

/// The texts of the `x`, `y`, `z` attributes of the last `position` read inside an
/// `offset`; a coordinate never given is 0, and reading a text as a floating-point
/// number (0 where it does not read) is left to the caller.
pub struct OffsetTexts {
    pub x: Option<String>,
    pub y: Option<String>,
    pub z: Option<String>,
}

pub struct OffsetView {
    pub x: Option<Seq<char>>,
    pub y: Option<Seq<char>>,
    pub z: Option<Seq<char>>,
}

impl View for OffsetTexts {
    type V = OffsetView;

    open spec fn view(&self) -> OffsetView {
        OffsetView { x: opt_view(self.x), y: opt_view(self.y), z: opt_view(self.z) }
    }
}

/// A station of a sector with its position. The position is the sum, outermost first, of
/// the offsets in `offsets`: those of the enclosing components, then the station's own.
pub struct StationInfo {
    pub code: String,
    pub name: String,
    pub owner: Option<String>,
    pub owner_name: Option<String>,
    pub macro_name: String,
    pub offsets: Vec<OffsetTexts>,
}

pub struct StationInfoView {
    pub code: Seq<char>,
    pub name: Seq<char>,
    pub owner: Option<Seq<char>>,
    pub owner_name: Option<Seq<char>>,
    pub macro_name: Seq<char>,
    pub offsets: Seq<OffsetView>,
}

impl View for StationInfo {
    type V = StationInfoView;

    open spec fn view(&self) -> StationInfoView {
        StationInfoView {
            code: self.code@,
            name: self.name@,
            owner: opt_view(self.owner),
            owner_name: opt_view(self.owner_name),
            macro_name: self.macro_name@,
            offsets: self.offsets@.map_values(|o: OffsetTexts| o@),
        }
    }
}

/// A trade offer of a station of the sector. `price_cents` is the price in hundredths
/// of a credit.
pub struct TradeOfferDetail {
    pub ware_id: String,
    pub ware_name: String,
    pub trade_type: String,
    pub price_cents: i32,
    pub amount: i32,
    pub station_code: String,
    pub station_name: String,
}

pub struct TradeOfferDetailView {
    pub ware_id: Seq<char>,
    pub ware_name: Seq<char>,
    pub trade_type: Seq<char>,
    pub price_cents: i32,
    pub amount: i32,
    pub station_code: Seq<char>,
    pub station_name: Seq<char>,
}

impl View for TradeOfferDetail {
    type V = TradeOfferDetailView;

    open spec fn view(&self) -> TradeOfferDetailView {
        TradeOfferDetailView {
            ware_id: self.ware_id@,
            ware_name: self.ware_name@,
            trade_type: self.trade_type@,
            price_cents: self.price_cents,
            amount: self.amount,
            station_code: self.station_code@,
            station_name: self.station_name@,
        }
    }
}

/// Counts shown with a sector's details.
pub struct SectorDetailStats {
    pub total_stations: usize,
    pub player_stations: usize,
    pub buy_offers: usize,
    pub sell_offers: usize,
    pub unique_wares: usize,
}

} // verus!
