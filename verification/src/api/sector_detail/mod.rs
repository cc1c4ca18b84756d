use vstd::prelude::*;
use crate::api::handlers::sectors::sector_trades;
use crate::api::handlers::wares::{ware_display, ware_display_name};
use crate::models::sector_detail::{
    SectorDetailStats, StationInfo, StationInfoView, TradeOfferDetail, TradeOfferDetailView,
};
use crate::models::{Sector, SectorView, StationWareView, StationWares, TradeType, WareMeta, WareMetaView};
use crate::parsers::game_xml::{LocView, Localization};
use crate::strmap::StrMap;
use crate::text::{owned, str_eq};

pub mod helpers;

verus! {

/// The position of the first sector with code `code`.
pub open spec fn sector_with_code(sectors: Seq<SectorView>, code: Seq<char>) -> Option<int>
    decreases sectors.len(),
{
    if sectors.len() == 0 {
        None
    } else {
        match sector_with_code(sectors.drop_last(), code) {
            Some(i) => Some(i),
            None => if sectors.last().code == code { Some(sectors.len() - 1) } else { None },
        }
    }
}

proof fn lemma_code_prefix(sv: Seq<SectorView>, k: int, code: Seq<char>)
    requires
        0 <= k <= sv.len(),
        sector_with_code(sv.take(k), code) is Some,
    ensures
        sector_with_code(sv, code) == sector_with_code(sv.take(k), code),
    decreases sv.len() - k,
{
    if k < sv.len() {
        assert(sv.take(k + 1).drop_last() =~= sv.take(k));
        lemma_code_prefix(sv, k + 1, code);
    } else {
        assert(sv.take(k) =~= sv);
    }
}

/// The first sector with code `code`.
pub fn find_sector_by_code(sectors: &[Sector], code: &str) -> (r: Option<usize>)
    ensures
        match r {
            Some(i) => sector_with_code(sectors@.map_values(|s: Sector| s@), code@) == Some(i as int)
                && i < sectors@.len(),
            None => sector_with_code(sectors@.map_values(|s: Sector| s@), code@) is None,
        },
{
    let ghost sv = sectors@.map_values(|s: Sector| s@);
    let mut i: usize = 0;
    while i < sectors.len()
        invariant
            i <= sectors@.len(),
            sv == sectors@.map_values(|s: Sector| s@),
            sector_with_code(sv.take(i as int), code@) is None,
        decreases sectors.len() - i,
    {
        proof {
            assert(sv.take(i + 1).drop_last() =~= sv.take(i as int));
            assert(sv.take(i + 1).last() == sectors@[i as int]@);
        }
        if str_eq(sectors[i].code.as_str(), code) {
            proof {
                lemma_code_prefix(sv, i + 1, code@);
            }
            return Some(i);
        }
        i += 1;
    }
    proof {
        assert(sv.take(sectors@.len() as int) =~= sv);
    }
    None
}

/// `buy` or `sell`.
pub open spec fn trade_type_text(t: TradeType) -> Seq<char> {
    match t {
        TradeType::Buy => "buy"@,
        TradeType::Sell => "sell"@,
    }
}

/// The detail of a trade offer.
pub open spec fn offer_detail(t: StationWareView, wares: Map<Seq<char>, WareMetaView>, loc: LocView) -> TradeOfferDetailView {
    TradeOfferDetailView {
        ware_id: t.ware,
        ware_name: ware_display(t.ware, wares, loc),
        trade_type: trade_type_text(t.trade_type),
        price_cents: t.price_cents as i32,
        amount: t.amount as i32,
        station_code: t.station_code,
        station_name: t.station_name,
    }
}

/// The number of distinct values in a sequence.
pub open spec fn distinct_count(s: Seq<Seq<char>>) -> nat
    decreases s.len(),
{
    if s.len() == 0 {
        0
    } else {
        distinct_count(s.drop_last()) + if s.drop_last().contains(s.last()) { 0nat } else { 1nat }
    }
}

proof fn lemma_push_to_set(s: Seq<Seq<char>>, x: Seq<char>)
    ensures
        s.push(x).to_set() == s.to_set().insert(x),
{
    assert forall|y: Seq<char>| #[trigger] s.push(x).to_set().contains(y) == s.to_set().insert(x).contains(y) by {
        if s.push(x).contains(y) {
            let j = choose|j: int| 0 <= j < s.push(x).len() && s.push(x)[j] == y;
            if j < s.len() {
                assert(s[j] == y);
            }
        }
        if s.contains(y) {
            let j = choose|j: int| 0 <= j < s.len() && s[j] == y;
            assert(s.push(x)[j] == y);
        }
        if y == x {
            assert(s.push(x)[s.len() as int] == x);
        }
    }
    assert(s.push(x).to_set() =~= s.to_set().insert(x));
}

pub open spec fn trade_wares(ts: Seq<StationWareView>) -> Seq<Seq<char>> {
    ts.map_values(|t: StationWareView| t.ware)
}

pub open spec fn count_of(ts: Seq<StationWareView>, t: TradeType) -> nat {
    crate::api::handlers::sectors::trade_count(ts, t)
}

proof fn lemma_distinct_count_bound(s: Seq<Seq<char>>)
    ensures
        distinct_count(s) <= s.len(),
    decreases s.len(),
{
    if s.len() > 0 {
        lemma_distinct_count_bound(s.drop_last());
    }
}

/// In the details of a sector the buy and sell offers add up to all its offers, and there
/// are no more distinct wares than offers.
pub proof fn law_sector_detail_counts(trades: Map<Seq<char>, Seq<StationWareView>>, code: Seq<char>)
    ensures
        count_of(sector_trades(trades, code), TradeType::Buy) + count_of(sector_trades(trades, code), TradeType::Sell)
            == sector_trades(trades, code).len(),
        distinct_count(trade_wares(sector_trades(trades, code))) <= sector_trades(trades, code).len(),
{
    let ts = sector_trades(trades, code);
    crate::api::handlers::sectors::law_offer_counts_add_up(ts);
    lemma_distinct_count_bound(trade_wares(ts));
}

/// The number of stations the player owns.
pub open spec fn player_station_count(stations: Seq<StationInfoView>) -> nat
    decreases stations.len(),
{
    if stations.len() == 0 {
        0
    } else {
        player_station_count(stations.drop_last()) + if stations.last().owner == Some("player"@) { 1nat } else { 0nat }
    }
}

/// The trade offers of sector `code` with the ware names, and the counts shown with the
/// sector: stations, the player's stations, buy and sell offers, and distinct wares.
pub fn sector_trade_details(
    stations: &[StationInfo],
    trades: &StrMap<StationWares>,
    code: &str,
    wares: &StrMap<WareMeta>,
    localization: &Localization,
) -> (r: (Vec<TradeOfferDetail>, SectorDetailStats))
    ensures
        ({
            let ts = sector_trades(trades@, code@);
            &&& r.0@.map_values(|d: TradeOfferDetail| d@) == ts.map_values(
                |t: StationWareView| offer_detail(t, wares@, localization@),
            )
            &&& r.1.total_stations == stations@.len()
            &&& r.1.player_stations == player_station_count(stations@.map_values(|s: StationInfo| s@))
            &&& r.1.buy_offers == count_of(ts, TradeType::Buy)
            &&& r.1.sell_offers == count_of(ts, TradeType::Sell)
            &&& r.1.unique_wares == distinct_count(trade_wares(ts))
        }),
{
    let ghost stv = stations@.map_values(|s: StationInfo| s@);
    let mut player: usize = 0;
    let mut k: usize = 0;
    while k < stations.len()
        invariant
            k <= stations@.len(),
            stv == stations@.map_values(|s: StationInfo| s@),
            player == player_station_count(stv.take(k as int)),
            player <= k,
        decreases stations.len() - k,
    {
        proof {
            assert(stv.take(k + 1).drop_last() =~= stv.take(k as int));
            assert(stv.take(k + 1).last() == stations@[k as int]@);
        }
        let is_player = match &stations[k].owner {
            Some(o) => str_eq(o.as_str(), "player"),
            None => false,
        };
        if is_player {
            player += 1;
        }
        k += 1;
    }
    proof {
        assert(stv.take(stations@.len() as int) =~= stv);
    }
    let mut details: Vec<TradeOfferDetail> = Vec::new();
    let mut buys: usize = 0;
    let mut sells: usize = 0;
    let mut seen: StrMap<()> = StrMap::new();
    let mut unique: usize = 0;
    match trades.get(code) {
        Some(list) => {
            let ghost ts = list@;
            let mut i: usize = 0;
            proof {
                assert(seen@.dom() =~= trade_wares(ts.take(0)).to_set());
            }
            while i < list.items.len()
                invariant
                    i <= list.items@.len(),
                    ts == list@,
                    details@.map_values(|d: TradeOfferDetail| d@) == ts.take(i as int).map_values(
                        |t: StationWareView| offer_detail(t, wares@, localization@),
                    ),
                    buys == count_of(ts.take(i as int), TradeType::Buy),
                    sells == count_of(ts.take(i as int), TradeType::Sell),
                    buys + sells == i,
                    seen@.dom() == trade_wares(ts.take(i as int)).to_set(),
                    unique == distinct_count(trade_wares(ts.take(i as int))),
                    unique <= i,
                decreases list.items.len() - i,
            {
                let t = &list.items[i];
                proof {
                    assert(ts.take(i + 1).drop_last() =~= ts.take(i as int));
                    assert(ts.take(i + 1).last() == t@);
                    assert(trade_wares(ts.take(i + 1)) =~= trade_wares(ts.take(i as int)).push(t.ware@));
                    assert(trade_wares(ts.take(i + 1)).drop_last() =~= trade_wares(ts.take(i as int)));
                }
                let kind = match t.trade_type {
                    TradeType::Buy => {
                        buys += 1;
                        owned("buy")
                    },
                    TradeType::Sell => {
                        sells += 1;
                        owned("sell")
                    },
                };
                let ghost d0 = seen@.dom();
                if !seen.contains_key(t.ware.as_str()) {
                    unique += 1;
                    seen.insert(t.ware.clone(), ());
                }
                proof {
                    assert(seen@.dom() =~= d0.insert(t.ware@));
                    lemma_push_to_set(trade_wares(ts.take(i as int)), t.ware@);
                }
                let d = TradeOfferDetail {
                    ware_id: t.ware.clone(),
                    ware_name: ware_display_name(t.ware.as_str(), wares, localization),
                    trade_type: kind,
                    price_cents: t.price_cents,
                    amount: t.amount,
                    station_code: t.station_code.clone(),
                    station_name: t.station_name.clone(),
                };
                let ghost dv = details@.map_values(|d: TradeOfferDetail| d@);
                details.push(d);
                proof {
                    assert(details@.map_values(|d: TradeOfferDetail| d@) =~= dv.push(
                        offer_detail(t@, wares@, localization@),
                    ));
                    assert(ts.take(i + 1).map_values(|t: StationWareView| offer_detail(t, wares@, localization@))
                        =~= ts.take(i as int).map_values(|t: StationWareView| offer_detail(t, wares@, localization@)).push(
                        offer_detail(t@, wares@, localization@),
                    ));
                }
                i += 1;
            }
            proof {
                assert(ts.take(list.items@.len() as int) =~= ts);
            }
        },
        None => {
            proof {
                assert(details@.map_values(|d: TradeOfferDetail| d@) =~= Seq::<TradeOfferDetailView>::empty());
                assert(trade_wares(Seq::<StationWareView>::empty()) =~= Seq::<Seq<char>>::empty());
            }
        },
    }
    let stats = SectorDetailStats {
        total_stations: stations.len(),
        player_stations: player,
        buy_offers: buys,
        sell_offers: sells,
        unique_wares: unique,
    };
    (details, stats)
}

} // verus!
