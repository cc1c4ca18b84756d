use vstd::prelude::*;
use crate::models::sector_list::{SectorListItem, SectorListItemView, SectorStats, SectorsListResponse};
use crate::models::{copy_opt, opt_view, Sector, SectorView, StationWareView, StationWares, TradeType};
use crate::parsers::save_xml::helpers::map_get;
use crate::parsers::save_xml::stations::StationCount;
use crate::sorting::{keys_view, reorder, sort_by_keys, sort_order};
use crate::strmap::StrMap;
use crate::text::{chars_of, lower, str_eq, to_lower};

verus! {

/// The number of trades of type `t`.
pub open spec fn trade_count(ts: Seq<StationWareView>, t: TradeType) -> nat
    decreases ts.len(),
{
    if ts.len() == 0 {
        0
    } else {
        trade_count(ts.drop_last(), t) + if ts.last().trade_type == t { 1nat } else { 0nat }
    }
}

/// Every offer is a buy or a sell offer: the two counts add up to the number of offers.
pub proof fn law_offer_counts_add_up(ts: Seq<StationWareView>)
    ensures
        trade_count(ts, TradeType::Buy) + trade_count(ts, TradeType::Sell) == ts.len(),
    decreases ts.len(),
{
    if ts.len() > 0 {
        law_offer_counts_add_up(ts.drop_last());
    }
}

/// The name of a faction, or its id when unknown.
pub open spec fn faction_display(o: Seq<char>, fnames: Map<Seq<char>, Seq<char>>) -> Seq<char> {
    match map_get(fnames, o) {
        Some(n) => n,
        None => o,
    }
}

/// The owner's display name of an optionally owned thing.
pub open spec fn owner_display(owner: Option<Seq<char>>, fnames: Map<Seq<char>, Seq<char>>) -> Option<Seq<char>> {
    match owner {
        Some(o) => Some(faction_display(o, fnames)),
        None => None,
    }
}

/// The trades of a sector, none when it has no entry.
pub open spec fn sector_trades(trades: Map<Seq<char>, Seq<StationWareView>>, code: Seq<char>) -> Seq<StationWareView> {
    if trades.contains_key(code) {
        trades[code]
    } else {
        Seq::empty()
    }
}

/// The station counts of a sector, zero when it has no entry.
pub open spec fn sector_counts(counts: Map<Seq<char>, StationCount>, code: Seq<char>) -> StationCount {
    if counts.contains_key(code) {
        counts[code]
    } else {
        (0usize, 0usize)
    }
}

/// The list entry of a sector.
pub open spec fn list_item(
    s: SectorView,
    trades: Map<Seq<char>, Seq<StationWareView>>,
    counts: Map<Seq<char>, StationCount>,
    fnames: Map<Seq<char>, Seq<char>>,
) -> SectorListItemView {
    let ts = sector_trades(trades, s.code);
    let c = sector_counts(counts, s.code);
    SectorListItemView {
        code: s.code,
        name: s.name,
        macro_name: s.macro_name,
        owner: s.owner,
        owner_name: owner_display(s.owner, fnames),
        contested: false,
        station_count: c.0,
        player_stations: c.1,
        buy_offers: trade_count(ts, TradeType::Buy) as usize,
        sell_offers: trade_count(ts, TradeType::Sell) as usize,
        total_trades: ts.len() as usize,
        resource_types: Seq::empty(),
        discovered: true,
    }
}

/// The stations of all sectors added up.
pub open spec fn total_stations(sectors: Seq<SectorView>, counts: Map<Seq<char>, StationCount>) -> int
    decreases sectors.len(),
{
    if sectors.len() == 0 {
        0
    } else {
        total_stations(sectors.drop_last(), counts) + sector_counts(counts, sectors.last().code).0
    }
}

/// The number of sectors the player owns.
pub open spec fn player_owned(sectors: Seq<SectorView>) -> int
    decreases sectors.len(),
{
    if sectors.len() == 0 {
        0
    } else {
        player_owned(sectors.drop_last()) + if sectors.last().owner == Some("player"@) { 1int } else { 0int }
    }
}

pub open spec fn item_name_keys(items: Seq<SectorListItemView>) -> Seq<Seq<char>> {
    items.map_values(|i: SectorListItemView| lower(i.name))
}

/// The sectors list: one entry per sector with its station and trade counts, sorted by
/// name (case-insensitively, stably).
pub open spec fn sectors_list(
    sectors: Seq<SectorView>,
    trades: Map<Seq<char>, Seq<StationWareView>>,
    counts: Map<Seq<char>, StationCount>,
    fnames: Map<Seq<char>, Seq<char>>,
) -> Seq<SectorListItemView> {
    let items = sectors.map_values(|s: SectorView| list_item(s, trades, counts, fnames));
    reorder(items, sort_order(item_name_keys(items)))
}

fn count_trades(list: &StationWares) -> (r: (usize, usize))
    ensures
        r.0 == trade_count(list@, TradeType::Buy),
        r.1 == trade_count(list@, TradeType::Sell),
        r.0 + r.1 == list.items@.len(),
        r.0 + r.1 <= usize::MAX,
{
    let ghost lv = list@;
    let mut buys: usize = 0;
    let mut sells: usize = 0;
    let mut i: usize = 0;
    while i < list.items.len()
        invariant
            i <= list.items@.len(),
            lv == list@,
            buys == trade_count(lv.take(i as int), TradeType::Buy),
            sells == trade_count(lv.take(i as int), TradeType::Sell),
            buys + sells == i,
        decreases list.items.len() - i,
    {
        proof {
            assert(lv.take(i + 1).drop_last() =~= lv.take(i as int));
            assert(lv.take(i + 1).last() == list.items@[i as int]@);
        }
        match list.items[i].trade_type {
            TradeType::Buy => {
                buys += 1;
            },
            TradeType::Sell => {
                sells += 1;
            },
        }
        i += 1;
    }
    proof {
        assert(lv.take(list.items@.len() as int) =~= lv);
    }
    (buys, sells)
}

/// The owner's display name (faction name, else the owner id).
pub fn owner_display_of(owner: &Option<String>, faction_names: &StrMap<String>) -> (r: Option<String>)
    ensures
        opt_view(r) == owner_display(opt_view(*owner), faction_names@),
{
    match owner {
        Some(o) => Some(
            match faction_names.get(o.as_str()) {
                Some(n) => n.clone(),
                None => o.clone(),
            },
        ),
        None => None,
    }
}

/// The sectors list with its totals: for each sector its owner's name, station counts
/// and buy and sell offer counts, sorted by name case-insensitively; the totals count the
/// sectors, those the player owns, and all stations.
pub fn build_sectors_list(
    sectors: &[Sector],
    trades: &StrMap<StationWares>,
    counts: &StrMap<StationCount>,
    faction_names: &StrMap<String>,
) -> (r: SectorsListResponse)
    requires
        total_stations(sectors@.map_values(|s: Sector| s@), counts@) <= usize::MAX,
    ensures
        r.sectors@.map_values(|i: SectorListItem| i@) == sectors_list(
            sectors@.map_values(|s: Sector| s@),
            trades@,
            counts@,
            faction_names@,
        ),
        r.stats.total_sectors == sectors@.len(),
        r.stats.player_owned == player_owned(sectors@.map_values(|s: Sector| s@)),
        r.stats.discovered == sectors@.len(),
        r.stats.total_stations == total_stations(sectors@.map_values(|s: Sector| s@), counts@),
{
    let ghost sv = sectors@.map_values(|s: Sector| s@);
    let mut items: Vec<SectorListItem> = Vec::new();
    let mut keys: Vec<Vec<char>> = Vec::new();
    let mut total: usize = 0;
    let mut owned: usize = 0;
    let mut discovered: usize = 0;
    let mut i: usize = 0;
    while i < sectors.len()
        invariant
            i <= sectors@.len(),
            sv == sectors@.map_values(|s: Sector| s@),
            total_stations(sv, counts@) <= usize::MAX,
            items@.len() == i,
            keys@.len() == i,
            forall|j: int| 0 <= j < i ==> (#[trigger] items@[j])@ == list_item(sv[j], trades@, counts@, faction_names@),
            forall|j: int| 0 <= j < i ==> (#[trigger] keys@[j])@ == lower(items@[j]@.name),
            total == total_stations(sv.take(i as int), counts@),
            owned == player_owned(sv.take(i as int)),
            owned <= i,
            discovered == i,
        decreases sectors.len() - i,
    {
        let s = &sectors[i];
        proof {
            assert(sv.take(i + 1).drop_last() =~= sv.take(i as int));
            assert(sv.take(i + 1).last() == s@);
            lemma_total_prefix(sv, i + 1, counts@);
        }
        let (buys, sells) = match trades.get(s.code.as_str()) {
            Some(list) => {
                proof {
                    law_offer_counts_add_up(list@);
                }
                count_trades(list)
            },
            None => (0, 0),
        };
        let c: StationCount = match counts.get(s.code.as_str()) {
            Some(c) => *c,
            None => (0, 0),
        };
        total = total + c.0;
        let is_player = match &s.owner {
            Some(o) => str_eq(o.as_str(), "player"),
            None => false,
        };
        if is_player {
            owned = owned + 1;
        }
        discovered = discovered + 1;
        let item = SectorListItem {
            code: s.code.clone(),
            name: s.name.clone(),
            macro_name: s.macro_name.clone(),
            owner: copy_opt(&s.owner),
            owner_name: owner_display_of(&s.owner, faction_names),
            contested: false,
            station_count: c.0,
            player_stations: c.1,
            buy_offers: buys,
            sell_offers: sells,
            total_trades: buys + sells,
            resource_types: Vec::new(),
            discovered: true,
        };
        proof {
            assert(item.resource_types@.map_values(|s: String| s@) =~= Seq::<Seq<char>>::empty());
        }
        let k = to_lower(s.name.as_str());
        keys.push(chars_of(k.as_str()));
        items.push(item);
        i += 1;
    }
    proof {
        assert(sv.take(sectors@.len() as int) =~= sv);
        let iv = sv.map_values(|s: SectorView| list_item(s, trades@, counts@, faction_names@));
        assert(items@.map_values(|x: SectorListItem| x@) =~= iv);
        assert(keys_view(keys@) =~= item_name_keys(iv));
    }
    let sorted = sort_by_keys(items, keys.as_slice());
    proof {
        let iv = sv.map_values(|s: SectorView| list_item(s, trades@, counts@, faction_names@));
        crate::sorting::lemma_sort_order(item_name_keys(iv));
        assert(sorted@.map_values(|x: SectorListItem| x@) =~= reorder(iv, sort_order(item_name_keys(iv))));
    }
    SectorsListResponse {
        sectors: sorted,
        stats: SectorStats {
            total_sectors: sectors.len(),
            player_owned: owned,
            discovered,
            total_stations: total,
        },
    }
}

/// A prefix's total is at most the whole total.
proof fn lemma_total_prefix(sv: Seq<SectorView>, k: int, counts: Map<Seq<char>, StationCount>)
    requires
        0 <= k <= sv.len(),
    ensures
        total_stations(sv.take(k), counts) <= total_stations(sv, counts),
    decreases sv.len() - k,
{
    if k < sv.len() {
        lemma_total_prefix(sv, k + 1, counts);
        assert(sv.take(k + 1).drop_last() =~= sv.take(k));
    } else {
        assert(sv.take(k) =~= sv);
    }
}

/// The sectors list comes sorted by lower-cased name.
pub proof fn law_sectors_list_sorted(
    sectors: Seq<SectorView>,
    trades: Map<Seq<char>, Seq<StationWareView>>,
    counts: Map<Seq<char>, StationCount>,
    fnames: Map<Seq<char>, Seq<char>>,
)
    ensures
        ({
            let v = sectors_list(sectors, trades, counts, fnames);
            forall|i: int, j: int|
                0 <= i < j < v.len() ==> !crate::strmap::lex_lt(#[trigger] lower(v[j].name), #[trigger] lower(v[i].name))
        }),
{
    let items = sectors.map_values(|s: SectorView| list_item(s, trades, counts, fnames));
    let keys = item_name_keys(items);
    let o = sort_order(keys);
    crate::sorting::lemma_sort_order(keys);
    let v = reorder(items, o);
    assert forall|i: int, j: int| 0 <= i < j < v.len() implies !crate::strmap::lex_lt(
        #[trigger] lower(v[j].name),
        #[trigger] lower(v[i].name),
    ) by {
        assert(keys[o[j]] == lower(items[o[j]].name));
        assert(keys[o[i]] == lower(items[o[i]].name));
    }
}

} // verus!
