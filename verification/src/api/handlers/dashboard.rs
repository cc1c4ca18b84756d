use vstd::prelude::*;
use crate::api::handlers::sectors::{owner_display, owner_display_of, sector_counts};
use crate::models::assets::{PlayerAsset, PlayerAssetView};
use crate::models::dashboard::{DashboardPlayer, DashboardSector, DashboardSectorView, DashboardStats};
use crate::models::pilot::PilotInfo;
use crate::models::{copy_opt, opt_view, Sector, SectorView};
use crate::parsers::save_xml::stations::StationCount;
use crate::sorting::{reorder, sort_by_keys_with, sort_order_by, strict_weak_order};
use crate::strmap::StrMap;
use crate::text::{contains, str_contains, str_eq};

verus! {

/// The number of assets whose class mentions `ship`.
pub open spec fn ship_count(assets: Seq<PlayerAssetView>) -> nat
    decreases assets.len(),
{
    if assets.len() == 0 {
        0
    } else {
        ship_count(assets.drop_last()) + if contains(assets.last().class, "ship"@) { 1nat } else { 0nat }
    }
}

/// The number of assets of class `station`.
pub open spec fn station_count(assets: Seq<PlayerAssetView>) -> nat
    decreases assets.len(),
{
    if assets.len() == 0 {
        0
    } else {
        station_count(assets.drop_last()) + if assets.last().class == "station"@ { 1nat } else { 0nat }
    }
}

/// The dashboard's counts: sectors, the player's stations and ships, and NPCs.
pub fn dashboard_stats(sector_count: usize, assets: &[PlayerAsset], npc_count: usize) -> (r: DashboardStats)
    ensures
        r.sectors == sector_count,
        r.stations == station_count(assets@.map_values(|a: PlayerAsset| a@)),
        r.ships == ship_count(assets@.map_values(|a: PlayerAsset| a@)),
        r.npcs == npc_count,
{
    let ghost av = assets@.map_values(|a: PlayerAsset| a@);
    let mut ships: usize = 0;
    let mut stations: usize = 0;
    let mut i: usize = 0;
    while i < assets.len()
        invariant
            i <= assets@.len(),
            av == assets@.map_values(|a: PlayerAsset| a@),
            ships == ship_count(av.take(i as int)),
            stations == station_count(av.take(i as int)),
            ships <= i,
            stations <= i,
        decreases assets.len() - i,
    {
        proof {
            assert(av.take(i + 1).drop_last() =~= av.take(i as int));
            assert(av.take(i + 1).last() == assets@[i as int]@);
        }
        if str_contains(assets[i].class.as_str(), "ship") {
            ships += 1;
        }
        if str_eq(assets[i].class.as_str(), "station") {
            stations += 1;
        }
        i += 1;
    }
    proof {
        assert(av.take(assets@.len() as int) =~= av);
    }
    DashboardStats { sectors: sector_count, stations, ships, npcs: npc_count }
}

/// The player as the dashboard shows them (no game time is read).
pub fn dashboard_player(pilot: &PilotInfo) -> (r: DashboardPlayer)
    ensures
        r.name@ == pilot.name@,
        r.money == pilot.credits,
        opt_view(r.location) == opt_view(pilot.location),
        r.game_time == 0,
{
    DashboardPlayer { name: pilot.name.clone(), money: pilot.credits, location: copy_opt(&pilot.location), game_time: 0 }
}

/// More stations first.
pub open spec fn more_stations() -> spec_fn(usize, usize) -> bool {
    |a: usize, b: usize| a > b
}

/// The summary entry of a sector.
pub open spec fn summary_of(
    s: SectorView,
    counts: Map<Seq<char>, StationCount>,
    fnames: Map<Seq<char>, Seq<char>>,
) -> DashboardSectorView {
    let c = sector_counts(counts, s.code);
    DashboardSectorView {
        code: s.code,
        name: s.name,
        owner: s.owner,
        owner_name: owner_display(s.owner, fnames),
        station_count: c.0,
        player_stations: c.1,
    }
}

/// The ten sectors with the most stations (stably, so the first found among equals), with
/// their owners' names and station counts.
pub open spec fn sector_summary(
    sectors: Seq<SectorView>,
    counts: Map<Seq<char>, StationCount>,
    fnames: Map<Seq<char>, Seq<char>>,
) -> Seq<DashboardSectorView> {
    let items = sectors.map_values(|s: SectorView| summary_of(s, counts, fnames));
    let sorted = reorder(items, sort_order_by(items.map_values(|i: DashboardSectorView| i.station_count), more_stations()));
    if sorted.len() > 10 { sorted.take(10) } else { sorted }
}

proof fn lemma_more_stations()
    ensures
        strict_weak_order(more_stations()),
{
}

/// The dashboard's sector summary (see `sector_summary`).
pub fn build_sector_summary(
    sectors: &[Sector],
    counts: &StrMap<StationCount>,
    faction_names: &StrMap<String>,
) -> (r: Vec<DashboardSector>)
    ensures
        r@.map_values(|d: DashboardSector| d@) == sector_summary(
            sectors@.map_values(|s: Sector| s@),
            counts@,
            faction_names@,
        ),
{
    let ghost sv = sectors@.map_values(|s: Sector| s@);
    let mut items: Vec<DashboardSector> = Vec::new();
    let mut keys: Vec<usize> = Vec::new();
    let mut i: usize = 0;
    while i < sectors.len()
        invariant
            i <= sectors@.len(),
            sv == sectors@.map_values(|s: Sector| s@),
            items@.len() == i,
            keys@.len() == i,
            forall|j: int| 0 <= j < i ==> (#[trigger] items@[j])@ == summary_of(sv[j], counts@, faction_names@),
            forall|j: int| 0 <= j < i ==> #[trigger] keys@[j] == items@[j]@.station_count,
        decreases sectors.len() - i,
    {
        let s = &sectors[i];
        let c: StationCount = match counts.get(s.code.as_str()) {
            Some(c) => *c,
            None => (0, 0),
        };
        let d = DashboardSector {
            code: s.code.clone(),
            name: s.name.clone(),
            owner: copy_opt(&s.owner),
            owner_name: owner_display_of(&s.owner, faction_names),
            station_count: c.0,
            player_stations: c.1,
        };
        keys.push(c.0);
        items.push(d);
        i += 1;
    }
    let ghost iv = sv.map_values(|s: SectorView| summary_of(s, counts@, faction_names@));
    proof {
        assert(items@.map_values(|x: DashboardSector| x@) =~= iv);
        assert(crate::sorting::views_of(keys@) =~= iv.map_values(|i: DashboardSectorView| i.station_count));
        lemma_more_stations();
    }
    let more = |a: &usize, b: &usize| -> (r: bool)
        ensures
            r == (*a > *b),
        { *a > *b };
    let mut sorted = sort_by_keys_with(items, keys.as_slice(), &more, Ghost(more_stations()));
    proof {
        let kv = crate::sorting::views_of(keys@);
        let o = sort_order_by(kv, more_stations());
        crate::sorting::lemma_sort_order_by(kv, more_stations());
        assert(sorted@ == reorder(items@, o));
        let sv2 = sorted@.map_values(|x: DashboardSector| x@);
        let rv = reorder(iv, o);
        assert forall|j: int| 0 <= j < sorted@.len() implies #[trigger] sv2[j] == rv[j] by {
            assert(0 <= o[j] < iv.len());
        }
        assert(sv2 =~= rv);
    }
    let ghost full = sorted@.map_values(|x: DashboardSector| x@);
    if sorted.len() > 10 {
        sorted.truncate(10);
        proof {
            assert(sorted@.map_values(|x: DashboardSector| x@) =~= full.take(10));
        }
    }
    sorted
}

/// The sector summary holds at most ten sectors, those with more stations first.
pub proof fn law_sector_summary(
    sectors: Seq<SectorView>,
    counts: Map<Seq<char>, StationCount>,
    fnames: Map<Seq<char>, Seq<char>>,
)
    ensures
        ({
            let v = sector_summary(sectors, counts, fnames);
            &&& v.len() <= 10
            &&& forall|i: int, j: int| 0 <= i < j < v.len() ==> #[trigger] v[i].station_count >= #[trigger] v[j].station_count
        }),
{
    let items = sectors.map_values(|s: SectorView| summary_of(s, counts, fnames));
    let keys = items.map_values(|i: DashboardSectorView| i.station_count);
    let o = sort_order_by(keys, more_stations());
    lemma_more_stations();
    crate::sorting::lemma_sort_order_by(keys, more_stations());
    let sorted = reorder(items, o);
    assert forall|i: int, j: int| 0 <= i < j < sorted.len() implies #[trigger] sorted[i].station_count
        >= #[trigger] sorted[j].station_count by {
        assert(keys[o[j]] == items[o[j]].station_count);
        assert(keys[o[i]] == items[o[i]].station_count);
        assert(!more_stations()(keys[o[j]], keys[o[i]]));
    }
}

} // verus!
