use vstd::prelude::*;
use crate::models::{Sector, SectorView};
use crate::parsers::game_xml::{LocView, Localization};
use crate::sorting::{keys_view, reorder, sort_by_keys, sort_order};
use crate::strmap::StrMap;
use crate::text::{chars_of, lower, to_lower};
use crate::xml::xml_events;

pub mod fallback;
pub mod parser;

use self::fallback::{fallback_scan, fallback_sectors};
use self::parser::{parse_sectors, sectors_in, SectorLookups};

verus! {

/// The sort key of a sector: its lower-cased name.
pub open spec fn sector_sort_keys(s: Seq<SectorView>) -> Seq<Seq<char>> {
    s.map_values(|x: SectorView| lower(x.name))
}

/// The sectors of a save, sorted: those of the universe tree, or, when it has none, every
/// sector component found; then stably sorted by lower-cased name.
pub open spec fn save_sectors(evs: Seq<crate::xml::EventView>, lk: SectorLookups) -> Option<Seq<SectorView>> {
    match sectors_in(evs, lk) {
        Some(found) => {
            let all = if found.len() == 0 {
                fallback_sectors(evs, SectorLookups { loc: Map::empty(), ..lk })
            } else {
                found
            };
            Some(reorder(all, sort_order(sector_sort_keys(all))))
        },
        None => None,
    }
}

pub open spec fn sectors_view(v: Seq<Sector>) -> Seq<SectorView> {
    v.map_values(|s: Sector| s@)
}

/// The sectors of a save, sorted by name (case-insensitively, keeping the found order
/// among equal names): those of the sector scan, which names a sector by a pending
/// identification, its code, its macro or else the code; only when that scan finds none,
/// those of the plain scan of every sector component (see `save_sectors`). Fails when
/// the save is not well-formed XML, wherever the error stands.
pub fn extract_sectors(
    xml_content: &str,
    sector_names: &StrMap<String>,
    component_names: &StrMap<String>,
    sector_code_names: &StrMap<String>,
    localization: &Localization,
) -> (r: Result<Vec<Sector>, crate::xml::XmlParseError>)
    ensures
        ({
            let lk = SectorLookups {
                sector_names: sector_names@,
                component_names: component_names@,
                sector_code_names: sector_code_names@,
                loc: localization@,
            };
            match r {
                Ok(v) => save_sectors(xml_events(xml_content@), lk) == Some(sectors_view(v@)),
                Err(_) => save_sectors(xml_events(xml_content@), lk) is None,
            }
        }),
{
    let ghost lk = SectorLookups {
        sector_names: sector_names@,
        component_names: component_names@,
        sector_code_names: sector_code_names@,
        loc: localization@,
    };
    let mut sectors = match parse_sectors(xml_content, sector_names, component_names, sector_code_names, localization) {
        Ok(v) => v,
        Err(e) => {
            return Err(e);
        },
    };
    if sectors.len() == 0 {
        sectors = fallback_scan(xml_content, sector_names, component_names, sector_code_names);
    }
    let ghost all = sectors_view(sectors@);
    let mut keys: Vec<Vec<char>> = Vec::new();
    let mut i: usize = 0;
    while i < sectors.len()
        invariant
            i <= sectors@.len(),
            all == sectors_view(sectors@),
            keys@.len() == i,
            forall|j: int| 0 <= j < i ==> (#[trigger] keys@[j])@ == lower(all[j].name),
        decreases sectors.len() - i,
    {
        let k = to_lower(sectors[i].name.as_str());
        keys.push(chars_of(k.as_str()));
        i += 1;
    }
    proof {
        assert(keys_view(keys@) =~= sector_sort_keys(all));
    }
    let sorted = sort_by_keys(sectors, keys.as_slice());
    proof {
        let o = sort_order(sector_sort_keys(all));
        crate::sorting::lemma_sort_order(sector_sort_keys(all));
        assert(sectors_view(sorted@) =~= reorder(all, o));
    }
    Ok(sorted)
}

/// The sectors of a save come sorted by lower-cased name.
pub proof fn law_sectors_sorted(evs: Seq<crate::xml::EventView>, lk: SectorLookups)
    ensures
        match save_sectors(evs, lk) {
            Some(v) => forall|i: int, j: int|
                0 <= i < j < v.len() ==> !crate::strmap::lex_lt(#[trigger] lower(v[j].name), #[trigger] lower(v[i].name)),
            None => true,
        },
{
    match sectors_in(evs, lk) {
        Some(found) => {
            let all = if found.len() == 0 {
                fallback_sectors(evs, SectorLookups { loc: Map::empty(), ..lk })
            } else {
                found
            };
            let keys = sector_sort_keys(all);
            let o = sort_order(keys);
            crate::sorting::lemma_sort_order(keys);
            let v = reorder(all, o);
            assert forall|i: int, j: int| 0 <= i < j < v.len() implies !crate::strmap::lex_lt(
                #[trigger] lower(v[j].name),
                #[trigger] lower(v[i].name),
            ) by {
                assert(keys[o[j]] == lower(all[o[j]].name));
                assert(keys[o[i]] == lower(all[o[i]].name));
            }
        },
        None => {},
    }
}

/// The sectors of a save list each sector code once.
pub proof fn law_saved_sector_codes_distinct(evs: Seq<crate::xml::EventView>, lk: SectorLookups)
    ensures
        match save_sectors(evs, lk) {
            Some(v) => forall|i: int, j: int| 0 <= i < j < v.len() ==> #[trigger] v[i].code != #[trigger] v[j].code,
            None => true,
        },
{
    match sectors_in(evs, lk) {
        Some(found) => {
            let flk = SectorLookups { loc: Map::empty(), ..lk };
            let all = if found.len() == 0 {
                fallback_sectors(evs, flk)
            } else {
                found
            };
            self::parser::law_sector_codes_distinct(evs, lk);
            self::fallback::law_fallback_codes_distinct(evs, flk);
            let keys = sector_sort_keys(all);
            let o = sort_order(keys);
            crate::sorting::lemma_sort_order(keys);
            let v = reorder(all, o);
            assert forall|i: int, j: int| 0 <= i < j < v.len() implies #[trigger] v[i].code != #[trigger] v[j].code by {
                assert(v[i] == all[o[i]]);
                assert(v[j] == all[o[j]]);
                assert(o[i] != o[j]);
                if o[i] < o[j] {
                    assert(all[o[i]].code != all[o[j]].code);
                } else {
                    assert(all[o[j]].code != all[o[i]].code);
                }
            }
        },
        None => {},
    }
}

} // verus!
