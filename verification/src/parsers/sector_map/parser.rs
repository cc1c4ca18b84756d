use vstd::prelude::*;
use crate::models::opt_view;
use crate::models::sector_detail::{OffsetTexts, OffsetView};
use crate::models::sector_map::{
    MapAsteroid, MapGate, MapObjects, MapResource, MapShip, MapStation, SectorMapData, SectorMapView,
};
use crate::parsers::game_xml::{LocView, Localization};
use crate::parsers::save_xml::helpers::map_get;
use crate::parsers::sector_map::component_processor::{
    component_end, last_component, objects_of, process_component_end, MapScan,
};
use crate::parsers::sector_map::types::{items_view, StackItem, StackItemView};
use crate::strmap::StrMap;
use crate::text::{owned, str_eq};
use crate::xml::{
    attr_map, attr_of, fold_events, lemma_fold_events_next, tokenize, views, xml_events, EventView,
    XmlEvent, XmlParseError,
};

verus! {

/// The position that a `position` tag gives: its `x`, `y`, `z` texts (0 where missing).
pub open spec fn position_of(attrs: Seq<(Seq<char>, Seq<char>)>) -> OffsetView {
    OffsetView { x: attr_of(attrs, "x"@), y: attr_of(attrs, "y"@), z: attr_of(attrs, "z"@) }
}

/// The position of the last item with tag `tag`.
pub open spec fn last_with_tag(stack: Seq<StackItemView>, tag: Seq<char>) -> Option<int>
    decreases stack.len(),
{
    if stack.len() == 0 {
        None
    } else if stack.last().tag == tag {
        Some(stack.len() - 1)
    } else {
        last_with_tag(stack.drop_last(), tag)
    }
}

pub open spec fn map_step(code: Seq<char>, cn: Map<Seq<char>, Seq<char>>, loc: LocView, st: MapScan, ev: EventView) -> MapScan {
    if st.failed {
        st
    } else {
        match ev {
            EventView::Start(e) => {
                let attrs = attr_map(e.attrs);
                let entering = e.name == "component"@ && map_get(attrs, "class"@) == Some("sector"@) && map_get(
                    attrs,
                    "code"@,
                ) == Some(code);
                let in_target = st.in_target || entering;
                if in_target {
                    MapScan {
                        in_target,
                        stack: st.stack.push(StackItemView { tag: e.name, attrs, position: None }),
                        ..st
                    }
                } else {
                    st
                }
            },
            EventView::Empty(e) => if st.in_target && e.name == "position"@ && st.stack.len() > 0 {
                match last_component(st.stack) {
                    Some(j) => MapScan {
                        stack: st.stack.update(
                            j,
                            StackItemView { position: Some(position_of(e.attrs)), ..st.stack[j] },
                        ),
                        ..st
                    },
                    None => st,
                }
            } else {
                st
            },
            EventView::End(n) => if st.in_target && n == "component"@ && st.stack.len() > 0 {
                component_end(code, cn, loc, st)
            } else if st.in_target && st.stack.len() > 0 {
                match last_with_tag(st.stack, n) {
                    Some(j) => MapScan { stack: st.stack.remove(j), ..st },
                    None => st,
                }
            } else {
                st
            },
            EventView::Error => MapScan { failed: true, ..st },
            _ => st,
        }
    }
}

pub open spec fn map_scan_start() -> MapScan {
    MapScan {
        in_target: false,
        stack: Seq::empty(),
        objects: MapObjects {
            stations: Seq::empty(),
            ships: Seq::empty(),
            gates: Seq::empty(),
            asteroids: Seq::empty(),
            resources: Seq::empty(),
        },
        failed: false,
    }
}

/// The map of sector `code` in a save, or `None` when the save does not parse.
pub open spec fn sector_map_in(
    evs: Seq<EventView>,
    code: Seq<char>,
    sn: Map<Seq<char>, Seq<char>>,
    cn: Map<Seq<char>, Seq<char>>,
    loc: LocView,
    owner: Option<Seq<char>>,
) -> Option<SectorMapView> {
    let st = fold_events(evs, map_scan_start(), |s: MapScan, e: EventView| map_step(code, cn, loc, s, e));
    if st.failed {
        None
    } else {
        Some(
            SectorMapView {
                sector_code: code,
                sector_name: match map_get(sn, code) {
                    Some(n) => n,
                    None => code,
                },
                owner,
                objects: st.objects,
            },
        )
    }
}

fn last_with_tag_exec(stack: &Vec<StackItem>, tag: &str) -> (r: Option<usize>)
    ensures
        match r {
            Some(i) => last_with_tag(items_view(stack@), tag@) == Some(i as int) && i < stack@.len(),
            None => last_with_tag(items_view(stack@), tag@) is None,
        },
{
    let ghost sv = items_view(stack@);
    let mut i = stack.len();
    proof {
        assert(sv.take(i as int) =~= sv);
    }
    while i > 0
        invariant
            i <= stack@.len(),
            sv == items_view(stack@),
            last_with_tag(sv, tag@) == last_with_tag(sv.take(i as int), tag@),
        decreases i,
    {
        proof {
            assert(sv.take(i as int).last() == stack@[i - 1]@);
            assert(sv.take(i as int).drop_last() =~= sv.take(i - 1));
        }
        if str_eq(stack[i - 1].tag.as_str(), tag) {
            return Some(i - 1);
        }
        i -= 1;
    }
    None
}

fn last_component_index(stack: &Vec<StackItem>) -> (r: Option<usize>)
    ensures
        match r {
            Some(i) => last_component(items_view(stack@)) == Some(i as int) && i < stack@.len(),
            None => last_component(items_view(stack@)) is None,
        },
{
    let ghost sv = items_view(stack@);
    let mut i = stack.len();
    proof {
        assert(sv.take(i as int) =~= sv);
    }
    while i > 0
        invariant
            i <= stack@.len(),
            sv == items_view(stack@),
            last_component(sv) == last_component(sv.take(i as int)),
        decreases i,
    {
        proof {
            assert(sv.take(i as int).last() == stack@[i - 1]@);
            assert(sv.take(i as int).drop_last() =~= sv.take(i - 1));
        }
        if str_eq(stack[i - 1].tag.as_str(), "component") {
            return Some(i - 1);
        }
        i -= 1;
    }
    None
}

/// The map of a sector: the stations, ships, gates, asteroids and resource fields inside
/// sector `sector_code` of a save, with their positions, the sector's name (from
/// `sector_names` by code, else the code) and its owner as given. Fails when the save is
/// not well-formed XML.
pub fn extract_sector_map(
    xml_content: &str,
    sector_code: &str,
    sector_names: &StrMap<String>,
    component_names: &StrMap<String>,
    localization: &Localization,
    sector_owner: Option<String>,
) -> (r: Result<SectorMapData, XmlParseError>)
    ensures
        match r {
            Ok(m) => sector_map_in(
                xml_events(xml_content@),
                sector_code@,
                sector_names@,
                component_names@,
                localization@,
                opt_view(sector_owner),
            ) == Some(m@),
            Err(_) => sector_map_in(
                xml_events(xml_content@),
                sector_code@,
                sector_names@,
                component_names@,
                localization@,
                opt_view(sector_owner),
            ) is None,
        },
{
    let events = tokenize(xml_content);
    sector_map_from_events(events.as_slice(), sector_code, sector_names, component_names, localization, sector_owner)
}

/// The same as `extract_sector_map`, on the events of the text.
pub fn sector_map_from_events(
    events: &[XmlEvent],
    sector_code: &str,
    sector_names: &StrMap<String>,
    component_names: &StrMap<String>,
    localization: &Localization,
    sector_owner: Option<String>,
) -> (r: Result<SectorMapData, XmlParseError>)
    ensures
        match r {
            Ok(m) => sector_map_in(
                views(events@),
                sector_code@,
                sector_names@,
                component_names@,
                localization@,
                opt_view(sector_owner),
            ) == Some(m@),
            Err(_) => sector_map_in(
                views(events@),
                sector_code@,
                sector_names@,
                component_names@,
                localization@,
                opt_view(sector_owner),
            ) is None,
        },
{
    let ghost evs = views(events@);
    let ghost code = sector_code@;
    let ghost cn = component_names@;
    let ghost loc = localization@;
    let mut stations: Vec<MapStation> = Vec::new();
    let mut ships: Vec<MapShip> = Vec::new();
    let mut gates: Vec<MapGate> = Vec::new();
    let mut asteroids: Vec<MapAsteroid> = Vec::new();
    let mut resources: Vec<MapResource> = Vec::new();
    let mut in_target_sector = false;
    let mut stack: Vec<StackItem> = Vec::new();
    let mut failed = false;
    let mut i: usize = 0;
    proof {
        assert(items_view(stack@) =~= Seq::<StackItemView>::empty());
        let o = objects_of(stations@, ships@, gates@, asteroids@, resources@);
        assert(o.stations =~= Seq::<crate::models::sector_map::MapStationView>::empty());
        assert(o.ships =~= Seq::<crate::models::sector_map::MapShipView>::empty());
        assert(o.gates =~= Seq::<crate::models::sector_map::MapGateView>::empty());
        assert(o.asteroids =~= Seq::<crate::models::sector_map::MapAsteroidView>::empty());
        assert(o.resources =~= Seq::<crate::models::sector_map::MapResourceView>::empty());
    }
    while i < events.len()
        invariant
            i <= events@.len(),
            evs == views(events@),
            code == sector_code@,
            cn == component_names@,
            loc == localization@,
            fold_events(evs.take(i as int), map_scan_start(), |s: MapScan, e: EventView| map_step(code, cn, loc, s, e))
                == (MapScan {
                in_target: in_target_sector,
                stack: items_view(stack@),
                objects: objects_of(stations@, ships@, gates@, asteroids@, resources@),
                failed,
            }),
        decreases events.len() - i,
    {
        proof {
            lemma_fold_events_next(evs, i as int, map_scan_start(), |s: MapScan, e: EventView| map_step(code, cn, loc, s, e));
            assert(evs[i as int] == events@[i as int]@);
        }
        let ghost sv0 = items_view(stack@);
        if !failed {
            match &events[i] {
                XmlEvent::Start(e) => {
                    let attrs = e.attr_strmap();
                    if !in_target_sector && e.is("component") {
                        let entering = match (attrs.get("class"), attrs.get("code")) {
                            (Some(cl), Some(c)) => str_eq(cl.as_str(), "sector") && str_eq(c.as_str(), sector_code),
                            _ => false,
                        };
                        if entering {
                            in_target_sector = true;
                        }
                    }
                    if in_target_sector {
                        stack.push(StackItem { tag: e.name.clone(), attrs, position: None });
                        proof {
                            assert(items_view(stack@) =~= sv0.push(stack@.last()@));
                        }
                    }
                },
                XmlEvent::Empty(e) => {
                    if in_target_sector && e.is("position") && stack.len() > 0 {
                        match last_component_index(&stack) {
                            Some(j) => {
                                let mut item = stack.remove(j);
                                item.position = Some(
                                    OffsetTexts { x: e.attr_string("x"), y: e.attr_string("y"), z: e.attr_string("z") },
                                );
                                stack.insert(j, item);
                                proof {
                                    assert(items_view(stack@) =~= sv0.update(
                                        j as int,
                                        StackItemView { position: Some(position_of(e@.attrs)), ..sv0[j as int] },
                                    ));
                                }
                            },
                            None => {},
                        }
                    }
                },
                XmlEvent::End(n) => {
                    if in_target_sector && str_eq(n.as_str(), "component") && stack.len() > 0 {
                        process_component_end(
                            &mut stack,
                            sector_code,
                            component_names,
                            localization,
                            &mut stations,
                            &mut ships,
                            &mut gates,
                            &mut asteroids,
                            &mut resources,
                            &mut in_target_sector,
                        );
                    } else if in_target_sector && stack.len() > 0 {
                        match last_with_tag_exec(&stack, n.as_str()) {
                            Some(j) => {
                                stack.remove(j);
                                proof {
                                    assert(items_view(stack@) =~= sv0.remove(j as int));
                                }
                            },
                            None => {},
                        }
                    }
                },
                XmlEvent::Error => {
                    failed = true;
                },
                _ => {},
            }
        }
        i += 1;
    }
    proof {
        assert(evs.take(events@.len() as int) =~= evs);
    }
    if failed {
        return Err(XmlParseError);
    }
    let sector_name = match sector_names.get(sector_code) {
        Some(n) => n.clone(),
        None => owned(sector_code),
    };
    Ok(
        SectorMapData {
            sector_code: owned(sector_code),
            sector_name,
            owner: sector_owner,
            stations,
            ships,
            gates,
            asteroids,
            resources,
        },
    )
}

} // verus!
