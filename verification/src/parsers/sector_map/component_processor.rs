use vstd::prelude::*;
use crate::models::opt_view;
use crate::models::sector_detail::{OffsetTexts, OffsetView};
use crate::models::sector_map::{
    MapAsteroid, MapAsteroidView, MapGate, MapGateView, MapObjects, MapResource, MapResourceView,
    MapShip, MapShipView, MapStation, MapStationView,
};
use crate::parsers::game_xml::{LocView, Localization};
use crate::parsers::save_xml::helpers::map_get;
use crate::parsers::sector_map::helpers::{get_station_name, map_object_name};
use crate::parsers::sector_map::types::{items_view, StackItem, StackItemView};
use crate::strmap::StrMap;
use crate::text::{contains, str_contains, str_eq};

verus! {

/// The position of the innermost `component` on the stack.
pub open spec fn last_component(stack: Seq<StackItemView>) -> Option<int>
    decreases stack.len(),
{
    if stack.len() == 0 {
        None
    } else if stack.last().tag == "component"@ {
        Some(stack.len() - 1)
    } else {
        last_component(stack.drop_last())
    }
}

pub open spec fn zero_offset() -> OffsetView {
    OffsetView { x: None, y: None, z: None }
}

/// The value of `k`, or the empty text.
pub open spec fn attr_or_empty(attrs: Map<Seq<char>, Seq<char>>, k: Seq<char>) -> Seq<char> {
    match map_get(attrs, k) {
        Some(v) => v,
        None => Seq::empty(),
    }
}

/// Where a finished component goes on the map, by the connection it hangs from, its
/// class and its macro.
pub open spec fn add_object(
    objs: MapObjects,
    conn: Option<Seq<char>>,
    attrs: Map<Seq<char>, Seq<char>>,
    pos: OffsetView,
    cn: Map<Seq<char>, Seq<char>>,
    loc: LocView,
) -> MapObjects {
    let code = attr_or_empty(attrs, "code"@);
    let class = attr_or_empty(attrs, "class"@);
    let m = attr_or_empty(attrs, "macro"@);
    let owner = map_get(attrs, "owner"@);
    if conn == Some("stations"@) && class == "station"@ {
        MapObjects {
            stations: objs.stations.push(
                MapStationView { name: map_object_name(attrs, cn, loc), code, owner, position: pos, macro_name: m },
            ),
            ..objs
        }
    } else if conn == Some("ships"@) && class == "ship"@ {
        MapObjects {
            ships: objs.ships.push(
                MapShipView {
                    name: match map_get(attrs, "name"@) {
                        Some(n) => n,
                        None => code,
                    },
                    code,
                    owner,
                    position: pos,
                    class: m,
                    macro_name: m,
                },
            ),
            ..objs
        }
    } else if class == "gate"@ {
        MapObjects {
            gates: objs.gates.push(
                MapGateView {
                    name: map_object_name(attrs, cn, loc),
                    code,
                    position: pos,
                    destination: map_get(attrs, "destination"@),
                },
            ),
            ..objs
        }
    } else if contains(m, "asteroid"@) {
        MapObjects { asteroids: objs.asteroids.push(MapAsteroidView { code, position: pos, macro_name: m }), ..objs }
    } else if contains(m, "resource"@) || contains(m, "gas"@) || contains(m, "nebula"@) {
        MapObjects {
            resources: objs.resources.push(
                MapResourceView {
                    name: map_object_name(attrs, cn, loc),
                    code,
                    position: pos,
                    resource_type: class,
                    macro_name: m,
                },
            ),
            ..objs
        }
    } else {
        objs
    }
}

/// State of the sector map scan.
pub struct MapScan {
    pub in_target: bool,
    pub stack: Seq<StackItemView>,
    pub objects: MapObjects,
    pub failed: bool,
}

/// The end of a component: the innermost component leaves the stack; leaving the mapped
/// sector ends the mapping, a wreck is passed over, anything else is placed on the map.
pub open spec fn component_end(code: Seq<char>, cn: Map<Seq<char>, Seq<char>>, loc: LocView, st: MapScan) -> MapScan {
    match last_component(st.stack) {
        None => st,
        Some(idx) => {
            let comp = st.stack[idx];
            let stack = st.stack.remove(idx);
            if map_get(comp.attrs, "class"@) == Some("sector"@) && map_get(comp.attrs, "code"@) == Some(code) {
                MapScan { in_target: false, stack, ..st }
            } else if map_get(comp.attrs, "state"@) == Some("wreck"@) {
                MapScan { stack, ..st }
            } else {
                let conn = if idx > 0 && stack[idx - 1].tag == "connection"@ {
                    map_get(stack[idx - 1].attrs, "connection"@)
                } else {
                    None
                };
                let pos = match comp.position {
                    Some(p) => p,
                    None => zero_offset(),
                };
                MapScan { stack, objects: add_object(st.objects, conn, comp.attrs, pos, cn, loc), ..st }
            }
        },
    }
}

/// Whatever `add_object` places on the map carries the position it is given: each list
/// keeps what it held and gains at most one object, at most one list gains one, and a
/// gained object has position `pos`.
pub proof fn law_object_placed_at_its_position(
    objs: MapObjects,
    conn: Option<Seq<char>>,
    attrs: Map<Seq<char>, Seq<char>>,
    pos: OffsetView,
    cn: Map<Seq<char>, Seq<char>>,
    loc: LocView,
)
    ensures
        ({
            let r = add_object(objs, conn, attrs, pos, cn, loc);
            &&& r.stations.len() <= objs.stations.len() + 1 && r.stations.take(objs.stations.len() as int) == objs.stations
            &&& r.ships.len() <= objs.ships.len() + 1 && r.ships.take(objs.ships.len() as int) == objs.ships
            &&& r.gates.len() <= objs.gates.len() + 1 && r.gates.take(objs.gates.len() as int) == objs.gates
            &&& r.asteroids.len() <= objs.asteroids.len() + 1 && r.asteroids.take(objs.asteroids.len() as int)
                == objs.asteroids
            &&& r.resources.len() <= objs.resources.len() + 1 && r.resources.take(objs.resources.len() as int)
                == objs.resources
            &&& (r.stations.len() - objs.stations.len()) + (r.ships.len() - objs.ships.len()) + (r.gates.len()
                - objs.gates.len()) + (r.asteroids.len() - objs.asteroids.len()) + (r.resources.len()
                - objs.resources.len()) <= 1
            &&& r.stations.len() > objs.stations.len() ==> r.stations.last().position == pos
            &&& r.ships.len() > objs.ships.len() ==> r.ships.last().position == pos
            &&& r.gates.len() > objs.gates.len() ==> r.gates.last().position == pos
            &&& r.asteroids.len() > objs.asteroids.len() ==> r.asteroids.last().position == pos
            &&& r.resources.len() > objs.resources.len() ==> r.resources.last().position == pos
        }),
{
    assert(objs.stations.take(objs.stations.len() as int) =~= objs.stations);
    assert(objs.ships.take(objs.ships.len() as int) =~= objs.ships);
    assert(objs.gates.take(objs.gates.len() as int) =~= objs.gates);
    assert(objs.asteroids.take(objs.asteroids.len() as int) =~= objs.asteroids);
    assert(objs.resources.take(objs.resources.len() as int) =~= objs.resources);
    let r = add_object(objs, conn, attrs, pos, cn, loc);
    assert(r.stations.take(objs.stations.len() as int) =~= objs.stations);
    assert(r.ships.take(objs.ships.len() as int) =~= objs.ships);
    assert(r.gates.take(objs.gates.len() as int) =~= objs.gates);
    assert(r.asteroids.take(objs.asteroids.len() as int) =~= objs.asteroids);
    assert(r.resources.take(objs.resources.len() as int) =~= objs.resources);
}

/// The end of a component placed on the map puts it at the position read from that
/// component's own offset, or at the zero offset when it has none.
pub proof fn law_component_placed_at_own_offset(code: Seq<char>, cn: Map<Seq<char>, Seq<char>>, loc: LocView, st: MapScan)
    requires
        last_component(st.stack) is Some,
    ensures
        ({
            let comp = st.stack[last_component(st.stack).unwrap()];
            let p = match comp.position {
                Some(q) => q,
                None => OffsetView { x: None, y: None, z: None },
            };
            let r = component_end(code, cn, loc, st);
            &&& r.objects.stations.len() > st.objects.stations.len() ==> r.objects.stations.last().position == p
            &&& r.objects.ships.len() > st.objects.ships.len() ==> r.objects.ships.last().position == p
            &&& r.objects.gates.len() > st.objects.gates.len() ==> r.objects.gates.last().position == p
            &&& r.objects.asteroids.len() > st.objects.asteroids.len() ==> r.objects.asteroids.last().position == p
            &&& r.objects.resources.len() > st.objects.resources.len() ==> r.objects.resources.last().position == p
        }),
{
    let idx = last_component(st.stack).unwrap();
    let comp = st.stack[idx];
    let stack = st.stack.remove(idx);
    let conn = if idx > 0 && stack[idx - 1].tag == "connection"@ {
        map_get(stack[idx - 1].attrs, "connection"@)
    } else {
        None
    };
    let pos = match comp.position {
        Some(q) => q,
        None => zero_offset(),
    };
    law_object_placed_at_its_position(st.objects, conn, comp.attrs, pos, cn, loc);
}

pub open spec fn objects_of(
    stations: Seq<MapStation>,
    ships: Seq<MapShip>,
    gates: Seq<MapGate>,
    asteroids: Seq<MapAsteroid>,
    resources: Seq<MapResource>,
) -> MapObjects {
    MapObjects {
        stations: stations.map_values(|s: MapStation| s@),
        ships: ships.map_values(|s: MapShip| s@),
        gates: gates.map_values(|s: MapGate| s@),
        asteroids: asteroids.map_values(|s: MapAsteroid| s@),
        resources: resources.map_values(|s: MapResource| s@),
    }
}

fn last_component_exec(stack: &Vec<StackItem>) -> (r: Option<usize>)
    ensures
        match r {
            Some(i) => last_component(items_view(stack@)) == Some(i as int) && i < stack@.len(),
            None => last_component(items_view(stack@)) is None,
        },
{
    let ghost sv = items_view(stack@);
    let mut i = stack.len();
    proof {
        assert(sv.take(i as int) =~= sv);
    }
    while i > 0
        invariant
            i <= stack@.len(),
            sv == items_view(stack@),
            last_component(sv) == last_component(sv.take(i as int)),
        decreases i,
    {
        proof {
            assert(sv.take(i as int).last() == stack@[i - 1]@);
            assert(sv.take(i as int).drop_last() =~= sv.take(i - 1));
        }
        if str_eq(stack[i - 1].tag.as_str(), "component") {
            return Some(i - 1);
        }
        i -= 1;
    }
    None
}

fn copy_offset(o: &OffsetTexts) -> (r: OffsetTexts)
    ensures
        r@ == o@,
{
    OffsetTexts { x: crate::models::copy_opt(&o.x), y: crate::models::copy_opt(&o.y), z: crate::models::copy_opt(&o.z) }
}

fn attr_or_empty_exec(attrs: &StrMap<String>, k: &str) -> (r: String)
    ensures
        r@ == attr_or_empty(attrs@, k@),
{
    match attrs.get(k) {
        Some(v) => v.clone(),
        None => String::new(),
    }
}

/// Handles the end of a component inside the mapped sector (see `component_end`).
pub fn process_component_end(
    stack: &mut Vec<StackItem>,
    sector_code: &str,
    component_names: &StrMap<String>,
    localization: &Localization,
    stations: &mut Vec<MapStation>,
    ships: &mut Vec<MapShip>,
    gates: &mut Vec<MapGate>,
    asteroids: &mut Vec<MapAsteroid>,
    resources: &mut Vec<MapResource>,
    in_target_sector: &mut bool,
)
    ensures
        ({
            let before = MapScan {
                in_target: *old(in_target_sector),
                stack: items_view(old(stack)@),
                objects: objects_of(old(stations)@, old(ships)@, old(gates)@, old(asteroids)@, old(resources)@),
                failed: false,
            };
            let after = component_end(sector_code@, component_names@, localization@, before);
            &&& *final(in_target_sector) == after.in_target
            &&& items_view(final(stack)@) == after.stack
            &&& objects_of(final(stations)@, final(ships)@, final(gates)@, final(asteroids)@, final(resources)@)
                == after.objects
        }),
{
    let ghost sv = items_view(stack@);
    let idx = match last_component_exec(stack) {
        Some(i) => i,
        None => {
            return;
        },
    };
    let comp = stack.remove(idx);
    proof {
        assert(items_view(stack@) =~= sv.remove(idx as int));
        assert(comp@ == sv[idx as int]);
    }
    let is_target = match (comp.attrs.get("class"), comp.attrs.get("code")) {
        (Some(cl), Some(c)) => str_eq(cl.as_str(), "sector") && str_eq(c.as_str(), sector_code),
        _ => false,
    };
    if is_target {
        *in_target_sector = false;
        return;
    }
    let is_wreck = match comp.attrs.get("state") {
        Some(s) => str_eq(s.as_str(), "wreck"),
        None => false,
    };
    if is_wreck {
        return;
    }
    let conn: Option<String> = if idx > 0 && str_eq(stack[idx - 1].tag.as_str(), "connection") {
        match stack[idx - 1].attrs.get("connection") {
            Some(c) => Some(c.clone()),
            None => None,
        }
    } else {
        None
    };
    proof {
        if idx > 0 {
            assert(items_view(stack@)[idx - 1] == stack@[idx - 1]@);
        }
    }
    let pos = match &comp.position {
        Some(p) => copy_offset(p),
        None => OffsetTexts { x: None, y: None, z: None },
    };
    let code = attr_or_empty_exec(&comp.attrs, "code");
    let class = attr_or_empty_exec(&comp.attrs, "class");
    let m = attr_or_empty_exec(&comp.attrs, "macro");
    let owner = match comp.attrs.get("owner") {
        Some(o) => Some(o.clone()),
        None => None,
    };
    let conn_is = |c: &Option<String>, w: &str| -> (b: bool)
        ensures
            b == (opt_view(*c) == Some(w@)),
        {
            match c {
                Some(s) => str_eq(s.as_str(), w),
                None => false,
            }
        };
    let ghost objs0 = objects_of(stations@, ships@, gates@, asteroids@, resources@);
    if conn_is(&conn, "stations") && str_eq(class.as_str(), "station") {
        let name = get_station_name(&comp.attrs, component_names, localization);
        stations.push(MapStation { name, code, owner, position: pos, macro_name: m });
        proof {
            assert(objects_of(stations@, ships@, gates@, asteroids@, resources@).stations =~= objs0.stations.push(
                stations@.last()@,
            ));
        }
    } else if conn_is(&conn, "ships") && str_eq(class.as_str(), "ship") {
        let name = match comp.attrs.get("name") {
            Some(n) => n.clone(),
            None => code.clone(),
        };
        ships.push(MapShip { name, code, owner, position: pos, class: m.clone(), macro_name: m });
        proof {
            assert(objects_of(stations@, ships@, gates@, asteroids@, resources@).ships =~= objs0.ships.push(
                ships@.last()@,
            ));
        }
    } else if str_eq(class.as_str(), "gate") {
        let name = get_station_name(&comp.attrs, component_names, localization);
        let destination = match comp.attrs.get("destination") {
            Some(d) => Some(d.clone()),
            None => None,
        };
        gates.push(MapGate { name, code, position: pos, destination });
        proof {
            assert(objects_of(stations@, ships@, gates@, asteroids@, resources@).gates =~= objs0.gates.push(
                gates@.last()@,
            ));
        }
    } else if str_contains(m.as_str(), "asteroid") {
        asteroids.push(MapAsteroid { code, position: pos, macro_name: m });
        proof {
            assert(objects_of(stations@, ships@, gates@, asteroids@, resources@).asteroids =~= objs0.asteroids.push(
                asteroids@.last()@,
            ));
        }
    } else if str_contains(m.as_str(), "resource") || str_contains(m.as_str(), "gas") || str_contains(
        m.as_str(),
        "nebula",
    ) {
        let name = get_station_name(&comp.attrs, component_names, localization);
        resources.push(MapResource { name, code, position: pos, resource_type: class, macro_name: m });
        proof {
            assert(objects_of(stations@, ships@, gates@, asteroids@, resources@).resources =~= objs0.resources.push(
                resources@.last()@,
            ));
        }
    }
}

} // verus!
