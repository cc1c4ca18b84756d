use vstd::prelude::*;
use crate::models::assets::{PlayerNpc, PlayerNpcView};
use crate::models::{copy_opt, opt_view};
use crate::numbers::{parse_i32, parse_i32_chars};
use crate::parsers::game_xml::{clean_name, cleaned, resolve_name, resolved_name, LocView, Localization};
use crate::parsers::save_xml::helpers::map_get;
use crate::strmap::StrMap;
use crate::text::{chars_of, str_eq};
use crate::xml::{
    attr_map, fold_events, lemma_fold_events_next, tokenize, views, xml_events, EventView,
    XmlEvent, XmlParseError,
};

verus! {

/// State of the NPC scan: the NPC being read (id, name, code), its skills, whether the
/// scan is inside its traits, and the NPCs found.
pub struct NpcScan {
    pub id: Option<Seq<char>>,
    pub name: Option<Seq<char>>,
    pub code: Option<Seq<char>>,
    pub skills: Map<Seq<char>, i32>,
    pub in_traits: bool,
    pub npcs: Seq<PlayerNpcView>,
    pub failed: bool,
}

/// A skill value, 0 when not given.
pub open spec fn skill(skills: Map<Seq<char>, i32>, k: Seq<char>) -> i32 {
    if skills.contains_key(k) {
        skills[k]
    } else {
        0
    }
}

/// Whether a component is an NPC of the player.
pub open spec fn is_player_npc(attrs: Map<Seq<char>, Seq<char>>) -> bool {
    map_get(attrs, "class"@) == Some("npc"@) && map_get(attrs, "owner"@) == Some("player"@)
}

/// A `skill` inside the traits of the NPC being read sets the skill of its type to its
/// value, when that reads as an `i32`.
pub open spec fn read_skill(st: NpcScan, attrs: Map<Seq<char>, Seq<char>>) -> NpcScan {
    if st.in_traits && st.id is Some {
        match (map_get(attrs, "type"@), map_get(attrs, "value"@)) {
            (Some(t), Some(v)) => match parse_i32(v) {
                Some(n) => NpcScan { skills: st.skills.insert(t, n as i32), ..st },
                None => st,
            },
            _ => st,
        }
    } else {
        st
    }
}

pub open spec fn npc_step(loc: LocView, st: NpcScan, ev: EventView) -> NpcScan {
    if st.failed {
        st
    } else {
        match ev {
            EventView::Start(e) => {
                let attrs = attr_map(e.attrs);
                if e.name == "component"@ {
                    if is_player_npc(attrs) {
                        NpcScan {
                            id: map_get(attrs, "id"@),
                            code: map_get(attrs, "code"@),
                            name: match map_get(attrs, "name"@) {
                                Some(nr) => Some(cleaned(resolved_name(nr, loc))),
                                None => st.name,
                            },
                            skills: Map::empty(),
                            ..st
                        }
                    } else {
                        st
                    }
                } else if e.name == "traits"@ {
                    NpcScan { in_traits: st.id is Some, ..st }
                } else if e.name == "skill"@ {
                    read_skill(st, attrs)
                } else {
                    st
                }
            },
            EventView::Empty(e) => {
                let attrs = attr_map(e.attrs);
                if e.name == "component"@ {
                    if is_player_npc(attrs) && map_get(attrs, "id"@) is Some && map_get(attrs, "name"@) is Some {
                        NpcScan {
                            npcs: st.npcs.push(
                                PlayerNpcView {
                                    id: map_get(attrs, "id"@).unwrap(),
                                    name: cleaned(resolved_name(map_get(attrs, "name"@).unwrap(), loc)),
                                    code: map_get(attrs, "code"@),
                                    piloting: 0,
                                    engineering: 0,
                                    boarding: 0,
                                    management: 0,
                                    morale: 0,
                                },
                            ),
                            ..st
                        }
                    } else {
                        st
                    }
                } else if e.name == "skill"@ {
                    read_skill(st, attrs)
                } else {
                    st
                }
            },
            EventView::End(n) => {
                let st1 = if n == "traits"@ { NpcScan { in_traits: false, ..st } } else { st };
                if n == "component"@ {
                    match (st1.id, st1.name) {
                        (Some(id), Some(name)) => NpcScan {
                            id: None,
                            name: None,
                            code: None,
                            skills: Map::empty(),
                            npcs: st1.npcs.push(
                                PlayerNpcView {
                                    id,
                                    name,
                                    code: st1.code,
                                    piloting: skill(st1.skills, "piloting"@),
                                    engineering: skill(st1.skills, "engineering"@),
                                    boarding: skill(st1.skills, "boarding"@),
                                    management: skill(st1.skills, "management"@),
                                    morale: skill(st1.skills, "morale"@),
                                },
                            ),
                            ..st1
                        },
                        _ => NpcScan { id: None, name: None, skills: Map::empty(), ..st1 },
                    }
                } else {
                    st1
                }
            },
            EventView::Error => NpcScan { failed: true, ..st },
            _ => st,
        }
    }
}

/// A `skill` element read inside the traits of the NPC being read records, under its own
/// type, the value it gives when that reads as an `i32`; the other skills stay as they
/// were.
pub proof fn law_skill_recorded(st: NpcScan, attrs: Map<Seq<char>, Seq<char>>, k: Seq<char>)
    ensures
        ({
            let r = read_skill(st, attrs);
            &&& (st.in_traits && st.id is Some && map_get(attrs, "type"@) == Some(k) && map_get(attrs, "value"@) is Some
                && parse_i32(map_get(attrs, "value"@).unwrap()) is Some) ==> skill(r.skills, k) == parse_i32(
                map_get(attrs, "value"@).unwrap(),
            ).unwrap()
            &&& map_get(attrs, "type"@) != Some(k) ==> skill(r.skills, k) == skill(st.skills, k)
            &&& r.npcs == st.npcs
        }),
{
}

/// The end of the component of an NPC being read, with an id and a name, lists it once:
/// with that id, name and code, and each of its five skills the value recorded under the
/// skill's own name (`piloting`, `engineering`, `boarding`, `management`, `morale`),
/// 0 when none was; the NPCs listed before stay as they were.
pub proof fn law_npc_listed_with_its_skills(loc: LocView, st: NpcScan)
    requires
        !st.failed,
        st.id is Some,
        st.name is Some,
    ensures
        ({
            let r = npc_step(loc, st, EventView::End("component"@));
            let n = r.npcs.last();
            &&& r.npcs.len() == st.npcs.len() + 1
            &&& r.npcs.drop_last() == st.npcs
            &&& n.id == st.id.unwrap()
            &&& n.name == st.name.unwrap()
            &&& n.code == st.code
            &&& n.piloting == (if st.skills.contains_key("piloting"@) { st.skills["piloting"@] } else { 0i32 })
            &&& n.engineering == (if st.skills.contains_key("engineering"@) { st.skills["engineering"@] } else { 0i32 })
            &&& n.boarding == (if st.skills.contains_key("boarding"@) { st.skills["boarding"@] } else { 0i32 })
            &&& n.management == (if st.skills.contains_key("management"@) { st.skills["management"@] } else { 0i32 })
            &&& n.morale == (if st.skills.contains_key("morale"@) { st.skills["morale"@] } else { 0i32 })
        }),
{
    let r = npc_step(loc, st, EventView::End("component"@));
    assert(r.npcs.drop_last() =~= st.npcs);
}

pub open spec fn npc_scan_start() -> NpcScan {
    NpcScan {
        id: None,
        name: None,
        code: None,
        skills: Map::empty(),
        in_traits: false,
        npcs: Seq::empty(),
        failed: false,
    }
}

/// The player's NPCs in a save with their skills, or `None` when it does not parse.
pub open spec fn npcs_in(evs: Seq<EventView>, loc: LocView) -> Option<Seq<PlayerNpcView>> {
    let st = fold_events(evs, npc_scan_start(), |s: NpcScan, e: EventView| npc_step(loc, s, e));
    if st.failed {
        None
    } else {
        Some(st.npcs)
    }
}

pub open spec fn npcs_view(v: Seq<PlayerNpc>) -> Seq<PlayerNpcView> {
    v.map_values(|n: PlayerNpc| n@)
}

fn skill_of(skills: &StrMap<i32>, k: &str) -> (r: i32)
    ensures
        r == skill(skills@, k@),
{
    match skills.get(k) {
        Some(v) => *v,
        None => 0,
    }
}

fn read_skill_exec(skills: &mut StrMap<i32>, attrs: &StrMap<String>)
    ensures
        final(skills)@ == match (map_get(attrs@, "type"@), map_get(attrs@, "value"@)) {
            (Some(t), Some(v)) => match parse_i32(v) {
                Some(n) => old(skills)@.insert(t, n as i32),
                None => old(skills)@,
            },
            _ => old(skills)@,
        },
{
    match (attrs.get("type"), attrs.get("value")) {
        (Some(t), Some(v)) => {
            let vc = chars_of(v.as_str());
            match parse_i32_chars(vc.as_slice()) {
                Some(n) => {
                    skills.insert(t.clone(), n);
                },
                None => {},
            }
        },
        _ => {},
    }
}

/// The player's NPCs in a save, in the order their components end (or appear, for empty
/// tags): id, cleaned name, code and the piloting, engineering, boarding, management and
/// morale skills (0 when not given). Fails when the save is not well-formed XML.
pub fn extract_player_npcs(xml: &str, localization: &Localization) -> (r: Result<Vec<PlayerNpc>, XmlParseError>)
    ensures
        match r {
            Ok(v) => npcs_in(xml_events(xml@), localization@) == Some(npcs_view(v@)),
            Err(_) => npcs_in(xml_events(xml@), localization@) is None,
        },
{
    let events = tokenize(xml);
    npcs_from_events(events.as_slice(), localization)
}

/// The same as `extract_player_npcs`, on the events of the text.
pub fn npcs_from_events(events: &[XmlEvent], localization: &Localization) -> (r: Result<Vec<PlayerNpc>, XmlParseError>)
    ensures
        match r {
            Ok(v) => npcs_in(views(events@), localization@) == Some(npcs_view(v@)),
            Err(_) => npcs_in(views(events@), localization@) is None,
        },
{
    let ghost evs = views(events@);
    let ghost loc = localization@;
    let mut npcs: Vec<PlayerNpc> = Vec::new();
    let mut current_id: Option<String> = None;
    let mut current_name: Option<String> = None;
    let mut current_code: Option<String> = None;
    let mut skills: StrMap<i32> = StrMap::new();
    let mut in_traits = false;
    let mut failed = false;
    let mut i: usize = 0;
    proof {
        assert(npcs_view(npcs@) =~= Seq::<PlayerNpcView>::empty());
    }
    while i < events.len()
        invariant
            i <= events@.len(),
            evs == views(events@),
            loc == localization@,
            fold_events(evs.take(i as int), npc_scan_start(), |s: NpcScan, e: EventView| npc_step(loc, s, e))
                == (NpcScan {
                id: opt_view(current_id),
                name: opt_view(current_name),
                code: opt_view(current_code),
                skills: skills@,
                in_traits,
                npcs: npcs_view(npcs@),
                failed,
            }),
        decreases events.len() - i,
    {
        proof {
            lemma_fold_events_next(evs, i as int, npc_scan_start(), |s: NpcScan, e: EventView| npc_step(loc, s, e));
            assert(evs[i as int] == events@[i as int]@);
        }
        let ghost nv0 = npcs_view(npcs@);
        if !failed {
            match &events[i] {
                XmlEvent::Start(e) => {
                    let attrs = e.attr_strmap();
                    if e.is("component") {
                        let is_npc = match (attrs.get("class"), attrs.get("owner")) {
                            (Some(c), Some(o)) => str_eq(c.as_str(), "npc") && str_eq(o.as_str(), "player"),
                            _ => false,
                        };
                        if is_npc {
                            current_id = match attrs.get("id") {
                                Some(x) => Some(x.clone()),
                                None => None,
                            };
                            current_code = match attrs.get("code") {
                                Some(x) => Some(x.clone()),
                                None => None,
                            };
                            match attrs.get("name") {
                                Some(nr) => {
                                    let resolved = resolve_name(nr.as_str(), localization);
                                    current_name = Some(clean_name(resolved.as_str()));
                                },
                                None => {},
                            }
                            skills = StrMap::new();
                        }
                    } else if e.is("traits") {
                        in_traits = current_id.is_some();
                    } else if e.is("skill") && in_traits && current_id.is_some() {
                        read_skill_exec(&mut skills, &attrs);
                    }
                },
                XmlEvent::Empty(e) => {
                    let attrs = e.attr_strmap();
                    if e.is("component") {
                        let is_npc = match (attrs.get("class"), attrs.get("owner")) {
                            (Some(c), Some(o)) => str_eq(c.as_str(), "npc") && str_eq(o.as_str(), "player"),
                            _ => false,
                        };
                        if is_npc {
                            match (attrs.get("id"), attrs.get("name")) {
                                (Some(id), Some(nr)) => {
                                    let resolved = resolve_name(nr.as_str(), localization);
                                    let name = clean_name(resolved.as_str());
                                    let code = match attrs.get("code") {
                                        Some(x) => Some(x.clone()),
                                        None => None,
                                    };
                                    npcs.push(
                                        PlayerNpc {
                                            id: id.clone(),
                                            name,
                                            code,
                                            piloting: 0,
                                            engineering: 0,
                                            boarding: 0,
                                            management: 0,
                                            morale: 0,
                                        },
                                    );
                                    proof {
                                        assert(npcs_view(npcs@) =~= nv0.push(npcs@.last()@));
                                    }
                                },
                                _ => {},
                            }
                        }
                    } else if e.is("skill") && in_traits && current_id.is_some() {
                        read_skill_exec(&mut skills, &attrs);
                    }
                },
                XmlEvent::End(n) => {
                    if str_eq(n.as_str(), "traits") {
                        in_traits = false;
                    }
                    if str_eq(n.as_str(), "component") {
                        let id = current_id;
                        let name = current_name;
                        current_id = None;
                        current_name = None;
                        match (id, name) {
                            (Some(id), Some(name)) => {
                                let code = current_code;
                                current_code = None;
                                let npc = PlayerNpc {
                                    id,
                                    name,
                                    code,
                                    piloting: skill_of(&skills, "piloting"),
                                    engineering: skill_of(&skills, "engineering"),
                                    boarding: skill_of(&skills, "boarding"),
                                    management: skill_of(&skills, "management"),
                                    morale: skill_of(&skills, "morale"),
                                };
                                npcs.push(npc);
                                proof {
                                    assert(npcs_view(npcs@) =~= nv0.push(npcs@.last()@));
                                }
                            },
                            _ => {},
                        }
                        skills = StrMap::new();
                    }
                },
                XmlEvent::Error => {
                    failed = true;
                },
                _ => {},
            }
        }
        i += 1;
    }
    proof {
        assert(evs.take(events@.len() as int) =~= evs);
    }
    if failed {
        Err(XmlParseError)
    } else {
        Ok(npcs)
    }
}

} // verus!
