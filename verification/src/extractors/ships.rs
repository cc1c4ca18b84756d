use vstd::prelude::*;
use crate::extractors::wares::contents_of;
use crate::parsers::cat_dat::XmlEntry;
use crate::models::ship::{texts_view, ShipMeta, ShipMetaView};
use crate::numbers::parse_i32;
use crate::strmap::StrMap;
use crate::text::{
    chars_of, contains, contains_chars, lower, owned, starts_with, starts_with_chars, str_eq,
    to_lower,
};
use crate::xml::{
    attr_of, fold_events, lemma_fold_events_next, tokenize, views, xml_events, EventView,
    XmlAttr, XmlElement, XmlEvent,
};

verus! {

pub open spec fn empty_meta() -> ShipMetaView {
    ShipMetaView { cargo_capacity: None, cargo_type: None, speed_texts: Seq::empty() }
}

pub open spec fn is_cargo_key(k: Seq<char>) -> bool {
    k == "capacity"@ || k == "max"@ || k == "maxcargo"@
}

pub open spec fn is_type_key(k: Seq<char>) -> bool {
    k == "tags"@ || k == "cargo"@ || k == "type"@
}

pub open spec fn is_speed_key(k: Seq<char>) -> bool {
    k == "maxspeed"@ || k == "speed"@
}

/// The cargo type that a lower-cased tag text mentions, if any.
pub open spec fn cargo_type_named(lv: Seq<char>) -> Option<Seq<char>> {
    if contains(lv, "container"@) {
        Some("Container"@)
    } else if contains(lv, "solid"@) {
        Some("Solid"@)
    } else if contains(lv, "liquid"@) {
        Some("Liquid"@)
    } else if contains(lv, "energy"@) {
        Some("Energy"@)
    } else {
        None
    }
}

/// The last capacity attribute that reads as an `i32`.
pub open spec fn cargo_candidate(attrs: Seq<(Seq<char>, Seq<char>)>) -> Option<int>
    decreases attrs.len(),
{
    if attrs.len() == 0 {
        None
    } else if is_cargo_key(attrs.last().0) && parse_i32(attrs.last().1).is_some() {
        parse_i32(attrs.last().1)
    } else {
        cargo_candidate(attrs.drop_last())
    }
}

/// The last type attribute that names a cargo type.
pub open spec fn type_candidate(attrs: Seq<(Seq<char>, Seq<char>)>) -> Option<Seq<char>>
    decreases attrs.len(),
{
    if attrs.len() == 0 {
        None
    } else if is_type_key(attrs.last().0) && cargo_type_named(lower(attrs.last().1)).is_some() {
        cargo_type_named(lower(attrs.last().1))
    } else {
        type_candidate(attrs.drop_last())
    }
}

/// The texts of the speed attributes, in order.
pub open spec fn speed_candidates(attrs: Seq<(Seq<char>, Seq<char>)>) -> Seq<Seq<char>>
    decreases attrs.len(),
{
    if attrs.len() == 0 {
        Seq::empty()
    } else if is_speed_key(attrs.last().0) {
        speed_candidates(attrs.drop_last()).push(attrs.last().1)
    } else {
        speed_candidates(attrs.drop_last())
    }
}

/// What one element inside a ship macro adds to its facts: the largest capacity so far
/// (starting from 0), the last named cargo type, and the element's speed texts.
pub open spec fn probe(meta: ShipMetaView, attrs: Seq<(Seq<char>, Seq<char>)>) -> ShipMetaView {
    let cap = match cargo_candidate(attrs) {
        Some(n) => {
            let cur = match meta.cargo_capacity {
                Some(c) => c,
                None => 0,
            };
            Some(if cur >= n { cur } else { n })
        },
        None => meta.cargo_capacity,
    };
    let ty = match type_candidate(attrs) {
        Some(t) => Some(t),
        None => meta.cargo_type,
    };
    let sp = speed_candidates(attrs);
    ShipMetaView {
        cargo_capacity: cap,
        cargo_type: ty,
        speed_texts: if sp.len() > 0 { meta.speed_texts.push(sp) } else { meta.speed_texts },
    }
}

/// The cargo type a lower-cased tag text names: "Container" when it mentions
/// `container`, else "Solid" for `solid`, else "Liquid" for `liquid`, else "Energy" for
/// `energy`, else none. The four words give four different types.
pub proof fn law_cargo_type_named(lv: Seq<char>)
    ensures
        contains(lv, "container"@) ==> cargo_type_named(lv) == Some("Container"@),
        !contains(lv, "container"@) && contains(lv, "solid"@) ==> cargo_type_named(lv) == Some("Solid"@),
        !contains(lv, "container"@) && !contains(lv, "solid"@) && contains(lv, "liquid"@) ==> cargo_type_named(lv)
            == Some("Liquid"@),
        !contains(lv, "container"@) && !contains(lv, "solid"@) && !contains(lv, "liquid"@) && contains(
            lv,
            "energy"@,
        ) ==> cargo_type_named(lv) == Some("Energy"@),
        !contains(lv, "container"@) && !contains(lv, "solid"@) && !contains(lv, "liquid"@) && !contains(
            lv,
            "energy"@,
        ) ==> cargo_type_named(lv) is None,
{
}

/// An element inside a ship macro whose type attributes name a cargo type sets the
/// macro's cargo type to the one its last such attribute names; the capacity never goes
/// down, and becomes at least the last readable capacity attribute.
pub proof fn law_probe_cargo(meta: ShipMetaView, attrs: Seq<(Seq<char>, Seq<char>)>)
    ensures
        type_candidate(attrs) is Some ==> probe(meta, attrs).cargo_type == type_candidate(attrs),
        type_candidate(attrs) is None ==> probe(meta, attrs).cargo_type == meta.cargo_type,
        attrs.len() > 0 && is_type_key(attrs.last().0) && cargo_type_named(lower(attrs.last().1)) is Some
            ==> probe(meta, attrs).cargo_type == cargo_type_named(lower(attrs.last().1)),
        meta.cargo_capacity matches Some(c) ==> probe(meta, attrs).cargo_capacity matches Some(d) && d >= c,
        cargo_candidate(attrs) matches Some(n) ==> probe(meta, attrs).cargo_capacity matches Some(d) && d >= n,
{
}

pub struct ShipScan {
    pub current: Option<Seq<char>>,
    pub meta: ShipMetaView,
    pub out: Map<Seq<char>, ShipMetaView>,
}

pub open spec fn ship_step(st: ShipScan, ev: EventView) -> ShipScan {
    match ev {
        EventView::Start(e) => if e.name == "macro"@ {
            match attr_of(e.attrs, "name"@) {
                Some(n) => if starts_with(n, "ship_"@) {
                    ShipScan { current: Some(n), meta: empty_meta(), ..st }
                } else {
                    ShipScan { current: None, ..st }
                },
                None => st,
            }
        } else if st.current.is_some() {
            ShipScan { meta: probe(st.meta, e.attrs), ..st }
        } else {
            st
        },
        EventView::Empty(e) => if e.name != "macro"@ && st.current.is_some() {
            ShipScan { meta: probe(st.meta, e.attrs), ..st }
        } else {
            st
        },
        EventView::End(name) => if name == "macro"@ {
            match st.current {
                Some(n) => ShipScan {
                    current: None,
                    meta: empty_meta(),
                    out: st.out.insert(lower(n), st.meta),
                },
                None => st,
            }
        } else {
            st
        },
        _ => st,
    }
}

pub open spec fn ship_scan(evs: Seq<EventView>) -> ShipScan {
    fold_events(
        evs,
        ShipScan { current: None, meta: empty_meta(), out: Map::empty() },
        |s: ShipScan, e: EventView| ship_step(s, e),
    )
}

/// Ship macro facts by lower-cased macro name, from one event stream.
pub open spec fn ships_in(evs: Seq<EventView>) -> Map<Seq<char>, ShipMetaView> {
    ship_scan(evs).out
}

fn cargo_type_of(v: &str) -> (r: Option<String>)
    ensures
        match r {
            Some(t) => cargo_type_named(lower(v@)) == Some(t@),
            None => cargo_type_named(lower(v@)).is_none(),
        },
{
    let l = chars_of(to_lower(v).as_str());
    let w1 = chars_of("container");
    let w2 = chars_of("solid");
    let w3 = chars_of("liquid");
    let w4 = chars_of("energy");
    if contains_chars(l.as_slice(), w1.as_slice()) {
        Some(owned("Container"))
    } else if contains_chars(l.as_slice(), w2.as_slice()) {
        Some(owned("Solid"))
    } else if contains_chars(l.as_slice(), w3.as_slice()) {
        Some(owned("Liquid"))
    } else if contains_chars(l.as_slice(), w4.as_slice()) {
        Some(owned("Energy"))
    } else {
        None
    }
}

fn key_in(k: &str, a: &str, b: &str, c: &str) -> (r: bool)
    ensures
        r == (k@ == a@ || k@ == b@ || k@ == c@),
{
    str_eq(k, a) || str_eq(k, b) || str_eq(k, c)
}

fn probe_exec(meta: &mut ShipMeta, e: &XmlElement)
    ensures
        final(meta)@ == probe(old(meta)@, e@.attrs),
{
    let ghost attrs = e@.attrs;
    let mut local_cargo: Option<i32> = None;
    let mut local_type: Option<String> = None;
    let mut local_speed: Vec<String> = Vec::new();
    let mut i: usize = 0;
    while i < e.attrs.len()
        invariant
            i <= e.attrs@.len(),
            attrs == e@.attrs,
            match local_cargo {
                Some(n) => cargo_candidate(attrs.take(i as int)) == Some(n as int),
                None => cargo_candidate(attrs.take(i as int)).is_none(),
            },
            match local_type {
                Some(t) => type_candidate(attrs.take(i as int)) == Some(t@),
                None => type_candidate(attrs.take(i as int)).is_none(),
            },
            texts_view(local_speed) == speed_candidates(attrs.take(i as int)),
        decreases e.attrs.len() - i,
    {
        let a: &XmlAttr = &e.attrs[i];
        proof {
            assert(attrs.take(i + 1).drop_last() =~= attrs.take(i as int));
            assert(attrs.take(i + 1).last() == (a.key@, a.value@));
        }
        let k = a.key.as_str();
        if key_in(k, "capacity", "max", "maxcargo") {
            let vc = chars_of(a.value.as_str());
            match crate::numbers::parse_i32_chars(vc.as_slice()) {
                Some(n) => {
                    local_cargo = Some(n);
                },
                None => {},
            }
        }
        if key_in(k, "tags", "cargo", "type") {
            match cargo_type_of(a.value.as_str()) {
                Some(t) => {
                    local_type = Some(t);
                },
                None => {},
            }
        }
        if str_eq(k, "maxspeed") || str_eq(k, "speed") {
            let ghost before = texts_view(local_speed);
            local_speed.push(a.value.clone());
            proof {
                assert(texts_view(local_speed) =~= before.push(a.value@));
            }
        }
        i += 1;
    }
    proof {
        assert(attrs.take(e.attrs@.len() as int) =~= attrs);
    }
    match local_cargo {
        Some(n) => {
            let cur = match meta.cargo_capacity {
                Some(c) => c,
                None => 0,
            };
            meta.cargo_capacity = Some(if cur >= n { cur } else { n });
        },
        None => {},
    }
    match local_type {
        Some(t) => {
            meta.cargo_type = Some(t);
        },
        None => {},
    }
    if local_speed.len() > 0 {
        let ghost before = meta@.speed_texts;
        meta.speed_texts.push(local_speed);
        proof {
            assert(meta@.speed_texts =~= before.push(speed_candidates(attrs)));
        }
    }
}

/// Ship macro facts from the events of one file, keyed by lower-cased macro name.
pub fn ships_from_events(events: &[XmlEvent]) -> (m: StrMap<ShipMeta>)
    ensures
        m@ == ships_in(views(events@)),
{
    let ghost evs = views(events@);
    let mut out: StrMap<ShipMeta> = StrMap::new();
    let mut current: Option<String> = None;
    let mut meta = ShipMeta { cargo_capacity: None, cargo_type: None, speed_texts: Vec::new() };
    let mut i: usize = 0;
    proof {
        assert(meta@.speed_texts =~= Seq::<Seq<Seq<char>>>::empty());
        assert(ship_scan(evs.take(0)) == ShipScan { current: None, meta: empty_meta(), out: Map::empty() });
    }
    while i < events.len()
        invariant
            i <= events@.len(),
            evs == views(events@),
            ship_scan(evs.take(i as int)) == (ShipScan {
                current: match current {
                    Some(c) => Some(c@),
                    None => None,
                },
                meta: meta@,
                out: out@,
            }),
        decreases events.len() - i,
    {
        proof {
            lemma_fold_events_next(
                evs,
                i as int,
                ShipScan { current: None, meta: empty_meta(), out: Map::empty() },
                |s: ShipScan, e: EventView| ship_step(s, e),
            );
            assert(evs[i as int] == events@[i as int]@);
        }
        match &events[i] {
            XmlEvent::Start(e) => {
                if e.is("macro") {
                    match e.attr("name") {
                        Some(n) => {
                            let nc = chars_of(n.as_str());
                            let prefix = chars_of("ship_");
                            if starts_with_chars(nc.as_slice(), prefix.as_slice()) {
                                current = Some(n.clone());
                                meta = ShipMeta { cargo_capacity: None, cargo_type: None, speed_texts: Vec::new() };
                                proof {
                                    assert(meta@.speed_texts =~= Seq::<Seq<Seq<char>>>::empty());
                                }
                            } else {
                                current = None;
                            }
                        },
                        None => {},
                    }
                } else if current.is_some() {
                    probe_exec(&mut meta, e);
                }
            },
            XmlEvent::Empty(e) => {
                if !e.is("macro") && current.is_some() {
                    probe_exec(&mut meta, e);
                }
            },
            XmlEvent::End(name) => {
                if str_eq(name.as_str(), "macro") {
                    match current {
                        Some(n) => {
                            let key = to_lower(n.as_str());
                            let mut done = ShipMeta { cargo_capacity: None, cargo_type: None, speed_texts: Vec::new() };
                            std::mem::swap(&mut meta, &mut done);
                            out.insert(key, done);
                            current = None;
                            proof {
                                assert(meta@.speed_texts =~= Seq::<Seq<Seq<char>>>::empty());
                            }
                        },
                        None => {},
                    }
                }
            },
            _ => {},
        }
        i += 1;
    }
    proof {
        assert(evs.take(events@.len() as int) =~= evs);
    }
    out
}

/// Ship macro facts from one XML file, keyed by lower-cased macro name.
pub fn extract_ships_from_xml(xml: &str) -> (m: StrMap<ShipMeta>)
    ensures
        m@ == ships_in(xml_events(xml@)),
{
    let events = tokenize(xml);
    ships_from_events(events.as_slice())
}

/// Ship facts from a list of file contents, the first file to describe a macro winning.
pub open spec fn ships_of_files(contents: Seq<Seq<char>>) -> Map<Seq<char>, ShipMetaView>
    decreases contents.len(),
{
    if contents.len() == 0 {
        Map::empty()
    } else {
        ships_in(xml_events(contents.last())).union_prefer_right(ships_of_files(contents.drop_last()))
    }
}

/// Ship macro metadata (cargo capacity and type, speed texts) from XML files; where
/// several files describe one macro, the first one counts.
pub fn extract_ships(xml_entries: &[XmlEntry]) -> (m: StrMap<ShipMeta>)
    ensures
        m@ == ships_of_files(contents_of(xml_entries@)),
{
    let ghost cs = contents_of(xml_entries@);
    let mut ships: StrMap<ShipMeta> = StrMap::new();
    let mut i: usize = 0;
    while i < xml_entries.len()
        invariant
            i <= xml_entries@.len(),
            cs == contents_of(xml_entries@),
            ships@ == ships_of_files(cs.take(i as int)),
        decreases xml_entries.len() - i,
    {
        let extracted = extract_ships_from_xml(xml_entries[i].content.as_str());
        ships.merge_absent(extracted);
        proof {
            assert(cs.take(i + 1).drop_last() =~= cs.take(i as int));
            assert(cs.take(i + 1).last() == xml_entries@[i as int].content@);
        }
        i += 1;
    }
    proof {
        assert(cs.take(xml_entries@.len() as int) =~= cs);
    }
    ships
}

} // verus!
