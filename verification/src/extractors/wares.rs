use vstd::prelude::*;
use crate::models::{opt_view, TransportType, WareMeta, WareMetaView};
use crate::parsers::cat_dat::XmlEntry;
use crate::strmap::StrMap;
use crate::text::{lower, str_eq, to_lower};
use crate::xml::{
    attr_of, fold_events, lemma_fold_events_next, tokenize, views, xml_events, EventView,
    XmlEvent,
};

verus! {

/// The transport type that a lower-cased `transport` attribute names.
pub open spec fn transport_named(t: Seq<char>) -> Option<TransportType> {
    if t == "container"@ {
        Some(TransportType::Container)
    } else if t == "solid"@ {
        Some(TransportType::Solid)
    } else if t == "liquid"@ {
        Some(TransportType::Liquid)
    } else if t == "energy"@ {
        Some(TransportType::Energy)
    } else {
        None
    }
}

/// The ware that a `ware` element describes, when it has an id and a known transport.
pub open spec fn ware_of(attrs: Seq<(Seq<char>, Seq<char>)>) -> Option<WareMetaView> {
    let id = attr_of(attrs, "id"@);
    let transport = match attr_of(attrs, "transport"@) {
        Some(t) => transport_named(lower(t)),
        None => None,
    };
    if id.is_some() && transport.is_some() {
        Some(WareMetaView {
            id: id.unwrap(),
            transport: transport.unwrap(),
            volume: attr_of(attrs, "volume"@),
            name_ref: attr_of(attrs, "name"@),
        })
    } else {
        None
    }
}

/// One event of a ware file: a `ware` start or empty tag with an id and a known
/// transport sets that id.
pub open spec fn ware_step(m: Map<Seq<char>, WareMetaView>, ev: EventView) -> Map<Seq<char>, WareMetaView> {
    match ev {
        EventView::Start(e) => ware_element(m, e.name, e.attrs),
        EventView::Empty(e) => ware_element(m, e.name, e.attrs),
        _ => m,
    }
}

pub open spec fn ware_element(
    m: Map<Seq<char>, WareMetaView>,
    name: Seq<char>,
    attrs: Seq<(Seq<char>, Seq<char>)>,
) -> Map<Seq<char>, WareMetaView> {
    if name == "ware"@ {
        match ware_of(attrs) {
            Some(w) => m.insert(w.id, w),
            None => m,
        }
    } else {
        m
    }
}

/// The wares that an event stream describes.
pub open spec fn wares_in(evs: Seq<EventView>) -> Map<Seq<char>, WareMetaView> {
    fold_events(evs, Map::empty(), |m: Map<Seq<char>, WareMetaView>, e: EventView| ware_step(m, e))
}

fn transport_of(t: &str) -> (r: Option<TransportType>)
    ensures
        r == transport_named(lower(t@)),
{
    let l = to_lower(t);
    if str_eq(l.as_str(), "container") {
        Some(TransportType::Container)
    } else if str_eq(l.as_str(), "solid") {
        Some(TransportType::Solid)
    } else if str_eq(l.as_str(), "liquid") {
        Some(TransportType::Liquid)
    } else if str_eq(l.as_str(), "energy") {
        Some(TransportType::Energy)
    } else {
        None
    }
}

/// Ware metadata (transport type, volume, name reference) from the events of one file.
pub fn wares_from_events(events: &[XmlEvent]) -> (m: StrMap<WareMeta>)
    ensures
        m@ == wares_in(views(events@)),
{
    let ghost evs = views(events@);
    let mut m: StrMap<WareMeta> = StrMap::new();
    let mut i: usize = 0;
    while i < events.len()
        invariant
            i <= events@.len(),
            evs == views(events@),
            m@ == wares_in(evs.take(i as int)),
        decreases events.len() - i,
    {
        proof {
            lemma_fold_events_next(
                evs,
                i as int,
                Map::empty(),
                |m: Map<Seq<char>, WareMetaView>, e: EventView| ware_step(m, e),
            );
            assert(evs[i as int] == events@[i as int]@);
        }
        let ghost m0 = m@;
        match &events[i] {
            XmlEvent::Start(e) | XmlEvent::Empty(e) => {
                if e.is("ware") {
                    let id = e.attr("id");
                    let transport = match e.attr("transport") {
                        Some(t) => transport_of(t.as_str()),
                        None => None,
                    };
                    match (id, transport) {
                        (Some(id), Some(t)) => {
                            let w = WareMeta {
                                id: id.clone(),
                                transport: t,
                                volume: e.attr_string("volume"),
                                name_ref: e.attr_string("name"),
                            };
                            m.insert(id.clone(), w);
                        },
                        _ => {},
                    }
                }
            },
            _ => {},
        }
        assert(m@ == ware_step(m0, evs[i as int]));
        i += 1;
    }
    proof {
        assert(evs.take(events@.len() as int) =~= evs);
    }
    m
}

/// Ware metadata from one XML file.
pub fn extract_wares_from_xml(xml_content: &str) -> (m: StrMap<WareMeta>)
    ensures
        m@ == wares_in(xml_events(xml_content@)),
{
    let events = tokenize(xml_content);
    wares_from_events(events.as_slice())
}

/// Wares from a list of file contents, the first file to describe an id winning.
pub open spec fn wares_of_files(contents: Seq<Seq<char>>) -> Map<Seq<char>, WareMetaView>
    decreases contents.len(),
{
    if contents.len() == 0 {
        Map::empty()
    } else {
        wares_in(xml_events(contents.last())).union_prefer_right(wares_of_files(contents.drop_last()))
    }
}

/// The contents of a list of entries.
pub open spec fn contents_of(entries: Seq<XmlEntry>) -> Seq<Seq<char>> {
    entries.map_values(|e: XmlEntry| e.content@)
}

/// Extracts ware metadata (transport type, volume) from XML files; where several files
/// describe one ware id, the first one counts.
pub fn extract_wares(xml_entries: &[XmlEntry]) -> (m: StrMap<WareMeta>)
    ensures
        m@ == wares_of_files(contents_of(xml_entries@)),
{
    let ghost cs = contents_of(xml_entries@);
    let mut wares: StrMap<WareMeta> = StrMap::new();
    let mut i: usize = 0;
    while i < xml_entries.len()
        invariant
            i <= xml_entries@.len(),
            cs == contents_of(xml_entries@),
            wares@ == wares_of_files(cs.take(i as int)),
        decreases xml_entries.len() - i,
    {
        let extracted = extract_wares_from_xml(xml_entries[i].content.as_str());
        wares.merge_absent(extracted);
        proof {
            assert(cs.take(i + 1).drop_last() =~= cs.take(i as int));
            assert(cs.take(i + 1).last() == xml_entries@[i as int].content@);
        }
        i += 1;
    }
    proof {
        assert(cs.take(xml_entries@.len() as int) =~= cs);
    }
    wares
}

} // verus!
