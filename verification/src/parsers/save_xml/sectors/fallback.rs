use vstd::prelude::*;
use crate::models::{Sector, SectorView};
use crate::parsers::save_xml::sectors::parser::{chosen_name, chosen_name_of, has_attr_value, SectorLookups};
use crate::strmap::StrMap;
use crate::xml::{
    attr_of, fold_events, lemma_fold_events_next, tokenize, views, xml_events, EventView,
    XmlElement, XmlEvent,
};

verus! {

/// State of the fallback scan: codes seen and sectors listed.
pub struct FallbackScan {
    pub seen: Set<Seq<char>>,
    pub sectors: Seq<SectorView>,
}

pub open spec fn fallback_element(lk: SectorLookups, st: FallbackScan, attrs: Seq<(Seq<char>, Seq<char>)>) -> FallbackScan {
    if has_attr_value(attrs, "class"@, "sector"@) {
        match (attr_of(attrs, "code"@), attr_of(attrs, "macro"@)) {
            (Some(c), Some(m)) => if st.seen.contains(c) {
                st
            } else {
                FallbackScan {
                    seen: st.seen.insert(c),
                    sectors: st.sectors.push(
                        SectorView { code: c, macro_name: m, name: chosen_name(None, c, m, lk), owner: None },
                    ),
                }
            },
            _ => st,
        }
    } else {
        st
    }
}

pub open spec fn fallback_step(lk: SectorLookups, st: FallbackScan, ev: EventView) -> FallbackScan {
    match ev {
        EventView::Start(e) => if e.name == "component"@ { fallback_element(lk, st, e.attrs) } else { st },
        EventView::Empty(e) => if e.name == "component"@ { fallback_element(lk, st, e.attrs) } else { st },
        _ => st,
    }
}

/// Every sector component of a save, once per code, named by its code or macro.
pub open spec fn fallback_sectors(evs: Seq<EventView>, lk: SectorLookups) -> Seq<SectorView> {
    fold_events(
        evs,
        FallbackScan { seen: Set::empty(), sectors: Seq::empty() },
        |s: FallbackScan, e: EventView| fallback_step(lk, s, e),
    ).sectors
}

/// Lists every sector component of a save, once per code, wherever it stands; reading
/// stops at the end of the document or at the first parse error.
pub fn fallback_scan(
    xml_content: &str,
    sector_names: &StrMap<String>,
    component_names: &StrMap<String>,
    sector_code_names: &StrMap<String>,
) -> (r: Vec<Sector>)
    ensures
        ({
            let lk = SectorLookups {
                sector_names: sector_names@,
                component_names: component_names@,
                sector_code_names: sector_code_names@,
                loc: Map::empty(),
            };
            fallback_sectors(xml_events(xml_content@), lk) == r@.map_values(|s: Sector| s@)
        }),
{
    let events = tokenize(xml_content);
    fallback_from_events(events.as_slice(), sector_names, component_names, sector_code_names)
}

/// The same as `fallback_scan`, on the events of the text.
pub fn fallback_from_events(
    events: &[XmlEvent],
    sector_names: &StrMap<String>,
    component_names: &StrMap<String>,
    sector_code_names: &StrMap<String>,
) -> (r: Vec<Sector>)
    ensures
        ({
            let lk = SectorLookups {
                sector_names: sector_names@,
                component_names: component_names@,
                sector_code_names: sector_code_names@,
                loc: Map::empty(),
            };
            fallback_sectors(views(events@), lk) == r@.map_values(|s: Sector| s@)
        }),
{
    let ghost evs = views(events@);
    let ghost lk = SectorLookups {
        sector_names: sector_names@,
        component_names: component_names@,
        sector_code_names: sector_code_names@,
        loc: Map::empty(),
    };
    let no_loc: crate::parsers::game_xml::Localization = StrMap::new();
    let no_ident: Option<String> = None;
    let mut seen: StrMap<()> = StrMap::new();
    let mut sectors: Vec<Sector> = Vec::new();
    let mut i: usize = 0;
    proof {
        assert(seen@.dom() =~= Set::<Seq<char>>::empty());
        assert(sectors@.map_values(|s: Sector| s@) =~= Seq::<SectorView>::empty());
    }
    while i < events.len()
        invariant
            i <= events@.len(),
            evs == views(events@),
            no_loc@ == Map::<Seq<char>, Map<Seq<char>, Seq<char>>>::empty(),
            no_ident is None,
            lk == (SectorLookups {
                sector_names: sector_names@,
                component_names: component_names@,
                sector_code_names: sector_code_names@,
                loc: Map::empty(),
            }),
            fold_events(
                evs.take(i as int),
                FallbackScan { seen: Set::empty(), sectors: Seq::empty() },
                |s: FallbackScan, e: EventView| fallback_step(lk, s, e),
            ) == (FallbackScan { seen: seen@.dom(), sectors: sectors@.map_values(|s: Sector| s@) }),
        decreases events.len() - i,
    {
        proof {
            lemma_fold_events_next(
                evs,
                i as int,
                FallbackScan { seen: Set::empty(), sectors: Seq::empty() },
                |s: FallbackScan, e: EventView| fallback_step(lk, s, e),
            );
            assert(evs[i as int] == events@[i as int]@);
        }
        match &events[i] {
            XmlEvent::Start(e) | XmlEvent::Empty(e) => {
                if e.is("component") && e.has_attr_value("class", "sector") {
                    match (e.attr("code"), e.attr("macro")) {
                        (Some(c), Some(m)) => {
                            if !seen.contains_key(c.as_str()) {
                                let ghost seen0 = seen@.dom();
                                let ghost sv0 = sectors@.map_values(|s: Sector| s@);
                                seen.insert(c.clone(), ());
                                let name = chosen_name_of(
                                    &no_ident,
                                    c,
                                    m,
                                    sector_names,
                                    component_names,
                                    sector_code_names,
                                    &no_loc,
                                );
                                sectors.push(Sector { code: c.clone(), macro_name: m.clone(), name, owner: None });
                                proof {
                                    assert(seen@.dom() =~= seen0.insert(c@));
                                    assert(sectors@.map_values(|s: Sector| s@) =~= sv0.push(sectors@.last()@));
                                }
                            }
                        },
                        _ => {},
                    }
                }
            },
            _ => {},
        }
        i += 1;
    }
    proof {
        assert(evs.take(events@.len() as int) =~= evs);
    }
    sectors
}

pub open spec fn fallback_inv(st: FallbackScan) -> bool {
    &&& forall|i: int| 0 <= i < st.sectors.len() ==> st.seen.contains(#[trigger] st.sectors[i].code)
    &&& forall|i: int, j: int| 0 <= i < j < st.sectors.len() ==> #[trigger] st.sectors[i].code != #[trigger] st.sectors[j].code
}

proof fn lemma_fallback_inv(evs: Seq<EventView>, lk: SectorLookups)
    ensures
        fallback_inv(
            fold_events(
                evs,
                FallbackScan { seen: Set::empty(), sectors: Seq::empty() },
                |s: FallbackScan, e: EventView| fallback_step(lk, s, e),
            ),
        ),
    decreases evs.len(),
{
    if evs.len() > 0 {
        lemma_fallback_inv(evs.drop_last(), lk);
        let st = fold_events(
            evs.drop_last(),
            FallbackScan { seen: Set::empty(), sectors: Seq::empty() },
            |s: FallbackScan, e: EventView| fallback_step(lk, s, e),
        );
        let st2 = fallback_step(lk, st, evs.last());
        assert(st2 == fold_events(
            evs,
            FallbackScan { seen: Set::empty(), sectors: Seq::empty() },
            |s: FallbackScan, e: EventView| fallback_step(lk, s, e),
        ));
        if st2.sectors.len() > st.sectors.len() {
            let c = st2.sectors.last().code;
            assert(!st.seen.contains(c));
            assert forall|i: int| 0 <= i < st2.sectors.len() implies st2.seen.contains(#[trigger] st2.sectors[i].code) by {
                if i < st.sectors.len() {
                    assert(st2.sectors[i] == st.sectors[i]);
                }
            }
            assert forall|i: int, j: int| 0 <= i < j < st2.sectors.len() implies #[trigger] st2.sectors[i].code
                != #[trigger] st2.sectors[j].code by {
                assert(st2.sectors[i] == st.sectors[i]);
                if j < st.sectors.len() {
                    assert(st2.sectors[j] == st.sectors[j]);
                } else {
                    assert(st.seen.contains(st.sectors[i].code));
                }
            }
        } else {
            assert(st2 == st);
        }
    }
}

/// The fallback scan lists each sector code once.
pub proof fn law_fallback_codes_distinct(evs: Seq<EventView>, lk: SectorLookups)
    ensures
        ({
            let v = fallback_sectors(evs, lk);
            forall|i: int, j: int| 0 <= i < j < v.len() ==> #[trigger] v[i].code != #[trigger] v[j].code
        }),
{
    lemma_fallback_inv(evs, lk);
}

} // verus!
