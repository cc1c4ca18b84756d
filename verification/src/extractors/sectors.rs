use vstd::prelude::*;
use crate::extractors::localization::{display_name, display_name_of};
use crate::extractors::wares::contents_of;
use crate::parsers::game_xml::{LocView, Localization};
use crate::parsers::cat_dat::XmlEntry;
use crate::strmap::StrMap;
use crate::text::{lower, str_eq, to_lower};
use crate::xml::{
    attr_of, fold_events, lemma_fold_events_next, tokenize, views, xml_events, ElementView,
    EventView, XmlElement, XmlEvent,
};

verus! {

// ---------------------------------------------------------------------------
// Sector names from the sector datasets.
// ---------------------------------------------------------------------------

/// State of a scan of a dataset file.
pub struct SectorNameScan {
    /// The macro of the `dataset` being read.
    pub current: Option<Seq<char>>,
    /// Whether the scan is inside that dataset's `properties`.
    pub in_props: bool,
    pub out: Map<Seq<char>, Seq<char>>,
}

pub open spec fn sector_name_element(loc: LocView, st: SectorNameScan, e: ElementView) -> SectorNameScan {
    if e.name == "dataset"@ {
        match attr_of(e.attrs, "macro"@) {
            Some(m) => SectorNameScan { current: Some(m), in_props: false, ..st },
            None => st,
        }
    } else if e.name == "properties"@ {
        if st.current is Some {
            SectorNameScan { in_props: true, ..st }
        } else {
            st
        }
    } else if e.name == "identification"@ {
        match (st.current, attr_of(e.attrs, "name"@)) {
            (Some(m), Some(n)) => if st.in_props {
                SectorNameScan { out: st.out.insert(lower(m), display_name(n, loc)), ..st }
            } else {
                st
            },
            _ => st,
        }
    } else {
        st
    }
}

/// One event of a dataset file: an `identification` inside the `properties` of a
/// `dataset` names the dataset's macro.
pub open spec fn sector_name_step(loc: LocView, st: SectorNameScan, ev: EventView) -> SectorNameScan {
    match ev {
        EventView::Start(e) => sector_name_element(loc, st, e),
        EventView::Empty(e) => sector_name_element(loc, st, e),
        EventView::End(n) => if n == "dataset"@ {
            SectorNameScan { current: None, in_props: false, ..st }
        } else if n == "properties"@ {
            SectorNameScan { in_props: false, ..st }
        } else {
            st
        },
        _ => st,
    }
}

/// The sector names of one event stream, added to `m0`.
pub open spec fn sector_names_in(
    evs: Seq<EventView>,
    loc: LocView,
    m0: Map<Seq<char>, Seq<char>>,
) -> Map<Seq<char>, Seq<char>> {
    fold_events(
        evs,
        SectorNameScan { current: None, in_props: false, out: m0 },
        |s: SectorNameScan, e: EventView| sector_name_step(loc, s, e),
    ).out
}

/// The sector names of a list of files, in order: by lower-cased macro name.
pub open spec fn sector_names_of_files(contents: Seq<Seq<char>>, loc: LocView) -> Map<Seq<char>, Seq<char>>
    decreases contents.len(),
{
    if contents.len() == 0 {
        Map::empty()
    } else {
        sector_names_in(xml_events(contents.last()), loc, sector_names_of_files(contents.drop_last(), loc))
    }
}

/// Adds the sector names of one file's events to `out` (see `sector_names_in`).
pub fn scan_sector_names(events: &[XmlEvent], localization: &Localization, out: &mut StrMap<String>)
    ensures
        final(out)@ == sector_names_in(views(events@), localization@, old(out)@),
{
    let ghost evs = views(events@);
    let ghost m0 = out@;
    let mut current: Option<String> = None;
    let mut in_props = false;
    let mut i: usize = 0;
    while i < events.len()
        invariant
            i <= events@.len(),
            evs == views(events@),
            fold_events(
                evs.take(i as int),
                SectorNameScan { current: None, in_props: false, out: m0 },
                |s: SectorNameScan, e: EventView| sector_name_step(localization@, s, e),
            ) == (SectorNameScan {
                current: match current {
                    Some(c) => Some(c@),
                    None => None,
                },
                in_props: in_props,
                out: out@,
            }),
        decreases events.len() - i,
    {
        proof {
            lemma_fold_events_next(
                evs,
                i as int,
                SectorNameScan { current: None, in_props: false, out: m0 },
                |s: SectorNameScan, e: EventView| sector_name_step(localization@, s, e),
            );
            assert(evs[i as int] == events@[i as int]@);
        }
        match &events[i] {
            XmlEvent::Start(e) | XmlEvent::Empty(e) => {
                if e.is("dataset") {
                    match e.attr("macro") {
                        Some(m) => {
                            current = Some(m.clone());
                            in_props = false;
                        },
                        None => {},
                    }
                } else if e.is("properties") {
                    if current.is_some() {
                        in_props = true;
                    }
                } else if e.is("identification") {
                    match (&current, e.attr("name")) {
                        (Some(m), Some(n)) => {
                            if in_props {
                                let key = to_lower(m.as_str());
                                let name = display_name_of(n.as_str(), localization);
                                out.insert(key, name);
                            }
                        },
                        _ => {},
                    }
                }
            },
            XmlEvent::End(n) => {
                if str_eq(n.as_str(), "dataset") {
                    current = None;
                    in_props = false;
                } else if str_eq(n.as_str(), "properties") {
                    in_props = false;
                }
            },
            _ => {},
        }
        i += 1;
    }
    proof {
        assert(evs.take(events@.len() as int) =~= evs);
    }
}

/// Sector names from the dataset files: the `identification` name inside the
/// `properties` of each `dataset`, resolved and cleaned, under the lower-cased macro name;
/// later files override earlier ones.
pub fn extract_sector_names(xml_entries: &[XmlEntry], localization: &Localization) -> (m: StrMap<String>)
    ensures
        m@ == sector_names_of_files(contents_of(xml_entries@), localization@),
{
    let ghost cs = contents_of(xml_entries@);
    let mut out: StrMap<String> = StrMap::new();
    let mut i: usize = 0;
    while i < xml_entries.len()
        invariant
            i <= xml_entries@.len(),
            cs == contents_of(xml_entries@),
            out@ == sector_names_of_files(cs.take(i as int), localization@),
        decreases xml_entries.len() - i,
    {
        proof {
            assert(cs.take(i + 1).drop_last() =~= cs.take(i as int));
            assert(cs.take(i + 1).last() == xml_entries@[i as int].content@);
        }
        let events = tokenize(xml_entries[i].content.as_str());
        scan_sector_names(events.as_slice(), localization, &mut out);
        i += 1;
    }
    proof {
        assert(cs.take(xml_entries@.len() as int) =~= cs);
    }
    out
}

// ---------------------------------------------------------------------------
// Sector codes from the universe map.
// ---------------------------------------------------------------------------

/// The element path, innermost last, at which a sector component stands in the universe
/// map.
pub open spec fn sector_path() -> Seq<Seq<char>> {
    seq![
        "universe"@,
        "component"@,
        "connections"@,
        "connection"@,
        "component"@,
        "connections"@,
        "connection"@,
    ]
}

/// Whether the open elements end with `sector_path()`.
pub open spec fn at_sector_position(stack: Seq<Seq<char>>) -> bool {
    stack.len() >= 7 && stack.skip(stack.len() - 7) == sector_path()
}

/// The name recorded for a sector macro: its sector name, else its component name,
/// else the macro itself.
pub open spec fn sector_display(
    m: Seq<char>,
    sector_names: Map<Seq<char>, Seq<char>>,
    component_names: Map<Seq<char>, Seq<char>>,
) -> Seq<char> {
    let key = lower(m);
    if sector_names.contains_key(key) {
        sector_names[key]
    } else if component_names.contains_key(key) {
        component_names[key]
    } else {
        m
    }
}

/// `out` with the sector that a component's attributes describe, unless its code is
/// already present.
pub open spec fn code_record(
    sn: Map<Seq<char>, Seq<char>>,
    cn: Map<Seq<char>, Seq<char>>,
    out: Map<Seq<char>, Seq<char>>,
    attrs: Seq<(Seq<char>, Seq<char>)>,
) -> Map<Seq<char>, Seq<char>> {
    match (attr_of(attrs, "class"@), attr_of(attrs, "code"@), attr_of(attrs, "macro"@)) {
        (Some(cl), Some(c), Some(m)) => if cl == "sector"@ && !out.contains_key(c) {
            out.insert(c, sector_display(m, sn, cn))
        } else {
            out
        },
        _ => out,
    }
}

/// State of a scan of a universe file: the open elements and the codes found.
pub struct CodeScan {
    pub stack: Seq<Seq<char>>,
    pub out: Map<Seq<char>, Seq<char>>,
}

/// One event of a universe file. A start tag is pushed before its position is tested,
/// as an empty-element tag is not.
pub open spec fn code_step(
    sn: Map<Seq<char>, Seq<char>>,
    cn: Map<Seq<char>, Seq<char>>,
    st: CodeScan,
    ev: EventView,
) -> CodeScan {
    match ev {
        EventView::Start(e) => {
            let stack = st.stack.push(e.name);
            if e.name == "component"@ && at_sector_position(stack) {
                CodeScan { stack: stack, out: code_record(sn, cn, st.out, e.attrs) }
            } else {
                CodeScan { stack: stack, ..st }
            }
        },
        EventView::Empty(e) => if e.name == "component"@ && at_sector_position(st.stack) {
            CodeScan { out: code_record(sn, cn, st.out, e.attrs), ..st }
        } else {
            st
        },
        EventView::End(_) => if st.stack.len() > 0 {
            CodeScan { stack: st.stack.drop_last(), ..st }
        } else {
            st
        },
        _ => st,
    }
}

/// The sector codes of one event stream, added to `m0`.
pub open spec fn sector_codes_in(
    evs: Seq<EventView>,
    sn: Map<Seq<char>, Seq<char>>,
    cn: Map<Seq<char>, Seq<char>>,
    m0: Map<Seq<char>, Seq<char>>,
) -> Map<Seq<char>, Seq<char>> {
    fold_events(evs, CodeScan { stack: Seq::empty(), out: m0 }, |s: CodeScan, e: EventView| code_step(sn, cn, s, e)).out
}

/// The sector codes of a list of files, in order; the first file to name a code wins.
pub open spec fn sector_codes_of_files(
    contents: Seq<Seq<char>>,
    sn: Map<Seq<char>, Seq<char>>,
    cn: Map<Seq<char>, Seq<char>>,
) -> Map<Seq<char>, Seq<char>>
    decreases contents.len(),
{
    if contents.len() == 0 {
        Map::empty()
    } else {
        sector_codes_in(xml_events(contents.last()), sn, cn, sector_codes_of_files(contents.drop_last(), sn, cn))
    }
}

/// The views of a vector of strings.
pub open spec fn strings_view(v: Seq<String>) -> Seq<Seq<char>> {
    v.map_values(|s: String| s@)
}

fn at_sector_position_exec(stack: &Vec<String>) -> (b: bool)
    ensures
        b == at_sector_position(strings_view(stack@)),
{
    let ghost sv = strings_view(stack@);
    let n = stack.len();
    if n < 7 {
        return false;
    }
    let s = n - 7;
    let r = str_eq(stack[s].as_str(), "universe") && str_eq(stack[s + 1].as_str(), "component")
        && str_eq(stack[s + 2].as_str(), "connections") && str_eq(stack[s + 3].as_str(), "connection")
        && str_eq(stack[s + 4].as_str(), "component") && str_eq(stack[s + 5].as_str(), "connections")
        && str_eq(stack[s + 6].as_str(), "connection");
    proof {
        let t = sv.skip(s as int);
        assert(t.len() == 7);
        assert forall|j: int| 0 <= j < 7 implies #[trigger] t[j] == stack@[s + j]@ by {}
        if r {
            assert(t =~= sector_path());
        } else {
            if t == sector_path() {
                assert(t[0] == sector_path()[0]);
                assert(t[1] == sector_path()[1]);
                assert(t[2] == sector_path()[2]);
                assert(t[3] == sector_path()[3]);
                assert(t[4] == sector_path()[4]);
                assert(t[5] == sector_path()[5]);
                assert(t[6] == sector_path()[6]);
            }
        }
    }
    r
}

fn sector_display_of(m: &String, sector_names: &StrMap<String>, component_names: &StrMap<String>) -> (r: String)
    ensures
        r@ == sector_display(m@, sector_names@, component_names@),
{
    let key = to_lower(m.as_str());
    match sector_names.get(key.as_str()) {
        Some(n) => n.clone(),
        None => match component_names.get(key.as_str()) {
            Some(n) => n.clone(),
            None => m.clone(),
        },
    }
}

fn record_code(
    e: &XmlElement,
    sector_names: &StrMap<String>,
    component_names: &StrMap<String>,
    out: &mut StrMap<String>,
)
    ensures
        final(out)@ == code_record(sector_names@, component_names@, old(out)@, e@.attrs),
{
    match (e.attr("class"), e.attr("code"), e.attr("macro")) {
        (Some(cl), Some(c), Some(m)) => {
            if str_eq(cl.as_str(), "sector") {
                let resolved = sector_display_of(m, sector_names, component_names);
                out.insert_if_absent(c.clone(), resolved);
            }
        },
        _ => {},
    }
}

/// Adds the sector code names of one file's events to `out` (see `sector_codes_in`).
pub fn scan_sector_codes(
    events: &[XmlEvent],
    sector_names: &StrMap<String>,
    component_names: &StrMap<String>,
    out: &mut StrMap<String>,
)
    ensures
        final(out)@ == sector_codes_in(views(events@), sector_names@, component_names@, old(out)@),
{
    let ghost evs = views(events@);
    let ghost m0 = out@;
    let ghost sn = sector_names@;
    let ghost cn = component_names@;
    let mut stack: Vec<String> = Vec::new();
    let mut i: usize = 0;
    proof {
        assert(strings_view(stack@) =~= Seq::<Seq<char>>::empty());
    }
    while i < events.len()
        invariant
            i <= events@.len(),
            evs == views(events@),
            sn == sector_names@,
            cn == component_names@,
            fold_events(
                evs.take(i as int),
                CodeScan { stack: Seq::empty(), out: m0 },
                |s: CodeScan, e: EventView| code_step(sn, cn, s, e),
            ) == (CodeScan { stack: strings_view(stack@), out: out@ }),
        decreases events.len() - i,
    {
        proof {
            lemma_fold_events_next(
                evs,
                i as int,
                CodeScan { stack: Seq::empty(), out: m0 },
                |s: CodeScan, e: EventView| code_step(sn, cn, s, e),
            );
            assert(evs[i as int] == events@[i as int]@);
        }
        let ghost sv0 = strings_view(stack@);
        match &events[i] {
            XmlEvent::Start(e) => {
                stack.push(e.name.clone());
                proof {
                    assert(strings_view(stack@) =~= sv0.push(e.name@));
                }
                if e.is("component") && at_sector_position_exec(&stack) {
                    record_code(e, sector_names, component_names, out);
                }
            },
            XmlEvent::Empty(e) => {
                if e.is("component") && at_sector_position_exec(&stack) {
                    record_code(e, sector_names, component_names, out);
                }
            },
            XmlEvent::End(_) => {
                if stack.len() > 0 {
                    stack.pop();
                    proof {
                        assert(strings_view(stack@) =~= sv0.drop_last());
                    }
                }
            },
            _ => {},
        }
        i += 1;
    }
    proof {
        assert(evs.take(events@.len() as int) =~= evs);
    }
}

/// Sector code (such as `AAM-257`) to display name, from the sector components of the
/// universe map: the sector name of the component's macro, else its component name,
/// else the macro itself; the first file to name a code wins.
pub fn extract_sector_code_names(
    xml_entries: &[XmlEntry],
    sector_names: &StrMap<String>,
    component_names: &StrMap<String>,
) -> (m: StrMap<String>)
    ensures
        m@ == sector_codes_of_files(contents_of(xml_entries@), sector_names@, component_names@),
{
    let ghost cs = contents_of(xml_entries@);
    let mut out: StrMap<String> = StrMap::new();
    let mut i: usize = 0;
    while i < xml_entries.len()
        invariant
            i <= xml_entries@.len(),
            cs == contents_of(xml_entries@),
            out@ == sector_codes_of_files(cs.take(i as int), sector_names@, component_names@),
        decreases xml_entries.len() - i,
    {
        proof {
            assert(cs.take(i + 1).drop_last() =~= cs.take(i as int));
            assert(cs.take(i + 1).last() == xml_entries@[i as int].content@);
        }
        let events = tokenize(xml_entries[i].content.as_str());
        scan_sector_codes(events.as_slice(), sector_names, component_names, &mut out);
        i += 1;
    }
    proof {
        assert(cs.take(xml_entries@.len() as int) =~= cs);
    }
    out
}

} // verus!
