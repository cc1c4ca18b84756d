use vstd::prelude::*;
use crate::models::{opt_view, copy_opt, StationSummary, StationSummaryView};
use crate::parsers::game_xml::{clean_name, cleaned, resolve_name, resolved_name, LocView, Localization};
use crate::parsers::save_xml::helpers::map_get;
use crate::strmap::StrMap;
use crate::text::{chars_of, lower, owned, starts_with, str_eq, to_lower, trim, trim_chars};
use crate::xml::{
    attr_of, fold_events, lemma_fold_events_next, tokenize, views, xml_events, EventView,
    XmlElement, XmlEvent, XmlParseError,
};

verus! {

/// Number of stations in a sector, and how many of them the player owns.
pub type StationCount = (usize, usize);

/// The attributes of a `component` element that station scanning reads.
pub struct ComponentAttrs {
    pub class: Option<String>,
    pub code: Option<String>,
    pub macro_name: Option<String>,
    pub owner: Option<String>,
    pub name_attr: Option<String>,
}

pub struct ComponentAttrsView {
    pub class: Option<Seq<char>>,
    pub code: Option<Seq<char>>,
    pub macro_name: Option<Seq<char>>,
    pub owner: Option<Seq<char>>,
    pub name_attr: Option<Seq<char>>,
}

impl View for ComponentAttrs {
    type V = ComponentAttrsView;

    open spec fn view(&self) -> ComponentAttrsView {
        ComponentAttrsView {
            class: opt_view(self.class),
            code: opt_view(self.code),
            macro_name: opt_view(self.macro_name),
            owner: opt_view(self.owner),
            name_attr: opt_view(self.name_attr),
        }
    }
}

/// The component attributes of a tag: the last value of each.
pub open spec fn component_attrs(attrs: Seq<(Seq<char>, Seq<char>)>) -> ComponentAttrsView {
    ComponentAttrsView {
        class: attr_of(attrs, "class"@),
        code: attr_of(attrs, "code"@),
        macro_name: attr_of(attrs, "macro"@),
        owner: attr_of(attrs, "owner"@),
        name_attr: attr_of(attrs, "name"@),
    }
}

impl ComponentAttrs {
    /// Reads the component attributes of a tag.
    pub fn from_element(e: &XmlElement) -> (a: Self)
        ensures
            a@ == component_attrs(e@.attrs),
    {
        ComponentAttrs {
            class: e.attr_string("class"),
            code: e.attr_string("code"),
            macro_name: e.attr_string("macro"),
            owner: e.attr_string("owner"),
            name_attr: e.attr_string("name"),
        }
    }
}

/// The innermost sector code on the stack.
pub open spec fn innermost_sector(stack: Seq<Option<Seq<char>>>) -> Option<Seq<char>>
    decreases stack.len(),
{
    if stack.len() == 0 {
        None
    } else if stack.last() is Some {
        stack.last()
    } else {
        innermost_sector(stack.drop_last())
    }
}

/// The views of a stack of optional sector codes.
pub open spec fn sector_stack_view(s: Seq<Option<String>>) -> Seq<Option<Seq<char>>> {
    s.map_values(|o: Option<String>| opt_view(o))
}

/// The innermost sector code on the stack.
pub fn current_sector(stack: &[Option<String>]) -> (r: Option<String>)
    ensures
        opt_view(r) == innermost_sector(sector_stack_view(stack@)),
{
    let ghost sv = sector_stack_view(stack@);
    let mut i = stack.len();
    proof {
        assert(sv.take(i as int) =~= sv);
    }
    while i > 0
        invariant
            i <= stack@.len(),
            sv == sector_stack_view(stack@),
            innermost_sector(sv) == innermost_sector(sv.take(i as int)),
        decreases i,
    {
        proof {
            assert(sv.take(i as int).last() == opt_view(stack@[i - 1]));
            assert(sv.take(i as int).drop_last() =~= sv.take(i - 1));
        }
        match &stack[i - 1] {
            Some(c) => {
                return Some(c.clone());
            },
            None => {},
        }
        i -= 1;
    }
    None
}

/// The name a station's `name` attribute gives, resolved when it is a reference.
pub open spec fn raw_station_name(raw: Seq<char>, loc: LocView) -> Seq<char> {
    if starts_with(raw, "{"@) {
        resolved_name(raw, loc)
    } else {
        raw
    }
}

/// A station's name before cleaning: its own name, or, when that is missing or blank,
/// the default name of its macro if known.
pub open spec fn station_name_choice(
    a: ComponentAttrsView,
    cn: Map<Seq<char>, Seq<char>>,
    loc: LocView,
) -> Option<Seq<char>> {
    let own = match a.name_attr {
        Some(raw) => Some(raw_station_name(raw, loc)),
        None => None,
    };
    let blank = match own {
        Some(n) => trim(n).len() == 0,
        None => true,
    };
    if blank {
        match a.macro_name {
            Some(m) => match map_get(cn, lower(m)) {
                Some(d) => Some(d),
                None => own,
            },
            None => own,
        }
    } else {
        own
    }
}

/// State of a station scan.
pub struct StationScan {
    pub sectors: Seq<Option<Seq<char>>>,
    pub seen: Set<Seq<char>>,
    pub stations: Seq<StationSummaryView>,
    pub counts: Map<Seq<char>, StationCount>,
    pub failed: bool,
}

/// `c` with one more station, and one more player station when `player`.
pub open spec fn bump(c: StationCount, player: bool) -> StationCount {
    ((c.0 + 1) as usize, if player { (c.1 + 1) as usize } else { c.1 })
}

/// What a station component adds: a station of a sector, with a code (or its macro) not
/// seen before, is listed and counted.
pub open spec fn station_step(
    cn: Map<Seq<char>, Seq<char>>,
    fnames: Map<Seq<char>, Seq<char>>,
    loc: LocView,
    st: StationScan,
    a: ComponentAttrsView,
) -> StationScan {
    if a.class != Some("station"@) {
        st
    } else {
        match innermost_sector(st.sectors) {
            None => st,
            Some(sc) => {
                let code_opt = match a.code {
                    Some(c) => Some(c),
                    None => a.macro_name,
                };
                match code_opt {
                    None => st,
                    Some(code) => if st.seen.contains(code) {
                        st
                    } else {
                        let name = cleaned(
                            match station_name_choice(a, cn, loc) {
                                Some(n) => n,
                                None => code,
                            },
                        );
                        let owner_name = match a.owner {
                            Some(o) => match map_get(fnames, o) {
                                Some(f) => Some(f),
                                None => Some(o),
                            },
                            None => None,
                        };
                        let c0 = if st.counts.contains_key(sc) {
                            st.counts[sc]
                        } else {
                            (0usize, 0usize)
                        };
                        StationScan {
                            seen: st.seen.insert(code),
                            stations: st.stations.push(
                                StationSummaryView {
                                    code,
                                    name,
                                    macro_name: match a.macro_name {
                                        Some(m) => m,
                                        None => code,
                                    },
                                    sector_code: sc,
                                    owner: a.owner,
                                    owner_name,
                                },
                            ),
                            counts: st.counts.insert(sc, bump(c0, a.owner == Some("player"@))),
                            ..st
                        }
                    },
                }
            },
        }
    }
}

pub open spec fn station_event(
    cn: Map<Seq<char>, Seq<char>>,
    fnames: Map<Seq<char>, Seq<char>>,
    loc: LocView,
    st: StationScan,
    ev: EventView,
) -> StationScan {
    if st.failed {
        st
    } else {
        match ev {
            EventView::Start(e) => if e.name == "component"@ {
                let a = component_attrs(e.attrs);
                let s2 = station_step(cn, fnames, loc, st, a);
                StationScan {
                    sectors: s2.sectors.push(if a.class == Some("sector"@) { a.code } else { None }),
                    ..s2
                }
            } else {
                st
            },
            EventView::End(n) => if n == "component"@ && st.sectors.len() > 0 {
                StationScan { sectors: st.sectors.drop_last(), ..st }
            } else {
                st
            },
            EventView::Empty(e) => if e.name == "component"@ {
                station_step(cn, fnames, loc, st, component_attrs(e.attrs))
            } else {
                st
            },
            EventView::Error => StationScan { failed: true, ..st },
            _ => st,
        }
    }
}

pub open spec fn station_scan_start() -> StationScan {
    StationScan {
        sectors: Seq::empty(),
        seen: Set::empty(),
        stations: Seq::empty(),
        counts: Map::empty(),
        failed: false,
    }
}

/// The stations of a save and their counts per sector, or `None` when it does not parse.
pub open spec fn stations_in(
    evs: Seq<EventView>,
    cn: Map<Seq<char>, Seq<char>>,
    fnames: Map<Seq<char>, Seq<char>>,
    loc: LocView,
) -> Option<StationScan> {
    let st = fold_events(evs, station_scan_start(), |s: StationScan, e: EventView| station_event(cn, fnames, loc, s, e));
    if st.failed {
        None
    } else {
        Some(st)
    }
}

pub open spec fn summaries_view(v: Seq<StationSummary>) -> Seq<StationSummaryView> {
    v.map_values(|s: StationSummary| s@)
}

/// Every count is below `bound`.
pub open spec fn counts_below(counts: Map<Seq<char>, StationCount>, bound: int) -> bool {
    forall|k: Seq<char>| #[trigger] counts.contains_key(k) ==> counts[k].0 < bound && counts[k].1 < bound
}

/// The number of listed stations in sector `sc`, or of those the player owns.
pub open spec fn stations_in_sector(ss: Seq<StationSummaryView>, sc: Seq<char>, player_only: bool) -> nat
    decreases ss.len(),
{
    if ss.len() == 0 {
        0
    } else {
        stations_in_sector(ss.drop_last(), sc, player_only) + if ss.last().sector_code == sc && (!player_only
            || ss.last().owner == Some("player"@)) {
            1nat
        } else {
            0nat
        }
    }
}

/// The counts agree with the list, the seen codes are exactly the listed codes, and no
/// code is listed twice.
pub open spec fn scan_consistent(st: StationScan) -> bool {
    &&& forall|sc: Seq<char>|
        #[trigger] st.counts.contains_key(sc) ==> st.counts[sc].0 == stations_in_sector(st.stations, sc, false)
            && st.counts[sc].1 == stations_in_sector(st.stations, sc, true)
    &&& forall|sc: Seq<char>|
        !#[trigger] st.counts.contains_key(sc) ==> stations_in_sector(st.stations, sc, false) == 0
    &&& forall|i: int| 0 <= i < st.stations.len() ==> st.seen.contains(#[trigger] st.stations[i].code)
    &&& forall|c: Seq<char>|
        #[trigger] st.seen.contains(c) ==> exists|i: int| 0 <= i < st.stations.len() && st.stations[i].code == c
    &&& forall|i: int, j: int|
        #![trigger st.stations[i], st.stations[j]]
        0 <= i < j < st.stations.len() ==> st.stations[i].code != st.stations[j].code
}

/// The code (else the macro) that a station component is listed under.
pub open spec fn station_key(a: ComponentAttrsView) -> Option<Seq<char>> {
    match a.code {
        Some(c) => Some(c),
        None => a.macro_name,
    }
}

proof fn lemma_in_sector_bounds(ss: Seq<StationSummaryView>, sc: Seq<char>)
    ensures
        stations_in_sector(ss, sc, true) <= stations_in_sector(ss, sc, false) <= ss.len(),
    decreases ss.len(),
{
    if ss.len() > 0 {
        lemma_in_sector_bounds(ss.drop_last(), sc);
    }
}

/// One station step (what `handle_station` does) keeps the counts in agreement with the
/// list, the seen codes equal to the listed codes, and the codes distinct. The list
/// before the step stays a prefix, and exactly one station is appended when the
/// component is a station inside a sector, listed under a code (or macro) not seen yet.
pub proof fn law_station_step_consistent(
    cn: Map<Seq<char>, Seq<char>>,
    fnames: Map<Seq<char>, Seq<char>>,
    loc: LocView,
    st: StationScan,
    a: ComponentAttrsView,
)
    requires
        scan_consistent(st),
        st.stations.len() < usize::MAX,
    ensures
        scan_consistent(station_step(cn, fnames, loc, st, a)),
        station_step(cn, fnames, loc, st, a).stations.len() <= st.stations.len() + 1,
        station_step(cn, fnames, loc, st, a).stations.take(st.stations.len() as int) == st.stations,
        station_step(cn, fnames, loc, st, a).stations.len() == st.stations.len() + 1 <==> (a.class == Some(
            "station"@,
        ) && innermost_sector(st.sectors) is Some && station_key(a) is Some && !st.seen.contains(
            station_key(a).unwrap(),
        )),
{
    let r = station_step(cn, fnames, loc, st, a);
    assert(st.stations.take(st.stations.len() as int) =~= st.stations);
    if r.stations.len() != st.stations.len() {
        assert(r.stations.take(st.stations.len() as int) =~= st.stations);
        assert forall|c: Seq<char>| #[trigger] r.seen.contains(c) implies exists|i: int|
            0 <= i < r.stations.len() && r.stations[i].code == c by {
            if c == r.stations.last().code {
                assert(r.stations[r.stations.len() - 1].code == c);
            } else {
                assert(st.seen.contains(c));
                let i = choose|i: int| 0 <= i < st.stations.len() && st.stations[i].code == c;
                assert(r.stations[i] == st.stations[i]);
            }
        }
        let sc = innermost_sector(st.sectors).unwrap();
        let x = r.stations.last();
        assert(r.stations.drop_last() =~= st.stations);
        assert forall|k: Seq<char>| #[trigger] r.counts.contains_key(k) implies r.counts[k].0
            == stations_in_sector(r.stations, k, false) && r.counts[k].1 == stations_in_sector(r.stations, k, true) by {
            lemma_in_sector_bounds(st.stations, k);
        }
        assert forall|k: Seq<char>| !#[trigger] r.counts.contains_key(k) implies stations_in_sector(
            r.stations,
            k,
            false,
        ) == 0 by {}
        assert forall|i: int| 0 <= i < r.stations.len() implies r.seen.contains(#[trigger] r.stations[i].code) by {
            if i < st.stations.len() {
                assert(r.stations[i] == st.stations[i]);
            }
        }
        assert forall|i: int, j: int|
            #![trigger r.stations[i], r.stations[j]]
            0 <= i < j < r.stations.len() implies r.stations[i].code != r.stations[j].code by {
            assert(r.stations[i] == st.stations[i]);
            if j < st.stations.len() {
                assert(r.stations[j] == st.stations[j]);
            } else {
                assert(st.seen.contains(st.stations[i].code));
            }
        }
    }
}

proof fn lemma_station_fold_consistent(
    evs: Seq<EventView>,
    cn: Map<Seq<char>, Seq<char>>,
    fnames: Map<Seq<char>, Seq<char>>,
    loc: LocView,
)
    requires
        evs.len() < usize::MAX,
    ensures
        ({
            let st = fold_events(
                evs,
                station_scan_start(),
                |s: StationScan, e: EventView| station_event(cn, fnames, loc, s, e),
            );
            scan_consistent(st) && st.stations.len() <= evs.len()
        }),
    decreases evs.len(),
{
    if evs.len() == 0 {
        let st = station_scan_start();
        assert forall|sc: Seq<char>| !#[trigger] st.counts.contains_key(sc) implies stations_in_sector(
            st.stations,
            sc,
            false,
        ) == 0 by {}
    } else {
        lemma_station_fold_consistent(evs.drop_last(), cn, fnames, loc);
        let st = fold_events(
            evs.drop_last(),
            station_scan_start(),
            |s: StationScan, e: EventView| station_event(cn, fnames, loc, s, e),
        );
        if !st.failed {
            match evs.last() {
                EventView::Start(e) => {
                    law_station_step_consistent(cn, fnames, loc, st, component_attrs(e.attrs));
                },
                EventView::Empty(e) => {
                    law_station_step_consistent(cn, fnames, loc, st, component_attrs(e.attrs));
                },
                _ => {},
            }
        }
    }
}

/// The per-sector counts of a save agree with its list of stations: a sector's count is
/// the number of listed stations in it, its player count the number of those that the
/// player owns, a sector without a count has no listed station, and no station code is
/// listed twice.
pub proof fn law_station_counts_agree(
    evs: Seq<EventView>,
    cn: Map<Seq<char>, Seq<char>>,
    fnames: Map<Seq<char>, Seq<char>>,
    loc: LocView,
)
    requires
        stations_in(evs, cn, fnames, loc) is Some,
        evs.len() < usize::MAX,
    ensures
        scan_consistent(stations_in(evs, cn, fnames, loc).unwrap()),
{
    lemma_station_fold_consistent(evs, cn, fnames, loc);
}

fn station_name_choice_exec(
    attrs: &ComponentAttrs,
    component_names: &StrMap<String>,
    localization: &Localization,
) -> (r: Option<String>)
    ensures
        opt_view(r) == station_name_choice(attrs@, component_names@, localization@),
{
    let own: Option<String> = match &attrs.name_attr {
        Some(raw) => {
            let rc = chars_of(raw.as_str());
            proof {
                reveal_strlit("{");
                if rc@.len() > 0 {
                    if rc@[0] == '{' {
                        assert(raw@.take(1) =~= "{"@);
                    } else if starts_with(raw@, "{"@) {
                        assert(raw@.take(1)[0] == raw@[0]);
                    }
                }
            }
            if rc.len() > 0 && rc[0] == '{' {
                Some(resolve_name(raw.as_str(), localization))
            } else {
                Some(raw.clone())
            }
        },
        None => None,
    };
    let blank = match &own {
        Some(n) => {
            let nc = chars_of(n.as_str());
            trim_chars(nc.as_slice()).len() == 0
        },
        None => true,
    };
    if blank {
        match &attrs.macro_name {
            Some(m) => {
                let key = to_lower(m.as_str());
                match component_names.get(key.as_str()) {
                    Some(d) => Some(d.clone()),
                    None => own,
                }
            },
            None => own,
        }
    } else {
        own
    }
}

/// Lists and counts a station component (see `station_step`).
pub fn handle_station(
    attrs: &ComponentAttrs,
    sector_stack: &[Option<String>],
    component_names: &StrMap<String>,
    faction_names: &StrMap<String>,
    localization: &Localization,
    stations: &mut Vec<StationSummary>,
    counts: &mut StrMap<StationCount>,
    seen_codes: &mut StrMap<()>,
)
    requires
        counts_below(old(counts)@, usize::MAX as int),
    ensures
        ({
            let before = StationScan {
                sectors: sector_stack_view(sector_stack@),
                seen: old(seen_codes)@.dom(),
                stations: summaries_view(old(stations)@),
                counts: old(counts)@,
                failed: false,
            };
            let after = station_step(component_names@, faction_names@, localization@, before, attrs@);
            &&& summaries_view(final(stations)@) == after.stations
            &&& final(counts)@ == after.counts
            &&& final(seen_codes)@.dom() == after.seen
        }),
        final(stations)@.len() <= old(stations)@.len() + 1,
        forall|k: Seq<char>| #[trigger] final(counts)@.contains_key(k) ==> {
            let c0: StationCount = if old(counts)@.contains_key(k) { old(counts)@[k] } else { (0usize, 0usize) };
            final(counts)@[k].0 <= c0.0 + 1 && final(counts)@[k].1 <= c0.1 + 1
        },
{
    let ghost st0 = StationScan {
        sectors: sector_stack_view(sector_stack@),
        seen: seen_codes@.dom(),
        stations: summaries_view(stations@),
        counts: counts@,
        failed: false,
    };
    let is_station = match &attrs.class {
        Some(c) => str_eq(c.as_str(), "station"),
        None => false,
    };
    if !is_station {
        return;
    }
    let sector_code = match current_sector(sector_stack) {
        Some(code) => code,
        None => {
            return;
        },
    };
    let code = match &attrs.code {
        Some(c) => c.clone(),
        None => match &attrs.macro_name {
            Some(m) => m.clone(),
            None => {
                return;
            },
        },
    };
    if seen_codes.contains_key(code.as_str()) {
        return;
    }
    seen_codes.insert(code.clone(), ());
    proof {
        assert(seen_codes@.dom() =~= st0.seen.insert(code@));
    }
    let chosen = station_name_choice_exec(attrs, component_names, localization);
    let final_name = match chosen {
        Some(n) => clean_name(n.as_str()),
        None => clean_name(code.as_str()),
    };
    let macro_name = match &attrs.macro_name {
        Some(m) => m.clone(),
        None => code.clone(),
    };
    let owner = copy_opt(&attrs.owner);
    let owner_name = match &attrs.owner {
        Some(o) => match faction_names.get(o.as_str()) {
            Some(f) => Some(f.clone()),
            None => Some(o.clone()),
        },
        None => None,
    };
    let is_player = match &attrs.owner {
        Some(o) => str_eq(o.as_str(), "player"),
        None => false,
    };
    let c0: StationCount = match counts.get(sector_code.as_str()) {
        Some(c) => *c,
        None => (0, 0),
    };
    proof {
        if counts@.contains_key(sector_code@) {
            assert(counts@[sector_code@] == c0);
        }
    }
    let c1: StationCount = (c0.0 + 1, if is_player { c0.1 + 1 } else { c0.1 });
    counts.insert(sector_code.clone(), c1);
    let ghost sv0 = summaries_view(stations@);
    stations.push(
        StationSummary { code, name: final_name, macro_name, sector_code, owner, owner_name },
    );
    proof {
        assert(summaries_view(stations@) =~= sv0.push(stations@.last()@));
    }
}

/// The stations found in a save, and their counts per sector code.
pub struct StationParseResult {
    pub stations: Vec<StationSummary>,
    pub counts: StrMap<StationCount>,
}

/// Stations of a save: every station component inside a sector, listed once per code (or
/// macro), with its display name, macro, sector, owner and owner's faction name; and per
/// sector the number of stations and of player stations. Fails when the save is not
/// well-formed XML.
pub fn extract_station_data(
    xml_content: &str,
    component_names: &StrMap<String>,
    faction_names: &StrMap<String>,
    localization: &Localization,
) -> (r: Result<StationParseResult, XmlParseError>)
    ensures
        match r {
            Ok(res) => stations_in(xml_events(xml_content@), component_names@, faction_names@, localization@)
                is Some && ({
                let st = stations_in(xml_events(xml_content@), component_names@, faction_names@, localization@).unwrap();
                &&& summaries_view(res.stations@) == st.stations
                &&& res.counts@ == st.counts
            }),
            Err(_) => stations_in(xml_events(xml_content@), component_names@, faction_names@, localization@) is None,
        },
{
    let events = tokenize(xml_content);
    station_data_from_events(events.as_slice(), component_names, faction_names, localization)
}

/// The same as `extract_station_data`, on the events of the text.
pub fn station_data_from_events(
    events: &[XmlEvent],
    component_names: &StrMap<String>,
    faction_names: &StrMap<String>,
    localization: &Localization,
) -> (r: Result<StationParseResult, XmlParseError>)
    ensures
        match r {
            Ok(res) => stations_in(views(events@), component_names@, faction_names@, localization@)
                is Some && ({
                let st = stations_in(views(events@), component_names@, faction_names@, localization@).unwrap();
                &&& summaries_view(res.stations@) == st.stations
                &&& res.counts@ == st.counts
            }),
            Err(_) => stations_in(views(events@), component_names@, faction_names@, localization@) is None,
        },
{
    let ghost evs = views(events@);
    let ghost cn = component_names@;
    let ghost fnm = faction_names@;
    let ghost loc = localization@;
    let mut sector_stack: Vec<Option<String>> = Vec::new();
    let mut stations: Vec<StationSummary> = Vec::new();
    let mut counts: StrMap<StationCount> = StrMap::new();
    let mut seen: StrMap<()> = StrMap::new();
    let mut failed = false;
    let mut i: usize = 0;
    proof {
        assert(sector_stack_view(sector_stack@) =~= Seq::<Option<Seq<char>>>::empty());
        assert(summaries_view(stations@) =~= Seq::<StationSummaryView>::empty());
        assert(seen@.dom() =~= Set::<Seq<char>>::empty());
    }
    while i < events.len()
        invariant
            i <= events@.len(),
            evs == views(events@),
            cn == component_names@,
            fnm == faction_names@,
            loc == localization@,
            stations@.len() <= i,
            counts_below(counts@, i as int + 1),
            fold_events(
                evs.take(i as int),
                station_scan_start(),
                |s: StationScan, e: EventView| station_event(cn, fnm, loc, s, e),
            ) == (StationScan {
                sectors: sector_stack_view(sector_stack@),
                seen: seen@.dom(),
                stations: summaries_view(stations@),
                counts: counts@,
                failed,
            }),
        decreases events.len() - i,
    {
        proof {
            lemma_fold_events_next(
                evs,
                i as int,
                station_scan_start(),
                |s: StationScan, e: EventView| station_event(cn, fnm, loc, s, e),
            );
            assert(evs[i as int] == events@[i as int]@);
        }
        let ghost n0 = stations@.len();
        let ghost counts0 = counts@;
        if !failed {
            match &events[i] {
                XmlEvent::Start(e) => {
                    if e.is("component") {
                        let attrs = ComponentAttrs::from_element(e);
                        handle_station(
                            &attrs,
                            sector_stack.as_slice(),
                            component_names,
                            faction_names,
                            localization,
                            &mut stations,
                            &mut counts,
                            &mut seen,
                        );
                        let is_sector = match &attrs.class {
                            Some(c) => str_eq(c.as_str(), "sector"),
                            None => false,
                        };
                        let ghost ss0 = sector_stack_view(sector_stack@);
                        if is_sector {
                            sector_stack.push(copy_opt(&attrs.code));
                        } else {
                            sector_stack.push(None);
                        }
                        proof {
                            assert(sector_stack_view(sector_stack@) =~= ss0.push(
                                if attrs@.class == Some("sector"@) { attrs@.code } else { None },
                            ));
                        }
                    }
                },
                XmlEvent::End(n) => {
                    if str_eq(n.as_str(), "component") && sector_stack.len() > 0 {
                        let ghost ss0 = sector_stack_view(sector_stack@);
                        sector_stack.pop();
                        proof {
                            assert(sector_stack_view(sector_stack@) =~= ss0.drop_last());
                        }
                    }
                },
                XmlEvent::Empty(e) => {
                    if e.is("component") {
                        let attrs = ComponentAttrs::from_element(e);
                        handle_station(
                            &attrs,
                            sector_stack.as_slice(),
                            component_names,
                            faction_names,
                            localization,
                            &mut stations,
                            &mut counts,
                            &mut seen,
                        );
                    }
                },
                XmlEvent::Error => {
                    failed = true;
                },
                _ => {},
            }
        }
        proof {
            assert(stations@.len() <= n0 + 1);
            assert forall|k: Seq<char>| #[trigger] counts@.contains_key(k) implies counts@[k].0 < i + 2
                && counts@[k].1 < i + 2 by {
                if counts0.contains_key(k) {
                    assert(counts0[k].0 < i + 1);
                }
            }
        }
        i += 1;
    }
    proof {
        assert(evs.take(events@.len() as int) =~= evs);
    }
    if failed {
        Err(XmlParseError)
    } else {
        Ok(StationParseResult { stations, counts })
    }
}

} // verus!
