use vstd::prelude::*;
use crate::api::sector_detail::helpers::{capitalize, capitalize_first, factory_name, factory_name_of};
use crate::models::sector_detail::{OffsetTexts, OffsetView, StationInfo, StationInfoView};
use crate::models::{copy_opt, opt_view};
use crate::numbers::{parse_u32, parse_u32_chars};
use crate::parsers::save_xml::helpers::map_get;
use crate::parsers::save_xml::sectors::parser::has_attr_value;
use crate::strmap::StrMap;
use crate::text::{chars_of, lower, str_eq, to_lower};
use crate::xml::{
    attr_of, fold_events, is_terminal, lemma_fold_events_next, tokenize, views,
    well_formed_stream, xml_events, ElementView, EventView, XmlElement, XmlEvent, XmlParseError,
};

verus! {

/// What is known of a station component when its walk starts.
pub struct StationHead {
    pub is_station: bool,
    pub code: Option<Seq<char>>,
    pub macro_name: Option<Seq<char>>,
    pub owner: Option<Seq<char>>,
    pub custom_name: Option<Seq<char>>,
}

/// One component being walked: its open `component` count, where the reading is, the
/// last offset and source read, and the offsets of the enclosing components.
pub struct Frame {
    pub depth: nat,
    pub in_offset: bool,
    pub in_connections: bool,
    pub in_connection: bool,
    pub offset: OffsetView,
    pub source_entry: Option<Seq<char>>,
    pub source_nameindex: Option<u32>,
    pub head: StationHead,
    pub acc: Seq<OffsetView>,
}

pub open spec fn no_offset() -> OffsetView {
    OffsetView { x: None, y: None, z: None }
}

pub open spec fn fresh_frame(head: StationHead, acc: Seq<OffsetView>) -> Frame {
    Frame {
        depth: 1,
        in_offset: false,
        in_connections: false,
        in_connection: false,
        offset: no_offset(),
        source_entry: None,
        source_nameindex: None,
        head,
        acc,
    }
}

pub open spec fn station_head(attrs: Seq<(Seq<char>, Seq<char>)>) -> StationHead {
    StationHead {
        is_station: true,
        code: attr_of(attrs, "code"@),
        macro_name: attr_of(attrs, "macro"@),
        owner: attr_of(attrs, "owner"@),
        custom_name: attr_of(attrs, "name"@),
    }
}

pub open spec fn sector_head() -> StationHead {
    StationHead { is_station: false, code: None, macro_name: None, owner: None, custom_name: None }
}

/// The `position` attributes that are present replace the offset's coordinates.
pub open spec fn read_position(o: OffsetView, attrs: Seq<(Seq<char>, Seq<char>)>) -> OffsetView {
    OffsetView {
        x: match attr_of(attrs, "x"@) {
            Some(v) => Some(v),
            None => o.x,
        },
        y: match attr_of(attrs, "y"@) {
            Some(v) => Some(v),
            None => o.y,
        },
        z: match attr_of(attrs, "z"@) {
            Some(v) => Some(v),
            None => o.z,
        },
    }
}

/// A `source` element's `nameindex`, read as a `u32`.
pub open spec fn source_index(t: Seq<char>) -> Option<u32> {
    match parse_u32(t) {
        Some(v) => Some(v as u32),
        None => None,
    }
}

/// A start (or empty) tag inside the walked component: the updated frame, and the frame
/// of a station component met inside a connection, whose walk starts there.
pub open spec fn walk_start(f: Frame, e: ElementView) -> (Frame, Option<Frame>) {
    if e.name == "component"@ {
        if f.in_connections && f.in_connection && attr_of(e.attrs, "class"@) == Some("station"@) {
            (f, Some(fresh_frame(station_head(e.attrs), f.acc.push(f.offset))))
        } else {
            (Frame { depth: f.depth + 1, ..f }, None)
        }
    } else if e.name == "offset"@ {
        (Frame { in_offset: true, ..f }, None)
    } else if e.name == "position"@ && f.in_offset {
        (Frame { offset: read_position(f.offset, e.attrs), ..f }, None)
    } else if e.name == "source"@ {
        (
            Frame {
                source_entry: match attr_of(e.attrs, "entry"@) {
                    Some(v) => Some(v),
                    None => f.source_entry,
                },
                source_nameindex: match attr_of(e.attrs, "nameindex"@) {
                    Some(t) => source_index(t),
                    None => f.source_nameindex,
                },
                ..f
            },
            None,
        )
    } else if e.name == "connections"@ {
        (Frame { in_connections: true, ..f }, None)
    } else if e.name == "connection"@ && f.in_connections {
        (Frame { in_connection: true, ..f }, None)
    } else {
        (f, None)
    }
}

/// The lookups that stations are named with.
pub struct StationLookups {
    pub component_names: Map<Seq<char>, Seq<char>>,
    pub faction_names: Map<Seq<char>, Seq<char>>,
}

/// The station that a finished frame describes: named by its own name, else its source
/// entry, else its macro's component name, else its macro; its owner named by faction,
/// else capitalized.
pub open spec fn station_of(f: Frame, code: Seq<char>, m: Seq<char>, lk: StationLookups) -> StationInfoView {
    StationInfoView {
        code,
        name: match f.head.custom_name {
            Some(n) => n,
            None => match f.source_entry {
                Some(entry) => factory_name(
                    entry,
                    match f.source_nameindex {
                        Some(v) => v as nat,
                        None => 1,
                    },
                ),
                None => match map_get(lk.component_names, lower(m)) {
                    Some(n) => n,
                    None => m,
                },
            },
        },
        owner: f.head.owner,
        owner_name: match f.head.owner {
            Some(o) => Some(
                match map_get(lk.faction_names, o) {
                    Some(n) => n,
                    None => capitalize(o),
                },
            ),
            None => None,
        },
        macro_name: m,
        offsets: f.acc.push(f.offset),
    }
}

/// State of the walk through a save for the stations of one sector.
pub struct WalkScan {
    pub searching: bool,
    pub frames: Seq<Frame>,
    pub stations: Seq<StationInfoView>,
    pub done: bool,
    pub failed: bool,
}

/// The end of the walked component finishes it (listing it if it is a station with a
/// code and a macro); other end tags close what they opened.
pub open spec fn walk_end(lk: StationLookups, st: WalkScan, n: Seq<char>) -> WalkScan {
    let f = st.frames.last();
    if n == "component"@ {
        if f.depth <= 1 {
            let stations = if f.head.is_station && f.head.code is Some && f.head.macro_name is Some {
                st.stations.push(station_of(f, f.head.code.unwrap(), f.head.macro_name.unwrap(), lk))
            } else {
                st.stations
            };
            let frames = st.frames.drop_last();
            WalkScan { frames, stations, done: frames.len() == 0, ..st }
        } else {
            WalkScan { frames: st.frames.drop_last().push(Frame { depth: (f.depth - 1) as nat, ..f }), ..st }
        }
    } else if n == "offset"@ {
        WalkScan { frames: st.frames.drop_last().push(Frame { in_offset: false, ..f }), ..st }
    } else if n == "connections"@ {
        WalkScan { frames: st.frames.drop_last().push(Frame { in_connections: false, ..f }), ..st }
    } else if n == "connection"@ {
        WalkScan { frames: st.frames.drop_last().push(Frame { in_connection: false, ..f }), ..st }
    } else {
        st
    }
}

pub open spec fn walk_tag(st: WalkScan, e: ElementView) -> WalkScan {
    let r = walk_start(st.frames.last(), e);
    let frames = st.frames.drop_last().push(r.0);
    match r.1 {
        Some(nf) => WalkScan { frames: frames.push(nf), ..st },
        None => WalkScan { frames, ..st },
    }
}

/// An empty tag opens and closes at once. A station component inside a connection is
/// listed as a station without content of its own; any other empty component, and an
/// empty `offset`, `connections` or `connection`, changes nothing; `position` and
/// `source` are read as from a start tag.
pub open spec fn walk_empty(lk: StationLookups, st: WalkScan, e: ElementView) -> WalkScan {
    if e.name == "component"@ {
        match walk_start(st.frames.last(), e).1 {
            Some(nf) => walk_end(lk, WalkScan { frames: st.frames.push(nf), ..st }, "component"@),
            None => st,
        }
    } else if e.name == "offset"@ || e.name == "connections"@ || e.name == "connection"@ {
        st
    } else {
        walk_tag(st, e)
    }
}

pub open spec fn walk_step(code: Seq<char>, lk: StationLookups, st: WalkScan, ev: EventView) -> WalkScan {
    if st.done || st.failed {
        st
    } else if st.searching {
        match ev {
            EventView::Start(e) => if e.name == "component"@ && has_attr_value(e.attrs, "class"@, "sector"@)
                && attr_of(e.attrs, "code"@) == Some(code) {
                WalkScan { searching: false, frames: seq![fresh_frame(sector_head(), Seq::empty())], ..st }
            } else {
                st
            },
            EventView::Eof => WalkScan { done: true, ..st },
            EventView::Error => WalkScan { failed: true, ..st },
            _ => st,
        }
    } else {
        match ev {
            EventView::Start(e) => walk_tag(st, e),
            EventView::Empty(e) => walk_empty(lk, st, e),
            EventView::End(n) => walk_end(lk, st, n),
            EventView::Eof => WalkScan { done: true, ..st },
            EventView::Error => WalkScan { failed: true, ..st },
            _ => st,
        }
    }
}

pub open spec fn walk_scan_start() -> WalkScan {
    WalkScan { searching: true, frames: Seq::empty(), stations: Seq::empty(), done: false, failed: false }
}

/// The stations of sector `code` with their offsets, or `None` when the save does not
/// parse before the sector's walk ends.
pub open spec fn sector_stations(evs: Seq<EventView>, code: Seq<char>, lk: StationLookups) -> Option<Seq<StationInfoView>> {
    let st = fold_events(evs, walk_scan_start(), |s: WalkScan, e: EventView| walk_step(code, lk, s, e));
    if st.failed {
        None
    } else {
        Some(st.stations)
    }
}

// ---------------------------------------------------------------------------
// Executable walk.
// ---------------------------------------------------------------------------

struct ExecHead {
    is_station: bool,
    code: Option<String>,
    macro_name: Option<String>,
    owner: Option<String>,
    custom_name: Option<String>,
}

impl View for ExecHead {
    type V = StationHead;

    closed spec fn view(&self) -> StationHead {
        StationHead {
            is_station: self.is_station,
            code: opt_view(self.code),
            macro_name: opt_view(self.macro_name),
            owner: opt_view(self.owner),
            custom_name: opt_view(self.custom_name),
        }
    }
}

struct ExecFrame {
    depth: usize,
    in_offset: bool,
    in_connections: bool,
    in_connection: bool,
    offset: OffsetTexts,
    source_entry: Option<String>,
    source_nameindex: Option<u32>,
    head: ExecHead,
    acc: Vec<OffsetTexts>,
}

impl View for ExecFrame {
    type V = Frame;

    closed spec fn view(&self) -> Frame {
        Frame {
            depth: self.depth as nat,
            in_offset: self.in_offset,
            in_connections: self.in_connections,
            in_connection: self.in_connection,
            offset: self.offset@,
            source_entry: opt_view(self.source_entry),
            source_nameindex: self.source_nameindex,
            head: self.head@,
            acc: self.acc@.map_values(|o: OffsetTexts| o@),
        }
    }
}

spec fn frames_view(v: Seq<ExecFrame>) -> Seq<Frame> {
    v.map_values(|f: ExecFrame| f@)
}

spec fn infos_view(v: Seq<StationInfo>) -> Seq<StationInfoView> {
    v.map_values(|s: StationInfo| s@)
}

fn copy_offset(o: &OffsetTexts) -> (r: OffsetTexts)
    ensures
        r@ == o@,
{
    OffsetTexts { x: copy_opt(&o.x), y: copy_opt(&o.y), z: copy_opt(&o.z) }
}

fn offsets_with(acc: &Vec<OffsetTexts>, last: &OffsetTexts) -> (r: Vec<OffsetTexts>)
    ensures
        r@.map_values(|o: OffsetTexts| o@) == acc@.map_values(|o: OffsetTexts| o@).push(last@),
{
    let mut r: Vec<OffsetTexts> = Vec::new();
    let mut i: usize = 0;
    while i < acc.len()
        invariant
            i <= acc@.len(),
            r@.map_values(|o: OffsetTexts| o@) == acc@.map_values(|o: OffsetTexts| o@).take(i as int),
        decreases acc.len() - i,
    {
        let ghost before = r@.map_values(|o: OffsetTexts| o@);
        r.push(copy_offset(&acc[i]));
        proof {
            assert(r@.map_values(|o: OffsetTexts| o@) =~= before.push(acc@[i as int]@));
            assert(acc@.map_values(|o: OffsetTexts| o@).take(i + 1) =~= acc@.map_values(|o: OffsetTexts| o@).take(
                i as int,
            ).push(acc@[i as int]@));
        }
        i += 1;
    }
    let ghost before = r@.map_values(|o: OffsetTexts| o@);
    r.push(copy_offset(last));
    proof {
        assert(acc@.map_values(|o: OffsetTexts| o@).take(acc@.len() as int) =~= acc@.map_values(|o: OffsetTexts| o@));
        assert(r@.map_values(|o: OffsetTexts| o@) =~= before.push(last@));
    }
    r
}

fn new_frame(head: ExecHead, acc: Vec<OffsetTexts>) -> (f: ExecFrame)
    ensures
        f@ == fresh_frame(head@, acc@.map_values(|o: OffsetTexts| o@)),
{
    ExecFrame {
        depth: 1,
        in_offset: false,
        in_connections: false,
        in_connection: false,
        offset: OffsetTexts { x: None, y: None, z: None },
        source_entry: None,
        source_nameindex: None,
        head,
        acc,
    }
}

fn read_position_exec(o: &mut OffsetTexts, e: &XmlElement)
    ensures
        final(o)@ == read_position(old(o)@, e@.attrs),
{
    match e.attr("x") {
        Some(v) => {
            o.x = Some(v.clone());
        },
        None => {},
    }
    match e.attr("y") {
        Some(v) => {
            o.y = Some(v.clone());
        },
        None => {},
    }
    match e.attr("z") {
        Some(v) => {
            o.z = Some(v.clone());
        },
        None => {},
    }
}

/// Applies a tag to the top frame; returns the frame of a station whose walk starts.
fn walk_start_exec(f: &mut ExecFrame, e: &XmlElement) -> (nf: Option<ExecFrame>)
    requires
        old(f)@.depth < usize::MAX,
    ensures
        final(f)@ == walk_start(old(f)@, e@).0,
        match nf {
            Some(n) => walk_start(old(f)@, e@).1 == Some(n@),
            None => walk_start(old(f)@, e@).1 is None,
        },
{
    if e.is("component") {
        let is_station = match e.attr("class") {
            Some(c) => str_eq(c.as_str(), "station"),
            None => false,
        };
        if f.in_connections && f.in_connection && is_station {
            let head = ExecHead {
                is_station: true,
                code: e.attr_string("code"),
                macro_name: e.attr_string("macro"),
                owner: e.attr_string("owner"),
                custom_name: e.attr_string("name"),
            };
            let acc = offsets_with(&f.acc, &f.offset);
            return Some(new_frame(head, acc));
        }
        f.depth = f.depth + 1;
        None
    } else if e.is("offset") {
        f.in_offset = true;
        None
    } else if e.is("position") && f.in_offset {
        read_position_exec(&mut f.offset, e);
        None
    } else if e.is("source") {
        match e.attr("entry") {
            Some(v) => {
                f.source_entry = Some(v.clone());
            },
            None => {},
        }
        match e.attr("nameindex") {
            Some(t) => {
                let tc = chars_of(t.as_str());
                f.source_nameindex = parse_u32_chars(tc.as_slice());
            },
            None => {},
        }
        None
    } else if e.is("connections") {
        f.in_connections = true;
        None
    } else if e.is("connection") && f.in_connections {
        f.in_connection = true;
        None
    } else {
        None
    }
}

fn station_info_exec(
    f: &ExecFrame,
    code: &String,
    m: &String,
    component_names: &StrMap<String>,
    faction_names: &StrMap<String>,
) -> (s: StationInfo)
    ensures
        s@ == station_of(
            f@,
            code@,
            m@,
            StationLookups { component_names: component_names@, faction_names: faction_names@ },
        ),
{
    let name = match &f.head.custom_name {
        Some(n) => n.clone(),
        None => match &f.source_entry {
            Some(entry) => {
                let idx = match f.source_nameindex {
                    Some(v) => v,
                    None => 1,
                };
                factory_name_of(entry.as_str(), idx)
            },
            None => {
                let key = to_lower(m.as_str());
                match component_names.get(key.as_str()) {
                    Some(n) => n.clone(),
                    None => m.clone(),
                }
            },
        },
    };
    let owner_name = match &f.head.owner {
        Some(o) => Some(
            match faction_names.get(o.as_str()) {
                Some(n) => n.clone(),
                None => capitalize_first(o.as_str()),
            },
        ),
        None => None,
    };
    StationInfo {
        code: code.clone(),
        name,
        owner: copy_opt(&f.head.owner),
        owner_name,
        macro_name: m.clone(),
        offsets: offsets_with(&f.acc, &f.offset),
    }
}

/// Stations of sector `sector_code` with their positions: the sector's component is
/// found, then walked; each station component inside a connection is walked in turn,
/// its position accumulating the offsets of the components around it. Fails when the
/// save does not parse before that walk ends.
pub fn extract_stations_for_sector(
    xml_content: &str,
    sector_code: &str,
    component_names: &StrMap<String>,
    faction_names: &StrMap<String>,
) -> (r: Result<Vec<StationInfo>, XmlParseError>)
    ensures
        ({
            let lk = StationLookups { component_names: component_names@, faction_names: faction_names@ };
            match r {
                Ok(v) => sector_stations(xml_events(xml_content@), sector_code@, lk) == Some(
                    v@.map_values(|s: StationInfo| s@),
                ),
                Err(_) => sector_stations(xml_events(xml_content@), sector_code@, lk) is None,
            }
        }),
{
    let events = tokenize(xml_content);
    sector_stations_from_events(events.as_slice(), sector_code, component_names, faction_names)
}

/// The same as `extract_stations_for_sector`, on the events of the text.
pub fn sector_stations_from_events(
    events: &[XmlEvent],
    sector_code: &str,
    component_names: &StrMap<String>,
    faction_names: &StrMap<String>,
) -> (r: Result<Vec<StationInfo>, XmlParseError>)
    ensures
        ({
            let lk = StationLookups { component_names: component_names@, faction_names: faction_names@ };
            match r {
                Ok(v) => sector_stations(views(events@), sector_code@, lk) == Some(
                    v@.map_values(|s: StationInfo| s@),
                ),
                Err(_) => sector_stations(views(events@), sector_code@, lk) is None,
            }
        }),
{
    let ghost evs = views(events@);
    let ghost lk = StationLookups { component_names: component_names@, faction_names: faction_names@ };
    let ghost code = sector_code@;
    let mut searching = true;
    let mut frames: Vec<ExecFrame> = Vec::new();
    let mut stations: Vec<StationInfo> = Vec::new();
    let mut done = false;
    let mut failed = false;
    let mut i: usize = 0;
    proof {
        assert(frames_view(frames@) =~= Seq::<Frame>::empty());
        assert(infos_view(stations@) =~= Seq::<StationInfoView>::empty());
    }
    while i < events.len()
        invariant
            i <= events@.len(),
            evs == views(events@),
            lk == (StationLookups { component_names: component_names@, faction_names: faction_names@ }),
            code == sector_code@,
            !searching && !done && !failed ==> frames@.len() > 0,
            searching ==> frames@.len() == 0,
            forall|j: int| 0 <= j < frames@.len() ==> (#[trigger] frames@[j])@.depth <= i,
            fold_events(evs.take(i as int), walk_scan_start(), |s: WalkScan, e: EventView| walk_step(code, lk, s, e))
                == (WalkScan {
                searching,
                frames: frames_view(frames@),
                stations: infos_view(stations@),
                done,
                failed,
            }),
        decreases events.len() - i,
    {
        proof {
            lemma_fold_events_next(evs, i as int, walk_scan_start(), |s: WalkScan, e: EventView| walk_step(code, lk, s, e));
            assert(evs[i as int] == events@[i as int]@);
        }
        let ghost fv0 = frames_view(frames@);
        let ghost sv0 = infos_view(stations@);
        let ghost st0 = WalkScan { searching, frames: fv0, stations: sv0, done, failed };
        if !done && !failed {
            if searching {
                match &events[i] {
                    XmlEvent::Start(e) => {
                        if e.is("component") && e.has_attr_value("class", "sector") {
                            let same = match e.attr("code") {
                                Some(c) => str_eq(c.as_str(), sector_code),
                                None => false,
                            };
                            if same {
                                searching = false;
                                let head = ExecHead {
                                    is_station: false,
                                    code: None,
                                    macro_name: None,
                                    owner: None,
                                    custom_name: None,
                                };
                                let f = new_frame(head, Vec::new());
                                frames.push(f);
                                proof {
                                    assert(f@.acc =~= Seq::<OffsetView>::empty());
                                    assert(frames_view(frames@) =~= seq![fresh_frame(sector_head(), Seq::empty())]);
                                }
                            }
                        }
                    },
                    XmlEvent::Eof => {
                        done = true;
                    },
                    XmlEvent::Error => {
                        failed = true;
                    },
                    _ => {},
                }
            } else {
                match &events[i] {
                    XmlEvent::Start(e) => {
                        let mut top = frames.pop().unwrap();
                        proof {
                            assert(fv0.last() == top@);
                            assert(frames_view(frames@) =~= fv0.drop_last());
                        }
                        let nf = walk_start_exec(&mut top, e);
                        frames.push(top);
                        match nf {
                            Some(n) => {
                                frames.push(n);
                            },
                            None => {},
                        }
                        proof {
                            let r = walk_start(fv0.last(), e@);
                            match r.1 {
                                Some(nfv) => {
                                    assert(frames_view(frames@) =~= fv0.drop_last().push(r.0).push(nfv));
                                },
                                None => {
                                    assert(frames_view(frames@) =~= fv0.drop_last().push(r.0));
                                },
                            }
                        }
                    },
                    XmlEvent::Empty(e) => {
                        if e.is("component") {
                            let top = &frames[frames.len() - 1];
                            proof {
                                assert(fv0.last() == top@);
                            }
                            let is_station = match e.attr("class") {
                                Some(c) => str_eq(c.as_str(), "station"),
                                None => false,
                            };
                            if top.in_connections && top.in_connection && is_station {
                                let head = ExecHead {
                                    is_station: true,
                                    code: e.attr_string("code"),
                                    macro_name: e.attr_string("macro"),
                                    owner: e.attr_string("owner"),
                                    custom_name: e.attr_string("name"),
                                };
                                let acc = offsets_with(&top.acc, &top.offset);
                                let nf = new_frame(head, acc);
                                proof {
                                    assert(walk_start(fv0.last(), e@).1 == Some(nf@));
                                }
                                match (&nf.head.code, &nf.head.macro_name) {
                                    (Some(c), Some(m)) => {
                                        let s = station_info_exec(&nf, c, m, component_names, faction_names);
                                        stations.push(s);
                                        proof {
                                            assert(infos_view(stations@) =~= sv0.push(s@));
                                        }
                                    },
                                    _ => {},
                                }
                                proof {
                                    assert(fv0.push(nf@).drop_last() =~= fv0);
                                }
                            } else {
                                proof {
                                    assert(walk_start(fv0.last(), e@).1 is None);
                                }
                            }
                        } else if e.is("offset") || e.is("connections") || e.is("connection") {
                        } else {
                            let mut top = frames.pop().unwrap();
                            proof {
                                assert(fv0.last() == top@);
                                assert(frames_view(frames@) =~= fv0.drop_last());
                            }
                            let nf = walk_start_exec(&mut top, e);
                            frames.push(top);
                            match nf {
                                Some(n) => {
                                    frames.push(n);
                                },
                                None => {},
                            }
                            proof {
                                let r = walk_start(fv0.last(), e@);
                                match r.1 {
                                    Some(nfv) => {
                                        assert(frames_view(frames@) =~= fv0.drop_last().push(r.0).push(nfv));
                                    },
                                    None => {
                                        assert(frames_view(frames@) =~= fv0.drop_last().push(r.0));
                                    },
                                }
                            }
                        }
                    },
                    XmlEvent::End(n) => {
                        let mut top = frames.pop().unwrap();
                        proof {
                            assert(fv0.last() == top@);
                            assert(frames_view(frames@) =~= fv0.drop_last());
                        }
                        if str_eq(n.as_str(), "component") {
                            if top.depth <= 1 {
                                if top.head.is_station {
                                    match (&top.head.code, &top.head.macro_name) {
                                        (Some(c), Some(m)) => {
                                            let s = station_info_exec(&top, c, m, component_names, faction_names);
                                            stations.push(s);
                                            proof {
                                                assert(infos_view(stations@) =~= sv0.push(s@));
                                            }
                                        },
                                        _ => {},
                                    }
                                }
                                if frames.len() == 0 {
                                    done = true;
                                }
                            } else {
                                top.depth = top.depth - 1;
                                frames.push(top);
                                proof {
                                    assert(frames_view(frames@) =~= fv0.drop_last().push(
                                        Frame { depth: (fv0.last().depth - 1) as nat, ..fv0.last() },
                                    ));
                                }
                            }
                        } else {
                            if str_eq(n.as_str(), "offset") {
                                top.in_offset = false;
                            } else if str_eq(n.as_str(), "connections") {
                                top.in_connections = false;
                            } else if str_eq(n.as_str(), "connection") {
                                top.in_connection = false;
                            }
                            frames.push(top);
                            proof {
                                assert(frames_view(frames@) =~= fv0.drop_last().push(frames@.last()@));
                                if n@ != "offset"@ && n@ != "connections"@ && n@ != "connection"@ {
                                    assert(frames_view(frames@) =~= fv0);
                                }
                            }
                        }
                    },
                    XmlEvent::Eof => {
                        done = true;
                    },
                    XmlEvent::Error => {
                        failed = true;
                    },
                    _ => {},
                }
            }
        }
        assert(walk_step(code, lk, st0, evs[i as int]) == (WalkScan {
            searching,
            frames: frames_view(frames@),
            stations: infos_view(stations@),
            done,
            failed,
        }));
        proof {
            assert forall|j: int| 0 <= j < frames@.len() implies (#[trigger] frames@[j])@.depth <= i + 1 by {
                if j < fv0.len() - 1 {
                    assert(frames_view(frames@)[j] == fv0[j]);
                }
            }
        }
        i += 1;
    }
    proof {
        assert(evs.take(events@.len() as int) =~= evs);
    }
    if failed {
        Err(XmlParseError)
    } else {
        Ok(stations)
    }
}

} // verus!
