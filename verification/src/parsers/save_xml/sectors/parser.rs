use vstd::prelude::*;
use crate::models::{copy_opt, opt_view, Sector, SectorView};
use crate::parsers::game_xml::{resolve_name, resolved_name, LocView, Localization};
use crate::parsers::save_xml::helpers::map_get;
use crate::strmap::StrMap;
use crate::text::{lower, str_eq, to_lower};
use crate::xml::{
    attr_of, fold_events, lemma_fold_events_next, tokenize, views, xml_events, ElementView,
    EventView, XmlElement, XmlEvent, XmlParseError, is_terminal, well_formed_stream,
};

verus! {

/// The name lookups that sectors are named with.
pub struct SectorLookups {
    pub sector_names: Map<Seq<char>, Seq<char>>,
    pub component_names: Map<Seq<char>, Seq<char>>,
    pub sector_code_names: Map<Seq<char>, Seq<char>>,
    pub loc: LocView,
}

/// The name of sector `c` with macro `m`: the pending identification name, else the
/// name of its code, else the sector or component name of its macro, else the code.
pub open spec fn chosen_name(ident: Option<Seq<char>>, c: Seq<char>, m: Seq<char>, lk: SectorLookups) -> Seq<char> {
    match ident {
        Some(n) => n,
        None => match map_get(lk.sector_code_names, c) {
            Some(d) => d,
            None => match map_get(lk.sector_names, lower(m)) {
                Some(x) => x,
                None => match map_get(lk.component_names, lower(m)) {
                    Some(y) => y,
                    None => c,
                },
            },
        },
    }
}

/// Whether the tag has attribute `k` with value `v`.
pub open spec fn has_attr_value(attrs: Seq<(Seq<char>, Seq<char>)>, k: Seq<char>, v: Seq<char>) -> bool {
    attrs.contains((k, v))
}

/// State of the sector scan.
pub struct SectorParse {
    pub in_sector: bool,
    pub depth: nat,
    pub code: Option<Seq<char>>,
    pub macro_name: Option<Seq<char>>,
    pub ident: Option<Seq<char>>,
    pub owner: Option<Seq<char>>,
    pub seen: Set<Seq<char>>,
    pub sectors: Seq<SectorView>,
    pub failed: bool,
}

/// Whether some listed sector has code `c`.
pub open spec fn listed(sectors: Seq<SectorView>, c: Seq<char>) -> bool {
    exists|i: int| 0 <= i < sectors.len() && #[trigger] sectors[i].code == c
}

/// Inside a sector: one more level, and an identification (element, or component of
/// class `identification`) with a name becomes the pending name.
pub open spec fn inner_start(st: SectorParse, e: ElementView, lk: SectorLookups) -> SectorParse {
    let st1 = SectorParse { depth: st.depth + 1, ..st };
    if e.name == "identification"@ {
        match attr_of(e.attrs, "name"@) {
            Some(n) => SectorParse { ident: Some(resolved_name(n, lk.loc)), ..st1 },
            None => st1,
        }
    } else if e.name == "component"@ {
        if has_attr_value(e.attrs, "class"@, "identification"@) && attr_of(e.attrs, "name"@) is Some {
            SectorParse { ident: Some(resolved_name(attr_of(e.attrs, "name"@).unwrap(), lk.loc)), ..st1 }
        } else {
            st1
        }
    } else {
        st1
    }
}

/// A sector component listed once per code (first occurrence).
pub open spec fn list_new(st: SectorParse, attrs: Seq<(Seq<char>, Seq<char>)>, lk: SectorLookups) -> SectorParse {
    match (attr_of(attrs, "code"@), attr_of(attrs, "macro"@)) {
        (Some(c), Some(m)) => if st.seen.contains(c) {
            st
        } else {
            SectorParse {
                seen: st.seen.insert(c),
                sectors: st.sectors.push(
                    SectorView {
                        code: c,
                        macro_name: m,
                        name: chosen_name(st.ident, c, m, lk),
                        owner: attr_of(attrs, "owner"@),
                    },
                ),
                ..st
            }
        },
        _ => st,
    }
}

/// A sector component's start tag opens the sector and lists it.
pub open spec fn sector_start(st: SectorParse, attrs: Seq<(Seq<char>, Seq<char>)>, lk: SectorLookups) -> SectorParse {
    if has_attr_value(attrs, "class"@, "sector"@) {
        let st1 = SectorParse {
            in_sector: true,
            depth: 0,
            code: attr_of(attrs, "code"@),
            macro_name: attr_of(attrs, "macro"@),
            owner: attr_of(attrs, "owner"@),
            ..st
        };
        list_new(st1, attrs, lk)
    } else {
        st
    }
}

/// The end of the sector component lists it if it is not listed yet, and closes it.
pub open spec fn sector_end(st: SectorParse, lk: SectorLookups) -> SectorParse {
    let st1 = match (st.code, st.macro_name) {
        (Some(c), Some(m)) => if listed(st.sectors, c) {
            st
        } else {
            SectorParse {
                sectors: st.sectors.push(
                    SectorView { code: c, macro_name: m, name: chosen_name(st.ident, c, m, lk), owner: st.owner },
                ),
                ..st
            }
        },
        _ => st,
    };
    SectorParse { in_sector: false, ident: None, owner: None, ..st1 }
}

pub open spec fn sector_step(lk: SectorLookups, st: SectorParse, ev: EventView) -> SectorParse {
    if st.failed {
        st
    } else {
        match ev {
            EventView::Start(e) => {
                let st1 = if st.in_sector { inner_start(st, e, lk) } else { st };
                if e.name == "component"@ {
                    sector_start(st1, e.attrs, lk)
                } else {
                    st1
                }
            },
            EventView::End(n) => if st.in_sector {
                if st.depth == 0 && n == "component"@ {
                    sector_end(st, lk)
                } else if st.depth > 0 {
                    SectorParse { depth: (st.depth - 1) as nat, ..st }
                } else {
                    st
                }
            } else {
                st
            },
            EventView::Empty(e) => if e.name == "component"@ && has_attr_value(e.attrs, "class"@, "sector"@) {
                list_new(st, e.attrs, lk)
            } else {
                st
            },
            EventView::Error => SectorParse { failed: true, ..st },
            _ => st,
        }
    }
}

pub open spec fn sector_parse_start() -> SectorParse {
    SectorParse {
        in_sector: false,
        depth: 0,
        code: None,
        macro_name: None,
        ident: None,
        owner: None,
        seen: Set::empty(),
        sectors: Seq::empty(),
        failed: false,
    }
}

/// The sectors of a save in the order found, or `None` when it does not parse.
pub open spec fn sectors_in(evs: Seq<EventView>, lk: SectorLookups) -> Option<Seq<SectorView>> {
    let st = fold_events(evs, sector_parse_start(), |s: SectorParse, e: EventView| sector_step(lk, s, e));
    if st.failed {
        None
    } else {
        Some(st.sectors)
    }
}

/// What the sector scan keeps: no code is listed twice, every listed code is in `seen`
/// and every code in `seen` is listed, and an open sector with a code and a macro is
/// already listed.
pub open spec fn sector_scan_inv(st: SectorParse) -> bool {
    &&& forall|i: int, j: int|
        #![trigger st.sectors[i], st.sectors[j]]
        0 <= i < j < st.sectors.len() ==> st.sectors[i].code != st.sectors[j].code
    &&& forall|i: int| 0 <= i < st.sectors.len() ==> st.seen.contains(#[trigger] st.sectors[i].code)
    &&& forall|c: Seq<char>| #[trigger] st.seen.contains(c) ==> listed(st.sectors, c)
    &&& (st.in_sector && st.code is Some && st.macro_name is Some) ==> st.seen.contains(st.code.unwrap())
}

proof fn lemma_list_new_inv(st: SectorParse, attrs: Seq<(Seq<char>, Seq<char>)>, lk: SectorLookups)
    requires
        sector_scan_inv(st),
    ensures
        sector_scan_inv(list_new(st, attrs, lk)),
        list_new(st, attrs, lk).in_sector == st.in_sector,
        list_new(st, attrs, lk).code == st.code,
        list_new(st, attrs, lk).macro_name == st.macro_name,
        (attr_of(attrs, "code"@) is Some && attr_of(attrs, "macro"@) is Some) ==> list_new(
            st,
            attrs,
            lk,
        ).seen.contains(attr_of(attrs, "code"@).unwrap()),
{
    let r = list_new(st, attrs, lk);
    if r.sectors.len() != st.sectors.len() {
        let c = attr_of(attrs, "code"@).unwrap();
        assert(r.sectors.drop_last() =~= st.sectors);
        assert forall|i: int, j: int|
            #![trigger r.sectors[i], r.sectors[j]]
            0 <= i < j < r.sectors.len() implies r.sectors[i].code != r.sectors[j].code by {
            assert(r.sectors[i] == st.sectors[i]);
            if j < st.sectors.len() {
                assert(r.sectors[j] == st.sectors[j]);
            } else {
                assert(st.seen.contains(st.sectors[i].code));
            }
        }
        assert forall|i: int| 0 <= i < r.sectors.len() implies r.seen.contains(#[trigger] r.sectors[i].code) by {
            if i < st.sectors.len() {
                assert(r.sectors[i] == st.sectors[i]);
            }
        }
        assert forall|c2: Seq<char>| #[trigger] r.seen.contains(c2) implies listed(r.sectors, c2) by {
            if c2 == c {
                assert(r.sectors[r.sectors.len() - 1].code == c);
            } else {
                assert(listed(st.sectors, c2));
                let k = choose|k: int| 0 <= k < st.sectors.len() && #[trigger] st.sectors[k].code == c2;
                assert(r.sectors[k] == st.sectors[k]);
            }
        }
    }
}

proof fn lemma_sector_step_inv(lk: SectorLookups, st: SectorParse, ev: EventView)
    requires
        sector_scan_inv(st),
    ensures
        sector_scan_inv(sector_step(lk, st, ev)),
{
    if !st.failed {
        match ev {
            EventView::Start(e) => {
                let st1 = if st.in_sector { inner_start(st, e, lk) } else { st };
                assert(sector_scan_inv(st1));
                if e.name == "component"@ && has_attr_value(e.attrs, "class"@, "sector"@) {
                    let st2 = SectorParse {
                        in_sector: true,
                        depth: 0,
                        code: attr_of(e.attrs, "code"@),
                        macro_name: attr_of(e.attrs, "macro"@),
                        owner: attr_of(e.attrs, "owner"@),
                        ..st1
                    };
                    assert(sector_scan_inv(SectorParse { in_sector: false, ..st2 }));
                    lemma_list_new_inv(SectorParse { in_sector: false, ..st2 }, e.attrs, lk);
                    assert(list_new(st2, e.attrs, lk) == SectorParse {
                        in_sector: true,
                        ..list_new(SectorParse { in_sector: false, ..st2 }, e.attrs, lk)
                    });
                }
            },
            EventView::End(n) => {
                if st.in_sector && st.depth == 0 && n == "component"@ {
                    let r = sector_end(st, lk);
                    if st.code is Some && st.macro_name is Some {
                        assert(listed(st.sectors, st.code.unwrap()));
                    }
                    assert(r.sectors == st.sectors);
                }
            },
            EventView::Empty(e) => {
                if e.name == "component"@ && has_attr_value(e.attrs, "class"@, "sector"@) {
                    lemma_list_new_inv(st, e.attrs, lk);
                }
            },
            _ => {},
        }
    }
}

proof fn lemma_sector_fold_inv(lk: SectorLookups, evs: Seq<EventView>)
    ensures
        sector_scan_inv(fold_events(evs, sector_parse_start(), |s: SectorParse, e: EventView| sector_step(lk, s, e))),
    decreases evs.len(),
{
    if evs.len() > 0 {
        lemma_sector_fold_inv(lk, evs.drop_last());
        lemma_sector_step_inv(
            lk,
            fold_events(evs.drop_last(), sector_parse_start(), |s: SectorParse, e: EventView| sector_step(lk, s, e)),
            evs.last(),
        );
    }
}

/// The sector scan lists each sector code once.
pub proof fn law_sector_codes_distinct(evs: Seq<EventView>, lk: SectorLookups)
    ensures
        match sectors_in(evs, lk) {
            Some(v) => forall|i: int, j: int| 0 <= i < j < v.len() ==> #[trigger] v[i].code != #[trigger] v[j].code,
            None => true,
        },
{
    lemma_sector_fold_inv(lk, evs);
}

impl XmlElement {
    /// Whether the tag has attribute `key` with value `value`.
    pub fn has_attr_value(&self, key: &str, value: &str) -> (b: bool)
        ensures
            b == has_attr_value(self@.attrs, key@, value@),
    {
        let mut i: usize = 0;
        while i < self.attrs.len()
            invariant
                i <= self.attrs@.len(),
                forall|j: int| 0 <= j < i ==> #[trigger] self@.attrs[j] != (key@, value@),
            decreases self.attrs.len() - i,
        {
            if str_eq(self.attrs[i].key.as_str(), key) && str_eq(self.attrs[i].value.as_str(), value) {
                proof {
                    assert(self@.attrs[i as int] == (key@, value@));
                }
                return true;
            }
            i += 1;
        }
        false
    }
}

/// Mutable form of the scan state.
struct SectorParseState {
    in_sector: bool,
    depth: usize,
    code: Option<String>,
    macro_name: Option<String>,
    ident: Option<String>,
    owner: Option<String>,
    seen: StrMap<()>,
    sectors: Vec<Sector>,
}

impl View for SectorParseState {
    type V = SectorParse;

    closed spec fn view(&self) -> SectorParse {
        SectorParse {
            in_sector: self.in_sector,
            depth: self.depth as nat,
            code: opt_view(self.code),
            macro_name: opt_view(self.macro_name),
            ident: opt_view(self.ident),
            owner: opt_view(self.owner),
            seen: self.seen@.dom(),
            sectors: self.sectors@.map_values(|s: Sector| s@),
            failed: false,
        }
    }
}

/// The name of a sector (see `chosen_name`).
pub fn chosen_name_of(
    ident: &Option<String>,
    c: &String,
    m: &String,
    sector_names: &StrMap<String>,
    component_names: &StrMap<String>,
    sector_code_names: &StrMap<String>,
    localization: &Localization,
) -> (r: String)
    ensures
        r@ == chosen_name(
            opt_view(*ident),
            c@,
            m@,
            SectorLookups {
                sector_names: sector_names@,
                component_names: component_names@,
                sector_code_names: sector_code_names@,
                loc: localization@,
            },
        ),
{
    match ident {
        Some(n) => n.clone(),
        None => match sector_code_names.get(c.as_str()) {
            Some(d) => d.clone(),
            None => {
                let key = to_lower(m.as_str());
                match sector_names.get(key.as_str()) {
                    Some(x) => x.clone(),
                    None => match component_names.get(key.as_str()) {
                        Some(y) => y.clone(),
                        None => c.clone(),
                    },
                }
            },
        },
    }
}

impl SectorParseState {
    fn list_new(
        &mut self,
        e: &XmlElement,
        sector_names: &StrMap<String>,
        component_names: &StrMap<String>,
        sector_code_names: &StrMap<String>,
        localization: &Localization,
    )
        ensures
            final(self)@ == list_new(
                old(self)@,
                e@.attrs,
                SectorLookups {
                    sector_names: sector_names@,
                    component_names: component_names@,
                    sector_code_names: sector_code_names@,
                    loc: localization@,
                },
            ),
    {
        match (e.attr("code"), e.attr("macro")) {
            (Some(c), Some(m)) => {
                if !self.seen.contains_key(c.as_str()) {
                    let ghost s0 = self@;
                    self.seen.insert(c.clone(), ());
                    let name = chosen_name_of(
                        &self.ident,
                        c,
                        m,
                        sector_names,
                        component_names,
                        sector_code_names,
                        localization,
                    );
                    self.sectors.push(
                        Sector { code: c.clone(), macro_name: m.clone(), name, owner: e.attr_string("owner") },
                    );
                    proof {
                        assert(self@.seen =~= s0.seen.insert(c@));
                        assert(self@.sectors =~= s0.sectors.push(self.sectors@.last()@));
                    }
                }
            },
            _ => {},
        }
    }

    fn is_listed(&self, c: &String) -> (b: bool)
        ensures
            b == listed(self@.sectors, c@),
    {
        let ghost sv = self@.sectors;
        let mut i: usize = 0;
        while i < self.sectors.len()
            invariant
                i <= self.sectors@.len(),
                sv == self@.sectors,
                forall|j: int| 0 <= j < i ==> #[trigger] sv[j].code != c@,
            decreases self.sectors.len() - i,
        {
            if str_eq(self.sectors[i].code.as_str(), c.as_str()) {
                proof {
                    assert(sv[i as int].code == c@);
                }
                return true;
            }
            i += 1;
        }
        false
    }
}

/// The sectors of a save in the order found: each sector component, listed when its
/// start (or empty) tag is read, or, if its code is not listed yet, at its end tag;
/// named by its identification, its code, its macro, or the code itself. Fails when the
/// save is not well-formed XML.
pub fn parse_sectors(
    xml_content: &str,
    sector_names: &StrMap<String>,
    component_names: &StrMap<String>,
    sector_code_names: &StrMap<String>,
    localization: &Localization,
) -> (r: Result<Vec<Sector>, XmlParseError>)
    ensures
        ({
            let lk = SectorLookups {
                sector_names: sector_names@,
                component_names: component_names@,
                sector_code_names: sector_code_names@,
                loc: localization@,
            };
            match r {
                Ok(v) => sectors_in(xml_events(xml_content@), lk) == Some(v@.map_values(|s: Sector| s@)),
                Err(_) => sectors_in(xml_events(xml_content@), lk) is None,
            }
        }),
{
    let events = tokenize(xml_content);
    sectors_from_events(events.as_slice(), sector_names, component_names, sector_code_names, localization)
}

/// The same as `parse_sectors`, on the events of the text.
pub fn sectors_from_events(
    events: &[XmlEvent],
    sector_names: &StrMap<String>,
    component_names: &StrMap<String>,
    sector_code_names: &StrMap<String>,
    localization: &Localization,
) -> (r: Result<Vec<Sector>, XmlParseError>)
    requires
        well_formed_stream(views(events@)),
    ensures
        ({
            let lk = SectorLookups {
                sector_names: sector_names@,
                component_names: component_names@,
                sector_code_names: sector_code_names@,
                loc: localization@,
            };
            match r {
                Ok(v) => sectors_in(views(events@), lk) == Some(v@.map_values(|s: Sector| s@)),
                Err(_) => sectors_in(views(events@), lk) is None,
            }
        }),
{
    let ghost evs = views(events@);
    let ghost lk = SectorLookups {
        sector_names: sector_names@,
        component_names: component_names@,
        sector_code_names: sector_code_names@,
        loc: localization@,
    };
    let mut st = SectorParseState {
        in_sector: false,
        depth: 0,
        code: None,
        macro_name: None,
        ident: None,
        owner: None,
        seen: StrMap::new(),
        sectors: Vec::new(),
    };
    proof {
        assert(st.seen@.dom() =~= Set::<Seq<char>>::empty());
        assert(st.sectors@.map_values(|s: Sector| s@) =~= Seq::<SectorView>::empty());
        assert(st@ == sector_parse_start());
    }
    let mut i: usize = 0;
    while i < events.len()
        invariant
            i <= events@.len(),
            evs == views(events@),
            lk == (SectorLookups {
                sector_names: sector_names@,
                component_names: component_names@,
                sector_code_names: sector_code_names@,
                loc: localization@,
            }),
            st.depth <= i,
            well_formed_stream(evs),
            fold_events(evs.take(i as int), sector_parse_start(), |s: SectorParse, e: EventView| sector_step(lk, s, e))
                == st@,
        decreases events.len() - i,
    {
        proof {
            lemma_fold_events_next(evs, i as int, sector_parse_start(), |s: SectorParse, e: EventView| sector_step(lk, s, e));
            assert(evs[i as int] == events@[i as int]@);
        }
        let ghost s0 = st@;
        match &events[i] {
            XmlEvent::Start(e) => {
                if st.in_sector {
                    st.depth = st.depth + 1;
                    if e.is("identification") {
                        match e.attr("name") {
                            Some(n) => {
                                st.ident = Some(resolve_name(n.as_str(), localization));
                            },
                            None => {},
                        }
                    } else if e.is("component") {
                        if e.has_attr_value("class", "identification") {
                            match e.attr("name") {
                                Some(n) => {
                                    st.ident = Some(resolve_name(n.as_str(), localization));
                                },
                                None => {},
                            }
                        }
                    }
                    assert(st@ == inner_start(s0, e@, lk));
                }
                if e.is("component") && e.has_attr_value("class", "sector") {
                    st.in_sector = true;
                    st.depth = 0;
                    st.code = e.attr_string("code");
                    st.macro_name = e.attr_string("macro");
                    st.owner = e.attr_string("owner");
                    st.list_new(e, sector_names, component_names, sector_code_names, localization);
                }
            },
            XmlEvent::End(n) => {
                if st.in_sector {
                    if st.depth == 0 && str_eq(n.as_str(), "component") {
                        match (&st.code, &st.macro_name) {
                            (Some(c), Some(m)) => {
                                if !st.is_listed(c) {
                                    let name = chosen_name_of(
                                        &st.ident,
                                        c,
                                        m,
                                        sector_names,
                                        component_names,
                                        sector_code_names,
                                        localization,
                                    );
                                    let s = Sector {
                                        code: c.clone(),
                                        macro_name: m.clone(),
                                        name,
                                        owner: copy_opt(&st.owner),
                                    };
                                    let ghost sv = st@.sectors;
                                    st.sectors.push(s);
                                    proof {
                                        assert(st@.sectors =~= sv.push(st.sectors@.last()@));
                                    }
                                }
                            },
                            _ => {},
                        }
                        st.in_sector = false;
                        st.ident = None;
                        st.owner = None;
                    } else if st.depth > 0 {
                        st.depth = st.depth - 1;
                    }
                }
            },
            XmlEvent::Empty(e) => {
                if e.is("component") && e.has_attr_value("class", "sector") {
                    st.list_new(e, sector_names, component_names, sector_code_names, localization);
                }
            },
            XmlEvent::Error => {
                proof {
                    assert(is_terminal(evs[i as int]));
                    assert(evs.take(i + 1) =~= evs);
                    let fin = fold_events(evs, sector_parse_start(), |s: SectorParse, e: EventView| sector_step(lk, s, e));
                    assert(fin == sector_step(lk, s0, evs[i as int]));
                }
                return Err(XmlParseError);
            },
            _ => {},
        }
        assert(st@ == sector_step(lk, s0, evs[i as int]));
        i += 1;
    }
    proof {
        assert(evs.take(events@.len() as int) =~= evs);
    }
    Ok(st.sectors)
}

} // verus!
