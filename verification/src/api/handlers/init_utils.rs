use vstd::prelude::*;
use crate::models::opt_view;
use crate::patterns::{compile_regex, escape_regex, first_capture, first_group, regex_compiles, regex_escaped, CompiledRegex};
use crate::parsers::cat_dat::XmlEntry;
use crate::parsers::game_xml::{resolve_name, resolved_name, LocView, Localization};
use crate::parsers::save_xml::sectors::parser::has_attr_value;
use crate::strmap::StrMap;
use crate::text::{chars_of, lower, string_of, to_lower};
use crate::xml::{attr_of, fold_events, lemma_fold_events_next, tokenize, views, xml_events, EventView, XmlEvent};

verus! {

// ---------------------------------------------------------------------------
// Name overrides.
// ---------------------------------------------------------------------------

/// `names` with each override set in turn, under its lower-cased key.
pub open spec fn with_overrides(names: Map<Seq<char>, Seq<char>>, overrides: Seq<(Seq<char>, Seq<char>)>) -> Map<
    Seq<char>,
    Seq<char>,
>
    decreases overrides.len(),
{
    if overrides.len() == 0 {
        names
    } else {
        with_overrides(names, overrides.drop_last()).insert(lower(overrides.last().0), overrides.last().1)
    }
}

pub open spec fn pairs_view(p: Seq<(String, String)>) -> Seq<(Seq<char>, Seq<char>)> {
    p.map_values(|x: (String, String)| (x.0@, x.1@))
}

/// Sets each override (sector macro to name) in turn, under its lower-cased macro.
pub fn apply_name_overrides(sector_names: &mut StrMap<String>, overrides: &[(String, String)])
    ensures
        final(sector_names)@ == with_overrides(old(sector_names)@, pairs_view(overrides@)),
{
    let ghost ov = pairs_view(overrides@);
    let ghost start = sector_names@;
    let mut i: usize = 0;
    while i < overrides.len()
        invariant
            i <= overrides@.len(),
            ov == pairs_view(overrides@),
            sector_names@ == with_overrides(start, ov.take(i as int)),
        decreases overrides.len() - i,
    {
        proof {
            assert(ov.take(i + 1).drop_last() =~= ov.take(i as int));
            assert(ov.take(i + 1).last() == (overrides@[i as int].0@, overrides@[i as int].1@));
        }
        let key = to_lower(overrides[i].0.as_str());
        sector_names.insert(key, overrides[i].1.clone());
        i += 1;
    }
    proof {
        assert(ov.take(overrides@.len() as int) =~= ov);
    }
}

// ---------------------------------------------------------------------------
// Sector macros of a save.
// ---------------------------------------------------------------------------

/// One event: a sector component with a macro adds its lower-cased macro.
pub open spec fn macro_step(set: Set<Seq<char>>, ev: EventView) -> Set<Seq<char>> {
    match ev {
        EventView::Start(e) => macro_element(set, e.name, e.attrs),
        EventView::Empty(e) => macro_element(set, e.name, e.attrs),
        _ => set,
    }
}

pub open spec fn macro_element(set: Set<Seq<char>>, name: Seq<char>, attrs: Seq<(Seq<char>, Seq<char>)>) -> Set<
    Seq<char>,
> {
    if name == "component"@ && has_attr_value(attrs, "class"@, "sector"@) && attr_of(attrs, "macro"@) is Some {
        set.insert(lower(attr_of(attrs, "macro"@).unwrap()))
    } else {
        set
    }
}

/// The lower-cased macros of the sector components of a save (up to a parse error).
pub open spec fn sector_macros(evs: Seq<EventView>) -> Set<Seq<char>> {
    fold_events(evs, Set::empty(), |s: Set<Seq<char>>, e: EventView| macro_step(s, e))
}

/// The lower-cased macros of the sector components of a save, as a set.
pub fn collect_sector_macros(xml: &str) -> (r: StrMap<()>)
    ensures
        r@.dom() == sector_macros(xml_events(xml@)),
{
    let events = tokenize(xml);
    sector_macros_from_events(events.as_slice())
}

/// The same as `collect_sector_macros`, on the events of the text.
pub fn sector_macros_from_events(events: &[XmlEvent]) -> (r: StrMap<()>)
    ensures
        r@.dom() == sector_macros(views(events@)),
{
    let ghost evs = views(events@);
    let mut set: StrMap<()> = StrMap::new();
    let mut i: usize = 0;
    proof {
        assert(set@.dom() =~= Set::<Seq<char>>::empty());
    }
    while i < events.len()
        invariant
            i <= events@.len(),
            evs == views(events@),
            fold_events(evs.take(i as int), Set::empty(), |s: Set<Seq<char>>, e: EventView| macro_step(s, e))
                == set@.dom(),
        decreases events.len() - i,
    {
        proof {
            lemma_fold_events_next(evs, i as int, Set::empty(), |s: Set<Seq<char>>, e: EventView| macro_step(s, e));
            assert(evs[i as int] == events@[i as int]@);
        }
        let ghost d0 = set@.dom();
        match &events[i] {
            XmlEvent::Start(e) | XmlEvent::Empty(e) => {
                if e.is("component") && e.has_attr_value("class", "sector") {
                    match e.attr("macro") {
                        Some(m) => {
                            set.insert(to_lower(m.as_str()), ());
                            proof {
                                assert(set@.dom() =~= d0.insert(lower(m@)));
                            }
                        },
                        None => {},
                    }
                }
            },
            _ => {},
        }
        i += 1;
    }
    proof {
        assert(evs.take(events@.len() as int) =~= evs);
    }
    set
}

/// The macros, in key order, that neither the sector names nor the component names know.
pub fn missing_sector_macros(
    macros: &StrMap<()>,
    sector_names: &StrMap<String>,
    component_names: &StrMap<String>,
) -> (r: Vec<String>)
    ensures
        r@.map_values(|s: String| s@) == macros.key_seq().filter(
            |m: Seq<char>| !sector_names@.contains_key(m) && !component_names@.contains_key(m),
        ),
{
    proof {
        use_type_invariant(macros);
        macros.lemma_view_facts();
    }
    let ghost ks = macros.key_seq();
    let n = macros.len();
    let mut out: Vec<String> = Vec::new();
    let mut i: usize = 0;
    while i < n
        invariant
            i <= n,
            n == ks.len(),
            ks == macros.key_seq(),
            out@.map_values(|s: String| s@) == ks.take(i as int).filter(
                |m: Seq<char>| !sector_names@.contains_key(m) && !component_names@.contains_key(m),
            ),
        decreases n - i,
    {
        let k = macros.key_at(i);
        proof {
            assert(ks.take(i + 1).drop_last() =~= ks.take(i as int));
            assert(ks.take(i + 1).last() == k@);
            reveal(Seq::filter);
        }
        let ghost ov = out@.map_values(|s: String| s@);
        if !sector_names.contains_key(k.as_str()) && !component_names.contains_key(k.as_str()) {
            out.push(k);
            proof {
                assert(out@.map_values(|s: String| s@) =~= ov.push(out@.last()@));
            }
        }
        i += 1;
    }
    proof {
        assert(ks.take(n as int) =~= ks);
    }
    out
}

// ---------------------------------------------------------------------------
// Finding missing sector names in the dataset texts.
// ---------------------------------------------------------------------------

/// The pattern that finds the `identification` name inside the `dataset` of a macro.
pub open spec fn dataset_pattern(macro_id: Seq<char>) -> Seq<char> {
    "(?s)<dataset[^>]*\\bmacro\\s*=\\s*\""@ + regex_escaped(macro_id)
        + "\"[^>]*>.*?<identification[^>]*\\bname\\s*=\\s*\"([^\"]+)\""@
}

/// The name reference that the first file mentioning the macro's dataset gives.
pub open spec fn first_found(entries: Seq<XmlEntry>, pattern: Seq<char>) -> Option<Seq<char>>
    decreases entries.len(),
{
    if entries.len() == 0 {
        None
    } else {
        match first_group(pattern, entries[0].content@) {
            Some(g) => Some(g),
            None => first_found(entries.drop_first(), pattern),
        }
    }
}

/// The result of filling in missing names: the names, how many were filled, and
/// whether some macro's pattern did not compile (which stops the filling).
pub struct FillResult {
    pub names: Map<Seq<char>, Seq<char>>,
    pub filled: nat,
    pub failed: bool,
}

pub open spec fn fill_step(st: FillResult, m: Seq<char>, entries: Seq<XmlEntry>, loc: LocView) -> FillResult {
    if st.failed {
        st
    } else if !regex_compiles(dataset_pattern(m)) {
        FillResult { failed: true, ..st }
    } else {
        match first_found(entries, dataset_pattern(m)) {
            Some(raw) => FillResult { names: st.names.insert(m, resolved_name(raw, loc)), filled: st.filled + 1, ..st },
            None => st,
        }
    }
}

pub open spec fn fill_all(
    missing: Seq<Seq<char>>,
    names: Map<Seq<char>, Seq<char>>,
    entries: Seq<XmlEntry>,
    loc: LocView,
) -> FillResult
    decreases missing.len(),
{
    if missing.len() == 0 {
        FillResult { names, filled: 0, failed: false }
    } else {
        fill_step(fill_all(missing.drop_last(), names, entries, loc), missing.last(), entries, loc)
    }
}

/// A pattern of a macro that does not compile.
pub struct PatternError;

fn find_in_entries(re: &CompiledRegex, entries: &[XmlEntry]) -> (r: Option<String>)
    ensures
        opt_view(r) == first_found(entries@, re.pattern_view()),
{
    let mut j: usize = 0;
    proof {
        assert(entries@.skip(0) =~= entries@);
    }
    while j < entries.len()
        invariant
            j <= entries@.len(),
            first_found(entries@, re.pattern_view()) == first_found(entries@.skip(j as int), re.pattern_view()),
        decreases entries.len() - j,
    {
        proof {
            assert(entries@.skip(j as int)[0] == entries@[j as int]);
            assert(entries@.skip(j as int).drop_first() =~= entries@.skip(j + 1));
        }
        match first_capture(re, entries[j].content.as_str()) {
            Some(g) => {
                return Some(g);
            },
            None => {},
        }
        j += 1;
    }
    None
}

/// Records what the search for a macro's dataset found: the resolved name of the found
/// reference becomes the macro's sector name. Returns whether something was found.
pub fn record_found_name(
    macro_id: &String,
    found: Option<String>,
    localization: &Localization,
    sector_names: &mut StrMap<String>,
) -> (b: bool)
    ensures
        b == found is Some,
        final(sector_names)@ == match found {
            Some(raw) => old(sector_names)@.insert(macro_id@, resolved_name(raw@, localization@)),
            None => old(sector_names)@,
        },
{
    match found {
        Some(raw) => {
            let name = resolve_name(raw.as_str(), localization);
            sector_names.insert(macro_id.clone(), name);
            true
        },
        None => false,
    }
}

/// Looks up each missing macro's dataset in the texts: the `identification` name of the
/// first file that has it, resolved, becomes its sector name. Returns how many were
/// filled; fails when a macro's pattern does not compile.
pub fn fill_missing_sector_names(
    missing: &[String],
    entries: &[XmlEntry],
    localization: &Localization,
    sector_names: &mut StrMap<String>,
) -> (r: Result<usize, PatternError>)
    ensures
        ({
            let res = fill_all(missing@.map_values(|s: String| s@), old(sector_names)@, entries@, localization@);
            match r {
                Ok(n) => !res.failed && n == res.filled && final(sector_names)@ == res.names,
                Err(_) => res.failed,
            }
        }),
{
    let ghost mv = missing@.map_values(|s: String| s@);
    let ghost start = sector_names@;
    let mut filled: usize = 0;
    let mut i: usize = 0;
    while i < missing.len()
        invariant
            i <= missing@.len(),
            mv == missing@.map_values(|s: String| s@),
            start == old(sector_names)@,
            filled <= i,
            fill_all(mv.take(i as int), start, entries@, localization@) == (FillResult {
                names: sector_names@,
                filled: filled as nat,
                failed: false,
            }),
        decreases missing.len() - i,
    {
        proof {
            assert(mv.take(i + 1).drop_last() =~= mv.take(i as int));
            assert(mv.take(i + 1).last() == missing@[i as int]@);
        }
        let m = &missing[i];
        let esc = escape_regex(m.as_str());
        let mut pat = chars_of("(?s)<dataset[^>]*\\bmacro\\s*=\\s*\"");
        let ec = chars_of(esc.as_str());
        crate::text::append_chars(&mut pat, ec.as_slice());
        let tail = chars_of("\"[^>]*>.*?<identification[^>]*\\bname\\s*=\\s*\"([^\"]+)\"");
        crate::text::append_chars(&mut pat, tail.as_slice());
        proof {
            assert(pat@ =~= dataset_pattern(m@));
        }
        let pattern = string_of(pat.as_slice());
        let re = match compile_regex(pattern.as_str()) {
            Some(re) => re,
            None => {
                proof {
                    lemma_fill_fails_stay(mv, i + 1, start, entries@, localization@);
                }
                return Err(PatternError);
            },
        };
        let found = find_in_entries(&re, entries);
        if record_found_name(m, found, localization, sector_names) {
            filled = filled + 1;
        }
        i += 1;
    }
    proof {
        assert(mv.take(missing@.len() as int) =~= mv);
    }
    Ok(filled)
}

proof fn lemma_fill_fails_stay(
    mv: Seq<Seq<char>>,
    k: int,
    names: Map<Seq<char>, Seq<char>>,
    entries: Seq<XmlEntry>,
    loc: LocView,
)
    requires
        0 <= k <= mv.len(),
        fill_all(mv.take(k), names, entries, loc).failed,
    ensures
        fill_all(mv, names, entries, loc).failed,
    decreases mv.len() - k,
{
    if k < mv.len() {
        assert(mv.take(k + 1).drop_last() =~= mv.take(k));
        lemma_fill_fails_stay(mv, k + 1, names, entries, loc);
    } else {
        assert(mv.take(k) =~= mv);
    }
}

} // verus!
