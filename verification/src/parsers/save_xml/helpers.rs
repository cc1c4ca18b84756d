use vstd::prelude::*;
use crate::api::sector_detail::helpers::{factory_name, factory_name_of};
use crate::numbers::{decimal, parse_u32, parse_u32_chars, u32_decimal};
use crate::parsers::game_xml::{clean_name, cleaned, resolve_name, resolved_name, LocView, Localization};
use crate::strmap::StrMap;
use crate::text::{chars_of, lower, starts_with, str_eq, string_of, to_lower};

verus! {

/// An open element of a save, with its attributes.
pub struct Context {
    pub tag: String,
    pub attrs: StrMap<String>,
    pub depth: usize,
    pub source_entry: Option<String>,
    pub source_nameindex: Option<u32>,
}

pub struct ContextView {
    pub tag: Seq<char>,
    pub attrs: Map<Seq<char>, Seq<char>>,
    pub depth: nat,
    pub source_entry: Option<Seq<char>>,
    pub source_nameindex: Option<u32>,
}

impl View for Context {
    type V = ContextView;

    open spec fn view(&self) -> ContextView {
        ContextView {
            tag: self.tag@,
            attrs: self.attrs@,
            depth: self.depth as nat,
            source_entry: crate::models::opt_view(self.source_entry),
            source_nameindex: self.source_nameindex,
        }
    }
}

/// The views of a stack of contexts.
pub open spec fn contexts_view(s: Seq<Context>) -> Seq<ContextView> {
    s.map_values(|c: Context| c@)
}

/// The value under `k`, if any.
pub open spec fn map_get(m: Map<Seq<char>, Seq<char>>, k: Seq<char>) -> Option<Seq<char>> {
    if m.contains_key(k) {
        Some(m[k])
    } else {
        None
    }
}

/// A `component` element of the given class.
pub open spec fn is_component_of_class(c: ContextView, class: Seq<char>) -> bool {
    c.tag == "component"@ && map_get(c.attrs, "class"@) == Some(class)
}

/// The code of the innermost enclosing sector component (none when that sector has no
/// code).
pub open spec fn parent_sector(stack: Seq<ContextView>) -> Option<Seq<char>>
    decreases stack.len(),
{
    if stack.len() == 0 {
        None
    } else if is_component_of_class(stack.last(), "sector"@) {
        map_get(stack.last().attrs, "code"@)
    } else {
        parent_sector(stack.drop_last())
    }
}

/// The position of the innermost enclosing station component, unless it is a wreck or
/// a sector boundary comes first.
pub open spec fn parent_station(stack: Seq<ContextView>) -> Option<int>
    decreases stack.len(),
{
    if stack.len() == 0 {
        None
    } else {
        let c = stack.last();
        if is_component_of_class(c, "station"@) {
            if map_get(c.attrs, "state"@) == Some("wreck"@) {
                None
            } else {
                Some(stack.len() - 1)
            }
        } else if is_component_of_class(c, "sector"@) {
            None
        } else {
            parent_station(stack.drop_last())
        }
    }
}

fn get_attr<'a>(c: &'a Context, k: &str) -> (r: Option<&'a String>)
    ensures
        match r {
            Some(v) => map_get(c@.attrs, k@) == Some(v@),
            None => map_get(c@.attrs, k@) is None,
        },
{
    c.attrs.get(k)
}

fn is_component_of_class_exec(c: &Context, class: &str) -> (b: bool)
    ensures
        b == is_component_of_class(c@, class@),
{
    if !str_eq(c.tag.as_str(), "component") {
        return false;
    }
    match get_attr(c, "class") {
        Some(v) => str_eq(v.as_str(), class),
        None => false,
    }
}

/// Finds the sector code by walking up the context stack.
pub fn find_parent_sector(stack: &[Context]) -> (r: Option<String>)
    ensures
        match r {
            Some(c) => parent_sector(contexts_view(stack@)) == Some(c@),
            None => parent_sector(contexts_view(stack@)) is None,
        },
{
    let ghost sv = contexts_view(stack@);
    let mut i = stack.len();
    proof {
        assert(sv.take(i as int) =~= sv);
    }
    while i > 0
        invariant
            i <= stack@.len(),
            sv == contexts_view(stack@),
            parent_sector(sv) == parent_sector(sv.take(i as int)),
        decreases i,
    {
        proof {
            assert(sv.take(i as int).last() == stack@[i - 1]@);
            assert(sv.take(i as int).drop_last() =~= sv.take(i - 1));
        }
        if is_component_of_class_exec(&stack[i - 1], "sector") {
            return match get_attr(&stack[i - 1], "code") {
                Some(c) => Some(c.clone()),
                None => None,
            };
        }
        i -= 1;
    }
    None
}

/// Finds the nearest enclosing station component, stopping at a sector boundary;
/// a wrecked station gives none.
pub fn find_parent_station(stack: &[Context]) -> (r: Option<&Context>)
    ensures
        match parent_station(contexts_view(stack@)) {
            Some(k) => 0 <= k < stack@.len() && r == Some(&stack@[k]),
            None => r is None,
        },
{
    let ghost sv = contexts_view(stack@);
    let mut i = stack.len();
    proof {
        assert(sv.take(i as int) =~= sv);
    }
    while i > 0
        invariant
            i <= stack@.len(),
            sv == contexts_view(stack@),
            parent_station(sv) == parent_station(sv.take(i as int)),
        decreases i,
    {
        proof {
            assert(sv.take(i as int).last() == stack@[i - 1]@);
            assert(sv.take(i as int).drop_last() =~= sv.take(i - 1));
        }
        let c = &stack[i - 1];
        if is_component_of_class_exec(c, "station") {
            let wreck = match get_attr(c, "state") {
                Some(s) => str_eq(s.as_str(), "wreck"),
                None => false,
            };
            if wreck {
                return None;
            }
            return Some(c);
        }
        if is_component_of_class_exec(c, "sector") {
            return None;
        }
        i -= 1;
    }
    None
}

/// The name a save gives a component: resolved through the localization when it is a
/// reference, then cleaned.
pub open spec fn saved_name(raw: Seq<char>, loc: LocView) -> Seq<char> {
    cleaned(
        if starts_with(raw, "{"@) {
            resolved_name(raw, loc)
        } else {
            raw
        },
    )
}

/// The default name of a component's macro, if the component names know it.
pub open spec fn base_name(c: ContextView, cn: Map<Seq<char>, Seq<char>>) -> Option<Seq<char>> {
    match map_get(c.attrs, "macro"@) {
        Some(m) => map_get(cn, lower(m)),
        None => None,
    }
}

/// The `nameindex` attribute read as a `u32`, or `dflt`.
pub open spec fn attr_nameindex(c: ContextView, dflt: nat) -> nat {
    match map_get(c.attrs, "nameindex"@) {
        Some(t) => match parse_u32(t) {
            Some(v) => v as nat,
            None => dflt,
        },
        None => dflt,
    }
}

/// The name of a station: its own saved name unless that is just the default name of its
/// macro; else a factory name from its source entry; else the default name of its macro
/// (with ` #n` for a positive name index); else its code, its macro, or `Station`.
pub open spec fn station_name(c: ContextView, cn: Map<Seq<char>, Seq<char>>, loc: LocView) -> Seq<char> {
    let own = match map_get(c.attrs, "name"@) {
        Some(n) => Some(saved_name(n, loc)),
        None => None,
    };
    if own is Some && own.unwrap().len() > 0 && (base_name(c, cn) is None || lower(own.unwrap())
        != lower(base_name(c, cn).unwrap())) {
        own.unwrap()
    } else if c.source_entry is Some {
        let idx: nat = match c.source_nameindex {
            Some(v) => v as nat,
            None => attr_nameindex(c, 1),
        };
        factory_name(c.source_entry.unwrap(), idx)
    } else if base_name(c, cn) is Some {
        let idx = attr_nameindex(c, 0);
        if idx > 0 {
            base_name(c, cn).unwrap() + seq![' ', '#'] + decimal(idx)
        } else {
            base_name(c, cn).unwrap()
        }
    } else {
        match map_get(c.attrs, "code"@) {
            Some(x) => x,
            None => match map_get(c.attrs, "macro"@) {
                Some(m) => m,
                None => "Station"@,
            },
        }
    }
}

fn saved_name_of(raw: &String, localization: &Localization) -> (r: String)
    ensures
        r@ == saved_name(raw@, localization@),
{
    let rc = chars_of(raw.as_str());
    if rc.len() > 0 && rc[0] == '{' {
        proof {
            reveal_strlit("{");
            assert(raw@.take(1) =~= "{"@);
        }
        let resolved = resolve_name(raw.as_str(), localization);
        clean_name(resolved.as_str())
    } else {
        proof {
            reveal_strlit("{");
            if starts_with(raw@, "{"@) {
                assert(raw@.take(1)[0] == raw@[0]);
            }
        }
        clean_name(raw.as_str())
    }
}

fn base_name_of<'a>(c: &Context, component_names: &'a StrMap<String>) -> (r: Option<&'a String>)
    ensures
        match r {
            Some(b) => base_name(c@, component_names@) == Some(b@),
            None => base_name(c@, component_names@) is None,
        },
{
    match get_attr(c, "macro") {
        Some(m) => {
            let key = to_lower(m.as_str());
            component_names.get(key.as_str())
        },
        None => None,
    }
}

fn nameindex_attr(c: &Context, dflt: u32) -> (r: u32)
    ensures
        r as nat == attr_nameindex(c@, dflt as nat),
{
    match get_attr(c, "nameindex") {
        Some(t) => {
            let tc = chars_of(t.as_str());
            match parse_u32_chars(tc.as_slice()) {
                Some(v) => v,
                None => dflt,
            }
        },
        None => dflt,
    }
}

/// Station name from its component (saved name, factory name, default name, fallback).
pub fn get_station_name(station: &Context, component_names: &StrMap<String>, localization: &Localization) -> (r: String)
    ensures
        r@ == station_name(station@, component_names@, localization@),
{
    let own = match get_attr(station, "name") {
        Some(n) => Some(saved_name_of(n, localization)),
        None => None,
    };
    match own {
        Some(sn) => {
            let snc = chars_of(sn.as_str());
            if snc.len() > 0 {
                match base_name_of(station, component_names) {
                    Some(bn) => {
                        let a = to_lower(sn.as_str());
                        let b = to_lower(bn.as_str());
                        if !str_eq(a.as_str(), b.as_str()) {
                            return sn;
                        }
                    },
                    None => {
                        return sn;
                    },
                }
            }
        },
        None => {},
    }
    match &station.source_entry {
        Some(entry) => {
            let idx = match station.source_nameindex {
                Some(v) => v,
                None => nameindex_attr(station, 1),
            };
            return factory_name_of(entry.as_str(), idx);
        },
        None => {},
    }
    match base_name_of(station, component_names) {
        Some(base) => {
            let idx = nameindex_attr(station, 0);
            if idx > 0 {
                let mut out = chars_of(base.as_str());
                out.push(' ');
                out.push('#');
                let d = u32_decimal(idx);
                crate::text::append_chars(&mut out, d.as_slice());
                proof {
                    assert(out@ =~= base@ + seq![' ', '#'] + decimal(idx as nat));
                }
                return string_of(out.as_slice());
            }
            return base.clone();
        },
        None => {},
    }
    match get_attr(station, "code") {
        Some(x) => x.clone(),
        None => match get_attr(station, "macro") {
            Some(m) => m.clone(),
            None => crate::text::owned("Station"),
        },
    }
}

/// The name of sector `code`: the sector name of the macro of the innermost enclosing
/// sector component with that code, else the code itself.
pub open spec fn sector_name_in_stack(code: Seq<char>, stack: Seq<ContextView>, sn: Map<Seq<char>, Seq<char>>) -> Seq<char>
    decreases stack.len(),
{
    if stack.len() == 0 {
        code
    } else {
        let c = stack.last();
        if is_component_of_class(c, "sector"@) && map_get(c.attrs, "code"@) == Some(code) {
            match map_get(c.attrs, "macro"@) {
                Some(m) => match map_get(sn, lower(m)) {
                    Some(n) => n,
                    None => code,
                },
                None => code,
            }
        } else {
            sector_name_in_stack(code, stack.drop_last(), sn)
        }
    }
}

/// Sector name from a sector code and the context stack.
pub fn get_sector_name(sector_code: &str, stack: &[Context], sector_names: &StrMap<String>) -> (r: String)
    ensures
        r@ == sector_name_in_stack(sector_code@, contexts_view(stack@), sector_names@),
{
    let ghost sv = contexts_view(stack@);
    let mut i = stack.len();
    proof {
        assert(sv.take(i as int) =~= sv);
    }
    while i > 0
        invariant
            i <= stack@.len(),
            sv == contexts_view(stack@),
            sector_name_in_stack(sector_code@, sv, sector_names@) == sector_name_in_stack(
                sector_code@,
                sv.take(i as int),
                sector_names@,
            ),
        decreases i,
    {
        proof {
            assert(sv.take(i as int).last() == stack@[i - 1]@);
            assert(sv.take(i as int).drop_last() =~= sv.take(i - 1));
        }
        let c = &stack[i - 1];
        if is_component_of_class_exec(c, "sector") {
            let same = match get_attr(c, "code") {
                Some(code) => str_eq(code.as_str(), sector_code),
                None => false,
            };
            if same {
                match get_attr(c, "macro") {
                    Some(m) => {
                        let key = to_lower(m.as_str());
                        match sector_names.get(key.as_str()) {
                            Some(n) => {
                                return n.clone();
                            },
                            None => {},
                        }
                    },
                    None => {},
                }
                return crate::text::owned(sector_code);
            }
        }
        i -= 1;
    }
    crate::text::owned(sector_code)
}

} // verus!
