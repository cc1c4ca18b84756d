use vstd::prelude::*;
use crate::models::opt_view;
use crate::parsers::assets::types::{ctxs_view, Ctx, CtxView};
use crate::parsers::game_xml::{clean_name, cleaned, resolve_name, resolved_name, LocView, Localization};
use crate::parsers::save_xml::helpers::map_get;
use crate::strmap::StrMap;
use crate::text::{chars_of, contains, lower, owned, str_contains, str_eq, string_of, to_lower};

verus! {

/// The value of attribute `key`, if any.
pub fn text_attr(attrs: &StrMap<String>, key: &str) -> (r: Option<String>)
    ensures
        opt_view(r) == map_get(attrs@, key@),
{
    match attrs.get(key) {
        Some(v) => Some(v.clone()),
        None => None,
    }
}

/// Whether the `owner` attribute is `player`.
pub fn has_owner_player(attrs: &StrMap<String>) -> (b: bool)
    ensures
        b == (map_get(attrs@, "owner"@) == Some("player"@)),
{
    match attrs.get("owner") {
        Some(v) => str_eq(v.as_str(), "player"),
        None => false,
    }
}

/// Station classes and every class mentioning `ship`.
pub open spec fn station_or_ship(class: Seq<char>) -> bool {
    class == "station"@ || contains(class, "ship"@)
}

/// Whether a component class is a station or a ship.
pub fn is_station_or_ship(class: &str) -> (b: bool)
    ensures
        b == station_or_ship(class@),
{
    str_eq(class, "station") || str_contains(class, "ship")
}

/// The name of a component: its own name (resolved and cleaned); else its macro's
/// component name, with ` #` and the `nameindex` text unless that is `0` or missing;
/// else its code, else `Unnamed`.
pub open spec fn component_name(
    attrs: Map<Seq<char>, Seq<char>>,
    cn: Map<Seq<char>, Seq<char>>,
    loc: LocView,
) -> Seq<char> {
    match map_get(attrs, "name"@) {
        Some(n) => cleaned(resolved_name(n, loc)),
        None => {
            let base = match map_get(attrs, "macro"@) {
                Some(m) => map_get(cn, lower(m)),
                None => None,
            };
            match base {
                Some(b) => {
                    let idx = match map_get(attrs, "nameindex"@) {
                        Some(t) => t,
                        None => "0"@,
                    };
                    if idx != "0"@ {
                        b + seq![' ', '#'] + idx
                    } else {
                        b
                    }
                },
                None => match map_get(attrs, "code"@) {
                    Some(c) => c,
                    None => "Unnamed"@,
                },
            }
        },
    }
}

/// The display name of a component (see `component_name`).
pub fn resolve_component_name(
    attrs: &StrMap<String>,
    component_names: &StrMap<String>,
    localization: &Localization,
) -> (r: String)
    ensures
        r@ == component_name(attrs@, component_names@, localization@),
{
    match attrs.get("name") {
        Some(nr) => {
            let resolved = resolve_name(nr.as_str(), localization);
            return clean_name(resolved.as_str());
        },
        None => {},
    }
    match attrs.get("macro") {
        Some(m) => {
            let key = to_lower(m.as_str());
            match component_names.get(key.as_str()) {
                Some(base) => {
                    let idx: String = match attrs.get("nameindex") {
                        Some(t) => t.clone(),
                        None => owned("0"),
                    };
                    if !str_eq(idx.as_str(), "0") {
                        let mut out = chars_of(base.as_str());
                        out.push(' ');
                        out.push('#');
                        let ic = chars_of(idx.as_str());
                        crate::text::append_chars(&mut out, ic.as_slice());
                        proof {
                            assert(out@ =~= base@ + seq![' ', '#'] + idx@);
                        }
                        return string_of(out.as_slice());
                    }
                    return base.clone();
                },
                None => {},
            }
        },
        None => {},
    }
    match attrs.get("code") {
        Some(c) => c.clone(),
        None => owned("Unnamed"),
    }
}

/// The code and sector name of the innermost sector component on the stack.
pub open spec fn sector_from_stack(
    stack: Seq<CtxView>,
    sn: Map<Seq<char>, Seq<char>>,
) -> (Option<Seq<char>>, Option<Seq<char>>)
    decreases stack.len(),
{
    if stack.len() == 0 {
        (None, None)
    } else {
        let c = stack.last();
        if c.tag == "component"@ && map_get(c.attrs, "class"@) == Some("sector"@) {
            (
                map_get(c.attrs, "code"@),
                match map_get(c.attrs, "macro"@) {
                    Some(m) => map_get(sn, lower(m)),
                    None => None,
                },
            )
        } else {
            sector_from_stack(stack.drop_last(), sn)
        }
    }
}

/// The code and sector name of the innermost enclosing sector.
pub fn get_sector_from_stack(stack: &[Ctx], sector_names: &StrMap<String>) -> (r: (Option<String>, Option<String>))
    ensures
        (opt_view(r.0), opt_view(r.1)) == sector_from_stack(ctxs_view(stack@), sector_names@),
{
    let ghost sv = ctxs_view(stack@);
    let mut i = stack.len();
    proof {
        assert(sv.take(i as int) =~= sv);
    }
    while i > 0
        invariant
            i <= stack@.len(),
            sv == ctxs_view(stack@),
            sector_from_stack(sv, sector_names@) == sector_from_stack(sv.take(i as int), sector_names@),
        decreases i,
    {
        proof {
            assert(sv.take(i as int).last() == stack@[i - 1]@);
            assert(sv.take(i as int).drop_last() =~= sv.take(i - 1));
        }
        let c = &stack[i - 1];
        if str_eq(c.tag.as_str(), "component") {
            let is_sector = match c.attrs.get("class") {
                Some(cl) => str_eq(cl.as_str(), "sector"),
                None => false,
            };
            if is_sector {
                let code = text_attr(&c.attrs, "code");
                let name = match c.attrs.get("macro") {
                    Some(m) => {
                        let key = to_lower(m.as_str());
                        match sector_names.get(key.as_str()) {
                            Some(n) => Some(n.clone()),
                            None => None,
                        }
                    },
                    None => None,
                };
                return (code, name);
            }
        }
        i -= 1;
    }
    (None, None)
}

/// The size class a lower-cased ship macro names.
pub open spec fn ship_size(l: Seq<char>) -> Option<Seq<char>> {
    if contains(l, "_s_"@) {
        Some("S"@)
    } else if contains(l, "_m_"@) {
        Some("M"@)
    } else if contains(l, "_l_"@) {
        Some("L"@)
    } else if contains(l, "_xl_"@) {
        Some("XL"@)
    } else {
        None
    }
}

/// The role a lower-cased ship macro names.
pub open spec fn ship_role(l: Seq<char>) -> Option<Seq<char>> {
    if contains(l, "scout"@) {
        Some("Scout"@)
    } else if contains(l, "trans_container"@) {
        Some("Transport (Container)"@)
    } else if contains(l, "trans_solid"@) {
        Some("Transport (Solid)"@)
    } else if contains(l, "trans_liquid"@) {
        Some("Transport (Liquid)"@)
    } else if contains(l, "miner_solid"@) {
        Some("Miner (Solid)"@)
    } else if contains(l, "miner_liquid"@) {
        Some("Miner (Liquid)"@)
    } else if contains(l, "fighter"@) {
        Some("Fighter"@)
    } else if contains(l, "bomber"@) {
        Some("Bomber"@)
    } else if contains(l, "carrier"@) {
        Some("Carrier"@)
    } else if contains(l, "destroyer"@) {
        Some("Destroyer"@)
    } else {
        None
    }
}

/// The ship type: size and role (`"M Transport (Container)"`), or the size alone.
pub open spec fn ship_type(l: Seq<char>) -> Option<Seq<char>> {
    match (ship_size(l), ship_role(l)) {
        (Some(s), Some(r)) => Some(s + seq![' '] + r),
        (Some(s), None) => Some(s),
        _ => None,
    }
}

fn word_if(l: &str, pat: &str, word: &str) -> (r: Option<String>)
    ensures
        r is Some == contains(l@, pat@),
        r is Some ==> r.unwrap()@ == word@,
{
    if str_contains(l, pat) {
        Some(owned(word))
    } else {
        None
    }
}

fn ship_size_of(l: &str) -> (r: Option<String>)
    ensures
        opt_view(r) == ship_size(l@),
{
    match word_if(l, "_s_", "S") {
        Some(w) => Some(w),
        None => match word_if(l, "_m_", "M") {
            Some(w) => Some(w),
            None => match word_if(l, "_l_", "L") {
                Some(w) => Some(w),
                None => word_if(l, "_xl_", "XL"),
            },
        },
    }
}

fn ship_role_of(l: &str) -> (r: Option<String>)
    ensures
        opt_view(r) == ship_role(l@),
{
    if str_contains(l, "scout") {
        Some(owned("Scout"))
    } else if str_contains(l, "trans_container") {
        Some(owned("Transport (Container)"))
    } else if str_contains(l, "trans_solid") {
        Some(owned("Transport (Solid)"))
    } else if str_contains(l, "trans_liquid") {
        Some(owned("Transport (Liquid)"))
    } else if str_contains(l, "miner_solid") {
        Some(owned("Miner (Solid)"))
    } else if str_contains(l, "miner_liquid") {
        Some(owned("Miner (Liquid)"))
    } else if str_contains(l, "fighter") {
        Some(owned("Fighter"))
    } else if str_contains(l, "bomber") {
        Some(owned("Bomber"))
    } else if str_contains(l, "carrier") {
        Some(owned("Carrier"))
    } else if str_contains(l, "destroyer") {
        Some(owned("Destroyer"))
    } else {
        None
    }
}

/// Guesses ship facts from its macro name (such as `ship_arg_m_trans_container_01_a_macro`):
/// no cargo capacity, the role, and the ship type. Without a macro nothing is known.
pub fn derive_ship_meta(macro_name: Option<&str>, _thruster: Option<&str>) -> (r: (
    Option<i32>,
    Option<String>,
    Option<String>,
))
    ensures
        r.0 is None,
        match macro_name {
            Some(m) => opt_view(r.1) == ship_role(lower(m@)) && opt_view(r.2) == ship_type(lower(m@)),
            None => r.1 is None && r.2 is None,
        },
{
    match macro_name {
        Some(m) => {
            let l = to_lower(m);
            let size = ship_size_of(l.as_str());
            let role = ship_role_of(l.as_str());
            let t = match (&size, &role) {
                (Some(s), Some(r)) => {
                    let mut out = chars_of(s.as_str());
                    out.push(' ');
                    let rc = chars_of(r.as_str());
                    crate::text::append_chars(&mut out, rc.as_slice());
                    proof {
                        assert(out@ =~= s@ + seq![' '] + r@);
                    }
                    Some(string_of(out.as_slice()))
                },
                (Some(s), None) => Some(s.clone()),
                _ => None,
            };
            (None, role, t)
        },
        None => (None, None, None),
    }
}

/// The role of a lower-cased ship macro is the first of these keywords it contains, in
/// this order, named as follows: `scout` "Scout", `trans_container` "Transport
/// (Container)", `trans_solid` "Transport (Solid)", `trans_liquid` "Transport (Liquid)",
/// `miner_solid` "Miner (Solid)", `miner_liquid` "Miner (Liquid)", `fighter` "Fighter",
/// `bomber` "Bomber", `carrier` "Carrier", `destroyer` "Destroyer"; with none of them
/// there is no role. The ship type is the size class, a space and the role, or the size
/// class alone.
pub proof fn law_ship_role_and_type(l: Seq<char>)
    ensures
        contains(l, "scout"@) ==> ship_role(l) == Some("Scout"@),
        !contains(l, "scout"@) && contains(l, "trans_container"@) ==> ship_role(l) == Some(
            "Transport (Container)"@,
        ),
        !contains(l, "scout"@) && !contains(l, "trans_container"@) && contains(l, "trans_solid"@) ==> ship_role(l)
            == Some("Transport (Solid)"@),
        !contains(l, "scout"@) && !contains(l, "trans_container"@) && !contains(l, "trans_solid"@) && contains(
            l,
            "trans_liquid"@,
        ) ==> ship_role(l) == Some("Transport (Liquid)"@),
        !contains(l, "scout"@) && !contains(l, "trans_container"@) && !contains(l, "trans_solid"@) && !contains(
            l,
            "trans_liquid"@,
        ) && contains(l, "miner_solid"@) ==> ship_role(l) == Some("Miner (Solid)"@),
        !contains(l, "scout"@) && !contains(l, "trans_container"@) && !contains(l, "trans_solid"@) && !contains(
            l,
            "trans_liquid"@,
        ) && !contains(l, "miner_solid"@) && contains(l, "miner_liquid"@) ==> ship_role(l) == Some(
            "Miner (Liquid)"@,
        ),
        !contains(l, "scout"@) && !contains(l, "trans_container"@) && !contains(l, "trans_solid"@) && !contains(
            l,
            "trans_liquid"@,
        ) && !contains(l, "miner_solid"@) && !contains(l, "miner_liquid"@) && contains(l, "fighter"@) ==> ship_role(
            l,
        ) == Some("Fighter"@),
        !contains(l, "scout"@) && !contains(l, "trans_container"@) && !contains(l, "trans_solid"@) && !contains(
            l,
            "trans_liquid"@,
        ) && !contains(l, "miner_solid"@) && !contains(l, "miner_liquid"@) && !contains(l, "fighter"@) && contains(
            l,
            "bomber"@,
        ) ==> ship_role(l) == Some("Bomber"@),
        !contains(l, "scout"@) && !contains(l, "trans_container"@) && !contains(l, "trans_solid"@) && !contains(
            l,
            "trans_liquid"@,
        ) && !contains(l, "miner_solid"@) && !contains(l, "miner_liquid"@) && !contains(l, "fighter"@) && !contains(
            l,
            "bomber"@,
        ) && contains(l, "carrier"@) ==> ship_role(l) == Some("Carrier"@),
        !contains(l, "scout"@) && !contains(l, "trans_container"@) && !contains(l, "trans_solid"@) && !contains(
            l,
            "trans_liquid"@,
        ) && !contains(l, "miner_solid"@) && !contains(l, "miner_liquid"@) && !contains(l, "fighter"@) && !contains(
            l,
            "bomber"@,
        ) && !contains(l, "carrier"@) && contains(l, "destroyer"@) ==> ship_role(l) == Some("Destroyer"@),
        !contains(l, "scout"@) && !contains(l, "trans_container"@) && !contains(l, "trans_solid"@) && !contains(
            l,
            "trans_liquid"@,
        ) && !contains(l, "miner_solid"@) && !contains(l, "miner_liquid"@) && !contains(l, "fighter"@) && !contains(
            l,
            "bomber"@,
        ) && !contains(l, "carrier"@) && !contains(l, "destroyer"@) ==> ship_role(l) is None,
        contains(l, "_s_"@) ==> ship_size(l) == Some("S"@),
        !contains(l, "_s_"@) && contains(l, "_m_"@) ==> ship_size(l) == Some("M"@),
        !contains(l, "_s_"@) && !contains(l, "_m_"@) && contains(l, "_l_"@) ==> ship_size(l) == Some("L"@),
        !contains(l, "_s_"@) && !contains(l, "_m_"@) && !contains(l, "_l_"@) && contains(l, "_xl_"@) ==> ship_size(l)
            == Some("XL"@),
        ship_size(l) is None ==> ship_type(l) is None,
        ship_size(l) is Some && ship_role(l) is None ==> ship_type(l) == ship_size(l),
        ship_size(l) is Some && ship_role(l) is Some ==> ship_type(l) == Some(
            ship_size(l).unwrap() + seq![' '] + ship_role(l).unwrap(),
        ),
{
}

} // verus!
