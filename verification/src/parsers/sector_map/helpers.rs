use vstd::prelude::*;
use crate::models::opt_view;
use crate::parsers::game_xml::{LocView, Localization};
use crate::parsers::save_xml::helpers::{
    get_station_name as save_station_name, map_get, station_name, Context, ContextView,
};
use crate::strmap::StrMap;
use crate::text::{chars_of, ends_with, lower, owned, split, split_chars, starts_with, string_of, to_lower};

verus! {

/// A reference `{page,entry}` looked up directly (no trimming, no nesting).
pub open spec fn direct_lookup(name: Seq<char>, loc: LocView) -> Option<Seq<char>> {
    if !starts_with(name, "{"@) || !ends_with(name, "}"@) {
        None
    } else {
        let parts = split(name.subrange(1, name.len() - 1), ',');
        if parts.len() != 2 {
            None
        } else if loc.contains_key(parts[0]) && loc[parts[0]].contains_key(parts[1]) {
            Some(loc[parts[0]][parts[1]])
        } else {
            None
        }
    }
}

/// Looks a whole `{page,entry}` reference up in the localization.
pub fn resolve_name(name: &str, localization: &Localization) -> (r: Option<String>)
    ensures
        opt_view(r) == direct_lookup(name@, localization@),
{
    let cs = chars_of(name);
    proof {
        reveal_strlit("{");
        reveal_strlit("}");
    }
    let n = cs.len();
    if n == 0 || cs[0] != '{' || cs[n - 1] != '}' {
        proof {
            if n > 0 && cs@[0] != '{' && starts_with(name@, "{"@) {
                assert(name@.take(1)[0] == name@[0]);
            }
            if n > 0 && cs@[n - 1] != '}' && ends_with(name@, "}"@) {
                assert(name@.skip(n - 1)[0] == name@[n - 1]);
            }
        }
        return None;
    }
    proof {
        assert(name@.take(1) =~= "{"@);
        assert(name@.skip(n - 1) =~= "}"@);
    }
    if n < 2 {
        return None;
    }
    let mut inner: Vec<char> = Vec::new();
    let mut i: usize = 1;
    while i < n - 1
        invariant
            1 <= i <= n - 1,
            n == cs@.len(),
            n >= 2,
            inner@ == cs@.subrange(1, i as int),
        decreases n - 1 - i,
    {
        inner.push(cs[i]);
        proof {
            assert(inner@ =~= cs@.subrange(1, i + 1));
        }
        i += 1;
    }
    let parts = split_chars(inner.as_slice(), ',');
    if parts.len() != 2 {
        return None;
    }
    match localization.get_chars(parts[0].as_slice()) {
        Some(page) => match page.get_chars(parts[1].as_slice()) {
            Some(t) => Some(t.clone()),
            None => None,
        },
        None => None,
    }
}

/// A map object seen as a save component: a `component` with the object's attributes
/// and no source entry.
pub open spec fn object_context(attrs: Map<Seq<char>, Seq<char>>) -> ContextView {
    ContextView { tag: "component"@, attrs, depth: 0, source_entry: None, source_nameindex: None }
}

/// The name of a map object, by the rule that names the stations of a save (see
/// `station_name`): its own saved name first, then the default name of its macro (with
/// ` #n`), then its code, its macro, or `Station`.
pub open spec fn map_object_name(attrs: Map<Seq<char>, Seq<char>>, cn: Map<Seq<char>, Seq<char>>, loc: LocView) -> Seq<char> {
    station_name(object_context(attrs), cn, loc)
}

/// The name of a map object (see `map_object_name`).
pub fn get_station_name(attrs: &StrMap<String>, component_names: &StrMap<String>, localization: &Localization) -> (r: String)
    ensures
        r@ == map_object_name(attrs@, component_names@, localization@),
{
    let c = Context { tag: owned("component"), attrs: attrs.copy(), depth: 0, source_entry: None, source_nameindex: None };
    proof {
        assert(c@ == object_context(attrs@));
    }
    save_station_name(&c, component_names, localization)
}

} // verus!
