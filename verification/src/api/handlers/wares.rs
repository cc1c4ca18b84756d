use vstd::prelude::*;
use crate::models::{WareMeta, WareMetaView};
use crate::parsers::game_xml::{resolve_name, resolved_name, LocView, Localization};
use crate::sorting::{keys_view, reorder, sort_by_keys, sort_order};
use crate::strmap::StrMap;
use crate::text::{chars_of, lower, to_lower};

verus! {

/// A ware with its display name.
pub struct WareInfo {
    pub id: String,
    pub name: String,
}

pub struct WareInfoView {
    pub id: Seq<char>,
    pub name: Seq<char>,
}

impl View for WareInfo {
    type V = WareInfoView;

    open spec fn view(&self) -> WareInfoView {
        WareInfoView { id: self.id@, name: self.name@ }
    }
}

/// A ware's display name: its name reference resolved, else its id.
pub open spec fn ware_info_of(m: WareMetaView, loc: LocView) -> WareInfoView {
    WareInfoView {
        id: m.id,
        name: match m.name_ref {
            Some(r) => resolved_name(r, loc),
            None => m.id,
        },
    }
}

/// The wares with their display names, sorted by name case-insensitively (stably, from
/// the map's key order).
pub open spec fn ware_list(metas: Seq<WareMetaView>, loc: LocView) -> Seq<WareInfoView> {
    let infos = metas.map_values(|m: WareMetaView| ware_info_of(m, loc));
    reorder(infos, sort_order(infos.map_values(|i: WareInfoView| lower(i.name))))
}

/// The display name of ware `ware`: its name reference resolved when the ware is known
/// and has one, else the id.
pub open spec fn ware_display(ware: Seq<char>, wares: Map<Seq<char>, WareMetaView>, loc: LocView) -> Seq<char> {
    if wares.contains_key(ware) {
        match wares[ware].name_ref {
            Some(r) => resolved_name(r, loc),
            None => ware,
        }
    } else {
        ware
    }
}

/// The display name of a ware (see `ware_display`).
pub fn ware_display_name(ware: &str, wares: &StrMap<WareMeta>, localization: &Localization) -> (r: String)
    ensures
        r@ == ware_display(ware@, wares@, localization@),
{
    match wares.get(ware) {
        Some(m) => match &m.name_ref {
            Some(r) => resolve_name(r.as_str(), localization),
            None => crate::text::owned(ware),
        },
        None => crate::text::owned(ware),
    }
}

/// The wares with their display names, sorted by name (see `ware_list`).
pub fn ware_infos(wares: &StrMap<WareMeta>, localization: &Localization) -> (r: Vec<WareInfo>)
    ensures
        r@.map_values(|w: WareInfo| w@) == ware_list(wares.val_seq(), localization@),
{
    proof {
        use_type_invariant(wares);
        wares.lemma_view_facts();
    }
    let ghost mv = wares.val_seq();
    let n = wares.len();
    let mut items: Vec<WareInfo> = Vec::new();
    let mut keys: Vec<Vec<char>> = Vec::new();
    let mut i: usize = 0;
    while i < n
        invariant
            i <= n,
            n == mv.len(),
            n == wares.key_seq().len(),
            mv == wares.val_seq(),
            items@.len() == i,
            keys@.len() == i,
            forall|j: int| 0 <= j < i ==> (#[trigger] items@[j])@ == ware_info_of(mv[j], localization@),
            forall|j: int| 0 <= j < i ==> (#[trigger] keys@[j])@ == lower(items@[j]@.name),
        decreases n - i,
    {
        let m = wares.value_at(i);
        let name = match &m.name_ref {
            Some(r) => resolve_name(r.as_str(), localization),
            None => m.id.clone(),
        };
        let k = to_lower(name.as_str());
        keys.push(chars_of(k.as_str()));
        items.push(WareInfo { id: m.id.clone(), name });
        i += 1;
    }
    let ghost iv = mv.map_values(|m: WareMetaView| ware_info_of(m, localization@));
    proof {
        assert(items@.map_values(|x: WareInfo| x@) =~= iv);
        assert(keys_view(keys@) =~= iv.map_values(|i: WareInfoView| lower(i.name)));
    }
    let sorted = sort_by_keys(items, keys.as_slice());
    proof {
        let o = sort_order(iv.map_values(|i: WareInfoView| lower(i.name)));
        crate::sorting::lemma_sort_order(iv.map_values(|i: WareInfoView| lower(i.name)));
        let sv2 = sorted@.map_values(|x: WareInfo| x@);
        let rv = reorder(iv, o);
        assert forall|j: int| 0 <= j < sorted@.len() implies #[trigger] sv2[j] == rv[j] by {
            assert(0 <= o[j] < iv.len());
        }
        assert(sv2 =~= rv);
    }
    sorted
}

/// The ware list comes sorted by lower-cased display name.
pub proof fn law_ware_list_sorted(metas: Seq<WareMetaView>, loc: LocView)
    ensures
        ({
            let v = ware_list(metas, loc);
            forall|i: int, j: int|
                0 <= i < j < v.len() ==> !crate::strmap::lex_lt(#[trigger] lower(v[j].name), #[trigger] lower(v[i].name))
        }),
{
    let infos = metas.map_values(|m: WareMetaView| ware_info_of(m, loc));
    let keys = infos.map_values(|i: WareInfoView| lower(i.name));
    let o = sort_order(keys);
    crate::sorting::lemma_sort_order(keys);
    let v = reorder(infos, o);
    assert forall|i: int, j: int| 0 <= i < j < v.len() implies !crate::strmap::lex_lt(
        #[trigger] lower(v[j].name),
        #[trigger] lower(v[i].name),
    ) by {
        assert(keys[o[j]] == lower(infos[o[j]].name));
        assert(keys[o[i]] == lower(infos[o[i]].name));
    }
}

} // verus!
