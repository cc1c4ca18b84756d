use vstd::prelude::*;
use crate::models::assets::{PlayerAsset, PlayerAssetView};
use crate::models::opt_view;
use crate::parsers::assets::helpers::{
    component_name, derive_ship_meta, get_sector_from_stack, has_owner_player, is_station_or_ship,
    resolve_component_name, sector_from_stack, ship_role, ship_type, station_or_ship, text_attr,
};
use crate::parsers::assets::types::{ctxs_view, Ctx, CtxView};
use crate::parsers::game_xml::{LocView, Localization};
use crate::parsers::save_xml::helpers::map_get;
use crate::strmap::StrMap;
use crate::text::lower;
use crate::xml::{
    attr_map, fold_events, lemma_fold_events_next, tokenize, views, xml_events, EventView,
    XmlElement, XmlEvent, XmlParseError,
};

verus! {

/// The lookups that assets are named with.
pub struct AssetLookups {
    pub sector_names: Map<Seq<char>, Seq<char>>,
    pub component_names: Map<Seq<char>, Seq<char>>,
    pub loc: LocView,
}

/// The asset that a component with attributes `attrs` is, with the open elements
/// `stack`: a station or ship owned by the player.
pub open spec fn asset_of(attrs: Map<Seq<char>, Seq<char>>, stack: Seq<CtxView>, lk: AssetLookups) -> Option<PlayerAssetView> {
    match map_get(attrs, "class"@) {
        Some(class) => if map_get(attrs, "owner"@) == Some("player"@) && station_or_ship(class) {
            let m = map_get(attrs, "macro"@);
            let sector = sector_from_stack(stack, lk.sector_names);
            Some(
                PlayerAssetView {
                    id: match map_get(attrs, "id"@) {
                        Some(i) => i,
                        None => Seq::empty(),
                    },
                    class,
                    name: component_name(attrs, lk.component_names, lk.loc),
                    code: map_get(attrs, "code"@),
                    macro_name: m,
                    cargo_capacity: None,
                    cargo_type: match m {
                        Some(mm) => ship_role(lower(mm)),
                        None => None,
                    },
                    ship_type: match m {
                        Some(mm) => ship_type(lower(mm)),
                        None => None,
                    },
                    sector_code: sector.0,
                    sector_name: sector.1,
                },
            )
        } else {
            None
        },
        None => None,
    }
}

/// State of the asset scan.
pub struct AssetScan {
    pub stack: Seq<CtxView>,
    pub assets: Seq<PlayerAssetView>,
    pub failed: bool,
}

pub open spec fn with_asset(assets: Seq<PlayerAssetView>, a: Option<PlayerAssetView>) -> Seq<PlayerAssetView> {
    match a {
        Some(x) => assets.push(x),
        None => assets,
    }
}

pub open spec fn asset_step(lk: AssetLookups, st: AssetScan, ev: EventView) -> AssetScan {
    if st.failed {
        st
    } else {
        match ev {
            EventView::Start(e) => {
                let attrs = attr_map(e.attrs);
                let stack = st.stack.push(CtxView { tag: e.name, attrs });
                let assets = if e.name == "component"@ {
                    with_asset(st.assets, asset_of(attrs, stack, lk))
                } else {
                    st.assets
                };
                AssetScan { stack, assets, ..st }
            },
            EventView::Empty(e) => if e.name == "component"@ {
                AssetScan { assets: with_asset(st.assets, asset_of(attr_map(e.attrs), st.stack, lk)), ..st }
            } else {
                st
            },
            EventView::End(_) => if st.stack.len() > 0 {
                AssetScan { stack: st.stack.drop_last(), ..st }
            } else {
                st
            },
            EventView::Error => AssetScan { failed: true, ..st },
            _ => st,
        }
    }
}

/// The player's stations and ships in a save, or `None` when it does not parse.
pub open spec fn assets_in(evs: Seq<EventView>, lk: AssetLookups) -> Option<Seq<PlayerAssetView>> {
    let st = fold_events(
        evs,
        AssetScan { stack: Seq::empty(), assets: Seq::empty(), failed: false },
        |s: AssetScan, e: EventView| asset_step(lk, s, e),
    );
    if st.failed {
        None
    } else {
        Some(st.assets)
    }
}

pub open spec fn assets_view(v: Seq<PlayerAsset>) -> Seq<PlayerAssetView> {
    v.map_values(|a: PlayerAsset| a@)
}

fn asset_exec(
    attrs: &StrMap<String>,
    stack: &[Ctx],
    sector_names: &StrMap<String>,
    component_names: &StrMap<String>,
    localization: &Localization,
) -> (r: Option<PlayerAsset>)
    ensures
        match r {
            Some(a) => asset_of(
                attrs@,
                ctxs_view(stack@),
                AssetLookups { sector_names: sector_names@, component_names: component_names@, loc: localization@ },
            ) == Some(a@),
            None => asset_of(
                attrs@,
                ctxs_view(stack@),
                AssetLookups { sector_names: sector_names@, component_names: component_names@, loc: localization@ },
            ) is None,
        },
{
    let class = match attrs.get("class") {
        Some(c) => c,
        None => {
            return None;
        },
    };
    if !has_owner_player(attrs) || !is_station_or_ship(class.as_str()) {
        return None;
    }
    let id = match text_attr(attrs, "id") {
        Some(i) => i,
        None => String::new(),
    };
    let name = resolve_component_name(attrs, component_names, localization);
    let code = text_attr(attrs, "code");
    let macro_name = text_attr(attrs, "macro");
    let (sector_code, sector_name) = get_sector_from_stack(stack, sector_names);
    let meta = match &macro_name {
        Some(m) => derive_ship_meta(Some(m.as_str()), None),
        None => derive_ship_meta(None, None),
    };
    let (cargo_capacity, cargo_type, ship_type) = meta;
    Some(
        PlayerAsset {
            id,
            class: class.clone(),
            name,
            code,
            macro_name,
            cargo_capacity,
            cargo_type,
            ship_type,
            sector_code,
            sector_name,
        },
    )
}

/// The player's stations and ships in a save, in document order: components of a station
/// or ship class owned by the player, with their name, codes, ship role and type, and
/// enclosing sector. Fails when the save is not well-formed XML.
pub fn extract_player_assets(
    xml: &str,
    sector_names: &StrMap<String>,
    component_names: &StrMap<String>,
    localization: &Localization,
) -> (r: Result<Vec<PlayerAsset>, XmlParseError>)
    ensures
        ({
            let lk = AssetLookups { sector_names: sector_names@, component_names: component_names@, loc: localization@ };
            match r {
                Ok(v) => assets_in(xml_events(xml@), lk) == Some(assets_view(v@)),
                Err(_) => assets_in(xml_events(xml@), lk) is None,
            }
        }),
{
    let events = tokenize(xml);
    assets_from_events(events.as_slice(), sector_names, component_names, localization)
}

/// The same as `extract_player_assets`, on the events of the text.
pub fn assets_from_events(
    events: &[XmlEvent],
    sector_names: &StrMap<String>,
    component_names: &StrMap<String>,
    localization: &Localization,
) -> (r: Result<Vec<PlayerAsset>, XmlParseError>)
    ensures
        ({
            let lk = AssetLookups { sector_names: sector_names@, component_names: component_names@, loc: localization@ };
            match r {
                Ok(v) => assets_in(views(events@), lk) == Some(assets_view(v@)),
                Err(_) => assets_in(views(events@), lk) is None,
            }
        }),
{
    let ghost evs = views(events@);
    let ghost lk = AssetLookups { sector_names: sector_names@, component_names: component_names@, loc: localization@ };
    let mut stack: Vec<Ctx> = Vec::new();
    let mut assets: Vec<PlayerAsset> = Vec::new();
    let mut failed = false;
    let mut i: usize = 0;
    proof {
        assert(ctxs_view(stack@) =~= Seq::<CtxView>::empty());
        assert(assets_view(assets@) =~= Seq::<PlayerAssetView>::empty());
    }
    while i < events.len()
        invariant
            i <= events@.len(),
            evs == views(events@),
            lk == (AssetLookups { sector_names: sector_names@, component_names: component_names@, loc: localization@ }),
            fold_events(
                evs.take(i as int),
                AssetScan { stack: Seq::empty(), assets: Seq::empty(), failed: false },
                |s: AssetScan, e: EventView| asset_step(lk, s, e),
            ) == (AssetScan { stack: ctxs_view(stack@), assets: assets_view(assets@), failed }),
        decreases events.len() - i,
    {
        proof {
            lemma_fold_events_next(
                evs,
                i as int,
                AssetScan { stack: Seq::empty(), assets: Seq::empty(), failed: false },
                |s: AssetScan, e: EventView| asset_step(lk, s, e),
            );
            assert(evs[i as int] == events@[i as int]@);
        }
        let ghost sv0 = ctxs_view(stack@);
        let ghost av0 = assets_view(assets@);
        if !failed {
            match &events[i] {
                XmlEvent::Start(e) => {
                    let attrs = e.attr_strmap();
                    stack.push(Ctx { tag: e.name.clone(), attrs });
                    proof {
                        assert(ctxs_view(stack@) =~= sv0.push(CtxView { tag: e@.name, attrs: attr_map(e@.attrs) }));
                    }
                    if e.is("component") {
                        let a_attrs = e.attr_strmap();
                        match asset_exec(&a_attrs, stack.as_slice(), sector_names, component_names, localization) {
                            Some(a) => {
                                assets.push(a);
                                proof {
                                    assert(assets_view(assets@) =~= av0.push(assets@.last()@));
                                }
                            },
                            None => {},
                        }
                    }
                },
                XmlEvent::Empty(e) => {
                    if e.is("component") {
                        let a_attrs = e.attr_strmap();
                        match asset_exec(&a_attrs, stack.as_slice(), sector_names, component_names, localization) {
                            Some(a) => {
                                assets.push(a);
                                proof {
                                    assert(assets_view(assets@) =~= av0.push(assets@.last()@));
                                }
                            },
                            None => {},
                        }
                    }
                },
                XmlEvent::End(_) => {
                    if stack.len() > 0 {
                        stack.pop();
                        proof {
                            assert(ctxs_view(stack@) =~= sv0.drop_last());
                        }
                    }
                },
                XmlEvent::Error => {
                    failed = true;
                },
                _ => {},
            }
        }
        i += 1;
    }
    proof {
        assert(evs.take(events@.len() as int) =~= evs);
    }
    if failed {
        Err(XmlParseError)
    } else {
        Ok(assets)
    }
}

} // verus!
