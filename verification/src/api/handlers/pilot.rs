use vstd::prelude::*;
use crate::models::assets::{PlayerAsset, PlayerAssetView};
use crate::models::{opt_view, ShipMeta, ShipMetaView};
use crate::strmap::StrMap;
use crate::text::{contains, lower, str_contains, to_lower};

verus! {

/// A ship asset with the cargo facts it lacks taken from the ship facts of its macro.
pub open spec fn enriched(a: PlayerAssetView, ships: Map<Seq<char>, ShipMetaView>) -> PlayerAssetView {
    if contains(a.class, "ship"@) && a.macro_name is Some && ships.contains_key(lower(a.macro_name.unwrap())) {
        let sm = ships[lower(a.macro_name.unwrap())];
        PlayerAssetView {
            cargo_capacity: match a.cargo_capacity {
                Some(c) => Some(c),
                None => match sm.cargo_capacity {
                    Some(c) => Some(c as i32),
                    None => None,
                },
            },
            cargo_type: match a.cargo_type {
                Some(t) => Some(t),
                None => sm.cargo_type,
            },
            ..a
        }
    } else {
        a
    }
}

/// Fills in the cargo capacity and type of the player's ships from the ship facts of
/// their macros, where the asset has none.
pub fn enrich_assets(assets: &mut Vec<PlayerAsset>, ship_meta: &StrMap<ShipMeta>)
    ensures
        final(assets)@.len() == old(assets)@.len(),
        forall|i: int| 0 <= i < old(assets)@.len() ==> (#[trigger] final(assets)@[i])@ == enriched(
            old(assets)@[i]@,
            ship_meta@,
        ),
{
    let ghost orig = assets@;
    let mut i: usize = 0;
    while i < assets.len()
        invariant
            i <= assets@.len(),
            assets@.len() == orig.len(),
            forall|j: int| 0 <= j < i ==> (#[trigger] assets@[j])@ == enriched(orig[j]@, ship_meta@),
            forall|j: int| i <= j < orig.len() ==> #[trigger] assets@[j] == orig[j],
        decreases assets.len() - i,
    {
        let mut a = assets.remove(i);
        let ghost a0 = a@;
        if str_contains(a.class.as_str(), "ship") {
            let key = match &a.macro_name {
                Some(m) => Some(to_lower(m.as_str())),
                None => None,
            };
            match key {
                Some(k) => match ship_meta.get(k.as_str()) {
                    Some(sm) => {
                        if a.cargo_capacity.is_none() {
                            a.cargo_capacity = sm.cargo_capacity;
                        }
                        if a.cargo_type.is_none() {
                            a.cargo_type = crate::models::copy_opt(&sm.cargo_type);
                        }
                    },
                    None => {},
                },
                None => {},
            }
        }
        assert(a@ == enriched(a0, ship_meta@));
        assets.insert(i, a);
        i += 1;
    }
}

} // verus!
