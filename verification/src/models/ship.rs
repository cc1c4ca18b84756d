use vstd::prelude::*;

verus! {

/// Cargo and speed facts of a ship macro. `speed_texts` holds, for each element inside
/// the macro that has them, the texts of its `maxspeed`/`speed` attributes in order;
/// reading them as floating-point numbers is left to the caller.
pub struct ShipMeta {
    pub cargo_capacity: Option<i32>,
    pub cargo_type: Option<String>,
    pub speed_texts: Vec<Vec<String>>,
}

pub struct ShipMetaView {
    pub cargo_capacity: Option<int>,
    pub cargo_type: Option<Seq<char>>,
    pub speed_texts: Seq<Seq<Seq<char>>>,
}

pub open spec fn texts_view(v: Vec<String>) -> Seq<Seq<char>> {
    v@.map_values(|s: String| s@)
}

impl View for ShipMeta {
    type V = ShipMetaView;

    open spec fn view(&self) -> ShipMetaView {
        ShipMetaView {
            cargo_capacity: match self.cargo_capacity {
                Some(n) => Some(n as int),
                None => None,
            },
            cargo_type: match self.cargo_type {
                Some(t) => Some(t@),
                None => None,
            },
            speed_texts: self.speed_texts@.map_values(|v: Vec<String>| texts_view(v)),
        }
    }
}

} // verus!
