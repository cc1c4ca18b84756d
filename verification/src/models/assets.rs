use vstd::prelude::*;
use crate::models::opt_view;

verus! {

/// A station or ship of the player. Ship speeds are not known from a save alone.
pub struct PlayerAsset {
    pub id: String,
    pub class: String,
    pub name: String,
    pub code: Option<String>,
    pub macro_name: Option<String>,
    pub cargo_capacity: Option<i32>,
    pub cargo_type: Option<String>,
    pub ship_type: Option<String>,
    pub sector_code: Option<String>,
    pub sector_name: Option<String>,
}

pub struct PlayerAssetView {
    pub id: Seq<char>,
    pub class: Seq<char>,
    pub name: Seq<char>,
    pub code: Option<Seq<char>>,
    pub macro_name: Option<Seq<char>>,
    pub cargo_capacity: Option<i32>,
    pub cargo_type: Option<Seq<char>>,
    pub ship_type: Option<Seq<char>>,
    pub sector_code: Option<Seq<char>>,
    pub sector_name: Option<Seq<char>>,
}

impl View for PlayerAsset {
    type V = PlayerAssetView;

    open spec fn view(&self) -> PlayerAssetView {
        PlayerAssetView {
            id: self.id@,
            class: self.class@,
            name: self.name@,
            code: opt_view(self.code),
            macro_name: opt_view(self.macro_name),
            cargo_capacity: self.cargo_capacity,
            cargo_type: opt_view(self.cargo_type),
            ship_type: opt_view(self.ship_type),
            sector_code: opt_view(self.sector_code),
            sector_name: opt_view(self.sector_name),
        }
    }
}

/// An NPC of the player with its skills.
pub struct PlayerNpc {
    pub id: String,
    pub name: String,
    pub code: Option<String>,
    pub piloting: i32,
    pub engineering: i32,
    pub boarding: i32,
    pub management: i32,
    pub morale: i32,
}

pub struct PlayerNpcView {
    pub id: Seq<char>,
    pub name: Seq<char>,
    pub code: Option<Seq<char>>,
    pub piloting: i32,
    pub engineering: i32,
    pub boarding: i32,
    pub management: i32,
    pub morale: i32,
}

impl View for PlayerNpc {
    type V = PlayerNpcView;

    open spec fn view(&self) -> PlayerNpcView {
        PlayerNpcView {
            id: self.id@,
            name: self.name@,
            code: opt_view(self.code),
            piloting: self.piloting,
            engineering: self.engineering,
            boarding: self.boarding,
            management: self.management,
            morale: self.morale,
        }
    }
}

} // verus!
