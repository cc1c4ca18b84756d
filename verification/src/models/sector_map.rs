use vstd::prelude::*;
use crate::models::opt_view;
use crate::models::sector_detail::{OffsetTexts, OffsetView};

verus! {

/// A station on a sector map.
pub struct MapStation {
    pub name: String,
    pub code: String,
    pub owner: Option<String>,
    pub position: OffsetTexts,
    pub macro_name: String,
}

pub struct MapStationView {
    pub name: Seq<char>,
    pub code: Seq<char>,
    pub owner: Option<Seq<char>>,
    pub position: OffsetView,
    pub macro_name: Seq<char>,
}

impl View for MapStation {
    type V = MapStationView;

    open spec fn view(&self) -> MapStationView {
        MapStationView {
            name: self.name@,
            code: self.code@,
            owner: opt_view(self.owner),
            position: self.position@,
            macro_name: self.macro_name@,
        }
    }
}

/// A ship on a sector map.
pub struct MapShip {
    pub name: String,
    pub code: String,
    pub owner: Option<String>,
    pub position: OffsetTexts,
    pub class: String,
    pub macro_name: String,
}

pub struct MapShipView {
    pub name: Seq<char>,
    pub code: Seq<char>,
    pub owner: Option<Seq<char>>,
    pub position: OffsetView,
    pub class: Seq<char>,
    pub macro_name: Seq<char>,
}

impl View for MapShip {
    type V = MapShipView;

    open spec fn view(&self) -> MapShipView {
        MapShipView {
            name: self.name@,
            code: self.code@,
            owner: opt_view(self.owner),
            position: self.position@,
            class: self.class@,
            macro_name: self.macro_name@,
        }
    }
}

/// A jump gate on a sector map.
pub struct MapGate {
    pub name: String,
    pub code: String,
    pub position: OffsetTexts,
    pub destination: Option<String>,
}

pub struct MapGateView {
    pub name: Seq<char>,
    pub code: Seq<char>,
    pub position: OffsetView,
    pub destination: Option<Seq<char>>,
}

impl View for MapGate {
    type V = MapGateView;

    open spec fn view(&self) -> MapGateView {
        MapGateView {
            name: self.name@,
            code: self.code@,
            position: self.position@,
            destination: opt_view(self.destination),
        }
    }
}

/// An asteroid on a sector map.
pub struct MapAsteroid {
    pub code: String,
    pub position: OffsetTexts,
    pub macro_name: String,
}

pub struct MapAsteroidView {
    pub code: Seq<char>,
    pub position: OffsetView,
    pub macro_name: Seq<char>,
}

impl View for MapAsteroid {
    type V = MapAsteroidView;

    open spec fn view(&self) -> MapAsteroidView {
        MapAsteroidView { code: self.code@, position: self.position@, macro_name: self.macro_name@ }
    }
}

/// A resource field (resource, gas or nebula) on a sector map.
pub struct MapResource {
    pub name: String,
    pub code: String,
    pub position: OffsetTexts,
    pub resource_type: String,
    pub macro_name: String,
}

pub struct MapResourceView {
    pub name: Seq<char>,
    pub code: Seq<char>,
    pub position: OffsetView,
    pub resource_type: Seq<char>,
    pub macro_name: Seq<char>,
}

impl View for MapResource {
    type V = MapResourceView;

    open spec fn view(&self) -> MapResourceView {
        MapResourceView {
            name: self.name@,
            code: self.code@,
            position: self.position@,
            resource_type: self.resource_type@,
            macro_name: self.macro_name@,
        }
    }
}

/// What a sector map shows.
pub struct SectorMapData {
    pub sector_code: String,
    pub sector_name: String,
    pub owner: Option<String>,
    pub stations: Vec<MapStation>,
    pub ships: Vec<MapShip>,
    pub gates: Vec<MapGate>,
    pub asteroids: Vec<MapAsteroid>,
    pub resources: Vec<MapResource>,
}

/// The objects of a sector map.
pub struct MapObjects {
    pub stations: Seq<MapStationView>,
    pub ships: Seq<MapShipView>,
    pub gates: Seq<MapGateView>,
    pub asteroids: Seq<MapAsteroidView>,
    pub resources: Seq<MapResourceView>,
}

pub struct SectorMapView {
    pub sector_code: Seq<char>,
    pub sector_name: Seq<char>,
    pub owner: Option<Seq<char>>,
    pub objects: MapObjects,
}

impl View for SectorMapData {
    type V = SectorMapView;

    open spec fn view(&self) -> SectorMapView {
        SectorMapView {
            sector_code: self.sector_code@,
            sector_name: self.sector_name@,
            owner: opt_view(self.owner),
            objects: MapObjects {
                stations: self.stations@.map_values(|s: MapStation| s@),
                ships: self.ships@.map_values(|s: MapShip| s@),
                gates: self.gates@.map_values(|s: MapGate| s@),
                asteroids: self.asteroids@.map_values(|s: MapAsteroid| s@),
                resources: self.resources@.map_values(|s: MapResource| s@),
            },
        }
    }
}

} // verus!
