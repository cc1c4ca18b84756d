use vstd::prelude::*;
use crate::models::opt_view;

verus! {

/// How a ware is carried.
#[derive(Clone, Copy, Debug, PartialEq, Eq, Structural)]
pub enum TransportType {
    Container,
    Solid,
    Liquid,
    Energy,
}

impl Default for TransportType {
    fn default() -> (t: Self)
        ensures
            t == TransportType::Container,
    {
        TransportType::Container
    }
}

/// Ware metadata. `volume` is the text of the ware's `volume` attribute; reading it as a
/// floating-point number is left to the caller.
pub struct WareMeta {
    pub id: String,
    pub transport: TransportType,
    pub volume: Option<String>,
    pub name_ref: Option<String>,
}

pub struct WareMetaView {
    pub id: Seq<char>,
    pub transport: TransportType,
    pub volume: Option<Seq<char>>,
    pub name_ref: Option<Seq<char>>,
}

impl View for WareMeta {
    type V = WareMetaView;

    open spec fn view(&self) -> WareMetaView {
        WareMetaView {
            id: self.id@,
            transport: self.transport,
            volume: opt_view(self.volume),
            name_ref: opt_view(self.name_ref),
        }
    }
}

} // verus!
