use vstd::prelude::*;
use crate::models::opt_view;

verus! {

/// The player's name, credits and location.
pub struct PilotInfo {
    pub name: String,
    pub credits: i64,
    pub location: Option<String>,
}

pub struct PilotInfoView {
    pub name: Seq<char>,
    pub credits: int,
    pub location: Option<Seq<char>>,
}

impl View for PilotInfo {
    type V = PilotInfoView;

    open spec fn view(&self) -> PilotInfoView {
        PilotInfoView { name: self.name@, credits: self.credits as int, location: opt_view(self.location) }
    }
}

} // verus!
