use vstd::prelude::*;
use crate::models::opt_view;

verus! {

/// A sector found in a save: its code, macro, display name and owning faction.
pub struct Sector {
    pub code: String,
    pub macro_name: String,
    pub name: String,
    pub owner: Option<String>,
}

pub struct SectorView {
    pub code: Seq<char>,
    pub macro_name: Seq<char>,
    pub name: Seq<char>,
    pub owner: Option<Seq<char>>,
}

} // verus!
