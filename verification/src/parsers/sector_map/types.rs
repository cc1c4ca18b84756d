use vstd::prelude::*;
use crate::models::sector_detail::{OffsetTexts, OffsetView};
use crate::strmap::StrMap;

verus! {

/// An open element inside the mapped sector, with its attributes and, for a component,
/// the position read for it.
pub struct StackItem {
    pub tag: String,
    pub attrs: StrMap<String>,
    pub position: Option<OffsetTexts>,
}

pub struct StackItemView {
    pub tag: Seq<char>,
    pub attrs: Map<Seq<char>, Seq<char>>,
    pub position: Option<OffsetView>,
}

impl View for StackItem {
    type V = StackItemView;

    open spec fn view(&self) -> StackItemView {
        StackItemView {
            tag: self.tag@,
            attrs: self.attrs@,
            position: match self.position {
                Some(p) => Some(p@),
                None => None,
            },
        }
    }
}

/// The views of a stack of items.
pub open spec fn items_view(s: Seq<StackItem>) -> Seq<StackItemView> {
    s.map_values(|i: StackItem| i@)
}

} // verus!
