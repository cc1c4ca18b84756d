use vstd::prelude::*;
use crate::strmap::StrMap;

verus! {

/// An open element of a save with its attributes.
pub struct Ctx {
    pub tag: String,
    pub attrs: StrMap<String>,
}

pub struct CtxView {
    pub tag: Seq<char>,
    pub attrs: Map<Seq<char>, Seq<char>>,
}

impl View for Ctx {
    type V = CtxView;

    open spec fn view(&self) -> CtxView {
        CtxView { tag: self.tag@, attrs: self.attrs@ }
    }
}

/// The views of a stack of contexts.
pub open spec fn ctxs_view(s: Seq<Ctx>) -> Seq<CtxView> {
    s.map_values(|c: Ctx| c@)
}

} // verus!
