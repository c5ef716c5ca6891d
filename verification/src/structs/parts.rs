//! The parts of an image reference.

use vstd::prelude::*;

verus! {

/// What [`Parts`] stands for.
pub struct PartsView {
    pub registry: Seq<char>,
    pub repository: Seq<char>,
    pub tag: Seq<char>,
}

/// An image reference, taken apart.
#[derive(Debug, PartialEq)]
pub struct Parts {
    pub registry: String,
    pub repository: String,
    pub tag: String,
}

impl View for Parts {
    type V = PartsView;

    open spec fn view(&self) -> PartsView {
        PartsView { registry: self.registry@, repository: self.repository@, tag: self.tag@ }
    }
}

impl Clone for Parts {
    fn clone(&self) -> (r: Self)
        ensures
            r@ == self@,
    {
        Parts {
            registry: self.registry.clone(),
            repository: self.repository.clone(),
            tag: self.tag.clone(),
        }
    }
}

} // verus!
