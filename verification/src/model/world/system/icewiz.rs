use vstd::prelude::*;

use crate::model::world::component::{Component, ComponentID, GetComponentID};

verus! {

/// The component that marks a character as an ice wizard; it holds nothing, and
/// updates leave it as it is.
#[derive(Clone, Copy, Debug, PartialEq, Eq, Structural, Default)]
pub struct IceWiz {}

impl GetComponentID for IceWiz {
    const ID: ComponentID = ComponentID::IceWiz;
}

impl Component for IceWiz {
    type Update = ();

    open spec fn spec_initial() -> Self {
        IceWiz {}
    }

    open spec fn spec_update(&self, update: &()) -> Self {
        *self
    }

    fn initial() -> (c: Self) {
        IceWiz {}
    }

    fn update(&self, update: &()) -> (c: Self) {
        *self
    }
}

} // verus!
