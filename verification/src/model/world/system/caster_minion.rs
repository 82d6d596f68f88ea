use vstd::prelude::*;

use crate::model::world::component::{Component, ComponentID, GetComponentID};

verus! {

/// The component that marks a character as a caster minion; it holds nothing, and
/// updates leave it as it is.
#[derive(Clone, Copy, Debug, PartialEq, Eq, Structural, Default)]
pub struct CasterMinion {}

impl GetComponentID for CasterMinion {
    const ID: ComponentID = ComponentID::CasterMinion;
}

impl Component for CasterMinion {
    type Update = ();

    open spec fn spec_initial() -> Self {
        CasterMinion {}
    }

    open spec fn spec_update(&self, update: &()) -> Self {
        *self
    }

    fn initial() -> (c: Self) {
        CasterMinion {}
    }

    fn update(&self, update: &()) -> (c: Self) {
        *self
    }
}

} // verus!
