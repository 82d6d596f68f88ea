use vstd::prelude::*;

use crate::model::world::character::CharacterID;
use crate::model::world::component::{Component, ComponentID, GetComponentID};

verus! {

/// A projectile on its way from one character to another.
#[derive(Clone, Copy, Debug, PartialEq, Eq, Structural)]
pub struct Projectile {
    pub origin: CharacterID,
    pub target: CharacterID,
}

/// Sets a projectile's component outright.
#[derive(Clone, Copy, Debug, PartialEq, Eq, Structural)]
pub struct ProjectileUpdate(pub Projectile);

impl GetComponentID for Projectile {
    const ID: ComponentID = ComponentID::Projectile;
}

impl Component for Projectile {
    type Update = ProjectileUpdate;

    /// A projectile from and to no character: both ends are the number no
    /// generator reaches, the largest.
    open spec fn spec_initial() -> Self {
        Projectile { origin: CharacterID(u64::MAX), target: CharacterID(u64::MAX) }
    }

    /// The update's projectile.
    open spec fn spec_update(&self, update: &ProjectileUpdate) -> Self {
        update.0
    }

    fn initial() -> (c: Self) {
        Projectile { origin: CharacterID(u64::MAX), target: CharacterID(u64::MAX) }
    }

    fn update(&self, update: &ProjectileUpdate) -> (c: Self) {
        update.0
    }
}

} // verus!
