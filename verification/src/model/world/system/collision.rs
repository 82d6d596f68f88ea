use vstd::prelude::*;

verus! {

/// The layers that things collide on.
#[derive(Clone, Copy, Debug, PartialEq, Eq, Structural, Hash)]
pub enum Layer {
    Terrain,
    Minions,
    Players,
}

} // verus!
