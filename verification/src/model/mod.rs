use vstd::prelude::*;

pub mod commands;
pub mod player;
pub mod world;

verus! {

/// The kinds of broadcasts a player can sign up for.
#[derive(Clone, Copy, Debug, PartialEq, Eq, Structural, Hash)]
pub enum Subscription {
    Chat,
    World,
}

} // verus!
