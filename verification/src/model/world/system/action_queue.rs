use std::collections::HashMap;

use vstd::prelude::*;

use crate::model::world::component::ComponentID;

verus! {

/// What a character can be busy with.
#[derive(Clone, Copy, Debug, PartialEq, Eq, Structural, PartialOrd, Ord, Hash)]
pub enum Action {
    Idle,
    Move,
    AutoAttack,
}

/// The number an action is filed under (`Idle` first).
pub open spec fn action_key(a: Action) -> u64 {
    match a {
        Action::Idle => 0,
        Action::Move => 1,
        Action::AutoAttack => 2,
    }
}

impl Action {
    /// The number the action is filed under, as `action_key` says.
    pub fn key(&self) -> (k: u64)
        ensures
            k == action_key(*self),
    {
        match self {
            Action::Idle => 0,
            Action::Move => 1,
            Action::AutoAttack => 2,
        }
    }
}

/// What the action queue knows of each action, filed under its number: its
/// priority, and the component a character needs for it (without it, the
/// action is dropped).
pub struct ActionQueueInfo {
    pub priority: HashMap<u64, i32>,
    pub component: HashMap<u64, ComponentID>,
}

impl ActionQueueInfo {
    /// Moving comes first at priority 0 and needs movement; auto attacking
    /// has priority 1 and needs the auto attack component.
    pub fn init() -> (info: Self)
        ensures
            info.priority@ == map![
                action_key(Action::Move) => 0i32,
                action_key(Action::AutoAttack) => 1i32,
            ],
            info.component@ == map![
                action_key(Action::Move) => ComponentID::Movement,
                action_key(Action::AutoAttack) => ComponentID::AutoAttack,
            ],
    {
        broadcast use vstd::std_specs::hash::group_hash_axioms;

        let mut priority: HashMap<u64, i32> = HashMap::new();
        let mut component: HashMap<u64, ComponentID> = HashMap::new();
        priority.insert(Action::Move.key(), 0);
        component.insert(Action::Move.key(), ComponentID::Movement);
        priority.insert(Action::AutoAttack.key(), 1);
        component.insert(Action::AutoAttack.key(), ComponentID::AutoAttack);
        assert(priority@ =~= map![action_key(Action::Move) => 0i32, action_key(Action::AutoAttack) => 1i32]);
        assert(component@ =~= map![
            action_key(Action::Move) => ComponentID::Movement,
            action_key(Action::AutoAttack) => ComponentID::AutoAttack,
        ]);
        ActionQueueInfo { priority, component }
    }
}

} // verus!
