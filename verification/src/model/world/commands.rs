use std::collections::HashMap;

use vstd::prelude::*;

use crate::model::commands::{CommandID, GetCommandID};

use super::character::{CharacterID, CharacterType};
use super::component::ComponentID;

verus! {

/// A command that concerns the world as a whole.
#[derive(Clone, Copy, Debug)]
pub enum GlobalCommand {
    Clear,
    CreateCharacter(CharacterID, CharacterType),
}

/// The serialized components of one character.
#[derive(Clone, Debug)]
pub struct UpdateCharacter {
    pub id: CharacterID,
    pub components: HashMap<ComponentID, Vec<u8>>,
}

/// Sets a character right at a given tick.
#[derive(Clone, Debug)]
pub struct FixWorld {
    pub update: UpdateCharacter,
    pub ordering: u32,
    pub tick: i32,
}

/// How urgent a change to a character is; later variants win.
#[derive(Clone, Copy, Debug, PartialEq, Eq, Structural, PartialOrd, Ord)]
pub enum Priority {
    Walk,
    Cast,
    Stun,
}

/// Asks for a new character of a kind.
#[derive(Debug)]
pub struct GenerateCharacter(pub CharacterType);

impl GenerateCharacter {
    pub fn new(typ: CharacterType) -> (g: Self)
        ensures
            g.0 == typ,
    {
        GenerateCharacter(typ)
    }
}

/// Asks for the list of characters.
#[derive(Debug)]
pub struct ListChar;

/// Asks that the player have a character.
#[derive(Debug)]
pub struct EnsureCharacter;

/// Asks that the world be emptied.
#[derive(Debug)]
pub struct ClearWorld;

impl GetCommandID for UpdateCharacter {
    open spec fn spec_command_id(&self) -> CommandID {
        CommandID::UpdateCharacter
    }

    fn command_id(&self) -> (id: CommandID) {
        CommandID::UpdateCharacter
    }
}

impl GetCommandID for GenerateCharacter {
    open spec fn spec_command_id(&self) -> CommandID {
        CommandID::GenerateCharacter
    }

    fn command_id(&self) -> (id: CommandID) {
        CommandID::GenerateCharacter
    }
}

impl GetCommandID for ListChar {
    open spec fn spec_command_id(&self) -> CommandID {
        CommandID::ListChar
    }

    fn command_id(&self) -> (id: CommandID) {
        CommandID::ListChar
    }
}

impl GetCommandID for EnsureCharacter {
    open spec fn spec_command_id(&self) -> CommandID {
        CommandID::EnsureCharacter
    }

    fn command_id(&self) -> (id: CommandID) {
        CommandID::EnsureCharacter
    }
}

impl GetCommandID for ClearWorld {
    open spec fn spec_command_id(&self) -> CommandID {
        CommandID::ClearWorld
    }

    fn command_id(&self) -> (id: CommandID) {
        CommandID::ClearWorld
    }
}

} // verus!
