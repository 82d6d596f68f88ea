use vstd::prelude::*;

use crate::model::commands::{CommandID, GetCommandID};
use crate::model::world::player::PlayerData;
use crate::model::Subscription;

verus! {

/// A line of chat.
pub struct ChatMessage(pub String);

/// The players the server knows.
pub struct PlayerDataPayload(pub PlayerData);

/// Asks for the players the server knows.
pub struct GetPlayerData;

/// Logs in as an existing player or a new one, by name if one is given.
#[derive(Debug)]
pub struct PlayerLogIn {
    pub existing: bool,
    pub name: Option<String>,
}

pub struct PlayerLogOut;

/// What a player asks of their subscriptions.
pub enum PlayerSubCommand {
    ListSubs,
    AddSubs(Vec<Subscription>),
    DelSubs(Vec<Subscription>),
    SetSubs(Vec<Subscription>),
}

pub struct PlayerSubs(pub PlayerSubCommand);

impl GetCommandID for ChatMessage {
    open spec fn spec_command_id(&self) -> CommandID {
        CommandID::ChatMessage
    }

    fn command_id(&self) -> (id: CommandID) {
        CommandID::ChatMessage
    }
}

impl GetCommandID for PlayerDataPayload {
    open spec fn spec_command_id(&self) -> CommandID {
        CommandID::PlayerDataPayload
    }

    fn command_id(&self) -> (id: CommandID) {
        CommandID::PlayerDataPayload
    }
}

impl GetCommandID for GetPlayerData {
    open spec fn spec_command_id(&self) -> CommandID {
        CommandID::GetPlayerData
    }

    fn command_id(&self) -> (id: CommandID) {
        CommandID::GetPlayerData
    }
}

impl GetCommandID for PlayerLogIn {
    open spec fn spec_command_id(&self) -> CommandID {
        CommandID::PlayerLogIn
    }

    fn command_id(&self) -> (id: CommandID) {
        CommandID::PlayerLogIn
    }
}

impl GetCommandID for PlayerLogOut {
    open spec fn spec_command_id(&self) -> CommandID {
        CommandID::PlayerLogOut
    }

    fn command_id(&self) -> (id: CommandID) {
        CommandID::PlayerLogOut
    }
}

impl GetCommandID for PlayerSubs {
    open spec fn spec_command_id(&self) -> CommandID {
        CommandID::PlayerSubs
    }

    fn command_id(&self) -> (id: CommandID) {
        CommandID::PlayerSubs
    }
}

} // verus!
