use vstd::prelude::*;
use vstd::slice::{slice_subrange, slice_to_vec};


verus! {

/// The number each kind of command travels under.
#[derive(Clone, Copy, Debug, PartialEq, Eq, Structural)]
pub enum CommandID {
    GetAddress,
    SetUDPAddress,
    PlayerLogIn,
    PlayerLogOut,
    GetPlayerData,
    PlayerSubs,
    GenerateCharacter,
    MoveCharacterRequest,
    ListChar,
    EnsureCharacter,
    IndicateClientPlayer,
    SendAddress,
    PlayerDataPayload,
    EchoMessage,
    ChatMessage,
    UpdateCharacter,
    MoveCharacter,
    AutoAttackCommand,
    AutoAttackRequest,
    ClearWorld,
}

/// The number a command ID travels as: its place in the list of IDs.
pub open spec fn command_number(id: CommandID) -> u16 {
    match id {
        CommandID::GetAddress => 0,
        CommandID::SetUDPAddress => 1,
        CommandID::PlayerLogIn => 2,
        CommandID::PlayerLogOut => 3,
        CommandID::GetPlayerData => 4,
        CommandID::PlayerSubs => 5,
        CommandID::GenerateCharacter => 6,
        CommandID::MoveCharacterRequest => 7,
        CommandID::ListChar => 8,
        CommandID::EnsureCharacter => 9,
        CommandID::IndicateClientPlayer => 10,
        CommandID::SendAddress => 11,
        CommandID::PlayerDataPayload => 12,
        CommandID::EchoMessage => 13,
        CommandID::ChatMessage => 14,
        CommandID::UpdateCharacter => 15,
        CommandID::MoveCharacter => 16,
        CommandID::AutoAttackCommand => 17,
        CommandID::AutoAttackRequest => 18,
        CommandID::ClearWorld => 19,
    }
}

/// How many command IDs there are.
pub const COMMAND_ID_COUNT: u16 = 20;

impl CommandID {
    /// The number this ID travels as.
    pub fn to_u16(&self) -> (n: u16)
        ensures
            n == command_number(*self),
            n < COMMAND_ID_COUNT,
    {
        match *self {
            CommandID::GetAddress => 0,
            CommandID::SetUDPAddress => 1,
            CommandID::PlayerLogIn => 2,
            CommandID::PlayerLogOut => 3,
            CommandID::GetPlayerData => 4,
            CommandID::PlayerSubs => 5,
            CommandID::GenerateCharacter => 6,
            CommandID::MoveCharacterRequest => 7,
            CommandID::ListChar => 8,
            CommandID::EnsureCharacter => 9,
            CommandID::IndicateClientPlayer => 10,
            CommandID::SendAddress => 11,
            CommandID::PlayerDataPayload => 12,
            CommandID::EchoMessage => 13,
            CommandID::ChatMessage => 14,
            CommandID::UpdateCharacter => 15,
            CommandID::MoveCharacter => 16,
            CommandID::AutoAttackCommand => 17,
            CommandID::AutoAttackRequest => 18,
            CommandID::ClearWorld => 19,
        }
    }

    /// The ID that travels as `n`, if there is one.
    pub fn try_from_u16(n: u16) -> (id: Option<CommandID>)
        ensures
            id is Some <==> n < COMMAND_ID_COUNT,
            id matches Some(i) ==> command_number(i) == n,
    {
        match n {
            0 => Some(CommandID::GetAddress),
            1 => Some(CommandID::SetUDPAddress),
            2 => Some(CommandID::PlayerLogIn),
            3 => Some(CommandID::PlayerLogOut),
            4 => Some(CommandID::GetPlayerData),
            5 => Some(CommandID::PlayerSubs),
            6 => Some(CommandID::GenerateCharacter),
            7 => Some(CommandID::MoveCharacterRequest),
            8 => Some(CommandID::ListChar),
            9 => Some(CommandID::EnsureCharacter),
            10 => Some(CommandID::IndicateClientPlayer),
            11 => Some(CommandID::SendAddress),
            12 => Some(CommandID::PlayerDataPayload),
            13 => Some(CommandID::EchoMessage),
            14 => Some(CommandID::ChatMessage),
            15 => Some(CommandID::UpdateCharacter),
            16 => Some(CommandID::MoveCharacter),
            17 => Some(CommandID::AutoAttackCommand),
            18 => Some(CommandID::AutoAttackRequest),
            19 => Some(CommandID::ClearWorld),
            _ => None,
        }
    }
}

/// The two big-endian bytes of `n`.
pub open spec fn be16_bytes(n: u16) -> Seq<u8> {
    seq![(n / 256) as u8, (n % 256) as u8]
}

/// The number two big-endian bytes stand for.
pub open spec fn be16_value(hi: u8, lo: u8) -> int {
    hi * 256 + lo
}

/// The bytes a command travels as: its serialized body, then the two
/// big-endian bytes of its ID's number.
pub open spec fn command_bytes(body: Seq<u8>, id: CommandID) -> Seq<u8> {
    body + be16_bytes(command_number(id))
}

/// Appends the number of `id` to a serialized command body, as the bytes
/// that are sent.
pub fn encode_command(body: Vec<u8>, id: CommandID) -> (bytes: Vec<u8>)
    ensures
        bytes@ == command_bytes(body@, id),
{
    let mut bytes = body;
    let n = id.to_u16();
    bytes.push((n / 256) as u8);
    bytes.push((n % 256) as u8);
    bytes
}

/// Splits received command bytes into the number in their last two bytes
/// and the body before them.
pub fn split_command(command: &[u8]) -> (r: (u16, Vec<u8>))
    requires
        command@.len() >= 2,
    ensures
        r.0 == be16_value(command@[command@.len() - 2], command@[command@.len() - 1]),
        r.1@ == command@.take(command@.len() - 2),
{
    let len = command.len();
    let hi = command[len - 2];
    let lo = command[len - 1];
    let n = (hi as u16) * 256 + (lo as u16);
    (n, slice_to_vec(slice_subrange(command, 0, len - 2)))
}

/// Splitting the bytes of a command gives back its ID's number and its
/// body, and that number gives back the ID.
pub proof fn lemma_command_bytes_roundtrip(body: Seq<u8>, id: CommandID)
    ensures
        command_bytes(body, id).len() == body.len() + 2,
        be16_value(
            command_bytes(body, id)[body.len() as int],
            command_bytes(body, id)[body.len() as int + 1],
        ) == command_number(id),
        command_bytes(body, id).take(body.len() as int) == body,
{
    let b = command_bytes(body, id);
    let n = command_number(id);
    assert(b[body.len() as int] == (n / 256) as u8);
    assert(b[body.len() as int + 1] == (n % 256) as u8);
    assert(b.take(body.len() as int) =~= body);
}


/// A command that knows the ID it travels under.
pub trait GetCommandID {
    spec fn spec_command_id(&self) -> CommandID;

    fn command_id(&self) -> (id: CommandID)
        ensures
            id == self.spec_command_id(),
    ;
}

/// Asks the server for the address it sees the client at.
pub struct GetAddress;

/// The address the server sees the client at.
pub struct SendAddress(pub String);

/// Tells the server the client's UDP address.
pub struct SetUDPAddress(pub String);

/// A text the other side sends back.
pub struct EchoMessage(pub String);

impl GetCommandID for GetAddress {
    open spec fn spec_command_id(&self) -> CommandID {
        CommandID::GetAddress
    }

    fn command_id(&self) -> (id: CommandID) {
        CommandID::GetAddress
    }
}

impl GetCommandID for SendAddress {
    open spec fn spec_command_id(&self) -> CommandID {
        CommandID::SendAddress
    }

    fn command_id(&self) -> (id: CommandID) {
        CommandID::SendAddress
    }
}

impl GetCommandID for SetUDPAddress {
    open spec fn spec_command_id(&self) -> CommandID {
        CommandID::SetUDPAddress
    }

    fn command_id(&self) -> (id: CommandID) {
        CommandID::SetUDPAddress
    }
}

impl GetCommandID for EchoMessage {
    open spec fn spec_command_id(&self) -> CommandID {
        CommandID::EchoMessage
    }

    fn command_id(&self) -> (id: CommandID) {
        CommandID::EchoMessage
    }
}

/// Two different command IDs travel as different numbers.
pub proof fn lemma_command_number_injective(a: CommandID, b: CommandID)
    ensures
        command_number(a) == command_number(b) ==> a == b,
{
}

/// The command IDs in the order in which they are declared.
pub open spec fn declared_command_ids() -> Seq<CommandID> {
    seq![
        CommandID::GetAddress,
        CommandID::SetUDPAddress,
        CommandID::PlayerLogIn,
        CommandID::PlayerLogOut,
        CommandID::GetPlayerData,
        CommandID::PlayerSubs,
        CommandID::GenerateCharacter,
        CommandID::MoveCharacterRequest,
        CommandID::ListChar,
        CommandID::EnsureCharacter,
        CommandID::IndicateClientPlayer,
        CommandID::SendAddress,
        CommandID::PlayerDataPayload,
        CommandID::EchoMessage,
        CommandID::ChatMessage,
        CommandID::UpdateCharacter,
        CommandID::MoveCharacter,
        CommandID::AutoAttackCommand,
        CommandID::AutoAttackRequest,
        CommandID::ClearWorld,
    ]
}

/// Every command ID travels as its place in the order of declaration, and
/// every ID has a place there: the wire numbers run from 0 in that order,
/// with none skipped.
pub proof fn lemma_command_number_is_declaration_place(id: CommandID)
    ensures
        declared_command_ids().len() == COMMAND_ID_COUNT,
        declared_command_ids().contains(id),
        forall|i: int| 0 <= i < declared_command_ids().len() ==> command_number(#[trigger] declared_command_ids()[i]) == i,
{
    let d = declared_command_ids();
    assert(d[0] == CommandID::GetAddress);
    assert(d[1] == CommandID::SetUDPAddress);
    assert(d[2] == CommandID::PlayerLogIn);
    assert(d[3] == CommandID::PlayerLogOut);
    assert(d[4] == CommandID::GetPlayerData);
    assert(d[5] == CommandID::PlayerSubs);
    assert(d[6] == CommandID::GenerateCharacter);
    assert(d[7] == CommandID::MoveCharacterRequest);
    assert(d[8] == CommandID::ListChar);
    assert(d[9] == CommandID::EnsureCharacter);
    assert(d[10] == CommandID::IndicateClientPlayer);
    assert(d[11] == CommandID::SendAddress);
    assert(d[12] == CommandID::PlayerDataPayload);
    assert(d[13] == CommandID::EchoMessage);
    assert(d[14] == CommandID::ChatMessage);
    assert(d[15] == CommandID::UpdateCharacter);
    assert(d[16] == CommandID::MoveCharacter);
    assert(d[17] == CommandID::AutoAttackCommand);
    assert(d[18] == CommandID::AutoAttackRequest);
    assert(d[19] == CommandID::ClearWorld);
    let i = command_number(id) as int;
    assert(d[i] == id);
}

} // verus!
