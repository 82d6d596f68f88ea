use rustgl::model::commands::{encode_command, split_command, CommandID, GetAddress, GetCommandID, COMMAND_ID_COUNT};
use rustgl::model::player::commands::{ChatMessage, PlayerLogIn};
use rustgl::model::world::commands::{ClearWorld, GenerateCharacter};
use rustgl::model::world::character::CharacterType;
use rustgl::networking::networking_wrapping::{
    SerializedClientCommand, SerializedServerCommand, SerializedWrapperDecay, VecSerializedWrapperDecay,
};

#[test]
fn command_ids_travel_as_their_place_in_the_list() {
    assert_eq!(CommandID::GetAddress.to_u16(), 0);
    assert_eq!(CommandID::ChatMessage.to_u16(), 14);
    assert_eq!(CommandID::ClearWorld.to_u16(), 19);
    for n in 0..COMMAND_ID_COUNT {
        assert_eq!(CommandID::try_from_u16(n).map(|id| id.to_u16()), Some(n));
    }
    assert!(CommandID::try_from_u16(COMMAND_ID_COUNT).is_none());
    assert!(CommandID::try_from_u16(u16::MAX).is_none());
}

#[test]
fn encoded_commands_split_back() {
    let bytes = encode_command(vec![9, 8, 7], CommandID::ClearWorld);
    assert_eq!(bytes, vec![9, 8, 7, 0, 19]);
    assert_eq!(split_command(&bytes), (19, vec![9, 8, 7]));
    assert_eq!(split_command(&[1, 2]), (258, vec![]));
}

#[test]
fn commands_know_their_ids() {
    assert!(matches!(GetAddress.command_id(), CommandID::GetAddress));
    assert!(matches!(ChatMessage("x".to_string()).command_id(), CommandID::ChatMessage));
    assert!(matches!(PlayerLogIn { existing: false, name: None }.command_id(), CommandID::PlayerLogIn));
    assert!(matches!(ClearWorld.command_id(), CommandID::ClearWorld));
    let g = GenerateCharacter::new(CharacterType::IceWiz);
    assert_eq!(g.0, CharacterType::IceWiz);
    assert!(matches!(g.command_id(), CommandID::GenerateCharacter));
}

#[test]
fn serialized_commands_give_up_their_bytes_in_order() {
    assert_eq!(SerializedServerCommand::new(vec![1, 2]).decay(), vec![1, 2]);
    assert_eq!(SerializedClientCommand::new(vec![3]).decay(), vec![3]);
    let all = vec![SerializedClientCommand::new(vec![1]), SerializedClientCommand::new(vec![2, 2])];
    assert_eq!(VecSerializedWrapperDecay::decay(all), vec![vec![1], vec![2, 2]]);
}
