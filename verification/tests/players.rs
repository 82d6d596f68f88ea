use rustgl::model::world::player::{
    PlayerData, PlayerDataView, PlayerID, PlayerIDGenerator, PlayerManager, PlayerManagerUpdate, TeamID,
    TeamIDGenerator, Player,
};
use rustgl::model::Subscription;
use rustgl::networking::NetAddress;

fn addr(port: u16) -> NetAddress {
    NetAddress { v6: false, ip: 0x7f000001, port, flowinfo: 0, scope_id: 0 }
}

#[test]
fn id_generators_count_up_from_zero() {
    let mut g = PlayerIDGenerator::new();
    assert_eq!(g.generate(), PlayerID(0));
    assert_eq!(g.generate(), PlayerID(1));
    let mut t = TeamIDGenerator::default();
    assert_eq!(t.generate(), TeamID(0));
    assert_eq!(t.generate(), TeamID(1));
}

#[test]
fn new_players_get_default_names_and_increasing_ids() {
    let mut m = PlayerManager::new();
    let p0 = m.create_player(None, None);
    assert_eq!(p0.id, PlayerID(0));
    assert_eq!(p0.name, "Player0");
    let p1 = m.create_player(None, None);
    assert_eq!(p1.id, PlayerID(1));
    assert_eq!(p1.name, "Player1");
    assert_eq!(m.all_player_ids(), vec![PlayerID(0), PlayerID(1)]);
    assert!(m.updates.is_empty());
}

#[test]
fn taken_names_get_the_first_free_number() {
    let mut m = PlayerManager::new();
    assert_eq!(m.create_player(None, Some("Bob".to_string())).name, "Bob");
    assert_eq!(m.create_player(None, Some("Bob".to_string())).name, "Bob (1)");
    assert_eq!(m.create_player(None, Some("Bob".to_string())).name, "Bob (2)");
    assert_eq!(m.create_player(None, Some("Player4".to_string())).name, "Player4");
    // the default name of the next player, whose ID is 4, is taken by now
    assert_eq!(m.create_player(None, None).name, "Player4 (1)");
    let names: Vec<String> = m.get_view().players.iter().map(|p| p.name.clone()).collect();
    assert_eq!(names, vec!["Bob", "Bob (1)", "Bob (2)", "Player4", "Player4 (1)"]);
}

#[test]
fn a_connection_belongs_to_one_player_at_a_time() {
    let mut m = PlayerManager::new();
    let a = addr(1000);
    let id0 = m.create_player(Some(a), None).id;
    assert_eq!(m.updates, vec![PlayerManagerUpdate::PlayerLogIn(id0, a)]);
    assert_eq!(m.get_connected_player(&a), Some(id0));
    assert_eq!(m.is_connected(&id0), Some(a));
    // a second player on the same connection takes it over
    let id1 = m.create_player(Some(a), None).id;
    assert_eq!(
        m.updates,
        vec![
            PlayerManagerUpdate::PlayerLogIn(id0, a),
            PlayerManagerUpdate::PlayerLogOut(id0, a),
            PlayerManagerUpdate::PlayerLogIn(id1, a),
        ]
    );
    assert_eq!(m.get_connected_player(&a), Some(id1));
    assert_eq!(m.get_player_connection(&id0), None);
    assert_eq!(m.get_player_connection(&id1), Some(a));
}

#[test]
fn mapping_an_existing_player() {
    let mut m = PlayerManager::new();
    let a = addr(1);
    let b = addr(2);
    let id0 = m.create_player(None, Some("ann".to_string())).id;
    let id1 = m.create_player(None, Some("ben".to_string())).id;
    assert_eq!(m.map_existing_player(Some(&a), Some(&id0)).map(|p| p.name.clone()), Some("ann".to_string()));
    assert_eq!(m.updates, vec![PlayerManagerUpdate::PlayerLogIn(id0, a)]);
    // the same pair again changes nothing
    assert!(m.map_existing_player(Some(&a), Some(&id0)).is_some());
    assert_eq!(m.updates.len(), 1);
    // the player moves to another connection
    assert!(m.map_existing_player(Some(&b), Some(&id0)).is_some());
    assert_eq!(m.updates[1], PlayerManagerUpdate::PlayerLogOut(id0, a));
    assert_eq!(m.updates[2], PlayerManagerUpdate::PlayerLogIn(id0, b));
    // another player takes that connection
    assert!(m.map_existing_player(Some(&b), Some(&id1)).is_some());
    assert_eq!(m.updates[3], PlayerManagerUpdate::PlayerLogOut(id0, b));
    assert_eq!(m.updates[4], PlayerManagerUpdate::PlayerLogIn(id1, b));
    // an unknown player: the connection's player is still logged out
    assert!(m.map_existing_player(Some(&b), Some(&PlayerID(77))).is_none());
    assert_eq!(m.updates[5], PlayerManagerUpdate::PlayerLogOut(id1, b));
    assert_eq!(m.updates.len(), 6);
    assert_eq!(m.get_connected_player(&b), None);
}

#[test]
fn logging_out_by_connection_or_by_player() {
    let mut m = PlayerManager::new();
    let a = addr(5);
    let id0 = m.create_player(Some(a), None).id;
    assert!(m.map_existing_player(Some(&a), None).is_none());
    assert_eq!(m.updates.last(), Some(&PlayerManagerUpdate::PlayerLogOut(id0, a)));
    assert_eq!(m.is_connected(&id0), None);
    // logging out a player that is not logged in hands nothing back
    assert!(m.map_existing_player(None, Some(&id0)).is_none());
    assert_eq!(m.updates.len(), 2);
    assert!(m.map_existing_player(Some(&a), Some(&id0)).is_some());
    assert_eq!(m.map_existing_player(None, Some(&id0)).map(|p| p.id), Some(id0));
    assert_eq!(m.updates.last(), Some(&PlayerManagerUpdate::PlayerLogOut(id0, a)));
    assert!(m.map_existing_player(None, None).is_none());
}

#[test]
fn players_are_found_by_id_and_name() {
    let mut m = PlayerManager::default();
    let id0 = m.create_player(None, Some("ann".to_string())).id;
    m.create_player(None, Some("ben".to_string()));
    assert_eq!(m.get_player(&id0).map(|p| p.name.clone()), Some("ann".to_string()));
    assert!(m.get_player(&PlayerID(9)).is_none());
    assert_eq!(m.get_player_with_name("ben").map(|p| p.id), Some(PlayerID(1)));
    assert!(m.get_player_with_name("carl").is_none());
    m.get_player_with_name_mut("ben").unwrap().name = "bert".to_string();
    assert!(m.get_player_with_name("ben").is_none());
    assert_eq!(m.get_player_mut(&PlayerID(1)).map(|p| p.name.clone()), Some("bert".to_string()));
    assert!(m.get_player_mut(&PlayerID(5)).is_none());
}

#[test]
fn subscriptions_are_kept_per_player() {
    let mut m = PlayerManager::new();
    let id0 = m.create_player(None, None).id;
    assert_eq!(m.get_player_subscriptions(&id0), Some(vec![]));
    m.get_player_subscriptions_mut(&id0).unwrap().push(Subscription::Chat);
    assert_eq!(m.get_player_subscriptions(&id0), Some(vec![Subscription::Chat]));
    assert!(m.get_player_subscriptions(&PlayerID(3)).is_none());
    assert!(m.get_player_subscriptions_mut(&PlayerID(3)).is_none());
}

#[test]
fn player_data_looks_up_the_first_match() {
    let data = PlayerData {
        players: vec![
            Player { id: PlayerID(4), name: "x".to_string() },
            Player { id: PlayerID(2), name: "y".to_string() },
            Player { id: PlayerID(4), name: "y".to_string() },
        ],
    };
    assert_eq!(data.get_player(&PlayerID(4)).map(|p| p.name.clone()), Some("x".to_string()));
    assert_eq!(data.get_player_with_name("y").map(|p| p.id), Some(PlayerID(2)));
    assert!(data.get_player(&PlayerID(1)).is_none());
    assert_eq!(data.all_player_ids(), vec![PlayerID(4), PlayerID(2), PlayerID(4)]);
}

#[test]
fn taking_a_held_connection_logs_out_both_sides_first() {
    let mut m = PlayerManager::new();
    let a = addr(1);
    let b = addr(2);
    let id0 = m.create_player(Some(a), Some("ann".to_string())).id;
    let id1 = m.create_player(Some(b), Some("ben".to_string())).id;
    assert_eq!(m.updates.len(), 2);
    assert!(m.map_existing_player(Some(&a), Some(&id1)).is_some());
    assert_eq!(
        &m.updates[2..],
        &[
            PlayerManagerUpdate::PlayerLogOut(id0, a),
            PlayerManagerUpdate::PlayerLogOut(id1, b),
            PlayerManagerUpdate::PlayerLogIn(id1, a),
        ]
    );
    assert_eq!(m.get_player_connection(&id1), Some(a));
    assert_eq!(m.get_player_connection(&id0), None);
    assert_eq!(m.get_connected_player(&a), Some(id1));
    assert_eq!(m.get_connected_player(&b), None);
}
