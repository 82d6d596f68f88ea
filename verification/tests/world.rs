use std::collections::{HashMap, HashSet};

use rustgl::model::world::character::{CharacterID, CharacterIDGenerator, CharacterIDRange};
use rustgl::model::world::client::{add_tick_command, insert_by_ordering};
use rustgl::model::world::component::{
    Component, ComponentID, ComponentStorage, ComponentStorageContainer, ComponentUpdate,
};
use rustgl::model::world::reduce_world_updates;
use rustgl::model::world::commands::Priority;
use rustgl::model::world::system::base::{BaseChange, BaseReduction, BaseSystem, CharacterFlip};
use rustgl::model::world::system::caster_minion::CasterMinion;
use rustgl::model::world::system::projectile::{Projectile, ProjectileUpdate};
use rustgl::model::world::system::status::{
    idle_status, Status, StatusComponent, StatusID, StatusPrio, StatusSystem, StatusUpdate,
};
use rustgl::model::world::system::ability::{
    ability_decide, reduce_ability_changes, AbilityChange, ExecutionDecision,
};
use rustgl::model::world::system::auto_attack::{
    auto_attack_decide, select_auto_attack_command, AutoAttackSystem, AttackExecution, AutoAttackCommand,
    AutoAttackFacts, AutoAttackTargeting, CharacterCommandEntry,
};
use rustgl::model::world::{world_tick, TickOutcome, Update, WorldBook, WorldError, WorldUpdate};

#[test]
fn character_ids_are_handed_out_once() {
    let mut g = CharacterIDGenerator::new();
    assert_eq!(g.generate(), CharacterID(0));
    let r = g.generate_range(3);
    assert_eq!(r, CharacterIDRange(1, 4));
    assert_eq!(g.generate(), CharacterID(4));
    assert_eq!(CharacterID(7).get_num(), 7);
}

#[test]
fn ranges_give_out_their_ids_in_order() {
    let mut r = CharacterIDRange(5, 8);
    let (first, rest) = r.split_id();
    assert_eq!(first, Some(CharacterID(5)));
    assert_eq!(rest, CharacterIDRange(6, 8));
    assert_eq!(r, CharacterIDRange(5, 8));
    assert_eq!(r.next_id(), Some(CharacterID(5)));
    let taken = r.take_range(10);
    assert_eq!(taken, CharacterIDRange(6, 8));
    assert!(r.is_empty());
    assert_eq!(r.next_id(), None);
    let mut big = CharacterIDRange(0, 10);
    assert_eq!(big.take_range(4), CharacterIDRange(0, 4));
    assert_eq!(big, CharacterIDRange(4, 10));
    assert!(!big.is_empty());
}

#[test]
fn world_updates_fold_per_run_of_one_character() {
    let a = CharacterID(1);
    let b = CharacterID(2);
    let r = reduce_world_updates(vec![
        WorldUpdate::RemoveCharacterID(a),
        WorldUpdate::NewCharacterID(a),
        WorldUpdate::NewCharacterID(b),
        WorldUpdate::NewCharacterID(b),
        WorldUpdate::RemoveCharacterID(b),
        WorldUpdate::RemoveCharacterID(a),
    ])
    .unwrap();
    assert_eq!(r.len(), 3);
    assert!(matches!(r[0], Ok(WorldUpdate::NewCharacterID(CharacterID(1)))));
    assert!(matches!(r[1], Err(WorldError::SimultaneousAddRemoveCharacterID(CharacterID(2)))));
    assert!(matches!(r[2], Ok(WorldUpdate::RemoveCharacterID(CharacterID(1)))));
    assert!(reduce_world_updates(vec![]).unwrap().is_empty());
}

#[test]
fn flips_combine_to_left_only_when_both_are_left() {
    assert_eq!(CharacterFlip::Left.combine(&CharacterFlip::Left), CharacterFlip::Left);
    assert_eq!(CharacterFlip::Left.combine(&CharacterFlip::Right), CharacterFlip::Right);
    assert_eq!(CharacterFlip::Right.combine(&CharacterFlip::Left), CharacterFlip::Right);
    assert_eq!(CharacterFlip::Right.combine(&CharacterFlip::Right), CharacterFlip::Right);
}

#[test]
fn base_changes_keep_the_first_new_component() {
    let cid = CharacterID(3);
    let sys = BaseSystem;
    let mv = BaseChange::Move(Priority::Walk);
    let new = BaseChange::New;
    assert!(matches!(sys.reduce_changes(&cid, true, &vec![mv, new, mv, new]), Ok(BaseReduction::New(1))));
    assert!(matches!(sys.reduce_changes(&cid, false, &vec![mv, new]), Ok(BaseReduction::New(1))));
    assert!(matches!(
        sys.reduce_changes(&cid, false, &vec![mv]),
        Err(WorldError::InvalidReduceMapping(CharacterID(3), ComponentID::AutoAttack))
    ));
    assert!(matches!(
        sys.reduce_changes(&cid, false, &vec![new, new]),
        Err(WorldError::MultipleUpdateOverrides(CharacterID(3), ComponentID::AutoAttack))
    ));
}

#[test]
fn base_updates_keep_the_highest_priority() {
    let sys = BaseSystem;
    let cid = CharacterID(1);
    let changes = vec![
        BaseChange::Flip(Priority::Walk, CharacterFlip::Left),
        BaseChange::Move(Priority::Walk),
        BaseChange::Flip(Priority::Cast, CharacterFlip::Left),
        BaseChange::Move(Priority::Cast),
        BaseChange::Flip(Priority::Cast, CharacterFlip::Right),
        BaseChange::Move(Priority::Walk),
        BaseChange::Move(Priority::Cast),
    ];
    match sys.reduce_changes(&cid, true, &changes) {
        Ok(BaseReduction::Updates { flip, moves }) => {
            assert_eq!(flip, Some((Priority::Cast, CharacterFlip::Right)));
            assert_eq!(moves, Some((Priority::Cast, vec![3, 6])));
        },
        _ => panic!(),
    }
    let only_left = vec![BaseChange::Flip(Priority::Stun, CharacterFlip::Left), BaseChange::Flip(Priority::Walk, CharacterFlip::Right)];
    match sys.reduce_changes(&cid, true, &only_left) {
        Ok(BaseReduction::Updates { flip, moves }) => {
            assert_eq!(flip, Some((Priority::Stun, CharacterFlip::Left)));
            assert_eq!(moves, None);
        },
        _ => panic!(),
    }
    match sys.reduce_changes(&cid, true, &vec![]) {
        Ok(BaseReduction::Updates { flip, moves }) => assert!(flip.is_none() && moves.is_none()),
        _ => panic!(),
    }
}

fn walk(prio: StatusPrio) -> Status {
    Status { prio, id: StatusID::Walk }
}

#[test]
fn status_changes_pick_the_strongest_request() {
    let sys = StatusSystem;
    let cid = CharacterID(9);
    let cur = idle_status();
    let r = sys.reduce_changes(&cid, true, Some(cur), &vec![StatusUpdate::Try(StatusPrio::Ability, walk(StatusPrio::Ability))]);
    assert_eq!(r.unwrap(), vec![StatusUpdate::New(walk(StatusPrio::Ability))]);
    // a cancelled request drops out
    let r = sys.reduce_changes(
        &cid,
        true,
        Some(cur),
        &vec![StatusUpdate::Try(StatusPrio::Ability, walk(StatusPrio::Ability)), StatusUpdate::Cancel(StatusID::Walk)],
    );
    assert_eq!(r.unwrap(), vec![StatusUpdate::New(idle_status())]);
    // the current status holds on with its priority, changed where asked
    let attacking = Status { prio: StatusPrio::AbilityOverride, id: StatusID::AutoAttack };
    let r = sys.reduce_changes(&cid, true, Some(attacking), &vec![StatusUpdate::Try(StatusPrio::Ability, walk(StatusPrio::Ability))]);
    assert_eq!(r.unwrap(), vec![StatusUpdate::New(attacking)]);
    let r = sys.reduce_changes(
        &cid,
        true,
        Some(attacking),
        &vec![
            StatusUpdate::Try(StatusPrio::Ability, walk(StatusPrio::Ability)),
            StatusUpdate::ChangePrio(StatusID::AutoAttack, StatusPrio::Lowest),
        ],
    );
    assert_eq!(r.unwrap(), vec![StatusUpdate::New(walk(StatusPrio::Ability))]);
}

#[test]
fn equal_requests_go_to_the_first_status_and_the_last_request_of_it() {
    let sys = StatusSystem;
    let cid = CharacterID(9);
    let attack = Status { prio: StatusPrio::Ability, id: StatusID::AutoAttack };
    let r = sys.reduce_changes(
        &cid,
        true,
        Some(idle_status()),
        &vec![
            StatusUpdate::Try(StatusPrio::Ability, attack),
            StatusUpdate::Try(StatusPrio::Ability, walk(StatusPrio::Lowest)),
            StatusUpdate::Try(StatusPrio::Ability, walk(StatusPrio::Ability)),
        ],
    );
    assert_eq!(r.unwrap(), vec![StatusUpdate::New(walk(StatusPrio::Ability))]);
    // a harder push wins over the order of statuses
    let r = sys.reduce_changes(
        &cid,
        true,
        Some(idle_status()),
        &vec![
            StatusUpdate::Try(StatusPrio::Ability, walk(StatusPrio::Ability)),
            StatusUpdate::Try(StatusPrio::AbilityOverride, attack),
        ],
    );
    assert_eq!(r.unwrap(), vec![StatusUpdate::New(attack)]);
}

#[test]
fn status_changes_of_characters_not_in_the_world() {
    let sys = StatusSystem;
    let cid = CharacterID(9);
    let s = walk(StatusPrio::Stunned);
    assert_eq!(sys.reduce_changes(&cid, false, None, &vec![StatusUpdate::New(s)]).unwrap(), vec![StatusUpdate::New(s)]);
    assert!(matches!(
        sys.reduce_changes(&cid, false, None, &vec![]),
        Err(WorldError::InvalidReduceMapping(CharacterID(9), ComponentID::Status))
    ));
    assert!(matches!(
        sys.reduce_changes(&cid, false, None, &vec![StatusUpdate::New(s), StatusUpdate::New(s)]),
        Err(WorldError::MultipleUpdateOverrides(CharacterID(9), ComponentID::Status))
    ));
    assert!(matches!(
        sys.reduce_changes(&cid, true, None, &vec![]),
        Err(WorldError::MissingCharacterComponent(CharacterID(9), ComponentID::Status))
    ));
}

#[test]
fn status_component_takes_new_statuses_only() {
    let c = StatusComponent::default();
    assert_eq!(c.current, idle_status());
    let s = walk(StatusPrio::Ability);
    assert_eq!(c.update(&StatusUpdate::New(s)).current, s);
    assert_eq!(c.update(&StatusUpdate::Cancel(StatusID::Idle)).current, idle_status());
    assert_eq!(StatusPrio::Stunned.get_prio(), 5);
    assert_eq!(StatusPrio::Impossible.get_prio(), -1);
}

#[test]
fn commands_are_kept_in_order_of_their_numbers() {
    let mut v: Vec<(u32, &str)> = vec![(1, "a"), (3, "b"), (3, "c"), (5, "d")];
    insert_by_ordering(&mut v, 3, "x");
    assert_eq!(v, vec![(1, "a"), (3, "b"), (3, "c"), (3, "x"), (5, "d")]);
    insert_by_ordering(&mut v, 0, "y");
    assert_eq!(v[0], (0, "y"));
    insert_by_ordering(&mut v, 9, "z");
    assert_eq!(v.last(), Some(&(9, "z")));
}

#[test]
fn tick_commands_are_filed_and_counted() {
    let mut commands: HashMap<u32, Vec<(u32, char)>> = HashMap::new();
    let mut counts: HashMap<u32, HashMap<u32, u32>> = HashMap::new();
    add_tick_command(&mut commands, &mut counts, 10, 12, 2, 'a');
    add_tick_command(&mut commands, &mut counts, 10, 12, 1, 'b');
    add_tick_command(&mut commands, &mut counts, 10, 15, 0, 'c');
    add_tick_command(&mut commands, &mut counts, 10, 12, 2, 'd');
    assert_eq!(commands[&12], vec![(1, 'b'), (2, 'a'), (2, 'd')]);
    assert_eq!(commands[&15], vec![(0, 'c')]);
    assert_eq!(counts[&10][&2], 3);
    assert_eq!(counts[&10][&5], 1);
    assert_eq!(counts.len(), 1);
}

fn status_update(cid: u64, data: StatusUpdate) -> ComponentUpdate<StatusUpdate> {
    ComponentUpdate { cid: CharacterID(cid), data }
}

#[test]
fn component_updates_fold_per_character() {
    let mut storage: ComponentStorage<StatusComponent> = ComponentStorage::new();
    let w = walk(StatusPrio::Ability);
    let s = Status { prio: StatusPrio::Stunned, id: StatusID::AutoAttack };
    assert!(storage
        .update(&[
            status_update(1, StatusUpdate::Cancel(StatusID::Walk)),
            status_update(2, StatusUpdate::New(w)),
            status_update(2, StatusUpdate::New(s)),
        ])
        .is_ok());
    // a character without the component starts from the initial one
    assert_eq!(storage.get_component(&CharacterID(1)).unwrap().current, idle_status());
    assert_eq!(storage.get_component(&CharacterID(2)).unwrap().current, s);
    assert!(matches!(
        storage.get_component(&CharacterID(3)),
        Err(WorldError::MissingCharacterComponent(CharacterID(3), ComponentID::Status))
    ));
    let mut ids = storage.get_characters();
    ids.sort_by_key(|c| c.get_num());
    assert_eq!(ids, vec![CharacterID(1), CharacterID(2)]);
    assert!(storage.has_character(&CharacterID(2)));
    storage.erase(&CharacterID(2));
    assert!(!storage.has_character(&CharacterID(2)));
    assert_eq!(storage.get_storage().len(), 1);
    storage.get_component_mut(&CharacterID(1)).unwrap().current = w;
    assert_eq!(storage.get_component(&CharacterID(1)).unwrap().current, w);
    assert!(storage.get_component_mut(&CharacterID(8)).is_err());
    storage.get_storage_mut().clear();
    assert!(storage.get_characters().is_empty());
}

#[test]
fn updates_in_two_batches_equal_one_batch() {
    let w = walk(StatusPrio::Ability);
    let s = Status { prio: StatusPrio::Stunned, id: StatusID::AutoAttack };
    let all = vec![status_update(4, StatusUpdate::New(w)), status_update(4, StatusUpdate::New(s))];
    let mut once: ComponentStorage<StatusComponent> = ComponentStorage::new();
    once.update(&all).unwrap();
    let mut twice: ComponentStorage<StatusComponent> = ComponentStorage::new();
    twice.update(&all[0..1]).unwrap();
    twice.update(&all[1..2]).unwrap();
    assert_eq!(once.get_component(&CharacterID(4)).unwrap().current, twice.get_component(&CharacterID(4)).unwrap().current);
    assert_eq!(StatusComponent::initial().current, idle_status());
}

#[test]
fn world_updates_add_and_remove_characters() {
    let mut characters: HashSet<u64> = HashSet::new();
    assert!(WorldUpdate::NewCharacterID(CharacterID(3)).apply_update(&mut characters).is_ok());
    assert!(WorldUpdate::NewCharacterID(CharacterID(4)).apply_update(&mut characters).is_ok());
    assert!(WorldUpdate::RemoveCharacterID(CharacterID(3)).apply_update(&mut characters).is_ok());
    assert!(WorldUpdate::RemoveCharacterID(CharacterID(9)).apply_update(&mut characters).is_ok());
    assert_eq!(characters, HashSet::from([4]));
}

#[test]
fn action_priorities_and_components() {
    let info = rustgl::model::world::system::action_queue::ActionQueueInfo::init();
    let move_action = rustgl::model::world::system::action_queue::Action::Move;
    let attack = rustgl::model::world::system::action_queue::Action::AutoAttack;
    assert_eq!(info.priority.len(), 2);
    assert_eq!(info.priority.get(&move_action.key()), Some(&0));
    assert_eq!(info.priority.get(&attack.key()), Some(&1));
    assert_eq!(info.component.len(), 2);
    assert_eq!(info.component.get(&move_action.key()), Some(&ComponentID::Movement));
    assert_eq!(info.component.get(&attack.key()), Some(&ComponentID::AutoAttack));
    assert_eq!(rustgl::model::world::system::action_queue::Action::Idle.key(), 0);
}

#[test]
fn projectile_and_marker_components() {
    let p = Projectile { origin: CharacterID(1), target: CharacterID(2) };
    let mut storage: ComponentStorage<Projectile> = ComponentStorage::new();
    storage.update(&[ComponentUpdate { cid: CharacterID(7), data: ProjectileUpdate(p) }]).unwrap();
    assert_eq!(*storage.get_component(&CharacterID(7)).unwrap(), p);
    assert_eq!(Projectile::initial().origin, CharacterID(u64::MAX));
    let mut minions: ComponentStorage<CasterMinion> = ComponentStorage::new();
    minions.update(&[ComponentUpdate { cid: CharacterID(3), data: () }]).unwrap();
    assert!(minions.has_character(&CharacterID(3)));
    assert_eq!(CasterMinion::initial().update(&()), CasterMinion {});
    assert!(matches!(
        minions.get_component(&CharacterID(4)),
        Err(WorldError::MissingCharacterComponent(CharacterID(4), ComponentID::CasterMinion))
    ));
}

#[test]
fn an_ability_starts_on_a_command_and_asks_for_its_status() {
    let idle = idle_status();
    let (exec, st) = ability_decide(false, false, false, true, false, idle, StatusID::AutoAttack);
    assert_eq!(exec, ExecutionDecision::Start);
    assert_eq!(
        st,
        Some(StatusUpdate::Try(
            StatusPrio::AbilityOverride,
            Status { id: StatusID::AutoAttack, prio: StatusPrio::Ability }
        ))
    );
    let (exec, st) = ability_decide(false, false, true, true, false, idle, StatusID::AutoAttack);
    assert_eq!(exec, ExecutionDecision::Keep);
    assert!(st.is_some());
}

#[test]
fn an_ability_that_lost_its_status_stops() {
    let idle = idle_status();
    let (exec, st) = ability_decide(true, false, false, false, true, idle, StatusID::AutoAttack);
    assert_eq!(exec, ExecutionDecision::Stop);
    assert_eq!(st, None);
    let mine = Status { id: StatusID::AutoAttack, prio: StatusPrio::Ability };
    let (exec, st) = ability_decide(true, true, false, false, true, mine, StatusID::AutoAttack);
    assert_eq!(exec, ExecutionDecision::Keep);
    assert_eq!(st, Some(StatusUpdate::ChangePrio(StatusID::AutoAttack, StatusPrio::AbilityPrioritized)));
    let (exec, st) = ability_decide(false, false, false, false, true, mine, StatusID::AutoAttack);
    assert_eq!(exec, ExecutionDecision::Stop);
    assert_eq!(st, Some(StatusUpdate::Cancel(StatusID::AutoAttack)));
}

fn facts() -> AutoAttackFacts {
    AutoAttackFacts {
        executing: false,
        casting: false,
        is_status: false,
        status_in_queue: None,
        targeting: None,
        on_cooldown: false,
        command: None,
        arrived: false,
    }
}

#[test]
fn an_arrived_attacker_fires_with_its_next_projectile_id() {
    let mut f = facts();
    f.is_status = true;
    f.arrived = true;
    f.status_in_queue = Some(StatusPrio::Ability);
    f.targeting = Some(AutoAttackTargeting { target: CharacterID(9), ids: CharacterIDRange(3, 5) });
    let d = auto_attack_decide(f).unwrap();
    assert!(matches!(
        d.execution,
        AttackExecution::Start { projectile_gen_id: CharacterID(3), target: CharacterID(9) }
    ));
    // with its status waiting, a targeting character lets go of the target
    assert!(matches!(d.targeting, Some(None)));
    assert_eq!(d.status, Some(StatusUpdate::ChangePrio(StatusID::AutoAttack, StatusPrio::Ability)));
}

#[test]
fn an_attacker_out_of_ids_gives_up_its_target() {
    let mut f = facts();
    f.is_status = true;
    f.arrived = true;
    f.status_in_queue = Some(StatusPrio::AbilityPrioritized);
    f.targeting = Some(AutoAttackTargeting { target: CharacterID(9), ids: CharacterIDRange(5, 5) });
    let d = auto_attack_decide(f).unwrap();
    assert!(matches!(d.execution, AttackExecution::Keep));
    assert!(matches!(d.targeting, Some(None)));
    assert_eq!(d.status, None);
}

#[test]
fn an_attack_command_sets_the_target_and_asks_for_the_status() {
    let mut f = facts();
    f.command = Some(AutoAttackCommand { target: CharacterID(4), projectile_gen_ids: CharacterIDRange(10, 20) });
    let d = auto_attack_decide(f).unwrap();
    assert!(matches!(d.execution, AttackExecution::Keep));
    match d.targeting {
        Some(Some(t)) => {
            assert_eq!(t.target, CharacterID(4));
            assert_eq!(t.ids, CharacterIDRange(10, 20));
        },
        _ => panic!("the command should set the target"),
    }
    assert_eq!(
        d.status,
        Some(StatusUpdate::Try(
            StatusPrio::AbilityOverride,
            Status { id: StatusID::AutoAttack, prio: StatusPrio::AbilityOverride }
        ))
    );
}

#[test]
fn a_casting_attack_without_its_status_waiting_is_a_logic_error() {
    let mut f = facts();
    f.executing = true;
    f.casting = true;
    f.is_status = true;
    assert!(matches!(auto_attack_decide(f), Err(WorldError::BadLogic)));
    let mut g = facts();
    g.executing = true;
    let d = auto_attack_decide(g).unwrap();
    assert!(matches!(d.execution, AttackExecution::Stop));
    assert_eq!(d.status, Some(StatusUpdate::Cancel(StatusID::AutoAttack)));
}

#[test]
fn a_world_tick_sorts_the_results_and_applies_the_character_changes() {
    let mut characters = HashSet::new();
    characters.insert(1u64);
    let mut book = WorldBook { tick: 4, characters, errors: vec![] };
    let results: Vec<Result<Update<u32>, WorldError>> = vec![
        Ok(Update::Comp(10)),
        Err(WorldError::BadLogic),
        Ok(Update::World(WorldUpdate::NewCharacterID(CharacterID(2)))),
        Ok(Update::Comp(11)),
        Ok(Update::World(WorldUpdate::RemoveCharacterID(CharacterID(1)))),
        Ok(Update::World(WorldUpdate::NewCharacterID(CharacterID(3)))),
        Ok(Update::World(WorldUpdate::RemoveCharacterID(CharacterID(3)))),
    ];
    let out: TickOutcome<u32> = world_tick(&mut book, results);
    assert_eq!(out.components, vec![10, 11]);
    assert_eq!(book.tick, 5);
    let mut expected = HashSet::new();
    expected.insert(2u64);
    assert_eq!(book.characters, expected);
    // the errors are handed back; the world's own list stays as it was
    assert!(book.errors.is_empty());
    assert_eq!(out.errors.len(), 2);
    assert!(matches!(out.errors[0], WorldError::BadLogic));
    assert!(matches!(out.errors[1], WorldError::SimultaneousAddRemoveCharacterID(CharacterID(3))));
}

#[test]
fn the_ability_change_with_an_execution_and_the_latest_cooldown_wins() {
    let a = AbilityChange { executing: false, cooldown_timeout: 5, status_id: StatusID::Idle };
    let b = AbilityChange { executing: true, cooldown_timeout: 3, status_id: StatusID::Walk };
    let c = AbilityChange { executing: true, cooldown_timeout: 7, status_id: StatusID::Idle };
    let d = AbilityChange { executing: true, cooldown_timeout: 7, status_id: StatusID::AutoAttack };
    assert_eq!(reduce_ability_changes(&[a, b, c, d]), Some(d));
    assert_eq!(reduce_ability_changes(&[d, c]), Some(d));
    assert_eq!(reduce_ability_changes(&[b, a]), Some(b));
    assert_eq!(reduce_ability_changes(&[a]), Some(a));
    assert_eq!(reduce_ability_changes(&[]), None);
}

fn attack_entry(cid: u64, component: ComponentID, target: u64, ids: (u64, u64)) -> CharacterCommandEntry {
    CharacterCommandEntry {
        cid: CharacterID(cid),
        component,
        command: Some(AutoAttackCommand { target: CharacterID(target), projectile_gen_ids: CharacterIDRange(ids.0, ids.1) }),
    }
}

#[test]
fn the_attack_command_with_the_largest_ids_counts() {
    let me = CharacterID(1);
    let commands = vec![
        attack_entry(1, ComponentID::AutoAttack, 5, (10, 20)),
        attack_entry(2, ComponentID::AutoAttack, 6, (90, 99)),
        attack_entry(1, ComponentID::Movement, 6, (90, 99)),
        CharacterCommandEntry { cid: me, component: ComponentID::AutoAttack, command: None },
        attack_entry(1, ComponentID::AutoAttack, 7, (30, 40)),
        attack_entry(1, ComponentID::AutoAttack, 3, (30, 40)),
        attack_entry(1, ComponentID::AutoAttack, 8, (50, 60)),
    ];
    // the target 8 is already attacked, so of the rest (30, 40) wins, target 7 before 3
    let c = select_auto_attack_command(&commands, me, Some(CharacterID(8))).unwrap();
    assert_eq!(c.target, CharacterID(7));
    assert_eq!(c.projectile_gen_ids, CharacterIDRange(30, 40));
    let c = select_auto_attack_command(&commands, me, None).unwrap();
    assert_eq!(c.target, CharacterID(8));
    assert!(select_auto_attack_command(&commands, CharacterID(3), None).is_none());
    assert!(select_auto_attack_command(&commands[0..1], me, Some(CharacterID(5))).is_none());
}

#[test]
fn an_attack_command_in_the_tick_sets_the_target() {
    let commands = vec![
        attack_entry(1, ComponentID::AutoAttack, 5, (10, 20)),
        attack_entry(1, ComponentID::AutoAttack, 6, (11, 12)),
    ];
    let d = AutoAttackSystem.update_character(facts(), &commands, CharacterID(1)).unwrap();
    match d.targeting {
        Some(Some(t)) => {
            assert_eq!(t.target, CharacterID(6));
            assert_eq!(t.ids, CharacterIDRange(11, 12));
        },
        _ => panic!("the command should set the target"),
    }
    assert_eq!(
        d.status,
        Some(StatusUpdate::Try(
            StatusPrio::AbilityOverride,
            Status { id: StatusID::AutoAttack, prio: StatusPrio::AbilityOverride }
        ))
    );
}
