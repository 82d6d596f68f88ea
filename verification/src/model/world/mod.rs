use std::collections::HashSet;

use vstd::prelude::*;

use self::character::{CharacterID, CharacterType};
use self::component::ComponentID;
use self::grouping::{group_runs, runs_of, runs_view};
use self::system::auto_attack::AutoAttackPhase;
use super::commands::CommandID;

pub mod character;
pub mod client;
pub mod commands;
pub mod component;
pub mod grouping;
pub mod names;
pub mod player;
pub mod system;

verus! {

/// What can go wrong while the world is simulated.
#[derive(Debug, Clone)]
pub enum WorldError {
    MissingCharacter(CharacterID, String),
    MissingCharacterComponent(CharacterID, ComponentID),
    MissingCharacterComponentSystem(CharacterID, ComponentID),
    MissingCharacterCreator(CharacterType),
    InvalidCommandReplacement(CharacterID, CommandID),
    InvalidCommand,
    InvalidCommandMapping,
    OutOfRange(CharacterID),
    UnexpectedComponentState(CharacterID, ComponentID, String),
    MissingCharacterInfoComponent(CharacterType, ComponentID),
    InvalidComponentInfo(CharacterType, ComponentID),
    InvalidAttackPhase(CharacterID, AutoAttackPhase),
    NoopCommand,
    IllegalInterrupt(CharacterID),
    OnCooldown(CharacterID, ComponentID),
    DesyncError(CharacterID, ComponentID, String),
    Info(String),
    BadLogic,
    SimultaneousAddRemoveCharacterID(CharacterID),
    InvalidReduceMapping(CharacterID, ComponentID),
    MultipleNewCommands(CharacterID, ComponentID),
    MultipleUpdateOverrides(CharacterID, ComponentID),
}


/// How running a command went: refused, accepted but failed, or done.
#[derive(Debug)]
pub enum CommandRunResult {
    Invalid(WorldError),
    ValidError(WorldError),
    Valid,
}

/// A change to the set of characters in the world.
#[derive(Clone, Copy, Debug, PartialEq, Eq, Structural)]
pub enum WorldUpdate {
    NewCharacterID(CharacterID),
    RemoveCharacterID(CharacterID),
}

impl WorldUpdate {
    /// Adds the character to, or removes it from, the characters in the
    /// world, held by their numbers.
    pub fn apply_update(&self, characters: &mut HashSet<u64>) -> (r: Result<(), WorldError>)
        ensures
            r is Ok,
            final(characters)@ == match *self {
                WorldUpdate::NewCharacterID(id) => old(characters)@.insert(id.0),
                WorldUpdate::RemoveCharacterID(id) => old(characters)@.remove(id.0),
            },
    {
        broadcast use vstd::std_specs::hash::group_hash_axioms;

        match *self {
            WorldUpdate::NewCharacterID(id) => {
                characters.insert(id.0);
            },
            WorldUpdate::RemoveCharacterID(id) => {
                characters.remove(&id.0);
            },
        }
        Ok(())
    }
}

/// The character a world update is about.
pub open spec fn update_character(u: WorldUpdate) -> CharacterID {
    match u {
        WorldUpdate::NewCharacterID(id) => id,
        WorldUpdate::RemoveCharacterID(id) => id,
    }
}

/// The updates keyed by the number of their character.
pub open spec fn keyed_updates(us: Seq<WorldUpdate>) -> Seq<(u64, WorldUpdate)> {
    us.map_values(|u: WorldUpdate| (update_character(u).0, u))
}

/// A run holds an addition.
pub open spec fn run_adds(run: Seq<WorldUpdate>) -> bool {
    exists|i: int| 0 <= i < run.len() && run[i] is NewCharacterID
}

/// A run holds a removal after its first addition.
pub open spec fn run_removes_after_add(run: Seq<WorldUpdate>) -> bool {
    exists|i: int, j: int| 0 <= i < j < run.len() && run[i] is NewCharacterID && run[j] is RemoveCharacterID
}

/// What one run of updates about the same character comes to: an addition
/// that a later removal contradicts is an error; otherwise an addition wins;
/// otherwise the character is removed.
pub open spec fn run_outcome(key: u64, run: Seq<WorldUpdate>) -> Result<WorldUpdate, WorldError> {
    if run_adds(run) && run_removes_after_add(run) {
        Err(WorldError::SimultaneousAddRemoveCharacterID(CharacterID(key)))
    } else if run_adds(run) {
        Ok(WorldUpdate::NewCharacterID(CharacterID(key)))
    } else {
        Ok(WorldUpdate::RemoveCharacterID(CharacterID(key)))
    }
}

/// Folds each run of consecutive updates about the same character into one
/// update, or an error where the run both adds the character and, after
/// that, removes it.
pub fn reduce_world_updates(update: Vec<WorldUpdate>) -> (r: Result<Vec<Result<WorldUpdate, WorldError>>, WorldError>)
    ensures
        r is Ok,
        r->Ok_0@.len() == runs_of(keyed_updates(update@)).len(),
        forall|i: int|
            0 <= i < r->Ok_0@.len() ==> #[trigger] r->Ok_0@[i] == run_outcome(
                runs_of(keyed_updates(update@))[i].0,
                runs_of(keyed_updates(update@))[i].1,
            ),
{
    let mut keyed: Vec<(u64, WorldUpdate)> = Vec::new();
    let mut i: usize = 0;
    while i < update.len()
        invariant
            i <= update@.len(),
            keyed@ == keyed_updates(update@.take(i as int)),
        decreases update@.len() - i,
    {
        let u = update[i];
        let id = match u {
            WorldUpdate::NewCharacterID(id) => id,
            WorldUpdate::RemoveCharacterID(id) => id,
        };
        keyed.push((id.0, u));
        assert(keyed@ =~= keyed_updates(update@.take(i + 1)));
        i = i + 1;
    }
    assert(update@.take(i as int) =~= update@);
    let ghost items = keyed@;
    let runs = group_runs(keyed);
    let mut out: Vec<Result<WorldUpdate, WorldError>> = Vec::new();
    let mut j: usize = 0;
    while j < runs.len()
        invariant
            j <= runs@.len(),
            runs_view(runs@) == runs_of(items),
            items == keyed_updates(update@),
            out@.len() == j,
            forall|k: int| 0 <= k < j ==> #[trigger] out@[k] == run_outcome(runs_of(items)[k].0, runs_of(items)[k].1),
        decreases runs@.len() - j,
    {
        assert(runs_view(runs@)[j as int] == (runs@[j as int].0, runs@[j as int].1@));
        let key = runs[j].0;
        let outcome = reduce_run(key, &runs[j].1);
        out.push(outcome);
        j = j + 1;
    }
    Ok(out)
}

/// What one run of updates comes to, as `run_outcome` says; the removal is
/// looked for only past the first addition.
fn reduce_run(key: u64, run: &Vec<WorldUpdate>) -> (r: Result<WorldUpdate, WorldError>)
    ensures
        r == run_outcome(key, run@),
{
    let mut add = false;
    let mut i: usize = 0;
    while i < run.len() && !add
        invariant
            i <= run@.len(),
            add ==> i > 0 && run@[i - 1] is NewCharacterID,
            forall|k: int| 0 <= k < i && !(add && k == i - 1) ==> !(#[trigger] run@[k] is NewCharacterID),
        decreases run@.len() - i,
    {
        if let WorldUpdate::NewCharacterID(_) = run[i] {
            add = true;
        }
        i = i + 1;
    }
    let first = i;
    let mut remove = false;
    while i < run.len() && !remove
        invariant
            first <= i <= run@.len(),
            add ==> first > 0 && run@[first - 1] is NewCharacterID,
            add ==> forall|k: int| 0 <= k < first - 1 ==> !(#[trigger] run@[k] is NewCharacterID),
            !add ==> forall|k: int| 0 <= k < run@.len() ==> !(#[trigger] run@[k] is NewCharacterID),
            !add ==> first == run@.len(),
            remove ==> i > first && run@[i - 1] is RemoveCharacterID,
            !remove ==> forall|k: int| first <= k < i ==> !(#[trigger] run@[k] is RemoveCharacterID),
        decreases run@.len() - i,
    {
        if let WorldUpdate::RemoveCharacterID(_) = run[i] {
            remove = true;
        }
        i = i + 1;
    }
    proof {
        if add {
            assert(run_adds(run@));
            if remove {
                assert(run@[first - 1] is NewCharacterID && run@[i - 1] is RemoveCharacterID);
                assert(run_removes_after_add(run@));
            } else {
                assert forall|a: int, b: int| 0 <= a < b < run@.len() && run@[a] is NewCharacterID implies !(
                run@[b] is RemoveCharacterID) by {
                    assert(a >= first - 1);
                }
            }
        }
    }
    if add && remove {
        Err(WorldError::SimultaneousAddRemoveCharacterID(CharacterID(key)))
    } else if add {
        Ok(WorldUpdate::NewCharacterID(CharacterID(key)))
    } else {
        Ok(WorldUpdate::RemoveCharacterID(CharacterID(key)))
    }
}

/// What a component system hands back for one character: a change to one of
/// its components, or to the set of characters in the world.
pub enum Update<C> {
    Comp(C),
    World(WorldUpdate),
}

/// What one tick of the world advances besides the components themselves:
/// the tick count, the characters (by number) and the errors met so far.
pub struct WorldBook {
    pub tick: i32,
    pub characters: HashSet<u64>,
    pub errors: Vec<WorldError>,
}

/// The component changes among the results, in order.
pub open spec fn component_changes<C>(rs: Seq<Result<Update<C>, WorldError>>) -> Seq<C>
    decreases rs.len(),
{
    if rs.len() == 0 {
        Seq::empty()
    } else {
        let prev = component_changes(rs.drop_last());
        match rs.last() {
            Ok(Update::Comp(c)) => prev.push(c),
            _ => prev,
        }
    }
}

/// The changes to the set of characters among the results, in order.
pub open spec fn world_changes<C>(rs: Seq<Result<Update<C>, WorldError>>) -> Seq<WorldUpdate>
    decreases rs.len(),
{
    if rs.len() == 0 {
        Seq::empty()
    } else {
        let prev = world_changes(rs.drop_last());
        match rs.last() {
            Ok(Update::World(u)) => prev.push(u),
            _ => prev,
        }
    }
}

/// The errors among the results, in order.
pub open spec fn errors_of<T>(rs: Seq<Result<T, WorldError>>) -> Seq<WorldError>
    decreases rs.len(),
{
    if rs.len() == 0 {
        Seq::empty()
    } else {
        let prev = errors_of(rs.drop_last());
        match rs.last() {
            Err(e) => prev.push(e),
            Ok(_) => prev,
        }
    }
}

/// What `reduce_world_updates` makes of the updates: one outcome per run of
/// updates about the same character.
pub open spec fn reduced_world_updates(us: Seq<WorldUpdate>) -> Seq<Result<WorldUpdate, WorldError>> {
    runs_of(keyed_updates(us)).map_values(|r: (u64, Seq<WorldUpdate>)| run_outcome(r.0, r.1))
}

/// The characters after the updates among `rs` are carried out in order;
/// the errors leave them alone.
pub open spec fn applied_updates(chars: Set<u64>, rs: Seq<Result<WorldUpdate, WorldError>>) -> Set<u64>
    decreases rs.len(),
{
    if rs.len() == 0 {
        chars
    } else {
        let prev = applied_updates(chars, rs.drop_last());
        match rs.last() {
            Ok(WorldUpdate::NewCharacterID(id)) => prev.insert(id.0),
            Ok(WorldUpdate::RemoveCharacterID(id)) => prev.remove(id.0),
            Err(_) => prev,
        }
    }
}

/// What one tick hands back besides the new state of the world: the
/// component changes, in order, for the storages of their components, and
/// the errors met, in order.
pub struct TickOutcome<C> {
    pub components: Vec<C>,
    pub errors: Vec<WorldError>,
}

/// Advances the world by one tick, given what the component systems handed
/// back for its characters: the changes to the set of characters are
/// reduced run by run and carried out, and the tick count goes up by one.
/// The errors met are handed back, not added to the world's own errors:
/// first those among the results, then those the reduction refused. The
/// component changes are handed back in order.
pub fn world_tick<C>(state: &mut WorldBook, results: Vec<Result<Update<C>, WorldError>>) -> (out: TickOutcome<C>)
    requires
        old(state).tick < i32::MAX,
    ensures
        final(state).tick == old(state).tick + 1,
        final(state).characters@ == applied_updates(
            old(state).characters@,
            reduced_world_updates(world_changes(results@)),
        ),
        final(state).errors@ == old(state).errors@,
        out.errors@ == errors_of(results@) + errors_of(reduced_world_updates(world_changes(results@))),
        out.components@ == component_changes(results@),
{
    let ghost rs = results@;
    let mut comps: Vec<C> = Vec::new();
    let mut worlds: Vec<WorldUpdate> = Vec::new();
    let mut errors: Vec<WorldError> = Vec::new();
    for r in it: results.into_iter()
        invariant
            it.seq() == rs,
            state.tick == old(state).tick,
            state.characters@ == old(state).characters@,
            state.errors@ == old(state).errors@,
            comps@ == component_changes(rs.take(it.index() as int)),
            worlds@ == world_changes(rs.take(it.index() as int)),
            errors@ == errors_of(rs.take(it.index() as int)),
    {
        assert(rs.take(it.index() as int + 1).drop_last() =~= rs.take(it.index() as int));
        match r {
            Ok(Update::Comp(c)) => comps.push(c),
            Ok(Update::World(u)) => worlds.push(u),
            Err(e) => errors.push(e),
        }
    }
    assert(rs.take(rs.len() as int) =~= rs);
    let ghost errors1 = errors@;
    let ghost chars0 = state.characters@;
    let ghost red = reduced_world_updates(worlds@);
    let reduced = match reduce_world_updates(worlds) {
        Ok(v) => v,
        Err(e) => {
            errors.push(e);
            Vec::new()
        },
    };
    assert(reduced@ =~= red);
    for r in it: reduced.into_iter()
        invariant
            it.seq() == red,
            state.tick == old(state).tick,
            state.errors@ == old(state).errors@,
            state.characters@ == applied_updates(chars0, red.take(it.index() as int)),
            errors@ == errors1 + errors_of(red.take(it.index() as int)),
    {
        assert(red.take(it.index() as int + 1).drop_last() =~= red.take(it.index() as int));
        match r {
            Ok(u) => {
                let _ = u.apply_update(&mut state.characters);
            },
            Err(e) => errors.push(e),
        }
    }
    assert(red.take(red.len() as int) =~= red);
    state.tick = state.tick + 1;
    TickOutcome { components: comps, errors }
}

} // verus!
