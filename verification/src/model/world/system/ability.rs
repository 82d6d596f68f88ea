use vstd::prelude::*;

use super::status::{status_key, Status, StatusID, StatusPrio, StatusUpdate};

verus! {

/// The stages an ability goes through.
#[derive(Clone, Copy, Debug, PartialEq, Eq, Structural)]
pub enum Phase {
    WindUp,
    Casting,
    WindDown,
    Complete,
}

/// The moment an ability takes effect.
#[derive(Clone, Copy, Debug, PartialEq, Eq, Structural)]
pub struct FireEvent;

/// What happens to an ability's execution in a tick: it stays as it is, it
/// ends, or a new one starts from the command given.
#[derive(Clone, Copy, Debug, PartialEq, Eq, Structural)]
pub enum ExecutionDecision {
    Keep,
    Stop,
    Start,
}

/// What an ability decides in a tick, from where its execution stands
/// (`executing`, `casting`), whether it has one or is on cooldown, whether a
/// command came, and the character's current status:
/// - execution: an execution whose status was lost ends; else a command
///   starts one unless it is casting or on cooldown; else a finished one
///   ends;
/// - status: while casting, the ability's status is kept at the prioritized
///   priority; a command asks for the status with the override priority;
///   while executing otherwise, it is kept at the ability priority; with no
///   execution, the status is dropped.
pub open spec fn spec_ability_decide(
    executing: bool,
    casting: bool,
    on_cooldown: bool,
    has_command: bool,
    has_execution: bool,
    status: Status,
    status_id: StatusID,
) -> (ExecutionDecision, Option<StatusUpdate>) {
    let is_status = status.id == status_id;
    let exec = if executing && !is_status {
        ExecutionDecision::Stop
    } else if !casting && !on_cooldown && has_command {
        ExecutionDecision::Start
    } else if !executing && has_execution {
        ExecutionDecision::Stop
    } else {
        ExecutionDecision::Keep
    };
    let st = if executing && is_status && casting {
        if status.prio != StatusPrio::AbilityPrioritized {
            Some(StatusUpdate::ChangePrio(status_id, StatusPrio::AbilityPrioritized))
        } else {
            None
        }
    } else if has_command {
        Some(StatusUpdate::Try(StatusPrio::AbilityOverride, Status { id: status_id, prio: StatusPrio::Ability }))
    } else if executing && is_status && !casting {
        if status.prio != StatusPrio::Ability {
            Some(StatusUpdate::ChangePrio(status_id, StatusPrio::Ability))
        } else {
            None
        }
    } else if is_status && !executing {
        Some(StatusUpdate::Cancel(status_id))
    } else {
        None
    };
    (exec, st)
}

/// The execution and status decision of an ability in a tick, as
/// `spec_ability_decide` says; the timing of the execution (which phase it
/// is in, when it fires) is worked out by the caller.
pub fn ability_decide(
    executing: bool,
    casting: bool,
    on_cooldown: bool,
    has_command: bool,
    has_execution: bool,
    status: Status,
    status_id: StatusID,
) -> (r: (ExecutionDecision, Option<StatusUpdate>))
    ensures
        r == spec_ability_decide(executing, casting, on_cooldown, has_command, has_execution, status, status_id),
{
    let is_status = status.id == status_id;
    let exec = if executing && !is_status {
        ExecutionDecision::Stop
    } else if !casting && !on_cooldown && has_command {
        ExecutionDecision::Start
    } else if !executing && has_execution {
        ExecutionDecision::Stop
    } else {
        ExecutionDecision::Keep
    };
    let st = if executing && is_status && casting {
        if status.prio != StatusPrio::AbilityPrioritized {
            Some(StatusUpdate::ChangePrio(status_id, StatusPrio::AbilityPrioritized))
        } else {
            None
        }
    } else if has_command {
        Some(StatusUpdate::Try(StatusPrio::AbilityOverride, Status { id: status_id, prio: StatusPrio::Ability }))
    } else if executing && is_status && !casting {
        if status.prio != StatusPrio::Ability {
            Some(StatusUpdate::ChangePrio(status_id, StatusPrio::Ability))
        } else {
            None
        }
    } else if is_status && !executing {
        Some(StatusUpdate::Cancel(status_id))
    } else {
        None
    };
    (exec, st)
}

/// An ability never starts while it is casting or on cooldown, and an
/// execution whose status was lost always ends.
pub proof fn lemma_ability_start_and_stop(
    executing: bool,
    casting: bool,
    on_cooldown: bool,
    has_command: bool,
    has_execution: bool,
    status: Status,
    status_id: StatusID,
)
    ensures
        (casting || on_cooldown) ==> spec_ability_decide(
            executing,
            casting,
            on_cooldown,
            has_command,
            has_execution,
            status,
            status_id,
        ).0 != ExecutionDecision::Start,
        executing && status.id != status_id ==> spec_ability_decide(
            executing,
            casting,
            on_cooldown,
            has_command,
            has_execution,
            status,
            status_id,
        ).0 == ExecutionDecision::Stop,
{
}

/// The status of an ability follows its phase: while it is cast the status
/// is raised to the prioritized priority (unless it is there already); once
/// the cast is over and no new command came, it goes back to the ability
/// priority (unless it is there already); and an execution that has ended
/// gives its status up.
pub proof fn lemma_ability_status_follows_phase(
    executing: bool,
    casting: bool,
    on_cooldown: bool,
    has_command: bool,
    has_execution: bool,
    status: Status,
    status_id: StatusID,
)
    ensures
        ({
            let st = spec_ability_decide(
                executing,
                casting,
                on_cooldown,
                has_command,
                has_execution,
                status,
                status_id,
            ).1;
            &&& executing && status.id == status_id && casting ==> st == (if status.prio
                == StatusPrio::AbilityPrioritized {
                None
            } else {
                Some(StatusUpdate::ChangePrio(status_id, StatusPrio::AbilityPrioritized))
            })
            &&& executing && status.id == status_id && !casting && !has_command ==> st == (if status.prio
                == StatusPrio::Ability {
                None
            } else {
                Some(StatusUpdate::ChangePrio(status_id, StatusPrio::Ability))
            })
            &&& !executing && status.id == status_id && !has_command ==> st == Some(
                StatusUpdate::Cancel(status_id),
            )
            &&& has_command && !(executing && status.id == status_id && casting) ==> st == Some(
                StatusUpdate::Try(StatusPrio::AbilityOverride, Status { id: status_id, prio: StatusPrio::Ability }),
            )
        }),
{
}

/// A command starts an ability whenever it is neither being cast nor on
/// cooldown and has not lost its status; without a command, a finished
/// execution is cleared and a running one is kept.
pub proof fn lemma_ability_execution(
    executing: bool,
    casting: bool,
    on_cooldown: bool,
    has_command: bool,
    has_execution: bool,
    status: Status,
    status_id: StatusID,
)
    ensures
        ({
            let ex = spec_ability_decide(
                executing,
                casting,
                on_cooldown,
                has_command,
                has_execution,
                status,
                status_id,
            ).0;
            &&& has_command && !casting && !on_cooldown && !(executing && status.id != status_id) ==> ex
                == ExecutionDecision::Start
            &&& !has_command && !executing && has_execution ==> ex == ExecutionDecision::Stop
            &&& !has_command && executing && status.id == status_id ==> ex == ExecutionDecision::Keep
            &&& !executing && !has_execution && !(has_command && !casting && !on_cooldown) ==> ex
                == ExecutionDecision::Keep
        }),
{
}

/// What the reduction of an ability's changes looks at in each: whether it
/// holds an execution, its cooldown timeout, and its status.
#[derive(Clone, Copy, Debug, PartialEq, Eq, Structural)]
pub struct AbilityChange {
    pub executing: bool,
    pub cooldown_timeout: i32,
    pub status_id: StatusID,
}

/// Of two changes, the first is kept when it holds an execution and the
/// second does not, or its cooldown runs out later, or, with the same
/// timeout, its status comes no earlier.
pub open spec fn keeps_first(a: AbilityChange, b: AbilityChange) -> bool {
    a.executing && (!b.executing || a.cooldown_timeout > b.cooldown_timeout || (a.cooldown_timeout
        == b.cooldown_timeout && status_key(a.status_id) >= status_key(b.status_id)))
}

/// The change that wins when the changes are compared from the first on,
/// each against the winner so far; none if there are none.
pub open spec fn winning_change(cs: Seq<AbilityChange>) -> Option<AbilityChange>
    decreases cs.len(),
{
    if cs.len() == 0 {
        None
    } else {
        match winning_change(cs.drop_last()) {
            None => Some(cs.last()),
            Some(a) => if keeps_first(a, cs.last()) {
                Some(a)
            } else {
                Some(cs.last())
            },
        }
    }
}

/// The one change to an ability that stands out of those made in a tick,
/// as `winning_change` says.
pub fn reduce_ability_changes(changes: &[AbilityChange]) -> (r: Option<AbilityChange>)
    ensures
        r == winning_change(changes@),
{
    let mut best: Option<AbilityChange> = None;
    let mut i: usize = 0;
    while i < changes.len()
        invariant
            i <= changes@.len(),
            best == winning_change(changes@.take(i as int)),
        decreases changes@.len() - i,
    {
        let b = changes[i];
        assert(changes@.take(i + 1).drop_last() =~= changes@.take(i as int));
        best = match best {
            None => Some(b),
            Some(a) => {
                if a.executing && (!b.executing || a.cooldown_timeout > b.cooldown_timeout || (
                a.cooldown_timeout == b.cooldown_timeout && a.status_id.key() >= b.status_id.key())) {
                    Some(a)
                } else {
                    Some(b)
                }
            },
        };
        i = i + 1;
    }
    assert(changes@.take(i as int) =~= changes@);
    best
}

/// A change that holds an execution is never passed over for one that does
/// not: if any change holds an execution, the winner does.
pub proof fn lemma_execution_wins(cs: Seq<AbilityChange>)
    ensures
        (exists|i: int| 0 <= i < cs.len() && (#[trigger] cs[i]).executing) ==> (winning_change(
            cs,
        ) matches Some(w) && w.executing),
    decreases cs.len(),
{
    if cs.len() > 0 {
        let init = cs.drop_last();
        lemma_execution_wins(init);
        if exists|i: int| 0 <= i < init.len() && (#[trigger] init[i]).executing {
            let i = choose|i: int| 0 <= i < init.len() && (#[trigger] init[i]).executing;
            assert(init[i] == cs[i]);
        }
        if exists|i: int| 0 <= i < cs.len() && (#[trigger] cs[i]).executing {
            let i = choose|i: int| 0 <= i < cs.len() && (#[trigger] cs[i]).executing;
            if i < init.len() {
                assert(init[i] == cs[i]);
            }
        }
    }
}

} // verus!
