use vstd::prelude::*;

use crate::model::world::character::{CharacterID, CharacterIDRange};
use crate::model::world::component::ComponentID;
use crate::model::world::WorldError;

use super::status::{Status, StatusID, StatusPrio, StatusUpdate};

verus! {

/// The stages an auto attack goes through.
#[derive(Clone, Copy, Debug, PartialEq, Eq, Structural)]
pub enum AutoAttackPhase {
    WindUp,
    Casting,
    WindDown,
    Complete,
}

/// The string of attacks a character has lined up on a target, with the
/// IDs left for the projectiles it fires.
#[derive(Clone, Copy, Debug)]
pub struct AutoAttackTargeting {
    pub target: CharacterID,
    pub ids: CharacterIDRange,
}

/// The moment an auto attack fires.
#[derive(Clone, Copy, Debug, PartialEq, Eq, Structural)]
pub struct AutoAttackFireEvent;

/// A player's request that one character attack another.
#[derive(Debug)]
pub struct AutoAttackRequest {
    pub attacker: CharacterID,
    pub target: CharacterID,
}

/// The command to attack a target, with IDs for the projectiles.
#[derive(Clone, Copy, Debug)]
pub struct AutoAttackCommand {
    pub target: CharacterID,
    pub projectile_gen_ids: CharacterIDRange,
}

/// What a character's auto attack knows in a tick, once the timing of its
/// execution and its walk towards the target are worked out.
#[derive(Clone, Copy, Debug)]
pub struct AutoAttackFacts {
    /// An attack is under way and not complete.
    pub executing: bool,
    /// The attack under way is in its casting phase.
    pub casting: bool,
    /// The character's current status is auto attacking.
    pub is_status: bool,
    /// The priority of the auto attack status waiting for the character, if
    /// one is.
    pub status_in_queue: Option<StatusPrio>,
    pub targeting: Option<AutoAttackTargeting>,
    /// The cooldown has run out by this tick (`cooldown_timeout <= tick`).
    pub on_cooldown: bool,
    /// A command naming a target other than the current one.
    pub command: Option<AutoAttackCommand>,
    /// The character is within range of its target.
    pub arrived: bool,
}

/// What happens to the attack under way.
#[derive(Clone, Copy, Debug)]
pub enum AttackExecution {
    Keep,
    Stop,
    /// A new attack on `target`, firing the projectile with this ID.
    Start { projectile_gen_id: CharacterID, target: CharacterID },
}

/// What a character's auto attack decides in a tick.
#[derive(Clone, Copy, Debug)]
pub struct AutoAttackDecision {
    pub execution: AttackExecution,
    /// The new targeting, if it changes (`Some(None)`: no target).
    pub targeting: Option<Option<AutoAttackTargeting>>,
    pub status: Option<StatusUpdate>,
}

/// The auto attack's decision in a tick:
/// - execution: an attack whose status was lost stops; an idle character
///   that holds the status, has arrived and whose cooldown `on_cooldown`
///   says is not running starts an attack with the next projectile ID of its
///   targeting, or gives up targeting once the IDs are used up;
/// - targeting: a command sets a new target; a targeting character whose
///   status waits, or one that gave up, drops it; one that started an attack
///   keeps its target with the IDs left; one with no IDs left drops it;
/// - status: while casting, the status is kept at the prioritized priority;
///   a command asks for the status with the override priority; while
///   attacking otherwise, or targeting with the status waiting, it is kept at
///   the ability priority unless prioritized; an attack without the status,
///   or no attack and no target with the status waiting, drops it. Where the
///   status must be waiting and is not, that is a logic error.
pub open spec fn spec_auto_attack_decide(f: AutoAttackFacts) -> Result<AutoAttackDecision, WorldError> {
    let targeting = f.targeting is Some;
    let (stop_targeting, execution, new_ids): (bool, AttackExecution, Option<CharacterIDRange>) = if f.executing
        && !f.is_status {
        (false, AttackExecution::Stop, None)
    } else if !f.executing && f.is_status && f.arrived && !f.on_cooldown {
        match f.targeting {
            Some(t) => if t.ids.0 < t.ids.1 {
                (
                    false,
                    AttackExecution::Start { projectile_gen_id: CharacterID(t.ids.0), target: t.target },
                    Some(CharacterIDRange((t.ids.0 + 1) as u64, t.ids.1)),
                )
            } else {
                (true, AttackExecution::Keep, None)
            },
            None => (false, AttackExecution::Keep, None),
        }
    } else {
        (false, AttackExecution::Keep, None)
    };
    let targeting_update: Option<Option<AutoAttackTargeting>> = match f.command {
        Some(cmd) => Some(Some(AutoAttackTargeting { target: cmd.target, ids: cmd.projectile_gen_ids })),
        None => if (f.status_in_queue is Some && targeting) || stop_targeting {
            Some(None)
        } else if new_ids is Some {
            Some(Some(AutoAttackTargeting { target: f.targeting->0.target, ids: new_ids->0 }))
        } else if targeting && f.targeting->0.ids.0 >= f.targeting->0.ids.1 {
            Some(None)
        } else {
            None
        },
    };
    let status: Result<Option<StatusUpdate>, WorldError> = if (f.arrived || f.executing) && f.is_status
        && f.casting {
        match f.status_in_queue {
            None => Err(WorldError::BadLogic),
            Some(p) => Ok(
                if p != StatusPrio::AbilityPrioritized {
                    Some(StatusUpdate::ChangePrio(StatusID::AutoAttack, StatusPrio::AbilityPrioritized))
                } else {
                    None
                },
            ),
        }
    } else if f.command is Some {
        Ok(
            Some(
                StatusUpdate::Try(
                    StatusPrio::AbilityOverride,
                    Status { id: StatusID::AutoAttack, prio: StatusPrio::AbilityOverride },
                ),
            ),
        )
    } else if ((f.arrived || f.executing) && f.is_status && !f.casting) || (targeting && f.status_in_queue is Some) {
        match f.status_in_queue {
            None => Err(WorldError::BadLogic),
            Some(p) => Ok(
                if p != StatusPrio::AbilityPrioritized {
                    Some(StatusUpdate::ChangePrio(StatusID::AutoAttack, StatusPrio::Ability))
                } else {
                    None
                },
            ),
        }
    } else if (f.executing && !f.is_status) || (!f.executing && !targeting && f.status_in_queue is Some) {
        Ok(Some(StatusUpdate::Cancel(StatusID::AutoAttack)))
    } else {
        Ok(None)
    };
    match status {
        Err(e) => Err(e),
        Ok(s) => Ok(AutoAttackDecision { execution, targeting: targeting_update, status: s }),
    }
}

fn status_for_prio(p: Option<StatusPrio>, prioritized: bool) -> (r: Result<Option<StatusUpdate>, WorldError>)
    ensures
        r == match p {
            None => Err(WorldError::BadLogic),
            Some(q) => Ok(
                if q != StatusPrio::AbilityPrioritized {
                    Some(
                        StatusUpdate::ChangePrio(
                            StatusID::AutoAttack,
                            if prioritized {
                                StatusPrio::AbilityPrioritized
                            } else {
                                StatusPrio::Ability
                            },
                        ),
                    )
                } else {
                    None
                },
            ),
        },
{
    match p {
        None => Err(WorldError::BadLogic),
        Some(q) => {
            if q != StatusPrio::AbilityPrioritized {
                Ok(
                    Some(
                        StatusUpdate::ChangePrio(
                            StatusID::AutoAttack,
                            if prioritized {
                                StatusPrio::AbilityPrioritized
                            } else {
                                StatusPrio::Ability
                            },
                        ),
                    ),
                )
            } else {
                Ok(None)
            }
        },
    }
}

/// The auto attack's decision in a tick, as `spec_auto_attack_decide` says.
pub fn auto_attack_decide(facts: AutoAttackFacts) -> (r: Result<AutoAttackDecision, WorldError>)
    ensures
        r == spec_auto_attack_decide(facts),
{
    let f = facts;
    let targeting = f.targeting.is_some();
    let (stop_targeting, execution, new_ids) = if f.executing && !f.is_status {
        (false, AttackExecution::Stop, None)
    } else if !f.executing && f.is_status && f.arrived && !f.on_cooldown {
        match f.targeting {
            Some(t) => {
                let (first, rest) = t.ids.split_id();
                match first {
                    Some(id) => (
                        false,
                        AttackExecution::Start { projectile_gen_id: id, target: t.target },
                        Some(rest),
                    ),
                    None => (true, AttackExecution::Keep, None),
                }
            },
            None => (false, AttackExecution::Keep, None),
        }
    } else {
        (false, AttackExecution::Keep, None)
    };
    let targeting_update = match f.command {
        Some(cmd) => Some(Some(AutoAttackTargeting { target: cmd.target, ids: cmd.projectile_gen_ids })),
        None => {
            if (f.status_in_queue.is_some() && targeting) || stop_targeting {
                Some(None)
            } else if let Some(ids) = new_ids {
                match f.targeting {
                    Some(t) => Some(Some(AutoAttackTargeting { target: t.target, ids })),
                    None => None,
                }
            } else {
                match f.targeting {
                    Some(t) => if t.ids.is_empty() {
                        Some(None)
                    } else {
                        None
                    },
                    None => None,
                }
            }
        },
    };
    let status = if (f.arrived || f.executing) && f.is_status && f.casting {
        status_for_prio(f.status_in_queue, true)
    } else if f.command.is_some() {
        Ok(
            Some(
                StatusUpdate::Try(
                    StatusPrio::AbilityOverride,
                    Status { id: StatusID::AutoAttack, prio: StatusPrio::AbilityOverride },
                ),
            ),
        )
    } else if ((f.arrived || f.executing) && f.is_status && !f.casting) || (targeting && f.status_in_queue.is_some()) {
        status_for_prio(f.status_in_queue, false)
    } else if (f.executing && !f.is_status) || (!f.executing && !targeting && f.status_in_queue.is_some()) {
        Ok(Some(StatusUpdate::Cancel(StatusID::AutoAttack)))
    } else {
        Ok(None)
    };
    match status {
        Err(e) => Err(e),
        Ok(s) => Ok(AutoAttackDecision { execution, targeting: targeting_update, status: s }),
    }
}

/// The auto attack's status follows its phase: while an attack that holds
/// the status is cast (or the character has arrived and is casting), the
/// status is raised to the prioritized priority unless it is there already;
/// and a command for a new target, outside a cast, asks for the status with
/// the override priority.
pub proof fn lemma_attack_status_follows_phase(f: AutoAttackFacts)
    ensures
        (f.arrived || f.executing) && f.is_status && f.casting && f.status_in_queue is Some ==> {
            &&& spec_auto_attack_decide(f) is Ok
            &&& spec_auto_attack_decide(f)->Ok_0.status == (if f.status_in_queue->0
                == StatusPrio::AbilityPrioritized {
                None
            } else {
                Some(StatusUpdate::ChangePrio(StatusID::AutoAttack, StatusPrio::AbilityPrioritized))
            })
        },
        (f.arrived || f.executing) && f.is_status && f.casting && f.status_in_queue is None
            ==> spec_auto_attack_decide(f) == Err::<AutoAttackDecision, WorldError>(WorldError::BadLogic),
        !((f.arrived || f.executing) && f.is_status && f.casting) && f.command is Some ==> {
            &&& spec_auto_attack_decide(f) is Ok
            &&& spec_auto_attack_decide(f)->Ok_0.status == Some(
                StatusUpdate::Try(
                    StatusPrio::AbilityOverride,
                    Status { id: StatusID::AutoAttack, prio: StatusPrio::AbilityOverride },
                ),
            )
            &&& spec_auto_attack_decide(f)->Ok_0.targeting == Some(
                Some(AutoAttackTargeting { target: f.command->0.target, ids: f.command->0.projectile_gen_ids }),
            )
        },
{
}

/// An attack whose status was lost stops; an idle attacker that holds the
/// status, has arrived and whose cooldown allows it fires the next
/// projectile ID of its targeting at its target, or lets the target go once
/// the IDs are used up.
pub proof fn lemma_attack_execution(f: AutoAttackFacts)
    ensures
        f.executing && !f.is_status ==> {
            &&& spec_auto_attack_decide(f) is Ok
            &&& spec_auto_attack_decide(f)->Ok_0.execution is Stop
        },
        !f.executing && f.is_status && f.arrived && !f.on_cooldown && f.targeting is Some
            && spec_auto_attack_decide(f) is Ok ==> {
            let t = f.targeting->0;
            &&& t.ids.0 < t.ids.1 ==> spec_auto_attack_decide(f)->Ok_0.execution == (AttackExecution::Start {
                projectile_gen_id: CharacterID(t.ids.0),
                target: t.target,
            })
            &&& t.ids.0 >= t.ids.1 ==> spec_auto_attack_decide(f)->Ok_0.execution is Keep
                && (f.command is None ==> spec_auto_attack_decide(f)->Ok_0.targeting == Some(
                None::<AutoAttackTargeting>,
            ))
        },
        !f.executing && !(f.is_status && f.arrived && !f.on_cooldown) && spec_auto_attack_decide(f) is Ok
            ==> spec_auto_attack_decide(f)->Ok_0.execution is Keep,
{
}

/// A command given to one component of a character, as the auto attack
/// sees it: `command` is the attack command it carries, if it is one.
#[derive(Clone, Copy, Debug)]
pub struct CharacterCommandEntry {
    pub cid: CharacterID,
    pub component: ComponentID,
    pub command: Option<AutoAttackCommand>,
}

/// The entry is an attack command for the auto attack of `cid` that names a
/// target other than the current one.
pub open spec fn counts_for(e: CharacterCommandEntry, cid: CharacterID, current_target: Option<CharacterID>) -> bool {
    &&& e.cid == cid
    &&& e.component == ComponentID::AutoAttack
    &&& e.command is Some
    &&& current_target != Some(e.command->0.target)
}

/// `a` comes no earlier than `b` in the order of their projectile IDs, then
/// their targets.
pub open spec fn command_at_least(a: AutoAttackCommand, b: AutoAttackCommand) -> bool {
    ||| a.projectile_gen_ids.0 > b.projectile_gen_ids.0
    ||| (a.projectile_gen_ids.0 == b.projectile_gen_ids.0 && a.projectile_gen_ids.1 > b.projectile_gen_ids.1)
    ||| (a.projectile_gen_ids == b.projectile_gen_ids && a.target.0 >= b.target.0)
}

/// The command that counts among `es`: of those that count, the largest by
/// projectile IDs and then target; of equal ones, the last.
pub open spec fn chosen_command(es: Seq<CharacterCommandEntry>, cid: CharacterID, current_target: Option<CharacterID>) -> Option<
    AutoAttackCommand,
>
    decreases es.len(),
{
    if es.len() == 0 {
        None
    } else {
        let prev = chosen_command(es.drop_last(), cid, current_target);
        let e = es.last();
        if !counts_for(e, cid, current_target) {
            prev
        } else {
            match prev {
                None => e.command,
                Some(b) => if command_at_least(e.command->0, b) {
                    e.command
                } else {
                    prev
                },
            }
        }
    }
}

/// Picks the attack command that counts for the character in a tick, as
/// `chosen_command` says: `None` exactly when no command counts.
pub fn select_auto_attack_command(
    commands: &[CharacterCommandEntry],
    cid: CharacterID,
    current_target: Option<CharacterID>,
) -> (r: Option<AutoAttackCommand>)
    ensures
        r == chosen_command(commands@, cid, current_target),
{
    let mut best: Option<AutoAttackCommand> = None;
    let mut i: usize = 0;
    while i < commands.len()
        invariant
            i <= commands@.len(),
            best == chosen_command(commands@.take(i as int), cid, current_target),
        decreases commands@.len() - i,
    {
        let e = commands[i];
        assert(commands@.take(i + 1).drop_last() =~= commands@.take(i as int));
        assert(commands@.take(i + 1).last() == e);
        if let Some(cmd) = e.command {
            let new_target = match current_target {
                Some(t) => t.0 != cmd.target.0,
                None => true,
            };
            if e.cid.0 == cid.0 && e.component == ComponentID::AutoAttack && new_target {
                best = match best {
                    None => Some(cmd),
                    Some(b) => {
                        let (a0, a1, b0, b1) = (cmd.projectile_gen_ids.0, cmd.projectile_gen_ids.1, b.projectile_gen_ids.0, b.projectile_gen_ids.1);
                        if a0 > b0 || (a0 == b0 && a1 > b1) || (a0 == b0 && a1 == b1 && cmd.target.0 >= b.target.0) {
                            Some(cmd)
                        } else {
                            Some(b)
                        }
                    },
                };
            }
        }
        i = i + 1;
    }
    assert(commands@.take(i as int) =~= commands@);
    best
}

/// The command picked counts, and no command that counts comes after it in
/// the order of projectile IDs and targets; there is one whenever some
/// command counts.
pub proof fn lemma_chosen_command_is_largest(
    es: Seq<CharacterCommandEntry>,
    cid: CharacterID,
    current_target: Option<CharacterID>,
)
    ensures
        chosen_command(es, cid, current_target) is None <==> forall|i: int|
            0 <= i < es.len() ==> !counts_for(#[trigger] es[i], cid, current_target),
        chosen_command(es, cid, current_target) matches Some(c) ==> exists|i: int|
            0 <= i < es.len() && counts_for(#[trigger] es[i], cid, current_target) && es[i].command == Some(c),
        chosen_command(es, cid, current_target) matches Some(c) ==> forall|i: int|
            0 <= i < es.len() && counts_for(#[trigger] es[i], cid, current_target) ==> command_at_least(
                c,
                es[i].command->0,
            ),
    decreases es.len(),
{
    if es.len() > 0 {
        let init = es.drop_last();
        lemma_chosen_command_is_largest(init, cid, current_target);
        assert forall|i: int| 0 <= i < init.len() implies #[trigger] init[i] == es[i] by {}
        let n = es.len() - 1;
        assert(es[n] == es.last());
        if chosen_command(init, cid, current_target) is Some {
            let i = choose|i: int|
                0 <= i < init.len() && counts_for(#[trigger] init[i], cid, current_target) && init[i].command
                    == chosen_command(init, cid, current_target);
            assert(counts_for(es[i], cid, current_target));
        }
        if exists|i: int| 0 <= i < es.len() && counts_for(#[trigger] es[i], cid, current_target) {
            let i = choose|i: int| 0 <= i < es.len() && counts_for(#[trigger] es[i], cid, current_target);
            if i < n {
                assert(counts_for(init[i], cid, current_target));
            }
        }
        if chosen_command(es, cid, current_target) is Some {
            let c = chosen_command(es, cid, current_target)->0;
            assert forall|i: int|
                0 <= i < es.len() && counts_for(#[trigger] es[i], cid, current_target) implies command_at_least(
                c,
                es[i].command->0,
            ) by {
                if i < n {
                    assert(counts_for(init[i], cid, current_target));
                }
            }
        }
    }
}

/// The target the character is attacking, if any.
pub open spec fn current_target_of(f: AutoAttackFacts) -> Option<CharacterID> {
    match f.targeting {
        Some(t) => Some(t.target),
        None => None,
    }
}

/// The system that runs the characters' auto attacks.
pub struct AutoAttackSystem;

impl AutoAttackSystem {
    /// The auto attack's decision in a tick from the commands given in it:
    /// the command that counts, as `chosen_command` picks it against the
    /// current target, takes the place of `facts.command`, and the decision
    /// is then as `spec_auto_attack_decide` says. How the attack's timing
    /// and the walk to the target come out is worked out by the caller and
    /// given in `facts`.
    pub fn update_character(
        &self,
        facts: AutoAttackFacts,
        commands: &[CharacterCommandEntry],
        cid: CharacterID,
    ) -> (r: Result<AutoAttackDecision, WorldError>)
        ensures
            r == spec_auto_attack_decide(
                AutoAttackFacts { command: chosen_command(commands@, cid, current_target_of(facts)), ..facts },
            ),
    {
        let current_target = match facts.targeting {
            Some(t) => Some(t.target),
            None => None,
        };
        let command = select_auto_attack_command(commands, cid, current_target);
        auto_attack_decide(AutoAttackFacts { command, ..facts })
    }
}

} // verus!
